use std::sync::Arc;
use substrait_types::class::{Class, Compound, ParameterInfo, Simple};
use substrait_types::data_type::{DataType, Parameter};
use substrait_types::diagnostic::Cause;
use substrait_types::extension::{TypeDefinition, TypeVariation};

fn simple(s: Simple) -> DataType {
    DataType::new(Class::Simple(s), false, None, vec![]).unwrap()
}

fn compound(c: Compound, params: Vec<Parameter>) -> Result<DataType, Cause> {
    DataType::new(Class::Compound(c), false, None, params)
}

fn names(v: &[&str]) -> Vec<String> {
    v.iter().map(|s| s.to_string()).collect()
}

fn is_mismatch(r: &Result<DataType, Cause>) -> bool {
    matches!(r, Err(Cause::MismatchedTypeParameters(_)))
}

#[test]
fn valid_parameters_are_kept() {
    let cases: Vec<(Compound, Vec<Parameter>)> = vec![
        (Compound::FixedChar, vec![Parameter::Unsigned(1)]),
        (Compound::VarChar, vec![Parameter::Unsigned(2147483647)]),
        (Compound::FixedBinary, vec![Parameter::Unsigned(16)]),
        (Compound::Decimal, vec![Parameter::Unsigned(10), Parameter::Unsigned(0)]),
        (Compound::Struct, vec![]),
        (Compound::Struct, vec![Parameter::Type(simple(Simple::I32))]),
        (
            Compound::NamedStruct,
            vec![
                Parameter::NamedType("a".to_string(), simple(Simple::I32)),
                Parameter::NamedType("b".to_string(), simple(Simple::I32)),
            ],
        ),
        (Compound::List, vec![Parameter::Type(simple(Simple::String))]),
        (
            Compound::MapType,
            vec![Parameter::Type(simple(Simple::I64)), Parameter::Type(simple(Simple::Date))],
        ),
    ];
    for (c, params) in cases {
        let expected = format!("{:?}", params);
        let t = compound(c, params).unwrap();
        assert_eq!(format!("{:?}", t.parameters()), expected);
    }
}

#[test]
fn malformed_parameters_are_rejected() {
    let cases: Vec<(Compound, Vec<Parameter>)> = vec![
        (Compound::FixedChar, vec![]),
        (Compound::FixedChar, vec![Parameter::Unsigned(0)]),
        (Compound::VarChar, vec![Parameter::Unsigned(2147483648)]),
        (Compound::FixedBinary, vec![Parameter::Type(simple(Simple::I8))]),
        (Compound::FixedBinary, vec![Parameter::Unsigned(1), Parameter::Unsigned(1)]),
        (Compound::Decimal, vec![Parameter::Unsigned(10)]),
        (Compound::Decimal, vec![Parameter::Type(simple(Simple::I8)), Parameter::Unsigned(1)]),
        (Compound::Decimal, vec![Parameter::Unsigned(10), Parameter::Type(simple(Simple::I8))]),
        (Compound::Struct, vec![Parameter::Unsigned(3)]),
        (Compound::Struct, vec![Parameter::NamedType("a".to_string(), simple(Simple::I8))]),
        (Compound::NamedStruct, vec![Parameter::Type(simple(Simple::I8))]),
        (Compound::List, vec![]),
        (Compound::List, vec![Parameter::Unsigned(3)]),
        (Compound::MapType, vec![Parameter::Type(simple(Simple::I8))]),
        (Compound::MapType, vec![Parameter::Type(simple(Simple::I8)), Parameter::Unsigned(1)]),
    ];
    for (c, params) in cases {
        assert!(is_mismatch(&compound(c, params)));
    }
    let r = DataType::new(Class::Simple(Simple::I8), false, None, vec![Parameter::Unsigned(1)]);
    assert!(is_mismatch(&r));
    let udt = Class::UserDefined(Arc::new(TypeDefinition { name: "point".to_string() }));
    assert!(is_mismatch(&DataType::new(udt, false, None, vec![Parameter::Unsigned(1)])));
    let unresolved = Class::Unresolved("x".to_string());
    assert!(DataType::new(unresolved, false, None, vec![Parameter::Unsigned(1)]).is_ok());
}

#[test]
fn decimal_bounds() {
    let ok = compound(Compound::Decimal, vec![Parameter::Unsigned(38), Parameter::Unsigned(38)]);
    assert!(ok.is_ok());
    let wide = compound(Compound::Decimal, vec![Parameter::Unsigned(39), Parameter::Unsigned(0)]);
    assert!(is_mismatch(&wide));
    let scale = compound(Compound::Decimal, vec![Parameter::Unsigned(5), Parameter::Unsigned(6)]);
    assert!(is_mismatch(&scale));
}

#[test]
fn named_struct_duplicate_names() {
    let same = compound(
        Compound::NamedStruct,
        vec![
            Parameter::NamedType("a".to_string(), simple(Simple::I32)),
            Parameter::NamedType("a".to_string(), simple(Simple::I32)),
        ],
    );
    assert!(is_mismatch(&same));
    let different = compound(
        Compound::NamedStruct,
        vec![
            Parameter::NamedType("a".to_string(), simple(Simple::I32)),
            Parameter::NamedType("a".to_string(), simple(Simple::String)),
        ],
    );
    assert!(is_mismatch(&different));
    let case = compound(
        Compound::NamedStruct,
        vec![
            Parameter::NamedType("a".to_string(), simple(Simple::I32)),
            Parameter::NamedType("A".to_string(), simple(Simple::I32)),
        ],
    );
    assert!(case.is_ok());
}

#[test]
fn index_struct_fields() {
    let t = DataType::new_struct(vec![simple(Simple::I32), simple(Simple::String)], false);
    assert_eq!(t.index_struct(0), Some(&simple(Simple::I32)));
    assert_eq!(t.index_struct(1), Some(&simple(Simple::String)));
    assert_eq!(t.index_struct(2), None);
    let u = DataType::new_unresolved("unknown");
    for k in [0usize, 1, 7, 1000] {
        assert_eq!(u.index_struct(k), Some(&u));
    }
    assert_eq!(simple(Simple::I32).index_struct(0), None);
}

#[test]
fn unresolved_deep() {
    let bad = compound(Compound::List, vec![Parameter::Type(DataType::new_unresolved(""))]).unwrap();
    assert!(bad.is_unresolved_deep());
    assert!(!bad.is_unresolved());
    let good = compound(Compound::List, vec![Parameter::Type(simple(Simple::I32))]).unwrap();
    assert!(!good.is_unresolved_deep());
    assert!(DataType::default().is_unresolved());
}

#[test]
fn queries() {
    let s = DataType::new_struct(vec![], true);
    assert!(s.is_struct());
    assert!(s.nullable());
    assert!(s.is_base_type());
    assert_eq!(s.class(), &Class::Compound(Compound::Struct));
    let v: Option<Arc<TypeVariation>> = Some(Arc::new(TypeVariation { name: "dict".to_string() }));
    let t = DataType::new(Class::Simple(Simple::String), false, v.clone(), vec![]).unwrap();
    assert!(!t.is_base_type());
    assert_eq!(t.variation(), &v);
    let (class, nullable, variation, params) = t.into_parts();
    assert_eq!(class, Class::Simple(Simple::String));
    assert!(!nullable);
    assert_eq!(variation, v);
    assert!(params.is_empty());
    assert!(!simple(Simple::I8).is_struct());
}

fn nested_struct() -> DataType {
    let inner = DataType::new_struct(vec![simple(Simple::I8), simple(Simple::I16)], false);
    let list = compound(Compound::List, vec![Parameter::Type(inner)]).unwrap();
    DataType::new_struct(vec![simple(Simple::I32), list], false)
}

#[test]
fn field_names_round_trip() {
    let (anon, split) = nested_struct().split_field_names();
    assert_eq!(split, names(&["0", "1", "0", "1"]));
    assert_eq!(anon, nested_struct());
    let named = anon.apply_field_names(&names(&["a", "b", "c", "d"])).unwrap();
    assert_eq!(named.to_string(), "NSTRUCT<a: i32, b: LIST<NSTRUCT<c: i8, d: i16>>>");
    let (back, again) = named.split_field_names();
    assert_eq!(again, names(&["a", "b", "c", "d"]));
    assert_eq!(back, nested_struct());
}

#[test]
fn field_names_count_mismatch() {
    let (anon, split) = nested_struct().split_field_names();
    let fewer = names(&["a", "b", "c"]);
    assert_eq!(
        anon.apply_field_names(&fewer),
        Err(Cause::MismatchedFieldNameAssociations("received too few field name(s)".to_string()))
    );
    let (anon, _) = nested_struct().split_field_names();
    let mut more = split.clone();
    more.push("e".to_string());
    assert_eq!(
        anon.apply_field_names(&more),
        Err(Cause::MismatchedFieldNameAssociations("received 1 too many field name(s)".to_string()))
    );
    let (anon, _) = nested_struct().split_field_names();
    assert!(anon.apply_field_names(&split).is_ok());
}

#[test]
fn field_names_duplicate() {
    let t = DataType::new_struct(vec![simple(Simple::I8), simple(Simple::I16)], false);
    let r = t.apply_field_names(&names(&["x", "x"]));
    assert!(matches!(r, Err(Cause::MismatchedTypeParameters(_))));
}

#[test]
fn strip_names() {
    let t = compound(
        Compound::NamedStruct,
        vec![Parameter::NamedType("a".to_string(), simple(Simple::Uuid))],
    )
    .unwrap();
    let stripped = t.strip_field_names();
    assert_eq!(stripped, DataType::new_struct(vec![simple(Simple::Uuid)], false));
}

#[test]
fn rendering() {
    let t = DataType::new(
        Class::Compound(Compound::FixedChar),
        true,
        None,
        vec![Parameter::Unsigned(10)],
    )
    .unwrap();
    assert_eq!(t.to_string(), "FIXEDCHAR?<10>");
    let v = Some(Arc::new(TypeVariation { name: "dict".to_string() }));
    let s = DataType::new(Class::Simple(Simple::TimestampTz), false, v, vec![]).unwrap();
    assert_eq!(s.to_string(), "timestamp_tz[dict]");
    let n = compound(
        Compound::NamedStruct,
        vec![
            Parameter::NamedType("two words".to_string(), simple(Simple::I8)),
            Parameter::NamedType("q\"".to_string(), simple(Simple::I8)),
        ],
    )
    .unwrap();
    assert_eq!(n.to_string(), "NSTRUCT<\"two words\": i8, \"q\\\"\": i8>");
    assert_eq!(DataType::new_unresolved("why").to_string(), "!");
    assert_eq!(Parameter::Unsigned(1234567).to_string(), "1234567");
    let udt = Class::UserDefined(Arc::new(TypeDefinition { name: "point".to_string() }));
    assert_eq!(udt.to_string(), "point");
}

#[test]
fn names_round_trip() {
    let simples = Simple::all();
    assert_eq!(simples.len(), 16);
    for s in simples {
        assert_eq!(Simple::from_name(s.name()), Some(s));
        assert_eq!(Simple::from_name(&s.name().to_uppercase()), Some(s));
    }
    for c in Compound::all() {
        assert_eq!(Compound::from_name(c.name()), Some(c));
        assert_eq!(Compound::from_name(&c.name().to_lowercase()), Some(c));
    }
    assert_eq!(Compound::NamedStruct.name(), "NSTRUCT");
    assert_eq!(Simple::IntervalYear.name(), "interval_year");
    assert_eq!(Simple::from_name("TimeStamp_TZ"), Some(Simple::TimestampTz));
    assert_eq!(Simple::from_name("timestamptz"), None);
    assert_eq!(Compound::from_name("NamedStruct"), None);
}

#[test]
fn parameter_names() {
    let d = Class::Compound(Compound::Decimal);
    assert_eq!(d.parameter_name(0), Some("precision".to_string()));
    assert_eq!(d.parameter_name(1), Some("scale".to_string()));
    assert_eq!(d.parameter_name(2), None);
    assert_eq!(Compound::Struct.parameter_name(12), Some("12".to_string()));
    assert_eq!(Compound::MapType.parameter_name(1), Some("value".to_string()));
    assert_eq!(Compound::List.parameter_name(0), Some("element".to_string()));
    assert_eq!(Class::Simple(Simple::I8).parameter_name(0), None);
}

#[test]
fn parameter_helpers() {
    let p = Parameter::NamedType("a".to_string(), simple(Simple::I8));
    assert_eq!(p.get_name(), Some("a"));
    let (q, n) = p.split_name();
    assert_eq!(q, Parameter::Type(simple(Simple::I8)));
    assert_eq!(n, Some("a".to_string()));
    let named: Result<Parameter, ()> = q.with_name(|| Ok("b".to_string()));
    assert_eq!(named, Ok(Parameter::NamedType("b".to_string(), simple(Simple::I8))));
    let kept: Result<Parameter, ()> = Parameter::Unsigned(4).with_name(|| Err(()));
    assert_eq!(kept, Ok(Parameter::Unsigned(4)));
    let mapped = Parameter::Type(simple(Simple::I8)).map_type(|_| simple(Simple::I16));
    assert_eq!(mapped, Parameter::Type(simple(Simple::I16)));
    let failed: Result<Parameter, &str> =
        Parameter::Type(simple(Simple::I8)).map_type_result(|_| Err("no"));
    assert_eq!(failed, Err("no"));
    assert_eq!(Parameter::from(7u64), Parameter::Unsigned(7));
    assert_eq!(Parameter::from(simple(Simple::I8)), Parameter::Type(simple(Simple::I8)));
}

struct NoResolver;

impl substrait_types::extension::TypeResolver for NoResolver {
    fn resolve_type(&self, name: &str) -> Result<Arc<TypeDefinition>, Cause> {
        Err(Cause::NameResolutionFailed(name.to_string()))
    }

    fn resolve_type_variation(
        &self,
        name: &str,
        _base_type: Class,
    ) -> Result<Arc<TypeVariation>, Cause> {
        Err(Cause::NameResolutionFailed(name.to_string()))
    }
}

#[test]
fn parse_is_not_implemented() {
    let r = DataType::parse("i32", NoResolver);
    assert!(matches!(r, Err(Cause::NotYetImplemented(_))));
}

#[test]
fn decode_errors_become_causes() {
    let e = prost::DecodeError::new_unexpected_type_url("a", "b");
    let c = Cause::from(e.clone());
    assert_eq!(c, Cause::ProtoParseFailure(e));
    let d = substrait_types::diagnostic::Diagnostic {
        cause: c.clone(),
        level: substrait_types::diagnostic::Level::Warning,
        path: "plan.relations[0]".to_string(),
    };
    assert_eq!(d.cause, c);
    assert_eq!(d.level, substrait_types::diagnostic::Level::Warning);
}

#[test]
fn decimal_rendering() {
    assert_eq!(substrait_types::text::to_decimal(0), "0");
    assert_eq!(substrait_types::text::to_decimal(10), "10");
    assert_eq!(substrait_types::text::to_decimal(u64::MAX), "18446744073709551615");
    assert_eq!(substrait_types::text::as_ident_or_string("_x1"), "_x1");
    assert_eq!(substrait_types::text::as_ident_or_string("1x"), "\"1x\"");
    assert_eq!(substrait_types::text::as_ident_or_string(""), "\"\"");
    assert_eq!(substrait_types::text::as_ident_or_string("a\\b"), "\"a\\\\b\"");
    assert!(substrait_types::text::eq_ignoring_ascii_case("AbC", "aBc"));
    assert!(!substrait_types::text::eq_ignoring_ascii_case("abc", "abd"));
}
