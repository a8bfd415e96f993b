//! Type classes: the built-in simple and compound kinds, user-defined types
//! and the unresolved placeholder.
use vstd::prelude::*;
use std::sync::Arc;
use crate::data_type::{lemma_params_view, param_view, params_view, ParamView, Parameter};
use crate::diagnostic::Cause;
use crate::extension::TypeDefinition;
use crate::text::{
    decimal, eq_ignoring_ascii_case, lemma_same_ignoring_ascii_case_shared,
    same_ignoring_ascii_case, to_decimal,
};

verus! {

/// Enumeration of the simple (never parameterized) built-in types.
#[derive(Clone, Copy, Debug, PartialEq, Eq, Structural)]
pub enum Simple {
    Boolean,
    I8,
    I16,
    I32,
    I64,
    Fp32,
    Fp64,
    String,
    Binary,
    Timestamp,
    TimestampTz,
    Date,
    Time,
    IntervalYear,
    IntervalDay,
    Uuid,
}

/// Enumeration of the parameterized built-in types.
#[derive(Clone, Copy, Debug, PartialEq, Eq, Structural)]
pub enum Compound {
    FixedChar,
    VarChar,
    FixedBinary,
    Decimal,
    Struct,
    NamedStruct,
    List,
    MapType,
}

/// The canonical (snake_case) name of a simple type.
pub open spec fn simple_name(s: Simple) -> Seq<char> {
    match s {
        Simple::Boolean => "boolean"@,
        Simple::I8 => "i8"@,
        Simple::I16 => "i16"@,
        Simple::I32 => "i32"@,
        Simple::I64 => "i64"@,
        Simple::Fp32 => "fp32"@,
        Simple::Fp64 => "fp64"@,
        Simple::String => "string"@,
        Simple::Binary => "binary"@,
        Simple::Timestamp => "timestamp"@,
        Simple::TimestampTz => "timestamp_tz"@,
        Simple::Date => "date"@,
        Simple::Time => "time"@,
        Simple::IntervalYear => "interval_year"@,
        Simple::IntervalDay => "interval_day"@,
        Simple::Uuid => "uuid"@,
    }
}

/// The canonical (upper-case) name of a compound type.
pub open spec fn compound_name(c: Compound) -> Seq<char> {
    match c {
        Compound::FixedChar => "FIXEDCHAR"@,
        Compound::VarChar => "VARCHAR"@,
        Compound::FixedBinary => "FIXEDBINARY"@,
        Compound::Decimal => "DECIMAL"@,
        Compound::Struct => "STRUCT"@,
        Compound::NamedStruct => "NSTRUCT"@,
        Compound::List => "LIST"@,
        Compound::MapType => "MAP"@,
    }
}

/// No two simple type names are equal modulo ASCII case.
pub proof fn lemma_simple_names_distinct(a: Simple, b: Simple)
    requires
        same_ignoring_ascii_case(simple_name(a), simple_name(b)),
    ensures
        a == b,
{
    reveal_strlit("boolean");
    reveal_strlit("i8");
    reveal_strlit("i16");
    reveal_strlit("i32");
    reveal_strlit("i64");
    reveal_strlit("fp32");
    reveal_strlit("fp64");
    reveal_strlit("string");
    reveal_strlit("binary");
    reveal_strlit("timestamp");
    reveal_strlit("timestamp_tz");
    reveal_strlit("date");
    reveal_strlit("time");
    reveal_strlit("interval_year");
    reveal_strlit("interval_day");
    reveal_strlit("uuid");
    let x = simple_name(a);
    let y = simple_name(b);
    assert(crate::text::fold_code(x[0]) == crate::text::fold_code(y[0]));
    assert(crate::text::fold_code(x[1]) == crate::text::fold_code(y[1]));
    if x.len() > 2 {
        assert(crate::text::fold_code(x[2]) == crate::text::fold_code(y[2]));
    }
}

/// No two compound type names are equal modulo ASCII case.
pub proof fn lemma_compound_names_distinct(a: Compound, b: Compound)
    requires
        same_ignoring_ascii_case(compound_name(a), compound_name(b)),
    ensures
        a == b,
{
    reveal_strlit("FIXEDCHAR");
    reveal_strlit("VARCHAR");
    reveal_strlit("FIXEDBINARY");
    reveal_strlit("DECIMAL");
    reveal_strlit("STRUCT");
    reveal_strlit("NSTRUCT");
    reveal_strlit("LIST");
    reveal_strlit("MAP");
    let x = compound_name(a);
    let y = compound_name(b);
    assert(crate::text::fold_code(x[0]) == crate::text::fold_code(y[0]));
    assert(crate::text::fold_code(x[1]) == crate::text::fold_code(y[1]));
    if x.len() > 2 {
        assert(crate::text::fold_code(x[2]) == crate::text::fold_code(y[2]));
    }
}

impl Simple {
    /// All variants, in declaration order.
    pub fn all() -> (r: Vec<Simple>)
        ensures
            forall|v: Simple| r@.contains(v),
            r@.len() == 16,
    {
        let r = vec![Simple::Boolean, Simple::I8, Simple::I16, Simple::I32, Simple::I64, Simple::Fp32, Simple::Fp64, Simple::String, Simple::Binary, Simple::Timestamp, Simple::TimestampTz, Simple::Date, Simple::Time, Simple::IntervalYear, Simple::IntervalDay, Simple::Uuid];
        assert(forall|v: Simple| r@.contains(v)) by {
            assert(forall|v: Simple| #[trigger] r@.contains(v) <== (match v {
                Simple::Boolean => r@[0] == v,
                Simple::I8 => r@[1] == v,
                Simple::I16 => r@[2] == v,
                Simple::I32 => r@[3] == v,
                Simple::I64 => r@[4] == v,
                Simple::Fp32 => r@[5] == v,
                Simple::Fp64 => r@[6] == v,
                Simple::String => r@[7] == v,
                Simple::Binary => r@[8] == v,
                Simple::Timestamp => r@[9] == v,
                Simple::TimestampTz => r@[10] == v,
                Simple::Date => r@[11] == v,
                Simple::Time => r@[12] == v,
                Simple::IntervalYear => r@[13] == v,
                Simple::IntervalDay => r@[14] == v,
                Simple::Uuid => r@[15] == v,
            }));
        }
        r
    }

    /// The canonical name of this type.
    pub fn name(&self) -> (r: &'static str)
        ensures
            r@ == simple_name(*self),
    {
        match self {
            Simple::Boolean => "boolean",
            Simple::I8 => "i8",
            Simple::I16 => "i16",
            Simple::I32 => "i32",
            Simple::I64 => "i64",
            Simple::Fp32 => "fp32",
            Simple::Fp64 => "fp64",
            Simple::String => "string",
            Simple::Binary => "binary",
            Simple::Timestamp => "timestamp",
            Simple::TimestampTz => "timestamp_tz",
            Simple::Date => "date",
            Simple::Time => "time",
            Simple::IntervalYear => "interval_year",
            Simple::IntervalDay => "interval_day",
            Simple::Uuid => "uuid",
        }
    }

    /// Looks a type up by its name, ignoring the case of ASCII letters.
    pub fn from_name(s: &str) -> (r: Option<Simple>)
        ensures
            forall|v: Simple| r == Some(v) <==> same_ignoring_ascii_case(s@, simple_name(v)),
    {
        let all = Simple::all();
        let mut i: usize = 0;
        while i < all.len()
            invariant
                forall|v: Simple| all@.contains(v),
                i <= all@.len(),
                forall|j: int| 0 <= j < i ==> !same_ignoring_ascii_case(s@, #[trigger] simple_name(all@[j])),
            decreases all@.len() - i,
        {
            let v = all[i];
            if eq_ignoring_ascii_case(s, v.name()) {
                proof {
                    assert forall|u: Simple| same_ignoring_ascii_case(s@, simple_name(u)) implies u == v by {
                        lemma_same_ignoring_ascii_case_shared(s@, simple_name(u), simple_name(v));
                        lemma_simple_names_distinct(u, v);
                    }
                }
                return Some(v);
            }
            i = i + 1;
        }
        proof {
            assert forall|u: Simple| !same_ignoring_ascii_case(s@, simple_name(u)) by {
                assert(all@.contains(u));
                let j = choose|j: int| 0 <= j < all@.len() && all@[j] == u;
                assert(simple_name(all@[j]) == simple_name(u));
            }
        }
        None
    }
}

impl Compound {
    /// All variants, in declaration order.
    pub fn all() -> (r: Vec<Compound>)
        ensures
            forall|v: Compound| r@.contains(v),
            r@.len() == 8,
    {
        let r = vec![Compound::FixedChar, Compound::VarChar, Compound::FixedBinary, Compound::Decimal, Compound::Struct, Compound::NamedStruct, Compound::List, Compound::MapType];
        assert(forall|v: Compound| r@.contains(v)) by {
            assert(forall|v: Compound| #[trigger] r@.contains(v) <== (match v {
                Compound::FixedChar => r@[0] == v,
                Compound::VarChar => r@[1] == v,
                Compound::FixedBinary => r@[2] == v,
                Compound::Decimal => r@[3] == v,
                Compound::Struct => r@[4] == v,
                Compound::NamedStruct => r@[5] == v,
                Compound::List => r@[6] == v,
                Compound::MapType => r@[7] == v,
            }));
        }
        r
    }

    /// The canonical name of this type.
    pub fn name(&self) -> (r: &'static str)
        ensures
            r@ == compound_name(*self),
    {
        match self {
            Compound::FixedChar => "FIXEDCHAR",
            Compound::VarChar => "VARCHAR",
            Compound::FixedBinary => "FIXEDBINARY",
            Compound::Decimal => "DECIMAL",
            Compound::Struct => "STRUCT",
            Compound::NamedStruct => "NSTRUCT",
            Compound::List => "LIST",
            Compound::MapType => "MAP",
        }
    }

    /// Looks a type up by its name, ignoring the case of ASCII letters.
    pub fn from_name(s: &str) -> (r: Option<Compound>)
        ensures
            forall|v: Compound| r == Some(v) <==> same_ignoring_ascii_case(s@, compound_name(v)),
    {
        let all = Compound::all();
        let mut i: usize = 0;
        while i < all.len()
            invariant
                forall|v: Compound| all@.contains(v),
                i <= all@.len(),
                forall|j: int| 0 <= j < i ==> !same_ignoring_ascii_case(s@, #[trigger] compound_name(all@[j])),
            decreases all@.len() - i,
        {
            let v = all[i];
            if eq_ignoring_ascii_case(s, v.name()) {
                proof {
                    assert forall|u: Compound| same_ignoring_ascii_case(s@, compound_name(u)) implies u == v by {
                        lemma_same_ignoring_ascii_case_shared(s@, compound_name(u), compound_name(v));
                        lemma_compound_names_distinct(u, v);
                    }
                }
                return Some(v);
            }
            i = i + 1;
        }
        proof {
            assert forall|u: Compound| !same_ignoring_ascii_case(s@, compound_name(u)) by {
                assert(all@.contains(u));
                let j = choose|j: int| 0 <= j < all@.len() && all@[j] == u;
                assert(compound_name(all@[j]) == compound_name(u));
            }
        }
        None
    }
}

/// Type class: what kind of type a data type is.
#[derive(Clone, Debug, PartialEq)]
pub enum Class {
    /// Well-known simple type.
    Simple(Simple),
    /// Well-known compound type.
    Compound(Compound),
    /// User-defined type.
    UserDefined(Arc<TypeDefinition>),
    /// Unresolved type, used for error recovery. The string is an optional
    /// description of why the type is unresolved.
    Unresolved(String),
}

/// The mathematical value of a type class.
pub enum ClassView {
    Simple(Simple),
    Compound(Compound),
    /// A user-defined type, by the name of its definition.
    UserDefined(Seq<char>),
    /// An unresolved type, with its description.
    Unresolved(Seq<char>),
}

impl View for Class {
    type V = ClassView;

    open spec fn view(&self) -> ClassView {
        match self {
            Class::Simple(s) => ClassView::Simple(*s),
            Class::Compound(c) => ClassView::Compound(*c),
            Class::UserDefined(d) => ClassView::UserDefined(d.name@),
            Class::Unresolved(s) => ClassView::Unresolved(s@),
        }
    }
}

/// Smallest accepted length of a fixed-length or variable-length string or
/// of a fixed-length binary.
pub const MIN_LENGTH: u64 = 1;

/// Largest accepted length of a fixed-length or variable-length string or of
/// a fixed-length binary.
pub const MAX_LENGTH: u64 = 2147483647;

/// Largest accepted decimal precision.
pub const MAX_PRECISION: u64 = 38;

/// Whether no two parameters in `ps` carry the same name. Only meaningful
/// when every parameter is named.
pub open spec fn names_unique(ps: Seq<ParamView>) -> bool {
    forall|i: int, j: int|
        0 <= i < j < ps.len() ==> #[trigger] ps[i]->NamedType_0 != #[trigger] ps[j]->NamedType_0
}

/// The parameter shape rule of each compound type. Lengths are accepted in
/// `MIN_LENGTH..=MAX_LENGTH` and rejected outside of it.
pub open spec fn compound_accepts(c: Compound, ps: Seq<ParamView>) -> bool {
    match c {
        Compound::FixedChar | Compound::VarChar | Compound::FixedBinary => {
            &&& ps.len() == 1
            &&& ps[0] matches ParamView::Unsigned(n)
            &&& MIN_LENGTH <= n <= MAX_LENGTH
        },
        Compound::Decimal => {
            &&& ps.len() == 2
            &&& ps[0] matches ParamView::Unsigned(precision)
            &&& precision <= MAX_PRECISION
            &&& ps[1] matches ParamView::Unsigned(scale)
            &&& scale <= precision
        },
        Compound::Struct => forall|i: int| 0 <= i < ps.len() ==> #[trigger] ps[i] is Type,
        Compound::NamedStruct => {
            &&& forall|i: int| 0 <= i < ps.len() ==> #[trigger] ps[i] is NamedType
            &&& names_unique(ps)
        },
        Compound::List => ps.len() == 1 && ps[0] is Type,
        Compound::MapType => ps.len() == 2 && ps[0] is Type && ps[1] is Type,
    }
}

/// The parameter shape rule of each type class: simple and user-defined
/// types take no parameters, unresolved types take any.
pub open spec fn class_accepts(c: ClassView, ps: Seq<ParamView>) -> bool {
    match c {
        ClassView::Simple(_) => ps.len() == 0,
        ClassView::Compound(k) => compound_accepts(k, ps),
        ClassView::UserDefined(_) => ps.len() == 0,
        ClassView::Unresolved(_) => true,
    }
}

/// The logical name of parameter `i` of a compound type, if it has one.
pub open spec fn compound_parameter_name(c: Compound, i: nat) -> Option<Seq<char>> {
    match c {
        Compound::FixedChar | Compound::VarChar | Compound::FixedBinary => if i == 0 {
            Some("length"@)
        } else {
            None
        },
        Compound::Decimal => if i == 0 {
            Some("precision"@)
        } else if i == 1 {
            Some("scale"@)
        } else {
            None
        },
        Compound::Struct | Compound::NamedStruct => Some(decimal(i)),
        Compound::List => if i == 0 {
            Some("element"@)
        } else {
            None
        },
        Compound::MapType => if i == 0 {
            Some("key"@)
        } else if i == 1 {
            Some("value"@)
        } else {
            None
        },
    }
}

/// The logical name of parameter `i` of a type class, if it has one.
pub open spec fn class_parameter_name(c: ClassView, i: nat) -> Option<Seq<char>> {
    match c {
        ClassView::Compound(k) => compound_parameter_name(k, i),
        _ => None,
    }
}

/// Checking the parameters of a type class.
pub trait ParameterInfo {
    /// Whether the given parameter list fits this class.
    spec fn accepts(&self, params: Seq<ParamView>) -> bool;

    /// The logical name of the parameter at the given index.
    spec fn logical_name(&self, index: nat) -> Option<Seq<char>>;

    /// Checks whether the given parameter list is valid for this class.
    fn check_parameters(&self, params: &[Parameter]) -> (r: Result<(), Cause>)
        ensures
            r is Ok <==> self.accepts(params_view(params@)),
            r matches Err(c) ==> c is MismatchedTypeParameters;

    /// Returns the logical name of the given parameter.
    fn parameter_name(&self, index: usize) -> (r: Option<String>)
        ensures
            match self.logical_name(index as nat) {
                Some(n) => r matches Some(s) && s@ == n,
                None => r is None,
            };
}

/// A parameter mismatch for compound type `c`, described by `detail`.
fn mismatch(c: Compound, detail: &str) -> (r: Cause)
    ensures
        r is MismatchedTypeParameters,
{
    Cause::MismatchedTypeParameters(String::from_str(c.name()).concat(detail))
}

impl ParameterInfo for Compound {
    open spec fn accepts(&self, params: Seq<ParamView>) -> bool {
        compound_accepts(*self, params)
    }

    open spec fn logical_name(&self, index: nat) -> Option<Seq<char>> {
        compound_parameter_name(*self, index)
    }

    fn check_parameters(&self, params: &[Parameter]) -> (r: Result<(), Cause>) {
        proof {
            lemma_params_view(params@);
        }
        let ghost ps = params_view(params@);
        match self {
            Compound::FixedChar | Compound::VarChar | Compound::FixedBinary => {
                if params.len() != 1 {
                    return Err(mismatch(*self, " expects a single parameter (length)"));
                }
                if let Parameter::Unsigned(length) = &params[0] {
                    if *length < MIN_LENGTH || *length > MAX_LENGTH {
                        let msg = String::from_str(" length ").concat(to_decimal(*length).as_str());
                        return Err(mismatch(*self, msg.concat(" is out of range 1..2147483647").as_str()));
                    }
                } else {
                    return Err(mismatch(*self, " length parameter must be a positive integer"));
                }
            },
            Compound::Decimal => {
                if params.len() != 2 {
                    return Err(mismatch(*self, " expects two parameters (precision and scale)"));
                }
                if let Parameter::Unsigned(precision) = &params[0] {
                    if *precision > MAX_PRECISION {
                        return Err(mismatch(*self, " precision is out of range 0..38"));
                    }
                    if let Parameter::Unsigned(scale) = &params[1] {
                        if *scale > *precision {
                            return Err(mismatch(*self, " scale is out of range 0..precision"));
                        }
                    } else {
                        return Err(mismatch(*self, " scale parameter must be a positive integer"));
                    }
                } else {
                    return Err(mismatch(*self, " precision parameter must be a positive integer"));
                }
            },
            Compound::Struct => {
                let mut i: usize = 0;
                while i < params.len()
                    invariant
                        *self == Compound::Struct,
                        ps == params_view(params@),
                        ps.len() == params@.len(),
                        forall|j: int| 0 <= j < ps.len() ==> #[trigger] ps[j] == param_view(params@[j]),
                        i <= params@.len(),
                        forall|j: int| 0 <= j < i ==> #[trigger] ps[j] is Type,
                    decreases params@.len() - i,
                {
                    if !matches!(&params[i], Parameter::Type(_)) {
                        assert(ps[i as int] !is Type);
                        assert(!compound_accepts(*self, ps));
                        return Err(mismatch(*self, " parameters must be types"));
                    }
                    i = i + 1;
                }
            },
            Compound::NamedStruct => {
                let mut i: usize = 0;
                while i < params.len()
                    invariant
                        *self == Compound::NamedStruct,
                        ps == params_view(params@),
                        ps.len() == params@.len(),
                        forall|j: int| 0 <= j < ps.len() ==> #[trigger] ps[j] == param_view(params@[j]),
                        i <= params@.len(),
                        forall|j: int| 0 <= j < i ==> #[trigger] ps[j] is NamedType,
                        forall|j: int, k: int|
                            0 <= j < k < i ==> #[trigger] ps[j]->NamedType_0 != #[trigger] ps[k]->NamedType_0,
                    decreases params@.len() - i,
                {
                    if let Parameter::NamedType(name, _) = &params[i] {
                        let mut k: usize = 0;
                        while k < i
                            invariant
                                *self == Compound::NamedStruct,
                                ps == params_view(params@),
                                ps.len() == params@.len(),
                                forall|j: int| 0 <= j < ps.len() ==> #[trigger] ps[j] == param_view(params@[j]),
                                i < params@.len(),
                                k <= i,
                                params@[i as int] matches Parameter::NamedType(n, _) && n == name,
                                forall|j: int| 0 <= j < i ==> #[trigger] ps[j] is NamedType,
                                forall|j: int| 0 <= j < k ==> #[trigger] ps[j]->NamedType_0 != name@,
                            decreases i - k,
                        {
                            if let Parameter::NamedType(other, _) = &params[k] {
                                if *other == *name {
                                    assert(ps[k as int]->NamedType_0 == ps[i as int]->NamedType_0);
                                    return Err(mismatch(*self, String::from_str(" has a duplicate field name: ").concat(name.as_str()).as_str()));
                                }
                            }
                            k = k + 1;
                        }
                    } else {
                        assert(ps[i as int] !is NamedType);
                        assert(!compound_accepts(*self, ps));
                        return Err(mismatch(*self, " parameters must be name-type pairs"));
                    }
                    i = i + 1;
                }
            },
            Compound::List => {
                if params.len() != 1 {
                    return Err(mismatch(*self, " expects a single parameter (element type)"));
                }
                if !matches!(&params[0], Parameter::Type(_)) {
                    return Err(mismatch(*self, " element type parameter must be a type"));
                }
            },
            Compound::MapType => {
                if params.len() != 2 {
                    return Err(mismatch(*self, " expects two parameters (key type and value type)"));
                }
                if !matches!(&params[0], Parameter::Type(_)) {
                    return Err(mismatch(*self, " key type parameter must be a type"));
                }
                if !matches!(&params[1], Parameter::Type(_)) {
                    return Err(mismatch(*self, " value type parameter must be a type"));
                }
            },
        }
        Ok(())
    }

    fn parameter_name(&self, index: usize) -> (r: Option<String>) {
        match (self, index) {
            (Compound::FixedChar, 0) => Some(String::from_str("length")),
            (Compound::VarChar, 0) => Some(String::from_str("length")),
            (Compound::FixedBinary, 0) => Some(String::from_str("length")),
            (Compound::Decimal, 0) => Some(String::from_str("precision")),
            (Compound::Decimal, 1) => Some(String::from_str("scale")),
            (Compound::Struct, i) => Some(to_decimal(i as u64)),
            (Compound::NamedStruct, i) => Some(to_decimal(i as u64)),
            (Compound::List, 0) => Some(String::from_str("element")),
            (Compound::MapType, 0) => Some(String::from_str("key")),
            (Compound::MapType, 1) => Some(String::from_str("value")),
            (_, _) => None,
        }
    }
}

impl ParameterInfo for Class {
    open spec fn accepts(&self, params: Seq<ParamView>) -> bool {
        class_accepts(self@, params)
    }

    open spec fn logical_name(&self, index: nat) -> Option<Seq<char>> {
        class_parameter_name(self@, index)
    }

    fn check_parameters(&self, params: &[Parameter]) -> (r: Result<(), Cause>) {
        proof {
            lemma_params_view(params@);
        }
        match self {
            Class::Simple(_) => {
                if params.len() == 0 {
                    Ok(())
                } else {
                    Err(Cause::MismatchedTypeParameters(String::from_str("simple types cannot be parameterized")))
                }
            },
            Class::Compound(compound) => compound.check_parameters(params),
            Class::UserDefined(_) => {
                if params.len() == 0 {
                    Ok(())
                } else {
                    Err(Cause::MismatchedTypeParameters(String::from_str("user-defined types cannot currently be parameterized")))
                }
            },
            Class::Unresolved(_) => Ok(()),
        }
    }

    fn parameter_name(&self, index: usize) -> (r: Option<String>) {
        if let Class::Compound(compound) = self {
            compound.parameter_name(index)
        } else {
            None
        }
    }
}

/// How a type class is written: the canonical name of a built-in type, the
/// name of a user-defined type, or `!` for an unresolved type.
pub open spec fn class_text(c: ClassView) -> Seq<char> {
    match c {
        ClassView::Simple(s) => simple_name(s),
        ClassView::Compound(k) => compound_name(k),
        ClassView::UserDefined(n) => n,
        ClassView::Unresolved(_) => "!"@,
    }
}

impl Class {
    /// Renders the class as it is written in a type.
    pub fn to_string(&self) -> (r: String)
        ensures
            r@ == class_text(self@),
    {
        match self {
            Class::Simple(s) => String::from_str(s.name()),
            Class::Compound(c) => String::from_str(c.name()),
            Class::UserDefined(d) => d.name.clone(),
            Class::Unresolved(_) => String::from_str("!"),
        }
    }
}

/// The printed name of every simple type reads back, in any mix of ASCII
/// case, as that type and no other: `Simple::from_name` of a string that
/// equals `simple_name(v)` up to case gives `Some(v)`.
pub proof fn lemma_simple_name_round_trip(v: Simple, s: Seq<char>)
    requires
        same_ignoring_ascii_case(s, simple_name(v)),
    ensures
        forall|u: Simple| same_ignoring_ascii_case(s, simple_name(u)) <==> u == v,
{
    assert forall|u: Simple| same_ignoring_ascii_case(s, simple_name(u)) implies u == v by {
        lemma_same_ignoring_ascii_case_shared(s, simple_name(u), simple_name(v));
        lemma_simple_names_distinct(u, v);
    }
}

/// The printed name of every compound type reads back, in any mix of ASCII
/// case, as that type and no other: `Compound::from_name` of a string that
/// equals `compound_name(v)` up to case gives `Some(v)`.
pub proof fn lemma_compound_name_round_trip(v: Compound, s: Seq<char>)
    requires
        same_ignoring_ascii_case(s, compound_name(v)),
    ensures
        forall|u: Compound| same_ignoring_ascii_case(s, compound_name(u)) <==> u == v,
{
    assert forall|u: Compound| same_ignoring_ascii_case(s, compound_name(u)) implies u == v by {
        lemma_same_ignoring_ascii_case_shared(s, compound_name(u), compound_name(v));
        lemma_compound_names_distinct(u, v);
    }
}

} // verus!
