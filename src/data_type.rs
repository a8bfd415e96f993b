//! Data types: a class, nullability, an optional variation and a list of
//! parameters, with validation on construction and the field-name algebra
//! that moves struct field names in and out of the type tree.
use vstd::prelude::*;
use crate::class::{
    class_accepts, class_text, compound_accepts, names_unique, Class, ClassView, Compound,
    ParameterInfo,
};
use crate::text::{as_ident_or_string, decimal, ident_or_string, lemma_decimal_injective, to_decimal};
use crate::diagnostic::Cause;
use crate::extension::{TypeResolver, Variation};

verus! {

broadcast use vstd::seq::group_seq_axioms;

/// A data type. Includes facilities for storing unresolved or partially
/// resolved types.
#[derive(Debug, PartialEq)]
pub struct DataType {
    class: Class,
    nullable: bool,
    variation: Variation,
    parameters: Vec<Parameter>,
}

/// Parameter of a parameterized type.
#[derive(Debug, PartialEq)]
pub enum Parameter {
    /// Type parameter (list element type, struct field types, etc).
    Type(DataType),
    /// Named type parameter (named struct fields).
    NamedType(String, DataType),
    /// Integral type parameter (varchar length, etc).
    Unsigned(u64),
}

/// The mathematical value of a data type.
pub struct TypeView {
    pub class: ClassView,
    pub nullable: bool,
    /// The name of the variation, if any.
    pub variation: Option<Seq<char>>,
    pub parameters: Seq<ParamView>,
}

/// The mathematical value of a parameter.
pub enum ParamView {
    Type(TypeView),
    NamedType(Seq<char>, TypeView),
    Unsigned(u64),
}

/// The value of a variation: the name of the variation definition, if any.
pub open spec fn variation_view(v: Variation) -> Option<Seq<char>> {
    match v {
        Some(d) => Some(d.name@),
        None => None,
    }
}

/// The value of a data type.
pub closed spec fn type_view(t: DataType) -> TypeView
    decreases t, 1nat,
{
    TypeView {
        class: t.class@,
        nullable: t.nullable,
        variation: variation_view(t.variation),
        parameters: params_view(t.parameters@),
    }
}

/// The values of a sequence of parameters.
pub open spec fn params_view(ps: Seq<Parameter>) -> Seq<ParamView>
    decreases ps, 0nat,
{
    if ps.len() == 0 {
        Seq::empty()
    } else {
        params_view(ps.drop_last()).push(param_view(ps.last()))
    }
}

/// The value of a parameter.
pub open spec fn param_view(p: Parameter) -> ParamView
    decreases p, 0nat,
{
    match p {
        Parameter::Type(t) => ParamView::Type(type_view(t)),
        Parameter::NamedType(n, t) => ParamView::NamedType(n@, type_view(t)),
        Parameter::Unsigned(x) => ParamView::Unsigned(x),
    }
}

impl View for DataType {
    type V = TypeView;

    open spec fn view(&self) -> TypeView {
        type_view(*self)
    }
}

impl View for Parameter {
    type V = ParamView;

    open spec fn view(&self) -> ParamView {
        param_view(*self)
    }
}

/// `params_view` maps each parameter to its value, position by position.
pub proof fn lemma_params_view(ps: Seq<Parameter>)
    ensures
        params_view(ps).len() == ps.len(),
        forall|i: int| 0 <= i < ps.len() ==> #[trigger] params_view(ps)[i] == param_view(ps[i]),
    decreases ps.len(),
{
    if ps.len() > 0 {
        lemma_params_view(ps.drop_last());
    }
}

/// The type carried by a parameter, if it carries one.
pub open spec fn param_type(p: ParamView) -> Option<TypeView> {
    match p {
        ParamView::Type(t) => Some(t),
        ParamView::NamedType(_, t) => Some(t),
        ParamView::Unsigned(_) => None,
    }
}

/// Whether a class is `STRUCT` or `NSTRUCT`.
pub open spec fn is_struct_class(c: ClassView) -> bool {
    c == ClassView::Compound(Compound::Struct) || c == ClassView::Compound(Compound::NamedStruct)
}

/// Whether a type, or any type nested in its parameters, is unresolved.
pub open spec fn unresolved_deep(t: TypeView) -> bool
    decreases t, 1nat,
{
    t.class is Unresolved || any_unresolved_deep(t.parameters)
}

/// Whether any type carried by a parameter in `ps` is unresolved anywhere.
pub open spec fn any_unresolved_deep(ps: Seq<ParamView>) -> bool
    decreases ps, 0nat,
{
    if ps.len() == 0 {
        false
    } else {
        any_unresolved_deep(ps.drop_last()) || match ps.last() {
            ParamView::Type(t) => unresolved_deep(t),
            ParamView::NamedType(_, t) => unresolved_deep(t),
            ParamView::Unsigned(_) => false,
        }
    }
}

/// Whether every type in the tree satisfies the parameter rule of its class.
pub open spec fn valid(t: TypeView) -> bool
    decreases t, 1nat,
{
    class_accepts(t.class, t.parameters) && all_valid(t.parameters)
}

/// Whether every type carried by a parameter in `ps` is valid.
pub open spec fn all_valid(ps: Seq<ParamView>) -> bool
    decreases ps, 0nat,
{
    if ps.len() == 0 {
        true
    } else {
        all_valid(ps.drop_last()) && match ps.last() {
            ParamView::Type(t) => valid(t),
            ParamView::NamedType(_, t) => valid(t),
            ParamView::Unsigned(_) => true,
        }
    }
}

impl DataType {
    /// Creates a new type, provided that the parameters fit the class.
    pub fn new(class: Class, nullable: bool, variation: Variation, parameters: Vec<Parameter>) -> (r:
        Result<DataType, Cause>)
        ensures
            r is Ok <==> class_accepts(class@, params_view(parameters@)),
            r matches Ok(t) ==> t@ == (TypeView {
                class: class@,
                nullable,
                variation: variation_view(variation),
                parameters: params_view(parameters@),
            }),
            r matches Err(c) ==> c is MismatchedTypeParameters,
            r matches Ok(t) ==> (all_valid(params_view(parameters@)) ==> valid(t@)),
    {
        match class.check_parameters(parameters.as_slice()) {
            Ok(()) => Ok(DataType { class, nullable, variation, parameters }),
            Err(c) => Err(c),
        }
    }

    /// Creates a new unresolved type with the given description.
    pub fn new_unresolved(description: &str) -> (r: DataType)
        ensures
            r@ == (TypeView {
                class: ClassView::Unresolved(description@),
                nullable: false,
                variation: None,
                parameters: Seq::empty(),
            }),
    {
        DataType {
            class: Class::Unresolved(String::from_str(description)),
            nullable: false,
            variation: None,
            parameters: Vec::new(),
        }
    }

    /// Creates a new unresolved type without description.
    pub fn new_default() -> (r: DataType)
        ensures
            r@ == (TypeView {
                class: ClassView::Unresolved(Seq::empty()),
                nullable: false,
                variation: None,
                parameters: Seq::empty(),
            }),
    {
        DataType {
            class: Class::Unresolved(String::new()),
            nullable: false,
            variation: None,
            parameters: Vec::new(),
        }
    }

    /// Creates a new struct type with the given field types.
    pub fn new_struct(fields: Vec<DataType>, nullable: bool) -> (r: DataType)
        ensures
            r@.class == ClassView::Compound(Compound::Struct),
            r@.nullable == nullable,
            r@.variation is None,
            r@.parameters.len() == fields@.len(),
            forall|i: int| 0 <= i < fields@.len() ==> #[trigger] r@.parameters[i] == ParamView::Type(fields@[i]@),
    {
        let mut fields = fields;
        let ghost orig = fields@;
        let mut parameters: Vec<Parameter> = Vec::new();
        while fields.len() > 0
            invariant
                fields@ == orig.subrange(parameters@.len() as int, orig.len() as int),
                parameters@.len() <= orig.len(),
                forall|i: int| 0 <= i < parameters@.len() ==> #[trigger] parameters@[i] == Parameter::Type(orig[i]),
            decreases fields@.len(),
        {
            let f = fields.remove(0);
            parameters.push(Parameter::Type(f));
        }
        proof {
            lemma_params_view(parameters@);
        }
        DataType { class: Class::Compound(Compound::Struct), nullable, variation: None, parameters }
    }

    /// Returns the type class.
    pub fn class(&self) -> (r: &Class)
        ensures
            r@ == self@.class,
    {
        &self.class
    }

    /// Returns whether the type is nullable.
    pub fn nullable(&self) -> (r: bool)
        ensures
            r == self@.nullable,
    {
        self.nullable
    }

    /// Returns the type variation.
    pub fn variation(&self) -> (r: &Variation)
        ensures
            variation_view(*r) == self@.variation,
    {
        &self.variation
    }

    /// Returns the type parameters.
    pub fn parameters(&self) -> (r: &Vec<Parameter>)
        ensures
            params_view(r@) == self@.parameters,
    {
        &self.parameters
    }

    /// Unpacks the data type into its parts, in the order `new` takes them.
    pub fn into_parts(self) -> (r: (Class, bool, Variation, Vec<Parameter>))
        ensures
            r.0@ == self@.class,
            r.1 == self@.nullable,
            variation_view(r.2) == self@.variation,
            params_view(r.3@) == self@.parameters,
    {
        (self.class, self.nullable, self.variation, self.parameters)
    }

    /// Returns whether this is an unresolved type.
    pub fn is_unresolved(&self) -> (r: bool)
        ensures
            r == self@.class is Unresolved,
    {
        matches!(self.class, Class::Unresolved(_))
    }

    /// Returns whether any part of this type tree is an unresolved type.
    pub fn is_unresolved_deep(&self) -> (r: bool)
        ensures
            r == unresolved_deep(self@),
        decreases self,
    {
        proof {
            lemma_params_view(self.parameters@);
        }
        if self.is_unresolved() {
            return true;
        }
        let mut i: usize = 0;
        while i < self.parameters.len()
            invariant
                i <= self.parameters@.len(),
                params_view(self.parameters@).len() == self.parameters@.len(),
                forall|j: int| 0 <= j < self.parameters@.len() ==> #[trigger] params_view(self.parameters@)[j] == param_view(self.parameters@[j]),
                !any_unresolved_deep(params_view(self.parameters@).subrange(0, i as int)),
            decreases self.parameters@.len() - i,
        {
            let ghost ps = params_view(self.parameters@);
            assert(ps.subrange(0, i + 1).drop_last() == ps.subrange(0, i as int));
            let found = match &self.parameters[i] {
                Parameter::Type(t) => t.is_unresolved_deep(),
                Parameter::NamedType(_, t) => t.is_unresolved_deep(),
                Parameter::Unsigned(_) => false,
            };
            if found {
                proof {
                    lemma_any_unresolved_prefix(ps, i + 1);
                }
                return true;
            }
            i = i + 1;
        }
        assert(params_view(self.parameters@).subrange(0, i as int) == params_view(self.parameters@));
        false
    }

    /// Returns whether this is a `STRUCT` or `NSTRUCT` type.
    pub fn is_struct(&self) -> (r: bool)
        ensures
            r == is_struct_class(self@.class),
    {
        matches!(self.class, Class::Compound(Compound::Struct) | Class::Compound(Compound::NamedStruct))
    }

    /// Returns whether this is the base type of its class, i.e. has no
    /// variation.
    pub fn is_base_type(&self) -> (r: bool)
        ensures
            r == self@.variation is None,
    {
        self.variation.is_none()
    }

    /// Returns the type of the field at `index` of a struct. Returns the
    /// type itself if it is unresolved, since an unresolved type may be any
    /// struct, and `None` if the index is out of range or the type is known
    /// not to be a struct.
    pub fn index_struct(&self, index: usize) -> (r: Option<&DataType>)
        ensures
            self@.class is Unresolved ==> r == Some(self),
            !(self@.class is Unresolved) ==> match r {
                Some(t) => is_struct_class(self@.class) && index < self@.parameters.len()
                    && param_type(self@.parameters[index as int]) == Some(t@),
                None => !is_struct_class(self@.class) || index >= self@.parameters.len()
                    || self@.parameters[index as int] is Unsigned,
            },
    {
        proof {
            lemma_params_view(self.parameters@);
        }
        if self.is_unresolved() {
            Some(self)
        } else if self.is_struct() {
            if index < self.parameters.len() {
                match &self.parameters[index] {
                    Parameter::Type(t) => Some(t),
                    Parameter::NamedType(_, t) => Some(t),
                    Parameter::Unsigned(_) => None,
                }
            } else {
                None
            }
        } else {
            None
        }
    }
}

/// If the first `n` parameters hold an unresolved type, so do all of them.
proof fn lemma_any_unresolved_prefix(ps: Seq<ParamView>, n: int)
    requires
        0 < n <= ps.len(),
        match ps[n - 1] {
            ParamView::Type(t) => unresolved_deep(t),
            ParamView::NamedType(_, t) => unresolved_deep(t),
            ParamView::Unsigned(_) => false,
        },
    ensures
        any_unresolved_deep(ps),
    decreases ps.len(),
{
    if ps.len() > n {
        lemma_any_unresolved_prefix(ps.drop_last(), n);
    }
}

/// The values of a sequence of strings.
pub open spec fn names_view(v: Seq<String>) -> Seq<Seq<char>> {
    v.map_values(|s: String| s@)
}

/// The name that splitting emits for field `i` of a struct: the field's
/// own name if it has one, else its index in decimal.
pub open spec fn field_name(p: ParamView, i: nat) -> Seq<char> {
    match p {
        ParamView::NamedType(n, _) => n,
        _ => decimal(i),
    }
}

/// Splitting the field names off a type tree: every `STRUCT` or `NSTRUCT`
/// node becomes a `STRUCT` whose fields are anonymous, and the names of all
/// fields are listed in the order a depth-first walk meets them (a field's
/// own name before the names within its type).
pub open spec fn split_type(t: TypeView) -> (TypeView, Seq<Seq<char>>)
    decreases t, 1nat,
{
    let in_struct = is_struct_class(t.class);
    let r = split_params(t.parameters, in_struct);
    (
        TypeView {
            class: if in_struct {
                ClassView::Compound(Compound::Struct)
            } else {
                t.class
            },
            nullable: t.nullable,
            variation: t.variation,
            parameters: r.0,
        },
        r.1,
    )
}

/// Splitting the field names off a list of parameters; `in_struct` says
/// whether they are the fields of a struct.
pub open spec fn split_params(ps: Seq<ParamView>, in_struct: bool) -> (Seq<ParamView>, Seq<Seq<char>>)
    decreases ps, 0nat,
{
    if ps.len() == 0 {
        (Seq::empty(), Seq::empty())
    } else {
        let init = split_params(ps.drop_last(), in_struct);
        let p = ps.last();
        let own: Seq<Seq<char>> = if in_struct {
            seq![field_name(p, (ps.len() - 1) as nat)]
        } else {
            Seq::empty()
        };
        match p {
            ParamView::Unsigned(x) => (init.0.push(p), init.1 + own),
            ParamView::Type(t) => {
                let st = split_type(t);
                (init.0.push(ParamView::Type(st.0)), init.1 + own + st.1)
            },
            ParamView::NamedType(n, t) => {
                let st = split_type(t);
                let q = if in_struct {
                    ParamView::Type(st.0)
                } else {
                    ParamView::NamedType(n, st.0)
                };
                (init.0.push(q), init.1 + own + st.1)
            },
        }
    }
}

/// `params_view` of a sequence with one more parameter.
pub proof fn lemma_params_view_push(ps: Seq<Parameter>, p: Parameter)
    ensures
        params_view(ps.push(p)) == params_view(ps).push(param_view(p)),
{
    assert(ps.push(p).drop_last() == ps);
}

/// `names_view` of a sequence with one more string.
pub proof fn lemma_names_view_push(v: Seq<String>, s: String)
    ensures
        names_view(v.push(s)) == names_view(v).push(s@),
{
    assert(names_view(v.push(s)) == names_view(v).push(s@));
}

impl DataType {
    /// Splits the field names off this type, appending them to `names`.
    fn split_field_names_internal(self, names: &mut Vec<String>) -> (r: DataType)
        ensures
            r@ == split_type(self@).0,
            names_view(final(names)@) == names_view(old(names)@) + split_type(self@).1,
        decreases self,
    {
        let ghost ps = params_view(self.parameters@);
        let ghost orig = self.parameters@;
        let ghost names0 = names_view(names@);
        proof {
            lemma_params_view(self.parameters@);
        }
        let in_struct = self.is_struct();
        let class = if in_struct {
            Class::Compound(Compound::Struct)
        } else {
            self.class
        };
        let mut rest = self.parameters;
        let total = rest.len();
        let mut out: Vec<Parameter> = Vec::new();
        let mut i: usize = 0;
        assert(ps.subrange(0, 0) == Seq::<ParamView>::empty());
        while rest.len() > 0
            invariant
                orig.len() == total,
                in_struct == is_struct_class(self@.class),
                ps == params_view(orig),
                ps.len() == orig.len(),
                forall|j: int| 0 <= j < orig.len() ==> #[trigger] ps[j] == param_view(orig[j]),
                orig == self.parameters@,
                i <= orig.len(),
                rest@ == orig.subrange(i as int, orig.len() as int),
                params_view(out@) == split_params(ps.subrange(0, i as int), in_struct).0,
                names_view(names@) == names0 + split_params(ps.subrange(0, i as int), in_struct).1,
            decreases rest@.len(),
        {
            let p = rest.remove(0);
            assert(p == orig[i as int]);
            assert(ps.subrange(0, i + 1).drop_last() == ps.subrange(0, i as int));
            if in_struct {
                let ghost before = names@;
                let name = match &p {
                    Parameter::NamedType(n, _) => n.clone(),
                    _ => to_decimal(i as u64),
                };
                names.push(name);
                proof {
                    lemma_names_view_push(before, name);
                }
            }
            let q = match p {
                Parameter::Type(t) => Parameter::Type(t.split_field_names_internal(names)),
                Parameter::NamedType(n, t) => {
                    let st = t.split_field_names_internal(names);
                    if in_struct {
                        Parameter::Type(st)
                    } else {
                        Parameter::NamedType(n, st)
                    }
                },
                Parameter::Unsigned(x) => Parameter::Unsigned(x),
            };
            proof {
                lemma_params_view_push(out@, q);
            }
            out.push(q);
            i = i + 1;
        }
        assert(ps.subrange(0, i as int) == ps);
        DataType { class, nullable: self.nullable, variation: self.variation, parameters: out }
    }

    /// Converts every `NSTRUCT` in the tree to `STRUCT`, and returns the
    /// flattened list of field names met on the way. The fields of `STRUCT`
    /// types are listed too, named by their zero-based index, so that the
    /// list fits `apply_field_names`.
    pub fn split_field_names(self) -> (r: (DataType, Vec<String>))
        ensures
            r.0@ == split_type(self@).0,
            names_view(r.1@) == split_type(self@).1,
            valid(self@) ==> valid(r.0@),
    {
        proof {
            if valid(self@) {
                lemma_split_type_valid(self@);
            }
        }
        let mut names: Vec<String> = Vec::new();
        let t = self.split_field_names_internal(&mut names);
        assert(names_view(Seq::<String>::empty()) + split_type(self@).1 == split_type(self@).1);
        (t, names)
    }

    /// Like `split_field_names`, but drops the names.
    pub fn strip_field_names(self) -> (r: DataType)
        ensures
            r@ == split_type(self@).0,
            valid(self@) ==> valid(r@),
    {
        self.split_field_names().0
    }
}

/// Why applying field names to a type tree fails.
pub enum ApplyError {
    /// A struct field needed a name after all names were used.
    TooFew,
    /// A renamed struct does not fit the rule of `NSTRUCT`: two of its fields
    /// now have the same name, or one of its parameters is not a type.
    Rejected,
}

/// Applying the names `names`, from position `pos` on, to a type tree: every
/// `STRUCT` or `NSTRUCT` node becomes an `NSTRUCT` whose fields take the next
/// names in the order a depth-first walk meets them (a field before the
/// fields within its type). Gives the new tree and the position of the first
/// name left unused.
pub open spec fn apply_type(t: TypeView, names: Seq<Seq<char>>, pos: nat) -> Result<
    (TypeView, nat),
    ApplyError,
>
    decreases t, 1nat,
{
    let in_struct = is_struct_class(t.class);
    match apply_params(t.parameters, in_struct, names, pos) {
        Err(e) => Err(e),
        Ok((ps, p)) => if in_struct {
            if compound_accepts(Compound::NamedStruct, ps) {
                Ok(
                    (
                        TypeView {
                            class: ClassView::Compound(Compound::NamedStruct),
                            nullable: t.nullable,
                            variation: t.variation,
                            parameters: ps,
                        },
                        p,
                    ),
                )
            } else {
                Err(ApplyError::Rejected)
            }
        } else {
            Ok((TypeView { parameters: ps, ..t }, p))
        },
    }
}

/// Applying names, from position `pos` on, to a list of parameters;
/// `in_struct` says whether they are the fields of a struct.
pub open spec fn apply_params(ps: Seq<ParamView>, in_struct: bool, names: Seq<Seq<char>>, pos: nat) -> Result<
    (Seq<ParamView>, nat),
    ApplyError,
>
    decreases ps, 0nat,
{
    if ps.len() == 0 {
        Ok((Seq::empty(), pos))
    } else {
        match apply_params(ps.drop_last(), in_struct, names, pos) {
            Err(e) => Err(e),
            Ok((init, p0)) => match ps.last() {
                ParamView::Unsigned(x) => Ok((init.push(ParamView::Unsigned(x)), p0)),
                ParamView::Type(t) => if in_struct {
                    if p0 >= names.len() {
                        Err(ApplyError::TooFew)
                    } else {
                        match apply_type(t, names, p0 + 1) {
                            Err(e) => Err(e),
                            Ok((t2, p1)) => Ok((init.push(ParamView::NamedType(names[p0 as int], t2)), p1)),
                        }
                    }
                } else {
                    match apply_type(t, names, p0) {
                        Err(e) => Err(e),
                        Ok((t2, p1)) => Ok((init.push(ParamView::Type(t2)), p1)),
                    }
                },
                ParamView::NamedType(n, t) => if in_struct {
                    if p0 >= names.len() {
                        Err(ApplyError::TooFew)
                    } else {
                        match apply_type(t, names, p0 + 1) {
                            Err(e) => Err(e),
                            Ok((t2, p1)) => Ok((init.push(ParamView::NamedType(names[p0 as int], t2)), p1)),
                        }
                    }
                } else {
                    match apply_type(t, names, p0) {
                        Err(e) => Err(e),
                        Ok((t2, p1)) => Ok((init.push(ParamView::NamedType(n, t2)), p1)),
                    }
                },
            },
        }
    }
}

/// The error for a list of field names that runs out too early.
pub open spec fn too_few_names(c: Cause) -> bool {
    c matches Cause::MismatchedFieldNameAssociations(m) && m@ == "received too few field name(s)"@
}

/// The error for a list of field names with `k` names left over.
pub open spec fn too_many_names(c: Cause, k: nat) -> bool {
    c matches Cause::MismatchedFieldNameAssociations(m) && m@ == "received "@ + decimal(k)
        + " too many field name(s)"@
}

/// Once a prefix of the parameters fails, applying names to all of them
/// fails the same way.
proof fn lemma_apply_params_err(ps: Seq<ParamView>, k: int, in_struct: bool, names: Seq<Seq<char>>, pos: nat)
    requires
        0 < k <= ps.len(),
        apply_params(ps.subrange(0, k), in_struct, names, pos) is Err,
    ensures
        apply_params(ps, in_struct, names, pos) == apply_params(ps.subrange(0, k), in_struct, names, pos),
    decreases ps.len(),
{
    if k == ps.len() {
        assert(ps.subrange(0, k) == ps);
    } else {
        assert(ps.drop_last().subrange(0, k) == ps.subrange(0, k));
        lemma_apply_params_err(ps.drop_last(), k, in_struct, names, pos);
    }
}

/// Takes the name at `pos` and moves `pos` on, or fails if none is left.
fn next_name(names: &[String], pos: &mut usize) -> (r: Result<String, Cause>)
    requires
        *old(pos) <= names@.len(),
    ensures
        *old(pos) < names@.len() ==> (r matches Ok(s) && s@ == names@[*old(pos) as int]@ && *final(pos)
            == *old(pos) + 1),
        *old(pos) >= names@.len() ==> (r matches Err(c) && too_few_names(c) && *final(pos) == *old(pos)),
{
    if *pos < names.len() {
        let s = names[*pos].clone();
        *pos = *pos + 1;
        Ok(s)
    } else {
        Err(Cause::MismatchedFieldNameAssociations(String::from_str("received too few field name(s)")))
    }
}

impl DataType {
    /// Applies the names from position `pos` on to the fields of the structs
    /// in this type, moving `pos` past the names used.
    fn apply_field_names_internal(self, names: &[String], pos: &mut usize) -> (r: Result<DataType, Cause>)
        requires
            *old(pos) <= names@.len(),
        ensures
            *final(pos) <= names@.len(),
            match apply_type(self@, names_view(names@), *old(pos) as nat) {
                Ok((t, p)) => r matches Ok(u) && u@ == t && *final(pos) == p,
                Err(ApplyError::TooFew) => r matches Err(c) && too_few_names(c),
                Err(ApplyError::Rejected) => r matches Err(c) && c is MismatchedTypeParameters,
            },
        decreases self,
    {
        let ghost ps = params_view(self.parameters@);
        let ghost orig = self.parameters@;
        let ghost pos0 = *pos as nat;
        let ghost nv = names_view(names@);
        proof {
            lemma_params_view(self.parameters@);
        }
        let in_struct = self.is_struct();
        let mut rest = self.parameters;
        let total = rest.len();
        let mut out: Vec<Parameter> = Vec::new();
        let mut i: usize = 0;
        assert(ps.subrange(0, 0) == Seq::<ParamView>::empty());
        while rest.len() > 0
            invariant
                orig.len() == total,
                in_struct == is_struct_class(self@.class),
                ps == params_view(orig),
                ps.len() == orig.len(),
                forall|j: int| 0 <= j < orig.len() ==> #[trigger] ps[j] == param_view(orig[j]),
                orig == self.parameters@,
                nv == names_view(names@),
                nv.len() == names@.len(),
                pos0 == *old(pos) as nat,
                i <= orig.len(),
                *pos <= names@.len(),
                rest@ == orig.subrange(i as int, orig.len() as int),
                apply_params(ps.subrange(0, i as int), in_struct, nv, pos0) == Ok::<(Seq<ParamView>, nat), ApplyError>((params_view(out@), *pos as nat)),
            decreases rest@.len(),
        {
            let p = rest.remove(0);
            assert(p == orig[i as int]);
            assert(ps.subrange(0, i + 1).drop_last() == ps.subrange(0, i as int));
            assert(ps.subrange(0, i + 1).last() == ps[i as int]);
            let q = match p {
                Parameter::Unsigned(x) => Parameter::Unsigned(x),
                Parameter::Type(t) => {
                    assert(ps[i as int] == ParamView::Type(t@));
                    let name = if in_struct {
                        match next_name(names, pos) {
                            Ok(n) => Some(n),
                            Err(c) => {
                                proof {
                                    lemma_apply_params_err(ps, i + 1, in_struct, nv, pos0);
                                    assert(self@.parameters == ps);
                                    assert(apply_type(self@, nv, pos0) == Err::<(TypeView, nat), ApplyError>(apply_params(ps, in_struct, nv, pos0)->Err_0));
                                }
                                return Err(c);
                            },
                        }
                    } else {
                        None
                    };
                    let t2 = match t.apply_field_names_internal(names, pos) {
                        Ok(t2) => t2,
                        Err(c) => {
                            proof {
                                lemma_apply_params_err(ps, i + 1, in_struct, nv, pos0);
                                    assert(self@.parameters == ps);
                                    assert(apply_type(self@, nv, pos0) == Err::<(TypeView, nat), ApplyError>(apply_params(ps, in_struct, nv, pos0)->Err_0));
                            }
                            return Err(c);
                        },
                    };
                    match name {
                        Some(n) => Parameter::NamedType(n, t2),
                        None => Parameter::Type(t2),
                    }
                },
                Parameter::NamedType(n, t) => {
                    assert(ps[i as int] == ParamView::NamedType(n@, t@));
                    let name = if in_struct {
                        match next_name(names, pos) {
                            Ok(m) => m,
                            Err(c) => {
                                proof {
                                    lemma_apply_params_err(ps, i + 1, in_struct, nv, pos0);
                                    assert(self@.parameters == ps);
                                    assert(apply_type(self@, nv, pos0) == Err::<(TypeView, nat), ApplyError>(apply_params(ps, in_struct, nv, pos0)->Err_0));
                                }
                                return Err(c);
                            },
                        }
                    } else {
                        n
                    };
                    let t2 = match t.apply_field_names_internal(names, pos) {
                        Ok(t2) => t2,
                        Err(c) => {
                            proof {
                                lemma_apply_params_err(ps, i + 1, in_struct, nv, pos0);
                                    assert(self@.parameters == ps);
                                    assert(apply_type(self@, nv, pos0) == Err::<(TypeView, nat), ApplyError>(apply_params(ps, in_struct, nv, pos0)->Err_0));
                            }
                            return Err(c);
                        },
                    };
                    Parameter::NamedType(name, t2)
                },
            };
            proof {
                lemma_params_view_push(out@, q);
            }
            out.push(q);
            i = i + 1;
        }
        assert(ps.subrange(0, i as int) == ps);
        if in_struct {
            DataType::new(Class::Compound(Compound::NamedStruct), self.nullable, self.variation, out)
        } else {
            Ok(DataType { class: self.class, nullable: self.nullable, variation: self.variation, parameters: out })
        }
    }

    /// Names the fields of every `STRUCT` and `NSTRUCT` in the tree from a
    /// flattened list of names, turning them into `NSTRUCT`s. Fails if the
    /// list has too few or too many names, or if a struct would end up with
    /// two fields of the same name.
    pub fn apply_field_names(self, names: &[String]) -> (r: Result<DataType, Cause>)
        ensures
            match apply_type(self@, names_view(names@), 0) {
                Ok((t, p)) => if p == names@.len() {
                    r matches Ok(u) && u@ == t
                } else {
                    r matches Err(c) && too_many_names(c, (names@.len() - p) as nat)
                },
                Err(ApplyError::TooFew) => r matches Err(c) && too_few_names(c),
                Err(ApplyError::Rejected) => r matches Err(c) && c is MismatchedTypeParameters,
            },
            valid(self@) ==> (r matches Ok(u) ==> valid(u@)),
    {
        proof {
            if valid(self@) && apply_type(self@, names_view(names@), 0) is Ok {
                lemma_apply_type_valid(self@, names_view(names@), 0);
            }
        }
        let mut pos: usize = 0;
        let t = match self.apply_field_names_internal(names, &mut pos) {
            Ok(t) => t,
            Err(c) => return Err(c),
        };
        let remainder = names.len() - pos;
        if remainder > 0 {
            let msg = String::from_str("received ").concat(to_decimal(remainder as u64).as_str());
            Err(Cause::MismatchedFieldNameAssociations(msg.concat(" too many field name(s)")))
        } else {
            Ok(t)
        }
    }
}

impl DataType {
    /// Parses a type from its textual form. No textual syntax is defined yet,
    /// so this always reports that parsing is not implemented.
    pub fn parse<R: TypeResolver>(_s: &str, _type_resolver: R) -> (r: Result<DataType, Cause>)
        ensures
            r matches Err(c) && c is NotYetImplemented,
    {
        Err(Cause::NotYetImplemented(String::from_str("parsing types from text")))
    }
}

impl Default for DataType {
    /// An unresolved type without description.
    fn default() -> (r: DataType)
        ensures
            r@ == (TypeView {
                class: ClassView::Unresolved(Seq::empty()),
                nullable: false,
                variation: None,
                parameters: Seq::empty(),
            }),
    {
        DataType::new_default()
    }
}

impl Parameter {
    /// Splits the name off a named type parameter.
    pub fn split_name(self) -> (r: (Parameter, Option<String>))
        ensures
            match self@ {
                ParamView::NamedType(n, t) => r.0@ == ParamView::Type(t) && (r.1 matches Some(s) && s@ == n),
                _ => r.0@ == self@ && r.1 is None,
            },
    {
        match self {
            Parameter::NamedType(n, t) => (Parameter::Type(t), Some(n)),
            p => (p, None),
        }
    }

    /// Returns the name of a named type parameter.
    pub fn get_name(&self) -> (r: Option<&str>)
        ensures
            match self@ {
                ParamView::NamedType(n, _) => r matches Some(s) && s@ == n,
                _ => r is None,
            },
    {
        match self {
            Parameter::NamedType(n, _) => Some(n.as_str()),
            _ => None,
        }
    }

    /// Names the parameter with the name that `f` gives, replacing any name
    /// it had. `f` is called only for type parameters; an integer parameter
    /// is returned as it is.
    pub fn with_name<E, F: FnOnce() -> Result<String, E>>(self, f: F) -> (r: Result<Parameter, E>)
        requires
            !(self is Unsigned) ==> f.requires(()),
        ensures
            self is Unsigned ==> (r matches Ok(p) && p == self),
            !(self is Unsigned) ==> exists|fr: Result<String, E>|
                #[trigger] f.ensures((), fr) && match fr {
                    Ok(n) => r matches Ok(p) && p@ == ParamView::NamedType(n@, param_type(self@)->0),
                    Err(e) => r == Err::<Parameter, E>(e),
                },
    {
        match self {
            Parameter::Type(t) => match f() {
                Ok(n) => Ok(Parameter::NamedType(n, t)),
                Err(e) => Err(e),
            },
            Parameter::NamedType(_, t) => match f() {
                Ok(n) => Ok(Parameter::NamedType(n, t)),
                Err(e) => Err(e),
            },
            p => Ok(p),
        }
    }

    /// Replaces the type the parameter carries by what `f` makes of it. `f`
    /// is called only for type parameters; an integer parameter is returned
    /// as it is.
    pub fn map_type_result<E, F: FnOnce(DataType) -> Result<DataType, E>>(self, f: F) -> (r: Result<Parameter, E>)
        requires
            match self {
                Parameter::Type(t) => f.requires((t,)),
                Parameter::NamedType(_, t) => f.requires((t,)),
                Parameter::Unsigned(_) => true,
            },
        ensures
            match self {
                Parameter::Type(t) => exists|fr: Result<DataType, E>|
                    #[trigger] f.ensures((t,), fr) && match fr {
                        Ok(u) => r matches Ok(p) && p == Parameter::Type(u),
                        Err(e) => r == Err::<Parameter, E>(e),
                    },
                Parameter::NamedType(n, t) => exists|fr: Result<DataType, E>|
                    #[trigger] f.ensures((t,), fr) && match fr {
                        Ok(u) => r matches Ok(p) && p == Parameter::NamedType(n, u),
                        Err(e) => r == Err::<Parameter, E>(e),
                    },
                Parameter::Unsigned(x) => r matches Ok(p) && p == Parameter::Unsigned(x),
            },
    {
        match self {
            Parameter::Type(t) => match f(t) {
                Ok(u) => Ok(Parameter::Type(u)),
                Err(e) => Err(e),
            },
            Parameter::NamedType(n, t) => match f(t) {
                Ok(u) => Ok(Parameter::NamedType(n, u)),
                Err(e) => Err(e),
            },
            p => Ok(p),
        }
    }

    /// Replaces the type the parameter carries by what `f` makes of it. `f`
    /// is called only for type parameters; an integer parameter is returned
    /// as it is.
    pub fn map_type<F: FnOnce(DataType) -> DataType>(self, f: F) -> (r: Parameter)
        requires
            match self {
                Parameter::Type(t) => f.requires((t,)),
                Parameter::NamedType(_, t) => f.requires((t,)),
                Parameter::Unsigned(_) => true,
            },
        ensures
            match self {
                Parameter::Type(t) => exists|u: DataType| #[trigger] f.ensures((t,), u) && r == Parameter::Type(u),
                Parameter::NamedType(n, t) => exists|u: DataType|
                    #[trigger] f.ensures((t,), u) && r == Parameter::NamedType(n, u),
                Parameter::Unsigned(x) => r == Parameter::Unsigned(x),
            },
    {
        match self {
            Parameter::Type(t) => Parameter::Type(f(t)),
            Parameter::NamedType(n, t) => Parameter::NamedType(n, f(t)),
            p => p,
        }
    }
}

impl From<DataType> for Parameter {
    fn from(t: DataType) -> (r: Parameter)
        ensures
            r == Parameter::Type(t),
    {
        Parameter::Type(t)
    }
}

impl vstd::std_specs::convert::FromSpecImpl<DataType> for Parameter {
    open spec fn obeys_from_spec() -> bool {
        true
    }

    open spec fn from_spec(t: DataType) -> Parameter {
        Parameter::Type(t)
    }
}

impl From<u64> for Parameter {
    fn from(x: u64) -> (r: Parameter)
        ensures
            r == Parameter::Unsigned(x),
    {
        Parameter::Unsigned(x)
    }
}

impl vstd::std_specs::convert::FromSpecImpl<u64> for Parameter {
    open spec fn obeys_from_spec() -> bool {
        true
    }

    open spec fn from_spec(x: u64) -> Parameter {
        Parameter::Unsigned(x)
    }
}

/// How a data type is written: its class, `?` if nullable, the variation
/// name in brackets if any, and its parameters in angle brackets, separated
/// by commas, if there are any.
pub open spec fn type_text(t: TypeView) -> Seq<char>
    decreases t, 1nat,
{
    let nullable: Seq<char> = if t.nullable {
        "?"@
    } else {
        Seq::empty()
    };
    let variation: Seq<char> = match t.variation {
        Some(v) => "["@ + v + "]"@,
        None => Seq::empty(),
    };
    let parameters: Seq<char> = if t.parameters.len() > 0 {
        "<"@ + params_text(t.parameters) + ">"@
    } else {
        Seq::empty()
    };
    class_text(t.class) + nullable + variation + parameters
}

/// How a list of parameters is written: separated by `, `.
pub open spec fn params_text(ps: Seq<ParamView>) -> Seq<char>
    decreases ps, 0nat,
{
    if ps.len() == 0 {
        Seq::empty()
    } else {
        let last = match ps.last() {
            ParamView::Type(t) => type_text(t),
            ParamView::NamedType(n, t) => ident_or_string(n) + ": "@ + type_text(t),
            ParamView::Unsigned(x) => decimal(x as nat),
        };
        if ps.len() == 1 {
            last
        } else {
            params_text(ps.drop_last()) + ", "@ + last
        }
    }
}

/// How a parameter is written.
pub open spec fn param_text(p: ParamView) -> Seq<char> {
    params_text(seq![p])
}

impl DataType {
    /// Renders the type as text, e.g. `FIXEDCHAR?<10>`.
    pub fn to_string(&self) -> (r: String)
        ensures
            r@ == type_text(self@),
        decreases self,
    {
        proof {
            lemma_params_view(self.parameters@);
        }
        let ghost ps = params_view(self.parameters@);
        let mut r = self.class.to_string();
        if self.nullable {
            r.append("?");
        }
        if let Some(v) = &self.variation {
            r.append("[");
            r.append(v.name.as_str());
            r.append("]");
        }
        let ghost head = r@;
        if self.parameters.len() > 0 {
            r.append("<");
            let mut i: usize = 0;
            while i < self.parameters.len()
                invariant
                    i <= self.parameters@.len(),
                    ps == params_view(self.parameters@),
                    ps.len() == self.parameters@.len(),
                    forall|j: int| 0 <= j < ps.len() ==> #[trigger] ps[j] == param_view(self.parameters@[j]),
                    r@ == head + "<"@ + params_text(ps.subrange(0, i as int)),
                decreases self.parameters@.len() - i,
            {
                assert(ps.subrange(0, i + 1).drop_last() == ps.subrange(0, i as int));
                let ghost before = r@;
                if i > 0 {
                    r.append(", ");
                }
                let item = match &self.parameters[i] {
                    Parameter::Type(t) => t.to_string(),
                    Parameter::NamedType(n, t) => {
                        let mut s = as_ident_or_string(n.as_str());
                        s.append(": ");
                        s.append(t.to_string().as_str());
                        s
                    },
                    Parameter::Unsigned(x) => to_decimal(*x),
                };
                r.append(item.as_str());
                proof {
                    if i == 0 {
                        assert(ps.subrange(0, 1) == seq![ps[0]]);
                    }
                }
                i = i + 1;
            }
            assert(ps.subrange(0, i as int) == ps);
            r.append(">");
        }
        r
    }
}

impl Parameter {
    /// Renders the parameter as text: a type, a name and a type separated by
    /// `: `, or an integer.
    pub fn to_string(&self) -> (r: String)
        ensures
            r@ == param_text(self@),
    {
        assert(seq![self@].drop_last() == Seq::<ParamView>::empty());
        match self {
            Parameter::Type(t) => t.to_string(),
            Parameter::NamedType(n, t) => {
                let mut s = as_ident_or_string(n.as_str());
                s.append(": ");
                s.append(t.to_string().as_str());
                s
            },
            Parameter::Unsigned(x) => to_decimal(*x),
        }
    }
}

/// The number of struct fields in a type tree, over all levels of nesting.
pub open spec fn field_count(t: TypeView) -> nat
    decreases t, 1nat,
{
    params_field_count(t.parameters, is_struct_class(t.class))
}

/// The number of struct fields in a list of parameters and the types they
/// carry; `in_struct` says whether they are themselves struct fields.
pub open spec fn params_field_count(ps: Seq<ParamView>, in_struct: bool) -> nat
    decreases ps, 0nat,
{
    if ps.len() == 0 {
        0
    } else {
        let own: nat = if in_struct {
            1
        } else {
            0
        };
        let nested: nat = match ps.last() {
            ParamView::Type(t) => field_count(t),
            ParamView::NamedType(_, t) => field_count(t),
            ParamView::Unsigned(_) => 0,
        };
        params_field_count(ps.drop_last(), in_struct) + own + nested
    }
}

/// A type tree with every `STRUCT` or `NSTRUCT` turned into an `NSTRUCT`
/// whose fields keep their names, and anonymous fields are named by their
/// index.
pub open spec fn named_form(t: TypeView) -> TypeView
    decreases t, 1nat,
{
    let in_struct = is_struct_class(t.class);
    TypeView {
        class: if in_struct {
            ClassView::Compound(Compound::NamedStruct)
        } else {
            t.class
        },
        nullable: t.nullable,
        variation: t.variation,
        parameters: named_params(t.parameters, in_struct),
    }
}

/// `named_form` of the types in a list of parameters; `in_struct` says
/// whether they are struct fields, which are named.
pub open spec fn named_params(ps: Seq<ParamView>, in_struct: bool) -> Seq<ParamView>
    decreases ps, 0nat,
{
    if ps.len() == 0 {
        Seq::empty()
    } else {
        let init = named_params(ps.drop_last(), in_struct);
        match ps.last() {
            ParamView::Unsigned(x) => init.push(ParamView::Unsigned(x)),
            ParamView::Type(t) => init.push(
                if in_struct {
                    ParamView::NamedType(decimal((ps.len() - 1) as nat), named_form(t))
                } else {
                    ParamView::Type(named_form(t))
                },
            ),
            ParamView::NamedType(n, t) => init.push(ParamView::NamedType(n, named_form(t))),
        }
    }
}

/// Whether `names`, from `pos` on, agrees with `s` as far as both go.
pub open spec fn agrees(names: Seq<Seq<char>>, pos: nat, s: Seq<Seq<char>>) -> bool {
    forall|k: int| 0 <= k < s.len() && pos + k < names.len() ==> #[trigger] names[pos + k] == s[k]
}

proof fn lemma_agrees_concat(names: Seq<Seq<char>>, pos: nat, a: Seq<Seq<char>>, b: Seq<Seq<char>>)
    requires
        agrees(names, pos, a + b),
    ensures
        agrees(names, pos, a),
        agrees(names, pos + a.len(), b),
{
    assert forall|k: int| 0 <= k < a.len() && pos + k < names.len() implies #[trigger] names[pos + k] == a[k] by {
        assert((a + b)[k] == a[k]);
    }
    assert forall|k: int| 0 <= k < b.len() && pos + a.len() + k < names.len() implies #[trigger] names[pos + a.len() + k] == b[k] by {
        assert((a + b)[a.len() + k] == b[k]);
        assert(names[pos + (a.len() + k)] == (a + b)[a.len() + k]);
    }
}

/// The entries of `named_params` of a struct's fields, position by position.
proof fn lemma_named_params_index(ps: Seq<ParamView>)
    requires
        forall|i: int| 0 <= i < ps.len() ==> !(#[trigger] ps[i] is Unsigned),
    ensures
        named_params(ps, true).len() == ps.len(),
        forall|i: int| 0 <= i < ps.len() ==> #[trigger] named_params(ps, true)[i] == ParamView::NamedType(
            field_name(ps[i], i as nat),
            named_form(param_type(ps[i])->0),
        ),
    decreases ps.len(),
{
    if ps.len() > 0 {
        lemma_named_params_index(ps.drop_last());
        assert(forall|i: int| 0 <= i < ps.len() - 1 ==> ps.drop_last()[i] == ps[i]);
    }
}

/// A struct that fits its class's rule, with its fields named, fits the rule
/// of `NSTRUCT`.
proof fn lemma_named_struct_accepted(c: ClassView, ps: Seq<ParamView>)
    requires
        is_struct_class(c),
        class_accepts(c, ps),
    ensures
        compound_accepts(Compound::NamedStruct, named_params(ps, true)),
{
    assert(forall|i: int| 0 <= i < ps.len() ==> !(#[trigger] ps[i] is Unsigned)) by {
        assert forall|i: int| 0 <= i < ps.len() implies !(#[trigger] ps[i] is Unsigned) by {
            if c == ClassView::Compound(Compound::Struct) {
                assert(ps[i] is Type);
            } else {
                assert(ps[i] is NamedType);
            }
        }
    }
    lemma_named_params_index(ps);
    let np = named_params(ps, true);
    assert forall|i: int, j: int| 0 <= i < j < np.len() implies #[trigger] np[i]->NamedType_0
        != #[trigger] np[j]->NamedType_0 by {
        if c == ClassView::Compound(Compound::Struct) {
            assert(ps[i] is Type && ps[j] is Type);
            if decimal(i as nat) == decimal(j as nat) {
                lemma_decimal_injective(i as nat, j as nat);
            }
        } else {
            assert(names_unique(ps));
            assert(ps[i]->NamedType_0 != ps[j]->NamedType_0);
        }
    }
}

/// Applying the names that splitting emits, from `pos` on, to the split
/// tree rebuilds `named_form(t)`, or runs out of names if there are fewer.
proof fn lemma_apply_split_type(t: TypeView, names: Seq<Seq<char>>, pos: nat)
    requires
        valid(t),
        pos <= names.len(),
        agrees(names, pos, split_type(t).1),
    ensures
        split_type(t).1.len() == field_count(t),
        pos + field_count(t) <= names.len() ==> apply_type(split_type(t).0, names, pos) == Ok::<
            (TypeView, nat),
            ApplyError,
        >((named_form(t), pos + field_count(t))),
        pos + field_count(t) > names.len() ==> apply_type(split_type(t).0, names, pos) == Err::<
            (TypeView, nat),
            ApplyError,
        >(ApplyError::TooFew),
    decreases t, 1nat,
{
    let in_struct = is_struct_class(t.class);
    if in_struct {
        assert forall|i: int| 0 <= i < t.parameters.len() implies !(#[trigger] t.parameters[i] is Unsigned) by {
            if t.class == ClassView::Compound(Compound::Struct) {
                assert(t.parameters[i] is Type);
            } else {
                assert(t.parameters[i] is NamedType);
            }
        }
        lemma_named_struct_accepted(t.class, t.parameters);
    }
    lemma_apply_split_params(t.parameters, in_struct, names, pos);
}

/// `lemma_apply_split_type` for a list of parameters.
proof fn lemma_apply_split_params(ps: Seq<ParamView>, in_struct: bool, names: Seq<Seq<char>>, pos: nat)
    requires
        all_valid(ps),
        in_struct ==> forall|i: int| 0 <= i < ps.len() ==> !(#[trigger] ps[i] is Unsigned),
        pos <= names.len(),
        agrees(names, pos, split_params(ps, in_struct).1),
    ensures
        split_params(ps, in_struct).1.len() == params_field_count(ps, in_struct),
        pos + params_field_count(ps, in_struct) <= names.len() ==> apply_params(
            split_params(ps, in_struct).0,
            in_struct,
            names,
            pos,
        ) == Ok::<(Seq<ParamView>, nat), ApplyError>(
            (named_params(ps, in_struct), pos + params_field_count(ps, in_struct)),
        ),
        pos + params_field_count(ps, in_struct) > names.len() ==> apply_params(
            split_params(ps, in_struct).0,
            in_struct,
            names,
            pos,
        ) == Err::<(Seq<ParamView>, nat), ApplyError>(ApplyError::TooFew),
    decreases ps, 0nat,
{
    if ps.len() > 0 {
        let init = ps.drop_last();
        let last = ps.last();
        let si = split_params(init, in_struct);
        let own: Seq<Seq<char>> = if in_struct {
            seq![field_name(last, (ps.len() - 1) as nat)]
        } else {
            Seq::empty()
        };
        assert(forall|i: int| 0 <= i < init.len() ==> init[i] == ps[i]);
        match last {
            ParamView::Unsigned(x) => {
                assert(split_params(ps, in_struct).1 == si.1 + own);
                lemma_agrees_concat(names, pos, si.1, own);
                lemma_apply_split_params(init, in_struct, names, pos);
                assert(split_params(ps, in_struct).0.drop_last() == si.0);
            },
            ParamView::Type(t) => {
                let st = split_type(t);
                assert(split_params(ps, in_struct).1 == si.1 + own + st.1);
                lemma_agrees_concat(names, pos, si.1 + own, st.1);
                lemma_agrees_concat(names, pos, si.1, own);
                lemma_apply_split_params(init, in_struct, names, pos);
                let p0 = pos + si.1.len();
                let p1 = p0 + own.len();
                assert(agrees(st.1, 0, st.1));
                lemma_apply_split_type(t, st.1, 0);
                if p1 <= names.len() {
                    lemma_apply_split_type(t, names, p1);
                }
                if in_struct && p0 < names.len() {
                    assert(names[pos + si.1.len() as int] == own[0]);
                }
                assert(split_params(ps, in_struct).0.drop_last() == si.0);
            },
            ParamView::NamedType(n, t) => {
                let st = split_type(t);
                assert(split_params(ps, in_struct).1 == si.1 + own + st.1);
                lemma_agrees_concat(names, pos, si.1 + own, st.1);
                lemma_agrees_concat(names, pos, si.1, own);
                lemma_apply_split_params(init, in_struct, names, pos);
                let p0 = pos + si.1.len();
                let p1 = p0 + own.len();
                assert(agrees(st.1, 0, st.1));
                lemma_apply_split_type(t, st.1, 0);
                if p1 <= names.len() {
                    lemma_apply_split_type(t, names, p1);
                }
                if in_struct && p0 < names.len() {
                    assert(names[pos + si.1.len() as int] == own[0]);
                }
                assert(split_params(ps, in_struct).0.drop_last() == si.0);
            },
        }
    }
}

/// Round trip of field names. For a valid type tree `t` with `n` struct
/// fields over all levels of nesting, splitting gives exactly `n` names, and
/// applying them to the split tree succeeds, giving `t` with every struct
/// turned into a named struct whose fields carry those names. With one name
/// fewer the names run out; with one name more, one is left over, which
/// `apply_field_names` reports as one name too many.
pub proof fn lemma_field_names_round_trip(t: TypeView)
    requires
        valid(t),
    ensures
        split_type(t).1.len() == field_count(t),
        apply_type(split_type(t).0, split_type(t).1, 0) == Ok::<(TypeView, nat), ApplyError>(
            (named_form(t), field_count(t)),
        ),
        field_count(t) > 0 ==> apply_type(split_type(t).0, split_type(t).1.drop_last(), 0) == Err::<
            (TypeView, nat),
            ApplyError,
        >(ApplyError::TooFew),
        forall|extra: Seq<char>| #[trigger]
            apply_type(split_type(t).0, split_type(t).1.push(extra), 0) == Ok::<(TypeView, nat), ApplyError>(
                (named_form(t), field_count(t)),
            ),
{
    let names = split_type(t).1;
    lemma_apply_split_type(t, names, 0);
    if field_count(t) > 0 {
        lemma_apply_split_type(t, names.drop_last(), 0);
    }
    assert forall|extra: Seq<char>| #[trigger]
        apply_type(split_type(t).0, split_type(t).1.push(extra), 0) == Ok::<(TypeView, nat), ApplyError>(
            (named_form(t), field_count(t)),
        ) by {
        lemma_apply_split_type(t, names.push(extra), 0);
    }
}

/// Whether two parameters have the same shape: the same variant, and the
/// same name or integer where they carry one.
pub open spec fn same_shape(p: ParamView, q: ParamView) -> bool {
    match (p, q) {
        (ParamView::Type(_), ParamView::Type(_)) => true,
        (ParamView::NamedType(n, _), ParamView::NamedType(m, _)) => n == m,
        (ParamView::Unsigned(x), ParamView::Unsigned(y)) => x == y,
        _ => false,
    }
}

/// The parameter rules look at the shape of the parameters only.
proof fn lemma_accepts_same_shape(c: ClassView, ps: Seq<ParamView>, qs: Seq<ParamView>)
    requires
        ps.len() == qs.len(),
        forall|i: int| 0 <= i < ps.len() ==> #[trigger] same_shape(ps[i], qs[i]),
        class_accepts(c, ps),
    ensures
        class_accepts(c, qs),
{
    assert forall|i: int| 0 <= i < ps.len() implies (#[trigger] qs[i] is Type) == (ps[i] is Type) && (qs[i] is NamedType) == (ps[i] is NamedType) by {
        assert(same_shape(ps[i], qs[i]));
    }
    if c is Compound {
        let k = c->Compound_0;
        if ps.len() > 0 {
            assert(same_shape(ps[0], qs[0]));
        }
        if ps.len() > 1 {
            assert(same_shape(ps[1], qs[1]));
        }
        if k == Compound::NamedStruct {
            assert forall|i: int, j: int| 0 <= i < j < qs.len() implies #[trigger] qs[i]->NamedType_0
                != #[trigger] qs[j]->NamedType_0 by {
                assert(same_shape(ps[i], qs[i]));
                assert(same_shape(ps[j], qs[j]));
                assert(ps[i]->NamedType_0 != ps[j]->NamedType_0);
            }
        }
    }
}

/// Applying names to a valid tree, when it succeeds, gives a valid tree.
proof fn lemma_apply_type_valid(t: TypeView, names: Seq<Seq<char>>, pos: nat)
    requires
        valid(t),
        apply_type(t, names, pos) is Ok,
    ensures
        valid(apply_type(t, names, pos)->Ok_0.0),
    decreases t, 1nat,
{
    let in_struct = is_struct_class(t.class);
    lemma_apply_params_valid(t.parameters, in_struct, names, pos);
    let qs = apply_params(t.parameters, in_struct, names, pos)->Ok_0.0;
    if !in_struct {
        lemma_accepts_same_shape(t.class, t.parameters, qs);
    }
}

/// `lemma_apply_type_valid` for a list of parameters; outside a struct the
/// parameters also keep their shape.
proof fn lemma_apply_params_valid(ps: Seq<ParamView>, in_struct: bool, names: Seq<Seq<char>>, pos: nat)
    requires
        all_valid(ps),
        apply_params(ps, in_struct, names, pos) is Ok,
    ensures
        all_valid(apply_params(ps, in_struct, names, pos)->Ok_0.0),
        apply_params(ps, in_struct, names, pos)->Ok_0.0.len() == ps.len(),
        !in_struct ==> forall|i: int| 0 <= i < ps.len() ==> #[trigger] same_shape(
            ps[i],
            apply_params(ps, in_struct, names, pos)->Ok_0.0[i],
        ),
    decreases ps, 0nat,
{
    if ps.len() > 0 {
        let init = ps.drop_last();
        lemma_apply_params_valid(init, in_struct, names, pos);
        let (ri, p0) = apply_params(init, in_struct, names, pos)->Ok_0;
        let res = apply_params(ps, in_struct, names, pos)->Ok_0.0;
        assert(res.drop_last() == ri);
        match ps.last() {
            ParamView::Unsigned(_) => {},
            ParamView::Type(t) => {
                let q = if in_struct { p0 + 1 } else { p0 };
                lemma_apply_type_valid(t, names, q);
            },
            ParamView::NamedType(_, t) => {
                let q = if in_struct { p0 + 1 } else { p0 };
                lemma_apply_type_valid(t, names, q);
            },
        }
        assert(forall|i: int| 0 <= i < init.len() ==> init[i] == ps[i]);
        assert(forall|i: int| 0 <= i < ri.len() ==> ri[i] == res[i]);
    }
}

/// Splitting the names off a valid tree gives a valid tree.
proof fn lemma_split_type_valid(t: TypeView)
    requires
        valid(t),
    ensures
        valid(split_type(t).0),
    decreases t, 1nat,
{
    let in_struct = is_struct_class(t.class);
    lemma_split_params_valid(t.parameters, in_struct);
    let qs = split_params(t.parameters, in_struct).0;
    if in_struct {
        assert forall|i: int| 0 <= i < qs.len() implies #[trigger] qs[i] is Type by {
            if t.class == ClassView::Compound(Compound::Struct) {
                assert(t.parameters[i] is Type);
            } else {
                assert(t.parameters[i] is NamedType);
            }
        }
    } else {
        lemma_accepts_same_shape(t.class, t.parameters, qs);
    }
}

/// `lemma_split_type_valid` for a list of parameters: struct fields become
/// anonymous, other parameters keep their shape.
proof fn lemma_split_params_valid(ps: Seq<ParamView>, in_struct: bool)
    requires
        all_valid(ps),
    ensures
        all_valid(split_params(ps, in_struct).0),
        split_params(ps, in_struct).0.len() == ps.len(),
        forall|i: int| 0 <= i < ps.len() ==> {
            let q = #[trigger] split_params(ps, in_struct).0[i];
            if in_struct {
                ps[i] is Unsigned ==> q == ps[i]
            } else {
                same_shape(ps[i], q)
            }
        },
        in_struct ==> forall|i: int| 0 <= i < ps.len() && !(ps[i] is Unsigned) ==> #[trigger] split_params(ps, in_struct).0[i] is Type,
    decreases ps, 0nat,
{
    if ps.len() > 0 {
        let init = ps.drop_last();
        lemma_split_params_valid(init, in_struct);
        let ri = split_params(init, in_struct).0;
        let res = split_params(ps, in_struct).0;
        assert(res.drop_last() == ri);
        match ps.last() {
            ParamView::Unsigned(_) => {},
            ParamView::Type(t) => {
                lemma_split_type_valid(t);
            },
            ParamView::NamedType(_, t) => {
                lemma_split_type_valid(t);
            },
        }
        assert(forall|i: int| 0 <= i < init.len() ==> init[i] == ps[i]);
        assert(forall|i: int| 0 <= i < ri.len() ==> ri[i] == res[i]);
    }
}

} // verus!
