//! Handles on definitions owned by an extension registry, and the interface
//! through which such a registry resolves names.
use vstd::prelude::*;
use std::sync::Arc;
use crate::class::Class;
use crate::diagnostic::Cause;

verus! {

/// A user-defined type definition, owned by an extension registry.
#[derive(Clone, Debug, PartialEq)]
pub struct TypeDefinition {
    /// The name under which the type was registered.
    pub name: String,
}

/// A type variation definition, owned by an extension registry.
#[derive(Clone, Debug, PartialEq)]
pub struct TypeVariation {
    /// The name under which the variation was registered.
    pub name: String,
}

/// Type variation of a data type: `None` for the base representation.
pub type Variation = Option<Arc<TypeVariation>>;

/// Something that can resolve user-defined types and type variations by name.
pub trait TypeResolver {
    /// Resolves a user-defined type from its name.
    fn resolve_type(&self, name: &str) -> Result<Arc<TypeDefinition>, Cause>;

    /// Resolves a type variation from its name and the class it applies to.
    fn resolve_type_variation(&self, name: &str, base_type: Class) -> Result<
        Arc<TypeVariation>,
        Cause,
    >;
}

} // verus!
