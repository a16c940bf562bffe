//! The domain model as it is written down: contexts and their relations on
//! the strategic side, aggregates and what they hold on the tactical side.

use vstd::prelude::*;

verus! {

/// A map of bounded contexts and the relations among them.
#[derive(Debug, Clone, PartialEq, Eq)]
pub struct ContextMap {
    pub name: String,
    pub contexts: BoundedContext,
    pub relations: Vec<BoundedContextRelation>,
}

/// A bounded context.
#[derive(Debug, Clone, PartialEq, Eq)]
pub struct BoundedContext {
    pub name: String,
}

/// How two bounded contexts relate. The first two are symmetric; the others
/// have an upstream and a downstream side.
#[derive(Debug, Clone, Copy, PartialEq, Eq, Structural)]
pub enum BoundedContextRelation {
    SharedKernel,
    Partnership,
    CustomerSupplier,
    GenericUpstreamDownstream,
    Conformist,
    AntiCorruptionLayer,
    OpenHostService,
    PublishedLanguage,
}

/// An aggregate of entities inside a context.
#[derive(Debug, Clone, PartialEq, Eq)]
pub struct Aggregate {
    pub name: String,
    pub description: String,
    pub is_root: bool,
    pub context: String,
    pub entities: Vec<Entity>,
}

/// A domain event.
#[derive(Debug, Clone, PartialEq, Eq)]
pub struct DomainEvent {
    pub name: String,
}

/// An entity and its fields.
#[derive(Debug, Clone, PartialEq, Eq)]
pub struct Entity {
    pub name: String,
    pub fields: Vec<Field>,
}

/// A field of an entity: its name and the name of its type.
#[derive(Debug, Clone, PartialEq, Eq)]
pub struct Field {
    pub name: String,
    pub type_: String,
}

/// A key with its value.
#[derive(Debug, Clone, PartialEq, Eq)]
pub struct Attribute {
    pub key: String,
    pub value: String,
}

/// What is asked of a field's values.
#[derive(Debug, Clone, Copy, PartialEq, Eq, Structural)]
pub struct Property {
    pub required: bool,
    pub nullable: bool,
    pub unique: bool,
}

} // verus!
