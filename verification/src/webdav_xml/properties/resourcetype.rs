//! The `resourcetype` property and the `collection` element.

use vstd::prelude::*;

use super::super::value::{copy_map, entries_model, value_model, NameKey, Value, ValueMap, ValueModel};
use super::super::{Element, FromValue, XmlError};

verus! {

/// The `resourcetype` property: the elements naming the kind of a resource.
#[derive(Debug)]
pub struct ResourceType(pub ValueMap);

impl Element for ResourceType {
    open spec fn spec_local_name() -> Seq<char> {
        "resourcetype"@
    }

    fn local_name() -> (name: String) {
        "resourcetype".to_owned()
    }
}

impl FromValue for ResourceType {
    type Model = Seq<(NameKey, ValueModel)>;

    open spec fn model(&self) -> Seq<(NameKey, ValueModel)> {
        self.0.model()
    }

    /// The child elements of the value.
    open spec fn spec_from_value(value: ValueModel) -> Result<Seq<(NameKey, ValueModel)>, XmlError> {
        match value {
            ValueModel::Elements(m) => Ok(m),
            _ => Err(XmlError::InvalidValueType),
        }
    }

    fn from_value(value: &Value) -> (r: Result<Self, XmlError>) {
        match value {
            Value::Elements(m) => Ok(ResourceType(copy_map(m))),
            _ => Err(XmlError::InvalidValueType),
        }
    }
}

/// The `collection` element, which marks a resource as a collection.
#[derive(Clone, Copy, Debug, PartialEq, Eq)]
pub struct Collection;

impl Element for Collection {
    open spec fn spec_local_name() -> Seq<char> {
        "collection"@
    }

    fn local_name() -> (name: String) {
        "collection".to_owned()
    }
}

impl From<ResourceType> for Value {
    /// The child elements, as they are.
    fn from(resourcetype: ResourceType) -> (v: Value)
        ensures
            value_model(v) == ValueModel::Elements(resourcetype.0.model()),
    {
        Value::Elements(resourcetype.0)
    }
}

impl vstd::std_specs::convert::FromSpecImpl<ResourceType> for Value {
    open spec fn obeys_from_spec() -> bool {
        true
    }

    open spec fn from_spec(resourcetype: ResourceType) -> Value {
        Value::Elements(resourcetype.0)
    }
}

} // verus!
