//! The `prop` element.

use vstd::prelude::*;

use super::super::properties::{ContentLength, CreationDate, LastModified};
use super::super::value::{
    copy_map, optional_model, spec_get_optional, value_model, NameKey, Value, ValueMap, ValueModel,
};
use super::super::{Element, FromValue, XmlError};

verus! {

/// The `prop` element: arbitrary child elements, read one property at a
/// time with [`Properties::get`].
#[derive(Debug)]
pub struct Properties(pub ValueMap);

impl Properties {
    /// Reads a property of this `prop` element: `None` when it does not
    /// exist, `Some(None)` when it exists and is empty, `Some(Some(Ok(_)))`
    /// when it was read, and `Some(Some(Err(_)))` when reading it failed.
    pub fn get<P: FromValue>(&self) -> (r: Option<Option<Result<P, XmlError>>>)
        ensures
            optional_model(r) == spec_get_optional::<P>(self.0.model()),
    {
        self.0.get_optional()
    }

    /// Reads the `creationdate` property, as [`Properties::get`] does.
    pub fn creationdate(&self) -> (r: Option<Option<Result<CreationDate, XmlError>>>)
        ensures
            optional_model(r) == spec_get_optional::<CreationDate>(self.0.model()),
    {
        self.get()
    }

    /// Reads the `getcontentlength` property, as [`Properties::get`] does.
    pub fn getcontentlength(&self) -> (r: Option<Option<Result<ContentLength, XmlError>>>)
        ensures
            optional_model(r) == spec_get_optional::<ContentLength>(self.0.model()),
    {
        self.get()
    }

    /// Reads the `getlastmodified` property, as [`Properties::get`] does.
    pub fn getlastmodified(&self) -> (r: Option<Option<Result<LastModified, XmlError>>>)
        ensures
            optional_model(r) == spec_get_optional::<LastModified>(self.0.model()),
    {
        self.get()
    }
}

impl Element for Properties {
    open spec fn spec_local_name() -> Seq<char> {
        "prop"@
    }

    fn local_name() -> (name: String) {
        "prop".to_owned()
    }
}

impl FromValue for Properties {
    type Model = Seq<(NameKey, ValueModel)>;

    open spec fn model(&self) -> Seq<(NameKey, ValueModel)> {
        self.0.model()
    }

    /// The child elements of the value.
    open spec fn spec_from_value(value: ValueModel) -> Result<Seq<(NameKey, ValueModel)>, XmlError> {
        match value {
            ValueModel::Elements(m) => Ok(m),
            _ => Err(XmlError::InvalidValueType),
        }
    }

    fn from_value(value: &Value) -> (r: Result<Self, XmlError>) {
        match value {
            Value::Elements(m) => Ok(Properties(copy_map(m))),
            _ => Err(XmlError::InvalidValueType),
        }
    }
}

impl From<Properties> for Value {
    /// The child elements, as they are.
    fn from(props: Properties) -> (v: Value)
        ensures
            value_model(v) == ValueModel::Elements(props.0.model()),
    {
        Value::Elements(props.0)
    }
}

impl vstd::std_specs::convert::FromSpecImpl<Properties> for Value {
    open spec fn obeys_from_spec() -> bool {
        true
    }

    open spec fn from_spec(props: Properties) -> Value {
        Value::Elements(props.0)
    }
}

} // verus!
