//! The WebDAV XML model: generic element values, and the elements and
//! properties of RFC 4918 that a `PROPFIND` answer is read into.

use vstd::prelude::*;

pub mod value;
pub mod properties;
pub mod elements;
pub mod read;

use self::value::{value_model, Value, ValueModel};

verus! {

/// Errors raised while reading WebDAV XML.
#[derive(Clone, Copy, Debug, PartialEq, Eq, Structural)]
pub enum XmlError {
    /// The element holds a different kind of content than expected.
    InvalidValueType,
    /// A mandatory child element is absent.
    MissingElement,
    /// The text of an element could not be converted into its typed value.
    InvalidElement,
    /// A prefix is bound to an empty namespace URI.
    InvalidNamespace,
    /// A closing tag does not match its opening tag, or content is invalid.
    UnexpectedTag,
    /// An entity reference that is neither predefined nor a character
    /// reference.
    UnknownEntity,
    /// The XML tokenizer failed.
    Xml,
    /// The document is not valid UTF-8.
    Utf8,
}

/// The namespace URI of WebDAV elements.
pub const DAV_NAMESPACE: &'static str = "DAV:";

/// An element of an XML vocabulary: its local name in the `DAV:`
/// namespace.
pub trait Element: Sized {
    spec fn spec_local_name() -> Seq<char>;

    fn local_name() -> (name: String)
        ensures
            name@ == Self::spec_local_name(),
    ;
}

/// An element that can be read from the value of an XML element.
pub trait FromValue: Element {
    /// What a value of the element is, as far as its contract speaks of it.
    type Model;

    spec fn model(&self) -> Self::Model;

    /// What reading the element from a value gives.
    spec fn spec_from_value(value: ValueModel) -> Result<Self::Model, XmlError>;

    fn from_value(value: &Value) -> (r: Result<Self, XmlError>)
        ensures
            match r {
                Ok(x) => Self::spec_from_value(value_model(*value)) == Ok::<Self::Model, XmlError>(
                    x.model(),
                ),
                Err(e) => Self::spec_from_value(value_model(*value)) == Err::<Self::Model, XmlError>(
                    e,
                ),
            },
    ;
}

/// The model of the result of reading an element.
pub open spec fn result_model<P: FromValue>(r: Result<P, XmlError>) -> Result<P::Model, XmlError> {
    match r {
        Ok(p) => Ok(p.model()),
        Err(e) => Err(e),
    }
}

} // verus!
