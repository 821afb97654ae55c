//! The error taxonomy of the registry: every failure a registry operation
//! can report is a tagged value of these enums.

use vstd::prelude::*;

verus! {

/// A mandatory part of the metadata document that was missing or malformed.
#[derive(Clone, Copy, Debug, PartialEq, Eq, Structural)]
pub enum ParseFault {
    /// The blob is not a well-formed document.
    InvalidDocument,
    /// The document has no `collection` object.
    MissingCollection,
    /// The collection object has no string `title`.
    MissingCollectionTitle,
    /// The document has no `graphics` entry.
    MissingGraphics,
    /// The `graphics` entry is not a sequence.
    GraphicsNotArray,
    /// A graphic entry has no string `asset`.
    MissingGraphicAsset,
    /// A graphic entry has no string `title`.
    MissingGraphicTitle,
}

/// A failure of a registry operation.
#[derive(Clone, Copy, Debug, PartialEq, Eq, Structural)]
pub enum RegistryError {
    /// The caller is not permitted to mutate the registry.
    Unauthorized,
    /// The external metadata fetch failed.
    Retrieval,
    /// The metadata blob failed validation.
    Parse(ParseFault),
    /// The referenced collection or graphic does not exist.
    NotFound,
    /// The update proposal is identical to the stored state.
    NoChange,
}

/// The text that names a validation fault.
pub open spec fn spec_fault_message(f: ParseFault) -> Seq<char> {
    match f {
        ParseFault::InvalidDocument => "metadata blob is not a well-formed document"@,
        ParseFault::MissingCollection => "missing 'collection' field"@,
        ParseFault::MissingCollectionTitle => "missing required 'title' field in collection"@,
        ParseFault::MissingGraphics => "missing 'graphics' field"@,
        ParseFault::GraphicsNotArray => "'graphics' is not an array"@,
        ParseFault::MissingGraphicAsset => "missing required 'asset' field in graphic"@,
        ParseFault::MissingGraphicTitle => "missing required 'title' field in graphic"@,
    }
}

/// The text that names a registry error.
pub open spec fn spec_error_message(e: RegistryError) -> Seq<char> {
    match e {
        RegistryError::Unauthorized => "caller is not permitted to mutate the registry"@,
        RegistryError::Retrieval => "failed to retrieve metadata"@,
        RegistryError::Parse(f) => spec_fault_message(f),
        RegistryError::NotFound => "collection not registered"@,
        RegistryError::NoChange => "no differences detected"@,
    }
}

impl ParseFault {
    /// A short text naming the fault, for response envelopes.
    pub fn message(&self) -> (r: &'static str)
        ensures
            r@ == spec_fault_message(*self),
    {
        match self {
            ParseFault::InvalidDocument => "metadata blob is not a well-formed document",
            ParseFault::MissingCollection => "missing 'collection' field",
            ParseFault::MissingCollectionTitle => "missing required 'title' field in collection",
            ParseFault::MissingGraphics => "missing 'graphics' field",
            ParseFault::GraphicsNotArray => "'graphics' is not an array",
            ParseFault::MissingGraphicAsset => "missing required 'asset' field in graphic",
            ParseFault::MissingGraphicTitle => "missing required 'title' field in graphic",
        }
    }
}

impl RegistryError {
    /// A short text naming the error, for response envelopes.
    pub fn message(&self) -> (r: &'static str)
        ensures
            r@ == spec_error_message(*self),
    {
        match self {
            RegistryError::Unauthorized => "caller is not permitted to mutate the registry",
            RegistryError::Retrieval => "failed to retrieve metadata",
            RegistryError::Parse(f) => f.message(),
            RegistryError::NotFound => "collection not registered",
            RegistryError::NoChange => "no differences detected",
        }
    }
}

} // verus!
