//! What can go wrong, by kind.

use vstd::prelude::*;

verus! {

/// Why the text between a tag's markers is no address.
#[derive(Clone, Copy, Debug, PartialEq, Eq, Structural)]
pub enum AddressError {
    /// Nothing but whitespace stands between the markers.
    Empty,
    /// One component only: a catalog and a message are both needed.
    TooFewComponents,
    /// More than three components.
    TooManyComponents,
    /// The catalog component is empty.
    EmptyCatalog,
    /// The message component is empty.
    EmptyMessage,
    /// The attribute component is empty.
    EmptyAttribute,
}

/// Why an address names nothing in the store.
#[derive(Clone, Copy, Debug, PartialEq, Eq, Structural)]
pub enum ResolveError {
    /// The store holds no catalog of that name.
    UnknownCatalog,
    /// The catalog holds no message of that key.
    UnknownMessage,
    /// The message has no value of its own, and no attribute was asked for.
    MissingValue,
    /// The message has no attribute of that name.
    UnknownAttribute,
    /// The catalog holds a shape on which formatting may fail, and the message
    /// is not plain text.
    Unsupported,
}

/// Why one tag could not be replaced.
#[derive(Clone, Copy, Debug, PartialEq, Eq, Structural)]
pub enum TagError {
    /// No closing marker follows the opening marker.
    Unterminated,
    /// The text between the markers is no address.
    Address(AddressError),
    /// The address names nothing in the store.
    Resolve(ResolveError),
}

/// A failed rewrite: the tag whose opening marker begins at `at` is at fault.
#[derive(Clone, Copy, Debug, PartialEq, Eq, Structural)]
pub struct RewriteError {
    pub at: usize,
    pub error: TagError,
}

/// A failed run: the chapter at index `chapter` could not be rewritten.
#[derive(Clone, Copy, Debug, PartialEq, Eq, Structural)]
pub struct RunError {
    pub chapter: usize,
    pub error: RewriteError,
}

/// Why a catalog could not be added to the store.
#[derive(Clone, Copy, Debug, PartialEq, Eq, Structural)]
pub enum CatalogError {
    /// The resource text is not well-formed.
    Malformed,
    /// The store already holds a catalog of that name.
    Duplicate,
}

/// A failed build of the store: the file at index `file` was refused.
#[derive(Clone, Copy, Debug, PartialEq, Eq, Structural)]
pub struct BuildError {
    pub file: usize,
    pub error: CatalogError,
}

/// The catalog directory option is set to something that is no string.
#[derive(Clone, Copy, Debug, PartialEq, Eq, Structural)]
pub struct InvalidDir;

/// The text is no version number.
#[derive(Clone, Copy, Debug, PartialEq, Eq, Structural)]
pub struct InvalidVersion;

impl AddressError {
    /// What `describe` says of each kind.
    pub open spec fn description(self) -> Seq<char> {
        match self {
            AddressError::Empty => "the tag is empty"@,
            AddressError::TooFewComponents => "the tag names no message: `catalog.message` is needed"@,
            AddressError::TooManyComponents => "the tag has more than three components"@,
            AddressError::EmptyCatalog => "the catalog component is empty"@,
            AddressError::EmptyMessage => "the message component is empty"@,
            AddressError::EmptyAttribute => "the attribute component is empty"@,
        }
    }

    /// A sentence for the reader of a failed build.
    pub fn describe(&self) -> (text: &'static str)
        ensures
            text@ == self.description(),
    {
        match self {
            AddressError::Empty => "the tag is empty",
            AddressError::TooFewComponents => "the tag names no message: `catalog.message` is needed",
            AddressError::TooManyComponents => "the tag has more than three components",
            AddressError::EmptyCatalog => "the catalog component is empty",
            AddressError::EmptyMessage => "the message component is empty",
            AddressError::EmptyAttribute => "the attribute component is empty",
        }
    }
}

impl ResolveError {
    /// What `describe` says of each kind.
    pub open spec fn description(self) -> Seq<char> {
        match self {
            ResolveError::UnknownCatalog => "no catalog of that name"@,
            ResolveError::UnknownMessage => "the catalog has no message of that key"@,
            ResolveError::MissingValue => "the message has no value of its own"@,
            ResolveError::UnknownAttribute => "the message has no attribute of that name"@,
            ResolveError::Unsupported => "the catalog holds a placeable inside a placeable, a literal selector or an overlong number, and only its messages of plain text are formatted"@,
        }
    }

    /// A sentence for the reader of a failed build.
    pub fn describe(&self) -> (text: &'static str)
        ensures
            text@ == self.description(),
    {
        match self {
            ResolveError::UnknownCatalog => "no catalog of that name",
            ResolveError::UnknownMessage => "the catalog has no message of that key",
            ResolveError::MissingValue => "the message has no value of its own",
            ResolveError::UnknownAttribute => "the message has no attribute of that name",
            ResolveError::Unsupported => "the catalog holds a placeable inside a placeable, a literal selector or an overlong number, and only its messages of plain text are formatted",
        }
    }
}

impl TagError {
    /// What `describe` says of each kind.
    pub open spec fn description(self) -> Seq<char> {
        match self {
            TagError::Unterminated => "the tag is never closed by `}}`"@,
            TagError::Address(error) => error.description(),
            TagError::Resolve(error) => error.description(),
        }
    }

    /// A sentence for the reader of a failed build.
    pub fn describe(&self) -> (text: &'static str)
        ensures
            text@ == self.description(),
    {
        match self {
            TagError::Unterminated => "the tag is never closed by `}}`",
            TagError::Address(error) => error.describe(),
            TagError::Resolve(error) => error.describe(),
        }
    }
}

impl CatalogError {
    /// What `describe` says of each kind.
    pub open spec fn description(self) -> Seq<char> {
        match self {
            CatalogError::Malformed => "the resource file is not well-formed"@,
            CatalogError::Duplicate => "another resource file has the same catalog name"@,
        }
    }

    /// A sentence for the reader of a failed build.
    pub fn describe(&self) -> (text: &'static str)
        ensures
            text@ == self.description(),
    {
        match self {
            CatalogError::Malformed => "the resource file is not well-formed",
            CatalogError::Duplicate => "another resource file has the same catalog name",
        }
    }
}

} // verus!
