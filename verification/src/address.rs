//! The address inside a tag: `catalog.message` or `catalog.message.attribute`.

use crate::error::AddressError;
use crate::text::{chars_of, split, split_between, string_of, trim_bounds, trimmed, views};
use vstd::prelude::*;

verus! {

/// What a tag points at.
#[derive(Debug, PartialEq, Eq)]
pub struct TagAddress {
    pub catalog: String,
    pub message: String,
    pub attribute: Option<String>,
}

/// A `TagAddress` as character sequences.
pub struct AddressModel {
    pub catalog: Seq<char>,
    pub message: Seq<char>,
    pub attribute: Option<Seq<char>>,
}

impl View for TagAddress {
    type V = AddressModel;

    open spec fn view(&self) -> AddressModel {
        AddressModel {
            catalog: self.catalog@,
            message: self.message@,
            attribute: match self.attribute {
                Some(name) => Some(name@),
                None => None,
            },
        }
    }
}

/// The address that `text` spells: `text` is trimmed and split at each `.`;
/// two or three components are an address if none of them is empty.
pub open spec fn parsed_address(text: Seq<char>) -> Result<AddressModel, AddressError> {
    let parts = split(trimmed(text), '.');
    if trimmed(text).len() == 0 {
        Err(AddressError::Empty)
    } else if parts.len() < 2 {
        Err(AddressError::TooFewComponents)
    } else if parts.len() > 3 {
        Err(AddressError::TooManyComponents)
    } else if parts[0].len() == 0 {
        Err(AddressError::EmptyCatalog)
    } else if parts[1].len() == 0 {
        Err(AddressError::EmptyMessage)
    } else if parts.len() == 2 {
        Ok(AddressModel { catalog: parts[0], message: parts[1], attribute: None })
    } else if parts[2].len() == 0 {
        Err(AddressError::EmptyAttribute)
    } else {
        Ok(AddressModel { catalog: parts[0], message: parts[1], attribute: Some(parts[2]) })
    }
}

/// Reads the address that the characters `text` spell.
pub fn parse_address(text: &[char]) -> (parsed: Result<TagAddress, AddressError>)
    ensures
        match parsed {
            Ok(address) => parsed_address(text@) == Ok::<AddressModel, AddressError>(address@),
            Err(error) => parsed_address(text@) == Err::<AddressModel, AddressError>(error),
        },
{
    let (lo, hi) = trim_bounds(text);
    if lo == hi {
        return Err(AddressError::Empty);
    }
    let parts = split_between(text, lo, hi, '.');
    let ghost pieces = split(trimmed(text@), '.');
    assert(pieces == views(parts@));
    assert(forall|i: int| 0 <= i < parts.len() ==> pieces[i] == (#[trigger] parts[i])@);
    let count = parts.len();
    if count < 2 {
        return Err(AddressError::TooFewComponents);
    }
    if count > 3 {
        return Err(AddressError::TooManyComponents);
    }
    if parts[0].len() == 0 {
        return Err(AddressError::EmptyCatalog);
    }
    if parts[1].len() == 0 {
        return Err(AddressError::EmptyMessage);
    }
    let catalog = string_of(parts[0].as_slice());
    let message = string_of(parts[1].as_slice());
    if count == 2 {
        return Ok(TagAddress { catalog, message, attribute: None });
    }
    if parts[2].len() == 0 {
        return Err(AddressError::EmptyAttribute);
    }
    let attribute = string_of(parts[2].as_slice());
    Ok(TagAddress { catalog, message, attribute: Some(attribute) })
}

impl TagAddress {
    /// Reads the address that `text` spells.
    pub fn parse(text: &str) -> (parsed: Result<TagAddress, AddressError>)
        ensures
            match parsed {
                Ok(address) => parsed_address(text@) == Ok::<AddressModel, AddressError>(address@),
                Err(error) => parsed_address(text@) == Err::<AddressModel, AddressError>(error),
            },
    {
        let chars = chars_of(text);
        parse_address(chars.as_slice())
    }
}

} // verus!
