//! The one option that the preprocessor reads: where the catalogs lie.

use crate::error::InvalidDir;
use vstd::prelude::*;

verus! {

/// What the configuration says under `dir`.
#[derive(Debug, PartialEq, Eq)]
pub enum DirOption {
    /// The option is not set.
    Unset,
    /// The option is set to a string.
    Text(String),
    /// The option is set to something that is no string.
    Other,
}

/// The directory that is used where none is set, `fluent`.
pub open spec fn default_dir() -> Seq<char> {
    seq!['f', 'l', 'u', 'e', 'n', 't']
}

/// The directory that `option` asks for.
pub open spec fn chosen_dir(option: DirOption) -> Result<Seq<char>, InvalidDir> {
    match option {
        DirOption::Unset => Ok(default_dir()),
        DirOption::Text(dir) => Ok(dir@),
        DirOption::Other => Err(InvalidDir),
    }
}

/// The directory, below the book's root, that holds the catalogs.
pub fn catalog_dir(option: DirOption) -> (dir: Result<String, InvalidDir>)
    ensures
        match dir {
            Ok(dir) => chosen_dir(option) == Ok::<Seq<char>, InvalidDir>(dir@),
            Err(error) => chosen_dir(option) == Err::<Seq<char>, InvalidDir>(error),
        },
{
    match option {
        DirOption::Unset => {
            let dir = "fluent".to_owned();
            proof {
                reveal_strlit("fluent");
                assert(dir@ =~= default_dir());
            }
            Ok(dir)
        },
        DirOption::Text(dir) => Ok(dir),
        DirOption::Other => Err(InvalidDir),
    }
}

} // verus!
