//! Catalogs and the store that holds them by name.
//!
//! A catalog is one compiled resource text. The store maps catalog names to
//! catalogs; a name is taken once, and adding a second catalog under a taken
//! name is refused. A catalog whose text the formatter may fail on is kept,
//! and says so when one of its messages is asked for that is not plain text.

use crate::address::{AddressModel, TagAddress};
use crate::bundle::{
    bundle_contents, bundle_source, compile, format_attribute, format_value, ftl_catalog,
    has_message,
};
use crate::error::{CatalogError, ResolveError};
use crate::resource::{
    escapes_parse_safely, formats_safely, is_plain_message, lemma_neutral_parses_safely,
    message_formats, neutral, neutralise, parses_safely, shapes_format_safely,
};
use crate::text::{chars_of, string_of};
use fluent::bundle::FluentBundle;
use fluent::FluentResource;
use intl_memoizer::IntlLangMemoizer;
use vstd::prelude::*;

verus! {

/// A message as the library sees it: the text of its value, if it has one, the
/// texts of its attributes by name, and whether it can be formatted at all.
pub struct MessageModel {
    pub value: Option<Seq<char>>,
    pub attributes: Map<Seq<char>, Seq<char>>,
    pub formats: bool,
}

/// A catalog as the library sees it: its messages by key.
pub type CatalogModel = Map<Seq<char>, MessageModel>;

/// A store as the library sees it: its catalogs by name.
pub type StoreModel = Map<Seq<char>, CatalogModel>;

/// The catalog model that stands for what a bundle holds, where `source` is
/// the text that it was compiled from.
pub open spec fn catalog_model(
    contents: Map<Seq<char>, (Option<Seq<char>>, Map<Seq<char>, Seq<char>>)>,
    source: Seq<char>,
) -> CatalogModel {
    Map::new(
        |key: Seq<char>| contents.dom().contains(key),
        |key: Seq<char>|
            MessageModel {
                value: contents[key].0,
                attributes: contents[key].1,
                formats: message_formats(source, key),
            },
    )
}

/// The catalog that the resource text `source` compiles to. A text that
/// `fluent` rejects is malformed, and so is one with a risky escape whose
/// neutral form `fluent` rejects: it holds a faulty escape in a string
/// literal, or is faulty elsewhere. The messages of any other text are there;
/// a message can be formatted where the text holds no shape that the formatter
/// may fail on, or where the message is plain text.
pub open spec fn compiled(source: Seq<char>) -> Result<CatalogModel, CatalogError> {
    if !parses_safely(source) && ftl_catalog(neutral(source)) is None {
        Err(CatalogError::Malformed)
    } else {
        match ftl_catalog(source) {
            Some(contents) => Ok(catalog_model(contents, source)),
            None => Err(CatalogError::Malformed),
        }
    }
}

/// The text that `message`, or its attribute `attribute`, stands for in
/// `catalog`.
pub open spec fn lookup(
    catalog: CatalogModel,
    message: Seq<char>,
    attribute: Option<Seq<char>>,
) -> Result<Seq<char>, ResolveError> {
    if !catalog.dom().contains(message) {
        Err(ResolveError::UnknownMessage)
    } else if !catalog[message].formats {
        Err(ResolveError::Unsupported)
    } else {
        match attribute {
            None => match catalog[message].value {
                Some(text) => Ok(text),
                None => Err(ResolveError::MissingValue),
            },
            Some(name) => if catalog[message].attributes.dom().contains(name) {
                Ok(catalog[message].attributes[name])
            } else {
                Err(ResolveError::UnknownAttribute)
            },
        }
    }
}

/// The text that `address` stands for in `store`.
pub open spec fn resolution(store: StoreModel, address: AddressModel) -> Result<
    Seq<char>,
    ResolveError,
> {
    if !store.dom().contains(address.catalog) {
        Err(ResolveError::UnknownCatalog)
    } else {
        lookup(store[address.catalog], address.message, address.attribute)
    }
}

/// `store` once the catalog compiled from `source` has been added under
/// `name`: a text that does not compile is refused first, then a name that is
/// taken.
pub open spec fn registered(store: StoreModel, name: Seq<char>, source: Seq<char>) -> Result<
    StoreModel,
    CatalogError,
> {
    match compiled(source) {
        Err(error) => Err(error),
        Ok(catalog) => if store.dom().contains(name) {
            Err(CatalogError::Duplicate)
        } else {
            Ok(store.insert(name, catalog))
        },
    }
}

/// `store` once the file called `file_name`, which contains `source`, has been
/// added: a file that is no resource file changes nothing.
pub open spec fn with_file(store: StoreModel, file_name: Seq<char>, source: Seq<char>) -> Result<
    StoreModel,
    CatalogError,
> {
    match catalog_name(file_name) {
        None => Ok(store),
        Some(name) => registered(store, name, source),
    }
}

/// One compiled resource text.
pub struct Catalog {
    bundle: FluentBundle<FluentResource, IntlLangMemoizer>,
    text: Vec<char>,
    formats: bool,
}

impl View for Catalog {
    type V = CatalogModel;

    closed spec fn view(&self) -> CatalogModel {
        catalog_model(bundle_contents(self.bundle), bundle_source(self.bundle))
    }
}

impl Catalog {
    /// `text` is the text that the catalog was compiled from, and `formats`
    /// says whether all of it can be formatted.
    #[verifier::type_invariant]
    spec fn keeps_its_text(self) -> bool {
        self.text@ == bundle_source(self.bundle) && self.formats == formats_safely(self.text@)
    }

    /// Compiles a resource text. A text with a risky escape is handed to
    /// `fluent` in its neutral form first, and as it is only where that form
    /// compiles.
    pub fn compile(source: String) -> (made: Result<Catalog, CatalogError>)
        ensures
            match made {
                Ok(catalog) => compiled(source@) == Ok::<CatalogModel, CatalogError>(catalog@),
                Err(error) => compiled(source@) == Err::<CatalogModel, CatalogError>(error),
            },
    {
        let text = chars_of(source.as_str());
        if !escapes_parse_safely(text.as_slice()) {
            let plain = string_of(neutralise(text.as_slice()).as_slice());
            proof {
                lemma_neutral_parses_safely(source@);
            }
            if compile(plain).is_none() {
                return Err(CatalogError::Malformed);
            }
        }
        let formats = shapes_format_safely(text.as_slice());
        match compile(source) {
            Some(bundle) => {
                let catalog = Catalog { bundle, text, formats };
                assert(catalog@ =~= catalog_model(ftl_catalog(source@)->Some_0, source@));
                Ok(catalog)
            },
            None => Err(CatalogError::Malformed),
        }
    }

    /// Whether the catalog holds a message under `key`.
    pub fn has_message(&self, key: &str) -> (found: bool)
        ensures
            found == self@.dom().contains(key@),
    {
        has_message(&self.bundle, key)
    }

    /// The text of `message`, or of its attribute `attribute` where one is
    /// named.
    pub fn lookup(&self, message: &str, attribute: Option<&str>) -> (found: Result<
        String,
        ResolveError,
    >)
        ensures
            match found {
                Ok(text) => lookup(
                    self@,
                    message@,
                    match attribute {
                        Some(name) => Some(name@),
                        None => None,
                    },
                ) == Ok::<Seq<char>, ResolveError>(text@),
                Err(error) => lookup(
                    self@,
                    message@,
                    match attribute {
                        Some(name) => Some(name@),
                        None => None,
                    },
                ) == Err::<Seq<char>, ResolveError>(error),
            },
    {
        proof {
            use_type_invariant(self);
        }
        if !has_message(&self.bundle, message) {
            return Err(ResolveError::UnknownMessage);
        }
        if !self.formats {
            let key = chars_of(message);
            if !is_plain_message(self.text.as_slice(), key.as_slice()) {
                return Err(ResolveError::Unsupported);
            }
        }
        match attribute {
            None => match format_value(&self.bundle, message) {
                Some(text) => Ok(text),
                None => Err(ResolveError::MissingValue),
            },
            Some(name) => match format_attribute(&self.bundle, message, name) {
                Some(text) => Ok(text),
                None => Err(ResolveError::UnknownAttribute),
            },
        }
    }
}

/// The catalogs of one run, by name.
pub struct CatalogStore {
    catalogs: vstd::hash_map::StringHashMap<Catalog>,
}

impl View for CatalogStore {
    type V = StoreModel;

    closed spec fn view(&self) -> StoreModel {
        self.catalogs@.map_values(|catalog: Catalog| catalog@)
    }
}

impl CatalogStore {
    /// A store without catalogs.
    pub fn new() -> (store: CatalogStore)
        ensures
            store@ == StoreModel::empty(),
    {
        let store = CatalogStore { catalogs: vstd::hash_map::StringHashMap::new() };
        assert(store@ =~= StoreModel::empty());
        store
    }

    /// Whether the store holds a catalog called `name`.
    pub fn contains(&self, name: &str) -> (found: bool)
        ensures
            found == self@.dom().contains(name@),
    {
        self.catalogs.contains_key(name)
    }

    /// Adds `catalog` under `name`. A taken name is refused, and the store
    /// stays as it was.
    pub fn insert(&mut self, name: String, catalog: Catalog) -> (added: Result<(), CatalogError>)
        ensures
            match added {
                Ok(()) => !old(self)@.dom().contains(name@) && final(self)@ == old(self)@.insert(
                    name@,
                    catalog@,
                ),
                Err(error) => error == CatalogError::Duplicate && old(self)@.dom().contains(name@)
                    && final(self)@ == old(self)@,
            },
    {
        if self.catalogs.contains_key(name.as_str()) {
            return Err(CatalogError::Duplicate);
        }
        let ghost before = self@;
        let ghost key = name@;
        let ghost model = catalog@;
        self.catalogs.insert(name, catalog);
        assert(self@ =~= before.insert(key, model));
        Ok(())
    }

    /// Compiles `source` and adds the catalog under `name`. A resource text
    /// that does not compile is refused before the name is looked at.
    pub fn register(&mut self, name: String, source: String) -> (added: Result<(), CatalogError>)
        ensures
            match added {
                Ok(()) => registered(old(self)@, name@, source@) == Ok::<StoreModel, CatalogError>(
                    final(self)@,
                ),
                Err(error) => registered(old(self)@, name@, source@) == Err::<
                    StoreModel,
                    CatalogError,
                >(error) && final(self)@ == old(self)@,
            },
    {
        match Catalog::compile(source) {
            Err(error) => Err(error),
            Ok(catalog) => self.insert(name, catalog),
        }
    }

    /// Adds the catalog that the file called `file_name` holds, where `source`
    /// is what the file contains. Says whether the file is a resource file; one
    /// that is not leaves the store as it was, and so does one that is refused.
    pub fn add_file(&mut self, file_name: &str, source: String) -> (added: Result<
        bool,
        CatalogError,
    >)
        ensures
            match added {
                Ok(is_resource) => is_resource == (catalog_name(file_name@) is Some) && with_file(
                    old(self)@,
                    file_name@,
                    source@,
                ) == Ok::<StoreModel, CatalogError>(final(self)@),
                Err(error) => with_file(old(self)@, file_name@, source@) == Err::<
                    StoreModel,
                    CatalogError,
                >(error) && final(self)@ == old(self)@,
            },
    {
        match catalog_identifier(file_name) {
            None => Ok(false),
            Some(name) => match self.register(name, source) {
                Ok(()) => Ok(true),
                Err(error) => Err(error),
            },
        }
    }

    /// The text that `address` stands for.
    pub fn resolve(&self, address: &TagAddress) -> (found: Result<String, ResolveError>)
        ensures
            match found {
                Ok(text) => resolution(self@, address@) == Ok::<Seq<char>, ResolveError>(text@),
                Err(error) => resolution(self@, address@) == Err::<Seq<char>, ResolveError>(error),
            },
    {
        match self.catalogs.get(address.catalog.as_str()) {
            None => Err(ResolveError::UnknownCatalog),
            Some(catalog) => {
                let attribute = match &address.attribute {
                    Some(name) => Some(name.as_str()),
                    None => None,
                };
                catalog.lookup(address.message.as_str(), attribute)
            },
        }
    }
}

/// The ending that marks a file as a resource file.
pub open spec fn resource_ending() -> Seq<char> {
    seq!['.', 'f', 't', 'l']
}

/// The name of the catalog that the file called `file_name` holds: the file
/// name without its `.ftl` ending. A file whose name does not end in `.ftl`, or
/// is nothing but the ending, holds no catalog.
pub open spec fn catalog_name(file_name: Seq<char>) -> Option<Seq<char>> {
    if file_name.len() > 4 && file_name.subrange(file_name.len() - 4, file_name.len() as int)
        == resource_ending() {
        Some(file_name.subrange(0, file_name.len() - 4))
    } else {
        None
    }
}

/// The name of the catalog that the file called `file_name` holds, if it is a
/// resource file.
pub fn catalog_identifier(file_name: &str) -> (name: Option<String>)
    ensures
        match name {
            Some(name) => catalog_name(file_name@) == Some(name@),
            None => catalog_name(file_name@) is None,
        },
{
    let chars = chars_of(file_name);
    let len = chars.len();
    if len <= 4 {
        return None;
    }
    let ghost ending = chars@.subrange(len - 4, len as int);
    assert(ending[0] == chars@[len - 4] && ending[1] == chars@[len - 3] && ending[2] == chars@[len
        - 2] && ending[3] == chars@[len - 1]);
    if chars[len - 4] == '.' && chars[len - 3] == 'f' && chars[len - 2] == 't' && chars[len - 1]
        == 'l' {
        assert(ending =~= resource_ending());
        let mut stem = chars;
        stem.truncate(len - 4);
        Some(string_of(stem.as_slice()))
    } else {
        None
    }
}

} // verus!
