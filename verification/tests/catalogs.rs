use mdbook_fluent::address::TagAddress;
use mdbook_fluent::catalog::{catalog_identifier, Catalog, CatalogStore};
use mdbook_fluent::error::{BuildError, CatalogError, ResolveError};
use mdbook_fluent::preprocessor::{FluentPreprocessor, ResourceFile};

const SOURCE: &str = "greeting = Hello, world!\n    .formal = Good day.\nbare =\n    .hint = Hint\n";

fn address(catalog: &str, message: &str, attribute: Option<&str>) -> TagAddress {
    TagAddress {
        catalog: catalog.to_string(),
        message: message.to_string(),
        attribute: attribute.map(|name| name.to_string()),
    }
}

fn file(name: &str, source: &str) -> ResourceFile {
    ResourceFile { name: name.to_string(), source: source.to_string() }
}

#[test]
fn catalog_name_is_the_file_name_without_its_ending() {
    assert_eq!(catalog_identifier("ch01.ftl"), Some("ch01".to_string()));
    assert_eq!(catalog_identifier("a.b.ftl"), Some("a.b".to_string()));
    assert_eq!(catalog_identifier("x.ftl"), Some("x".to_string()));
    assert_eq!(catalog_identifier("..ftl"), Some(".".to_string()));
    assert_eq!(catalog_identifier("日本.ftl"), Some("日本".to_string()));
}

#[test]
fn other_files_hold_no_catalog() {
    assert_eq!(catalog_identifier(".ftl"), None);
    assert_eq!(catalog_identifier("ftl"), None);
    assert_eq!(catalog_identifier(""), None);
    assert_eq!(catalog_identifier("ch01.FTL"), None);
    assert_eq!(catalog_identifier("ch01.ftl.bak"), None);
    assert_eq!(catalog_identifier("ch01.md"), None);
    assert_eq!(catalog_identifier("ch01ftl"), None);
    assert_eq!(catalog_identifier("README"), None);
}

#[test]
fn catalog_name_agrees_with_std_paths() {
    for name in ["ch01.ftl", "a.b.ftl", ".ftl", "..ftl", "x.ftl", "ftl", "ch01.md", "a.ftl.bak"] {
        let path = std::path::Path::new(name);
        let expected = match path.extension() {
            Some(ending) if ending == "ftl" => {
                Some(path.file_stem().unwrap().to_str().unwrap().to_string())
            }
            _ => None,
        };
        assert_eq!(catalog_identifier(name), expected);
    }
}

#[test]
fn compile_refuses_malformed_text() {
    assert!(Catalog::compile("greeting = Hello".to_string()).is_ok());
    assert!(Catalog::compile("".to_string()).is_ok());
    assert_eq!(
        Catalog::compile("this is not fluent".to_string()).err(),
        Some(CatalogError::Malformed)
    );
    assert_eq!(
        Catalog::compile("a = 1\na = 2\n".to_string()).err(),
        Some(CatalogError::Malformed)
    );
}

#[test]
fn catalog_lookup_by_key_and_attribute() {
    let catalog = Catalog::compile(SOURCE.to_string()).unwrap();
    assert!(catalog.has_message("greeting"));
    assert!(catalog.has_message("bare"));
    assert!(!catalog.has_message("formal"));
    assert!(!catalog.has_message(""));
    assert_eq!(catalog.lookup("greeting", None), Ok("Hello, world!".to_string()));
    assert_eq!(catalog.lookup("greeting", Some("formal")), Ok("Good day.".to_string()));
    assert_eq!(catalog.lookup("bare", Some("hint")), Ok("Hint".to_string()));
    assert_eq!(catalog.lookup("bare", None), Err(ResolveError::MissingValue));
    assert_eq!(catalog.lookup("greeting", Some("hint")), Err(ResolveError::UnknownAttribute));
    assert_eq!(catalog.lookup("nope", None), Err(ResolveError::UnknownMessage));
    assert_eq!(catalog.lookup("nope", Some("formal")), Err(ResolveError::UnknownMessage));
}

#[test]
fn store_starts_empty() {
    let store = CatalogStore::new();
    assert!(!store.contains("ch01"));
    assert_eq!(
        store.resolve(&address("ch01", "greeting", None)),
        Err(ResolveError::UnknownCatalog)
    );
}

#[test]
fn store_resolves_through_the_named_catalog() {
    let mut store = CatalogStore::new();
    assert_eq!(store.register("ch01".to_string(), SOURCE.to_string()), Ok(()));
    assert_eq!(
        store.register("ch02".to_string(), "greeting = Guten Tag\n".to_string()),
        Ok(())
    );
    assert!(store.contains("ch01"));
    assert!(store.contains("ch02"));
    assert!(!store.contains("ch03"));
    assert_eq!(
        store.resolve(&address("ch01", "greeting", None)),
        Ok("Hello, world!".to_string())
    );
    assert_eq!(store.resolve(&address("ch02", "greeting", None)), Ok("Guten Tag".to_string()));
    assert_eq!(
        store.resolve(&address("ch01", "greeting", Some("formal"))),
        Ok("Good day.".to_string())
    );
    assert_eq!(
        store.resolve(&address("ch02", "greeting", Some("formal"))),
        Err(ResolveError::UnknownAttribute)
    );
    assert_eq!(
        store.resolve(&address("ch03", "greeting", None)),
        Err(ResolveError::UnknownCatalog)
    );
    assert_eq!(store.resolve(&address("ch01", "nope", None)), Err(ResolveError::UnknownMessage));
    assert_eq!(store.resolve(&address("ch01", "bare", None)), Err(ResolveError::MissingValue));
}

#[test]
fn a_taken_name_is_refused_and_the_first_catalog_stays() {
    let mut store = CatalogStore::new();
    assert_eq!(store.register("ch01".to_string(), "greeting = First\n".to_string()), Ok(()));
    assert_eq!(
        store.register("ch01".to_string(), "greeting = Second\n".to_string()),
        Err(CatalogError::Duplicate)
    );
    assert_eq!(store.resolve(&address("ch01", "greeting", None)), Ok("First".to_string()));
    let other = Catalog::compile("greeting = Third\n".to_string()).unwrap();
    assert_eq!(store.insert("ch01".to_string(), other), Err(CatalogError::Duplicate));
    assert_eq!(store.resolve(&address("ch01", "greeting", None)), Ok("First".to_string()));
}

#[test]
fn malformed_text_is_refused_before_the_name_is_looked_at() {
    let mut store = CatalogStore::new();
    assert_eq!(store.register("ch01".to_string(), "greeting = First\n".to_string()), Ok(()));
    assert_eq!(
        store.register("ch01".to_string(), "not fluent at all".to_string()),
        Err(CatalogError::Malformed)
    );
    assert_eq!(
        store.register("ch02".to_string(), "not fluent at all".to_string()),
        Err(CatalogError::Malformed)
    );
    assert!(!store.contains("ch02"));
}

#[test]
fn add_file_goes_by_the_file_name() {
    let mut store = CatalogStore::new();
    assert_eq!(store.add_file("ch01.ftl", "greeting = Hi\n".to_string()), Ok(true));
    assert_eq!(store.add_file("notes.txt", "greeting = Hi\n".to_string()), Ok(false));
    assert_eq!(store.add_file("broken.md", "not fluent at all".to_string()), Ok(false));
    assert_eq!(
        store.add_file("broken.ftl", "not fluent at all".to_string()),
        Err(CatalogError::Malformed)
    );
    assert_eq!(
        store.add_file("ch01.ftl", "greeting = Ho\n".to_string()),
        Err(CatalogError::Duplicate)
    );
    assert!(store.contains("ch01"));
    assert!(!store.contains("notes"));
    assert!(!store.contains("broken"));
    assert_eq!(store.resolve(&address("ch01", "greeting", None)), Ok("Hi".to_string()));
}

#[test]
fn store_is_built_from_the_resource_files() {
    let files = vec![
        file("ch01.ftl", "greeting = Hello, world!\n"),
        file("README.md", "# not a resource"),
        file("ch02.ftl", "title = Two\n"),
    ];
    let store = FluentPreprocessor::build_fluent_dic(files).unwrap();
    assert!(store.contains("ch01"));
    assert!(store.contains("ch02"));
    assert!(!store.contains("README"));
    assert_eq!(store.resolve(&address("ch02", "title", None)), Ok("Two".to_string()));
}

#[test]
fn build_stops_at_the_first_refused_file() {
    let files = vec![
        file("ch01.ftl", "greeting = Hello\n"),
        file("skip.txt", "not fluent at all"),
        file("ch02.ftl", "not fluent at all"),
        file("ch01.ftl", "greeting = Again\n"),
    ];
    assert_eq!(
        FluentPreprocessor::build_fluent_dic(files).err(),
        Some(BuildError { file: 2, error: CatalogError::Malformed })
    );
    let files = vec![
        file("ch01.ftl", "greeting = Hello\n"),
        file("other.ftl", "title = Other\n"),
        file("ch01.ftl", "greeting = Again\n"),
    ];
    assert_eq!(
        FluentPreprocessor::build_fluent_dic(files).err(),
        Some(BuildError { file: 2, error: CatalogError::Duplicate })
    );
    assert!(FluentPreprocessor::build_fluent_dic(Vec::new()).is_ok());
}
