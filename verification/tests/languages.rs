use rocco::{Error, Language, LanguageTable};

#[test]
fn language_keeps_its_name_and_delimiter() {
    let rust = Language::new("Rust".to_string(), "//".to_string()).unwrap();
    assert_eq!(rust.name(), "Rust");
    assert_eq!(rust.comment(), "//");
}

#[test]
fn language_without_delimiter_is_refused() {
    let result = Language::new("Text".to_string(), String::new());
    assert_eq!(result.err(), Some(Error::LangMapInitFailed));
}

#[test]
fn table_finds_what_was_put_in() {
    let mut table = LanguageTable::new();
    assert!(table.get("rs").is_none());
    let before = table.insert("rs".to_string(), Language::new("Rust".to_string(), "//".to_string()).unwrap());
    assert!(before.is_none());
    table.insert("py".to_string(), Language::new("Python".to_string(), "#".to_string()).unwrap());
    assert_eq!(table.get("rs").unwrap().name(), "Rust");
    assert_eq!(table.get("py").unwrap().comment(), "#");
    assert!(table.get("r").is_none());
    assert!(table.get("rss").is_none());
    assert!(table.get("").is_none());
}

#[test]
fn table_replaces_the_language_under_an_extension() {
    let mut table = LanguageTable::new();
    table.insert("h".to_string(), Language::new("C".to_string(), "//".to_string()).unwrap());
    table.insert("rs".to_string(), Language::new("Rust".to_string(), "//".to_string()).unwrap());
    let before = table.insert("h".to_string(), Language::new("Haskell".to_string(), "--".to_string()).unwrap());
    assert_eq!(before.unwrap().name(), "C");
    assert_eq!(table.get("h").unwrap().name(), "Haskell");
    assert_eq!(table.get("h").unwrap().comment(), "--");
    assert_eq!(table.get("rs").unwrap().name(), "Rust");
}
