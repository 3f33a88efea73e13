use jterm3::search_replace::{ReplaceOptions, SearchAndReplaceEngine, SearchConfig};

#[test]
fn test_literal_replace() {
    let config = SearchConfig::default();
    let options = ReplaceOptions::default();

    let (result, count) = SearchAndReplaceEngine::search_and_replace(
        "hello world hello",
        "hello",
        "hi",
        &config,
        &options,
    )
    .unwrap();

    assert_eq!(count, 1);
    assert_eq!(result, "hi world hello");
}

#[test]
fn test_replace_all() {
    let config = SearchConfig::default();
    let mut options = ReplaceOptions::default();
    options.replace_all = true;

    let (result, count) = SearchAndReplaceEngine::search_and_replace(
        "hello world hello",
        "hello",
        "hi",
        &config,
        &options,
    )
    .unwrap();

    assert_eq!(count, 2);
    assert_eq!(result, "hi world hi");
}

#[test]
fn test_literal_replace_case_insensitive_unicode() {
    let mut config = SearchConfig::default();
    config.case_sensitive = false;
    let options = ReplaceOptions::default();

    let (result, count) =
        SearchAndReplaceEngine::search_and_replace("İB", "b", "X", &config, &options).unwrap();

    assert_eq!(count, 1);
    assert_eq!(result, "İX");
}

#[test]
fn a_literal_pattern_means_itself() {
    let mut config = SearchConfig::default();
    config.case_sensitive = false;
    let options = ReplaceOptions::default();
    let pattern = "\\.+*?()|[]{}^$#&-~x";
    let text = format!("a{}b", pattern.to_uppercase());
    let (result, count) =
        SearchAndReplaceEngine::search_and_replace(&text, pattern, "!", &config, &options).unwrap();
    assert_eq!((result.as_str(), count), ("a!b", 1));
    let (result, count) =
        SearchAndReplaceEngine::search_and_replace("axb", "X.", "!", &config, &options).unwrap();
    assert_eq!((result.as_str(), count), ("axb", 0));
}
