use jterm3::color::{color_256, resolve_bg, PaletteColor};
use jterm3::link::open::{file_candidates, link_target, strip_source_location, LinkTarget};
use jterm3::link::{Hyperlink, LinkDetectionConfig, LinkDetector, LinkType};
use jterm3::paths::{are_same_path, display_name};
use jterm3::search_replace::{ReplaceOptions, SearchAndReplaceEngine, SearchConfig};
use jterm3::terminal::{Color, TerminalState};

#[test]
fn a_hyperlink_is_written_and_read() {
    let link = Hyperlink {
        url: "https://example.com".to_string(),
        text: "site".to_string(),
        id: None,
    };
    let written = link.to_ansi_string();
    assert_eq!(written, "\x1b]8;;https://example.com\x1b\\site\x1b]8;;\x1b\\");
    let read = Hyperlink::from_ansi_string(&written).unwrap();
    assert_eq!(read.url, ";https://example.com");
    assert_eq!(read.text, "site\x1b]8;;");
    assert_eq!(read.id, None);
    assert!(Hyperlink::from_ansi_string("plain").is_none());
}

#[test]
fn links_cover_their_text() {
    let detector = LinkDetector::new(LinkDetectionConfig::default());
    let line = "go to https://example.com/x now";
    let links = detector.detect_links_in_line(line, 7);
    assert_eq!((links[0].line, links[0].col_start, links[0].col_end), (7, 6, 27));
    assert_eq!(&line[links[0].col_start..links[0].col_end], links[0].text);
    assert!(detector.detect_links_in_line("nothing here", 0).is_empty());
}

#[test]
fn links_are_found_across_wrapped_rows() {
    let mut terminal = TerminalState::new(16, 4);
    terminal.process_input(b"see https://example.com/long ok");
    let cells = terminal.get_visible_cells();
    let wrapped = terminal.get_visible_row_wrapped();
    let detector = LinkDetector::new(LinkDetectionConfig::default());
    let links = detector.detect_links_in_visible_cells_with_wrapping(&cells, &wrapped);
    let urls: Vec<_> = links.iter().filter(|l| l.link_type == LinkType::Url).collect();
    assert_eq!(urls.len(), 2);
    assert!(urls.iter().all(|l| l.text == "https://example.com/long"));
    assert_eq!((urls[0].line, urls[1].line), (0, 1));
    assert!(!detector.detect_all_links(&terminal.grid).is_empty());
}

#[test]
fn where_a_link_leads() {
    let detector = LinkDetector::new(LinkDetectionConfig::default());
    let link = &detector.detect_links_in_line("at https://example.com", 0)[0];
    assert_eq!(link_target(link), LinkTarget::Url("https://example.com".to_string()));
    let link = &detector.detect_links_in_line("at 10.0.0.1 now", 0)[0];
    assert_eq!(link_target(link), LinkTarget::Url("http://10.0.0.1".to_string()));
}

#[test]
fn home_and_absolute_files() {
    assert_eq!(file_candidates("~/a.md", Some("/home/u"), Some("/w")), ["/home/u/a.md"]);
    assert_eq!(file_candidates("/etc/hosts", Some("/home/u"), Some("/w")), ["/etc/hosts"]);
    assert_eq!(file_candidates("a/b.rs", None, None), ["a/b.rs"]);
    assert_eq!(strip_source_location("x.rs:1:2").as_deref(), Some("x.rs"));
    assert_eq!(strip_source_location("x.rs"), None);
}

#[test]
fn paths_and_their_names() {
    assert!(are_same_path("/a/b/", "/a/b"));
    assert!(are_same_path("/a/./b", "/a/b"));
    assert!(!are_same_path("/a/b", "/a/c"));
    assert_eq!(display_name("/home/u/notes"), "notes");
    assert_eq!(display_name("/"), "/");
}

#[test]
fn patterns_may_be_regular_expressions() {
    let config = SearchConfig { use_regex: true, ..SearchConfig::default() };
    let options = ReplaceOptions { replace_all: true, ..ReplaceOptions::default() };
    let replace = |text: &str, pattern: &str, with: &str| {
        SearchAndReplaceEngine::search_and_replace(text, pattern, with, &config, &options)
    };
    assert_eq!(replace("a1b22c", r"\d+", "#").unwrap(), ("a#b#c".to_string(), 2));
    assert_eq!(replace("abc", r"\d+", "#").unwrap(), ("abc".to_string(), 0));
    assert!(replace("abc", "(", "#").is_err());
}

#[test]
fn special_characters_stand_for_themselves() {
    let options = ReplaceOptions { replace_all: true, ..ReplaceOptions::default() };
    let blind = SearchConfig { case_sensitive: false, ..SearchConfig::default() };
    for config in [SearchConfig::default(), blind] {
        let (text, count) = SearchAndReplaceEngine::search_and_replace(
            "1+1 = 2",
            "1+1",
            "$0",
            &config,
            &options,
        )
        .unwrap();
        assert_eq!((text.as_str(), count), ("$0 = 2", 1));
    }
    let (text, count) = SearchAndReplaceEngine::search_and_replace(
        "aab",
        "a",
        "ba",
        &SearchConfig::default(),
        &options,
    )
    .unwrap();
    assert_eq!((text.as_str(), count), ("babab", 2));
}

#[test]
fn matches_are_shown_with_their_lines() {
    let shown = SearchAndReplaceEngine::get_match_context("one\ntwo\nthree\nfour", "three", 1);
    assert_eq!(shown, ["    2: two", "→   3: three", "    4: four", ""]);
}

#[test]
fn the_colour_cube() {
    assert_eq!(color_256(9), PaletteColor::Ansi(9));
    assert_eq!(color_256(16), PaletteColor::Rgb(0, 0, 0));
    assert_eq!(color_256(196), PaletteColor::Rgb(255, 0, 0));
    assert_eq!(color_256(255), PaletteColor::Rgb(238, 238, 238));
    assert_eq!(resolve_bg(Color::Default), PaletteColor::Background);
    assert_eq!(resolve_bg(Color::Rgb(1, 2, 3)), PaletteColor::Rgb(1, 2, 3));
}
