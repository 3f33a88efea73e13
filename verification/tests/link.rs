use jterm3::link::open::{file_candidates, strip_source_location};
use jterm3::link::{LinkDetectionConfig, LinkDetector, LinkType};

#[test]
fn test_url_detection() {
    let detector = LinkDetector::new(LinkDetectionConfig::default());
    let line = "Visit https://example.com for more info";
    let links = detector.detect_links_in_line(line, 0);

    assert_eq!(links.len(), 1);
    assert_eq!(links[0].link_type, LinkType::Url);
    assert_eq!(links[0].text, "https://example.com");
}

#[test]
fn test_ip_detection() {
    let detector = LinkDetector::new(LinkDetectionConfig::default());
    let line = "Server at 192.168.1.1 is down";
    let links = detector.detect_links_in_line(line, 0);

    assert!(links.iter().any(|l| l.link_type == LinkType::IpAddress));
}

#[test]
fn test_file_path_detection() {
    let detector = LinkDetector::new(LinkDetectionConfig::default());
    let line = "Check /etc/hosts file";
    let links = detector.detect_links_in_line(line, 0);

    assert!(links.iter().any(|l| l.link_type == LinkType::FilePath));
}

#[test]
fn detects_relative_and_home_file_paths_without_reclassifying_urls() {
    let detector = LinkDetector::new(LinkDetectionConfig::default());
    let line = "at src/main.rs:42:7 and ~/notes/todo.md; see https://example.com/a/b";
    let links = detector.detect_links_in_line(line, 0);
    let files: Vec<&str> = links
        .iter()
        .filter(|link| link.link_type == LinkType::FilePath)
        .map(|link| link.text.as_str())
        .collect();

    assert_eq!(files, ["src/main.rs:42:7", "~/notes/todo.md"]);
    assert_eq!(
        links
            .iter()
            .filter(|link| link.link_type == LinkType::Url)
            .count(),
        1
    );
}

#[test]
fn source_locations_resolve_against_the_terminal_cwd() {
    let root = "/work/project";
    let candidates = file_candidates("src/main.rs:42:7", None, Some(root));
    assert_eq!(candidates, ["/work/project/src/main.rs:42:7", "/work/project/src/main.rs"]);
    assert_eq!(strip_source_location("notes:today").as_deref(), None);
    assert_eq!(strip_source_location("src/main.rs:42").as_deref(), Some("src/main.rs"));
}

#[test]
fn test_comment_slashes_are_not_file_paths() {
    let detector = LinkDetector::new(LinkDetectionConfig::default());
    let line = "// Selection rule:";
    let links = detector.detect_links_in_line(line, 0);

    assert!(!links.iter().any(|l| l.link_type == LinkType::FilePath));
}

#[test]
fn test_link_detection_config() {
    let config = LinkDetectionConfig {
        detect_urls: false,
        ..LinkDetectionConfig::default()
    };

    let detector = LinkDetector::new(config);
    let line = "Visit https://example.com for more info";
    let links = detector.detect_links_in_line(line, 0);

    assert!(!links.iter().any(|l| l.link_type == LinkType::Url));
}
