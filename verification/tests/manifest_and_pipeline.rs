use milliblog::manifest::{sort_entries, ManifestEntry};
use milliblog::pipeline::{find_slug_collision, md_stem, process_post, render_index};
use milliblog::BuildError;

fn entry(title: &str, slug: &str, date_display: &str, date_key: &str) -> ManifestEntry {
    ManifestEntry {
        title: title.to_string(),
        slug: slug.to_string(),
        date_display: date_display.to_string(),
        date_key: date_key.to_string(),
    }
}

#[test]
fn sort_descending_by_date_key() {
    let entries = vec![
        entry("a", "a", "01/01", "20240101"),
        entry("b", "b", "03/01", "20240301"),
        entry("c", "c", "02/01", "20240201"),
    ];
    let sorted = sort_entries(entries);
    let keys: Vec<&str> = sorted.iter().map(|e| e.date_key.as_str()).collect();
    assert_eq!(keys, vec!["20240301", "20240201", "20240101"]);
}

#[test]
fn sort_is_stable_on_equal_keys() {
    let entries = vec![
        entry("first", "first", "02/01", "20240201"),
        entry("older", "older", "01/01", "20240101"),
        entry("second", "second", "02/01", "20240201"),
        entry("third", "third", "02/01", "20240201"),
    ];
    let sorted = sort_entries(entries);
    let titles: Vec<&str> = sorted.iter().map(|e| e.title.as_str()).collect();
    assert_eq!(titles, vec!["first", "second", "third", "older"]);
}

#[test]
fn md_stem_cases() {
    assert_eq!(md_stem("hello-world.md"), Some("hello-world".to_string()));
    assert_eq!(md_stem("notes.txt"), None);
    assert_eq!(md_stem("md"), None);
    assert_eq!(md_stem("a.tar.md"), Some("a.tar".to_string()));
}

#[test]
fn process_post_end_to_end_fields() {
    let text = "# Hi\n![cat.png]\n01.02.2024";
    let p = process_post("hello-world.md", text).unwrap();
    assert_eq!(p.title, "hello-world");
    assert_eq!(p.slug, "hello-world");
    assert_eq!(p.date_display, "02/01");
    assert_eq!(p.date_key, "20240201");
    assert_eq!(p.copies.len(), 1);
    assert_eq!(p.copies[0].src_rel, "attachments/cat.png");
    assert_eq!(p.copies[0].dst_rel, "hello-world/cat.png");
    assert_eq!(p.page_rel_path(), "hello-world/index.html");
    let e = p.manifest_entry();
    assert_eq!(e.title, "hello-world");
    assert_eq!(e.slug, "hello-world");
    assert_eq!(e.date_display, "02/01");
    assert_eq!(e.date_key, "20240201");
}

#[test]
fn process_post_renders_markdown_into_page() {
    let text = "# Hi\n![cat.png]\n01.02.2024";
    let p = process_post("hello-world.md", text).unwrap();
    assert!(p.page_html.contains("<h1>hello-world</h1>"));
    assert!(p.page_html.contains("<h1>Hi</h1>"));
    assert!(p.page_html.contains("<!doctype html>"));
    assert_ne!(p.page_html, text);
}

#[test]
fn process_post_reports_bad_dateline_with_filename() {
    let r = process_post("broken.md", "# title\nno date at the end");
    match r {
        Err(BuildError::InvalidDateLine(name)) => assert_eq!(name, "broken.md"),
        _ => panic!("expected an invalid date line error"),
    }
}

#[test]
fn render_index_lists_entries() {
    let entries = vec![
        entry("hello-world", "hello_world", "02/01", "20240201"),
        entry("other post", "other_post", "01/01", "20240101"),
    ];
    let html = render_index("My blog", &entries).unwrap();
    assert!(html.contains("<h1>My blog</h1>"));
    assert!(html.contains("<a href=\"hello_world/\">hello-world</a>"));
    assert!(html.contains("<a href=\"other_post/\">other post</a>"));
    assert!(html.contains("02/01"));
    let first = html.find("hello_world/").unwrap();
    let second = html.find("other_post/").unwrap();
    assert!(first < second);
}

#[test]
fn render_index_of_empty_manifest() {
    let html = render_index("My blog", &Vec::new()).unwrap();
    assert!(html.contains("<h1>My blog</h1>"));
    assert!(!html.contains("<li>"));
}

#[test]
fn slug_collision_detection() {
    let clashing = vec![
        entry("Hello World", "hello_world", "02/01", "20240201"),
        entry("other", "other", "01/01", "20240101"),
        entry("hello world!", "hello_world", "01/01", "20240101"),
    ];
    assert_eq!(find_slug_collision(&clashing), Some((0, 2)));
    let clean = vec![
        entry("a", "a", "02/01", "20240201"),
        entry("b", "b", "01/01", "20240101"),
    ];
    assert_eq!(find_slug_collision(&clean), None);
}
