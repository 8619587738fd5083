use milliblog::parse::{extract_image_ref, parse, split_lines};
use milliblog::tags::extract_tags;
use milliblog::BuildError;

#[test]
fn split_lines_like_std() {
    let inputs = ["", "a", "a\nb", "a\n", "\n", "a\r\nb", "one\ntwo\nthree\n"];
    for s in inputs {
        let expected: Vec<String> = s.lines().map(|l| l.to_string()).collect();
        assert_eq!(split_lines(s), expected);
    }
}

#[test]
fn image_ref_extraction() {
    assert_eq!(extract_image_ref("![photo.png]"), Some("photo.png".to_string()));
    assert_eq!(extract_image_ref("![c]"), Some("c".to_string()));
    assert_eq!(extract_image_ref("![]"), None);
    assert_eq!(extract_image_ref("![] "), None);
    assert_eq!(extract_image_ref("![a] "), Some("a]".to_string()));
    assert_eq!(extract_image_ref("!["), None);
    assert_eq!(extract_image_ref("plain text"), None);
    assert_eq!(extract_image_ref(""), None);
}

#[test]
fn parse_collects_images_in_order() {
    let text = "intro\n![a.png]\nmiddle\n![b.png]\n![a.png]\n01.02.2024";
    let meta = parse(text, "post").unwrap();
    assert_eq!(meta.image_refs, vec!["a.png", "b.png", "a.png"]);
    assert_eq!(meta.title, "post");
    assert_eq!(meta.date_key, "20240201");
    assert_eq!(meta.date_display, "02/01");
}

#[test]
fn parse_rejects_missing_dateline() {
    let r = parse("just a body\nwith no date", "note");
    match r {
        Err(BuildError::InvalidDateLine(name)) => assert_eq!(name, "note"),
        _ => panic!("expected an invalid date line error"),
    }
}

#[test]
fn parse_rejects_empty_document() {
    assert!(matches!(parse("", "empty"), Err(BuildError::InvalidDateLine(_))));
}

#[test]
fn parse_accepts_trailing_newline_document() {
    let meta = parse("body\n01.02.2024\n", "post").unwrap();
    assert_eq!(meta.date_key, "20240201");
}

#[test]
fn tags_from_string() {
    let tags = extract_tags("x #tag y #two");
    assert_eq!(tags, vec!["tag", "two"]);
}

#[test]
fn tags_strip_all_leading_hashes() {
    assert_eq!(extract_tags("##double"), vec!["double"]);
    assert_eq!(extract_tags("#"), vec![""]);
    assert_eq!(extract_tags("plain words only"), Vec::<String>::new());
}
