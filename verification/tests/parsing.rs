use sitegen::extract_path;
use sitegen::get_content_type;
use sitegen::parse_document;

#[test]
fn missing_opening_delimiter_gives_no_result() {
    assert!(parse_document("hello\nworld").is_none());
    assert!(parse_document("").is_none());
    assert!(parse_document(" ---\ntitle: x\n---\nbody").is_none());
}

#[test]
fn draft_documents_give_no_result() {
    let doc = "---\ntitle: Kept\ndraft: true\n---\nbody";
    assert!(parse_document(doc).is_none());
}

#[test]
fn quoted_draft_flag_also_counts() {
    let doc = "---\ndraft: \"true\"\n---\nbody";
    assert!(parse_document(doc).is_none());
}

#[test]
fn draft_false_is_parsed() {
    let doc = "---\ntitle: T\ndraft: false\n---\nbody";
    let m = parse_document(doc).unwrap();
    assert!(!m.draft);
    assert_eq!(m.title, "T");
    assert_eq!(m.body, "body");
}

#[test]
fn line_after_tags_block_is_dropped() {
    let doc = "---\ntags: \n- x\n- y\nauthor: Jane\n---\nbody";
    let m = parse_document(doc).unwrap();
    assert_eq!(m.tags, vec!["x".to_string(), "y".to_string()]);
    assert_eq!(m.author, "");
}

#[test]
fn full_document_fields() {
    let doc = "---\ntitle: \"A Post\"\nauthor: Ada\npubDatetime: 2024-03-07T08:00:00Z\nslug: a-post\nfeatured: true\ndescription: words\n---\nline one\n\nline two";
    let m = parse_document(doc).unwrap();
    assert_eq!(m.title, "A Post");
    assert_eq!(m.author, "Ada");
    assert_eq!(m.pub_date, "March 7, 2024");
    assert_eq!(m.slug, "a-post");
    assert!(m.featured);
    assert!(!m.draft);
    assert_eq!(m.description, "words");
    assert_eq!(m.body, "line one\n\nline two");
}

#[test]
fn unknown_keys_are_ignored() {
    let doc = "---\ncolor: blue\ntitle: T\n---\nbody";
    let m = parse_document(doc).unwrap();
    assert_eq!(m.title, "T");
    assert_eq!(m.body, "body");
}

#[test]
fn unterminated_front_matter_leaves_an_empty_body() {
    let doc = "---\ntitle: T";
    let m = parse_document(doc).unwrap();
    assert_eq!(m.title, "T");
    assert_eq!(m.body, "");
}

#[test]
fn delimiter_right_after_tags_is_read_as_a_tag() {
    let doc = "---\ntags:\n- x\n---\nbody";
    let m = parse_document(doc).unwrap();
    assert_eq!(m.tags, vec!["x".to_string(), "--".to_string()]);
    assert_eq!(m.body, "");
}

#[test]
fn delimiter_alone_gives_all_defaults() {
    let m = parse_document("---").unwrap();
    assert_eq!(m.title, "");
    assert_eq!(m.author, "");
    assert_eq!(m.pub_date, "");
    assert_eq!(m.slug, "");
    assert!(!m.draft);
    assert!(!m.featured);
    assert!(m.tags.is_empty());
    assert_eq!(m.description, "");
    assert_eq!(m.body, "");
}

#[test]
fn carriage_return_line_endings_are_accepted() {
    let doc = "---\r\ntitle: T\r\n---\r\nbody line";
    let m = parse_document(doc).unwrap();
    assert_eq!(m.title, "T");
    assert_eq!(m.body, "body line");
}

#[test]
fn lines_without_a_colon_are_skipped() {
    let doc = "---\nnot a field\ntitle: T\n---\nbody";
    let m = parse_document(doc).unwrap();
    assert_eq!(m.title, "T");
}

#[test]
fn request_path_is_the_second_token() {
    let req = "GET /posts/a.html HTTP/1.1\r\nHost: h";
    assert_eq!(extract_path(req), "/posts/a.html");
}

#[test]
fn missing_token_falls_back_to_root() {
    assert_eq!(extract_path("GET"), "/");
    assert_eq!(extract_path(""), "/");
    assert_eq!(extract_path("\n"), "/");
}

#[test]
fn content_types_by_extension() {
    assert_eq!(get_content_type("dist/index.html"), "text/html");
    assert_eq!(get_content_type("static/pico.css"), "text/css");
    assert_eq!(get_content_type("app.js"), "application/javascript");
    assert_eq!(get_content_type("img.png"), "image/png");
    assert_eq!(get_content_type("img.jpg"), "image/jpeg");
    assert_eq!(get_content_type("img.jpeg"), "image/jpeg");
    assert_eq!(get_content_type("notes.txt"), "text/plain");
}
