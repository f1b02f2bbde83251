use phelps::fragments::{extract_note_fragments, find_links, BodyNode, Heading};
use phelps::ids::{strip_prefix_str, NoteLink, NoteLinkParseError, NoteUuid, NoteUuidParseError};

const A: u128 = 0x550e8400_e29b_41d4_a716_446655440000;
const B: u128 = 0x550e8400_e29b_41d4_a716_446655440001;

fn heading(label: Option<&str>, text: &str) -> Heading {
    Heading { label: label.map(|l| l.to_string()), text: text.to_string() }
}

fn h2(title: &str) -> BodyNode {
    BodyNode { heading: Some(title.to_string()), html: format!("<h2>{}</h2>", title), hrefs: Vec::new() }
}

fn para(html: &str, hrefs: &[&str]) -> BodyNode {
    BodyNode { heading: None, html: html.to_string(), hrefs: hrefs.iter().map(|h| h.to_string()).collect() }
}

#[test]
fn note_label_parses() {
    assert_eq!(NoteUuid::from_str("note:550e8400-e29b-41d4-a716-446655440000"), Ok(NoteUuid(A)));
    assert_eq!(NoteUuid::from_str("550e8400-e29b-41d4-a716-446655440000"), Err(NoteUuidParseError::MissingPrefix));
    assert_eq!(NoteUuid::from_str("note:not-a-uuid"), Err(NoteUuidParseError::Uuid));
    assert_eq!(NoteUuid::from_str(""), Err(NoteUuidParseError::MissingPrefix));
}

#[test]
fn note_link_parses() {
    assert_eq!(NoteLink::from_str("note://550e8400-e29b-41d4-a716-446655440001"), Ok(NoteLink(B)));
    assert_eq!(NoteLink::from_str("https://example.org"), Err(NoteLinkParseError::MissingPrefix));
    assert_eq!(NoteLink::from_str("note://zz"), Err(NoteLinkParseError::Uuid));
    assert_eq!(NoteLink::from_str("note:550e8400-e29b-41d4-a716-446655440001"), Err(NoteLinkParseError::MissingPrefix));
}

#[test]
fn prefix_stripping() {
    assert_eq!(strip_prefix_str("Section Heading", "Section"), Some(" Heading"));
    assert_eq!(strip_prefix_str("Heading", "Section"), None);
    assert_eq!(strip_prefix_str("Sect", "Section"), None);
    assert_eq!(strip_prefix_str("é-note", "é"), Some("-note"));
}

#[test]
fn links_found_in_order_with_duplicates() {
    let hrefs: Vec<String> = vec![
        "note://550e8400-e29b-41d4-a716-446655440001".to_string(),
        "https://example.org".to_string(),
        "note://550e8400-e29b-41d4-a716-446655440000".to_string(),
        "note://550e8400-e29b-41d4-a716-446655440001".to_string(),
    ];
    assert_eq!(find_links(&hrefs), vec![B, A, B]);
    assert_eq!(find_links(&Vec::new()), Vec::<u128>::new());
}

#[test]
fn fragments_join_headings_and_sections() {
    let headings = vec![
        heading(Some("note:550e8400-e29b-41d4-a716-446655440000"), "SectionFirst"),
        heading(None, "Unlabelled"),
        heading(Some("note:550e8400-e29b-41d4-a716-446655440001"), "Second"),
        heading(Some("other"), "Other"),
    ];
    let body = vec![
        para("<p>preamble</p>", &[]),
        h2("First"),
        para("<p>one</p>", &["note://550e8400-e29b-41d4-a716-446655440001"]),
        para("<p>two</p>", &["https://example.org"]),
        h2("Second"),
        para("<p>three</p>", &["note://550e8400-e29b-41d4-a716-446655440000"]),
    ];
    let fragments = extract_note_fragments(&headings, &body);
    assert_eq!(fragments.len(), 2);
    assert_eq!(fragments[0].title, "First");
    assert_eq!(fragments[0].id, A);
    assert_eq!(fragments[0].html, "<article><p>one</p><p>two</p></article>");
    assert_eq!(fragments[0].links, vec![B]);
    assert_eq!(fragments[1].title, "Second");
    assert_eq!(fragments[1].id, B);
    assert_eq!(fragments[1].html, "<article><p>three</p></article>");
    assert_eq!(fragments[1].links, vec![A]);
}

#[test]
fn note_without_section_gives_no_fragment() {
    let headings = vec![heading(Some("note:550e8400-e29b-41d4-a716-446655440000"), "Missing")];
    let body = vec![h2("Present"), para("<p>x</p>", &[])];
    assert!(extract_note_fragments(&headings, &body).is_empty());
    let empty = h2("Empty");
    let headings = vec![heading(Some("note:550e8400-e29b-41d4-a716-446655440000"), "Empty")];
    let fragments = extract_note_fragments(&headings, &vec![empty]);
    assert_eq!(fragments.len(), 1);
    assert_eq!(fragments[0].html, "<article></article>");
    assert!(fragments[0].links.is_empty());
}

#[test]
fn parsed_values_map_to_notes() {
    assert_eq!(NoteUuid::from_parsed(Some(A)), Ok(NoteUuid(A)));
    assert_eq!(NoteUuid::from_parsed(None), Err(NoteUuidParseError::Uuid));
    assert_eq!(NoteLink::from_parsed(Some(B)), Ok(NoteLink(B)));
    assert_eq!(NoteLink::from_parsed(None), Err(NoteLinkParseError::Uuid));
}
