use lipl_storage::part::{extract_delimited_frontmatter, to_parts, to_text};
use lipl_storage::error::Error;

#[test]
fn test_to_part() {
    let s = "line1\nline2\n \n\n  part2\n\npart3\n";
    let parts = to_parts(s);
    assert_eq!(parts.len(), 3);
    assert_eq!(parts[0], vec!["line1", "line2"]);
    assert_eq!(parts[1], vec!["part2"]);
    assert_eq!(parts[2], vec!["part3"]);
}

#[test]
fn test_extract_delimited_frontmatter() {
    let content =
        "+++\ntitle: My Title\ndate: 2023-01-01\n+++\nEr is er één jarig\nhoera, hoera";
    let frontmatter = extract_delimited_frontmatter(content);
    assert_eq!(
        frontmatter.unwrap(),
        (
            "title: My Title\ndate: 2023-01-01\n",
            "Er is er één jarig\nhoera, hoera"
        )
    );
}

fn strings(lines: &[&str]) -> Vec<String> {
    lines.iter().map(|l| l.to_string()).collect()
}

#[test]
fn to_parts_of_empty_text_is_empty() {
    assert!(to_parts("").is_empty());
    assert!(to_parts("\n\n \t\n").is_empty());
}

#[test]
fn to_parts_trims_unicode_white_space() {
    let parts = to_parts("\u{3000}a\u{a0}\r\n\u{2003}\n b ");
    assert_eq!(parts, vec![strings(&["a"]), strings(&["b"])]);
}

#[test]
fn to_parts_keeps_inner_spaces() {
    let parts = to_parts("  één  twee \ndrie");
    assert_eq!(parts, vec![strings(&["één  twee", "drie"])]);
}

#[test]
fn to_text_joins_lines_and_parts() {
    let parts = vec![strings(&["a", "b"]), strings(&["c"])];
    assert_eq!(to_text(&parts), "a\nb\n\nc");
    assert_eq!(to_text(&[]), "");
    assert_eq!(to_text(&[strings(&["x"])]), "x");
}

#[test]
fn parts_roundtrip_through_text() {
    let parts = vec![
        strings(&["Er is er één jarig", "hoera, hoera"]),
        strings(&["dat kun je wel zien"]),
        strings(&["dat is", "zij"]),
    ];
    assert_eq!(to_parts(&to_text(&parts)), parts);
    let with_break = format!("\n{}", to_text(&parts));
    assert_eq!(to_parts(&with_break), parts);
}

#[test]
fn to_parts_is_a_normal_form() {
    let s = "  x \n\n\n y\n z  \n\n";
    let parts = to_parts(s);
    assert_eq!(to_parts(&to_text(&parts)), parts);
}

#[test]
fn frontmatter_needs_exactly_two_delimiters() {
    match extract_delimited_frontmatter("no delimiters") {
        Err(Error::NotFound(m)) => assert!(m.is_empty()),
        other => panic!("unexpected {:?}", other),
    }
    assert!(extract_delimited_frontmatter("+++\na\n").is_err());
    assert!(extract_delimited_frontmatter("+++\na\n+++\nb\n+++\nc").is_err());
    assert_eq!(
        extract_delimited_frontmatter("+++\n+++\n").unwrap(),
        ("", "")
    );
}

#[test]
fn frontmatter_delimiter_needs_line_break() {
    assert_eq!(
        extract_delimited_frontmatter("x+++\nmeta++++\nbody +++").unwrap(),
        ("meta+", "body +++")
    );
}
