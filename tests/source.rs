use kas_selector::error::Application;
use kas_selector::source::{parse_listing, parse_record_list, ActivitySource};

fn pairs(v: &[(&str, &str)]) -> Vec<(String, String)> {
    v.iter().map(|(a, b)| (a.to_string(), b.to_string())).collect()
}

#[test]
fn debug_regex_capture() {
    let line = "[RUNNING] abc-12d-a Activity A (icon-a)";
    let records = parse_listing(line);
    assert!(records.len() == 1, "Regex failed to match: {line}");
}

#[test]
fn line_list_reads_id_and_name() {
    let records = parse_listing("[RUNNING] abc-12d-a Activity A (icon-a)");
    assert_eq!(records, pairs(&[("abc-12d-a", "Activity A")]));
}

#[test]
fn line_list_skips_lines_of_other_shapes() {
    let text = "header line\n\
                [RUNNING] abc-1 First (icon)\n\
                [RUNNING] XYZ-2 Upper case id (icon)\n\
                [RUNNING] abc-3 No icon\n\
                \n\
                [STOPPED] abc-4 Second (icon)";
    assert_eq!(
        parse_listing(text),
        pairs(&[("abc-1", "First"), ("abc-4", "Second")])
    );
}

#[test]
fn line_list_tolerates_surrounding_whitespace_and_crlf() {
    let text = "   [RUNNING]\tabc-1   Spaced  Name   (icon)  \r\n[CURRENT] abc-2 Other (i)\r\n";
    assert_eq!(
        parse_listing(text),
        pairs(&[("abc-1", "Spaced  Name"), ("abc-2", "Other")])
    );
}

#[test]
fn line_list_name_is_the_shortest_that_fits() {
    assert_eq!(
        parse_listing("[RUNNING] abc Foo (bar) baz (icon)"),
        pairs(&[("abc", "Foo")])
    );
    assert_eq!(
        parse_listing("[RUNNING] abc Name (with (nested) icon)"),
        pairs(&[("abc", "Name")])
    );
}

#[test]
fn line_list_needs_a_non_empty_icon() {
    assert!(parse_listing("[RUNNING] abc Name ()").is_empty());
    assert_eq!(parse_listing("[RUNNING] abc Name (x)"), pairs(&[("abc", "Name")]));
}

#[test]
fn line_list_needs_a_tag() {
    assert!(parse_listing("[] abc Name (x)").is_empty());
    assert!(parse_listing("abc Name (x)").is_empty());
    assert_eq!(parse_listing("[r_1] abc Name (x)"), pairs(&[("abc", "Name")]));
}

#[test]
fn empty_listing_gives_nothing() {
    assert!(parse_listing("").is_empty());
    assert!(parse_record_list("").unwrap().is_empty());
    assert!(parse_record_list("([],)").unwrap().is_empty());
}

#[test]
fn line_list_joined_keeps_order() {
    let a = "[RUNNING] abc-1 One (i)\njunk";
    let b = "[RUNNING] abc-2 Two (i)";
    let joined = format!("{a}\n{b}");
    let mut expected = parse_listing(a);
    expected.extend(parse_listing(b));
    assert_eq!(parse_listing(&joined), expected);
    assert_eq!(expected, pairs(&[("abc-1", "One"), ("abc-2", "Two")]));
}

#[test]
fn record_list_reads_records_in_order() {
    let text = "([('id-a', 'Activity A', '', 'icon-a', 2), ('id-b', 'activity B', 'desc', 'icon-b', 0)],)\n";
    assert_eq!(
        parse_record_list(text).unwrap(),
        pairs(&[("id-a", "Activity A"), ("id-b", "activity B")])
    );
}

#[test]
fn record_list_skips_pieces_that_are_not_records() {
    let text = "  ([('id-a', 'A', 1), (garbage), ('id-c', 'C & D', 3)],)  ";
    assert_eq!(
        parse_record_list(text).unwrap(),
        pairs(&[("id-a", "A"), ("id-c", "C & D")])
    );
}

#[test]
fn record_list_without_wrapper() {
    assert_eq!(
        parse_record_list("('x', 'Y')").unwrap(),
        pairs(&[("x", "Y")])
    );
}

#[test]
fn record_list_with_incomplete_record_is_malformed() {
    let text = "([('id-a', 'A', 1), ('id-b')],)";
    match parse_record_list(text) {
        Err(Application::InvalidValue { value, .. }) => assert_eq!(value, text),
        other => panic!("unexpected result: {:?}", other),
    }
    assert!(parse_record_list("([('id-a' 'A')],)").is_err());
    assert!(parse_record_list("([('id-a', 'A)],)").is_err());
}

#[test]
fn source_selects_the_grammar() {
    let line = "[RUNNING] abc Name (x)";
    assert_eq!(ActivitySource::LineList.parse(line).unwrap(), pairs(&[("abc", "Name")]));
    assert!(ActivitySource::RecordList.parse(line).unwrap().is_empty());
    let rec = "([('id', 'Name', 0)],)";
    assert_eq!(ActivitySource::RecordList.parse(rec).unwrap(), pairs(&[("id", "Name")]));
    assert!(ActivitySource::LineList.parse(rec).unwrap().is_empty());
}

#[test]
fn line_list_tag_must_be_word_characters() {
    assert!(parse_listing("[RUN-NING] abc Name (x)").is_empty());
    assert!(parse_listing("[RUN NING] abc Name (x)").is_empty());
    assert_eq!(parse_listing("[ÉTAT] abc Name (x)"), pairs(&[("abc", "Name")]));
}
