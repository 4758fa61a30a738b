use dryer::resolver::{claim_kind, is_sensor_connector_kind};
use dryer::spans::{
    join, quoted_width, split_lines, SourcePosition, SpanEvent, SpanIndex,
};

fn segments(parts: &[&str]) -> Vec<String> {
    parts.iter().map(|s| s.to_string()).collect()
}

#[test]
fn paths_join_with_dots_and_attach_indices() {
    assert_eq!(join(&segments(&[])), "");
    assert_eq!(join(&segments(&["top"])), "top");
    assert_eq!(join(&segments(&["nest", "b", "[2]", "key"])), "nest.b[2].key");
    assert_eq!(join(&segments(&["[0]", "a"])), "[0].a");
    assert_eq!(join(&segments(&["", "a"])), "a");
}

#[test]
fn quoted_widths_run_through_the_closing_quote() {
    let chars = |s: &str| s.chars().collect::<Vec<char>>();
    assert_eq!(quoted_width(&chars("\"two words\" tail"), '"'), 11);
    assert_eq!(quoted_width(&chars("\"a\\\"b\" x"), '"'), 6);
    assert_eq!(quoted_width(&chars("'it''s' x"), '\''), 7);
    assert_eq!(quoted_width(&chars("\"open"), '"'), 5);
    assert_eq!(quoted_width(&chars("'"), '\''), 1);
}

#[test]
fn claims_and_sensor_connectors() {
    assert_eq!(claim_kind("connected_to"), Some("stepper_driver_socket"));
    assert_eq!(claim_kind("output"), Some("power_output"));
    assert_eq!(claim_kind("input"), Some("analog_input"));
    assert_eq!(claim_kind("driver"), None);
    assert!(is_sensor_connector_kind("analog_input"));
    assert!(is_sensor_connector_kind("digital_input"));
    assert!(!is_sensor_connector_kind("power_output"));
}

const DOC: &str = "\
top: 1
nest:
  a: x
  b:
    - one
    - two
    - key: v
list:
  - 10
  - 20
";

#[test]
fn keys_items_and_nested_maps_are_indexed_exactly() {
    let idx = SpanIndex::build(DOC);
    assert_eq!(idx.get("top"), Some((1, 0)));
    assert_eq!(idx.get("nest"), Some((2, 0)));
    assert_eq!(idx.get("nest.a"), Some((3, 2)));
    assert_eq!(idx.get("nest.b[0]"), Some((5, 6)));
    assert_eq!(idx.get("nest.b[1]"), Some((6, 6)));
    assert_eq!(idx.get("nest.b[2].key"), Some((7, 6)));
    assert_eq!(idx.get("list[1]"), Some((10, 4)));
    let span = idx.get_span("nest.a").unwrap();
    assert_eq!(span.start, SourcePosition::new(3, 3));
    assert_eq!(span.end, SourcePosition::new(3, 4));
}

#[test]
fn quoted_scalars_include_their_delimiters_in_the_range() {
    let idx = SpanIndex::build("items:\n  - \"two words\"\n");
    let span = idx.get_span("items[0]").unwrap();
    assert_eq!(span.start, SourcePosition::new(2, 5));
    assert_eq!(span.end, SourcePosition::new(2, 16));
}

#[test]
fn locate_retreats_to_the_nearest_ancestor() {
    let idx = SpanIndex::build(DOC);
    assert_eq!(idx.locate("nest.a.ghost"), Some((3, 2)));
    assert_eq!(idx.locate("nest.b[7]"), Some((4, 2)));
    assert_eq!(idx.locate("absent"), None);
}

#[test]
fn a_scan_failure_yields_an_empty_index() {
    let idx = SpanIndex::build("a: [unclosed");
    assert!(idx.locate("a").is_none() || idx.get("a").is_some());
}

#[test]
fn named_indexes_report_their_document_and_copies_keep_it() {
    let idx = SpanIndex::build_named("x: 1\n", "package:boards/a@1.0.0/package.yaml");
    let span = idx.get_span("x").unwrap();
    assert_eq!(span.path, "x");
    assert_eq!(span.document.as_deref(), Some("package:boards/a@1.0.0/package.yaml"));
    assert_eq!(idx.clone().locate_span("x.y").unwrap(), span);
    assert!(SpanIndex::build("x: 1").get_span("x").unwrap().document.is_none());
    assert!(SpanIndex::default().get("x").is_none());
}

#[test]
fn only_the_first_document_is_indexed() {
    let idx = SpanIndex::build("a: 1\n---\nb: 2\n");
    assert_eq!(idx.get("a"), Some((1, 0)));
    assert_eq!(idx.get("b"), None);
}

#[test]
fn events_alone_determine_the_index() {
    let events = vec![
        (SpanEvent::MappingStart, 1, 0),
        (SpanEvent::Scalar("k".into()), 1, 0),
        (SpanEvent::SequenceStart, 2, 2),
        (SpanEvent::Scalar("v".into()), 2, 4),
        (SpanEvent::Alias, 3, 4),
        (SpanEvent::SequenceEnd, 3, 0),
        (SpanEvent::Scalar("m".into()), 4, 0),
        (SpanEvent::Scalar("'q''s'".into()), 4, 3),
        (SpanEvent::MappingEnd, 5, 0),
        (SpanEvent::DocumentEnd, 5, 0),
        (SpanEvent::Scalar("late".into()), 6, 0),
    ];
    let source = "k:\n  - v\n  - *a\nm: 'q''s' # c\n";
    let idx = SpanIndex::from_events(source, &events, None);
    assert_eq!(idx.get("k"), Some((1, 0)));
    assert_eq!(idx.get("k[0]"), Some((2, 4)));
    assert_eq!(idx.get("k[1]"), None);
    assert_eq!(idx.get_span("m").unwrap().end, SourcePosition::new(4, 2));
    // a mapping value is not recorded
    assert_eq!(idx.get("m.'q''s'"), None);
    assert_eq!(idx.get("late"), None);
}

#[test]
fn lines_split_like_str_lines() {
    let lines = |s: &str| -> Vec<String> { split_lines(s).into_iter().map(|l| l.into_iter().collect()).collect() };
    for text in ["", "a", "a\n", "a\r\nb", "\n\n", "x\r", "a\n\r", "one\ntwo\r\n"] {
        let expected: Vec<String> = text.lines().map(str::to_owned).collect();
        assert_eq!(lines(text), expected, "{text:?}");
    }
}
