use rusty_von_humboldt::event::parse_event_timestamp;
use rusty_von_humboldt::event::parse_legacy_line;
use rusty_von_humboldt::event::parse_modern_line;
use rusty_von_humboldt::parse::parse_modern_file;
use rusty_von_humboldt::parse::parse_modern_lines;
use rusty_von_humboldt::parse::split_text_lines;

#[test]
fn timestamp_parsing() {
    let style_one = "2013-01-01T12:00:24-08:00";
    let style_two = "2011-05-01T15:59:59Z";

    match parse_event_timestamp(style_one) {
        Some(time) => println!("got {:?} from {:?}", time, style_one),
        None => println!("Failed to get anything from {:?}. Error: {:?}", style_one, "no parse"),
    }

    match parse_event_timestamp(style_two) {
        Some(time) => println!("got {:?} from {:?}", time, style_two),
        None => println!("Failed to get anything from {:?}. Error: {:?}", style_two, "no parse"),
    }

    let _utc = parse_event_timestamp(style_two).unwrap();
}

#[test]
fn timestamp_epoch_values() {
    // Offsets are normalized to UTC before the epoch count.
    assert_eq!(parse_event_timestamp("2013-01-01T12:00:24-08:00"), Some(1357070424));
    assert_eq!(parse_event_timestamp("2011-05-01T15:59:59Z"), Some(1304265599));
    assert_eq!(parse_event_timestamp("garbage"), None);
}

fn modern_line(actor: &str, id: i64, repo: &str, created_at: &str) -> String {
    format!(
        "{{\"type\":\"PushEvent\",\"actor\":{{\"login\":\"{}\"}},\"repo\":{{\"id\":{},\"name\":\"{}\"}},\"created_at\":\"{}\"}}",
        actor, id, repo, created_at
    )
}

#[test]
fn malformed_line_tolerance() {
    // Ten valid lines with one malformed line among them parse to exactly
    // ten events; the malformed line is counted, not an error.
    let mut lines: Vec<String> = Vec::new();
    for i in 0..5 {
        lines.push(modern_line(
            &format!("user{}", i),
            i,
            "some/repo",
            "2015-03-01T10:00:00Z",
        ));
    }
    lines.push("{ this is not json".to_string());
    for i in 5..10 {
        lines.push(modern_line(
            &format!("user{}", i),
            i,
            "some/repo",
            "2015-03-01T10:00:00Z",
        ));
    }
    let (events, skipped) = parse_modern_lines(&lines);
    assert_eq!(events.len(), 10);
    assert_eq!(skipped, 1);
    // Output order matches input order.
    assert_eq!(events[0].actor, "user0");
    assert_eq!(events[9].actor, "user9");
}

#[test]
fn modern_line_decodes_fields() {
    let line = modern_line("alice", 42, "alice/project", "2015-06-01T08:30:00Z");
    let event = parse_modern_line(&line).unwrap();
    assert_eq!(event.actor, "alice");
    assert_eq!(event.event_type, "PushEvent");
    assert_eq!(event.repo.id, 42);
    assert_eq!(event.repo.name, "alice/project");
    assert_eq!(event.created_at, parse_event_timestamp("2015-06-01T08:30:00Z").unwrap());
}

#[test]
fn legacy_line_decodes_either_repo_field() {
    let with_repo =
        "{\"type\":\"PushEvent\",\"actor\":\"bob\",\"repo\":{\"id\":1,\"name\":\"a/b\"},\"created_at\":\"2012-01-01T00:00:00Z\"}";
    let with_repository =
        "{\"type\":\"PushEvent\",\"actor\":\"bob\",\"repository\":{\"id\":2,\"name\":\"c/d\"},\"created_at\":\"2012-01-01T00:00:00Z\"}";
    let e1 = parse_legacy_line(with_repo).unwrap();
    assert_eq!(e1.repo.as_ref().unwrap().id, 1);
    assert!(e1.repository.is_none());
    let e2 = parse_legacy_line(with_repository).unwrap();
    assert!(e2.repo.is_none());
    assert_eq!(e2.repository.as_ref().unwrap().name, "c/d");
    assert_eq!(e2.actor.as_ref().unwrap(), "bob");
}

#[test]
fn split_lines_keeps_final_fragment() {
    let lines = split_text_lines("a\nbb\n\nccc");
    assert_eq!(lines, vec!["a".to_string(), "bb".to_string(), "".to_string(), "ccc".to_string()]);
    let closed = split_text_lines("a\n");
    assert_eq!(closed, vec!["a".to_string()]);
    let empty = split_text_lines("");
    assert_eq!(empty.len(), 0);
}

#[test]
fn gzipped_file_parses_end_to_end() {
    // A gzip-compressed hour file with one malformed line decompresses and
    // parses; a truncated payload is a fatal batch error.
    let mut text = String::new();
    for i in 0..4 {
        text.push_str(&modern_line(&format!("u{}", i), i, "r/r", "2015-03-01T10:00:00Z"));
        text.push('\n');
    }
    text.push_str("not json at all\n");
    let mut encoder =
        flate2::write::GzEncoder::new(Vec::new(), flate2::Compression::default());
    std::io::Write::write_all(&mut encoder, text.as_bytes()).unwrap();
    let compressed = encoder.finish().unwrap();

    let (events, skipped) = parse_modern_file(&compressed).unwrap();
    assert_eq!(events.len(), 4);
    assert_eq!(skipped, 1);

    let truncated: Vec<u8> = compressed[..compressed.len() / 2].to_vec();
    assert!(parse_modern_file(&truncated).is_err());
}
