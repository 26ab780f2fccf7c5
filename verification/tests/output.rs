use rusty_von_humboldt::ProcessingMode;
use rusty_von_humboldt::event::CommitEvent;
use rusty_von_humboldt::event::Event;
use rusty_von_humboldt::event::Repo;
use rusty_von_humboldt::event::RepoIdToName;
use rusty_von_humboldt::output::build_committer_artifact;
use rusty_von_humboldt::output::build_mapping_artifact;
use rusty_von_humboldt::output::commit_row;
use rusty_von_humboldt::output::compress_artifact;
use rusty_von_humboldt::output::generate_mode_string;
use rusty_von_humboldt::output::mapping_row;
use rusty_von_humboldt::output::run_committer_batch;

#[test]
fn mode_strings() {
    assert_eq!(generate_mode_string(&ProcessingMode::CommitterCount), "committers");
    assert_eq!(generate_mode_string(&ProcessingMode::RepoMapping), "repomapping");
}

#[test]
fn row_formats() {
    let c = CommitEvent { actor: "alice".to_string(), repo: "alice/project".to_string() };
    assert_eq!(
        commit_row(&c),
        "INSERT INTO committers (actor_name, repo_name) VALUES ('alice', 'alice/project');\n"
    );
    let m = RepoIdToName {
        repo_id: 42,
        repo_name: "a/b".to_string(),
        event_timestamp: -5,
    };
    assert_eq!(
        mapping_row(&m),
        "INSERT INTO repo_mappings (repo_id, repo_name, event_timestamp) VALUES (42, 'a/b', -5);\n"
    );
}

#[test]
fn committer_artifact_is_content_addressed() {
    let records = vec![
        CommitEvent { actor: "zoe".to_string(), repo: "z/r".to_string() },
        CommitEvent { actor: "amy".to_string(), repo: "a/r".to_string() },
        CommitEvent { actor: "zoe".to_string(), repo: "z/r".to_string() },
    ];
    let item = build_committer_artifact(&records, 2014, "dest-bucket");
    let expected_sql = "INSERT INTO committers (actor_name, repo_name) VALUES ('amy', 'a/r');\n\
                        INSERT INTO committers (actor_name, repo_name) VALUES ('zoe', 'z/r');\n";
    assert_eq!(item.sql, expected_sql);
    assert_eq!(item.s3_bucket_name, "dest-bucket");
    assert!(!item.no_more_work);
    // The key is derived from the md5 hex digest of the uncompressed payload.
    let expected_key = format!("rvh/committers/2014/{:x}.txt.gz", md5::compute(expected_sql));
    assert_eq!(item.s3_file_location, expected_key);
}

#[test]
fn mapping_artifact_key_has_no_year() {
    let mappings = vec![RepoIdToName {
        repo_id: 1,
        repo_name: "n/n".to_string(),
        event_timestamp: 7,
    }];
    let item = build_mapping_artifact(&mappings, "dest-bucket");
    let expected_key = format!("rvh/repomapping/{:x}", md5::compute(&item.sql));
    assert_eq!(item.s3_file_location, expected_key);
}

#[test]
fn compression_round_trips() {
    let records = vec![CommitEvent { actor: "a".to_string(), repo: "r".to_string() }];
    let item = build_committer_artifact(&records, 2016, "b");
    let compressed = compress_artifact(&item);
    let mut decoder = flate2::read::GzDecoder::new(compressed.as_slice());
    let mut out = String::new();
    std::io::Read::read_to_string(&mut decoder, &mut out).unwrap();
    assert_eq!(out, item.sql);
}

fn gzip_lines(lines: &[String]) -> Vec<u8> {
    let mut text = String::new();
    for l in lines {
        text.push_str(l);
        text.push('\n');
    }
    let mut encoder = flate2::write::GzEncoder::new(Vec::new(), flate2::Compression::default());
    std::io::Write::write_all(&mut encoder, text.as_bytes()).unwrap();
    encoder.finish().unwrap()
}

#[test]
fn committer_batch_runs_end_to_end() {
    let line = "{\"type\":\"PushEvent\",\"actor\":{\"login\":\"amy\"},\"repo\":{\"id\":1,\
                \"name\":\"a/r\"},\"created_at\":\"2016-01-01T00:00:00Z\"}";
    let push = "{\"type\":\"WatchEvent\",\"actor\":{\"login\":\"bob\"},\"repo\":{\"id\":2,\
                \"name\":\"b/r\"},\"created_at\":\"2016-01-01T00:00:00Z\"}";
    let payloads = vec![
        gzip_lines(&[line.to_string(), push.to_string()]),
        gzip_lines(&[line.to_string()]),
    ];
    let (item, skipped) = run_committer_batch(&payloads, 2016, "bucket").unwrap();
    assert_eq!(skipped, 0);
    // Only the commit-type event survives, once, despite appearing in two files.
    assert_eq!(
        item.sql,
        "INSERT INTO committers (actor_name, repo_name) VALUES ('amy', 'a/r');\n"
    );
}

#[test]
fn event_structs_round_trip_fields() {
    let e = Event {
        actor: "amy".to_string(),
        event_type: "PushEvent".to_string(),
        repo: Repo { id: 9, name: "x/y".to_string() },
        created_at: 123,
    };
    assert!(e.is_commit_event());
    let c = e.as_commit_event();
    assert_eq!(c.actor, "amy");
    assert_eq!(c.repo, "x/y");
}
