use rusty_von_humboldt::aggregate::reduce_commit_events;
use rusty_von_humboldt::aggregate::repo_id_to_name_mappings;
use rusty_von_humboldt::aggregate::repo_id_to_name_mappings_old;
use rusty_von_humboldt::event::CommitEvent;
use rusty_von_humboldt::event::Event;
use rusty_von_humboldt::event::Pre2015Event;
use rusty_von_humboldt::event::Repo;
use rusty_von_humboldt::event::RepoIdToName;

fn event(id: i64, name: &str, created_at: i64) -> Event {
    Event {
        actor: "someone".to_string(),
        event_type: "PushEvent".to_string(),
        repo: Repo { id, name: name.to_string() },
        created_at,
    }
}

#[test]
fn reduce_works() {
    // 2014-07-08 09:10:11 UTC and 2014-07-08 00:10:11 UTC, in epoch seconds.
    let most_newest_timestamp: i64 = 1404810611;
    let an_older_timestamp: i64 = 1404778211;

    let mut expected: Vec<RepoIdToName> = Vec::new();
    expected.push(RepoIdToName {
        repo_id: 5,
        repo_name: "new".to_string(),
        event_timestamp: most_newest_timestamp,
    });

    let mut input = Vec::new();
    input.push(event(5, "old", an_older_timestamp));
    input.push(event(5, "new", most_newest_timestamp));

    assert_eq!(expected, repo_id_to_name_mappings(&input));
}

#[test]
fn recency_tie_break() {
    // Two events for repo_id 5: "old" at T1 and "new" at T2 with T2 > T1
    // reduce to exactly one entry {5, "new", T2}.
    let t1: i64 = 1000;
    let t2: i64 = 2000;
    let input = vec![event(5, "old", t1), event(5, "new", t2)];
    let result = repo_id_to_name_mappings(&input);
    assert_eq!(result.len(), 1);
    assert_eq!(result[0].repo_id, 5);
    assert_eq!(result[0].repo_name, "new");
    assert_eq!(result[0].event_timestamp, t2);
}

#[test]
fn exclusion_filter() {
    // Candidates with repo_id -1 or an empty name never appear.
    let input = vec![
        event(-1, "ghost", 10),
        event(7, "", 20),
        event(3, "kept/repo", 30),
    ];
    let result = repo_id_to_name_mappings(&input);
    assert_eq!(result.len(), 1);
    assert_eq!(result[0].repo_id, 3);
    assert_eq!(result[0].repo_name, "kept/repo");
}

#[test]
fn reduction_deterministic_under_reordering() {
    let a = event(1, "one", 10);
    let b = event(1, "one-renamed", 20);
    let c = event(2, "two", 5);
    let d = event(9, "nine", 1);
    let forward = vec![a.clone(), b.clone(), c.clone(), d.clone()];
    let shuffled = vec![d, b, c, a];
    assert_eq!(
        repo_id_to_name_mappings(&forward),
        repo_id_to_name_mappings(&shuffled)
    );
}

#[test]
fn legacy_reduction_resolves_alternate_field() {
    let with_repository = Pre2015Event {
        actor: Some("old-timer".to_string()),
        event_type: "PushEvent".to_string(),
        repo: None,
        repository: Some(Repo { id: 44, name: "older/repo".to_string() }),
        created_at: "2013-01-01T12:00:24-08:00".to_string(),
    };
    let with_neither = Pre2015Event {
        actor: None,
        event_type: "PushEvent".to_string(),
        repo: None,
        repository: None,
        created_at: "2013-01-01T12:00:24-08:00".to_string(),
    };
    let result = repo_id_to_name_mappings_old(&vec![with_repository, with_neither]);
    // The defaulted {-1, ""} candidate is excluded; the alternate field wins.
    assert_eq!(result.len(), 1);
    assert_eq!(result[0].repo_id, 44);
    assert_eq!(result[0].repo_name, "older/repo");
    // 2013-01-01T12:00:24-08:00 is 2013-01-01T20:00:24Z.
    assert_eq!(result[0].event_timestamp, 1357070424);
}

#[test]
fn legacy_unparsable_timestamp_loses_ties() {
    let unparsable = Pre2015Event {
        actor: None,
        event_type: "PushEvent".to_string(),
        repo: Some(Repo { id: 5, name: "stale".to_string() }),
        repository: None,
        created_at: "not a timestamp".to_string(),
    };
    let parsable = Pre2015Event {
        actor: None,
        event_type: "PushEvent".to_string(),
        repo: Some(Repo { id: 5, name: "fresh".to_string() }),
        repository: None,
        created_at: "2013-06-01T00:00:00Z".to_string(),
    };
    let result = repo_id_to_name_mappings_old(&vec![parsable, unparsable]);
    assert_eq!(result.len(), 1);
    assert_eq!(result[0].repo_name, "fresh");
}

fn commit(actor: &str, repo: &str) -> CommitEvent {
    CommitEvent { actor: actor.to_string(), repo: repo.to_string() }
}

#[test]
fn dedup_idempotence() {
    let input = vec![
        commit("zoe", "z/one"),
        commit("amy", "a/one"),
        commit("zoe", "z/one"),
        commit("amy", "a/two"),
        commit("amy", "a/one"),
    ];
    let once = reduce_commit_events(&input);
    let twice = reduce_commit_events(&once);
    assert_eq!(once, twice);
    // Sorted by actor then repository, duplicates gone.
    let expected = vec![commit("amy", "a/one"), commit("amy", "a/two"), commit("zoe", "z/one")];
    assert_eq!(once, expected);
}

#[test]
fn dedup_invariant_under_reordering() {
    let forward = vec![commit("b", "r1"), commit("a", "r2"), commit("b", "r1")];
    let shuffled = vec![commit("b", "r1"), commit("b", "r1"), commit("a", "r2")];
    assert_eq!(reduce_commit_events(&forward), reduce_commit_events(&shuffled));
}
