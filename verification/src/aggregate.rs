use vstd::prelude::*;

verus! {

use crate::event::CommitEvent;
use crate::event::CommitEventView;
use crate::event::Event;
use crate::event::EventView;
use crate::event::Pre2015Event;
use crate::event::Pre2015EventView;
use crate::event::RepoIdToName;
use crate::event::RepoIdToNameView;
use crate::event::project_legacy;
use crate::event::project_modern;
use crate::event::seq_views;
use crate::event::spec_is_commit_type;
use crate::event::str_eq;
use crate::order::coalesce_keep_last;
use crate::order::convex_classes;
use crate::order::equiv_rel;
use crate::order::is_class_reduction;
use crate::order::lemma_opt_map_multiset;
use crate::order::lemma_opt_map_origin;
use crate::order::lemma_reduce_by_idempotent;
use crate::order::lemma_reduce_by_same_multiset;
use crate::order::lemma_reduce_by_ensures;
use crate::order::lemma_sorted_insert_position;
use crate::order::opt_map;
use crate::order::reduce_by;
use crate::order::sort_by_insertion;
use crate::order::total_le;
use crate::text::lemma_lex_lt_asymmetric;
use crate::text::lemma_lex_lt_connected;
use crate::text::lemma_lex_lt_transitive;
use crate::text::lex_le;
use crate::text::lex_lt;
use crate::text::str_lex_lt;

/// The natural field order of commit records: by actor, then repository.
pub open spec fn commit_le(a: CommitEventView, b: CommitEventView) -> bool {
    if a.actor != b.actor {
        lex_lt(a.actor, b.actor)
    } else {
        lex_le(a.repo, b.repo)
    }
}

pub open spec fn commit_le_fn() -> spec_fn(CommitEventView, CommitEventView) -> bool {
    |a: CommitEventView, b: CommitEventView| commit_le(a, b)
}

pub open spec fn commit_eqv_fn() -> spec_fn(CommitEventView, CommitEventView) -> bool {
    |a: CommitEventView, b: CommitEventView| a == b
}

/// Mapping candidates ordered by repository id, then recency, then name.
pub open spec fn mapping_le(a: RepoIdToNameView, b: RepoIdToNameView) -> bool {
    if a.repo_id != b.repo_id {
        a.repo_id < b.repo_id
    } else if a.event_timestamp != b.event_timestamp {
        a.event_timestamp < b.event_timestamp
    } else {
        lex_le(a.repo_name, b.repo_name)
    }
}

pub open spec fn mapping_le_fn() -> spec_fn(RepoIdToNameView, RepoIdToNameView) -> bool {
    |a: RepoIdToNameView, b: RepoIdToNameView| mapping_le(a, b)
}

pub open spec fn same_repo_id_fn() -> spec_fn(RepoIdToNameView, RepoIdToNameView) -> bool {
    |a: RepoIdToNameView, b: RepoIdToNameView| a.repo_id == b.repo_id
}

pub proof fn lemma_commit_order_props()
    ensures
        total_le(commit_le_fn()),
        equiv_rel(commit_eqv_fn()),
        convex_classes(commit_le_fn(), commit_eqv_fn()),
{
    let leq = commit_le_fn();
    let eqv = commit_eqv_fn();
    assert forall|a: CommitEventView, b: CommitEventView| #![trigger leq(a, b)]
        leq(a, b) || leq(b, a) by {
        lemma_lex_lt_connected(a.actor, b.actor);
        lemma_lex_lt_connected(a.repo, b.repo);
    }
    assert forall|a: CommitEventView, b: CommitEventView| #![trigger leq(a, b)]
        leq(a, b) && leq(b, a) implies a == b by {
        lemma_lex_lt_asymmetric(a.actor, b.actor);
        lemma_lex_lt_asymmetric(a.repo, b.repo);
        assert(a =~= b);
    }
    assert forall|a: CommitEventView, b: CommitEventView, c: CommitEventView|
        #![trigger leq(a, b), leq(b, c)]
        leq(a, b) && leq(b, c) implies leq(a, c) by {
        lemma_lex_lt_asymmetric(a.actor, b.actor);
        if a.actor != b.actor && b.actor != c.actor {
            lemma_lex_lt_transitive(a.actor, b.actor, c.actor);
            lemma_lex_lt_asymmetric(a.actor, c.actor);
            if a.actor == c.actor {
                lemma_lex_lt_asymmetric(b.actor, c.actor);
            }
        }
        if a.actor == b.actor && b.actor == c.actor {
            if lex_lt(a.repo, b.repo) && lex_lt(b.repo, c.repo) {
                lemma_lex_lt_transitive(a.repo, b.repo, c.repo);
            }
        }
    }
    assert forall|a: CommitEventView, b: CommitEventView, c: CommitEventView|
        #![trigger eqv(a, c), leq(a, b), leq(b, c)]
        eqv(a, c) && leq(a, b) && leq(b, c) implies eqv(a, b) by {
        if eqv(a, c) && leq(a, b) && leq(b, c) {
            assert(leq(b, a));
            assert(a == b);
        }
    }
}

pub proof fn lemma_mapping_order_props()
    ensures
        total_le(mapping_le_fn()),
        equiv_rel(same_repo_id_fn()),
        convex_classes(mapping_le_fn(), same_repo_id_fn()),
{
    let leq = mapping_le_fn();
    let eqv = same_repo_id_fn();
    assert forall|a: RepoIdToNameView, b: RepoIdToNameView| #![trigger leq(a, b)]
        leq(a, b) || leq(b, a) by {
        lemma_lex_lt_connected(a.repo_name, b.repo_name);
    }
    assert forall|a: RepoIdToNameView, b: RepoIdToNameView| #![trigger leq(a, b)]
        leq(a, b) && leq(b, a) implies a == b by {
        lemma_lex_lt_asymmetric(a.repo_name, b.repo_name);
        if leq(a, b) && leq(b, a) {
            assert(a =~= b);
        }
    }
    assert forall|a: RepoIdToNameView, b: RepoIdToNameView, c: RepoIdToNameView|
        #![trigger leq(a, b), leq(b, c)]
        leq(a, b) && leq(b, c) implies leq(a, c) by {
        if a.repo_id == b.repo_id && b.repo_id == c.repo_id && a.event_timestamp
            == b.event_timestamp && b.event_timestamp == c.event_timestamp {
            if lex_lt(a.repo_name, b.repo_name) && lex_lt(b.repo_name, c.repo_name) {
                lemma_lex_lt_transitive(a.repo_name, b.repo_name, c.repo_name);
            }
        }
    }
    assert forall|a: RepoIdToNameView, b: RepoIdToNameView, c: RepoIdToNameView|
        #![trigger eqv(a, c), leq(a, b), leq(b, c)]
        eqv(a, c) && leq(a, b) && leq(b, c) implies eqv(a, b) by {}
}

/// Compares two commit records in their natural field order.
pub fn commit_le_exec(a: &CommitEvent, b: &CommitEvent) -> (r: bool)
    ensures
        r == commit_le(a@, b@),
{
    if str_eq(a.actor.as_str(), b.actor.as_str()) {
        let eq = str_eq(a.repo.as_str(), b.repo.as_str());
        eq || str_lex_lt(a.repo.as_str(), b.repo.as_str())
    } else {
        str_lex_lt(a.actor.as_str(), b.actor.as_str())
    }
}

/// Whether two commit records are duplicates: all projected fields equal.
pub fn commit_eq_exec(a: &CommitEvent, b: &CommitEvent) -> (r: bool)
    ensures
        r == (a@ == b@),
{
    let r = str_eq(a.actor.as_str(), b.actor.as_str()) && str_eq(a.repo.as_str(), b.repo.as_str());
    proof {
        if r {
            assert(a@ =~= b@);
        }
    }
    r
}

/// Compares two mapping candidates by id, recency, then name.
pub fn mapping_le_exec(a: &RepoIdToName, b: &RepoIdToName) -> (r: bool)
    ensures
        r == mapping_le(a@, b@),
{
    if a.repo_id != b.repo_id {
        a.repo_id < b.repo_id
    } else if a.event_timestamp != b.event_timestamp {
        a.event_timestamp < b.event_timestamp
    } else {
        let eq = str_eq(a.repo_name.as_str(), b.repo_name.as_str());
        eq || str_lex_lt(a.repo_name.as_str(), b.repo_name.as_str())
    }
}

proof fn lemma_seq_views_push<T: View>(s: Seq<T>, x: T)
    ensures
        seq_views(s.push(x)) == seq_views(s).push(x@),
{
    assert(seq_views(s.push(x)) =~= seq_views(s).push(x@));
}

proof fn lemma_seq_views_insert<T: View>(s: Seq<T>, j: int, x: T)
    requires
        0 <= j <= s.len(),
    ensures
        seq_views(s.insert(j, x)) == seq_views(s).insert(j, x@),
{
    assert(seq_views(s.insert(j, x)) =~= seq_views(s).insert(j, x@));
}

fn find_insert_pos_commit(out: &Vec<CommitEvent>, x: &CommitEvent) -> (j: usize)
    ensures
        j <= out@.len(),
        forall|k: int| 0 <= k < j ==> !commit_le(x@, #[trigger] seq_views(out@)[k]),
        j < out@.len() ==> commit_le(x@, seq_views(out@)[j as int]),
{
    let mut j: usize = 0;
    while j < out.len()
        invariant
            j <= out@.len(),
            forall|k: int| 0 <= k < j ==> !commit_le(x@, #[trigger] seq_views(out@)[k]),
        decreases out@.len() - j,
    {
        if commit_le_exec(x, &out[j]) {
            return j;
        }
        j = j + 1;
    }
    j
}

fn find_insert_pos_mapping(out: &Vec<RepoIdToName>, x: &RepoIdToName) -> (j: usize)
    ensures
        j <= out@.len(),
        forall|k: int| 0 <= k < j ==> !mapping_le(x@, #[trigger] seq_views(out@)[k]),
        j < out@.len() ==> mapping_le(x@, seq_views(out@)[j as int]),
{
    let mut j: usize = 0;
    while j < out.len()
        invariant
            j <= out@.len(),
            forall|k: int| 0 <= k < j ==> !mapping_le(x@, #[trigger] seq_views(out@)[k]),
        decreases out@.len() - j,
    {
        if mapping_le_exec(x, &out[j]) {
            return j;
        }
        j = j + 1;
    }
    j
}

/// Sorts commit records by their natural field order.
fn sort_commit_events(v: &Vec<CommitEvent>) -> (r: Vec<CommitEvent>)
    ensures
        seq_views(r@) == sort_by_insertion(seq_views(v@), commit_le_fn()),
{
    let ghost leq = commit_le_fn();
    let ghost sv = seq_views(v@);
    let mut out: Vec<CommitEvent> = Vec::new();
    let mut i: usize = 0;
    proof {
        assert(sv.take(0) =~= Seq::<CommitEventView>::empty());
        assert(seq_views(out@) =~= Seq::<CommitEventView>::empty());
    }
    while i < v.len()
        invariant
            i <= v@.len(),
            sv == seq_views(v@),
            leq == commit_le_fn(),
            seq_views(out@) == sort_by_insertion(sv.take(i as int), leq),
        decreases v@.len() - i,
    {
        let x = v[i].duplicate();
        let j = find_insert_pos_commit(&out, &x);
        proof {
            lemma_sorted_insert_position(seq_views(out@), x@, leq, j as int);
            lemma_seq_views_insert(out@, j as int, x);
            let so = seq_views(out@);
            assert(so.insert(j as int, x@) =~= so.take(j as int) + seq![x@] + so.skip(j as int));
            assert(sv.take(i as int + 1).drop_last() =~= sv.take(i as int));
            assert(sv.take(i as int + 1).last() == sv[i as int]);
            assert(sv[i as int] == x@);
        }
        out.insert(j, x);
        i = i + 1;
    }
    proof {
        assert(sv.take(v@.len() as int) =~= sv);
    }
    out
}

/// Sorts mapping candidates by id, recency, then name.
fn sort_mappings(v: &Vec<RepoIdToName>) -> (r: Vec<RepoIdToName>)
    ensures
        seq_views(r@) == sort_by_insertion(seq_views(v@), mapping_le_fn()),
{
    let ghost leq = mapping_le_fn();
    let ghost sv = seq_views(v@);
    let mut out: Vec<RepoIdToName> = Vec::new();
    let mut i: usize = 0;
    proof {
        assert(sv.take(0) =~= Seq::<RepoIdToNameView>::empty());
        assert(seq_views(out@) =~= Seq::<RepoIdToNameView>::empty());
    }
    while i < v.len()
        invariant
            i <= v@.len(),
            sv == seq_views(v@),
            leq == mapping_le_fn(),
            seq_views(out@) == sort_by_insertion(sv.take(i as int), leq),
        decreases v@.len() - i,
    {
        let x = v[i].duplicate();
        let j = find_insert_pos_mapping(&out, &x);
        proof {
            lemma_sorted_insert_position(seq_views(out@), x@, leq, j as int);
            lemma_seq_views_insert(out@, j as int, x);
            let so = seq_views(out@);
            assert(so.insert(j as int, x@) =~= so.take(j as int) + seq![x@] + so.skip(j as int));
            assert(sv.take(i as int + 1).drop_last() =~= sv.take(i as int));
            assert(sv.take(i as int + 1).last() == sv[i as int]);
            assert(sv[i as int] == x@);
        }
        out.insert(j, x);
        i = i + 1;
    }
    proof {
        assert(sv.take(v@.len() as int) =~= sv);
    }
    out
}

/// Removes adjacent duplicate commit records from a sorted run.
fn dedup_adjacent_commits(v: &Vec<CommitEvent>) -> (r: Vec<CommitEvent>)
    ensures
        seq_views(r@) == coalesce_keep_last(seq_views(v@), commit_eqv_fn()),
{
    let ghost eqv = commit_eqv_fn();
    let ghost sv = seq_views(v@);
    let mut out: Vec<CommitEvent> = Vec::new();
    let mut i: usize = 0;
    proof {
        assert(sv.take(0) =~= Seq::<CommitEventView>::empty());
        assert(seq_views(out@) =~= Seq::<CommitEventView>::empty());
        assert(coalesce_keep_last(sv.take(0), eqv) =~= Seq::<CommitEventView>::empty());
    }
    while i < v.len()
        invariant
            i <= v@.len(),
            sv == seq_views(v@),
            eqv == commit_eqv_fn(),
            seq_views(out@) == coalesce_keep_last(sv.take(i as int), eqv),
        decreases v@.len() - i,
    {
        let x = v[i].duplicate();
        proof {
            assert(sv.take(i as int + 1).drop_last() =~= sv.take(i as int));
            assert(sv.take(i as int + 1).last() == sv[i as int]);
            assert(sv[i as int] == x@);
        }
        let n = out.len();
        if n > 0 && commit_eq_exec(&out[n - 1], &x) {
            proof {
                let so = seq_views(out@);
                assert(so.last() == out@[n - 1]@);
                assert(so.update(so.len() - 1, x@) =~= so);
            }
        } else {
            proof {
                lemma_seq_views_push(out@, x);
                if n > 0 {
                    assert(seq_views(out@).last() == out@[n - 1]@);
                }
            }
            out.push(x);
        }
        i = i + 1;
    }
    proof {
        assert(sv.take(v@.len() as int) =~= sv);
    }
    out
}

/// Keeps, for each run of candidates with one id, the last (most recent) one.
fn coalesce_mappings(v: &Vec<RepoIdToName>) -> (r: Vec<RepoIdToName>)
    ensures
        seq_views(r@) == coalesce_keep_last(seq_views(v@), same_repo_id_fn()),
{
    let ghost eqv = same_repo_id_fn();
    let ghost sv = seq_views(v@);
    let mut out: Vec<RepoIdToName> = Vec::new();
    let mut i: usize = 0;
    proof {
        assert(sv.take(0) =~= Seq::<RepoIdToNameView>::empty());
        assert(seq_views(out@) =~= Seq::<RepoIdToNameView>::empty());
        assert(coalesce_keep_last(sv.take(0), eqv) =~= Seq::<RepoIdToNameView>::empty());
    }
    while i < v.len()
        invariant
            i <= v@.len(),
            sv == seq_views(v@),
            eqv == same_repo_id_fn(),
            seq_views(out@) == coalesce_keep_last(sv.take(i as int), eqv),
        decreases v@.len() - i,
    {
        let x = v[i].duplicate();
        proof {
            assert(sv.take(i as int + 1).drop_last() =~= sv.take(i as int));
            assert(sv.take(i as int + 1).last() == sv[i as int]);
            assert(sv[i as int] == x@);
        }
        let n = out.len();
        if n > 0 && out[n - 1].repo_id == x.repo_id {
            proof {
                let so = seq_views(out@);
                assert(so.last() == out@[n - 1]@);
                assert(seq_views(out@.drop_last().push(x)) =~= so.update(so.len() - 1, x@));
            }
            let _ = out.pop();
            out.push(x);
        } else {
            proof {
                lemma_seq_views_push(out@, x);
                if n > 0 {
                    assert(seq_views(out@).last() == out@[n - 1]@);
                }
            }
            out.push(x);
        }
        i = i + 1;
    }
    proof {
        assert(sv.take(v@.len() as int) =~= sv);
    }
    out
}

/// The canonical reduction of commit records: sorted and duplicate-free.
pub open spec fn commit_reduction(s: Seq<CommitEventView>) -> Seq<CommitEventView> {
    reduce_by(s, commit_le_fn(), commit_eqv_fn())
}

/// The canonical reduction of mapping candidates: one entry per repository id,
/// carrying the most recent name.
pub open spec fn repo_mapping_reduction(cands: Seq<RepoIdToNameView>) -> Seq<RepoIdToNameView> {
    reduce_by(cands, mapping_le_fn(), same_repo_id_fn())
}

/// Sorts the collection by the records' natural field order and removes
/// duplicates: the deterministic, duplicate-free, sorted commit set.
pub fn reduce_commit_events(events: &Vec<CommitEvent>) -> (r: Vec<CommitEvent>)
    ensures
        seq_views(r@) == commit_reduction(seq_views(events@)),
        is_class_reduction(seq_views(events@), seq_views(r@), commit_le_fn(), commit_eqv_fn()),
{
    let sorted = sort_commit_events(events);
    let out = dedup_adjacent_commits(&sorted);
    proof {
        lemma_commit_order_props();
        lemma_reduce_by_ensures(seq_views(events@), commit_le_fn(), commit_eqv_fn());
    }
    out
}

/// A candidate enters the mapping reduction only with a usable id and name.
pub open spec fn valid_mapping(m: RepoIdToNameView) -> bool {
    m.repo_id >= 0 && m.repo_name.len() > 0
}

pub open spec fn modern_candidate_fn() -> spec_fn(EventView) -> Option<RepoIdToNameView> {
    |e: EventView|
        if valid_mapping(project_modern(e)) {
            Option::Some(project_modern(e))
        } else {
            Option::None
        }
}

pub open spec fn legacy_candidate_fn() -> spec_fn(Pre2015EventView) -> Option<RepoIdToNameView> {
    |e: Pre2015EventView|
        if valid_mapping(project_legacy(e)) {
            Option::Some(project_legacy(e))
        } else {
            Option::None
        }
}

/// The admissible mapping candidates a batch of modern events contributes.
pub open spec fn spec_candidates_modern(s: Seq<EventView>) -> Seq<RepoIdToNameView> {
    opt_map(s, modern_candidate_fn())
}

/// The admissible mapping candidates a batch of legacy events contributes.
pub open spec fn spec_candidates_legacy(s: Seq<Pre2015EventView>) -> Seq<RepoIdToNameView> {
    opt_map(s, legacy_candidate_fn())
}

fn candidates_modern(events: &Vec<Event>) -> (r: Vec<RepoIdToName>)
    ensures
        seq_views(r@) == spec_candidates_modern(seq_views(events@)),
{
    let ghost sv = seq_views(events@);
    let ghost f = modern_candidate_fn();
    let mut out: Vec<RepoIdToName> = Vec::new();
    let mut i: usize = 0;
    proof {
        assert(sv.take(0) =~= Seq::<EventView>::empty());
        assert(seq_views(out@) =~= Seq::<RepoIdToNameView>::empty());
        assert(opt_map(sv.take(0), f) =~= Seq::<RepoIdToNameView>::empty());
    }
    while i < events.len()
        invariant
            i <= events@.len(),
            sv == seq_views(events@),
            f == modern_candidate_fn(),
            seq_views(out@) == opt_map(sv.take(i as int), f),
        decreases events@.len() - i,
    {
        proof {
            assert(sv.take(i as int + 1).drop_last() =~= sv.take(i as int));
            assert(sv.take(i as int + 1).last() == sv[i as int]);
            assert(sv[i as int] == events@[i as int]@);
        }
        let e = &events[i];
        let cand = RepoIdToName {
            repo_id: e.repo.id,
            repo_name: e.repo.name.clone(),
            event_timestamp: e.created_at,
        };
        if cand.repo_id >= 0 && !cand.repo_name.as_str().is_empty() {
            proof {
                lemma_seq_views_push(out@, cand);
                assert(cand@ == project_modern(sv[i as int]));
            }
            out.push(cand);
        } else {
            proof {
                assert(!valid_mapping(project_modern(sv[i as int])));
            }
        }
        i = i + 1;
    }
    proof {
        assert(sv.take(events@.len() as int) =~= sv);
    }
    out
}

fn candidates_legacy(events: &Vec<Pre2015Event>) -> (r: Vec<RepoIdToName>)
    ensures
        seq_views(r@) == spec_candidates_legacy(seq_views(events@)),
{
    let ghost sv = seq_views(events@);
    let ghost f = legacy_candidate_fn();
    let mut out: Vec<RepoIdToName> = Vec::new();
    let mut i: usize = 0;
    proof {
        assert(sv.take(0) =~= Seq::<Pre2015EventView>::empty());
        assert(seq_views(out@) =~= Seq::<RepoIdToNameView>::empty());
        assert(opt_map(sv.take(0), f) =~= Seq::<RepoIdToNameView>::empty());
    }
    while i < events.len()
        invariant
            i <= events@.len(),
            sv == seq_views(events@),
            f == legacy_candidate_fn(),
            seq_views(out@) == opt_map(sv.take(i as int), f),
        decreases events@.len() - i,
    {
        proof {
            assert(sv.take(i as int + 1).drop_last() =~= sv.take(i as int));
            assert(sv.take(i as int + 1).last() == sv[i as int]);
            assert(sv[i as int] == events@[i as int]@);
        }
        let e = &events[i];
        let repo = e.resolved_repo();
        let ts = e.resolved_timestamp();
        let cand = RepoIdToName { repo_id: repo.id, repo_name: repo.name, event_timestamp: ts };
        if cand.repo_id >= 0 && !cand.repo_name.as_str().is_empty() {
            proof {
                lemma_seq_views_push(out@, cand);
                assert(cand@ == project_legacy(sv[i as int]));
            }
            out.push(cand);
        } else {
            proof {
                assert(cand@ == project_legacy(sv[i as int]));
                assert(!valid_mapping(project_legacy(sv[i as int])));
            }
        }
        i = i + 1;
    }
    proof {
        assert(sv.take(events@.len() as int) =~= sv);
    }
    out
}

/// Reduces a batch of modern events to its repository-id-to-name mapping:
/// one entry per id seen with a usable reference, carrying the name from
/// the most recent contributing event. Entries with a negative id or an
/// empty name never appear.
pub fn repo_id_to_name_mappings(events: &Vec<Event>) -> (r: Vec<RepoIdToName>)
    ensures
        seq_views(r@) == repo_mapping_reduction(spec_candidates_modern(seq_views(events@))),
        is_class_reduction(
            spec_candidates_modern(seq_views(events@)),
            seq_views(r@),
            mapping_le_fn(),
            same_repo_id_fn(),
        ),
        forall|k: int|
            0 <= k < r@.len() ==> (#[trigger] r@[k]@).repo_id >= 0 && r@[k]@.repo_name.len() > 0,
{
    let cands = candidates_modern(events);
    let sorted = sort_mappings(&cands);
    let out = coalesce_mappings(&sorted);
    proof {
        lemma_mapping_order_props();
        let cs = spec_candidates_modern(seq_views(events@));
        lemma_reduce_by_ensures(cs, mapping_le_fn(), same_repo_id_fn());
        lemma_candidates_all_valid_modern(seq_views(events@));
        assert forall|k: int| 0 <= k < seq_views(out@).len() implies valid_mapping(
            #[trigger] seq_views(out@)[k],
        ) by {
            assert(cs.contains(seq_views(out@)[k]));
            let w = choose|w: int| 0 <= w < cs.len() && cs[w] == seq_views(out@)[k];
            assert(valid_mapping(cs[w]));
        }
        assert forall|k: int| 0 <= k < out@.len() implies (#[trigger] out@[k]@).repo_id >= 0
            && out@[k]@.repo_name.len() > 0 by {
            assert(seq_views(out@)[k] == out@[k]@);
            assert(valid_mapping(seq_views(out@)[k]));
        }
    }
    out
}

/// Reduces a batch of legacy events to its repository-id-to-name mapping.
pub fn repo_id_to_name_mappings_old(events: &Vec<Pre2015Event>) -> (r: Vec<RepoIdToName>)
    ensures
        seq_views(r@) == repo_mapping_reduction(spec_candidates_legacy(seq_views(events@))),
        is_class_reduction(
            spec_candidates_legacy(seq_views(events@)),
            seq_views(r@),
            mapping_le_fn(),
            same_repo_id_fn(),
        ),
        forall|k: int|
            0 <= k < r@.len() ==> (#[trigger] r@[k]@).repo_id >= 0 && r@[k]@.repo_name.len() > 0,
{
    let cands = candidates_legacy(events);
    let sorted = sort_mappings(&cands);
    let out = coalesce_mappings(&sorted);
    proof {
        lemma_mapping_order_props();
        let cs = spec_candidates_legacy(seq_views(events@));
        lemma_reduce_by_ensures(cs, mapping_le_fn(), same_repo_id_fn());
        lemma_candidates_all_valid_legacy(seq_views(events@));
        assert forall|k: int| 0 <= k < seq_views(out@).len() implies valid_mapping(
            #[trigger] seq_views(out@)[k],
        ) by {
            assert(cs.contains(seq_views(out@)[k]));
            let w = choose|w: int| 0 <= w < cs.len() && cs[w] == seq_views(out@)[k];
            assert(valid_mapping(cs[w]));
        }
        assert forall|k: int| 0 <= k < out@.len() implies (#[trigger] out@[k]@).repo_id >= 0
            && out@[k]@.repo_name.len() > 0 by {
            assert(seq_views(out@)[k] == out@[k]@);
            assert(valid_mapping(seq_views(out@)[k]));
        }
    }
    out
}

proof fn lemma_candidates_all_valid_modern(s: Seq<EventView>)
    ensures
        forall|w: int|
            0 <= w < spec_candidates_modern(s).len() ==> valid_mapping(
                #[trigger] spec_candidates_modern(s)[w],
            ),
{
    assert forall|w: int| 0 <= w < spec_candidates_modern(s).len() implies valid_mapping(
        #[trigger] spec_candidates_modern(s)[w],
    ) by {
        lemma_opt_map_origin(s, modern_candidate_fn(), w);
    }
}

proof fn lemma_candidates_all_valid_legacy(s: Seq<Pre2015EventView>)
    ensures
        forall|w: int|
            0 <= w < spec_candidates_legacy(s).len() ==> valid_mapping(
                #[trigger] spec_candidates_legacy(s)[w],
            ),
{
    assert forall|w: int| 0 <= w < spec_candidates_legacy(s).len() implies valid_mapping(
        #[trigger] spec_candidates_legacy(s)[w],
    ) by {
        lemma_opt_map_origin(s, legacy_candidate_fn(), w);
    }
}

pub open spec fn commit_record_modern_fn() -> spec_fn(EventView) -> Option<CommitEventView> {
    |e: EventView|
        if spec_is_commit_type(e.event_type) {
            Option::Some(CommitEventView { actor: e.actor, repo: e.repo.name })
        } else {
            Option::None
        }
}

pub open spec fn commit_record_legacy_fn() -> spec_fn(Pre2015EventView) -> Option<
    CommitEventView,
> {
    |e: Pre2015EventView|
        if spec_is_commit_type(e.event_type) {
            Option::Some(
                CommitEventView {
                    actor: match e.actor {
                        Option::Some(a) => a,
                        Option::None => Seq::empty(),
                    },
                    repo: crate::event::spec_legacy_repo(e).name,
                },
            )
        } else {
            Option::None
        }
}

/// The commit records a batch of modern events projects to, in input order.
pub open spec fn spec_commit_records_modern(s: Seq<EventView>) -> Seq<CommitEventView> {
    opt_map(s, commit_record_modern_fn())
}

/// The commit records a batch of legacy events projects to, in input order.
pub open spec fn spec_commit_records_legacy(s: Seq<Pre2015EventView>) -> Seq<CommitEventView> {
    opt_map(s, commit_record_legacy_fn())
}

/// Projects the commit-type events of a modern batch to commit records.
pub fn commit_records_modern(events: &Vec<Event>) -> (r: Vec<CommitEvent>)
    ensures
        seq_views(r@) == spec_commit_records_modern(seq_views(events@)),
{
    let ghost sv = seq_views(events@);
    let ghost f = commit_record_modern_fn();
    let mut out: Vec<CommitEvent> = Vec::new();
    let mut i: usize = 0;
    proof {
        assert(sv.take(0) =~= Seq::<EventView>::empty());
        assert(seq_views(out@) =~= Seq::<CommitEventView>::empty());
        assert(opt_map(sv.take(0), f) =~= Seq::<CommitEventView>::empty());
    }
    while i < events.len()
        invariant
            i <= events@.len(),
            sv == seq_views(events@),
            f == commit_record_modern_fn(),
            seq_views(out@) == opt_map(sv.take(i as int), f),
        decreases events@.len() - i,
    {
        proof {
            assert(sv.take(i as int + 1).drop_last() =~= sv.take(i as int));
            assert(sv.take(i as int + 1).last() == sv[i as int]);
            assert(sv[i as int] == events@[i as int]@);
        }
        let e = &events[i];
        if e.is_commit_event() {
            let record = e.as_commit_event();
            proof {
                lemma_seq_views_push(out@, record);
            }
            out.push(record);
        }
        i = i + 1;
    }
    proof {
        assert(sv.take(events@.len() as int) =~= sv);
    }
    out
}

/// Projects the commit-type events of a legacy batch to commit records.
pub fn commit_records_legacy(events: &Vec<Pre2015Event>) -> (r: Vec<CommitEvent>)
    ensures
        seq_views(r@) == spec_commit_records_legacy(seq_views(events@)),
{
    let ghost sv = seq_views(events@);
    let ghost f = commit_record_legacy_fn();
    let mut out: Vec<CommitEvent> = Vec::new();
    let mut i: usize = 0;
    proof {
        assert(sv.take(0) =~= Seq::<Pre2015EventView>::empty());
        assert(seq_views(out@) =~= Seq::<CommitEventView>::empty());
        assert(opt_map(sv.take(0), f) =~= Seq::<CommitEventView>::empty());
    }
    while i < events.len()
        invariant
            i <= events@.len(),
            sv == seq_views(events@),
            f == commit_record_legacy_fn(),
            seq_views(out@) == opt_map(sv.take(i as int), f),
        decreases events@.len() - i,
    {
        proof {
            assert(sv.take(i as int + 1).drop_last() =~= sv.take(i as int));
            assert(sv.take(i as int + 1).last() == sv[i as int]);
            assert(sv[i as int] == events@[i as int]@);
        }
        let e = &events[i];
        if e.is_commit_event() {
            let record = e.as_commit_event();
            proof {
                lemma_seq_views_push(out@, record);
                assert(record@ == e.spec_commit_record());
            }
            out.push(record);
        }
        i = i + 1;
    }
    proof {
        assert(sv.take(events@.len() as int) =~= sv);
    }
    out
}

/// Law: running the commit-record reduction on its own output changes
/// nothing, so reducing twice equals reducing once.
pub proof fn lemma_commit_reduction_idempotent(s: Seq<CommitEventView>)
    ensures
        commit_reduction(commit_reduction(s)) == commit_reduction(s),
{
    lemma_commit_order_props();
    lemma_reduce_by_idempotent(s, commit_le_fn(), commit_eqv_fn());
}

/// Law: the commit-record reduction depends only on which records occur,
/// not on their order: any shuffle reduces to the same sequence.
pub proof fn lemma_commit_reduction_reorder(s1: Seq<CommitEventView>, s2: Seq<CommitEventView>)
    requires
        s1.to_multiset() == s2.to_multiset(),
    ensures
        commit_reduction(s1) == commit_reduction(s2),
{
    lemma_commit_order_props();
    lemma_reduce_by_same_multiset(s1, s2, commit_le_fn(), commit_eqv_fn());
}

/// Law: shuffling a batch of modern events before the repo-mapping reduction
/// does not change the resulting mapping sequence.
pub proof fn lemma_repo_mapping_reorder(events1: Seq<EventView>, events2: Seq<EventView>)
    requires
        events1.to_multiset() == events2.to_multiset(),
    ensures
        repo_mapping_reduction(spec_candidates_modern(events1)) == repo_mapping_reduction(
            spec_candidates_modern(events2),
        ),
{
    lemma_mapping_order_props();
    lemma_opt_map_multiset(events1, events2, modern_candidate_fn());
    lemma_reduce_by_same_multiset(
        spec_candidates_modern(events1),
        spec_candidates_modern(events2),
        mapping_le_fn(),
        same_repo_id_fn(),
    );
}

/// Law: shuffling a batch of legacy events before the repo-mapping reduction
/// does not change the resulting mapping sequence.
pub proof fn lemma_repo_mapping_reorder_old(
    events1: Seq<Pre2015EventView>,
    events2: Seq<Pre2015EventView>,
)
    requires
        events1.to_multiset() == events2.to_multiset(),
    ensures
        repo_mapping_reduction(spec_candidates_legacy(events1)) == repo_mapping_reduction(
            spec_candidates_legacy(events2),
        ),
{
    lemma_mapping_order_props();
    lemma_opt_map_multiset(events1, events2, legacy_candidate_fn());
    lemma_reduce_by_same_multiset(
        spec_candidates_legacy(events1),
        spec_candidates_legacy(events2),
        mapping_le_fn(),
        same_repo_id_fn(),
    );
}

} // verus!
