use vstd::prelude::*;

verus! {

use vstd::string::StringExecFns;
use crate::ProcessingMode;
use crate::event::CommitEvent;
use crate::event::CommitEventView;
use crate::event::Event;
use crate::event::Pre2015Event;
use crate::event::RepoIdToName;
use crate::event::RepoIdToNameView;
use crate::event::seq_views;
use crate::aggregate::commit_records_legacy;
use crate::aggregate::commit_records_modern;
use crate::aggregate::commit_reduction;
use crate::aggregate::reduce_commit_events;
use crate::aggregate::repo_id_to_name_mappings;
use crate::aggregate::repo_id_to_name_mappings_old;
use crate::aggregate::repo_mapping_reduction;
use crate::aggregate::spec_candidates_legacy;
use crate::aggregate::spec_candidates_modern;
use crate::aggregate::spec_commit_records_legacy;
use crate::aggregate::spec_commit_records_modern;
use crate::parse::BatchError;
use crate::parse::parse_legacy_file;
use crate::parse::parse_modern_file;
use crate::parse::gunzip_text_of;
use crate::parse::spec_legacy_file_events;
use crate::parse::spec_modern_file_events;
use crate::spec_uses_legacy_schema;
use crate::text::i64_to_dec;
use crate::text::spec_dec_int;
use crate::uses_legacy_schema;

/// One pseudo-SQL row for a commit record.
pub open spec fn spec_commit_row(c: CommitEventView) -> Seq<char> {
    "INSERT INTO committers (actor_name, repo_name) VALUES ('"@ + c.actor + "', '"@ + c.repo
        + "');\n"@
}

/// One pseudo-SQL row for a repository mapping.
pub open spec fn spec_mapping_row(m: RepoIdToNameView) -> Seq<char> {
    "INSERT INTO repo_mappings (repo_id, repo_name, event_timestamp) VALUES ("@ + spec_dec_int(
        m.repo_id,
    ) + ", '"@ + m.repo_name + "', "@ + spec_dec_int(m.event_timestamp) + ");\n"@
}

/// The rows of a commit-record sequence, concatenated.
pub open spec fn spec_commit_rows(s: Seq<CommitEventView>) -> Seq<char>
    decreases s.len(),
{
    if s.len() == 0 {
        Seq::empty()
    } else {
        spec_commit_rows(s.drop_last()) + spec_commit_row(s.last())
    }
}

/// The rows of a mapping sequence, concatenated.
pub open spec fn spec_mapping_rows(s: Seq<RepoIdToNameView>) -> Seq<char>
    decreases s.len(),
{
    if s.len() == 0 {
        Seq::empty()
    } else {
        spec_mapping_rows(s.drop_last()) + spec_mapping_row(s.last())
    }
}

/// Renders one commit record as its row.
pub fn commit_row(c: &CommitEvent) -> (r: String)
    ensures
        r@ == spec_commit_row(c@),
{
    let mut s = String::from_str("INSERT INTO committers (actor_name, repo_name) VALUES ('");
    s.append(c.actor.as_str());
    s.append("', '");
    s.append(c.repo.as_str());
    s.append("');\n");
    s
}

/// Renders one repository mapping as its row.
pub fn mapping_row(m: &RepoIdToName) -> (r: String)
    ensures
        r@ == spec_mapping_row(m@),
{
    let mut s = String::from_str(
        "INSERT INTO repo_mappings (repo_id, repo_name, event_timestamp) VALUES (",
    );
    let id = i64_to_dec(m.repo_id);
    s.append(id.as_str());
    s.append(", '");
    s.append(m.repo_name.as_str());
    s.append("', ");
    let ts = i64_to_dec(m.event_timestamp);
    s.append(ts.as_str());
    s.append(");\n");
    s
}

/// Serializes commit records to newline-delimited rows.
pub fn commit_rows(records: &Vec<CommitEvent>) -> (r: String)
    ensures
        r@ == spec_commit_rows(seq_views(records@)),
{
    let ghost sv = seq_views(records@);
    let mut s = String::new();
    let mut i: usize = 0;
    proof {
        assert(sv.take(0) =~= Seq::<CommitEventView>::empty());
        assert(spec_commit_rows(sv.take(0)) =~= Seq::<char>::empty());
    }
    while i < records.len()
        invariant
            i <= records@.len(),
            sv == seq_views(records@),
            s@ == spec_commit_rows(sv.take(i as int)),
        decreases records@.len() - i,
    {
        let row = commit_row(&records[i]);
        proof {
            assert(sv.take(i as int + 1).drop_last() =~= sv.take(i as int));
            assert(sv.take(i as int + 1).last() == sv[i as int]);
            assert(sv[i as int] == records@[i as int]@);
        }
        s.append(row.as_str());
        i = i + 1;
    }
    proof {
        assert(sv.take(records@.len() as int) =~= sv);
    }
    s
}

/// Serializes repository mappings to newline-delimited rows.
pub fn mapping_rows(mappings: &Vec<RepoIdToName>) -> (r: String)
    ensures
        r@ == spec_mapping_rows(seq_views(mappings@)),
{
    let ghost sv = seq_views(mappings@);
    let mut s = String::new();
    let mut i: usize = 0;
    proof {
        assert(sv.take(0) =~= Seq::<RepoIdToNameView>::empty());
        assert(spec_mapping_rows(sv.take(0)) =~= Seq::<char>::empty());
    }
    while i < mappings.len()
        invariant
            i <= mappings@.len(),
            sv == seq_views(mappings@),
            s@ == spec_mapping_rows(sv.take(i as int)),
        decreases mappings@.len() - i,
    {
        let row = mapping_row(&mappings[i]);
        proof {
            assert(sv.take(i as int + 1).drop_last() =~= sv.take(i as int));
            assert(sv.take(i as int + 1).last() == sv[i as int]);
            assert(sv[i as int] == mappings@[i as int]@);
        }
        s.append(row.as_str());
        i = i + 1;
    }
    proof {
        assert(sv.take(mappings@.len() as int) =~= sv);
    }
    s
}

/// The processing mode's name, as it appears in destination keys.
pub fn generate_mode_string(mode: &ProcessingMode) -> (r: String)
    ensures
        mode is CommitterCount ==> r@ == "committers"@,
        mode is RepoMapping ==> r@ == "repomapping"@,
{
    match mode {
        ProcessingMode::CommitterCount => String::from_str("committers"),
        ProcessingMode::RepoMapping => String::from_str("repomapping"),
    }
}

pub uninterp spec fn md5_hex_of(s: Seq<char>) -> Seq<char>;

/// Relies on md5::compute and the crate's lower-hex rendering of a digest:
/// the 32-character hex digest is a function of the text alone.
#[verifier::external_body]
fn md5_hex(payload: &str) -> (r: String)
    ensures
        r@ == md5_hex_of(payload@),
        r@.len() == 32,
{
    format!("{:x}", md5::compute(payload.as_bytes()))
}

pub uninterp spec fn gzip_of(s: Seq<char>) -> Seq<u8>;

/// Relies on flate2's write::GzEncoder at the default compression level:
/// the compressed bytes are a function of the text alone.
#[verifier::external_body]
pub fn gzip_compress(payload: &str) -> (r: Vec<u8>)
    ensures
        r@ == gzip_of(payload@),
{
    let mut encoder = flate2::write::GzEncoder::new(Vec::new(), flate2::Compression::default());
    std::io::Write::write_all(&mut encoder, payload.as_bytes()).expect(
        "in-memory gzip write cannot fail",
    );
    encoder.finish().expect("in-memory gzip finish cannot fail")
}

/// The content-addressed destination key for committer-count output.
pub open spec fn spec_committer_key(year: int, payload: Seq<char>) -> Seq<char> {
    "rvh/"@ + "committers"@ + "/"@ + spec_dec_int(year) + "/"@ + md5_hex_of(payload) + ".txt.gz"@
}

/// The content-addressed destination key for repo-mapping output.
pub open spec fn spec_mapping_key(payload: Seq<char>) -> Seq<char> {
    "rvh/"@ + "repomapping"@ + "/"@ + md5_hex_of(payload)
}

/// Derives the destination key for a committer-count payload.
pub fn committer_key(year: i64, payload: &str) -> (r: String)
    ensures
        r@ == spec_committer_key(year as int, payload@),
{
    let mut s = String::from_str("rvh/");
    let mode = generate_mode_string(&ProcessingMode::CommitterCount);
    s.append(mode.as_str());
    s.append("/");
    let y = i64_to_dec(year);
    s.append(y.as_str());
    s.append("/");
    let h = md5_hex(payload);
    s.append(h.as_str());
    s.append(".txt.gz");
    s
}

/// Derives the destination key for a repo-mapping payload.
pub fn mapping_key(payload: &str) -> (r: String)
    ensures
        r@ == spec_mapping_key(payload@),
{
    let mut s = String::from_str("rvh/");
    let mode = generate_mode_string(&ProcessingMode::RepoMapping);
    s.append(mode.as_str());
    s.append("/");
    let h = md5_hex(payload);
    s.append(h.as_str());
    s
}

/// One serialized aggregate, addressed to its destination.
pub struct WorkItem {
    pub sql: String,
    pub s3_bucket_name: String,
    pub s3_file_location: String,
    pub no_more_work: bool,
}

/// Builds the committer-count artifact for a batch's commit records:
/// the reduced records' rows, under their content-addressed key.
pub fn build_committer_artifact(records: &Vec<CommitEvent>, year: i64, dest_bucket: &str) -> (r:
    WorkItem)
    ensures
        r.sql@ == spec_commit_rows(commit_reduction(seq_views(records@))),
        r.s3_file_location@ == spec_committer_key(year as int, r.sql@),
        r.s3_bucket_name@ == dest_bucket@,
        !r.no_more_work,
{
    let reduced = reduce_commit_events(records);
    let sql = commit_rows(&reduced);
    let key = committer_key(year, sql.as_str());
    WorkItem {
        sql,
        s3_bucket_name: dest_bucket.to_owned(),
        s3_file_location: key,
        no_more_work: false,
    }
}

/// Builds the repo-mapping artifact for a batch's reduced mappings.
pub fn build_mapping_artifact(mappings: &Vec<RepoIdToName>, dest_bucket: &str) -> (r: WorkItem)
    ensures
        r.sql@ == spec_mapping_rows(seq_views(mappings@)),
        r.s3_file_location@ == spec_mapping_key(r.sql@),
        r.s3_bucket_name@ == dest_bucket@,
        !r.no_more_work,
{
    let sql = mapping_rows(mappings);
    let key = mapping_key(sql.as_str());
    WorkItem {
        sql,
        s3_bucket_name: dest_bucket.to_owned(),
        s3_file_location: key,
        no_more_work: false,
    }
}

/// Compresses an artifact's payload for upload.
pub fn compress_artifact(item: &WorkItem) -> (r: Vec<u8>)
    ensures
        r@ == gzip_of(item.sql@),
{
    gzip_compress(item.sql.as_str())
}

/// The modern events of a whole batch of decompressed archives, in batch
/// order, taking each archive that decompresses and nothing from one that
/// does not.
pub open spec fn spec_batch_events_modern(ps: Seq<Seq<u8>>) -> Seq<crate::event::EventView>
    decreases ps.len(),
{
    if ps.len() == 0 {
        Seq::empty()
    } else {
        spec_batch_events_modern(ps.drop_last()) + match spec_modern_file_events(ps.last()) {
            Option::Some(evs) => evs,
            Option::None => Seq::empty(),
        }
    }
}

/// The legacy events of a whole batch of decompressed archives.
pub open spec fn spec_batch_events_legacy(ps: Seq<Seq<u8>>) -> Seq<crate::event::Pre2015EventView>
    decreases ps.len(),
{
    if ps.len() == 0 {
        Seq::empty()
    } else {
        spec_batch_events_legacy(ps.drop_last()) + match spec_legacy_file_events(ps.last()) {
            Option::Some(evs) => evs,
            Option::None => Seq::empty(),
        }
    }
}

/// Parses a batch of fetched archives as modern events, accumulating the
/// events in batch order and counting skipped lines; the first archive
/// that fails to decompress fails the whole batch.
pub fn parse_modern_batch(payloads: &Vec<Vec<u8>>) -> (r: Result<(Vec<Event>, usize), BatchError>)
    ensures
        (r is Ok) == (forall|i: int|
            0 <= i < payloads@.len() ==> gunzip_text_of(#[trigger] payloads@[i]@) is Some),
        r matches Result::Ok((events, _)) ==> seq_views(events@) == spec_batch_events_modern(
            seq_views(payloads@),
        ),
{
    let ghost pv = seq_views(payloads@);
    let mut events: Vec<Event> = Vec::new();
    let mut skipped: usize = 0;
    let mut i: usize = 0;
    proof {
        assert(pv.take(0) =~= Seq::<Seq<u8>>::empty());
        assert(seq_views(events@) =~= Seq::<crate::event::EventView>::empty());
        assert(spec_batch_events_modern(pv.take(0)) =~= Seq::<crate::event::EventView>::empty());
    }
    while i < payloads.len()
        invariant
            i <= payloads@.len(),
            pv == seq_views(payloads@),
            seq_views(events@) == spec_batch_events_modern(pv.take(i as int)),
            forall|k: int| 0 <= k < i ==> gunzip_text_of(#[trigger] payloads@[k]@) is Some,
        decreases payloads@.len() - i,
    {
        proof {
            assert(pv.take(i as int + 1).drop_last() =~= pv.take(i as int));
            assert(pv.take(i as int + 1).last() == pv[i as int]);
            assert(pv[i as int] == payloads@[i as int]@);
        }
        match parse_modern_file(&payloads[i]) {
            Result::Ok((mut file_events, file_skipped)) => {
                proof {
                    let ghost alhs = seq_views(events@ + file_events@);
                    let ghost arhs = seq_views(events@) + seq_views(file_events@);
                    assert(alhs =~= arhs);
                }
                events.append(&mut file_events);
                skipped = if skipped <= usize::MAX - file_skipped {
                    skipped + file_skipped
                } else {
                    usize::MAX
                };
            },
            Result::Err(e) => {
                return Result::Err(e);
            },
        }
        i = i + 1;
    }
    proof {
        assert(pv.take(payloads@.len() as int) =~= pv);
    }
    Result::Ok((events, skipped))
}

/// Parses a batch of fetched archives as legacy events.
pub fn parse_legacy_batch(payloads: &Vec<Vec<u8>>) -> (r: Result<
    (Vec<Pre2015Event>, usize),
    BatchError,
>)
    ensures
        (r is Ok) == (forall|i: int|
            0 <= i < payloads@.len() ==> gunzip_text_of(#[trigger] payloads@[i]@) is Some),
        r matches Result::Ok((events, _)) ==> seq_views(events@) == spec_batch_events_legacy(
            seq_views(payloads@),
        ),
{
    let ghost pv = seq_views(payloads@);
    let mut events: Vec<Pre2015Event> = Vec::new();
    let mut skipped: usize = 0;
    let mut i: usize = 0;
    proof {
        assert(pv.take(0) =~= Seq::<Seq<u8>>::empty());
        assert(seq_views(events@) =~= Seq::<crate::event::Pre2015EventView>::empty());
        let ghost none0 = spec_batch_events_legacy(pv.take(0));
        assert(none0 =~= Seq::<crate::event::Pre2015EventView>::empty());
    }
    while i < payloads.len()
        invariant
            i <= payloads@.len(),
            pv == seq_views(payloads@),
            seq_views(events@) == spec_batch_events_legacy(pv.take(i as int)),
            forall|k: int| 0 <= k < i ==> gunzip_text_of(#[trigger] payloads@[k]@) is Some,
        decreases payloads@.len() - i,
    {
        proof {
            assert(pv.take(i as int + 1).drop_last() =~= pv.take(i as int));
            assert(pv.take(i as int + 1).last() == pv[i as int]);
            assert(pv[i as int] == payloads@[i as int]@);
        }
        match parse_legacy_file(&payloads[i]) {
            Result::Ok((mut file_events, file_skipped)) => {
                proof {
                    let ghost alhs = seq_views(events@ + file_events@);
                    let ghost arhs = seq_views(events@) + seq_views(file_events@);
                    assert(alhs =~= arhs);
                }
                events.append(&mut file_events);
                skipped = if skipped <= usize::MAX - file_skipped {
                    skipped + file_skipped
                } else {
                    usize::MAX
                };
            },
            Result::Err(e) => {
                return Result::Err(e);
            },
        }
        i = i + 1;
    }
    proof {
        assert(pv.take(payloads@.len() as int) =~= pv);
    }
    Result::Ok((events, skipped))
}

/// The committer-count payload a batch of archives reduces to, by era.
pub open spec fn spec_committer_batch_sql(year: int, ps: Seq<Seq<u8>>) -> Seq<char> {
    if spec_uses_legacy_schema(year as i64) {
        spec_commit_rows(
            commit_reduction(spec_commit_records_legacy(spec_batch_events_legacy(ps))),
        )
    } else {
        spec_commit_rows(
            commit_reduction(spec_commit_records_modern(spec_batch_events_modern(ps))),
        )
    }
}

/// The repo-mapping payload a batch of archives reduces to, by era.
pub open spec fn spec_mapping_batch_sql(year: int, ps: Seq<Seq<u8>>) -> Seq<char> {
    if spec_uses_legacy_schema(year as i64) {
        spec_mapping_rows(
            repo_mapping_reduction(spec_candidates_legacy(spec_batch_events_legacy(ps))),
        )
    } else {
        spec_mapping_rows(
            repo_mapping_reduction(spec_candidates_modern(spec_batch_events_modern(ps))),
        )
    }
}

/// Runs one committer-count batch: decompress and parse every archive in
/// the era the year selects, project and reduce the commit records, and
/// address the rows by content hash. Fails only when an archive fails to
/// decompress.
pub fn run_committer_batch(payloads: &Vec<Vec<u8>>, year: i64, dest_bucket: &str) -> (r: Result<
    (WorkItem, usize),
    BatchError,
>)
    ensures
        (r is Ok) == (forall|i: int|
            0 <= i < payloads@.len() ==> gunzip_text_of(#[trigger] payloads@[i]@) is Some),
        r matches Result::Ok((item, _)) ==> {
            &&& item.sql@ == spec_committer_batch_sql(year as int, seq_views(payloads@))
            &&& item.s3_file_location@ == spec_committer_key(year as int, item.sql@)
            &&& item.s3_bucket_name@ == dest_bucket@
            &&& !item.no_more_work
        },
{
    if uses_legacy_schema(year) {
        match parse_legacy_batch(payloads) {
            Result::Ok((events, skipped)) => {
                let records = commit_records_legacy(&events);
                let item = build_committer_artifact(&records, year, dest_bucket);
                Result::Ok((item, skipped))
            },
            Result::Err(e) => Result::Err(e),
        }
    } else {
        match parse_modern_batch(payloads) {
            Result::Ok((events, skipped)) => {
                let records = commit_records_modern(&events);
                let item = build_committer_artifact(&records, year, dest_bucket);
                Result::Ok((item, skipped))
            },
            Result::Err(e) => Result::Err(e),
        }
    }
}

/// Runs one repo-mapping batch: decompress and parse every archive in the
/// era the year selects, reduce to one mapping per repository id, and
/// address the rows by content hash.
pub fn run_repo_mapping_batch(payloads: &Vec<Vec<u8>>, year: i64, dest_bucket: &str) -> (r: Result<
    (WorkItem, usize),
    BatchError,
>)
    ensures
        (r is Ok) == (forall|i: int|
            0 <= i < payloads@.len() ==> gunzip_text_of(#[trigger] payloads@[i]@) is Some),
        r matches Result::Ok((item, _)) ==> {
            &&& item.sql@ == spec_mapping_batch_sql(year as int, seq_views(payloads@))
            &&& item.s3_file_location@ == spec_mapping_key(item.sql@)
            &&& item.s3_bucket_name@ == dest_bucket@
            &&& !item.no_more_work
        },
{
    if uses_legacy_schema(year) {
        match parse_legacy_batch(payloads) {
            Result::Ok((events, skipped)) => {
                let mappings = repo_id_to_name_mappings_old(&events);
                let item = build_mapping_artifact(&mappings, dest_bucket);
                Result::Ok((item, skipped))
            },
            Result::Err(e) => Result::Err(e),
        }
    } else {
        match parse_modern_batch(payloads) {
            Result::Ok((events, skipped)) => {
                let mappings = repo_id_to_name_mappings(&events);
                let item = build_mapping_artifact(&mappings, dest_bucket);
                Result::Ok((item, skipped))
            },
            Result::Err(e) => Result::Err(e),
        }
    }
}

} // verus!
