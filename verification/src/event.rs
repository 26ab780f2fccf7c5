use vstd::prelude::*;

verus! {

use crate::text::lemma_lex_lt_connected;
use crate::text::lemma_lex_lt_irreflexive;
use crate::text::str_lex_lt;

/// A repository reference as both schema eras carry it.
#[derive(Debug, Clone, PartialEq, Eq)]
pub struct Repo {
    pub id: i64,
    pub name: String,
}

pub struct RepoView {
    pub id: int,
    pub name: Seq<char>,
}

impl View for Repo {
    type V = RepoView;

    open spec fn view(&self) -> RepoView {
        RepoView { id: self.id as int, name: self.name@ }
    }
}

/// A modern-schema event: one canonical repository field and a parsed
/// creation instant, held as seconds since the epoch.
#[derive(Debug, Clone, PartialEq, Eq)]
pub struct Event {
    pub actor: String,
    pub event_type: String,
    pub repo: Repo,
    pub created_at: i64,
}

pub struct EventView {
    pub actor: Seq<char>,
    pub event_type: Seq<char>,
    pub repo: RepoView,
    pub created_at: int,
}

impl View for Event {
    type V = EventView;

    open spec fn view(&self) -> EventView {
        EventView {
            actor: self.actor@,
            event_type: self.event_type@,
            repo: self.repo@,
            created_at: self.created_at as int,
        }
    }
}

/// A legacy-schema event: the repository reference may appear under either
/// of two fields, and the creation timestamp is free-form text.
#[derive(Debug, Clone, PartialEq, Eq)]
pub struct Pre2015Event {
    pub actor: Option<String>,
    pub event_type: String,
    pub repo: Option<Repo>,
    pub repository: Option<Repo>,
    pub created_at: String,
}

pub struct Pre2015EventView {
    pub actor: Option<Seq<char>>,
    pub event_type: Seq<char>,
    pub repo: Option<RepoView>,
    pub repository: Option<RepoView>,
    pub created_at: Seq<char>,
}

impl View for Pre2015Event {
    type V = Pre2015EventView;

    open spec fn view(&self) -> Pre2015EventView {
        Pre2015EventView {
            actor: match self.actor {
                Option::Some(a) => Option::Some(a@),
                Option::None => Option::None,
            },
            event_type: self.event_type@,
            repo: match self.repo {
                Option::Some(r) => Option::Some(r@),
                Option::None => Option::None,
            },
            repository: match self.repository {
                Option::Some(r) => Option::Some(r@),
                Option::None => Option::None,
            },
            created_at: self.created_at@,
        }
    }
}

/// The canonical projection of a commit-type event; two commit records
/// are duplicates exactly when both fields agree.
#[derive(Debug, Clone, PartialEq, Eq)]
pub struct CommitEvent {
    pub actor: String,
    pub repo: String,
}

#[verifier::ext_equal]
pub struct CommitEventView {
    pub actor: Seq<char>,
    pub repo: Seq<char>,
}

impl View for CommitEvent {
    type V = CommitEventView;

    open spec fn view(&self) -> CommitEventView {
        CommitEventView { actor: self.actor@, repo: self.repo@ }
    }
}

/// The best-known name for a repository id as of the most recent
/// contributing event.
#[derive(Debug, Clone, PartialEq, Eq)]
pub struct RepoIdToName {
    pub repo_id: i64,
    pub repo_name: String,
    pub event_timestamp: i64,
}

#[verifier::ext_equal]
pub struct RepoIdToNameView {
    pub repo_id: int,
    pub repo_name: Seq<char>,
    pub event_timestamp: int,
}

impl View for RepoIdToName {
    type V = RepoIdToNameView;

    open spec fn view(&self) -> RepoIdToNameView {
        RepoIdToNameView {
            repo_id: self.repo_id as int,
            repo_name: self.repo_name@,
            event_timestamp: self.event_timestamp as int,
        }
    }
}

/// The view sequence of a sequence of values.
pub open spec fn seq_views<T: View>(s: Seq<T>) -> Seq<T::V> {
    s.map_values(|t: T| t@)
}

/// Equality of two string slices, decided through the lexicographic order.
pub fn str_eq(a: &str, b: &str) -> (r: bool)
    ensures
        r == (a@ == b@),
{
    proof {
        lemma_lex_lt_connected(a@, b@);
        lemma_lex_lt_irreflexive(a@);
    }
    !str_lex_lt(a, b) && !str_lex_lt(b, a)
}

/// An event counts as a commit action when its type is the push type.
pub open spec fn spec_is_commit_type(t: Seq<char>) -> bool {
    t == "PushEvent"@
}

/// The instant named by an unparsable legacy timestamp:
/// 2011-01-01T12:00:09Z in epoch seconds, early enough to lose every tie.
pub const LEGACY_FALLBACK_EPOCH: i64 = 1293883209;

pub uninterp spec fn rfc3339_of(s: Seq<char>) -> Option<int>;

/// Relies on chrono's `DateTime::parse_from_rfc3339` and `DateTime::timestamp`:
/// the parsed instant, in seconds since the epoch, is a function of the text alone.
#[verifier::external_body]
fn parse_rfc3339_epoch(s: &str) -> (r: Option<i64>)
    ensures
        match r {
            Option::Some(t) => rfc3339_of(s@) == Option::Some(t as int),
            Option::None => rfc3339_of(s@) is None,
        },
{
    chrono::DateTime::parse_from_rfc3339(s).ok().map(|t| t.timestamp())
}

/// Parses an RFC 3339 timestamp to seconds since the epoch.
pub fn parse_event_timestamp(s: &str) -> (r: Option<i64>)
    ensures
        match r {
            Option::Some(t) => rfc3339_of(s@) == Option::Some(t as int),
            Option::None => rfc3339_of(s@) is None,
        },
{
    parse_rfc3339_epoch(s)
}

/// The instant a legacy timestamp denotes; unparsable text is de-prioritized,
/// not rejected.
pub open spec fn spec_legacy_timestamp(created_at: Seq<char>) -> int {
    match rfc3339_of(created_at) {
        Option::Some(t) => t,
        Option::None => LEGACY_FALLBACK_EPOCH as int,
    }
}

impl CommitEvent {
    /// A field-for-field copy whose view is the same.
    pub fn duplicate(&self) -> (r: CommitEvent)
        ensures
            r@ == self@,
    {
        CommitEvent { actor: self.actor.clone(), repo: self.repo.clone() }
    }
}

impl RepoIdToName {
    /// A field-for-field copy whose view is the same.
    pub fn duplicate(&self) -> (r: RepoIdToName)
        ensures
            r@ == self@,
    {
        RepoIdToName {
            repo_id: self.repo_id,
            repo_name: self.repo_name.clone(),
            event_timestamp: self.event_timestamp,
        }
    }
}

impl Repo {
    /// A field-for-field copy whose view is the same.
    pub fn duplicate(&self) -> (r: Repo)
        ensures
            r@ == self@,
    {
        Repo { id: self.id, name: self.name.clone() }
    }
}

impl Event {
    pub open spec fn spec_is_commit_event(&self) -> bool {
        spec_is_commit_type(self.event_type@)
    }

    /// Whether this event records a commit action.
    pub fn is_commit_event(&self) -> (r: bool)
        ensures
            r == self.spec_is_commit_event(),
    {
        str_eq(self.event_type.as_str(), "PushEvent")
    }

    pub open spec fn spec_commit_record(&self) -> CommitEventView {
        CommitEventView { actor: self.actor@, repo: self.repo.name@ }
    }

    /// Projects the event to its canonical commit record.
    pub fn as_commit_event(&self) -> (r: CommitEvent)
        ensures
            r@ == self.spec_commit_record(),
    {
        CommitEvent { actor: self.actor.clone(), repo: self.repo.name.clone() }
    }
}

/// The repository reference a legacy event resolves to: the first-named
/// field, then the alternate, then the excluded-marker reference.
pub open spec fn spec_legacy_repo(e: Pre2015EventView) -> RepoView {
    match e.repo {
        Option::Some(r) => r,
        Option::None => match e.repository {
            Option::Some(r) => r,
            Option::None => RepoView { id: -1, name: Seq::empty() },
        },
    }
}

impl Pre2015Event {
    pub open spec fn spec_is_commit_event(&self) -> bool {
        spec_is_commit_type(self.event_type@)
    }

    /// Whether this event records a commit action.
    pub fn is_commit_event(&self) -> (r: bool)
        ensures
            r == self.spec_is_commit_event(),
    {
        str_eq(self.event_type.as_str(), "PushEvent")
    }

    /// Resolves the repository reference of this event.
    pub fn resolved_repo(&self) -> (r: Repo)
        ensures
            r@ == spec_legacy_repo(self@),
    {
        match &self.repo {
            Option::Some(r) => r.duplicate(),
            Option::None => match &self.repository {
                Option::Some(r) => r.duplicate(),
                Option::None => Repo { id: -1, name: String::new() },
            },
        }
    }

    /// The instant this event's timestamp text denotes, with the fallback.
    pub fn resolved_timestamp(&self) -> (r: i64)
        ensures
            r as int == spec_legacy_timestamp(self.created_at@),
    {
        match parse_rfc3339_epoch(self.created_at.as_str()) {
            Option::Some(t) => t,
            Option::None => LEGACY_FALLBACK_EPOCH,
        }
    }

    pub open spec fn spec_commit_record(&self) -> CommitEventView {
        CommitEventView {
            actor: match self@.actor {
                Option::Some(a) => a,
                Option::None => Seq::empty(),
            },
            repo: spec_legacy_repo(self@).name,
        }
    }

    /// Projects the event to its canonical commit record.
    pub fn as_commit_event(&self) -> (r: CommitEvent)
        ensures
            r@ == self.spec_commit_record(),
    {
        let actor = match &self.actor {
            Option::Some(a) => a.clone(),
            Option::None => String::new(),
        };
        let repo = self.resolved_repo();
        CommitEvent { actor, repo: repo.name }
    }
}

/// The repo-mapping candidate a modern event contributes.
pub open spec fn project_modern(e: EventView) -> RepoIdToNameView {
    RepoIdToNameView {
        repo_id: e.repo.id,
        repo_name: e.repo.name,
        event_timestamp: e.created_at,
    }
}

/// The repo-mapping candidate a legacy event contributes.
pub open spec fn project_legacy(e: Pre2015EventView) -> RepoIdToNameView {
    RepoIdToNameView {
        repo_id: spec_legacy_repo(e).id,
        repo_name: spec_legacy_repo(e).name,
        event_timestamp: spec_legacy_timestamp(e.created_at),
    }
}

/// The fields a modern-schema line decodes to, before its timestamp is parsed.
pub struct ModernFields {
    pub actor: String,
    pub event_type: String,
    pub repo_id: i64,
    pub repo_name: String,
    pub created_at: String,
}

pub struct ModernFieldsView {
    pub actor: Seq<char>,
    pub event_type: Seq<char>,
    pub repo_id: int,
    pub repo_name: Seq<char>,
    pub created_at: Seq<char>,
}

impl View for ModernFields {
    type V = ModernFieldsView;

    open spec fn view(&self) -> ModernFieldsView {
        ModernFieldsView {
            actor: self.actor@,
            event_type: self.event_type@,
            repo_id: self.repo_id as int,
            repo_name: self.repo_name@,
            created_at: self.created_at@,
        }
    }
}

pub uninterp spec fn modern_decode_of(line: Seq<char>) -> Option<ModernFieldsView>;

/// Relies on serde_json::from_str: the structured decode of one line of
/// JSON in the modern event shape is a function of the text alone.
#[verifier::external_body]
fn decode_modern_line(line: &str) -> (r: Option<ModernFields>)
    ensures
        match r {
            Option::Some(f) => modern_decode_of(line@) == Option::Some(f@),
            Option::None => modern_decode_of(line@) is None,
        },
{
    let v: serde_json::Value = serde_json::from_str(line).ok()?;
    Some(ModernFields {
        actor: v.get("actor")?.get("login")?.as_str()?.to_string(),
        event_type: v.get("type")?.as_str()?.to_string(),
        repo_id: v.get("repo")?.get("id")?.as_i64()?,
        repo_name: v.get("repo")?.get("name")?.as_str()?.to_string(),
        created_at: v.get("created_at")?.as_str()?.to_string(),
    })
}

pub uninterp spec fn legacy_decode_of(line: Seq<char>) -> Option<Pre2015EventView>;

/// Relies on serde_json::from_str: the structured decode of one line of
/// JSON in the legacy event shape is a function of the text alone.
#[verifier::external_body]
fn decode_legacy_line(line: &str) -> (r: Option<Pre2015Event>)
    ensures
        match r {
            Option::Some(e) => legacy_decode_of(line@) == Option::Some(e@),
            Option::None => legacy_decode_of(line@) is None,
        },
{
    let v: serde_json::Value = serde_json::from_str(line).ok()?;
    let repo_at = |k: &str| {
        let r = v.get(k)?;
        Some(Repo { id: r.get("id")?.as_i64()?, name: r.get("name")?.as_str()?.to_string() })
    };
    Some(Pre2015Event {
        actor: v.get("actor").and_then(|a| Some(a.as_str()?.to_string())),
        event_type: v.get("type")?.as_str()?.to_string(),
        repo: repo_at("repo"),
        repository: repo_at("repository"),
        created_at: v.get("created_at")?.as_str()?.to_string(),
    })
}

/// The modern event a line of text denotes, if any: the structured decode,
/// with its creation timestamp parsed.
pub open spec fn spec_modern_event(line: Seq<char>) -> Option<EventView> {
    match modern_decode_of(line) {
        Option::Some(f) => match rfc3339_of(f.created_at) {
            Option::Some(t) => Option::Some(
                EventView {
                    actor: f.actor,
                    event_type: f.event_type,
                    repo: RepoView { id: f.repo_id, name: f.repo_name },
                    created_at: t,
                },
            ),
            Option::None => Option::None,
        },
        Option::None => Option::None,
    }
}

/// Decodes one line of the modern schema; malformed lines yield nothing.
pub fn parse_modern_line(line: &str) -> (r: Option<Event>)
    ensures
        match r {
            Option::Some(e) => spec_modern_event(line@) == Option::Some(e@),
            Option::None => spec_modern_event(line@) is None,
        },
{
    match decode_modern_line(line) {
        Option::Some(f) => match parse_rfc3339_epoch(f.created_at.as_str()) {
            Option::Some(t) => Option::Some(
                Event {
                    actor: f.actor,
                    event_type: f.event_type,
                    repo: Repo { id: f.repo_id, name: f.repo_name },
                    created_at: t,
                },
            ),
            Option::None => Option::None,
        },
        Option::None => Option::None,
    }
}

/// Decodes one line of the legacy schema; malformed lines yield nothing.
pub fn parse_legacy_line(line: &str) -> (r: Option<Pre2015Event>)
    ensures
        match r {
            Option::Some(e) => legacy_decode_of(line@) == Option::Some(e@),
            Option::None => legacy_decode_of(line@) is None,
        },
{
    decode_legacy_line(line)
}

} // verus!
