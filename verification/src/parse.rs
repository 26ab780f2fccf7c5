use vstd::prelude::*;

verus! {

use vstd::string::StrSliceExecFns;
use crate::event::Event;
use crate::event::EventView;
use crate::event::Pre2015Event;
use crate::event::Pre2015EventView;
use crate::event::legacy_decode_of;
use crate::event::parse_legacy_line;
use crate::event::parse_modern_line;
use crate::event::seq_views;
use crate::event::spec_modern_event;
use crate::order::opt_map;
use crate::text::lemma_char_eq_u32;

/// Splitting text on newlines, with `cur` the partial line read so far.
pub open spec fn split_lines_rec(s: Seq<char>, cur: Seq<char>) -> Seq<Seq<char>>
    decreases s.len(),
{
    if s.len() == 0 {
        if cur.len() == 0 {
            Seq::empty()
        } else {
            seq![cur]
        }
    } else if s[0] == '\n' {
        seq![cur] + split_lines_rec(s.drop_first(), Seq::empty())
    } else {
        split_lines_rec(s.drop_first(), cur.push(s[0]))
    }
}

/// The lines of a text: maximal runs between newlines, the final run kept
/// when it is not empty.
pub open spec fn split_lines(s: Seq<char>) -> Seq<Seq<char>> {
    split_lines_rec(s, Seq::empty())
}

/// Splits a text into its lines.
pub fn split_text_lines(text: &str) -> (r: Vec<String>)
    ensures
        seq_views(r@) == split_lines(text@),
{
    let n = text.unicode_len();
    let mut out: Vec<String> = Vec::new();
    let mut i: usize = 0;
    let mut start: usize = 0;
    proof {
        assert(text@.skip(0) =~= text@);
        assert(text@.subrange(0, 0) =~= Seq::<char>::empty());
        assert(seq_views(out@) =~= Seq::<Seq<char>>::empty());
        let ghost whole = Seq::<Seq<char>>::empty() + split_lines_rec(text@, Seq::empty());
        assert(whole =~= split_lines(text@));
    }
    while i < n
        invariant
            start <= i <= n,
            n == text@.len(),
            split_lines(text@) == seq_views(out@) + split_lines_rec(
                text@.skip(i as int),
                text@.subrange(start as int, i as int),
            ),
        decreases n - i,
    {
        let c = text.get_char(i);
        proof {
            lemma_char_eq_u32(c, '\n');
            assert(text@.skip(i as int)[0] == text@[i as int]);
            assert(text@.skip(i as int).drop_first() =~= text@.skip(i as int + 1));
        }
        if c as u32 == '\n' as u32 {
            let line = text.substring_char(start, i).to_owned();
            proof {
                assert(line@ == text@.subrange(start as int, i as int));
                assert(seq_views(out@.push(line)) =~= seq_views(out@).push(line@));
                let tail = split_lines_rec(text@.skip(i as int + 1), Seq::empty());
                let nlhs = seq_views(out@) + (seq![line@] + tail);
                assert(nlhs =~= seq_views(out@).push(line@) + tail);
                assert(text@.subrange(i as int + 1, i as int + 1) =~= Seq::<char>::empty());
            }
            out.push(line);
            start = i + 1;
        } else {
            proof {
                let slhs = text@.subrange(start as int, i as int).push(text@[i as int]);
                assert(slhs =~= text@.subrange(start as int, i as int + 1));
            }
        }
        i = i + 1;
    }
    proof {
        assert(text@.skip(n as int) =~= Seq::<char>::empty());
    }
    if start < n {
        let line = text.substring_char(start, n).to_owned();
        proof {
            assert(line@ == text@.subrange(start as int, n as int));
            assert(line@.len() > 0);
            assert(seq_views(out@.push(line)) =~= seq_views(out@).push(line@));
            assert(seq_views(out@) + seq![line@] =~= seq_views(out@).push(line@));
        }
        out.push(line);
    } else {
        proof {
            assert(text@.subrange(start as int, n as int).len() == 0);
            assert(seq_views(out@) + Seq::<Seq<char>>::empty() =~= seq_views(out@));
        }
    }
    out
}

pub open spec fn modern_line_fn() -> spec_fn(Seq<char>) -> Option<EventView> {
    |l: Seq<char>| spec_modern_event(l)
}

pub open spec fn legacy_line_fn() -> spec_fn(Seq<char>) -> Option<Pre2015EventView> {
    |l: Seq<char>| legacy_decode_of(l)
}

/// The modern events a line sequence parses to, in input order,
/// skipping lines that do not decode.
pub open spec fn spec_parse_modern(lines: Seq<Seq<char>>) -> Seq<EventView> {
    opt_map(lines, modern_line_fn())
}

/// The legacy events a line sequence parses to, in input order.
pub open spec fn spec_parse_legacy(lines: Seq<Seq<char>>) -> Seq<Pre2015EventView> {
    opt_map(lines, legacy_line_fn())
}

/// Parses each line as a modern event; a malformed line is counted and
/// skipped, never an error, and output order matches input order.
pub fn parse_modern_lines(lines: &Vec<String>) -> (r: (Vec<Event>, usize))
    ensures
        seq_views(r.0@) == spec_parse_modern(seq_views(lines@)),
        r.1 + r.0@.len() == lines@.len(),
{
    let ghost sv = seq_views(lines@);
    let ghost f = modern_line_fn();
    let mut out: Vec<Event> = Vec::new();
    let mut skipped: usize = 0;
    let mut i: usize = 0;
    proof {
        assert(sv.take(0) =~= Seq::<Seq<char>>::empty());
        assert(seq_views(out@) =~= Seq::<EventView>::empty());
        assert(opt_map(sv.take(0), f) =~= Seq::<EventView>::empty());
    }
    while i < lines.len()
        invariant
            i <= lines@.len(),
            sv == seq_views(lines@),
            f == modern_line_fn(),
            seq_views(out@) == opt_map(sv.take(i as int), f),
            skipped + out@.len() == i,
        decreases lines@.len() - i,
    {
        proof {
            assert(sv.take(i as int + 1).drop_last() =~= sv.take(i as int));
            assert(sv.take(i as int + 1).last() == sv[i as int]);
            assert(sv[i as int] == lines@[i as int]@);
        }
        match parse_modern_line(lines[i].as_str()) {
            Option::Some(e) => {
                proof {
                    assert(seq_views(out@.push(e)) =~= seq_views(out@).push(e@));
                }
                out.push(e);
            },
            Option::None => {
                skipped = skipped + 1;
            },
        }
        i = i + 1;
    }
    proof {
        assert(sv.take(lines@.len() as int) =~= sv);
    }
    (out, skipped)
}

/// Parses each line as a legacy event; a malformed line is counted and
/// skipped, never an error, and output order matches input order.
pub fn parse_legacy_lines(lines: &Vec<String>) -> (r: (Vec<Pre2015Event>, usize))
    ensures
        seq_views(r.0@) == spec_parse_legacy(seq_views(lines@)),
        r.1 + r.0@.len() == lines@.len(),
{
    let ghost sv = seq_views(lines@);
    let ghost f = legacy_line_fn();
    let mut out: Vec<Pre2015Event> = Vec::new();
    let mut skipped: usize = 0;
    let mut i: usize = 0;
    proof {
        assert(sv.take(0) =~= Seq::<Seq<char>>::empty());
        assert(seq_views(out@) =~= Seq::<Pre2015EventView>::empty());
        assert(opt_map(sv.take(0), f) =~= Seq::<Pre2015EventView>::empty());
    }
    while i < lines.len()
        invariant
            i <= lines@.len(),
            sv == seq_views(lines@),
            f == legacy_line_fn(),
            seq_views(out@) == opt_map(sv.take(i as int), f),
            skipped + out@.len() == i,
        decreases lines@.len() - i,
    {
        proof {
            assert(sv.take(i as int + 1).drop_last() =~= sv.take(i as int));
            assert(sv.take(i as int + 1).last() == sv[i as int]);
            assert(sv[i as int] == lines@[i as int]@);
        }
        match parse_legacy_line(lines[i].as_str()) {
            Option::Some(e) => {
                proof {
                    assert(seq_views(out@.push(e)) =~= seq_views(out@).push(e@));
                }
                out.push(e);
            },
            Option::None => {
                skipped = skipped + 1;
            },
        }
        i = i + 1;
    }
    proof {
        assert(sv.take(lines@.len() as int) =~= sv);
    }
    (out, skipped)
}

/// Why a batch could not be processed.
#[derive(Debug, Clone, PartialEq, Eq)]
pub enum BatchError {
    /// A fetched archive did not decompress to text: corrupt or truncated
    /// payload, fatal to the batch with no retry.
    CorruptArchive,
}

pub uninterp spec fn gunzip_text_of(b: Seq<u8>) -> Option<Seq<char>>;

/// Relies on flate2's read::GzDecoder, read through std's Read::read_to_string:
/// the decompressed text of a gzip payload is a function of the bytes alone;
/// corrupt, truncated or non-UTF-8 payloads yield nothing.
#[verifier::external_body]
fn gunzip_text(bytes: &Vec<u8>) -> (r: Option<String>)
    ensures
        match r {
            Option::Some(s) => gunzip_text_of(bytes@) == Option::Some(s@),
            Option::None => gunzip_text_of(bytes@) is None,
        },
{
    let mut out = String::new();
    let mut decoder = flate2::read::GzDecoder::new(bytes.as_slice());
    match std::io::Read::read_to_string(&mut decoder, &mut out) {
        Ok(_) => Some(out),
        Err(_) => None,
    }
}

/// The modern events one decompressed archive yields, when it decompresses.
pub open spec fn spec_modern_file_events(b: Seq<u8>) -> Option<Seq<EventView>> {
    match gunzip_text_of(b) {
        Option::Some(text) => Option::Some(spec_parse_modern(split_lines(text))),
        Option::None => Option::None,
    }
}

/// The legacy events one decompressed archive yields, when it decompresses.
pub open spec fn spec_legacy_file_events(b: Seq<u8>) -> Option<Seq<Pre2015EventView>> {
    match gunzip_text_of(b) {
        Option::Some(text) => Option::Some(spec_parse_legacy(split_lines(text))),
        Option::None => Option::None,
    }
}

/// Decompresses one fetched archive and parses its lines as modern events.
/// Decompression failure is fatal; malformed lines are only counted.
pub fn parse_modern_file(bytes: &Vec<u8>) -> (r: Result<(Vec<Event>, usize), BatchError>)
    ensures
        match r {
            Result::Ok((events, skipped)) => spec_modern_file_events(bytes@) == Option::Some(
                seq_views(events@),
            ) && (gunzip_text_of(bytes@) matches Option::Some(text) && skipped + events@.len()
                == split_lines(text).len()),
            Result::Err(_) => spec_modern_file_events(bytes@) is None,
        },
{
    match gunzip_text(bytes) {
        Option::Some(text) => {
            let lines = split_text_lines(text.as_str());
            let (events, skipped) = parse_modern_lines(&lines);
            Result::Ok((events, skipped))
        },
        Option::None => Result::Err(BatchError::CorruptArchive),
    }
}

/// Decompresses one fetched archive and parses its lines as legacy events.
pub fn parse_legacy_file(bytes: &Vec<u8>) -> (r: Result<(Vec<Pre2015Event>, usize), BatchError>)
    ensures
        match r {
            Result::Ok((events, skipped)) => spec_legacy_file_events(bytes@) == Option::Some(
                seq_views(events@),
            ) && (gunzip_text_of(bytes@) matches Option::Some(text) && skipped + events@.len()
                == split_lines(text).len()),
            Result::Err(_) => spec_legacy_file_events(bytes@) is None,
        },
{
    match gunzip_text(bytes) {
        Option::Some(text) => {
            let lines = split_text_lines(text.as_str());
            let (events, skipped) = parse_legacy_lines(&lines);
            Result::Ok((events, skipped))
        },
        Option::None => Result::Err(BatchError::CorruptArchive),
    }
}

} // verus!
