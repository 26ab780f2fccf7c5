use vstd::prelude::*;

verus! {

use crate::event::seq_views;

/// The listing API never serves more than this many keys per request.
pub const MAX_PAGE_SIZE: usize = 500;

/// One request against the store's key listing.
pub struct PageRequest {
    pub start_after: String,
    pub max_keys: usize,
    pub continuation_token: Option<String>,
}

/// The running state of one enumeration of source files.
pub struct Enumeration {
    pub start_after: String,
    pub target: usize,
    pub keys: Vec<String>,
    pub done: bool,
}

pub open spec fn spec_min(a: int, b: int) -> int {
    if a < b {
        a
    } else {
        b
    }
}

impl Enumeration {
    pub open spec fn wf(&self) -> bool {
        &&& self.keys@.len() <= self.target
        &&& (self.done || self.keys@.len() < self.target)
    }

    /// Starts an enumeration of up to `target` keys after `start_after`,
    /// yielding the first request; a zero target asks for nothing.
    pub fn begin(start_after: String, target: usize) -> (r: (Enumeration, Option<PageRequest>))
        ensures
            r.0.wf(),
            r.0.target == target,
            r.0.keys@.len() == 0,
            r.0.start_after@ == start_after@,
            r.0.done == (target == 0),
            match r.1 {
                Option::Some(req) => target > 0 && req.max_keys as int == spec_min(
                    target as int,
                    MAX_PAGE_SIZE as int,
                ) && req.continuation_token is None && req.start_after@ == start_after@,
                Option::None => target == 0,
            },
    {
        if target == 0 {
            let e = Enumeration { start_after, target, keys: Vec::new(), done: true };
            (e, Option::None)
        } else {
            let first = start_after.clone();
            let max_keys = if target < MAX_PAGE_SIZE {
                target
            } else {
                MAX_PAGE_SIZE
            };
            let req = PageRequest { start_after: first, max_keys, continuation_token: Option::None };
            let e = Enumeration { start_after, target, keys: Vec::new(), done: false };
            (e, Option::Some(req))
        }
    }

    /// Absorbs one page of keys. Keys beyond the target are dropped; the
    /// enumeration finishes when the target is reached or the store reports
    /// no continuation; otherwise the next request is yielded.
    pub fn absorb_page(&mut self, page: Vec<String>, next_token: Option<String>) -> (r: Option<
        PageRequest,
    >)
        requires
            old(self).wf(),
            !old(self).done,
        ensures
            final(self).wf(),
            final(self).target == old(self).target,
            final(self).start_after@ == old(self).start_after@,
            seq_views(final(self).keys@) == seq_views(old(self).keys@) + seq_views(page@).take(
                spec_min(page@.len() as int, old(self).target - old(self).keys@.len()),
            ),
            final(self).done == (final(self).keys@.len() == final(self).target || next_token is None),
            match r {
                Option::Some(req) => {
                    &&& !final(self).done
                    &&& req.max_keys as int == spec_min(
                        MAX_PAGE_SIZE as int,
                        final(self).target - final(self).keys@.len(),
                    )
                    &&& req.continuation_token == next_token
                    &&& req.start_after@ == final(self).start_after@
                },
                Option::None => final(self).done,
            },
    {
        let room = self.target - self.keys.len();
        let take_n = if page.len() < room {
            page.len()
        } else {
            room
        };
        let ghost before = seq_views(self.keys@);
        let mut i: usize = 0;
        proof {
            assert(seq_views(page@).take(0) =~= Seq::<Seq<char>>::empty());
            assert(before + seq_views(page@).take(0) =~= before);
        }
        while i < take_n
            invariant
                i <= take_n,
                take_n <= page@.len(),
                take_n as int == spec_min(page@.len() as int, self.target - before.len()),
                self.target == old(self).target,
                self.start_after@ == old(self).start_after@,
                self.done == old(self).done,
                before == seq_views(old(self).keys@),
                self.keys@.len() == before.len() + i,
                self.keys@.len() <= self.target,
                seq_views(self.keys@) == before + seq_views(page@).take(i as int),
            decreases take_n - i,
        {
            let key = page[i].clone();
            proof {
                assert(seq_views(self.keys@.push(key)) =~= seq_views(self.keys@).push(key@));
                assert(seq_views(page@)[i as int] == page@[i as int]@);
                let ghost lhs = (before + seq_views(page@).take(i as int)).push(page@[i as int]@);
                let ghost rhs = before + seq_views(page@).take(i as int + 1);
                assert(lhs =~= rhs);
            }
            self.keys.push(key);
            i = i + 1;
        }
        let finished = self.keys.len() == self.target || next_token.is_none();
        self.done = finished;
        if finished {
            Option::None
        } else {
            let max_keys = if MAX_PAGE_SIZE < self.target - self.keys.len() {
                MAX_PAGE_SIZE
            } else {
                self.target - self.keys.len()
            };
            let req = PageRequest {
                start_after: self.start_after.clone(),
                max_keys,
                continuation_token: next_token,
            };
            Option::Some(req)
        }
    }

    /// Hands the enumerated keys over.
    pub fn into_keys(self) -> (r: Vec<String>)
        ensures
            r@ == self.keys@,
    {
        self.keys
    }
}

/// Enumerates against an in-memory store that serves pages of at most
/// `MAX_PAGE_SIZE` keys with a continuation token: the result is exactly
/// the first `target` keys the store holds, or all of them if fewer.
pub fn list_files_from_store(store: &Vec<String>, start_after: String, target: usize) -> (r: Vec<
    String,
>)
    ensures
        seq_views(r@) == seq_views(store@).take(spec_min(target as int, store@.len() as int)),
        r@.len() == spec_min(target as int, store@.len() as int),
{
    let n = store.len();
    let (mut e, first) = Enumeration::begin(start_after, target);
    let mut cursor: usize = 0;
    let mut req_opt = first;
    proof {
        assert(seq_views(e.keys@) =~= Seq::<Seq<char>>::empty());
        assert(seq_views(store@).take(0) =~= Seq::<Seq<char>>::empty());
    }
    loop
        invariant
            n == store@.len(),
            cursor <= n,
            e.wf(),
            e.target == target,
            seq_views(e.keys@) == seq_views(store@).take(cursor as int),
            e.keys@.len() == cursor,
            cursor <= target,
            match req_opt {
                Option::Some(req) => !e.done && req.max_keys as int == spec_min(
                    MAX_PAGE_SIZE as int,
                    target - cursor,
                ) && req.max_keys > 0,
                Option::None => e.done && (cursor == target || cursor == n),
            },
        ensures
            n == store@.len(),
            cursor <= n,
            cursor <= target,
            cursor == target || cursor == n,
            e.keys@.len() == cursor,
            seq_views(e.keys@) == seq_views(store@).take(cursor as int),
        decreases n - cursor + (if req_opt is Some {
            1int
        } else {
            0int
        }),
    {
        match req_opt {
            Option::None => {
                break;
            },
            Option::Some(req) => {
                // Serve the next page from the store.
                let remaining = n - cursor;
                let serve = if req.max_keys < remaining {
                    req.max_keys
                } else {
                    remaining
                };
                let mut page: Vec<String> = Vec::new();
                let mut j: usize = 0;
                proof {
                    assert(seq_views(page@) =~= Seq::<Seq<char>>::empty());
                    assert(seq_views(store@).subrange(cursor as int, cursor as int) =~= Seq::<Seq<char>>::empty());
                }
                while j < serve
                    invariant
                        j <= serve,
                        cursor + serve <= n,
                        n == store@.len(),
                        page@.len() == j,
                        seq_views(page@) == seq_views(store@).subrange(
                            cursor as int,
                            cursor as int + j,
                        ),
                    decreases serve - j,
                {
                    let key = store[cursor + j].clone();
                    proof {
                        assert(seq_views(page@.push(key)) =~= seq_views(page@).push(key@));
                        assert(seq_views(store@)[cursor as int + j] == store@[cursor as int + j]@);
                        let ghost plhs = seq_views(store@).subrange(cursor as int, cursor as int + j).push(store@[cursor as int + j]@);
                        let ghost prhs = seq_views(store@).subrange(cursor as int, cursor as int + j + 1);
                        assert(plhs =~= prhs);
                    }
                    page.push(key);
                    j = j + 1;
                }
                let new_cursor = cursor + serve;
                let token: Option<String> = if new_cursor < n {
                    Option::Some(String::new())
                } else {
                    Option::None
                };
                proof {
                    let pv = seq_views(page@);
                    assert(pv.take(pv.len() as int) =~= pv);
                    let ghost clhs = seq_views(store@).take(cursor as int) + seq_views(store@).subrange(cursor as int, new_cursor as int);
                    assert(clhs =~= seq_views(store@).take(new_cursor as int));
                }
                let next = e.absorb_page(page, token);
                proof {
                    assert(seq_views(e.keys@) =~= seq_views(store@).take(new_cursor as int));
                }
                cursor = new_cursor;
                req_opt = next;
            },
        }
    }
    proof {
        if cursor == target || cursor == n {
            let ghost goal = seq_views(store@).take(spec_min(target as int, n as int));
            assert(seq_views(store@).take(cursor as int) =~= goal);
        }
    }
    e.into_keys()
}

/// Relies on rand's SliceRandom::shuffle with thread_rng: whatever order
/// comes out, the shuffled list holds exactly the same file names.
#[verifier::external_body]
pub fn shuffle_file_list(files: Vec<String>) -> (r: Vec<String>)
    ensures
        r@.to_multiset() == files@.to_multiset(),
        r@.len() == files@.len(),
{
    let mut files = files;
    rand::seq::SliceRandom::shuffle(files.as_mut_slice(), &mut rand::thread_rng());
    files
}

} // verus!
