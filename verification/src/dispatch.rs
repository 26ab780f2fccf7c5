use vstd::prelude::*;

verus! {

use vstd::seq_lib::lemma_multiset_commutative;

/// One item sent down a lane: a file to process, or the end-of-work marker.
#[derive(Debug, Clone, PartialEq, Eq)]
pub enum WorkMsg {
    Work(String),
    Shutdown,
}

/// The bounded queue feeding one worker lane.
pub struct LaneQueue {
    pub capacity: usize,
    pub items: Vec<WorkMsg>,
}

/// The dispatcher's side of the worker pool: one bounded queue per lane.
pub struct Dispatcher {
    pub lanes: Vec<LaneQueue>,
}

/// Everything queued across all lanes, lane by lane.
pub open spec fn all_queued(lanes: Seq<LaneQueue>) -> Seq<WorkMsg>
    decreases lanes.len(),
{
    if lanes.len() == 0 {
        Seq::empty()
    } else {
        all_queued(lanes.drop_last()) + lanes.last().items@
    }
}

impl Dispatcher {
    pub open spec fn wf(&self) -> bool {
        forall|i: int|
            0 <= i < self.lanes@.len() ==> (#[trigger] self.lanes@[i]).items@.len()
                <= self.lanes@[i].capacity
    }

    /// Builds `n_lanes` empty lanes of the given capacity.
    pub fn new(n_lanes: usize, capacity: usize) -> (d: Dispatcher)
        ensures
            d.wf(),
            d.lanes@.len() == n_lanes,
            forall|i: int|
                0 <= i < n_lanes ==> (#[trigger] d.lanes@[i]).items@.len() == 0
                    && d.lanes@[i].capacity == capacity,
    {
        let mut lanes: Vec<LaneQueue> = Vec::new();
        let mut i: usize = 0;
        while i < n_lanes
            invariant
                i <= n_lanes,
                lanes@.len() == i,
                forall|k: int|
                    0 <= k < i ==> (#[trigger] lanes@[k]).items@.len() == 0 && lanes@[k].capacity
                        == capacity,
            decreases n_lanes - i,
        {
            lanes.push(LaneQueue { capacity, items: Vec::new() });
            i = i + 1;
        }
        Dispatcher { lanes }
    }

    /// Tries each lane in order and places the message in the first with
    /// room. Succeeds on exactly one lane, leaving every other unchanged,
    /// or changes nothing and reports that every lane is full.
    pub fn try_assign(&mut self, msg: WorkMsg) -> (r: Option<usize>)
        requires
            old(self).wf(),
        ensures
            final(self).wf(),
            final(self).lanes@.len() == old(self).lanes@.len(),
            match r {
                Option::Some(i) => {
                    &&& 0 <= i < final(self).lanes@.len()
                    &&& old(self).lanes@[i as int].items@.len() < old(self).lanes@[i as int].capacity
                    &&& final(self).lanes@[i as int].items@ == old(self).lanes@[i as int].items@.push(msg)
                    &&& final(self).lanes@[i as int].capacity == old(self).lanes@[i as int].capacity
                    &&& forall|j: int|
                        0 <= j < final(self).lanes@.len() && j != i
                            ==> #[trigger] final(self).lanes@[j] == old(self).lanes@[j]
                    &&& final(self).lanes@ == old(self).lanes@.update(
                        i as int,
                        LaneQueue {
                            capacity: old(self).lanes@[i as int].capacity,
                            items: final(self).lanes@[i as int].items,
                        },
                    )
                },
                Option::None => {
                    &&& *final(self) == *old(self)
                    &&& forall|j: int|
                        0 <= j < final(self).lanes@.len()
                            ==> (#[trigger] final(self).lanes@[j]).items@.len()
                            == final(self).lanes@[j].capacity
                },
            },
    {
        let n = self.lanes.len();
        let mut i: usize = 0;
        while i < n
            invariant
                i <= n,
                n == self.lanes@.len(),
                self == old(self),
                old(self).wf(),
                forall|j: int|
                    0 <= j < i ==> (#[trigger] self.lanes@[j]).items@.len()
                        == self.lanes@[j].capacity,
            decreases n - i,
        {
            if self.lanes[i].items.len() < self.lanes[i].capacity {
                let mut lane = self.lanes.remove(i);
                lane.items.push(msg);
                proof {
                    assert(old(self).lanes@.remove(i as int).insert(i as int, lane) =~= old(
                        self,
                    ).lanes@.update(i as int, lane));
                }
                self.lanes.insert(i, lane);
                assert forall|j: int|
                    0 <= j < self.lanes@.len() && j != i implies #[trigger] self.lanes@[j] == old(
                    self,
                ).lanes@[j] by {}
                return Option::Some(i);
            }
            i = i + 1;
        }
        Option::None
    }
}

impl Dispatcher {
    /// Takes the oldest queued message from one lane, as its worker would.
    pub fn take_from_lane(&mut self, i: usize) -> (r: Option<WorkMsg>)
        requires
            old(self).wf(),
            i < old(self).lanes@.len(),
        ensures
            final(self).wf(),
            final(self).lanes@.len() == old(self).lanes@.len(),
            forall|j: int|
                0 <= j < final(self).lanes@.len() && j != i
                    ==> #[trigger] final(self).lanes@[j] == old(self).lanes@[j],
            final(self).lanes@[i as int].capacity == old(self).lanes@[i as int].capacity,
            match r {
                Option::Some(msg) => old(self).lanes@[i as int].items@.len() > 0 && msg == old(
                    self,
                ).lanes@[i as int].items@[0] && final(self).lanes@[i as int].items@ == old(
                    self,
                ).lanes@[i as int].items@.drop_first(),
                Option::None => old(self).lanes@[i as int].items@.len() == 0 && final(self).lanes@
                    == old(self).lanes@,
            },
    {
        if self.lanes[i].items.len() == 0 {
            proof {
                assert(final(self).lanes@ =~= old(self).lanes@);
            }
            return Option::None;
        }
        let mut lane = self.lanes.remove(i);
        let msg = lane.items.remove(0);
        proof {
            assert(lane.items@ =~= old(self).lanes@[i as int].items@.drop_first());
            assert(old(self).lanes@.remove(i as int).insert(i as int, lane) =~= old(
                self,
            ).lanes@.update(i as int, lane));
        }
        self.lanes.insert(i, lane);
        Option::Some(msg)
    }
}

/// Adding a message to one lane adds exactly that message to what is
/// queued overall: a helper for the delivery law below.
proof fn lemma_all_queued_update(lanes: Seq<LaneQueue>, i: int, lane2: LaneQueue, msg: WorkMsg)
    requires
        0 <= i < lanes.len(),
        lane2.items@ == lanes[i].items@.push(msg),
    ensures
        all_queued(lanes.update(i, lane2)).to_multiset() == all_queued(lanes).to_multiset().insert(
            msg,
        ),
    decreases lanes.len(),
{
    broadcast use vstd::seq_lib::group_to_multiset_ensures;

    let upd = lanes.update(i, lane2);
    if i == lanes.len() - 1 {
        assert(upd.drop_last() =~= lanes.drop_last());
        assert(upd.last() == lane2);
        lemma_multiset_commutative(all_queued(lanes.drop_last()), lanes.last().items@);
        lemma_multiset_commutative(all_queued(lanes.drop_last()), lane2.items@);
        assert(lane2.items@.to_multiset() == lanes.last().items@.to_multiset().insert(msg));
        assert(all_queued(upd).to_multiset() =~= all_queued(lanes).to_multiset().insert(msg));
    } else {
        assert(upd.drop_last() =~= lanes.drop_last().update(i, lane2));
        assert(upd.last() == lanes.last());
        assert(lanes.drop_last()[i] == lanes[i]);
        lemma_all_queued_update(lanes.drop_last(), i, lane2, msg);
        lemma_multiset_commutative(all_queued(lanes.drop_last()), lanes.last().items@);
        lemma_multiset_commutative(all_queued(lanes.drop_last().update(i, lane2)), lanes.last().items@);
        assert(all_queued(upd).to_multiset() =~= all_queued(lanes).to_multiset().insert(msg));
    }
}

/// Law: a successful assignment neither drops nor duplicates work — what is
/// queued across all lanes afterwards is exactly what was queued before,
/// plus the one message, in one lane; a failed assignment changes nothing.
pub proof fn lemma_assignment_preserves_work(
    before: Seq<LaneQueue>,
    after: Seq<LaneQueue>,
    i: int,
    msg: WorkMsg,
)
    requires
        0 <= i < before.len(),
        after == before.update(
            i,
            LaneQueue { capacity: before[i].capacity, items: after[i].items },
        ),
        after[i].items@ == before[i].items@.push(msg),
    ensures
        all_queued(after).to_multiset() == all_queued(before).to_multiset().insert(msg),
{
    lemma_all_queued_update(before, i, after[i], msg);
    assert(before.update(i, after[i]) =~= after);
}

/// How many file names a lane accumulates before it processes a batch.
pub const BATCH_SIZE: usize = 100;

/// The states of one worker lane.
#[derive(Debug, Clone, PartialEq, Eq)]
pub enum LaneState {
    /// Accumulating file names into the pending batch.
    Intake,
    /// Running one accumulated batch to completion.
    Processing,
    /// The sentinel arrived with work pending: one final batch runs.
    Draining,
    /// Terminal.
    Stopped,
}

/// One worker lane's intake state machine.
pub struct Worker {
    pub state: LaneState,
    pub pending: Vec<String>,
}

impl Worker {
    pub open spec fn wf(&self) -> bool {
        self.pending@.len() < BATCH_SIZE
    }

    /// A fresh lane, accumulating.
    pub fn new() -> (w: Worker)
        ensures
            w.wf(),
            w.state is Intake,
            w.pending@.len() == 0,
    {
        Worker { state: LaneState::Intake, pending: Vec::new() }
    }

    /// One intake step. A file name joins the pending batch, which runs
    /// when it reaches the batch bound; the sentinel never discards pending
    /// work: it drains the batch first, and stops the lane only when
    /// nothing is pending.
    pub fn on_message(&mut self, msg: WorkMsg) -> (batch: Option<Vec<String>>)
        requires
            old(self).wf(),
            old(self).state is Intake,
        ensures
            final(self).wf(),
            match msg {
                WorkMsg::Shutdown => {
                    if old(self).pending@.len() == 0 {
                        &&& final(self).state is Stopped
                        &&& batch is None
                        &&& final(self).pending@ == old(self).pending@
                    } else {
                        &&& final(self).state is Draining
                        &&& batch matches Option::Some(b) && b@ == old(self).pending@
                        &&& final(self).pending@.len() == 0
                    }
                },
                WorkMsg::Work(f) => {
                    if old(self).pending@.len() + 1 == BATCH_SIZE {
                        &&& final(self).state is Processing
                        &&& batch matches Option::Some(b) && b@ == old(self).pending@.push(f)
                        &&& final(self).pending@.len() == 0
                    } else {
                        &&& final(self).state is Intake
                        &&& batch is None
                        &&& final(self).pending@ == old(self).pending@.push(f)
                    }
                },
            },
    {
        match msg {
            WorkMsg::Shutdown => {
                if self.pending.len() == 0 {
                    self.state = LaneState::Stopped;
                    Option::None
                } else {
                    self.state = LaneState::Draining;
                    let mut batch: Vec<String> = Vec::new();
                    core::mem::swap(&mut batch, &mut self.pending);
                    Option::Some(batch)
                }
            },
            WorkMsg::Work(f) => {
                self.pending.push(f);
                if self.pending.len() == BATCH_SIZE {
                    self.state = LaneState::Processing;
                    let mut batch: Vec<String> = Vec::new();
                    core::mem::swap(&mut batch, &mut self.pending);
                    Option::Some(batch)
                } else {
                    Option::None
                }
            },
        }
    }

    /// The batch handed out by `on_message` has run to completion: a
    /// processing lane resumes intake; a draining lane stops.
    pub fn on_batch_done(&mut self)
        requires
            old(self).wf(),
            old(self).state is Processing || old(self).state is Draining,
        ensures
            final(self).wf(),
            final(self).pending@ == old(self).pending@,
            old(self).state is Processing ==> final(self).state is Intake,
            old(self).state is Draining ==> final(self).state is Stopped,
    {
        match self.state {
            LaneState::Processing => {
                self.state = LaneState::Intake;
            },
            _ => {
                self.state = LaneState::Stopped;
            },
        }
    }
}

/// Law: a lane in intake with pending work that receives the sentinel
/// processes exactly that pending work (in Draining) and then stops;
/// nothing accumulated is discarded.
pub proof fn lemma_graceful_drain(w1: Worker, w2: Worker, w3: Worker, batch: Option<Vec<String>>)
    requires
        w1.wf(),
        w1.state is Intake,
        w1.pending@.len() > 0,
        // The sentinel step, as `on_message` ensures it:
        w2.state is Draining,
        batch matches Option::Some(b) && b@ == w1.pending@,
        w2.pending@.len() == 0,
        // The completion step, as `on_batch_done` ensures it:
        w3.pending@ == w2.pending@,
        w2.state is Draining ==> w3.state is Stopped,
    ensures
        w3.state is Stopped,
        batch matches Option::Some(b) && b@ == w1.pending@,
{
}

/// Plans for retrying an unreliable remote operation.
#[derive(Debug, Clone, PartialEq, Eq)]
pub enum RetryAction {
    /// Wait this many milliseconds, then try again on the same connection.
    WaitMillisAndRetry(u64),
    /// Replace the client with a fresh connection and make one final try.
    ReplaceClientAndRetry,
    /// The budget is exhausted.
    GiveUp,
}

/// The fetch retry schedule: after the first failure wait 50 ms, after the
/// second wait 1000 ms, after the third replace the connection for one
/// final attempt, then give up and fail the batch.
pub fn fetch_retry_step(failures: u64) -> (r: RetryAction)
    requires
        failures >= 1,
    ensures
        failures == 1 ==> (r matches RetryAction::WaitMillisAndRetry(ms) && ms == 50),
        failures == 2 ==> (r matches RetryAction::WaitMillisAndRetry(ms) && ms == 1000),
        failures == 3 ==> r is ReplaceClientAndRetry,
        failures >= 4 ==> r is GiveUp,
{
    if failures == 1 {
        RetryAction::WaitMillisAndRetry(50)
    } else if failures == 2 {
        RetryAction::WaitMillisAndRetry(1000)
    } else if failures == 3 {
        RetryAction::ReplaceClientAndRetry
    } else {
        RetryAction::GiveUp
    }
}

/// The upload retry schedule: after the first failure wait 100 ms, after
/// the second wait 1000 ms, after the third replace the connection for one
/// final attempt; a fourth failure is swallowed — the artifact is lost,
/// which callers must surface in their counters.
pub fn upload_retry_step(failures: u64) -> (r: RetryAction)
    requires
        failures >= 1,
    ensures
        failures == 1 ==> (r matches RetryAction::WaitMillisAndRetry(ms) && ms == 100),
        failures == 2 ==> (r matches RetryAction::WaitMillisAndRetry(ms) && ms == 1000),
        failures == 3 ==> r is ReplaceClientAndRetry,
        failures >= 4 ==> r is GiveUp,
{
    if failures == 1 {
        RetryAction::WaitMillisAndRetry(100)
    } else if failures == 2 {
        RetryAction::WaitMillisAndRetry(1000)
    } else if failures == 3 {
        RetryAction::ReplaceClientAndRetry
    } else {
        RetryAction::GiveUp
    }
}

} // verus!
