//! The streaming transport's bookkeeping: many operations multiplexed over
//! one connection. Each open operation has an identifier, a bounded queue
//! of received frames and an end mark; inbound frames are routed by
//! identifier, and closing an operation frees its slot at once.
use vstd::prelude::*;

verus! {

/// How an operation's incoming data stands.
#[derive(Clone, Copy, Debug, PartialEq, Eq, Structural)]
pub enum EndMark {
    /// More frames may come.
    Open,
    /// The remote side ended the operation.
    Finished,
    /// The connection failed under the operation.
    Failed,
}

/// One open operation: its identifier, the frames received and not yet
/// taken, and how its incoming data stands.
#[derive(Debug)]
pub struct Subscription {
    pub id: u64,
    pub pending: Vec<Vec<u8>>,
    pub end: EndMark,
}

/// The bytes of a list of frames.
pub open spec fn chunks_view(v: Seq<Vec<u8>>) -> Seq<Seq<u8>> {
    v.map_values(|c: Vec<u8>| c@)
}

/// No identifier is used twice.
pub open spec fn unique_ids(s: Seq<Subscription>) -> bool {
    forall|i: int, j: int| 0 <= i < s.len() && 0 <= j < s.len() && i != j ==> s[i].id != s[j].id
}

/// Whether an operation with identifier `id` is open.
pub open spec fn open_in(s: Seq<Subscription>, id: u64) -> bool {
    exists|i: int| 0 <= i < s.len() && s[i].id == id
}

/// Where the operation `id` stands.
pub open spec fn slot_in(s: Seq<Subscription>, id: u64) -> int {
    choose|i: int| 0 <= i < s.len() && s[i].id == id
}

/// The frames waiting for operation `id`, oldest first.
pub open spec fn pending_in(s: Seq<Subscription>, id: u64) -> Seq<Seq<u8>> {
    chunks_view(s[slot_in(s, id)].pending@)
}

/// How the incoming data of operation `id` stands.
pub open spec fn end_in(s: Seq<Subscription>, id: u64) -> EndMark {
    s[slot_in(s, id)].end
}

/// Every operation but `id` is as it was.
pub open spec fn others_kept(a: Seq<Subscription>, b: Seq<Subscription>, id: u64) -> bool {
    forall|k: u64| k != id ==> {
        &&& open_in(b, k) == open_in(a, k)
        &&& open_in(a, k) ==> pending_in(b, k) == pending_in(a, k) && end_in(b, k) == end_in(a, k)
    }
}

/// A frame with payload `p` for operation `k` was routed from `a` to `b`:
/// appended to that operation's queue when it is open, dropped otherwise.
pub open spec fn frame_routed(a: Seq<Subscription>, k: u64, p: Seq<u8>, b: Seq<Subscription>) -> bool {
    if open_in(a, k) {
        &&& open_in(b, k)
        &&& pending_in(b, k) == pending_in(a, k).push(p)
        &&& end_in(b, k) == end_in(a, k)
        &&& others_kept(a, b, k)
    } else {
        b == a
    }
}

/// The payloads of the frames addressed to `id`, in order.
pub open spec fn payloads_for(fs: Seq<(u64, Seq<u8>)>, id: u64) -> Seq<Seq<u8>>
    decreases fs.len(),
{
    if fs.len() == 0 {
        Seq::empty()
    } else if fs.last().0 == id {
        payloads_for(fs.drop_last(), id).push(fs.last().1)
    } else {
        payloads_for(fs.drop_last(), id)
    }
}

proof fn lemma_slot(s: Seq<Subscription>, i: int)
    requires
        unique_ids(s),
        0 <= i < s.len(),
    ensures
        open_in(s, s[i].id),
        slot_in(s, s[i].id) == i,
{
    assert(open_in(s, s[i].id));
}

proof fn lemma_update(s: Seq<Subscription>, i: int, x: Subscription)
    requires
        unique_ids(s),
        0 <= i < s.len(),
        x.id == s[i].id,
    ensures
        unique_ids(s.update(i, x)),
        others_kept(s, s.update(i, x), x.id),
        open_in(s.update(i, x), x.id),
        slot_in(s.update(i, x), x.id) == i,
{
    let t = s.update(i, x);
    assert(unique_ids(t)) by {
        assert forall|a: int, b: int| 0 <= a < t.len() && 0 <= b < t.len() && a != b implies t[a].id != t[b].id by {
            assert(t[a].id == s[a].id);
            assert(t[b].id == s[b].id);
        }
    }
    lemma_slot(t, i);
    assert forall|k: u64| k != x.id implies {
        &&& open_in(t, k) == open_in(s, k)
        &&& open_in(s, k) ==> pending_in(t, k) == pending_in(s, k) && end_in(t, k) == end_in(s, k)
    } by {
        if open_in(s, k) {
            let j = choose|j: int| 0 <= j < s.len() && s[j].id == k;
            lemma_slot(s, j);
            assert(t[j] == s[j]);
            lemma_slot(t, j);
        }
        if open_in(t, k) {
            let j = choose|j: int| 0 <= j < t.len() && t[j].id == k;
            assert(s[j].id == k);
        }
    }
}

proof fn lemma_remove(s: Seq<Subscription>, i: int)
    requires
        unique_ids(s),
        0 <= i < s.len(),
    ensures
        unique_ids(s.remove(i)),
        others_kept(s, s.remove(i), s[i].id),
        !open_in(s.remove(i), s[i].id),
{
    let t = s.remove(i);
    let id = s[i].id;
    assert(unique_ids(t)) by {
        assert forall|a: int, b: int| 0 <= a < t.len() && 0 <= b < t.len() && a != b implies t[a].id != t[b].id by {
            let a2 = if a < i { a } else { a + 1 };
            let b2 = if b < i { b } else { b + 1 };
            assert(t[a] == s[a2]);
            assert(t[b] == s[b2]);
        }
    }
    if open_in(t, id) {
        let j = choose|j: int| 0 <= j < t.len() && t[j].id == id;
        let j2 = if j < i { j } else { j + 1 };
        assert(t[j] == s[j2]);
    }
    assert forall|k: u64| k != id implies {
        &&& open_in(t, k) == open_in(s, k)
        &&& open_in(s, k) ==> pending_in(t, k) == pending_in(s, k) && end_in(t, k) == end_in(s, k)
    } by {
        if open_in(s, k) {
            let j = choose|j: int| 0 <= j < s.len() && s[j].id == k;
            assert(j != i);
            lemma_slot(s, j);
            let j1 = if j < i { j } else { j - 1 };
            assert(t[j1] == s[j]);
            lemma_slot(t, j1);
        }
        if open_in(t, k) {
            let j = choose|j: int| 0 <= j < t.len() && t[j].id == k;
            let j2 = if j < i { j } else { j + 1 };
            assert(t[j] == s[j2]);
        }
    }
}

proof fn lemma_push(s: Seq<Subscription>, x: Subscription)
    requires
        unique_ids(s),
        !open_in(s, x.id),
    ensures
        unique_ids(s.push(x)),
        others_kept(s, s.push(x), x.id),
        open_in(s.push(x), x.id),
        slot_in(s.push(x), x.id) == s.len(),
{
    let t = s.push(x);
    assert(unique_ids(t)) by {
        assert forall|a: int, b: int| 0 <= a < t.len() && 0 <= b < t.len() && a != b implies t[a].id != t[b].id by {
            if a == s.len() {
                assert(!(s[b].id == x.id));
            } else if b == s.len() {
                assert(!(s[a].id == x.id));
            } else {
                assert(t[a] == s[a] && t[b] == s[b]);
            }
        }
    }
    lemma_slot(t, s.len() as int);
    assert forall|k: u64| k != x.id implies {
        &&& open_in(t, k) == open_in(s, k)
        &&& open_in(s, k) ==> pending_in(t, k) == pending_in(s, k) && end_in(t, k) == end_in(s, k)
    } by {
        if open_in(s, k) {
            let j = choose|j: int| 0 <= j < s.len() && s[j].id == k;
            lemma_slot(s, j);
            assert(t[j] == s[j]);
            lemma_slot(t, j);
        }
        if open_in(t, k) {
            let j = choose|j: int| 0 <= j < t.len() && t[j].id == k;
            assert(j != s.len());
            assert(s[j].id == k);
        }
    }
}

/// What became of an inbound frame.
#[derive(Debug)]
pub enum FrameOutcome {
    /// Appended to its operation's queue.
    Queued,
    /// The operation's queue is full: the frame is handed back, and reading
    /// from the connection should pause until the consumer takes frames.
    Full(Vec<u8>),
    /// No open operation has this identifier (it was closed): dropped.
    Unknown,
}

/// What a consumer gets when it asks its operation for the next frame.
#[derive(Debug)]
pub enum Delivery {
    /// The oldest waiting frame.
    Chunk(Vec<u8>),
    /// Nothing waits yet; more may come.
    Waiting,
    /// Nothing waits and the remote side has ended the operation.
    Finished,
    /// Nothing waits and the connection failed under the operation.
    Failed,
    /// No open operation has this identifier.
    Unknown,
}

/// The operations open on one connection.
#[derive(Debug)]
pub struct Multiplexer {
    pub subs: Vec<Subscription>,
    /// How many operations may be open at once.
    pub max_ops: usize,
    /// How many frames may wait for one operation.
    pub queue_bound: usize,
    /// The identifier the next operation gets.
    pub next_id: u64,
}

impl Multiplexer {
    pub open spec fn wf(&self) -> bool {
        &&& unique_ids(self.subs@)
        &&& self.subs@.len() <= self.max_ops
        &&& forall|i: int| 0 <= i < self.subs@.len() ==> (#[trigger] self.subs@[i]).id < self.next_id
        &&& forall|i: int| 0 <= i < self.subs@.len() ==> (#[trigger] self.subs@[i]).pending@.len() <= self.queue_bound
    }

    /// The limits stay as they were.
    pub open spec fn same_limits(&self, other: &Multiplexer) -> bool {
        self.max_ops == other.max_ops && self.queue_bound == other.queue_bound
    }

    /// A connection with no operation open.
    pub fn new(max_ops: usize, queue_bound: usize) -> (r: Multiplexer)
        ensures
            r.wf(),
            r.subs@.len() == 0,
            r.max_ops == max_ops,
            r.queue_bound == queue_bound,
            r.next_id == 0,
    {
        Multiplexer { subs: Vec::new(), max_ops, queue_bound, next_id: 0 }
    }

    /// How many operations are open.
    pub fn active(&self) -> (r: usize)
        ensures
            r == self.subs@.len(),
    {
        self.subs.len()
    }

    fn find(&self, id: u64) -> (r: Option<usize>)
        requires
            self.wf(),
        ensures
            r.is_some() == open_in(self.subs@, id),
            r.is_some() ==> r.unwrap() == slot_in(self.subs@, id) && r.unwrap() < self.subs@.len()
                && self.subs@[r.unwrap() as int].id == id,
    {
        let mut i: usize = 0;
        while i < self.subs.len()
            invariant
                self.wf(),
                i <= self.subs@.len(),
                forall|j: int| 0 <= j < i ==> self.subs@[j].id != id,
            decreases self.subs@.len() - i,
        {
            if self.subs[i].id == id {
                proof { lemma_slot(self.subs@, i as int); }
                return Some(i);
            }
            i += 1;
        }
        None
    }

    /// Opens an operation and returns its identifier; `None` when the
    /// connection already carries as many operations as it may, or no
    /// identifier is left.
    pub fn open(&mut self) -> (r: Option<u64>)
        requires
            old(self).wf(),
        ensures
            final(self).wf(),
            final(self).same_limits(old(self)),
            r.is_some() == (old(self).subs@.len() < old(self).max_ops && old(self).next_id < u64::MAX),
            r.is_none() ==> final(self).subs@ == old(self).subs@ && final(self).next_id == old(self).next_id,
            r.is_some() ==> {
                let id = r.unwrap();
                &&& id == old(self).next_id
                &&& final(self).next_id == old(self).next_id + 1
                &&& !open_in(old(self).subs@, id)
                &&& open_in(final(self).subs@, id)
                &&& pending_in(final(self).subs@, id) == Seq::<Seq<u8>>::empty()
                &&& end_in(final(self).subs@, id) == EndMark::Open
                &&& others_kept(old(self).subs@, final(self).subs@, id)
                &&& final(self).subs@.len() == old(self).subs@.len() + 1
            },
    {
        if self.subs.len() >= self.max_ops || self.next_id == u64::MAX {
            return None;
        }
        let id = self.next_id;
        let sub = Subscription { id, pending: Vec::new(), end: EndMark::Open };
        proof {
            if open_in(self.subs@, id) {
                let j = choose|j: int| 0 <= j < self.subs@.len() && self.subs@[j].id == id;
                assert(self.subs@[j].id < self.next_id);
            }
            lemma_push(self.subs@, sub);
        }
        self.subs.push(sub);
        self.next_id = id + 1;
        assert(pending_in(self.subs@, id) =~= Seq::<Seq<u8>>::empty());
        Some(id)
    }

    /// Routes an inbound frame for operation `id`.
    pub fn on_frame(&mut self, id: u64, payload: Vec<u8>) -> (r: FrameOutcome)
        requires
            old(self).wf(),
        ensures
            final(self).wf(),
            final(self).same_limits(old(self)),
            final(self).subs@.len() == old(self).subs@.len(),
            (r is Unknown) == !open_in(old(self).subs@, id),
            (r is Full) == (open_in(old(self).subs@, id) && pending_in(old(self).subs@, id).len()
                >= old(self).queue_bound),
            r is Full ==> r->Full_0 == payload,
            !(r is Queued) ==> final(self).subs@ == old(self).subs@,
            r is Queued ==> frame_routed(old(self).subs@, id, payload@, final(self).subs@),
    {
        match self.find(id) {
            None => FrameOutcome::Unknown,
            Some(i) => {
                if self.subs[i].pending.len() >= self.queue_bound {
                    return FrameOutcome::Full(payload);
                }
                let ghost before = self.subs@;
                let mut sub = self.subs.remove(i);
                sub.pending.push(payload);
                self.subs.insert(i, sub);
                proof {
                    assert(self.subs@ =~= before.update(i as int, sub));
                    lemma_update(before, i as int, sub);
                    assert(chunks_view(sub.pending@) =~= pending_in(before, id).push(payload@));
                }
                FrameOutcome::Queued
            },
        }
    }

    fn mark(&mut self, id: u64, m: EndMark) -> (r: bool)
        requires
            old(self).wf(),
        ensures
            final(self).wf(),
            final(self).same_limits(old(self)),
            final(self).next_id == old(self).next_id,
            final(self).subs@.len() == old(self).subs@.len(),
            r == open_in(old(self).subs@, id),
            !r ==> final(self).subs@ == old(self).subs@,
            r ==> open_in(final(self).subs@, id) && end_in(final(self).subs@, id) == m
                && pending_in(final(self).subs@, id) == pending_in(old(self).subs@, id)
                && others_kept(old(self).subs@, final(self).subs@, id),
    {
        match self.find(id) {
            None => false,
            Some(i) => {
                let ghost before = self.subs@;
                let mut sub = self.subs.remove(i);
                sub.end = m;
                self.subs.insert(i, sub);
                proof {
                    assert(self.subs@ =~= before.update(i as int, sub));
                    lemma_update(before, i as int, sub);
                }
                true
            },
        }
    }

    /// Marks operation `id` as ended by the remote side; returns whether it was open.
    pub fn on_end(&mut self, id: u64) -> (r: bool)
        requires
            old(self).wf(),
        ensures
            final(self).wf(),
            final(self).same_limits(old(self)),
            final(self).next_id == old(self).next_id,
            final(self).subs@.len() == old(self).subs@.len(),
            r == open_in(old(self).subs@, id),
            !r ==> final(self).subs@ == old(self).subs@,
            r ==> open_in(final(self).subs@, id) && end_in(final(self).subs@, id) == EndMark::Finished
                && pending_in(final(self).subs@, id) == pending_in(old(self).subs@, id)
                && others_kept(old(self).subs@, final(self).subs@, id),
    {
        self.mark(id, EndMark::Finished)
    }

    /// Marks operation `id` as failed: once its waiting frames are taken it
    /// ends with a failure. Returns whether it was open.
    pub fn on_fail(&mut self, id: u64) -> (r: bool)
        requires
            old(self).wf(),
        ensures
            final(self).wf(),
            final(self).same_limits(old(self)),
            final(self).next_id == old(self).next_id,
            final(self).subs@.len() == old(self).subs@.len(),
            r == open_in(old(self).subs@, id),
            !r ==> final(self).subs@ == old(self).subs@,
            r ==> open_in(final(self).subs@, id) && end_in(final(self).subs@, id) == EndMark::Failed
                && pending_in(final(self).subs@, id) == pending_in(old(self).subs@, id)
                && others_kept(old(self).subs@, final(self).subs@, id),
    {
        self.mark(id, EndMark::Failed)
    }

    /// Marks every open operation as failed, as when the connection is lost;
    /// their waiting frames are kept.
    pub fn fail_all(&mut self)
        requires
            old(self).wf(),
        ensures
            final(self).wf(),
            final(self).same_limits(old(self)),
            final(self).next_id == old(self).next_id,
            final(self).subs@.len() == old(self).subs@.len(),
            forall|k: u64| #[trigger] open_in(final(self).subs@, k) == open_in(old(self).subs@, k),
            forall|k: u64| #[trigger] open_in(old(self).subs@, k) ==> pending_in(final(self).subs@, k)
                == pending_in(old(self).subs@, k) && end_in(final(self).subs@, k) == EndMark::Failed,
    {
        let ghost start = self.subs@;
        let mut i: usize = 0;
        while i < self.subs.len()
            invariant
                self.wf(),
                self.same_limits(old(self)),
                self.next_id == old(self).next_id,
                start == old(self).subs@,
                self.subs@.len() == start.len(),
                i <= start.len(),
                forall|j: int| 0 <= j < start.len() ==> (#[trigger] self.subs@[j]).id == start[j].id
                    && self.subs@[j].pending == start[j].pending,
                forall|j: int| 0 <= j < i ==> (#[trigger] self.subs@[j]).end == EndMark::Failed,
            decreases start.len() - i,
        {
            let ghost before = self.subs@;
            let mut sub = self.subs.remove(i);
            sub.end = EndMark::Failed;
            self.subs.insert(i, sub);
            proof {
                assert(self.subs@ =~= before.update(i as int, sub));
                lemma_update(before, i as int, sub);
            }
            i += 1;
        }
        assert forall|k: u64| #[trigger] open_in(self.subs@, k) == open_in(start, k) by {
            if open_in(start, k) {
                let j = choose|j: int| 0 <= j < start.len() && start[j].id == k;
                assert(self.subs@[j].id == k);
            }
            if open_in(self.subs@, k) {
                let j = choose|j: int| 0 <= j < self.subs@.len() && self.subs@[j].id == k;
                assert(start[j].id == k);
            }
        }
        assert forall|k: u64| #[trigger] open_in(start, k) implies pending_in(self.subs@, k)
            == pending_in(start, k) && end_in(self.subs@, k) == EndMark::Failed by {
            let j = choose|j: int| 0 <= j < start.len() && start[j].id == k;
            lemma_slot(start, j);
            assert(self.subs@[j].id == k);
            lemma_slot(self.subs@, j);
        }
    }

    /// Takes the oldest waiting frame of operation `id`.
    pub fn next(&mut self, id: u64) -> (r: Delivery)
        requires
            old(self).wf(),
        ensures
            final(self).wf(),
            final(self).same_limits(old(self)),
            final(self).subs@.len() == old(self).subs@.len(),
            (r is Unknown) == !open_in(old(self).subs@, id),
            (r is Chunk) == (open_in(old(self).subs@, id) && pending_in(old(self).subs@, id).len() > 0),
            (r is Finished) == (open_in(old(self).subs@, id) && pending_in(old(self).subs@, id).len() == 0
                && end_in(old(self).subs@, id) == EndMark::Finished),
            (r is Failed) == (open_in(old(self).subs@, id) && pending_in(old(self).subs@, id).len() == 0
                && end_in(old(self).subs@, id) == EndMark::Failed),
            !(r is Chunk) ==> final(self).subs@ == old(self).subs@,
            r is Chunk ==> {
                &&& r->Chunk_0@ == pending_in(old(self).subs@, id)[0]
                &&& open_in(final(self).subs@, id)
                &&& pending_in(final(self).subs@, id) == pending_in(old(self).subs@, id).drop_first()
                &&& end_in(final(self).subs@, id) == end_in(old(self).subs@, id)
                &&& others_kept(old(self).subs@, final(self).subs@, id)
            },
    {
        match self.find(id) {
            None => Delivery::Unknown,
            Some(i) => {
                if self.subs[i].pending.len() == 0 {
                    return match self.subs[i].end {
                        EndMark::Finished => Delivery::Finished,
                        EndMark::Failed => Delivery::Failed,
                        EndMark::Open => Delivery::Waiting,
                    };
                }
                let ghost before = self.subs@;
                let mut sub = self.subs.remove(i);
                let chunk = sub.pending.remove(0);
                self.subs.insert(i, sub);
                proof {
                    assert(self.subs@ =~= before.update(i as int, sub));
                    lemma_update(before, i as int, sub);
                    assert(chunks_view(sub.pending@) =~= pending_in(before, id).drop_first());
                }
                Delivery::Chunk(chunk)
            },
        }
    }

    /// Closes operation `id`, dropping its waiting frames and freeing its
    /// slot; returns whether it was open, that is whether the remote side
    /// should be told to stop. Closing again changes nothing.
    pub fn close(&mut self, id: u64) -> (r: bool)
        requires
            old(self).wf(),
        ensures
            final(self).wf(),
            final(self).same_limits(old(self)),
            final(self).next_id == old(self).next_id,
            r == open_in(old(self).subs@, id),
            !open_in(final(self).subs@, id),
            others_kept(old(self).subs@, final(self).subs@, id),
            r ==> final(self).subs@.len() == old(self).subs@.len() - 1,
            !r ==> final(self).subs@ == old(self).subs@,
    {
        match self.find(id) {
            None => false,
            Some(i) => {
                let ghost before = self.subs@;
                self.subs.remove(i);
                proof {
                    lemma_remove(before, i as int);
                    assert forall|j: int| 0 <= j < self.subs@.len() implies (#[trigger] self.subs@[j]).id < self.next_id
                        && self.subs@[j].pending@.len() <= self.queue_bound by {
                        let j2 = if j < i { j } else { j + 1 };
                        assert(self.subs@[j] == before[j2]);
                    }
                }
                true
            },
        }
    }
}

/// Frames routed one after another reach the queue of operation `id` in the
/// order they came, and only the frames addressed to it.
pub proof fn lemma_frames_in_order(states: Seq<Seq<Subscription>>, frames: Seq<(u64, Seq<u8>)>, id: u64)
    requires
        states.len() == frames.len() + 1,
        open_in(states[0], id),
        forall|i: int| 0 <= i < frames.len() ==> frame_routed(states[i], frames[i].0, frames[i].1, #[trigger] states[i + 1]),
    ensures
        open_in(states.last(), id),
        pending_in(states.last(), id) == pending_in(states[0], id) + payloads_for(frames, id),
        end_in(states.last(), id) == end_in(states[0], id),
    decreases frames.len(),
{
    if frames.len() == 0 {
        assert(pending_in(states[0], id) + Seq::<Seq<u8>>::empty() =~= pending_in(states[0], id));
    } else {
        let n = frames.len() - 1;
        let s2 = states.drop_last();
        let f2 = frames.drop_last();
        assert forall|i: int| 0 <= i < f2.len() implies frame_routed(s2[i], f2[i].0, f2[i].1, #[trigger] s2[i + 1]) by {
            assert(s2[i] == states[i] && s2[i + 1] == states[i + 1] && f2[i] == frames[i]);
        }
        lemma_frames_in_order(s2, f2, id);
        assert(s2.last() == states[n]);
        assert(frame_routed(states[n], frames[n].0, frames[n].1, states[n + 1]));
        assert(states.last() == states[n + 1]);
        if frames[n].0 == id {
            assert(pending_in(states.last(), id) =~= pending_in(states[0], id) + payloads_for(frames, id));
        } else {
            if !open_in(states[n], frames[n].0) {
                assert(states[n + 1] == states[n]);
            }
        }
    }
}

/// Closing an open operation on a connection at its limit frees a slot, so
/// the next `open` succeeds while identifiers remain; the other operations
/// stay as they were.
pub proof fn lemma_close_frees_slot(before: Multiplexer, after: Multiplexer, id: u64)
    requires
        before.wf(),
        after.wf(),
        before.subs@.len() == before.max_ops,
        open_in(before.subs@, id),
        after.same_limits(&before),
        after.subs@.len() == before.subs@.len() - 1,
    ensures
        after.subs@.len() < after.max_ops,
{
    let j = choose|j: int| 0 <= j < before.subs@.len() && before.subs@[j].id == id;
}

} // verus!
