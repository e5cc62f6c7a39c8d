//! The acknowledgement bookkeeping of the stream driver: requests are numbered as they
//! are sent, complete in any order, and their events are acknowledged in the order
//! they were sent, as soon as every earlier request has completed. Each completed
//! request also settles the status of its events.
use vstd::prelude::*;

verus! {

/// The status of events once the request that carried them has completed.
#[derive(Clone, Copy, Debug, PartialEq, Eq, Structural)]
pub enum EventStatus {
    Dropped,
    Delivered,
    Errored,
    Failed,
    Recorded,
}

/// The status that a completed service call gives the events of its request: `Failed`
/// where the call failed, else the status that its response reports.
pub fn call_status(response: Result<EventStatus, ()>) -> (r: EventStatus)
    ensures
        r == (match response {
            Ok(status) => status,
            Err(()) => EventStatus::Failed,
        }),
{
    match response {
        Ok(status) => status,
        Err(()) => EventStatus::Failed,
    }
}

/// A completed request whose events still wait for acknowledgement.
#[derive(Clone, Copy, Debug)]
pub struct PendingAcknowledgement {
    pub seq_no: u64,
    pub ack_size: usize,
}

/// The completions still waiting, by sequence number.
pub open spec fn pending_map(p: Seq<PendingAcknowledgement>) -> Map<u64, usize> {
    Map::new(
        |s: u64| exists|i: int| 0 <= i < p.len() && #[trigger] p[i].seq_no == s,
        |s: u64| p[choose|i: int| 0 <= i < p.len() && #[trigger] p[i].seq_no == s].ack_size,
    )
}

/// No sequence number waits twice.
pub open spec fn seq_nos_distinct(p: Seq<PendingAcknowledgement>) -> bool {
    forall|i: int, j: int| 0 <= i < p.len() && 0 <= j < p.len() && i != j ==> #[trigger] p[i].seq_no != #[trigger] p[j].seq_no
}

/// The total size of the completions numbered below `n`.
pub open spec fn prefix_total(completed: Map<u64, usize>, n: nat) -> int
    decreases n,
{
    if n == 0 {
        0
    } else {
        prefix_total(completed, (n - 1) as nat) + completed[(n - 1) as u64]
    }
}

/// The total size of the completions numbered from `from` up to `to`.
pub open spec fn range_total(completed: Map<u64, usize>, from: nat, to: nat) -> int {
    prefix_total(completed, to) - prefix_total(completed, from)
}

/// The first number from `t` on (below `head`) whose request has not completed.
pub open spec fn first_gap(completed: Map<u64, usize>, t: nat, head: nat) -> nat
    decreases head - t,
{
    if t >= head || !completed.dom().contains(t as u64) {
        t
    } else {
        first_gap(completed, t + 1, head)
    }
}

/// The total size of the waiting completions.
pub open spec fn waiting_total(p: Seq<PendingAcknowledgement>) -> int
    decreases p.len(),
{
    if p.len() == 0 {
        0
    } else {
        waiting_total(p.drop_last()) + p.last().ack_size
    }
}

/// The state of the acknowledgement bookkeeping.
pub struct AckTracker {
    pending: Vec<PendingAcknowledgement>,
    seq_head: u64,
    seq_tail: u64,
    completed: Ghost<Map<u64, usize>>,
    acked: Ghost<int>,
}

/// What the bookkeeping knows: the next number to hand out, the first number not yet
/// acknowledged, the completions waiting, all completions so far, and how many events
/// were acknowledged in total.
pub struct AckTrackerView {
    pub head: u64,
    pub tail: u64,
    pub pending: Map<u64, usize>,
    pub completed: Map<u64, usize>,
    pub acked: int,
}

impl View for AckTracker {
    type V = AckTrackerView;

    closed spec fn view(&self) -> AckTrackerView {
        AckTrackerView {
            head: self.seq_head,
            tail: self.seq_tail,
            pending: pending_map(self.pending@),
            completed: self.completed@,
            acked: self.acked@,
        }
    }
}

/// The bookkeeping is consistent: numbers below the tail have completed and been
/// acknowledged, in total `acked`; the tail has not completed; the completions waiting
/// are exactly those from the tail on; nothing has completed at or beyond the head.
pub open spec fn tracker_consistent(v: AckTrackerView) -> bool {
    &&& v.tail <= v.head
    &&& forall|s: u64| #[trigger] v.completed.dom().contains(s) ==> s < v.head
    &&& forall|s: u64| s < v.tail ==> #[trigger] v.completed.dom().contains(s)
    &&& !v.completed.dom().contains(v.tail)
    &&& forall|s: u64| #[trigger] v.pending.dom().contains(s) <==> (v.completed.dom().contains(s) && s >= v.tail)
    &&& forall|s: u64| #[trigger] v.pending.dom().contains(s) ==> v.pending[s] == v.completed[s]
    &&& v.acked == prefix_total(v.completed, v.tail as nat)
}

impl AckTracker {
    /// The bookkeeping is consistent, and no number waits twice.
    pub closed spec fn wf(&self) -> bool {
        &&& seq_nos_distinct(self.pending@)
        &&& tracker_consistent(self@)
    }

    /// Nothing sent, nothing completed.
    pub fn new() -> (r: AckTracker)
        ensures
            r@.head == 0,
            r@.tail == 0,
            r@.completed == Map::<u64, usize>::empty(),
            r@.pending == Map::<u64, usize>::empty(),
            r@.acked == 0,
            r.wf(),
            r.waiting() == 0,
    {
        let r = AckTracker {
            pending: Vec::new(),
            seq_head: 0,
            seq_tail: 0,
            completed: Ghost(Map::empty()),
            acked: Ghost(0),
        };
        assert(pending_map(r.pending@) =~= Map::<u64, usize>::empty());
        r
    }

    /// A well-formed tracker is consistent. Every operation keeps a tracker
    /// well-formed, so at every point of a run the total acknowledged is the size of
    /// the requests numbered below the tail, all of which have completed: no request
    /// is acknowledged before every earlier one has completed.
    pub proof fn lemma_consistent(&self)
        requires
            self.wf(),
        ensures
            tracker_consistent(self@),
    {
    }

    /// Once every request sent has completed, every event has been acknowledged:
    /// the tail has reached the head and the total acknowledged is the size of all
    /// completions, whatever the order in which they completed.
    pub proof fn lemma_all_completed_all_acked(&self)
        requires
            self.wf(),
            forall|s: u64| s < self@.head ==> #[trigger] self@.completed.dom().contains(s),
        ensures
            self@.tail == self@.head,
            self@.acked == prefix_total(self@.completed, self@.head as nat),
            self@.pending.dom().is_empty(),
    {
        let v = self@;
        assert(tracker_consistent(v));
        if v.tail < v.head {
            assert(v.completed.dom().contains(v.tail));
        }
        assert forall|s: u64| !v.pending.dom().contains(s) by {
            if v.pending.dom().contains(s) {
                assert(v.completed.dom().contains(s));
            }
        }
    }

    /// The total size of the completions waiting for acknowledgement.
    pub closed spec fn waiting(&self) -> int {
        waiting_total(self.pending@)
    }

    /// The first number not yet acknowledged, and the next number to hand out.
    pub fn bounds(&self) -> (r: (u64, u64))
        ensures
            r == (self@.tail, self@.head),
    {
        (self.seq_tail, self.seq_head)
    }

    /// Whether the completion numbered `seq_no` waits for acknowledgement.
    pub fn is_waiting(&self, seq_no: u64) -> (r: bool)
        requires
            self.wf(),
        ensures
            r == self@.pending.dom().contains(seq_no),
    {
        match find_seq_no(&self.pending, seq_no) {
            Some(i) => {
                proof {
                    lemma_pending_at(self.pending@, i as int);
                }
                true
            },
            None => false,
        }
    }

    /// The total size of the completions waiting, if it fits in a `usize`.
    pub fn waiting_size(&self) -> (r: Option<usize>)
        ensures
            r matches Some(w) ==> w == self.waiting(),
            r is None ==> self.waiting() > usize::MAX,
    {
        let mut total: usize = 0;
        let mut i: usize = 0;
        while i < self.pending.len()
            invariant
                0 <= i <= self.pending@.len(),
                total == waiting_total(self.pending@.take(i as int)),
            decreases self.pending.len() - i,
        {
            proof {
                assert(self.pending@.take(i + 1).drop_last() =~= self.pending@.take(i as int));
                lemma_waiting_prefix_grows(self.pending@, i as int);
            }
            match total.checked_add(self.pending[i].ack_size) {
                Some(t) => {
                    total = t;
                },
                None => {
                    proof {
                        lemma_waiting_prefix_mono(self.pending@, i + 1);
                    }
                    return None;
                },
            }
            i = i + 1;
        }
        proof {
            assert(self.pending@.take(self.pending@.len() as int) =~= self.pending@);
        }
        Some(total)
    }

    /// Numbers the next request to send.
    pub fn next_seq_no(&mut self) -> (r: u64)
        requires
            old(self).wf(),
            old(self)@.head < u64::MAX,
        ensures
            final(self).wf(),
            r == old(self)@.head,
            final(self)@ == (AckTrackerView { head: (old(self)@.head + 1) as u64, ..old(self)@ }),
            final(self).waiting() == old(self).waiting(),
    {
        let seq_no = self.seq_head;
        self.seq_head = self.seq_head + 1;
        seq_no
    }

    /// Records that request `seq_no` completed with `ack_size` events, and releases
    /// the acknowledgements that have become due: those of the completed requests
    /// that now follow the tail without a gap. Returns how many events to
    /// acknowledge.
    pub fn complete(&mut self, seq_no: u64, ack_size: usize) -> (r: usize)
        requires
            old(self).wf(),
            old(self)@.tail <= seq_no < old(self)@.head,
            !old(self)@.completed.dom().contains(seq_no),
            old(self).waiting() + ack_size <= usize::MAX,
        ensures
            final(self).wf(),
            final(self)@.head == old(self)@.head,
            final(self)@.completed == old(self)@.completed.insert(seq_no, ack_size),
            final(self)@.tail == first_gap(final(self)@.completed, old(self)@.tail as nat, old(self)@.head as nat),
            r == range_total(final(self)@.completed, old(self)@.tail as nat, final(self)@.tail as nat),
            final(self)@.acked == old(self)@.acked + r,
            final(self).waiting() == old(self).waiting() + ack_size - r,
    {
        let ghost c0 = self.completed@;
        let ghost t0 = self.seq_tail;
        let ghost w0 = waiting_total(self.pending@);
        let ghost c = c0.insert(seq_no, ack_size);
        let head = self.seq_head;
        proof {
            let v = self@;
            assert(v.pending == pending_map(self.pending@));
            assert(tracker_consistent(v));
            assert(!v.completed.dom().contains(seq_no));
            if pending_map(self.pending@).dom().contains(seq_no) {
                assert(v.pending.dom().contains(seq_no));
            }
            assert(!pending_map(self.pending@).dom().contains(seq_no));
            lemma_push_pending(self.pending@, PendingAcknowledgement { seq_no, ack_size });
            lemma_prefix_total_agree(c0, c, t0 as nat);
        }
        self.pending.push(PendingAcknowledgement { seq_no, ack_size });
        self.completed = Ghost(c);
        let mut num: usize = 0;
        loop
            invariant_except_break
                self.seq_head == head,
                self.completed@ == c,
                c == c0.insert(seq_no, ack_size),
                forall|s: u64| #[trigger] c.dom().contains(s) ==> s < head,
                t0 <= self.seq_tail <= head,
                forall|s: u64| s < self.seq_tail ==> #[trigger] c.dom().contains(s),
                first_gap(c, t0 as nat, head as nat) == first_gap(c, self.seq_tail as nat, head as nat),
                seq_nos_distinct(self.pending@),
                forall|s: u64| #[trigger] pending_map(self.pending@).dom().contains(s) <==> (c.dom().contains(s) && s >= self.seq_tail),
                forall|s: u64| #[trigger] pending_map(self.pending@).dom().contains(s) ==> pending_map(self.pending@)[s] == c[s],
                num == prefix_total(c, self.seq_tail as nat) - prefix_total(c, t0 as nat),
                waiting_total(self.pending@) + num == w0 + ack_size,
                w0 + ack_size <= usize::MAX,
                self.acked@ == prefix_total(c0, t0 as nat) + num,
                prefix_total(c0, t0 as nat) == prefix_total(c, t0 as nat),
            ensures
                self.seq_head == head,
                self.completed@ == c,
                t0 <= self.seq_tail <= head,
                !c.dom().contains(self.seq_tail),
                forall|s: u64| s < self.seq_tail ==> #[trigger] c.dom().contains(s),
                first_gap(c, t0 as nat, head as nat) == self.seq_tail,
                seq_nos_distinct(self.pending@),
                forall|s: u64| #[trigger] pending_map(self.pending@).dom().contains(s) <==> (c.dom().contains(s) && s >= self.seq_tail),
                forall|s: u64| #[trigger] pending_map(self.pending@).dom().contains(s) ==> pending_map(self.pending@)[s] == c[s],
                num == prefix_total(c, self.seq_tail as nat) - prefix_total(c, t0 as nat),
                waiting_total(self.pending@) + num == w0 + ack_size,
                self.acked@ == prefix_total(c0, t0 as nat) + num,
            decreases head - self.seq_tail,
        {
            let tail = self.seq_tail;
            let found = find_seq_no(&self.pending, tail);
            match found {
                Some(i) => {
                    let ghost p = self.pending@;
                    proof {
                        assert(self.pending@[i as int].seq_no == tail);
                        lemma_pending_at(p, i as int);
                        lemma_remove_pending(p, i as int);
                        lemma_waiting_nonneg(p.remove(i as int));
                        assert(c.dom().contains(tail));
                        assert(tail < head);
                    }
                    let size = self.pending[i].ack_size;
                    self.pending.remove(i);
                    num = num + size;
                    self.seq_tail = tail + 1;
                    self.acked = Ghost(self.acked@ + size);
                    proof {
                        assert(first_gap(c, tail as nat, head as nat) == first_gap(c, (tail + 1) as nat, head as nat));
                        assert(prefix_total(c, (tail + 1) as nat) == prefix_total(c, tail as nat) + c[tail]);
                        assert forall|s: u64| s < self.seq_tail implies #[trigger] c.dom().contains(s) by {
                            if s < tail {
                                assert(c.dom().contains(s));
                            }
                        }
                    }
                },
                None => {
                    proof {
                        if c.dom().contains(tail) {
                            assert(pending_map(self.pending@).dom().contains(tail));
                            let j = choose|j: int| 0 <= j < self.pending@.len() && #[trigger] self.pending@[j].seq_no == tail;
                            assert(self.pending@[j].seq_no != tail);
                        }
                    }
                    break;
                },
            }
        }
        proof {
            assert(pending_map(self.pending@).dom() =~= pending_map(self.pending@).dom());
        }
        num
    }
}

/// The position of the completion numbered `seq_no` among those waiting, if it is
/// there.
fn find_seq_no(p: &Vec<PendingAcknowledgement>, seq_no: u64) -> (r: Option<usize>)
    ensures
        r matches Some(i) ==> i < p@.len() && p@[i as int].seq_no == seq_no,
        r is None ==> forall|j: int| 0 <= j < p@.len() ==> (#[trigger] p@[j]).seq_no != seq_no,
{
    let mut i: usize = 0;
    while i < p.len()
        invariant
            0 <= i <= p@.len(),
            forall|j: int| 0 <= j < i ==> (#[trigger] p@[j]).seq_no != seq_no,
        decreases p.len() - i,
    {
        if p[i].seq_no == seq_no {
            return Some(i);
        }
        i = i + 1;
    }
    None
}

/// Adding the completion of a number that is not waiting adds exactly that entry.
proof fn lemma_push_pending(p: Seq<PendingAcknowledgement>, x: PendingAcknowledgement)
    requires
        seq_nos_distinct(p),
        !pending_map(p).dom().contains(x.seq_no),
    ensures
        seq_nos_distinct(p.push(x)),
        pending_map(p.push(x)) == pending_map(p).insert(x.seq_no, x.ack_size),
        waiting_total(p.push(x)) == waiting_total(p) + x.ack_size,
{
    let q = p.push(x);
    assert(q.drop_last() =~= p);
    assert forall|i: int, j: int| 0 <= i < q.len() && 0 <= j < q.len() && i != j implies #[trigger] q[i].seq_no != #[trigger] q[j].seq_no by {
        if i < p.len() && j < p.len() {
            assert(p[i].seq_no != p[j].seq_no);
        } else if i < p.len() {
            assert(p[i].seq_no == q[i].seq_no);
        } else {
            assert(p[j].seq_no == q[j].seq_no);
        }
    }
    assert forall|s: u64| #[trigger] pending_map(q).dom().contains(s) == pending_map(p).insert(x.seq_no, x.ack_size).dom().contains(s) by {
        if pending_map(p).dom().contains(s) {
            let i = choose|i: int| 0 <= i < p.len() && #[trigger] p[i].seq_no == s;
            assert(q[i].seq_no == s);
        }
        if pending_map(q).dom().contains(s) && s != x.seq_no {
            let i = choose|i: int| 0 <= i < q.len() && #[trigger] q[i].seq_no == s;
            assert(p[i].seq_no == s);
        }
        if s == x.seq_no {
            assert(q[p.len() as int].seq_no == s);
        }
    }
    assert forall|s: u64| #[trigger] pending_map(q).dom().contains(s) implies pending_map(q)[s] == pending_map(p).insert(x.seq_no, x.ack_size)[s] by {
        if s == x.seq_no {
            lemma_pending_at(q, p.len() as int);
        } else {
            let i = choose|i: int| 0 <= i < q.len() && #[trigger] q[i].seq_no == s;
            lemma_pending_at(q, i);
            lemma_pending_at(p, i);
        }
    }
    assert(pending_map(q) =~= pending_map(p).insert(x.seq_no, x.ack_size));
}

/// Where a number sits, the map of waiting completions holds its size.
proof fn lemma_pending_at(p: Seq<PendingAcknowledgement>, i: int)
    requires
        seq_nos_distinct(p),
        0 <= i < p.len(),
    ensures
        pending_map(p).dom().contains(p[i].seq_no),
        pending_map(p)[p[i].seq_no] == p[i].ack_size,
{
    let s = p[i].seq_no;
    assert(exists|j: int| 0 <= j < p.len() && #[trigger] p[j].seq_no == s);
    let j = choose|j: int| 0 <= j < p.len() && #[trigger] p[j].seq_no == s;
    assert(p[j].seq_no == p[i].seq_no);
}

/// Removing a waiting completion removes exactly its entry and its size.
proof fn lemma_remove_pending(p: Seq<PendingAcknowledgement>, i: int)
    requires
        seq_nos_distinct(p),
        0 <= i < p.len(),
    ensures
        seq_nos_distinct(p.remove(i)),
        pending_map(p.remove(i)) == pending_map(p).remove(p[i].seq_no),
        waiting_total(p.remove(i)) + p[i].ack_size == waiting_total(p),
{
    let q = p.remove(i);
    assert forall|a: int, b: int| 0 <= a < q.len() && 0 <= b < q.len() && a != b implies #[trigger] q[a].seq_no != #[trigger] q[b].seq_no by {
        let a2 = if a < i { a } else { a + 1 };
        let b2 = if b < i { b } else { b + 1 };
        assert(q[a] == p[a2] && q[b] == p[b2]);
        assert(p[a2].seq_no != p[b2].seq_no);
    }
    let k = p[i].seq_no;
    assert forall|s: u64| #[trigger] pending_map(q).dom().contains(s) == pending_map(p).remove(k).dom().contains(s) by {
        if pending_map(q).dom().contains(s) {
            let a = choose|a: int| 0 <= a < q.len() && #[trigger] q[a].seq_no == s;
            let a2 = if a < i { a } else { a + 1 };
            assert(q[a] == p[a2]);
            assert(p[a2].seq_no == s);
            assert(a2 != i);
            assert(s != k);
        }
        if pending_map(p).dom().contains(s) && s != k {
            let a = choose|a: int| 0 <= a < p.len() && #[trigger] p[a].seq_no == s;
            assert(a != i);
            let a1 = if a < i { a } else { a - 1 };
            assert(q[a1] == p[a]);
            assert(q[a1].seq_no == s);
        }
    }
    assert forall|s: u64| #[trigger] pending_map(q).dom().contains(s) implies pending_map(q)[s] == pending_map(p).remove(k)[s] by {
        let a = choose|a: int| 0 <= a < q.len() && #[trigger] q[a].seq_no == s;
        let a2 = if a < i { a } else { a + 1 };
        assert(q[a] == p[a2]);
        lemma_pending_at(q, a);
        lemma_pending_at(p, a2);
    }
    assert(pending_map(q) =~= pending_map(p).remove(k));
    lemma_waiting_remove(p, i);
}

/// The total of one more entry adds its size.
proof fn lemma_waiting_prefix_grows(p: Seq<PendingAcknowledgement>, i: int)
    requires
        0 <= i < p.len(),
    ensures
        waiting_total(p.take(i + 1)) == waiting_total(p.take(i)) + p[i].ack_size,
{
    assert(p.take(i + 1).drop_last() =~= p.take(i));
}

/// The total of a prefix is at most the total of the whole.
proof fn lemma_waiting_prefix_mono(p: Seq<PendingAcknowledgement>, n: int)
    requires
        0 <= n <= p.len(),
    ensures
        waiting_total(p.take(n)) <= waiting_total(p),
    decreases p.len() - n,
{
    if n < p.len() {
        lemma_waiting_prefix_mono(p, n + 1);
        lemma_waiting_prefix_grows(p, n);
    } else {
        assert(p.take(n) =~= p);
    }
}

/// The total waiting is never negative.
proof fn lemma_waiting_nonneg(p: Seq<PendingAcknowledgement>)
    ensures
        waiting_total(p) >= 0,
    decreases p.len(),
{
    if p.len() > 0 {
        lemma_waiting_nonneg(p.drop_last());
    }
}

/// Removing an entry takes its size off the total.
proof fn lemma_waiting_remove(p: Seq<PendingAcknowledgement>, i: int)
    requires
        0 <= i < p.len(),
    ensures
        waiting_total(p.remove(i)) + p[i].ack_size == waiting_total(p),
    decreases p.len(),
{
    if i == p.len() - 1 {
        assert(p.remove(i) =~= p.drop_last());
    } else {
        lemma_waiting_remove(p.drop_last(), i);
        assert(p.remove(i).drop_last() =~= p.drop_last().remove(i));
        assert(p.remove(i).last() == p.last());
    }
}

/// Totals below `n` depend only on the completions below `n`.
proof fn lemma_prefix_total_agree(c1: Map<u64, usize>, c2: Map<u64, usize>, n: nat)
    requires
        forall|s: u64| s < n ==> c1[s] == c2[s],
    ensures
        prefix_total(c1, n) == prefix_total(c2, n),
    decreases n,
{
    if n > 0 {
        lemma_prefix_total_agree(c1, c2, (n - 1) as nat);
        assert(c1[(n - 1) as u64] == c2[(n - 1) as u64]);
    }
}

} // verus!
