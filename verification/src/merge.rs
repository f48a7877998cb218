//! Merge order: each stream in its own sequence, interleaved between streams by
//! timestamp.
//!
//! A sequence number is the producer's own statement of the order it wrote things in,
//! and the only ordering promise an envelope carries. A timestamp is a wall clock and
//! not monotonic, so ordering a stream by it swaps that stream's own records against
//! the only party that knew. Between streams nothing is promised beyond the
//! timestamps, and a tie there is broken by the stream's id: deterministic rather than
//! meaningful.
use vstd::prelude::*;

use crate::event::Envelope;
use crate::text;
use crate::text::precedes;

verus! {

/// What merging reads of an event.
pub ghost struct Stamp {
    pub ts: Seq<char>,
    pub stream: Seq<char>,
    pub seq: u64,
}

/// What merging reads of some events.
pub open spec fn stamps(events: Seq<Envelope>) -> Seq<Stamp> {
    events.map_values(|e: Envelope| Stamp { ts: e.ts@, stream: e.stream@, seq: e.seq })
}

/// One record of a stream was written before another: by its sequence number, and where
/// two claim one number by the order they were appended in.
pub open spec fn earlier(s: Seq<Stamp>, i: int, j: int) -> bool {
    s[i].seq < s[j].seq || (s[i].seq == s[j].seq && i < j)
}

/// Of the records that are left, this is the first of its stream.
pub open spec fn is_head(s: Seq<Stamp>, left: Set<int>, i: int) -> bool {
    &&& left.contains(i)
    &&& forall|j: int| #[trigger]
        left.contains(j) && j != i && s[j].stream == s[i].stream ==> earlier(s, i, j)
}

/// One stream's head goes before another's.
pub open spec fn goes_before(s: Seq<Stamp>, i: int, j: int) -> bool {
    precedes(s[i].ts, s[j].ts) || (s[i].ts == s[j].ts && precedes(s[i].stream, s[j].stream))
}

/// Of the records that are left, this one comes next: it is the first of its stream, and
/// goes before the first of every other.
pub open spec fn is_next(s: Seq<Stamp>, left: Set<int>, i: int) -> bool {
    &&& is_head(s, left, i)
    &&& forall|j: int| #[trigger] is_head(s, left, j) && j != i ==> goes_before(s, i, j)
}

/// The records that are left once the first `k` of an order are taken.
pub open spec fn left(n: nat, order: Seq<int>, k: int) -> Set<int> {
    Set::new(|i: int| 0 <= i < n && !order.take(k).contains(i))
}

/// An order takes, at each step, the record that comes next.
pub open spec fn in_merge_order(s: Seq<Stamp>, order: Seq<int>) -> bool {
    &&& order.len() == s.len()
    &&& forall|k: int|
        0 <= k < order.len() ==> is_next(s, left(s.len(), order, k), #[trigger] order[k])
}

struct Queue {
    stream: String,
    members: Vec<usize>,
    next: usize,
}

spec fn sorted(s: Seq<Stamp>, members: Seq<usize>) -> bool {
    forall|a: int, b: int|
        0 <= a < b < members.len() ==> earlier(s, #[trigger] members[a] as int, #[trigger] members[b] as int)
}

spec fn of_stream(s: Seq<Stamp>, q: Queue, below: int) -> bool {
    forall|k: int|
        0 <= k < q.members@.len() ==> 0 <= (#[trigger] q.members@[k]) < below
            && s[q.members@[k] as int].stream == q.stream@
}

spec fn holds(queues: Seq<Queue>, i: int, q: int, k: int) -> bool {
    0 <= q < queues.len() && 0 <= k < queues[q].members@.len() && queues[q].members@[k] == i
}

spec fn held(queues: Seq<Queue>, i: int) -> bool {
    exists|q: int, k: int| #[trigger] holds(queues, i, q, k)
}

/// The first `below` records, each in the queue of its stream.
spec fn grouped(s: Seq<Stamp>, queues: Seq<Queue>, below: int) -> bool {
    &&& forall|a: int, b: int|
        0 <= a < queues.len() && 0 <= b < queues.len() && a != b ==> (#[trigger] queues[a]).stream@
            != (#[trigger] queues[b]).stream@
    &&& forall|q: int|
        0 <= q < queues.len() ==> of_stream(s, #[trigger] queues[q], below) && sorted(
            s,
            queues[q].members@,
        ) && queues[q].next == 0
    &&& forall|i: int|
        0 <= i < below ==> #[trigger] held(queues, i)
}

impl Queue {
    /// Put a record where its sequence number belongs, after what claims the same one.
    fn add(&mut self, events: &Vec<Envelope>, i: usize)
        requires
            i < events@.len(),
            old(self).stream@ == events@[i as int].stream@,
            of_stream(stamps(events@), *old(self), i as int),
            sorted(stamps(events@), old(self).members@),
            old(self).next == 0,
        ensures
            final(self).stream@ == old(self).stream@,
            final(self).next == 0,
            of_stream(stamps(events@), *final(self), i + 1),
            sorted(stamps(events@), final(self).members@),
            exists|k: int| 0 <= k < final(self).members@.len() && #[trigger] final(self).members@[k] == i,
            forall|k: int|
                0 <= k < old(self).members@.len() ==> exists|m: int|
                    0 <= m < final(self).members@.len() && #[trigger] final(self).members@[m]
                        == #[trigger] old(self).members@[k],
    {
        let ghost s = stamps(events@);
        let ghost before = self.members@;
        let mut at: usize = self.members.len();
        while 0 < at && events[self.members[at - 1]].seq > events[i].seq
            invariant
                s == stamps(events@),
                i < events@.len(),
                self.members@ == before,
                self.stream@ == old(self).stream@,
                self.next == 0,
                at <= before.len(),
                of_stream(s, *self, i as int),
                forall|k: int|
                    at <= k < before.len() ==> s[#[trigger] before[k] as int].seq > s[i as int].seq,
            decreases at,
        {
            assert(s[before[at - 1] as int].seq == events@[before[at - 1] as int].seq);
            at -= 1;
        }
        self.members.insert(at, i);
        proof {
            let after = self.members@;
            assert(after == before.insert(at as int, i));
            assert forall|k: int| 0 <= k < after.len() implies 0 <= (#[trigger] after[k]) < i + 1
                && s[after[k] as int].stream == self.stream@ by {
                if k < at {
                    assert(after[k] == before[k]);
                } else if k > at {
                    assert(after[k] == before[k - 1]);
                }
            }
            if at > 0 {
                assert(s[before[at - 1] as int].seq <= s[i as int].seq);
            }
            assert forall|a: int, b: int| 0 <= a < b < after.len() implies earlier(
                s,
                #[trigger] after[a] as int,
                #[trigger] after[b] as int,
            ) by {
                if b < at {
                    assert(after[a] == before[a] && after[b] == before[b]);
                } else if b == at {
                    assert(after[a] == before[a]);
                    assert(before[a] < i);
                    if a < at - 1 {
                        assert(earlier(s, before[a] as int, before[at - 1] as int));
                    }
                } else {
                    assert(after[b] == before[b - 1]);
                    if a < at {
                        assert(after[a] == before[a]);
                    } else if a > at {
                        assert(after[a] == before[a - 1]);
                    }
                }
            }
            assert(after[at as int] == i);
            assert forall|k: int| 0 <= k < before.len() implies exists|m: int|
                0 <= m < after.len() && #[trigger] after[m] == #[trigger] before[k] by {
                if k < at {
                    assert(after[k] == before[k]);
                } else {
                    assert(after[k + 1] == before[k]);
                }
            }
        }
    }
}

fn find(queues: &Vec<Queue>, stream: &str) -> (r: Option<usize>)
    ensures
        match r {
            Some(q) => q < queues@.len() && queues@[q as int].stream@ == stream@,
            None => forall|q: int|
                0 <= q < queues@.len() ==> (#[trigger] queues@[q]).stream@ != stream@,
        },
{
    let mut q: usize = 0;
    while q < queues.len()
        invariant
            q <= queues@.len(),
            forall|p: int| 0 <= p < q ==> (#[trigger] queues@[p]).stream@ != stream@,
        decreases queues@.len() - q,
    {
        if text::same(queues[q].stream.as_str(), stream) {
            return Some(q);
        }
        q += 1;
    }
    None
}

proof fn lemma_widen(s: Seq<Stamp>, q: Queue, below: int)
    requires
        of_stream(s, q, below),
    ensures
        of_stream(s, q, below + 1),
{
}

/// Each record in the queue of its stream.
fn group(events: &Vec<Envelope>) -> (r: Vec<Queue>)
    ensures
        grouped(stamps(events@), r@, events@.len() as int),
{
    let ghost s = stamps(events@);
    let mut queues: Vec<Queue> = Vec::new();
    let mut i: usize = 0;
    while i < events.len()
        invariant
            s == stamps(events@),
            i <= events@.len(),
            grouped(s, queues@, i as int),
        decreases events@.len() - i,
    {
        let ghost before = queues@;
        match find(&queues, events[i].stream.as_str()) {
            Some(q) => {
                let mut queue = queues.remove(q);
                let ghost was = queue;
                queue.add(events, i);
                let ghost grown = queue;
                queues.insert(q, queue);
                proof {
                    let after = queues@;
                    assert(after =~= before.update(q as int, grown));
                    assert forall|p: int| 0 <= p < after.len() implies of_stream(
                        s,
                        #[trigger] after[p],
                        i + 1,
                    ) && sorted(s, after[p].members@) && after[p].next == 0 by {
                        if p != q {
                            assert(after[p] == before[p]);
                            lemma_widen(s, before[p], i as int);
                        }
                    }
                    assert forall|j: int| 0 <= j < i + 1 implies #[trigger] held(after, j) by {
                        if j < i {
                            assert(held(before, j));
                            let (p, k) = choose|p: int, k: int| #[trigger] holds(before, j, p, k);
                            if p == q {
                                assert(was.members@[k] == j);
                                let m = choose|m: int|
                                    0 <= m < grown.members@.len() && #[trigger] grown.members@[m]
                                        == was.members@[k];
                                assert(holds(after, j, q as int, m));
                            } else {
                                assert(holds(after, j, p, k));
                            }
                        } else {
                            let m = choose|m: int|
                                0 <= m < grown.members@.len() && #[trigger] grown.members@[m] == i;
                            assert(holds(after, j, q as int, m));
                        }
                    }
                    assert forall|a: int, b: int|
                        0 <= a < after.len() && 0 <= b < after.len() && a != b implies (
                    #[trigger] after[a]).stream@ != (#[trigger] after[b]).stream@ by {
                        assert(before[a].stream@ != before[b].stream@);
                    }
                }
            },
            None => {
                let mut members: Vec<usize> = Vec::new();
                members.push(i);
                queues.push(Queue { stream: events[i].stream.clone(), members, next: 0 });
                proof {
                    let after = queues@;
                    let last = before.len() as int;
                    assert forall|p: int| 0 <= p < after.len() implies of_stream(
                        s,
                        #[trigger] after[p],
                        i + 1,
                    ) && sorted(s, after[p].members@) && after[p].next == 0 by {
                        if p < last {
                            assert(after[p] == before[p]);
                            lemma_widen(s, before[p], i as int);
                        }
                    }
                    assert forall|j: int| 0 <= j < i + 1 implies #[trigger] held(after, j) by {
                        if j < i {
                            assert(held(before, j));
                            let (p, k) = choose|p: int, k: int| #[trigger] holds(before, j, p, k);
                            assert(after[p] == before[p]);
                            assert(holds(after, j, p, k));
                        } else {
                            assert(holds(after, j, last, 0));
                        }
                    }
                    assert forall|a: int, b: int|
                        0 <= a < after.len() && 0 <= b < after.len() && a != b implies (
                    #[trigger] after[a]).stream@ != (#[trigger] after[b]).stream@ by {
                        if a < last && b < last {
                            assert(before[a].stream@ != before[b].stream@);
                        }
                    }
                }
            },
        }
        i += 1;
    }
    queues
}

/// Some records grouped, the first of each queue taken: what is left is what the
/// queues still hold.
spec fn merging(s: Seq<Stamp>, queues: Seq<Queue>, left: Set<int>) -> bool {
    &&& forall|a: int, b: int|
        0 <= a < queues.len() && 0 <= b < queues.len() && a != b ==> (#[trigger] queues[a]).stream@
            != (#[trigger] queues[b]).stream@
    &&& forall|q: int|
        0 <= q < queues.len() ==> of_stream(s, #[trigger] queues[q], s.len() as int) && sorted(
            s,
            queues[q].members@,
        ) && queues[q].next <= queues[q].members@.len()
    &&& forall|i: int| #[trigger]
        left.contains(i) ==> exists|q: int, k: int| #[trigger]
            holds(queues, i, q, k) && queues[q].next <= k
    &&& forall|q: int, k: int|
        0 <= q < queues.len() && queues[q].next <= k < queues[q].members@.len() ==> left.contains(
            #[trigger] queues[q].members@[k] as int,
        )
}

spec fn head_of(queues: Seq<Queue>, q: int) -> int {
    queues[q].members@[queues[q].next as int] as int
}

proof fn lemma_head(s: Seq<Stamp>, queues: Seq<Queue>, left: Set<int>, q: int)
    requires
        merging(s, queues, left),
        0 <= q < queues.len(),
        queues[q].next < queues[q].members@.len(),
    ensures
        is_head(s, left, head_of(queues, q)),
{
    let h = head_of(queues, q);
    let queue = queues[q];
    assert(of_stream(s, queue, s.len() as int));
    assert(left.contains(h));
    assert forall|j: int| #[trigger]
        left.contains(j) && j != h && s[j].stream == s[h].stream implies earlier(s, h, j) by {
        let (p, k) = choose|p: int, k: int| #[trigger]
            holds(queues, j, p, k) && queues[p].next <= k;
        assert(of_stream(s, queues[p], s.len() as int));
        assert(s[queues[p].members@[k] as int].stream == queues[p].stream@);
        assert(s[queue.members@[queue.next as int] as int].stream == queue.stream@);
        if p != q {
            assert(queues[p].stream@ != queues[q].stream@);
        }
        assert(k > queue.next);
        assert(sorted(s, queue.members@));
        assert(earlier(
            s,
            queue.members@[queue.next as int] as int,
            queue.members@[k] as int,
        ));
    }
}

proof fn lemma_only_heads(s: Seq<Stamp>, queues: Seq<Queue>, left: Set<int>, j: int) -> (q: int)
    requires
        merging(s, queues, left),
        is_head(s, left, j),
    ensures
        0 <= q < queues.len(),
        queues[q].next < queues[q].members@.len(),
        head_of(queues, q) == j,
{
    let (q, k) = choose|q: int, k: int| #[trigger] holds(queues, j, q, k) && queues[q].next <= k;
    let h = head_of(queues, q);
    lemma_head(s, queues, left, q);
    let queue = queues[q];
    assert(of_stream(s, queue, s.len() as int));
    assert(s[queue.members@[queue.next as int] as int].stream == queue.stream@);
    assert(s[queue.members@[k] as int].stream == queue.stream@);
    if h != j {
        assert(earlier(s, h, j));
        assert(earlier(s, j, h));
    }
    q
}

/// The queue whose head comes next, where any has one.
fn choose_next(events: &Vec<Envelope>, queues: &Vec<Queue>, Ghost(rest): Ghost<Set<int>>) -> (r:
    Option<usize>)
    requires
        merging(stamps(events@), queues@, rest),
    ensures
        match r {
            Some(q) => q < queues@.len() && queues@[q as int].next
                < queues@[q as int].members@.len() && is_next(
                stamps(events@),
                rest,
                head_of(queues@, q as int),
            ),
            None => forall|i: int| !#[trigger] rest.contains(i),
        },
{
    let ghost s = stamps(events@);
    let mut best: Option<usize> = None;
    let mut q: usize = 0;
    while q < queues.len()
        invariant
            s == stamps(events@),
            merging(s, queues@, rest),
            q <= queues@.len(),
            match best {
                Some(b) => b < q && queues@[b as int].next < queues@[b as int].members@.len()
                    && forall|p: int|
                    0 <= p < q && p != b && (#[trigger] queues@[p]).next < queues@[p].members@.len()
                        ==> goes_before(s, head_of(queues@, b as int), head_of(queues@, p)),
                None => forall|p: int|
                    0 <= p < q ==> (#[trigger] queues@[p]).next >= queues@[p].members@.len(),
            },
        decreases queues@.len() - q,
    {
        assert(of_stream(s, queues@[q as int], s.len() as int));
        if queues[q].next < queues[q].members.len() {
            let here: usize = queues[q].members[queues[q].next];
            match best {
                None => {
                    best = Some(q);
                },
                Some(b) => {
                    assert(of_stream(s, queues@[b as int], s.len() as int));
                    let there: usize = queues[b].members[queues[b].next];
                    let sooner: bool = text::before(
                        events[here].ts.as_str(),
                        events[there].ts.as_str(),
                    );
                    let tied: bool = text::same(
                        events[here].ts.as_str(),
                        events[there].ts.as_str(),
                    );
                    let first: bool = text::before(
                        events[here].stream.as_str(),
                        events[there].stream.as_str(),
                    );
                    proof {
                        assert(s[here as int].stream == queues@[q as int].stream@);
                        assert(s[there as int].stream == queues@[b as int].stream@);
                        assert(queues@[q as int].stream@ != queues@[b as int].stream@);
                        lemma_total(s, here as int, there as int);
                    }
                    if sooner || (tied && first) {
                        proof {
                            assert forall|p: int|
                                0 <= p < q + 1 && p != q && (#[trigger] queues@[p]).next
                                    < queues@[p].members@.len() implies goes_before(
                                s,
                                here as int,
                                head_of(queues@, p),
                            ) by {
                                if p != b {
                                    lemma_goes_transitive(
                                        s,
                                        here as int,
                                        there as int,
                                        head_of(queues@, p),
                                    );
                                }
                            }
                        }
                        best = Some(q);
                    }
                },
            }
        }
        q += 1;
    }
    proof {
        match best {
            Some(b) => {
                lemma_head(s, queues@, rest, b as int);
                let h = head_of(queues@, b as int);
                assert forall|j: int| #[trigger]
                    is_head(s, rest, j) && j != h implies goes_before(s, h, j) by {
                    let p = lemma_only_heads(s, queues@, rest, j);
                    assert(p != b);
                }
            },
            None => {
                assert forall|i: int| !#[trigger] rest.contains(i) by {
                    if rest.contains(i) {
                        let (p, k) = choose|p: int, k: int| #[trigger]
                            holds(queues@, i, p, k) && queues@[p].next <= k;
                        assert(queues@[p].next >= queues@[p].members@.len());
                    }
                }
            },
        }
    }
    best
}

proof fn lemma_total(s: Seq<Stamp>, i: int, j: int)
    requires
        s[i].stream != s[j].stream,
    ensures
        goes_before(s, i, j) || goes_before(s, j, i),
{
    text::lemma_precedes_total(s[i].ts, s[j].ts);
    text::lemma_precedes_total(s[i].stream, s[j].stream);
}

proof fn lemma_goes_transitive(s: Seq<Stamp>, i: int, j: int, k: int)
    requires
        goes_before(s, i, j),
        goes_before(s, j, k),
    ensures
        goes_before(s, i, k),
{
    if precedes(s[i].ts, s[j].ts) && precedes(s[j].ts, s[k].ts) {
        text::lemma_precedes_transitive(s[i].ts, s[j].ts, s[k].ts);
    }
    if precedes(s[i].stream, s[j].stream) && precedes(s[j].stream, s[k].stream) {
        text::lemma_precedes_transitive(s[i].stream, s[j].stream, s[k].stream);
    }
}

/// Indices, as contracts speak of them.
pub open spec fn indices(order: Seq<usize>) -> Seq<int> {
    order.map_values(|i: usize| i as int)
}

/// An order's first `k` steps each take the record that comes next.
spec fn merged_to(s: Seq<Stamp>, order: Seq<int>) -> bool {
    forall|k: int|
        0 <= k < order.len() ==> is_next(s, left(s.len(), order, k), #[trigger] order[k])
}

proof fn lemma_longer(s: Seq<Stamp>, order: Seq<int>, i: int)
    requires
        merged_to(s, order),
        is_next(s, left(s.len(), order, order.len() as int), i),
    ensures
        merged_to(s, order.push(i)),
        left(s.len(), order.push(i), order.len() as int + 1) =~= left(
            s.len(),
            order,
            order.len() as int,
        ).remove(i),
{
    let more = order.push(i);
    assert forall|k: int| 0 <= k < more.len() implies is_next(
        s,
        left(s.len(), more, k),
        #[trigger] more[k],
    ) by {
        assert(more.take(k) =~= order.take(k));
        if k < order.len() {
            assert(more[k] == order[k]);
        }
    }
    assert(more.take(more.len() as int) =~= more);
    assert(order.take(order.len() as int) =~= order);
    assert forall|x: int| more.contains(x) <==> order.contains(x) || x == i by {
        if more.contains(x) {
            let j = choose|j: int| 0 <= j < more.len() && more[j] == x;
            if j < order.len() {
                assert(order[j] == x);
            }
        }
        if order.contains(x) {
            let j = choose|j: int| 0 <= j < order.len() && order[j] == x;
            assert(more[j] == x);
        }
        if x == i {
            assert(more[order.len() as int] == x);
        }
    }
}

/// Each step took a record that no other step took.
proof fn lemma_taken(s: Seq<Stamp>, order: Seq<int>)
    requires
        merged_to(s, order),
    ensures
        order.no_duplicates(),
        forall|k: int| 0 <= k < order.len() ==> 0 <= #[trigger] order[k] < s.len(),
{
    assert forall|a: int, b: int| 0 <= a < b < order.len() implies order[a] != order[b] by {
        assert(is_next(s, left(s.len(), order, b), order[b]));
        if order[a] == order[b] {
            assert(order.take(b)[a] == order[b]);
        }
    }
    assert forall|k: int| 0 <= k < order.len() implies 0 <= #[trigger] order[k] < s.len() by {
        assert(is_next(s, left(s.len(), order, k), order[k]));
    }
}

proof fn lemma_fits(order: Seq<int>, n: nat)
    requires
        order.no_duplicates(),
        forall|k: int| 0 <= k < order.len() ==> 0 <= #[trigger] order[k] < n,
    ensures
        order.len() <= n,
{
    order.unique_seq_to_set();
    let all = vstd::set_lib::set_int_range(0, n as int);
    vstd::set_lib::lemma_int_range(0, n as int);
    assert(order.to_set().subset_of(all));
    vstd::set_lib::lemma_len_subset(order.to_set(), all);
}

/// Nothing is left once every record was taken.
proof fn lemma_all_taken(order: Seq<int>, n: nat)
    requires
        order.no_duplicates(),
        forall|k: int| 0 <= k < order.len() ==> 0 <= #[trigger] order[k] < n,
        forall|i: int| !#[trigger] left(n, order, order.len() as int).contains(i),
    ensures
        order.len() == n,
{
    lemma_fits(order, n);
    order.unique_seq_to_set();
    let all = vstd::set_lib::set_int_range(0, n as int);
    vstd::set_lib::lemma_int_range(0, n as int);
    assert(order.take(order.len() as int) =~= order);
    assert forall|i: int| all.contains(i) implies order.to_set().contains(i) by {
        assert(!left(n, order, order.len() as int).contains(i));
    }
    assert(all.subset_of(order.to_set()));
    vstd::set_lib::lemma_len_subset(all, order.to_set());
}

/// Where each record belongs in the merged order, as indices into the events.
///
/// A merge of the streams' own queues: the order is not a total order over the fields,
/// so it is not one sort.
pub fn merged_order(events: &Vec<Envelope>) -> (r: Vec<usize>)
    ensures
        in_merge_order(stamps(events@), indices(r@)),
{
    let ghost s = stamps(events@);
    let mut queues = group(events);
    let mut order: Vec<usize> = Vec::new();
    let ghost mut rest = left(s.len(), indices(order@), 0);
    proof {
        assert(indices(order@).take(0) =~= Seq::empty());
        assert forall|i: int| #[trigger] rest.contains(i) implies exists|q: int, k: int|
         #[trigger]
            holds(queues@, i, q, k) && queues@[q].next <= k by {
            assert(held(queues@, i));
            let (q, k) = choose|q: int, k: int| #[trigger] holds(queues@, i, q, k);
            assert(holds(queues@, i, q, k) && queues@[q].next <= k);
        }
        assert forall|q: int, k: int|
            0 <= q < queues@.len() && queues@[q].next <= k
                < queues@[q].members@.len() implies rest.contains(
            #[trigger] queues@[q].members@[k] as int,
        ) by {
            assert(of_stream(s, queues@[q], s.len() as int));
        }
    }
    let mut more: bool = true;
    while more
        invariant
            s == stamps(events@),
            merging(s, queues@, rest),
            merged_to(s, indices(order@)),
            rest == left(s.len(), indices(order@), order@.len() as int),
            !more ==> forall|i: int| !#[trigger] rest.contains(i),
        decreases s.len() - order@.len() + (if more { 1int } else { 0 }),
    {
        proof {
            lemma_taken(s, indices(order@));
            lemma_fits(indices(order@), s.len());
        }
        match choose_next(events, &queues, Ghost(rest)) {
            None => {
                more = false;
            },
            Some(q) => {
                let ghost before = queues@;
                let mut queue = queues.remove(q);
                let at: usize = queue.members[queue.next];
                assert(queue.next < queue.members.len());
                queue.next = queue.next + 1;
                let ghost moved = queue;
                queues.insert(q, queue);
                let ghost was = indices(order@);
                order.push(at);
                proof {
                    assert(indices(order@) =~= was.push(at as int));
                    lemma_longer(s, was, at as int);
                    lemma_taken(s, indices(order@));
                    lemma_fits(indices(order@), s.len());
                    let after = queues@;
                    let fewer = rest.remove(at as int);
                    assert(after =~= before.update(q as int, moved));
                    lemma_advance(s, before, after, rest, q as int);
                    rest = fewer;
                }
            },
        }
    }
    proof {
        lemma_taken(s, indices(order@));
        lemma_all_taken(indices(order@), s.len());
    }
    order
}

proof fn lemma_advance(
    s: Seq<Stamp>,
    before: Seq<Queue>,
    after: Seq<Queue>,
    rest: Set<int>,
    q: int,
)
    requires
        merging(s, before, rest),
        0 <= q < before.len(),
        before[q].next < before[q].members@.len(),
        after.len() == before.len(),
        forall|p: int| 0 <= p < before.len() && p != q ==> #[trigger] after[p] == before[p],
        after[q].stream == before[q].stream,
        after[q].members == before[q].members,
        after[q].next == before[q].next + 1,
    ensures
        merging(s, after, rest.remove(head_of(before, q))),
{
    let h = head_of(before, q);
    let fewer = rest.remove(h);
    assert forall|a: int, b: int|
        0 <= a < after.len() && 0 <= b < after.len() && a != b implies (#[trigger] after[a]).stream@
        != (#[trigger] after[b]).stream@ by {
        assert(before[a].stream@ != before[b].stream@);
    }
    assert forall|p: int| 0 <= p < after.len() implies of_stream(
        s,
        #[trigger] after[p],
        s.len() as int,
    ) && sorted(s, after[p].members@) && after[p].next <= after[p].members@.len() by {
        assert(of_stream(s, before[p], s.len() as int));
        assert(sorted(s, before[p].members@));
        if p == q {
            assert forall|k: int| 0 <= k < after[q].members@.len() implies 0 <= (
            #[trigger] after[q].members@[k]) < s.len() && s[after[q].members@[k] as int].stream
                == after[q].stream@ by {
                assert(after[q].members@[k] == before[q].members@[k]);
            }
        }
    }
    assert forall|i: int| #[trigger] fewer.contains(i) implies exists|p: int, k: int| #[trigger]
        holds(after, i, p, k) && after[p].next <= k by {
        assert(rest.contains(i));
        let (p, k) = choose|p: int, k: int| #[trigger]
            holds(before, i, p, k) && before[p].next <= k;
        assert(holds(after, i, p, k) && after[p].next <= k);
    }
    assert forall|p: int, k: int|
        0 <= p < after.len() && after[p].next <= k < after[p].members@.len() implies fewer.contains(
        #[trigger] after[p].members@[k] as int,
    ) by {
        assert(rest.contains(before[p].members@[k] as int));
        if before[p].members@[k] as int == h {
            assert(of_stream(s, before[p], s.len() as int));
            assert(of_stream(s, before[q], s.len() as int));
            assert(s[before[p].members@[k] as int].stream == before[p].stream@);
            assert(s[before[q].members@[before[q].next as int] as int].stream == before[q].stream@);
            if p != q {
                assert(before[p].stream@ != before[q].stream@);
            } else {
                assert(sorted(s, before[q].members@));
                assert(earlier(
                    s,
                    before[q].members@[before[q].next as int] as int,
                    before[q].members@[k] as int,
                ));
            }
        }
    }
}

/// Some events in an order.
pub open spec fn ordered(events: Seq<Envelope>, order: Seq<int>) -> Seq<Envelope> {
    Seq::new(order.len(), |k: int| events[order[k]])
}

/// Put some events into merge order.
pub fn merge_order(events: &mut Vec<Envelope>)
    ensures
        exists|order: Seq<int>| #[trigger]
            in_merge_order(stamps(old(events)@), order) && final(events)@ == ordered(
                old(events)@,
                order,
            ),
{
    let order = merged_order(events);
    let ghost all = events@;
    let ghost steps = indices(order@);
    proof {
        lemma_taken(stamps(all), steps);
    }
    let mut slots: Vec<Option<Envelope>> = Vec::new();
    let mut taken: Vec<Envelope> = Vec::new();
    std::mem::swap(&mut taken, events);
    for event in it: taken.into_iter()
        invariant
            it.seq() == all,
            slots@.len() == it.index(),
            forall|i: int| 0 <= i < slots@.len() ==> #[trigger] slots@[i] == Some(all[i]),
    {
        slots.push(Some(event));
    }
    let mut k: usize = 0;
    while k < order.len()
        invariant
            steps == indices(order@),
            steps.no_duplicates(),
            forall|j: int| 0 <= j < steps.len() ==> 0 <= #[trigger] steps[j] < all.len(),
            slots@.len() == all.len(),
            k <= order@.len(),
            events@ == ordered(all, steps).take(k as int),
            forall|i: int|
                0 <= i < all.len() && !steps.take(k as int).contains(i) ==> #[trigger] slots@[i]
                    == Some(all[i]),
        decreases order@.len() - k,
    {
        let at: usize = order[k];
        assert(steps[k as int] == at);
        assert(!steps.take(k as int).contains(at as int)) by {
            if steps.take(k as int).contains(at as int) {
                let j = choose|j: int|
                    0 <= j < k && steps.take(k as int)[j] == at as int;
                assert(steps[j] == steps[k as int]);
            }
        }
        let mut slot: Option<Envelope> = None;
        std::mem::swap(&mut slot, &mut slots[at]);
        if let Some(event) = slot {
            events.push(event);
        }
        proof {
            assert forall|i: int|
                0 <= i < all.len() && !steps.take(k + 1).contains(i) implies #[trigger] slots@[i]
                == Some(all[i]) by {
                assert(steps.take(k + 1)[k as int] == at as int);
                if steps.take(k as int).contains(i) {
                    let j = choose|j: int| 0 <= j < k && steps.take(k as int)[j] == i;
                    assert(steps.take(k + 1)[j] == i);
                }
            }
        }
        k += 1;
        assert(events@ =~= ordered(all, steps).take(k as int));
    }
    assert(events@ =~= ordered(all, steps));
}

/// There is one merge order: two readings of one store agree.
pub proof fn law_merge_order_is_one(s: Seq<Stamp>, one: Seq<int>, two: Seq<int>)
    requires
        in_merge_order(s, one),
        in_merge_order(s, two),
    ensures
        one == two,
{
    lemma_agree(s, one, two, s.len() as int);
    assert(one =~= two);
}

proof fn lemma_agree(s: Seq<Stamp>, one: Seq<int>, two: Seq<int>, n: int)
    requires
        in_merge_order(s, one),
        in_merge_order(s, two),
        0 <= n <= s.len(),
    ensures
        forall|k: int| 0 <= k < n ==> #[trigger] one[k] == two[k],
    decreases n,
{
    if n > 0 {
        lemma_agree(s, one, two, n - 1);
        let k = n - 1;
        assert(one.take(k) =~= two.take(k));
        let rest = left(s.len(), one, k);
        assert(rest =~= left(s.len(), two, k));
        assert(is_next(s, rest, one[k]));
        assert(is_next(s, rest, two[k]));
        if one[k] != two[k] {
            assert(goes_before(s, one[k], two[k]));
            assert(goes_before(s, two[k], one[k]));
            lemma_goes_transitive(s, one[k], two[k], one[k]);
            text::lemma_precedes_irreflexive(s[one[k]].ts);
            text::lemma_precedes_irreflexive(s[one[k]].stream);
        }
    }
}

/// Merging keeps every record and invents none.
pub proof fn law_merging_loses_nothing(s: Seq<Stamp>, order: Seq<int>)
    requires
        in_merge_order(s, order),
    ensures
        order.no_duplicates(),
        forall|k: int| 0 <= k < order.len() ==> 0 <= #[trigger] order[k] < s.len(),
        forall|i: int| 0 <= i < s.len() ==> #[trigger] order.contains(i),
{
    lemma_taken(s, order);
    order.unique_seq_to_set();
    let all = vstd::set_lib::set_int_range(0, s.len() as int);
    vstd::set_lib::lemma_int_range(0, s.len() as int);
    assert(order.to_set().subset_of(all));
    vstd::set_lib::lemma_subset_equality(order.to_set(), all);
    assert forall|i: int| 0 <= i < s.len() implies #[trigger] order.contains(i) by {
        assert(all.contains(i));
        assert(order.to_set().contains(i));
    }
}

/// A stream's own sequence survives timestamps that do not agree with it: of two records
/// of one stream, the one written earlier comes earlier.
pub proof fn law_a_streams_own_sequence_outranks_its_timestamps(
    s: Seq<Stamp>,
    order: Seq<int>,
    a: int,
    b: int,
)
    requires
        in_merge_order(s, order),
        0 <= a < b < order.len(),
        s[order[a]].stream == s[order[b]].stream,
    ensures
        earlier(s, order[a], order[b]),
{
    lemma_taken(s, order);
    let rest = left(s.len(), order, a);
    assert(is_next(s, rest, order[a]));
    assert(rest.contains(order[b])) by {
        if order.take(a).contains(order[b]) {
            let j = choose|j: int| 0 <= j < a && order.take(a)[j] == order[b];
            assert(order[j] == order[b]);
        }
    }
}

/// Every stream's timestamps agree with its sequence.
pub open spec fn clocks_agree(s: Seq<Stamp>) -> bool {
    forall|i: int, j: int|
        0 <= i < s.len() && 0 <= j < s.len() && s[i].stream == s[j].stream && #[trigger] earlier(
            s,
            i,
            j,
        ) ==> !precedes(s[j].ts, s[i].ts)
}

/// The first of a stream's records that are left.
proof fn lemma_has_head(s: Seq<Stamp>, rest: Set<int>, i: int) -> (h: int)
    requires
        rest.contains(i),
        forall|j: int| #[trigger] rest.contains(j) ==> 0 <= j < s.len(),
    ensures
        is_head(s, rest, h),
        s[h].stream == s[i].stream,
        h == i || earlier(s, h, i),
    decreases s[i].seq, i,
{
    if is_head(s, rest, i) {
        i
    } else {
        let j = choose|j: int| #[trigger]
            rest.contains(j) && j != i && s[j].stream == s[i].stream && !earlier(s, i, j);
        assert(earlier(s, j, i));
        lemma_has_head(s, rest, j)
    }
}

/// Where the clocks agree with the sequences, the merge is in the order of the clock.
pub proof fn law_streams_interleave_by_timestamp(s: Seq<Stamp>, order: Seq<int>, a: int, b: int)
    requires
        in_merge_order(s, order),
        clocks_agree(s),
        0 <= a < b < order.len(),
    ensures
        !precedes(s[order[b]].ts, s[order[a]].ts),
{
    lemma_taken(s, order);
    let rest = left(s.len(), order, a);
    let x = order[a];
    let y = order[b];
    assert(is_next(s, rest, x));
    assert(rest.contains(y)) by {
        if order.take(a).contains(y) {
            let j = choose|j: int| 0 <= j < a && order.take(a)[j] == y;
            assert(order[j] == y);
        }
    }
    let h = lemma_has_head(s, rest, y);
    if h != x {
        assert(goes_before(s, x, h));
    }
    if h != y {
        assert(earlier(s, h, y));
        assert(!precedes(s[y].ts, s[h].ts));
    }
    if precedes(s[y].ts, s[x].ts) {
        if h == x {
        } else if precedes(s[x].ts, s[h].ts) {
            text::lemma_precedes_transitive(s[y].ts, s[x].ts, s[h].ts);
            if h == y {
                text::lemma_precedes_irreflexive(s[y].ts);
            }
        }
        if h == y {
            text::lemma_precedes_irreflexive(s[y].ts);
            text::lemma_precedes_irreflexive(s[x].ts);
        }
    }
}

/// Within a stream the sequence numbers decide, and two records that claim one number stay
/// as they were appended.
pub proof fn law_a_stream_is_merged_by_its_numbers(s: Seq<Stamp>, order: Seq<int>, a: int, b: int)
    requires
        in_merge_order(s, order),
        0 <= a < b < order.len(),
        s[order[a]].stream == s[order[b]].stream,
    ensures
        s[order[a]].seq <= s[order[b]].seq,
        s[order[a]].seq == s[order[b]].seq ==> order[a] < order[b],
{
    law_a_streams_own_sequence_outranks_its_timestamps(s, order, a, b);
}

/// Between streams the timestamps of what each has next decide, and a tie goes to the
/// stream whose id comes first.
pub proof fn law_streams_are_merged_by_what_each_has_next(
    s: Seq<Stamp>,
    order: Seq<int>,
    a: int,
    b: int,
)
    requires
        in_merge_order(s, order),
        0 <= a < b < order.len(),
        forall|c: int| a <= c < b ==> s[#[trigger] order[c]].stream != s[order[b]].stream,
    ensures
        !precedes(s[order[b]].ts, s[order[a]].ts),
        s[order[a]].ts == s[order[b]].ts ==> precedes(s[order[a]].stream, s[order[b]].stream),
{
    law_merging_loses_nothing(s, order);
    let rest = left(s.len(), order, a);
    let i = order[a];
    let h = order[b];
    assert(is_next(s, rest, i));
    assert(s[order[a]].stream != s[h].stream);
    assert(!order.take(a).contains(h)) by {
        if order.take(a).contains(h) {
            let c = choose|c: int| 0 <= c < order.take(a).len() && order.take(a)[c] == h;
            assert(order[c] == order[b]);
        }
    }
    assert forall|j: int| #[trigger]
        rest.contains(j) && j != h && s[j].stream == s[h].stream implies earlier(s, h, j) by {
        assert(order.contains(j));
        let c = choose|c: int| 0 <= c < order.len() && order[c] == j;
        if c < a {
            assert(order.take(a)[c] == j);
        }
        if a <= c < b {
            assert(s[order[c]].stream != s[h].stream);
        }
        law_a_streams_own_sequence_outranks_its_timestamps(s, order, b, c);
    }
    assert(is_head(s, rest, h));
    assert(goes_before(s, i, h));
    if precedes(s[h].ts, s[i].ts) {
        if precedes(s[i].ts, s[h].ts) {
            text::lemma_precedes_transitive(s[h].ts, s[i].ts, s[h].ts);
        }
        text::lemma_precedes_irreflexive(s[h].ts);
    }
    if s[i].ts == s[h].ts {
        text::lemma_precedes_irreflexive(s[h].ts);
    }
}

} // verus!
