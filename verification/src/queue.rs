use std::collections::VecDeque;
use std::ops::Range;
use vstd::prelude::*;

verus! {

/// The pending piece indices, shared by all sessions of a download: a
/// session takes the index that has waited longest, and gives back one that
/// it could not fetch, which then waits behind all others.
#[derive(Debug)]
pub struct PiecesQueue {
    pending: VecDeque<usize>,
}

impl View for PiecesQueue {
    type V = Seq<usize>;

    /// The pending indices, the next one to be taken first.
    closed spec fn view(&self) -> Seq<usize> {
        self.pending@
    }
}

/// The indices from `start` up to, and not including, `end`, in ascending
/// order.
pub open spec fn range_seq(start: int, end: int) -> Seq<usize> {
    Seq::new(
        if start <= end {
            (end - start) as nat
        } else {
            0
        },
        |i: int| (start + i) as usize,
    )
}

/// Every index of `queue` is below `count`.
pub open spec fn queue_within(queue: Seq<usize>, count: int) -> bool {
    forall|i: int| 0 <= i < queue.len() ==> 0 <= #[trigger] queue[i] < count
}

/// One call on the queue, by any session.
pub enum QueueCall {
    /// A session asks for the next index.
    Take,
    /// A session gives an index back.
    Return(usize),
}

/// What a session that asks gets from a queue that holds `pending`: the
/// index in front, or nothing where nothing is pending.
pub open spec fn front(pending: Seq<usize>) -> Option<usize> {
    if pending.len() > 0 {
        Some(pending[0])
    } else {
        None
    }
}

/// What is pending after `call` on a queue that held `pending`.
pub open spec fn after(pending: Seq<usize>, call: QueueCall) -> Seq<usize> {
    match call {
        QueueCall::Take => if pending.len() > 0 {
            pending.drop_first()
        } else {
            pending
        },
        QueueCall::Return(piece) => pending.push(piece),
    }
}

impl PiecesQueue {
    /// A queue that holds every index of `pieces` once, in ascending order.
    pub fn new(pieces: Range<usize>) -> (queue: Self)
        ensures
            queue@ == range_seq(pieces.start as int, pieces.end as int),
    {
        let mut pending: VecDeque<usize> = VecDeque::new();
        let mut next: usize = pieces.start;
        while next < pieces.end
            invariant
                pieces.start <= next,
                next <= pieces.end || next == pieces.start,
                pending@ == range_seq(pieces.start as int, next as int),
            decreases pieces.end - next,
        {
            pending.push_back(next);
            next = next + 1;
            assert(pending@ =~= range_seq(pieces.start as int, next as int));
        }
        assert(pending@ =~= range_seq(pieces.start as int, pieces.end as int));
        PiecesQueue { pending }
    }

    /// Removes and returns the index that has waited longest, or says that
    /// none is pending.
    pub fn take_piece(&mut self) -> (piece: Option<usize>)
        ensures
            piece == front(old(self)@),
            final(self)@ == after(old(self)@, QueueCall::Take),
    {
        let piece = self.pending.pop_front();
        assert(old(self)@.len() > 0 ==> self.pending@ =~= old(self)@.drop_first());
        piece
    }

    /// Puts `piece` behind all pending indices.
    pub fn push_piece(&mut self, piece: usize)
        ensures
            final(self)@ == after(old(self)@, QueueCall::Return(piece)),
    {
        self.pending.push_back(piece)
    }

    /// Number of pending indices.
    pub fn len(&self) -> (count: usize)
        ensures
            count == self@.len(),
    {
        self.pending.len()
    }

    /// Whether nothing is pending.
    pub fn is_empty(&self) -> (empty: bool)
        ensures
            empty <==> self@.len() == 0,
    {
        self.pending.len() == 0
    }

    /// Whether every pending index is below `count`.
    pub fn all_below(&self, count: usize) -> (within: bool)
        ensures
            within == queue_within(self@, count as int),
    {
        let mut i: usize = 0;
        while i < self.pending.len()
            invariant
                i <= self.pending@.len(),
                queue_within(self.pending@.take(i as int), count as int),
            decreases self.pending@.len() - i,
        {
            if self.pending[i] >= count {
                return false;
            }
            assert forall|k: int| 0 <= k < i + 1 implies #[trigger] self.pending@.take(i + 1)[k]
                < count by {
                if k < i {
                    assert(self.pending@.take(i as int)[k] == self.pending@[k]);
                }
            }
            i = i + 1;
        }
        assert(self.pending@.take(i as int) =~= self.pending@);
        true
    }
}

/// What is pending after `calls` were made, one after the other, on a queue
/// that held `start`.
pub open spec fn pending_after(start: Seq<usize>, calls: Seq<QueueCall>) -> Seq<usize>
    decreases calls.len(),
{
    if calls.len() == 0 {
        start
    } else {
        after(pending_after(start, calls.drop_last()), calls.last())
    }
}

/// What call number `k` of `calls` hands to its session: for a `Take` the
/// index then in front, if there is one, and nothing otherwise.
pub open spec fn handed_out(start: Seq<usize>, calls: Seq<QueueCall>, k: int) -> Option<usize> {
    match calls[k] {
        QueueCall::Take => front(pending_after(start, calls.take(k))),
        QueueCall::Return(_) => None,
    }
}

/// The indices that sessions hold after `calls`: those handed out and not
/// given back since.
pub open spec fn held_after(start: Seq<usize>, calls: Seq<QueueCall>) -> Set<usize>
    decreases calls.len(),
{
    if calls.len() == 0 {
        Set::empty()
    } else {
        let held = held_after(start, calls.drop_last());
        match calls.last() {
            QueueCall::Take => match front(pending_after(start, calls.drop_last())) {
                Some(piece) => held.insert(piece),
                None => held,
            },
            QueueCall::Return(piece) => held.remove(piece),
        }
    }
}

/// Whether sessions give back only what they hold.
pub open spec fn orderly(start: Seq<usize>, calls: Seq<QueueCall>) -> bool {
    forall|k: int|
        0 <= k < calls.len() ==> (#[trigger] calls[k] matches QueueCall::Return(piece)
            ==> held_after(start, calls.take(k)).contains(piece))
}

/// While sessions give back only what they hold, no index is pending
/// twice, and none is pending while a session holds it.
pub proof fn lemma_pending_apart_from_held(start: Seq<usize>, calls: Seq<QueueCall>)
    requires
        start.no_duplicates(),
        orderly(start, calls),
    ensures
        pending_after(start, calls).no_duplicates(),
        forall|piece: usize|
            pending_after(start, calls).contains(piece) ==> !held_after(start, calls).contains(
                piece,
            ),
    decreases calls.len(),
{
    if calls.len() > 0 {
        let prefix = calls.drop_last();
        assert forall|k: int| 0 <= k < prefix.len() implies (#[trigger] prefix[k] matches QueueCall::Return(
            piece,
        ) ==> held_after(start, prefix.take(k)).contains(piece)) by {
            assert(prefix.take(k) =~= calls.take(k));
            assert(prefix[k] == calls[k]);
        }
        lemma_pending_apart_from_held(start, prefix);
        let before = pending_after(start, prefix);
        let held = held_after(start, prefix);
        let after = pending_after(start, calls);
        match calls.last() {
            QueueCall::Take => {
                if before.len() > 0 {
                    assert forall|i: int, j: int|
                        0 <= i < after.len() && 0 <= j < after.len() && i != j implies after[i]
                        != after[j] by {
                        assert(after[i] == before[i + 1] && after[j] == before[j + 1]);
                    }
                    assert forall|piece: usize| after.contains(piece) implies !held_after(
                        start,
                        calls,
                    ).contains(piece) by {
                        let i = choose|i: int| 0 <= i < after.len() && after[i] == piece;
                        assert(before[i + 1] == piece);
                        assert(before.contains(piece));
                    }
                }
            },
            QueueCall::Return(returned) => {
                assert(calls.take(calls.len() - 1) =~= prefix);
                assert(calls[calls.len() - 1] == calls.last());
                assert(held.contains(returned));
                assert(!before.contains(returned));
                assert forall|i: int, j: int|
                    0 <= i < after.len() && 0 <= j < after.len() && i != j implies after[i]
                    != after[j] by {
                    if i < before.len() {
                        assert(before.contains(before[i]));
                    }
                    if j < before.len() {
                        assert(before.contains(before[j]));
                    }
                }
                assert forall|piece: usize| after.contains(piece) implies !held_after(
                    start,
                    calls,
                ).contains(piece) by {
                    let i = choose|i: int| 0 <= i < after.len() && after[i] == piece;
                    if i < before.len() {
                        assert(before.contains(piece));
                    }
                }
            },
        }
    }
}

/// An index that sessions hold after the first `i` calls and no longer
/// after the first `j` was given back by one of the calls between.
pub proof fn lemma_held_until_returned(
    start: Seq<usize>,
    calls: Seq<QueueCall>,
    piece: usize,
    i: int,
    j: int,
)
    requires
        0 <= i <= j <= calls.len(),
        held_after(start, calls.take(i)).contains(piece),
        !held_after(start, calls.take(j)).contains(piece),
    ensures
        exists|c: int| i <= c < j && #[trigger] calls[c] == QueueCall::Return(piece),
    decreases j - i,
{
    if i < j {
        assert(calls.take(j).drop_last() =~= calls.take(j - 1));
        assert(calls.take(j).last() == calls[j - 1]);
        if held_after(start, calls.take(j - 1)).contains(piece) {
            assert(calls[j - 1] == QueueCall::Return(piece));
        } else {
            lemma_held_until_returned(start, calls, piece, i, j - 1);
        }
    }
}

/// An index is handed out a second time only after it was given back:
/// where two calls hand out the same index, a call between them is the
/// return of that index. So each index is with at most one session at a
/// time, whatever the order in which sessions call.
pub proof fn lemma_repeat_needs_return(count: usize, calls: Seq<QueueCall>, a: int, b: int)
    requires
        orderly(range_seq(0, count as int), calls),
        0 <= a < b < calls.len(),
        handed_out(range_seq(0, count as int), calls, a) is Some,
        handed_out(range_seq(0, count as int), calls, a) == handed_out(
            range_seq(0, count as int),
            calls,
            b,
        ),
    ensures
        exists|c: int|
            a < c < b && #[trigger] calls[c] == QueueCall::Return(
                handed_out(range_seq(0, count as int), calls, a)->0,
            ),
{
    let start = range_seq(0, count as int);
    let piece = handed_out(start, calls, a)->0;
    assert(start.no_duplicates());
    assert(calls.take(a + 1).drop_last() =~= calls.take(a));
    assert(calls.take(a + 1).last() == calls[a]);
    assert(held_after(start, calls.take(a + 1)).contains(piece));
    let upto = calls.take(b);
    assert forall|k: int| 0 <= k < upto.len() implies (#[trigger] upto[k] matches QueueCall::Return(
        p,
    ) ==> held_after(start, upto.take(k)).contains(p)) by {
        assert(upto.take(k) =~= calls.take(k));
        assert(upto[k] == calls[k]);
    }
    lemma_pending_apart_from_held(start, upto);
    let before = pending_after(start, upto);
    assert(before.len() > 0 && before[0] == piece);
    assert(before.contains(piece));
    lemma_held_until_returned(start, calls, piece, a + 1, b);
}

/// While no index is given back, the queue hands out `0`, `1`, `2`, ... in
/// this order, each once, and then nothing.
pub proof fn lemma_takes_in_order(count: usize, calls: Seq<QueueCall>, k: int)
    requires
        0 <= k < calls.len(),
        forall|i: int| 0 <= i <= k ==> calls[i] == QueueCall::Take,
    ensures
        pending_after(range_seq(0, count as int), calls.take(k)) == range_seq(
            if k <= count {
                k
            } else {
                count as int
            },
            count as int,
        ),
        handed_out(range_seq(0, count as int), calls, k) == if k < count {
            Some(k as usize)
        } else {
            None::<usize>
        },
    decreases k,
{
    let start = range_seq(0, count as int);
    if k == 0 {
        assert(calls.take(0) =~= Seq::<QueueCall>::empty());
        assert(pending_after(start, calls.take(0)) == start);
    } else {
        lemma_takes_in_order(count, calls, k - 1);
        assert(calls.take(k).drop_last() =~= calls.take(k - 1));
        assert(calls.take(k).last() == calls[k - 1]);
        let before = pending_after(start, calls.take(k - 1));
        if k - 1 < count {
            assert(before.drop_first() =~= range_seq(k, count as int));
        } else {
            assert(before =~= range_seq(count as int, count as int));
        }
    }
}

/// A fresh queue for `count` pieces holds indices below `count` only.
pub proof fn lemma_fresh_queue_is_within(count: usize)
    ensures
        queue_within(range_seq(0, count as int), count as int),
        range_seq(0, count as int).no_duplicates(),
        range_seq(0, count as int).len() == count,
{
}

} // verus!
