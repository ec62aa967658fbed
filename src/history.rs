//! A fixed-capacity history that keeps the last values pushed into it.

use vstd::prelude::*;

verus! {

/// The abstract state of a `LogBuffer`: its slots in storage order, the
/// index of the slot written last, and how many slots hold pushed values.
pub ghost struct HistoryModel<T> {
    pub slots: Seq<T>,
    pub cursor: nat,
    pub filled: nat,
}

impl<T> HistoryModel<T> {
    /// A history of `capacity` slots, each holding `init`, with nothing pushed.
    pub open spec fn fresh(capacity: nat, init: T) -> HistoryModel<T> {
        HistoryModel { slots: Seq::new(capacity, |i: int| init), cursor: 0, filled: 0 }
    }

    pub open spec fn capacity(self) -> nat {
        self.slots.len()
    }

    pub open spec fn wf(self) -> bool {
        &&& self.capacity() > 0
        &&& self.cursor < self.capacity()
        &&& self.filled <= self.capacity()
    }

    /// The slot after `cursor`, wrapping round at the capacity.
    pub open spec fn next_cursor(self) -> nat {
        if self.cursor + 1 == self.capacity() {
            0
        } else {
            self.cursor + 1
        }
    }

    /// The cursor moves on one slot, then the value is written there.
    pub open spec fn push(self, x: T) -> HistoryModel<T> {
        HistoryModel {
            slots: self.slots.update(self.next_cursor() as int, x),
            cursor: self.next_cursor(),
            filled: if self.filled + 1 <= self.capacity() {
                self.filled + 1
            } else {
                self.capacity()
            },
        }
    }

    /// The history after pushing each of `xs`, first to last.
    pub open spec fn push_all(self, xs: Seq<T>) -> HistoryModel<T>
        decreases xs.len(),
    {
        if xs.len() == 0 {
            self
        } else {
            self.push_all(xs.drop_last()).push(xs.last())
        }
    }

    pub open spec fn latest(self) -> T {
        self.slots[self.cursor as int]
    }

    /// The slot written `back` pushes before the one at the cursor.
    pub open spec fn slot_back(self, back: nat) -> nat {
        if back <= self.cursor {
            (self.cursor - back) as nat
        } else {
            (self.cursor + self.capacity() - back) as nat
        }
    }
}

/// A buffer that fills up to a fixed number of slots and then holds the last
/// values pushed into it, overwriting old ones in round-robin order.
///
/// The cursor moves before each write, so the slot at index 0 keeps its
/// initial value until the cursor has gone round once. The slots are meant
/// for order-free aggregates (a sum, an average), not for recency order.
pub struct LogBuffer<T> {
    head: usize,
    size: usize,
    contents: Vec<T>,
}

impl<T> View for LogBuffer<T> {
    type V = HistoryModel<T>;

    closed spec fn view(&self) -> HistoryModel<T> {
        HistoryModel { slots: self.contents@, cursor: self.head as nat, filled: self.size as nat }
    }
}

impl<T: Copy> LogBuffer<T> {
    /// A buffer of `size` slots, each set to `init_val`, with nothing pushed yet.
    pub fn new(size: usize, init_val: T) -> (r: LogBuffer<T>)
        requires
            size > 0,
        ensures
            r@ == HistoryModel::fresh(size as nat, init_val),
            r@.wf(),
    {
        let mut v: Vec<T> = Vec::with_capacity(size);
        let mut i: usize = 0;
        while i < size
            invariant
                i <= size,
                v@ == Seq::new(i as nat, |j: int| init_val),
            decreases size - i,
        {
            v.push(init_val);
            i = i + 1;
            assert(v@ =~= Seq::new(i as nat, |j: int| init_val));
        }
        proof {
            assert(v@ =~= Seq::new(size as nat, |j: int| init_val));
        }
        LogBuffer { head: 0, size: 0, contents: v }
    }

    /// Pushes a new item, overwriting the slot after the cursor.
    pub fn push(&mut self, item: T)
        requires
            old(self)@.wf(),
        ensures
            final(self)@ == old(self)@.push(item),
            final(self)@.wf(),
            final(self)@.latest() == item,
    {
        let len = self.contents.len();
        self.head = if self.head + 1 == len {
            0
        } else {
            self.head + 1
        };
        self.contents[self.head] = item;
        self.size = if self.size < len {
            self.size + 1
        } else {
            len
        };
    }

    /// All the slots in storage order, including those never written.
    pub fn contents(&self) -> (r: &[T])
        ensures
            r@ == self@.slots,
    {
        self.contents.as_slice()
    }

    /// The value pushed last (the initial value before any push).
    pub fn latest(&self) -> (r: T)
        requires
            self@.wf(),
        ensures
            r == self@.latest(),
    {
        self.contents[self.head]
    }

    /// How many slots hold pushed values: the number of pushes, up to the capacity.
    pub fn logical_count(&self) -> (r: usize)
        ensures
            r == self@.filled,
    {
        self.size
    }
}

/// Pushing keeps a history well formed.
pub proof fn lemma_push_all_wf<T>(m: HistoryModel<T>, xs: Seq<T>)
    requires
        m.wf(),
    ensures
        m.push_all(xs).wf(),
        m.push_all(xs).capacity() == m.capacity(),
    decreases xs.len(),
{
    if xs.len() > 0 {
        lemma_push_all_wf(m, xs.drop_last());
    }
}

/// The count of filled slots grows by one with each push and then stays at
/// the capacity: from a fresh history, after `k` pushes it is `min(k, capacity)`.
pub proof fn lemma_filled_saturates<T>(m: HistoryModel<T>, xs: Seq<T>)
    requires
        m.wf(),
    ensures
        m.push_all(xs).filled == if m.filled + xs.len() <= m.capacity() {
            m.filled + xs.len()
        } else {
            m.capacity()
        },
    decreases xs.len(),
{
    if xs.len() > 0 {
        lemma_filled_saturates(m, xs.drop_last());
        lemma_push_all_wf(m, xs.drop_last());
    }
}

/// The latest value right after a push is the value pushed.
pub proof fn lemma_latest_after_push<T>(m: HistoryModel<T>, x: T)
    requires
        m.wf(),
    ensures
        m.push(x).latest() == x,
{
}

/// After pushes of one value `d`, the last `min(pushes, capacity)` slots
/// written, counting back from the cursor, all hold `d`.
proof fn lemma_recent_slots_hold<T>(m: HistoryModel<T>, xs: Seq<T>, d: T)
    requires
        m.wf(),
        forall|i: int| 0 <= i < xs.len() ==> xs[i] == d,
    ensures
        forall|back: nat|
            back < xs.len() && back < m.capacity() ==> m.push_all(xs).slots[#[trigger] m.push_all(
                xs,
            ).slot_back(back) as int] == d,
    decreases xs.len(),
{
    if xs.len() > 0 {
        let prev = m.push_all(xs.drop_last());
        lemma_recent_slots_hold(m, xs.drop_last(), d);
        lemma_push_all_wf(m, xs.drop_last());
        let cur = prev.push(xs.last());
        assert(cur == m.push_all(xs));
        assert forall|back: nat| back < xs.len() && back < m.capacity() implies cur.slots[
            #[trigger] cur.slot_back(back) as int] == d by {
            if back > 0 {
                assert(cur.slot_back(back) == prev.slot_back((back - 1) as nat));
                assert(cur.slot_back(back) != cur.cursor);
            }
        }
    }
}

/// Once at least `capacity` pushes of one value `d` have been made, every
/// slot holds `d` and every slot counts as filled.
pub proof fn lemma_steady_slots<T>(m: HistoryModel<T>, xs: Seq<T>, d: T)
    requires
        m.wf(),
        xs.len() >= m.capacity(),
        forall|i: int| 0 <= i < xs.len() ==> xs[i] == d,
    ensures
        m.push_all(xs).slots =~= Seq::new(m.capacity(), |i: int| d),
        m.push_all(xs).filled == m.capacity(),
{
    let r = m.push_all(xs);
    lemma_recent_slots_hold(m, xs, d);
    lemma_push_all_wf(m, xs);
    lemma_filled_saturates(m, xs);
    assert forall|t: int| 0 <= t < r.slots.len() implies r.slots[t] == d by {
        let back: nat = if t <= r.cursor {
            (r.cursor - t) as nat
        } else {
            (r.cursor + r.capacity() - t) as nat
        };
        assert(r.slot_back(back) == t);
    }
}

} // verus!
