//! A queue of actions, each due at a deadline. Deadlines are instants of a
//! monotonic clock, counted in milliseconds.

use vstd::prelude::*;

verus! {

/// Actions waiting for their deadlines. What is due first stands first; of
/// two entries with one deadline, the one added first stands first.
pub struct Queue<T> {
    entries: Vec<(u64, T)>,
}

/// The deadlines of `s` never go down.
pub open spec fn ordered<T>(s: Seq<(u64, T)>) -> bool {
    forall|i: int, j: int| 0 <= i <= j < s.len() ==> s[i].0 <= s[j].0
}

/// How many entries of `s`, counted from index `from`, stand before the
/// first one that is due later than `now`.
pub open spec fn due_from<T>(s: Seq<(u64, T)>, now: u64, from: int) -> nat
    decreases s.len() - from,
{
    if from < 0 || from >= s.len() || s[from].0 > now {
        0
    } else {
        1 + due_from(s, now, from + 1)
    }
}

/// How many entries at the head of `s` are due at `now`.
pub open spec fn due_count<T>(s: Seq<(u64, T)>, now: u64) -> nat {
    due_from(s, now, 0)
}

/// The actions of the entries `s`, without their deadlines.
pub open spec fn actions<T>(s: Seq<(u64, T)>) -> Seq<T> {
    Seq::new(s.len(), |i: int| s[i].1)
}

/// In an ordered sequence, `from + due_from(s, now, from)` splits the
/// entries from `from` on into those due at `now` and those due later.
pub proof fn lemma_due_from<T>(s: Seq<(u64, T)>, now: u64, from: int)
    requires
        ordered(s),
        0 <= from <= s.len(),
    ensures
        from + due_from(s, now, from) <= s.len(),
        forall|i: int| from <= i < from + due_from(s, now, from) ==> (#[trigger] s[i]).0 <= now,
        forall|i: int| from + due_from(s, now, from) <= i < s.len() ==> (#[trigger] s[i]).0 > now,
    decreases s.len() - from,
{
    if from < s.len() && s[from].0 <= now {
        lemma_due_from(s, now, from + 1);
    }
}

/// In an ordered sequence the entries due at `now` are exactly its first
/// `due_count(s, now)` entries.
pub proof fn lemma_due_count<T>(s: Seq<(u64, T)>, now: u64)
    requires
        ordered(s),
    ensures
        due_count(s, now) <= s.len(),
        forall|i: int| 0 <= i < due_count(s, now) ==> (#[trigger] s[i]).0 <= now,
        forall|i: int| due_count(s, now) <= i < s.len() ==> (#[trigger] s[i]).0 > now,
{
    lemma_due_from(s, now, 0);
}

impl<T> View for Queue<T> {
    type V = Seq<(u64, T)>;

    /// The entries in the order in which they fire, each with its deadline.
    closed spec fn view(&self) -> Seq<(u64, T)> {
        self.entries@
    }
}

impl<T> Queue<T> {
    #[verifier::type_invariant]
    spec fn well_formed(self) -> bool {
        ordered(self.entries@)
    }

    /// An empty queue.
    pub fn new() -> (q: Self)
        ensures
            q@ == Seq::<(u64, T)>::empty(),
    {
        Queue { entries: Vec::new() }
    }

    /// Adds `value`, due at `deadline`, behind every entry that is due at
    /// `deadline` or earlier.
    pub fn add(&mut self, deadline: u64, value: T)
        ensures
            final(self)@ == old(self)@.insert(
                due_count(old(self)@, deadline) as int,
                (deadline, value),
            ),
            due_count(old(self)@, deadline) <= old(self)@.len(),
            ordered(old(self)@),
            ordered(final(self)@),
    {
        proof {
            use_type_invariant(&*self);
            lemma_due_count(self.entries@, deadline);
        }
        let mut entries: Vec<(u64, T)> = Vec::new();
        core::mem::swap(&mut self.entries, &mut entries);
        let mut i: usize = 0;
        while i < entries.len() && entries[i].0 <= deadline
            invariant
                i <= entries.len(),
                due_count(entries@, deadline) == i + due_from(entries@, deadline, i as int),
            decreases entries.len() - i,
        {
            i += 1;
        }
        entries.insert(i, (deadline, value));
        self.entries = entries;
    }

    /// Takes out every entry that is due at `now`, and returns their actions
    /// in the order of their deadlines.
    pub fn pop_until(&mut self, now: u64) -> (due: Vec<T>)
        ensures
            due@ == actions(old(self)@.take(due_count(old(self)@, now) as int)),
            final(self)@ == old(self)@.skip(due_count(old(self)@, now) as int),
            due_count(old(self)@, now) <= old(self)@.len(),
            ordered(old(self)@),
            ordered(final(self)@),
            forall|i: int| 0 <= i < due@.len() ==> (#[trigger] old(self)@[i]).0 <= now,
            forall|i: int| 0 <= i < final(self)@.len() ==> (#[trigger] final(self)@[i]).0 > now,
    {
        proof {
            use_type_invariant(&*self);
            lemma_due_count(self.entries@, now);
        }
        let ghost all = self.entries@;
        let mut entries: Vec<(u64, T)> = Vec::new();
        core::mem::swap(&mut self.entries, &mut entries);
        let mut k: usize = 0;
        while k < entries.len() && entries[k].0 <= now
            invariant
                k <= entries.len(),
                due_count(entries@, now) == k + due_from(entries@, now, k as int),
            decreases entries.len() - k,
        {
            k += 1;
        }
        let rest = entries.split_off(k);
        assert(rest@ =~= all.skip(k as int));
        assert(entries@ =~= all.take(k as int));
        assert(ordered(rest@)) by {
            assert forall|i: int, j: int| 0 <= i <= j < rest@.len() implies rest@[i].0
                <= rest@[j].0 by {
                assert(rest@[i] == all[k + i] && rest@[j] == all[k + j]);
            }
        }
        self.entries = rest;
        let ghost head = entries@;
        let mut back: Vec<T> = Vec::new();
        while entries.len() > 0
            invariant
                entries@ == head.take(entries@.len() as int),
                entries@.len() <= head.len(),
                back@.len() == head.len() - entries@.len(),
                forall|j: int| 0 <= j < back@.len() ==> back@[j] == head[head.len() - 1 - j].1,
            decreases entries.len(),
        {
            let ghost n = entries@.len();
            match entries.pop() {
                Some(entry) => {
                    assert(entry == head[n - 1]);
                    back.push(entry.1);
                    assert(entries@ =~= head.take(n - 1));
                },
                None => {},
            }
        }
        let ghost turned = back@;
        let mut due: Vec<T> = Vec::new();
        while back.len() > 0
            invariant
                back@ == turned.take(back@.len() as int),
                back@.len() <= turned.len(),
                turned.len() == head.len(),
                due@.len() == turned.len() - back@.len(),
                forall|j: int| 0 <= j < turned.len() ==> turned[j] == head[head.len() - 1 - j].1,
                forall|j: int| 0 <= j < due@.len() ==> due@[j] == head[j].1,
            decreases back.len(),
        {
            let ghost n = back@.len();
            match back.pop() {
                Some(action) => {
                    assert(action == turned[n - 1]);
                    due.push(action);
                    assert(back@ =~= turned.take(n - 1));
                },
                None => {},
            }
        }
        assert(due@ =~= actions(all.take(k as int)));
        due
    }

    /// The deadline of the entry that fires next, if there is one.
    pub fn peek_time(&self) -> (t: Option<u64>)
        ensures
            self@.len() == 0 ==> t is None,
            self@.len() > 0 ==> t == Some(self@[0].0),
    {
        if self.entries.len() > 0 {
            Some(self.entries[0].0)
        } else {
            None
        }
    }

    /// The number of entries.
    pub fn len(&self) -> (n: usize)
        ensures
            n == self@.len(),
    {
        self.entries.len()
    }
}

} // verus!
