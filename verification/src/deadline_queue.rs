use vstd::prelude::*;

verus! {

/// `(key, task)` entries ordered by key, then task id.
pub open spec fn entry_le(a: (u64, usize), b: (u64, usize)) -> bool {
    a.0 < b.0 || (a.0 == b.0 && a.1 <= b.1)
}

/// Entries stored from largest to smallest.
pub open spec fn sorted_desc(s: Seq<(u64, usize)>) -> bool {
    forall|i: int, j: int| 0 <= i < j < s.len() ==> entry_le(s[j], s[i])
}

/// `e` is no larger than any entry of `s`.
pub open spec fn is_min_of(e: (u64, usize), s: Seq<(u64, usize)>) -> bool {
    forall|i: int| 0 <= i < s.len() ==> entry_le(e, s[i])
}

/// Number of entries of `s` that are larger than `e`.
pub open spec fn count_greater(s: Seq<(u64, usize)>, e: (u64, usize)) -> nat
    decreases s.len(),
{
    if s.len() == 0 {
        0
    } else {
        count_greater(s.drop_last(), e) + if !entry_le(s.last(), e) { 1nat } else { 0nat }
    }
}

/// `s` with `e` inserted after every entry larger than it.
pub open spec fn sorted_insert(s: Seq<(u64, usize)>, e: (u64, usize)) -> Seq<(u64, usize)> {
    s.insert(count_greater(s, e) as int, e)
}

/// At most every entry is larger than `e`.
pub proof fn lemma_count_greater_le(s: Seq<(u64, usize)>, e: (u64, usize))
    ensures
        count_greater(s, e) <= s.len(),
    decreases s.len(),
{
    if s.len() > 0 {
        lemma_count_greater_le(s.drop_last(), e);
    }
}

/// The inserted entry is in the queue it was inserted into.
pub proof fn lemma_sorted_insert_contains(s: Seq<(u64, usize)>, e: (u64, usize))
    ensures
        sorted_insert(s, e).contains(e),
{
    lemma_count_greater_le(s, e);
    let pos = count_greater(s, e) as int;
    assert(sorted_insert(s, e)[pos] == e);
}

proof fn lemma_count_greater_split(s: Seq<(u64, usize)>, e: (u64, usize), pos: int)
    requires
        0 <= pos <= s.len(),
        forall|k: int| 0 <= k < pos ==> !entry_le(s[k], e),
        forall|k: int| pos <= k < s.len() ==> entry_le(s[k], e),
    ensures
        count_greater(s, e) == pos,
    decreases s.len(),
{
    if s.len() > 0 {
        if pos == s.len() {
            lemma_count_greater_split(s.drop_last(), e, pos - 1);
        } else {
            lemma_count_greater_split(s.drop_last(), e, pos);
        }
    }
}

/// A min-queue of `(deadline, task)` entries: the entry with the smallest
/// deadline (ties broken by the smaller task id) leaves first. Stale entries are
/// allowed; their owners check them when they leave.
pub struct DeadlineQueue {
    items: Vec<(u64, usize)>,
}

impl View for DeadlineQueue {
    type V = Seq<(u64, usize)>;

    closed spec fn view(&self) -> Seq<(u64, usize)> {
        self.items@
    }
}

fn entry_le_exec(a: (u64, usize), b: (u64, usize)) -> (r: bool)
    ensures
        r == entry_le(a, b),
{
    a.0 < b.0 || (a.0 == b.0 && a.1 <= b.1)
}

impl DeadlineQueue {
    pub closed spec fn wf(&self) -> bool {
        sorted_desc(self.items@)
    }

    /// A well-formed queue holds its entries from largest to smallest.
    pub proof fn lemma_sorted(&self)
        requires
            self.wf(),
        ensures
            sorted_desc(self@),
    {
    }

    pub fn new() -> (q: DeadlineQueue)
        ensures
            q.wf(),
            q@ == Seq::<(u64, usize)>::empty(),
    {
        DeadlineQueue { items: Vec::new() }
    }

    pub fn len(&self) -> (n: usize)
        ensures
            n == self@.len(),
    {
        self.items.len()
    }

    /// Adds an entry; every other entry stays.
    pub fn push(&mut self, key: u64, id: usize)
        requires
            old(self).wf(),
        ensures
            final(self).wf(),
            final(self)@ == sorted_insert(old(self)@, (key, id)),
    {
        let e = (key, id);
        let n = self.items.len();
        let mut pos: usize = n;
        while pos > 0 && entry_le_exec(self.items[pos - 1], e)
            invariant
                pos <= n,
                n == self.items.len(),
                self.items@ == old(self).items@,
                sorted_desc(self.items@),
                forall|k: int| pos <= k < n ==> entry_le(self.items@[k], e),
            decreases pos,
        {
            pos = pos - 1;
        }
        let ghost old_items = self.items@;
        self.items.insert(pos, e);
        proof {
            let s = self.items@;
            assert(s == old_items.insert(pos as int, e));
            assert(self@ == old(self)@.insert(pos as int, e));
            assert forall|k: int| 0 <= k < pos implies !entry_le(old_items[k], e) by {
                assert(!entry_le(old_items[pos - 1], e));
                if k < pos - 1 {
                    assert(entry_le(old_items[pos - 1], old_items[k]));
                }
            }
            lemma_count_greater_split(old_items, e, pos as int);
            assert forall|i: int, j: int| 0 <= i < j < s.len() implies entry_le(s[j], s[i]) by {
                if j < pos {
                } else if j == pos {
                    if i < pos {
                        assert(entry_le(e, old_items[pos - 1]));
                        assert(i == pos - 1 || entry_le(old_items[pos - 1], old_items[i]));
                    }
                } else if i < pos {
                    assert(entry_le(old_items[j - 1], old_items[i]));
                } else if i == pos {
                    assert(entry_le(old_items[j - 1], e));
                } else {
                    assert(entry_le(old_items[j - 1], old_items[i - 1]));
                }
            }
        }
    }

    /// The smallest entry, if any.
    pub fn peek_min(&self) -> (r: Option<(u64, usize)>)
        requires
            self.wf(),
        ensures
            r.is_none() <==> self@.len() == 0,
            r.is_some() ==> self@.len() > 0 && r.unwrap() == self@.last() && is_min_of(r.unwrap(), self@),
    {
        let n = self.items.len();
        if n == 0 {
            None
        } else {
            let e = self.items[n - 1];
            proof {
                assert forall|i: int| 0 <= i < self@.len() implies entry_le(e, self@[i]) by {
                    if i < n - 1 {
                    } else {
                        assert(self@[i] == e);
                    }
                }
            }
            Some(e)
        }
    }

    /// Removes and returns the smallest entry, if any.
    pub fn pop_min(&mut self) -> (r: Option<(u64, usize)>)
        requires
            old(self).wf(),
        ensures
            final(self).wf(),
            r.is_none() <==> old(self)@.len() == 0,
            r.is_none() ==> final(self)@ == old(self)@,
            r.is_some() ==> old(self)@.len() > 0 && r.unwrap() == old(self)@.last()
                && is_min_of(r.unwrap(), old(self)@)
                && final(self)@ == old(self)@.drop_last(),
    {
        let r = self.peek_min();
        if r.is_some() {
            self.items.pop();
        }
        r
    }
}

} // verus!
