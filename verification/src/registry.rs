//! The task registry.
//!
//! Maps each document identifier to at most one in-flight render. `register`
//! is the sole gate deciding whether a new render may start; `complete`
//! releases the slot and is idempotent, so a stray duplicate completion is
//! harmless.

use crate::ids::str_eq;
use vstd::prelude::*;

verus! {

/// Tracks the identifiers with an in-flight render, at most one task each.
pub struct TaskRegistry {
    active: Vec<String>,
}

impl TaskRegistry {
    /// The identifiers currently marked in-flight, in registration order.
    pub closed spec fn ids(self) -> Seq<Seq<char>> {
        self.active@.map_values(|s: String| s@)
    }

    /// Whether `id` currently has an in-flight render.
    pub open spec fn is_pending(self, id: Seq<char>) -> bool {
        self.ids().contains(id)
    }

    /// How many in-flight tasks `id` has.
    pub open spec fn pending_count(self, id: Seq<char>) -> nat {
        occurrences(self.ids(), id)
    }

    /// Well-formed: no identifier is registered twice.
    pub open spec fn wf(self) -> bool {
        forall|i: int, j: int|
            0 <= i < j < self.ids().len() ==> self.ids()[i] != self.ids()[j]
    }

    /// Creates an empty registry.
    pub fn new() -> (r: TaskRegistry)
        ensures
            r.ids() =~= Seq::<Seq<char>>::empty(),
            r.wf(),
    {
        TaskRegistry { active: Vec::new() }
    }

    /// Looks for `id` among the in-flight identifiers.
    fn find(&self, id: &String) -> (r: Option<usize>)
        ensures
            match r {
                Some(i) => i < self.ids().len() && self.ids()[i as int] == id@,
                None => !self.is_pending(id@),
            },
    {
        let mut i: usize = 0;
        while i < self.active.len()
            invariant
                i <= self.active.len(),
                forall|k: int| 0 <= k < i ==> self.ids()[k] != id@,
            decreases self.active.len() - i,
        {
            if str_eq(self.active[i].as_str(), id.as_str()) {
                return Some(i);
            }
            i += 1;
        }
        proof {
            if self.is_pending(id@) {
                let k = choose|k: int| 0 <= k < self.ids().len() && self.ids()[k] == id@;
                assert(self.ids()[k] != id@);
            }
        }
        None
    }

    /// Registers an in-flight render for `id`. Returns `false`, registering
    /// nothing, if `id` already has one; the caller must then not start a
    /// second render.
    pub fn register(&mut self, id: &String) -> (r: bool)
        requires
            old(self).wf(),
        ensures
            r == !old(self).is_pending(id@),
            r ==> final(self).ids() =~= old(self).ids().push(id@),
            !r ==> *final(self) == *old(self),
            final(self).wf(),
    {
        match self.find(id) {
            Some(_) => false,
            None => {
                self.active.push(id.clone());
                proof {
                    assert(self.ids() =~= old(self).ids().push(id@));
                }
                true
            }
        }
    }

    /// Releases the task slot of `id` once its render has settled. A no-op
    /// when `id` has no in-flight render, so completing twice is safe.
    pub fn complete(&mut self, id: &String)
        requires
            old(self).wf(),
        ensures
            !old(self).is_pending(id@) ==> *final(self) == *old(self),
            forall|x: Seq<char>|
                final(self).is_pending(x) == (old(self).is_pending(x) && x != id@),
            final(self).ids().len()
                == old(self).ids().len() - (if old(self).is_pending(id@) { 1int } else { 0int }),
            old(self).is_pending(id@) ==> exists|k: int|
                0 <= k < old(self).ids().len() && old(self).ids()[k] == id@ && final(self).ids()
                    =~= old(self).ids().remove(k),
            final(self).wf(),
    {
        match self.find(id) {
            Some(i) => {
                self.active.remove(i);
                proof {
                    let pre = old(self).ids();
                    let post = self.ids();
                    assert(post =~= pre.subrange(0, i as int)
                        + pre.subrange(i + 1, pre.len() as int));
                    assert(post =~= pre.remove(i as int));
                    assert forall|x: Seq<char>|
                        self.is_pending(x) == (old(self).is_pending(x) && x != id@) by {
                        if self.is_pending(x) {
                            let k = choose|k: int| 0 <= k < post.len() && post[k] == x;
                            if k < i {
                                assert(pre[k] == x);
                            } else {
                                assert(pre[k + 1] == x);
                            }
                            assert(old(self).is_pending(x));
                            assert(x != id@);
                        }
                        if old(self).is_pending(x) && x != id@ {
                            let k = choose|k: int| 0 <= k < pre.len() && pre[k] == x;
                            if k < i {
                                assert(post[k] == x);
                            } else {
                                assert(post[k - 1] == x);
                            }
                            assert(self.is_pending(x));
                        }
                    }
                }
            }
            None => (),
        }
    }

    /// How many identifiers are currently in flight.
    pub fn len(&self) -> (r: usize)
        ensures
            r == self.ids().len(),
    {
        self.active.len()
    }

    /// Whether `id` currently has an in-flight render.
    pub fn contains(&self, id: &String) -> (r: bool)
        ensures
            r == self.is_pending(id@),
    {
        self.find(id).is_some()
    }
}

/// How often `id` occurs in `s`.
pub open spec fn occurrences(s: Seq<Seq<char>>, id: Seq<char>) -> nat {
    s.filter(|x: Seq<char>| x == id).len()
}

/// In a well-formed registry no identifier ever has more than one in-flight
/// task: registering a duplicate is refused, so the per-identifier count is
/// bounded by one.
pub proof fn lemma_pending_count_at_most_one(r: TaskRegistry, id: Seq<char>)
    requires
        r.wf(),
    ensures
        r.pending_count(id) <= 1,
{
    lemma_distinct_occurrences(r.ids(), id);
}

proof fn lemma_distinct_occurrences(s: Seq<Seq<char>>, id: Seq<char>)
    requires
        forall|i: int, j: int| 0 <= i < j < s.len() ==> s[i] != s[j],
    ensures
        occurrences(s, id) <= 1,
    decreases s.len(),
{
    reveal(Seq::filter);
    if s.len() > 0 {
        let head = s.drop_last();
        lemma_distinct_occurrences(head, id);
        if s.last() == id {
            lemma_absent_occurrences(head, id);
        }
    }
}

proof fn lemma_absent_occurrences(s: Seq<Seq<char>>, id: Seq<char>)
    requires
        forall|i: int| 0 <= i < s.len() ==> s[i] != id,
    ensures
        occurrences(s, id) == 0,
    decreases s.len(),
{
    reveal(Seq::filter);
    if s.len() > 0 {
        lemma_absent_occurrences(s.drop_last(), id);
    }
}

} // verus!
