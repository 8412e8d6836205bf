//! The children whose exit a restart has to wait for.
//!
//! Whoever spawns a process registers it here under an identifier of its
//! choice (the process id will do), and whoever sees it exit reports that. A
//! child is held once, so nothing is ever asked to wait for it twice.

use vstd::prelude::*;

verus! {

/// Identifies a spawned child for as long as it is pending.
pub type ChildId = u64;

/// The pending children, in the order in which they were registered.
#[derive(Debug, PartialEq, Eq)]
pub struct PendingChildRegistry {
    children: Vec<ChildId>,
}

impl View for PendingChildRegistry {
    type V = Seq<ChildId>;

    closed spec fn view(&self) -> Seq<ChildId> {
        self.children@
    }
}

/// Taking a value out of a list without duplicates leaves a list without
/// duplicates that holds the other values and not that one.
pub proof fn lemma_remove_value(s: Seq<ChildId>, child: ChildId)
    requires
        s.no_duplicates(),
    ensures
        s.remove_value(child).no_duplicates(),
        !s.remove_value(child).contains(child),
        forall|other: ChildId|
            other != child ==> (s.remove_value(child).contains(other) <==> s.contains(other)),
        s.contains(child) ==> s.remove_value(child).len() == s.len() - 1,
        !s.contains(child) ==> s.remove_value(child) == s,
        s.len() > 0 && s[0] != child ==> s.remove_value(child).len() > 0 && s.remove_value(
            child,
        )[0] == s[0],
        s.len() > 0 && s[0] == child ==> s.remove_value(child) == s.drop_first(),
{
    s.index_of_first_ensures(child);
    let r = s.remove_value(child);
    match s.index_of_first(child) {
        None => {},
        Some(i) => {
            assert(r == s.remove(i));
            assert forall|a: int, b: int| 0 <= a < r.len() && 0 <= b < r.len() && a != b implies r[a]
                != r[b] by {
                let a0 = if a < i {
                    a
                } else {
                    a + 1
                };
                let b0 = if b < i {
                    b
                } else {
                    b + 1
                };
                assert(r[a] == s[a0] && r[b] == s[b0]);
            }
            assert forall|k: int| 0 <= k < r.len() implies r[k] != child by {
                let k0 = if k < i {
                    k
                } else {
                    k + 1
                };
                assert(r[k] == s[k0]);
            }
            assert forall|other: ChildId| other != child implies (r.contains(other) <==> s.contains(
                other,
            )) by {
                if r.contains(other) {
                    let k = choose|k: int| 0 <= k < r.len() && r[k] == other;
                    let k0 = if k < i {
                        k
                    } else {
                        k + 1
                    };
                    assert(s[k0] == other);
                }
                if s.contains(other) {
                    let k = choose|k: int| 0 <= k < s.len() && s[k] == other;
                    let k1 = if k < i {
                        k
                    } else {
                        k - 1
                    };
                    assert(r[k1] == other);
                }
            }
            if s[0] == child {
                assert(i == 0);
                assert(s.remove(0) =~= s.drop_first());
            } else {
                assert(r[0] == s[0]);
            }
        },
    }
}

impl PendingChildRegistry {
    /// No child is held twice.
    #[verifier::type_invariant]
    pub open spec fn held_once(self) -> bool {
        self@.no_duplicates()
    }

    /// A registry without children.
    pub fn new() -> (r: PendingChildRegistry)
        ensures
            r@ == Seq::<ChildId>::empty(),
    {
        PendingChildRegistry { children: Vec::new() }
    }

    /// How many children are pending.
    pub fn len(&self) -> (r: usize)
        ensures
            r == self@.len(),
    {
        self.children.len()
    }

    /// Whether no child is pending.
    pub fn is_empty(&self) -> (r: bool)
        ensures
            r == (self@.len() == 0),
    {
        self.children.len() == 0
    }

    /// Where `child` is held.
    fn find(&self, child: ChildId) -> (r: Option<usize>)
        ensures
            match r {
                Some(i) => i < self@.len() && self@.index_of_first(child) == Some(i as int),
                None => !self@.contains(child),
            },
    {
        let mut i: usize = 0;
        while i < self.children.len()
            invariant
                i <= self.children.len(),
                forall|k: int| 0 <= k < i ==> self.children@[k] != child,
            decreases self.children.len() - i,
        {
            if self.children[i] == child {
                proof {
                    assert(self@[i as int] == child);
                    self@.index_of_first_ensures(child);
                }
                return Some(i);
            }
            i = i + 1;
        }
        None
    }

    /// Whether `child` is pending.
    pub fn contains(&self, child: ChildId) -> (r: bool)
        ensures
            r == self@.contains(child),
    {
        let found = self.find(child);
        proof {
            self@.index_of_first_ensures(child);
        }
        found.is_some()
    }

    /// The child that was registered first among those pending.
    pub fn first(&self) -> (r: Option<ChildId>)
        ensures
            r == if self@.len() > 0 {
                Some(self@[0])
            } else {
                None
            },
    {
        if self.children.len() > 0 {
            Some(self.children[0])
        } else {
            None
        }
    }

    /// Takes `child` in as pending. Says whether it did: a child that is
    /// pending already is not taken in again.
    pub fn register(&mut self, child: ChildId) -> (added: bool)
        ensures
            added == !old(self)@.contains(child),
            final(self)@ == if added {
                old(self)@.push(child)
            } else {
                old(self)@
            },
    {
        proof {
            use_type_invariant(&*self);
        }
        if self.contains(child) {
            false
        } else {
            let mut children: Vec<ChildId> = Vec::new();
            core::mem::swap(&mut self.children, &mut children);
            children.push(child);
            self.children = children;
            true
        }
    }

    /// Notes that `child` has exited. Says whether it was pending.
    pub fn complete(&mut self, child: ChildId) -> (was_pending: bool)
        ensures
            was_pending == old(self)@.contains(child),
            final(self)@ == old(self)@.remove_value(child),
    {
        proof {
            use_type_invariant(&*self);
            lemma_remove_value(self@, child);
            self@.index_of_first_ensures(child);
        }
        match self.find(child) {
            Some(i) => {
                let mut children: Vec<ChildId> = Vec::new();
                core::mem::swap(&mut self.children, &mut children);
                children.remove(i);
                self.children = children;
                true
            },
            None => false,
        }
    }
}

} // verus!
