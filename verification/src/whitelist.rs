use vstd::prelude::*;

verus! {

/// An unordered membership list of identities, with idempotent add and
/// remove. Identities are opaque to the ledger beyond equality, so they are
/// carried as plain numeric values.
pub struct Whitelist {
    members: Vec<u64>,
}

impl Whitelist {
    /// Membership predicate of the list.
    pub closed spec fn has(&self, a: u64) -> bool {
        self.members@.contains(a)
    }

    /// Internal invariant: no identity is stored twice.
    pub closed spec fn wf(&self) -> bool {
        forall|i: int, j: int|
            #![trigger self.members@[i], self.members@[j]]
            0 <= i < j < self.members@.len() ==> self.members@[i] != self.members@[j]
    }

    /// An empty list.
    pub fn new() -> (r: Whitelist)
        ensures
            r.wf(),
            forall|a: u64| !r.has(a),
    {
        Whitelist { members: Vec::new() }
    }

    /// True exactly when the identity is a member.
    pub fn contains(&self, a: u64) -> (r: bool)
        ensures
            r == self.has(a),
    {
        let n: usize = self.members.len();
        let mut i: usize = 0;
        while i < n
            invariant
                n == self.members@.len(),
                0 <= i <= n,
                forall|k: int| 0 <= k < i ==> self.members@[k] != a,
            decreases n - i,
        {
            if self.members[i] == a {
                return true;
            }
            i = i + 1;
        }
        false
    }

    /// Add an identity; adding one already present changes nothing.
    pub fn add(&mut self, a: u64)
        requires
            old(self).wf(),
        ensures
            final(self).wf(),
            forall|b: u64| final(self).has(b) == (old(self).has(b) || b == a),
    {
        if !self.contains(a) {
            self.members.push(a);
            proof {
                let s0 = old(self).members@;
                let s1 = self.members@;
                assert forall|b: u64| s1.contains(b) == (s0.contains(b) || b == a) by {
                    if s1.contains(b) {
                        let k = choose|k: int| 0 <= k < s1.len() && s1[k] == b;
                        if k < s0.len() {
                            assert(s0[k] == b);
                        }
                    }
                    if s0.contains(b) {
                        let k = choose|k: int| 0 <= k < s0.len() && s0[k] == b;
                        assert(s1[k] == b);
                    }
                    if b == a {
                        assert(s1[s0.len() as int] == a);
                    }
                }
                assert forall|p: int, q: int| 0 <= p < q < s1.len() implies s1[p] != s1[q] by {
                    if q < s0.len() {
                        assert(s0[p] != s0[q]);
                    } else {
                        assert(s1[q] == a && !s0.contains(a));
                        assert(s0[p] == s1[p]);
                    }
                }
            }
        }
    }

    /// Remove an identity; removing one not present changes nothing.
    pub fn remove(&mut self, a: u64)
        requires
            old(self).wf(),
        ensures
            final(self).wf(),
            forall|b: u64| final(self).has(b) == (old(self).has(b) && b != a),
    {
        let n: usize = self.members.len();
        let mut i: usize = 0;
        while i < n
            invariant
                *self == *old(self),
                old(self).wf(),
                n == self.members@.len(),
                0 <= i <= n,
                forall|k: int| 0 <= k < i ==> self.members@[k] != a,
            decreases n - i,
        {
            if self.members[i] == a {
                self.members.swap_remove(i);
                proof {
                    let s0 = old(self).members@;
                    let s1 = self.members@;
                    let n0 = s0.len() as int;
                    assert(s0[i as int] == a);
                    assert(s1.len() == n0 - 1);
                    assert forall|k: int| 0 <= k < n0 - 1 implies s1[k] == (if k == i as int {
                        s0[n0 - 1]
                    } else {
                        s0[k]
                    }) by {}
                    assert forall|b: u64| s1.contains(b) == (s0.contains(b) && b != a) by {
                        if s1.contains(b) {
                            let k = choose|k: int| 0 <= k < s1.len() && s1[k] == b;
                            if k == i as int {
                                assert(s0[n0 - 1] == b);
                                assert(s0[i as int] != s0[n0 - 1]);
                            } else {
                                assert(s0[k] == b);
                                if k < i as int {
                                    assert(s0[k] != s0[i as int]);
                                } else {
                                    assert(s0[i as int] != s0[k]);
                                }
                            }
                        }
                        if s0.contains(b) && b != a {
                            let k = choose|k: int| 0 <= k < n0 && s0[k] == b;
                            if k == i as int {
                                assert(false);
                            } else if k == n0 - 1 {
                                assert((i as int) < n0 - 1);
                                assert(s1[i as int] == b);
                            } else {
                                assert(s1[k] == b);
                            }
                        }
                    }
                    assert forall|p: int, q: int| 0 <= p < q < s1.len() implies s1[p] != s1[q]
                        by {
                        if p == i as int {
                            assert(s0[q] != s0[n0 - 1]);
                        } else if q == i as int {
                            assert(s0[p] != s0[n0 - 1]);
                        } else {
                            assert(s0[p] != s0[q]);
                        }
                    }
                }
                return;
            }
            i = i + 1;
        }
        assert(!old(self).has(a));
    }
}

} // verus!
