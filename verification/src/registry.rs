//! The follower registry: the set of follower ports the leader fans
//! replicated writes out to. Membership is deduplicated; insertion is
//! idempotent.

use vstd::prelude::*;

verus! {

/// How many times `p` occurs in `s`.
pub open spec fn count_in(s: Seq<u16>, p: u16) -> nat
    decreases s.len(),
{
    if s.len() == 0 {
        0
    } else {
        count_in(s.drop_last(), p) + if s.last() == p {
            1nat
        } else {
            0nat
        }
    }
}

/// No port occurs twice.
pub open spec fn no_duplicates(s: Seq<u16>) -> bool {
    forall|i: int, j: int| 0 <= i < j < s.len() ==> s[i] != s[j]
}

/// The registry after an idempotent insert of `p`.
pub open spec fn registered(s: Seq<u16>, p: u16) -> Seq<u16> {
    if s.contains(p) {
        s
    } else {
        s.push(p)
    }
}

/// The leader's set of follower ports, deduplicated.
pub struct FollowerRegistry {
    ports: Vec<u16>,
}

impl View for FollowerRegistry {
    type V = Seq<u16>;

    closed spec fn view(&self) -> Seq<u16> {
        self.ports@
    }
}

impl FollowerRegistry {
    /// The registry never holds a port twice.
    pub open spec fn wf(&self) -> bool {
        no_duplicates(self@)
    }

    /// An empty registry.
    pub fn new() -> (r: FollowerRegistry)
        ensures
            r@ == Seq::<u16>::empty(),
            r.wf(),
    {
        FollowerRegistry { ports: Vec::new() }
    }

    /// Whether `p` is registered.
    pub fn contains(&self, p: u16) -> (r: bool)
        ensures
            r == self@.contains(p),
    {
        let mut i: usize = 0;
        while i < self.ports.len()
            invariant
                0 <= i <= self.ports.len(),
                forall|j: int| 0 <= j < i ==> self.ports@[j] != p,
            decreases self.ports.len() - i,
        {
            if self.ports[i] == p {
                return true;
            }
            i = i + 1;
        }
        false
    }

    /// Idempotent insert. Returns whether `p` was newly added.
    pub fn register(&mut self, p: u16) -> (added: bool)
        requires
            old(self).wf(),
        ensures
            final(self).wf(),
            final(self)@ == registered(old(self)@, p),
            added == !old(self)@.contains(p),
            final(self)@.contains(p),
    {
        if self.contains(p) {
            false
        } else {
            self.ports.push(p);
            proof {
                assert(self.ports@[self.ports@.len() - 1] == p);
            }
            true
        }
    }

    /// An independent copy of the current membership, taken so that no lock
    /// needs to be held while the copy is walked during replication.
    pub fn snapshot(&self) -> (r: Vec<u16>)
        ensures
            r@ == self@,
    {
        let mut out: Vec<u16> = Vec::new();
        let mut i: usize = 0;
        while i < self.ports.len()
            invariant
                0 <= i <= self.ports.len(),
                out@ == self.ports@.subrange(0, i as int),
            decreases self.ports.len() - i,
        {
            out.push(self.ports[i]);
            i = i + 1;
        }
        proof {
            assert(out@ =~= self.ports@);
        }
        out
    }

    /// How many followers are registered.
    pub fn len(&self) -> (r: usize)
        ensures
            r == self@.len(),
    {
        self.ports.len()
    }
}

/// In a deduplicated registry every present port occurs exactly once.
pub proof fn lemma_no_duplicates_count(s: Seq<u16>, p: u16)
    requires
        no_duplicates(s),
    ensures
        s.contains(p) ==> count_in(s, p) == 1,
        !s.contains(p) ==> count_in(s, p) == 0,
    decreases s.len(),
{
    if s.len() > 0 {
        assert(no_duplicates(s.drop_last()));
        lemma_no_duplicates_count(s.drop_last(), p);
        if s.last() == p {
            assert(!s.drop_last().contains(p)) by {
                if s.drop_last().contains(p) {
                    let i = choose|i: int|
                        0 <= i < s.drop_last().len() && s.drop_last()[i] == p;
                    assert(s[i] == p);
                }
            }
            assert(s.contains(p)) by {
                assert(s[s.len() - 1] == p);
            }
        } else {
            if s.drop_last().contains(p) {
                let i = choose|i: int|
                    0 <= i < s.drop_last().len() && s.drop_last()[i] == p;
                assert(s[i] == p);
                assert(s.contains(p));
            }
            if s.contains(p) {
                let i = choose|i: int| 0 <= i < s.len() && s[i] == p;
                assert(i < s.len() - 1);
                assert(s.drop_last()[i] == p);
                assert(s.drop_last().contains(p));
            }
        }
    }
}

/// Registering the same port twice leaves exactly one entry for it.
pub proof fn lemma_register_idempotent(s: Seq<u16>, p: u16)
    requires
        no_duplicates(s),
    ensures
        registered(registered(s, p), p) == registered(s, p),
        count_in(registered(registered(s, p), p), p) == 1,
{
    let s1 = registered(s, p);
    assert(s1.contains(p)) by {
        if !s.contains(p) {
            assert(s1[s.len() as int] == p);
        }
    }
    assert(no_duplicates(s1)) by {
        if !s.contains(p) {
            assert(forall|i: int| 0 <= i < s.len() ==> s[i] != p);
            assert(forall|i: int, j: int|
                0 <= i < j < s1.len() ==> s1[i] != s1[j]) by {
                assert(forall|i: int| 0 <= i < s.len() ==> s1[i] == s[i]);
            }
        }
    }
    lemma_no_duplicates_count(s1, p);
}

} // verus!
