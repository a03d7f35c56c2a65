use crate::ids::Did;
use vstd::prelude::*;

verus! {

/// No key occurs in both lists.
pub open spec fn dids_disjoint(a: Seq<Did>, b: Seq<Did>) -> bool {
    forall|d: Did| !(#[trigger] a.contains(d) && b.contains(d))
}

/// The list without every occurrence of the key.
pub open spec fn without_did(s: Seq<Did>, d: Did) -> Seq<Did> {
    s.filter(|x: Did| x != d)
}

/// The list with the key appended, unless it is already present.
pub open spec fn with_did(s: Seq<Did>, d: Did) -> Seq<Did> {
    if s.contains(d) {
        s
    } else {
        s.push(d)
    }
}

/// A key found after a removal was there before, and is not the removed one.
pub proof fn lemma_without_contains(s: Seq<Did>, d: Did, x: Did)
    requires
        without_did(s, d).contains(x),
    ensures
        s.contains(x),
        x != d,
    decreases s.len(),
{
    reveal(Seq::filter);
    if s.len() == 0 {
    } else {
        let rest = s.drop_last();
        if s.last() != d && x == s.last() {
            assert(s[s.len() - 1] == x);
        } else {
            assert(without_did(rest, d).contains(x));
            lemma_without_contains(rest, d, x);
            let i = choose|i: int| 0 <= i < rest.len() && rest[i] == x;
            assert(s[i] == x);
        }
    }
}

/// Removal keeps a duplicate-free list duplicate-free.
pub proof fn lemma_without_nodup(s: Seq<Did>, d: Did)
    requires
        s.no_duplicates(),
    ensures
        without_did(s, d).no_duplicates(),
    decreases s.len(),
{
    reveal(Seq::filter);
    if s.len() == 0 {
    } else {
        let rest = s.drop_last();
        assert(rest.no_duplicates());
        lemma_without_nodup(rest, d);
        if s.last() != d {
            let f = without_did(rest, d);
            if f.contains(s.last()) {
                lemma_without_contains(rest, d, s.last());
                let i = choose|i: int| 0 <= i < rest.len() && rest[i] == s.last();
                assert(s[i] == s[s.len() - 1]);
                assert(false);
            }
            assert forall|p: int, q: int| 0 <= p < q < f.push(s.last()).len()
                implies f.push(s.last())[p] != f.push(s.last())[q] by {
                if q < f.len() {
                } else {
                    assert(f.push(s.last())[q] == s.last());
                    assert(f.contains(f[p]));
                }
            }
            assert(without_did(s, d) == f.push(s.last()));
        }
    }
}

/// Drops every occurrence of the key from the list.
pub fn remove_did(v: &mut Vec<Did>, d: Did)
    ensures
        final(v)@ == without_did(old(v)@, d),
        old(v)@.no_duplicates() ==> final(v)@.no_duplicates(),
{
    let ghost s0 = v@;
    let mut kept: Vec<Did> = Vec::new();
    let mut i: usize = 0;
    let n = v.len();
    while i < n
        invariant
            n == v.len(),
            i <= n,
            s0 == v@,
            kept@ == without_did(s0.take(i as int), d),
        decreases n - i,
    {
        proof {
            assert(s0.take(i as int + 1) =~= s0.take(i as int).push(s0[i as int]));
            assert(s0.take(i as int + 1).drop_last() =~= s0.take(i as int));
            reveal(Seq::filter);
        }
        let x = v[i];
        if x.0 != d.0 {
            kept.push(x);
            proof {
                assert(kept@ =~= without_did(s0.take(i as int + 1), d));
            }
        } else {
            proof {
                assert(kept@ =~= without_did(s0.take(i as int + 1), d));
            }
        }
        i += 1;
    }
    proof {
        assert(s0.take(s0.len() as int) =~= s0);
    }
    *v = kept;
    proof {
        if s0.no_duplicates() {
            lemma_without_nodup(s0, d);
        }
    }
}

/// Appends the key unless it is already present.
pub fn insert_did(v: &mut Vec<Did>, d: Did)
    ensures
        final(v)@ == with_did(old(v)@, d),
        old(v)@.no_duplicates() ==> final(v)@.no_duplicates(),
{
    let ghost s0 = v@;
    if !crate::message::contains_did(v, d) {
        v.push(d);
        proof {
            if s0.no_duplicates() {
                assert forall|p: int, q: int| 0 <= p < q < v@.len()
                    implies v@[p] != v@[q] by {
                    if q == v@.len() - 1 {
                        assert(v@[p] == s0[p]);
                        assert(!s0.contains(d));
                    }
                }
            }
        }
    }
}

/// The friendship graph: confirmed friends, outgoing requests, incoming
/// requests and blocked keys. An identifier lies in at most one of
/// friends / outgoing / incoming at any time.
#[derive(Debug)]
pub struct Friends {
    pub all: Vec<Did>,
    pub incoming_requests: Vec<Did>,
    pub outgoing_requests: Vec<Did>,
    pub blocked: Vec<Did>,
}

/// The mathematical model of the friendship graph.
#[verifier::ext_equal]
pub ghost struct FriendsView {
    pub all: Seq<Did>,
    pub incoming_requests: Seq<Did>,
    pub outgoing_requests: Seq<Did>,
    pub blocked: Seq<Did>,
}

impl DeepView for Friends {
    type V = FriendsView;

    open spec fn deep_view(&self) -> FriendsView {
        FriendsView {
            all: self.all@,
            incoming_requests: self.incoming_requests@,
            outgoing_requests: self.outgoing_requests@,
            blocked: self.blocked@,
        }
    }
}

impl View for Friends {
    type V = FriendsView;

    open spec fn view(&self) -> FriendsView {
        self.deep_view()
    }
}

impl Clone for Friends {
    fn clone(&self) -> (r: Self)
        ensures
            r@ == self@,
            r.wf() == self.wf(),
    {
        let r = Friends {
            all: crate::chat::copy_dids(&self.all),
            incoming_requests: crate::chat::copy_dids(&self.incoming_requests),
            outgoing_requests: crate::chat::copy_dids(&self.outgoing_requests),
            blocked: crate::chat::copy_dids(&self.blocked),
        };
        proof {
            assert(r@ =~= self@);
        }
        r
    }
}

impl FriendsView {
    /// The four-set invariant: duplicate-free lists, and no key in more
    /// than one of friends / outgoing / incoming.
    pub open spec fn wf(self) -> bool {
        &&& self.all.no_duplicates()
        &&& self.incoming_requests.no_duplicates()
        &&& self.outgoing_requests.no_duplicates()
        &&& self.blocked.no_duplicates()
        &&& dids_disjoint(self.all, self.incoming_requests)
        &&& dids_disjoint(self.all, self.outgoing_requests)
        &&& dids_disjoint(self.incoming_requests, self.outgoing_requests)
    }
}

impl Friends {
    /// The four-set invariant, on the executable value.
    pub open spec fn wf(self) -> bool {
        self.deep_view().wf()
    }

    /// An empty friendship graph.
    pub fn new() -> (r: Friends)
        ensures
            r.wf(),
            r@.all == Seq::<Did>::empty(),
            r@.incoming_requests == Seq::<Did>::empty(),
            r@.outgoing_requests == Seq::<Did>::empty(),
            r@.blocked == Seq::<Did>::empty(),
    {
        Friends {
            all: Vec::new(),
            incoming_requests: Vec::new(),
            outgoing_requests: Vec::new(),
            blocked: Vec::new(),
        }
    }

    /// Records a request the user sent. To keep the four-set invariant, a
    /// key already confirmed or already asking is left where it is.
    pub fn new_outgoing_request(&mut self, d: Did)
        ensures
            old(self).wf() ==> final(self).wf(),
            ({
                if old(self)@.all.contains(d) || old(self)@.incoming_requests.contains(d) {
                    final(self)@ == old(self)@
                } else {
                    final(self)@ == FriendsView {
                        outgoing_requests: with_did(old(self)@.outgoing_requests, d),
                        ..old(self)@
                    }
                }
            }),
    {
        if crate::message::contains_did(&self.all, d)
            || crate::message::contains_did(&self.incoming_requests, d) {
            return;
        }
        insert_did(&mut self.outgoing_requests, d);
        proof {
            assert(final(self)@ =~= (FriendsView {
                outgoing_requests: with_did(old(self)@.outgoing_requests, d),
                ..old(self)@
            }));
            if old(self).wf() {
                assert forall|x: Did| !(#[trigger] self@.all.contains(x)
                    && self@.outgoing_requests.contains(x)) by {
                    if self@.outgoing_requests.contains(x)
                        && !old(self)@.outgoing_requests.contains(x) {
                        assert(x == d);
                    }
                }
                assert forall|x: Did| !(#[trigger] self@.incoming_requests.contains(x)
                    && self@.outgoing_requests.contains(x)) by {
                    if self@.outgoing_requests.contains(x)
                        && !old(self)@.outgoing_requests.contains(x) {
                        assert(x == d);
                    }
                }
            }
        }
    }

    /// Records a request the user received, under the same guard.
    pub fn new_incoming_request(&mut self, d: Did)
        ensures
            old(self).wf() ==> final(self).wf(),
            ({
                if old(self)@.all.contains(d) || old(self)@.outgoing_requests.contains(d) {
                    final(self)@ == old(self)@
                } else {
                    final(self)@ == FriendsView {
                        incoming_requests: with_did(old(self)@.incoming_requests, d),
                        ..old(self)@
                    }
                }
            }),
    {
        if crate::message::contains_did(&self.all, d)
            || crate::message::contains_did(&self.outgoing_requests, d) {
            return;
        }
        insert_did(&mut self.incoming_requests, d);
        proof {
            assert(final(self)@ =~= (FriendsView {
                incoming_requests: with_did(old(self)@.incoming_requests, d),
                ..old(self)@
            }));
            if old(self).wf() {
                assert forall|x: Did| !(#[trigger] self@.all.contains(x)
                    && self@.incoming_requests.contains(x)) by {
                    if self@.incoming_requests.contains(x)
                        && !old(self)@.incoming_requests.contains(x) {
                        assert(x == d);
                    }
                }
                assert forall|x: Did| !(#[trigger] self@.incoming_requests.contains(x)
                    && self@.outgoing_requests.contains(x)) by {
                    if self@.incoming_requests.contains(x)
                        && !old(self)@.incoming_requests.contains(x) {
                        assert(x == d);
                    }
                }
            }
        }
    }

    /// Moves a key from both request lists into the friends list, as one
    /// step.
    pub fn complete_request(&mut self, d: Did)
        ensures
            old(self).wf() ==> final(self).wf(),
            (final(self)@ == FriendsView {
                all: with_did(old(self)@.all, d),
                incoming_requests: without_did(old(self)@.incoming_requests, d),
                outgoing_requests: without_did(old(self)@.outgoing_requests, d),
                ..old(self)@
            }),
    {
        remove_did(&mut self.outgoing_requests, d);
        remove_did(&mut self.incoming_requests, d);
        insert_did(&mut self.all, d);
        proof {
            assert(final(self)@ =~= (FriendsView {
                all: with_did(old(self)@.all, d),
                incoming_requests: without_did(old(self)@.incoming_requests, d),
                outgoing_requests: without_did(old(self)@.outgoing_requests, d),
                ..old(self)@
            }));
            if old(self).wf() {
                lemma_wf_after_complete(old(self)@, self@, d);
            }
        }
    }

    /// Drops a key from both request lists.
    pub fn cancel_request(&mut self, d: Did)
        ensures
            old(self).wf() ==> final(self).wf(),
            (final(self)@ == FriendsView {
                incoming_requests: without_did(old(self)@.incoming_requests, d),
                outgoing_requests: without_did(old(self)@.outgoing_requests, d),
                ..old(self)@
            }),
    {
        remove_did(&mut self.outgoing_requests, d);
        remove_did(&mut self.incoming_requests, d);
        proof {
            assert(final(self)@ =~= (FriendsView {
                incoming_requests: without_did(old(self)@.incoming_requests, d),
                outgoing_requests: without_did(old(self)@.outgoing_requests, d),
                ..old(self)@
            }));
            if old(self).wf() {
                lemma_disjoint_after_filter(old(self)@, self@);
            }
        }
    }

    /// Drops a key from the friends list alone.
    pub fn remove_friend_key(&mut self, d: Did)
        ensures
            old(self).wf() ==> final(self).wf(),
            (final(self)@ == FriendsView {
                all: without_did(old(self)@.all, d),
                ..old(self)@
            }),
    {
        remove_did(&mut self.all, d);
        proof {
            assert(final(self)@ =~= (FriendsView {
                all: without_did(old(self)@.all, d),
                ..old(self)@
            }));
            if old(self).wf() {
                lemma_disjoint_after_filter(old(self)@, self@);
            }
        }
    }

    /// Blocks a key: removes it from friends and from both request lists
    /// and adds it to the blocked list.
    pub fn block(&mut self, d: Did)
        ensures
            old(self).wf() ==> final(self).wf(),
            (final(self)@ == FriendsView {
                all: without_did(old(self)@.all, d),
                incoming_requests: without_did(old(self)@.incoming_requests, d),
                outgoing_requests: without_did(old(self)@.outgoing_requests, d),
                blocked: with_did(old(self)@.blocked, d),
            }),
    {
        remove_did(&mut self.outgoing_requests, d);
        remove_did(&mut self.incoming_requests, d);
        remove_did(&mut self.all, d);
        insert_did(&mut self.blocked, d);
        proof {
            assert(final(self)@ =~= (FriendsView {
                all: without_did(old(self)@.all, d),
                incoming_requests: without_did(old(self)@.incoming_requests, d),
                outgoing_requests: without_did(old(self)@.outgoing_requests, d),
                blocked: with_did(old(self)@.blocked, d),
            }));
            if old(self).wf() {
                lemma_disjoint_after_filter(old(self)@, self@);
            }
        }
    }

    /// Unblocks a key: removes it from the blocked list alone.
    pub fn unblock(&mut self, d: Did)
        ensures
            old(self).wf() ==> final(self).wf(),
            (final(self)@ == FriendsView {
                blocked: without_did(old(self)@.blocked, d),
                ..old(self)@
            }),
    {
        remove_did(&mut self.blocked, d);
        proof {
            assert(final(self)@ =~= (FriendsView {
                blocked: without_did(old(self)@.blocked, d),
                ..old(self)@
            }));
        }
    }

    /// Whether the key is a confirmed friend.
    pub fn has_friend(&self, d: Did) -> (r: bool)
        ensures
            r == self@.all.contains(d),
    {
        crate::message::contains_did(&self.all, d)
    }

    /// Whether the key is blocked.
    pub fn is_blocked(&self, d: Did) -> (r: bool)
        ensures
            r == self@.blocked.contains(d),
    {
        crate::message::contains_did(&self.blocked, d)
    }
}

/// A key removed from both request lists and added to the friends list
/// keeps the four sets well-formed.
proof fn lemma_wf_after_complete(f0: FriendsView, f1: FriendsView, d: Did)
    requires
        f0.wf(),
        f1.all == with_did(f0.all, d),
        f1.incoming_requests == without_did(f0.incoming_requests, d),
        f1.outgoing_requests == without_did(f0.outgoing_requests, d),
        f1.blocked == f0.blocked,
    ensures
        f1.wf(),
{
    if !f0.all.contains(d) {
        assert forall|p: int, q: int| 0 <= p < q < f1.all.len()
            implies f1.all[p] != f1.all[q] by {
            if q == f1.all.len() - 1 {
                assert(f1.all[p] == f0.all[p]);
                assert(!f0.all.contains(d));
            }
        }
    }
    lemma_without_nodup(f0.incoming_requests, d);
    lemma_without_nodup(f0.outgoing_requests, d);
    assert forall|x: Did| !(#[trigger] f1.all.contains(x)
        && f1.incoming_requests.contains(x)) by {
        if f1.incoming_requests.contains(x) {
            lemma_without_contains(f0.incoming_requests, d, x);
            if f1.all.contains(x) {
                if !f0.all.contains(x) {
                    assert(x == d);
                }
            }
        }
    }
    assert forall|x: Did| !(#[trigger] f1.all.contains(x)
        && f1.outgoing_requests.contains(x)) by {
        if f1.outgoing_requests.contains(x) {
            lemma_without_contains(f0.outgoing_requests, d, x);
            if f1.all.contains(x) {
                if !f0.all.contains(x) {
                    assert(x == d);
                }
            }
        }
    }
    assert forall|x: Did| !(#[trigger] f1.incoming_requests.contains(x)
        && f1.outgoing_requests.contains(x)) by {
        if f1.incoming_requests.contains(x) && f1.outgoing_requests.contains(x) {
            lemma_without_contains(f0.incoming_requests, d, x);
            lemma_without_contains(f0.outgoing_requests, d, x);
        }
    }
}

/// Removing keys from lists (by filtering) cannot break duplicate-freedom
/// or disjointness.
proof fn lemma_disjoint_after_filter(f0: FriendsView, f1: FriendsView)
    requires
        f0.wf(),
        f1.all == f0.all || (exists|d: Did| f1.all == without_did(f0.all, d)),
        f1.incoming_requests == f0.incoming_requests
            || (exists|d: Did| f1.incoming_requests == without_did(f0.incoming_requests, d)),
        f1.outgoing_requests == f0.outgoing_requests
            || (exists|d: Did| f1.outgoing_requests == without_did(f0.outgoing_requests, d)),
        f1.blocked == f0.blocked
            || (exists|d: Did| f1.blocked == without_did(f0.blocked, d))
            || (exists|d: Did| f1.blocked == with_did(f0.blocked, d)),
    ensures
        f1.wf(),
{
    assert forall|x: Did| #[trigger] f1.all.contains(x) implies f0.all.contains(x) by {
        if f1.all != f0.all {
            let d = choose|d: Did| f1.all == without_did(f0.all, d);
            lemma_without_contains(f0.all, d, x);
        }
    }
    assert forall|x: Did| #[trigger] f1.incoming_requests.contains(x)
        implies f0.incoming_requests.contains(x) by {
        if f1.incoming_requests != f0.incoming_requests {
            let d = choose|d: Did| f1.incoming_requests
                == without_did(f0.incoming_requests, d);
            lemma_without_contains(f0.incoming_requests, d, x);
        }
    }
    assert forall|x: Did| #[trigger] f1.outgoing_requests.contains(x)
        implies f0.outgoing_requests.contains(x) by {
        if f1.outgoing_requests != f0.outgoing_requests {
            let d = choose|d: Did| f1.outgoing_requests
                == without_did(f0.outgoing_requests, d);
            lemma_without_contains(f0.outgoing_requests, d, x);
        }
    }
    if f1.all != f0.all {
        let d = choose|d: Did| f1.all == without_did(f0.all, d);
        lemma_without_nodup(f0.all, d);
    }
    if f1.incoming_requests != f0.incoming_requests {
        let d = choose|d: Did| f1.incoming_requests == without_did(f0.incoming_requests, d);
        lemma_without_nodup(f0.incoming_requests, d);
    }
    if f1.outgoing_requests != f0.outgoing_requests {
        let d = choose|d: Did| f1.outgoing_requests == without_did(f0.outgoing_requests, d);
        lemma_without_nodup(f0.outgoing_requests, d);
    }
    if f1.blocked != f0.blocked {
        if exists|d: Did| f1.blocked == without_did(f0.blocked, d) {
            let d = choose|d: Did| f1.blocked == without_did(f0.blocked, d);
            lemma_without_nodup(f0.blocked, d);
        } else {
            let d = choose|d: Did| f1.blocked == with_did(f0.blocked, d);
            if !f0.blocked.contains(d) {
                assert forall|p: int, q: int| 0 <= p < q < f1.blocked.len()
                    implies f1.blocked[p] != f1.blocked[q] by {
                    if q == f1.blocked.len() - 1 {
                        assert(f1.blocked[p] == f0.blocked[p]);
                        assert(!f0.blocked.contains(d));
                    }
                }
            }
        }
    }
}

} // verus!
