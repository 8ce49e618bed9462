use vstd::prelude::*;
use vstd::string::*;

use crate::utility::str_eq;
use crate::utility::vec_contains_str;

verus! {

/// The message identifiers whose admission vote is still in flight; the
/// value of the tracker is that set of identifiers.
pub struct VoteTracker {
    active: Vec<String>,
}

impl View for VoteTracker {
    type V = Set<Seq<char>>;

    closed spec fn view(&self) -> Set<Seq<char>> {
        Set::new(|m: Seq<char>| self.active.deep_view().contains(m))
    }
}

proof fn lemma_contains_push(s: Seq<Seq<char>>, x: Seq<char>, m: Seq<char>)
    ensures
        s.push(x).contains(m) <==> (s.contains(m) || m == x),
{
    if s.contains(m) {
        let i = choose|i: int| 0 <= i < s.len() && s[i] == m;
        assert(s.push(x)[i] == m);
    }
    if m == x {
        assert(s.push(x)[s.len() as int] == m);
    }
    if s.push(x).contains(m) {
        let i = choose|i: int| 0 <= i < s.push(x).len() && s.push(x)[i] == m;
        if i < s.len() {
            assert(s[i] == m);
        }
    }
}

impl VoteTracker {
    /// Tracker well-formedness: no identifier is recorded twice.
    pub closed spec fn inv(&self) -> bool {
        forall|i: int, j: int|
            #![trigger self.active.deep_view()[i], self.active.deep_view()[j]]
            0 <= i < j < self.active.deep_view().len() ==> self.active.deep_view()[i]
                != self.active.deep_view()[j]
    }

    /// An empty tracker: no votes in flight.
    pub fn new() -> (r: VoteTracker)
        ensures
            r.inv(),
            r@ == Set::<Seq<char>>::empty(),
    {
        let r = VoteTracker { active: Vec::new() };
        proof {
            assert(r@ =~= Set::<Seq<char>>::empty());
        }
        r
    }

    /// Whether an admission vote for this message is still in flight.
    pub fn is_active(&self, message_id: &str) -> (r: bool)
        ensures
            r == self@.contains(message_id@),
    {
        vec_contains_str(&self.active, message_id)
    }

    /// Records a just-posted vote message as an in-flight admission vote.
    /// The caller has already sent the message carrying the two reaction
    /// options.
    pub fn open_vote(&mut self, message_id: &str)
        requires
            old(self).inv(),
        ensures
            final(self).inv(),
            final(self)@ == old(self)@.insert(message_id@),
    {
        if vec_contains_str(&self.active, message_id) {
            proof {
                assert(self@ =~= old(self)@.insert(message_id@));
            }
            return;
        }
        let ghost od = self.active.deep_view();
        self.active.push(String::from_str(message_id));
        proof {
            let nd = self.active.deep_view();
            assert(nd =~= od.push(message_id@));
            assert forall|m: Seq<char>| #[trigger]
                nd.contains(m) <==> (od.contains(m) || m == message_id@) by {
                lemma_contains_push(od, message_id@, m);
            }
            assert(self@ =~= old(self)@.insert(message_id@));
            assert forall|i: int, j: int|
                #![trigger nd[i], nd[j]]
                0 <= i < j < nd.len() implies nd[i] != nd[j] by {
                if j == nd.len() - 1 {
                    assert(od.contains(nd[i])) by {
                        assert(od[i] == nd[i]);
                    }
                }
            }
        }
    }

    /// Removes the message from the in-flight set; removing an absent
    /// identifier is a no-op.
    pub fn resolve(&mut self, message_id: &str)
        requires
            old(self).inv(),
        ensures
            final(self).inv(),
            final(self)@ == old(self)@.remove(message_id@),
    {
        let n = self.active.len();
        let mut i: usize = 0;
        while i < n
            invariant
                i <= n,
                self == old(self),
                n == self.active@.len(),
                old(self).inv(),
                forall|j: int| 0 <= j < i ==> #[trigger] self.active.deep_view()[j]
                    != message_id@,
            decreases n - i,
        {
            proof {
                assert(self.active.deep_view()[i as int] == self.active@[i as int]@);
            }
            if str_eq(self.active[i].as_str(), message_id) {
                let ghost oa = self.active@;
                let ghost od = self.active.deep_view();
                let _removed = self.active.remove(i);
                proof {
                    let nd = self.active.deep_view();
                    oa.remove_ensures(i as int);
                    od.remove_ensures(i as int);
                    assert(nd =~= od.remove(i as int)) by {
                        assert forall|j: int| 0 <= j < nd.len() implies nd[j] == od.remove(
                            i as int,
                        )[j] by {
                            if j < i {
                                assert(self.active@[j] == oa[j]);
                            } else {
                                assert(self.active@[j] == oa[j + 1]);
                            }
                        }
                    }
                    assert forall|m: Seq<char>| #[trigger]
                        nd.contains(m) <==> (od.contains(m) && m != message_id@) by {
                        if nd.contains(m) {
                            let p = choose|p: int| 0 <= p < nd.len() && nd[p] == m;
                            if p < i {
                                assert(od[p] == m);
                                assert(od[p] != od[i as int]);
                            } else {
                                assert(od[p + 1] == m);
                                assert(od[p + 1] != od[i as int]);
                            }
                        }
                        if od.contains(m) && m != message_id@ {
                            let p = choose|p: int| 0 <= p < od.len() && od[p] == m;
                            if p < i {
                                assert(nd[p] == m);
                            } else {
                                assert(p != i);
                                assert(nd[p - 1] == od[p]);
                            }
                        }
                    }
                    assert(self@ =~= old(self)@.remove(message_id@));
                }
                return;
            }
            i = i + 1;
        }
        proof {
            assert(!old(self)@.contains(message_id@));
            assert(self@ =~= old(self)@.remove(message_id@));
        }
    }

    /// The atomic check-then-resolve step of vote resolution: under one
    /// exclusive borrow, the vote is resolved exactly when it is still in
    /// flight and the observed reaction count has reached the threshold.
    /// Two racing reaction events cannot both see an active vote.
    pub fn resolve_if_quorum(&mut self, message_id: &str, count: u8, threshold: u8) -> (resolved:
        bool)
        requires
            old(self).inv(),
        ensures
            final(self).inv(),
            resolved == (old(self)@.contains(message_id@) && count >= threshold),
            final(self)@ == if resolved {
                old(self)@.remove(message_id@)
            } else {
                old(self)@
            },
    {
        if count >= threshold && self.is_active(message_id) {
            self.resolve(message_id);
            true
        } else {
            false
        }
    }
}

/// The lifecycle of one admission vote over the tracker's value: opening a
/// vote makes it active, resolving it makes it inactive, and resolving a
/// second time changes nothing beyond the first.
pub proof fn lemma_vote_lifecycle(s: Set<Seq<char>>, m: Seq<char>)
    ensures
        s.insert(m).contains(m),
        !s.remove(m).contains(m),
        s.remove(m).remove(m) == s.remove(m),
{
    assert(s.remove(m).remove(m) =~= s.remove(m));
}

} // verus!
