use vstd::prelude::*;
use std::collections::VecDeque;
use crate::proto::MessageId;

verus! {

/// A live, eviction-aware membership queue of message ids, strictly
/// increasing. One instance exists per registered index method, plus one for
/// the raw entries. `since` records the id horizon at creation: the index
/// only ever holds ids assigned at or after it.
pub struct Index {
    queue: VecDeque<MessageId>,
    since: Ghost<int>,
}

impl Index {
    /// The member ids, oldest first.
    pub closed spec fn ids(&self) -> Seq<MessageId> {
        self.queue@
    }

    /// The id horizon at creation time.
    pub closed spec fn since(&self) -> int {
        self.since@
    }

    /// Whether `id` is a member.
    pub open spec fn contains(&self, id: int) -> bool {
        exists|i: int| 0 <= i < self.ids().len() && (#[trigger] self.ids()[i]).0 == id
    }

    /// The queue is strictly increasing and holds no id from before the
    /// index existed.
    pub open spec fn wf(&self) -> bool {
        &&& forall|i: int, j: int| 0 <= i < j < self.ids().len()
            ==> (#[trigger] self.ids()[i]).0 < (#[trigger] self.ids()[j]).0
        &&& forall|i: int| 0 <= i < self.ids().len() ==> (#[trigger] self.ids()[i]).0 >= self.since()
    }

    /// Creates an empty index with the given id horizon.
    pub fn new(since: Ghost<int>) -> (r: Index)
        ensures
            r.wf(),
            r.ids() == Seq::<MessageId>::empty(),
            r.since() == since@,
    {
        Index { queue: VecDeque::new(), since }
    }

    /// Number of members.
    pub fn len(&self) -> (n: usize)
        ensures
            n == self.ids().len(),
    {
        self.queue.len()
    }

    /// Appends `id`. Ids arrive in push order from a single global sequence,
    /// so `id` is strictly above the current tail. A violation would be an
    /// internal-consistency fault, not a recoverable error; it is ruled out
    /// by proof at every call site.
    pub fn add(&mut self, id: MessageId)
        requires
            old(self).wf(),
            old(self).ids().len() > 0 ==> old(self).ids().last().0 < id.0,
            old(self).since() <= id.0,
        ensures
            final(self).wf(),
            final(self).since() == old(self).since(),
            final(self).ids() == old(self).ids().push(id),
            forall|x: int| final(self).contains(x) <==> (old(self).contains(x) || x == id.0),
    {
        proof {
            let s = old(self).ids();
            assert forall|i: int| 0 <= i < s.len() implies (#[trigger] s[i]).0 < id.0 by {
                if i < s.len() - 1 {
                    assert(s[i].0 < s[s.len() - 1].0);
                }
            }
        }
        self.queue.push_back(id);
        proof {
            let s = old(self).ids();
            let t = self.ids();
            assert forall|x: int| final(self).contains(x)
                implies (old(self).contains(x) || x == id.0) by {
                let i = choose|i: int| 0 <= i < t.len() && (#[trigger] t[i]).0 == x;
                if i < s.len() {
                    assert(s[i].0 == x);
                }
            }
            assert forall|x: int| old(self).contains(x) || x == id.0
                implies final(self).contains(x) by {
                if old(self).contains(x) {
                    let i = choose|i: int| 0 <= i < s.len() && (#[trigger] s[i]).0 == x;
                    assert(t[i].0 == x);
                } else {
                    assert(t[s.len() as int].0 == x);
                }
            }
        }
    }

    /// Processes the eviction of `id`: pops the head exactly when the head is
    /// `id`. A head above `id` (or an empty queue) means the index was
    /// created after `id` was assigned, so `id` was never a member — a no-op.
    /// A head below `id` would be an internal-consistency fault; the store
    /// proves it impossible, so no such state reaches this function.
    pub fn remove(&mut self, id: MessageId)
        requires
            old(self).wf(),
            old(self).ids().len() > 0 ==> old(self).ids()[0].0 >= id.0,
        ensures
            final(self).wf(),
            final(self).since() == old(self).since(),
            old(self).ids().len() > 0 && old(self).ids()[0].0 == id.0
                ==> final(self).ids() == old(self).ids().skip(1),
            !(old(self).ids().len() > 0 && old(self).ids()[0].0 == id.0)
                ==> final(self).ids() == old(self).ids(),
            forall|x: int| final(self).contains(x) <==> (old(self).contains(x) && x != id.0),
    {
        let ghost s = old(self).ids();
        if self.queue.len() > 0 && self.queue[0].0 == id.0 {
            let _popped = self.queue.pop_front();
            proof {
                assert(self.ids() =~= s.skip(1));
                let t = self.ids();
                assert forall|x: int| final(self).contains(x)
                    implies (old(self).contains(x) && x != id.0) by {
                    let i = choose|i: int| 0 <= i < t.len() && (#[trigger] t[i]).0 == x;
                    assert(s[i + 1].0 == x);
                    assert(s[0].0 < s[i + 1].0);
                }
                assert forall|x: int| old(self).contains(x) && x != id.0
                    implies final(self).contains(x) by {
                    let i = choose|i: int| 0 <= i < s.len() && (#[trigger] s[i]).0 == x;
                    assert(i > 0);
                    assert(t[i - 1].0 == x);
                }
            }
        } else {
            proof {
                assert forall|x: int| old(self).contains(x) implies x != id.0 by {
                    let i = choose|i: int| 0 <= i < s.len() && (#[trigger] s[i]).0 == x;
                    if i > 0 {
                        assert(s[0].0 < s[i].0);
                    }
                }
            }
        }
    }

    /// The members as a vector, oldest first.
    pub fn ids_vec(&self) -> (r: Vec<MessageId>)
        ensures
            r@ == self.ids(),
    {
        let mut r: Vec<MessageId> = Vec::new();
        let mut i: usize = 0;
        while i < self.queue.len()
            invariant
                i <= self.ids().len(),
                r@ == self.ids().subrange(0, i as int),
            decreases self.ids().len() - i,
        {
            r.push(self.queue[i]);
            proof {
                assert(r@ =~= self.ids().subrange(0, i + 1));
            }
            i = i + 1;
        }
        proof {
            assert(r@ =~= self.ids());
        }
        r
    }
}

} // verus!
