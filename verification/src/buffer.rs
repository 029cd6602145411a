use vstd::prelude::*;
use std::collections::VecDeque;
use crate::proto::{Entry, MessageId};

verus! {

/// The bounded ring of all recent entries: owner of identity assignment and
/// eviction. Ids are assigned sequentially; the retained window is always the
/// contiguous id range `[start_index, start_index + len)`.
pub struct MessageBuffer {
    start_index: MessageId,
    bound: usize,
    deque: VecDeque<Entry>,
}

/// What one buffer push did: the id assigned to the new entry, and the entry
/// evicted to make room, if the buffer was full.
pub struct PushResult {
    pub added: MessageId,
    pub removed: Option<(MessageId, Entry)>,
}

impl MessageBuffer {
    /// Maximum number of retained entries; fixed for the buffer's lifetime.
    pub closed spec fn bound(&self) -> int {
        self.bound as int
    }

    /// Id of the oldest retained entry.
    pub closed spec fn start(&self) -> int {
        self.start_index.0 as int
    }

    /// The retained entries, oldest first; entry `i` bears id `start() + i`.
    pub closed spec fn entries(&self) -> Seq<Entry> {
        self.deque@
    }

    /// Number of retained entries.
    pub open spec fn window_len(&self) -> int {
        self.entries().len() as int
    }

    /// The id the next push will assign.
    pub open spec fn next_id(&self) -> int {
        self.start() + self.window_len()
    }

    /// Whether `id` is currently retained.
    pub open spec fn in_window(&self, id: int) -> bool {
        self.start() <= id < self.next_id()
    }

    /// The retained entry with id `id`.
    pub open spec fn entry_at(&self, id: int) -> Entry
        recommends
            self.in_window(id),
    {
        self.entries()[id - self.start()]
    }

    /// The buffer invariant: positive fixed capacity, never exceeded; the
    /// window only shrinks below capacity before the first eviction; ids stay
    /// representable; every retained entry is well-formed.
    pub open spec fn wf(&self) -> bool {
        &&& self.bound() >= 1
        &&& self.start() >= 0
        &&& self.window_len() <= self.bound()
        &&& (self.start() == 0 || self.window_len() == self.bound())
        &&& self.next_id() <= usize::MAX
        &&& forall|i: int| 0 <= i < self.entries().len() ==> (#[trigger] self.entries()[i]).wf()
    }

    /// Creates an empty buffer. A zero bound is a configuration error that
    /// the store rejects before constructing the buffer.
    pub fn new(bound: usize) -> (r: MessageBuffer)
        requires
            bound >= 1,
        ensures
            r.wf(),
            r.bound() == bound,
            r.start() == 0,
            r.entries() == Seq::<Entry>::empty(),
    {
        MessageBuffer { start_index: MessageId(0), bound, deque: VecDeque::new() }
    }

    /// Id of the oldest retained entry.
    pub fn start_id(&self) -> (r: usize)
        ensures
            r == self.start(),
    {
        self.start_index.0
    }

    /// Number of retained entries.
    pub fn size(&self) -> (r: usize)
        ensures
            r == self.window_len(),
    {
        self.deque.len()
    }

    /// The fixed capacity.
    pub fn capacity(&self) -> (r: usize)
        ensures
            r == self.bound(),
    {
        self.bound
    }

    /// Appends `message`, assigning it the next sequential id. If the buffer
    /// was at capacity, first evicts the single oldest entry and returns it.
    pub fn push(&mut self, message: Entry) -> (r: PushResult)
        requires
            old(self).wf(),
            message.wf(),
            old(self).next_id() < usize::MAX,
        ensures
            final(self).wf(),
            final(self).bound() == old(self).bound(),
            r.added.0 == old(self).next_id(),
            final(self).next_id() == old(self).next_id() + 1,
            old(self).window_len() < old(self).bound() ==> {
                &&& r.removed is None
                &&& final(self).start() == old(self).start()
                &&& final(self).entries() == old(self).entries().push(message)
            },
            old(self).window_len() == old(self).bound() ==> {
                &&& r.removed matches Some((id, e))
                    && id.0 == old(self).start()
                    && e == old(self).entries()[0]
                &&& final(self).start() == old(self).start() + 1
                &&& final(self).entries() == old(self).entries().skip(1).push(message)
            },
    {
        let removed = if self.deque.len() == self.bound {
            let removed_id = self.start_index;
            self.start_index = MessageId(self.start_index.0 + 1);
            let old_message = match self.deque.pop_front() {
                Some(m) => m,
                None => {
                    // unreachable: the bound is positive, so a full deque is
                    // not empty
                    proof {
                        assert(false);
                    }
                    crate::proto::Entry::Raw(crate::proto::RawEntry(Vec::new()))
                },
            };
            Some((removed_id, old_message))
        } else {
            None
        };

        let added = MessageId(self.start_index.0 + self.deque.len());
        self.deque.push_back(message);
        proof {
            if old(self).window_len() == old(self).bound() {
                assert(self.entries() =~= old(self).entries().skip(1).push(message));
            }
        }
        PushResult { added, removed }
    }
}

} // verus!
