use vstd::prelude::*;
use vstd::relations::sorted_by;
use crate::buffer::MessageBuffer;
use crate::index::Index;
use crate::matcher::{should_index, spec_matches};
use crate::proto::{clone_method, cond_order, method_eq, CondRepr, Entry, IndexMethod, MessageId};

verus! {

/// Configuration surface consumed by the store.
pub struct Options {
    /// Maximum number of entries to buffer. The oldest entries that exceed
    /// the buffer are discarded. Must be positive.
    pub buffer_size: usize,
}

/// A configuration fault, rejected before the store is constructed.
#[derive(Debug, Clone, Copy, PartialEq, Eq, Structural)]
pub enum ConfigError {
    ZeroBufferSize,
}

/// One registered secondary index: its identity and its membership queue.
pub struct RegisteredIndex {
    method: IndexMethod,
    index: Index,
}

/// The indexed ring-buffer store: the bounded message buffer, the dynamic
/// per-criterion secondary indices, and the raw-entry index, kept mutually
/// consistent across pushes and evictions.
pub struct Store {
    buffer: MessageBuffer,
    raw_index: Index,
    indices: Vec<RegisteredIndex>,
}

impl Store {
    /// The retained entries, oldest first; entry `i` bears id `start() + i`.
    pub closed spec fn entries(&self) -> Seq<Entry> {
        self.buffer.entries()
    }

    /// Id of the oldest retained entry.
    pub closed spec fn start(&self) -> int {
        self.buffer.start()
    }

    /// The fixed buffer capacity.
    pub closed spec fn bound(&self) -> int {
        self.buffer.bound()
    }

    /// Number of retained entries.
    pub open spec fn window_len(&self) -> int {
        self.entries().len() as int
    }

    /// The id the next push will assign.
    pub open spec fn next_id(&self) -> int {
        self.start() + self.window_len()
    }

    /// Whether `id` is currently retained.
    pub open spec fn in_window(&self, id: int) -> bool {
        self.start() <= id < self.next_id()
    }

    /// The retained entry with id `id`.
    pub open spec fn entry_at(&self, id: int) -> Entry
        recommends
            self.in_window(id),
    {
        self.entries()[id - self.start()]
    }

    /// Number of registered secondary indices.
    pub closed spec fn num_indices(&self) -> int {
        self.indices@.len() as int
    }

    /// The identity of the `k`-th registered index.
    pub closed spec fn method_at(&self, k: int) -> Seq<CondRepr> {
        self.indices@[k].method@
    }

    /// The id horizon of the `k`-th index: the next id at its registration.
    pub closed spec fn index_since(&self, k: int) -> int {
        self.indices@[k].index.since()
    }

    /// The member ids of the `k`-th index, oldest first.
    pub closed spec fn index_ids(&self, k: int) -> Seq<MessageId> {
        self.indices@[k].index.ids()
    }

    /// Whether `id` is a member of the `k`-th index.
    pub closed spec fn index_contains(&self, k: int, id: int) -> bool {
        self.indices@[k].index.contains(id)
    }

    /// The member ids of the raw index, oldest first.
    pub closed spec fn raw_ids(&self) -> Seq<MessageId> {
        self.raw_index.ids()
    }

    /// Whether `id` is a member of the raw index.
    pub closed spec fn raw_contains(&self, id: int) -> bool {
        self.raw_index.contains(id)
    }

    /// Membership accuracy for one index and one id: the id is a member
    /// exactly when it is still retained, was assigned while the index was
    /// registered, and its entry is structured and satisfies the index's
    /// conditions as they were (and remain) at push time.
    pub open spec fn index_member_rule(&self, k: int, id: int) -> bool {
        self.index_contains(k, id) <==> {
            &&& self.in_window(id)
            &&& self.index_since(k) <= id
            &&& self.entry_at(id).is_json()
            &&& spec_matches(self.method_at(k), self.entry_at(id).fields())
        }
    }

    /// Membership rule of the raw index: exactly the retained opaque entries.
    pub open spec fn raw_member_rule(&self, id: int) -> bool {
        self.raw_contains(id) <==> self.in_window(id) && !self.entry_at(id).is_json()
    }

    /// Structural well-formedness of the `k`-th index: a sorted identity, a
    /// strictly increasing queue, and a horizon no later than the next id.
    pub closed spec fn index_wf(&self, k: int) -> bool {
        &&& self.indices@[k].index.wf()
        &&& sorted_by(self.method_at(k), cond_order())
        &&& 0 <= self.index_since(k) <= self.next_id()
    }

    /// The store invariant: all three structures are well-formed, registered
    /// identities are distinct, and every membership rule holds.
    pub open spec fn wf(&self) -> bool {
        &&& self.buffer_wf()
        &&& self.raw_wf()
        &&& forall|id: int| #[trigger] self.raw_member_rule(id)
        &&& forall|k: int| 0 <= k < self.num_indices() ==> #[trigger] self.index_wf(k)
        &&& forall|k: int, id: int| 0 <= k < self.num_indices()
            ==> #[trigger] self.index_member_rule(k, id)
        &&& forall|k1: int, k2: int| 0 <= k1 < k2 < self.num_indices()
            ==> #[trigger] self.method_at(k1) != #[trigger] self.method_at(k2)
    }

    /// The buffer part of the invariant.
    pub closed spec fn buffer_wf(&self) -> bool {
        self.buffer.wf()
    }

    /// The raw-index part of the invariant: well-formed, with horizon zero —
    /// the raw index exists from the start and misses nothing.
    pub closed spec fn raw_wf(&self) -> bool {
        self.raw_index.wf() && self.raw_index.since() == 0
    }

    /// Builds an empty store, rejecting a zero buffer bound as a
    /// configuration error before any entry can be pushed.
    pub fn new(options: Options) -> (r: Result<Store, ConfigError>)
        ensures
            options.buffer_size == 0 <==> r is Err,
            r matches Err(e) ==> e == ConfigError::ZeroBufferSize,
            r matches Ok(s) ==> {
                &&& s.wf()
                &&& s.bound() == options.buffer_size
                &&& s.start() == 0
                &&& s.entries() == Seq::<Entry>::empty()
                &&& s.num_indices() == 0
                &&& s.raw_ids() == Seq::<MessageId>::empty()
            },
    {
        if options.buffer_size == 0 {
            return Err(ConfigError::ZeroBufferSize);
        }
        let store = Store {
            buffer: MessageBuffer::new(options.buffer_size),
            raw_index: Index::new(Ghost(0)),
            indices: Vec::new(),
        };
        Ok(store)
    }

    /// Registers an index for `method`. If an index with the same identity
    /// already exists, the store is left unchanged; otherwise a new index is
    /// created empty — it does not backfill from entries already resident in
    /// the buffer, so it only ever reports entries pushed after registration.
    pub fn register_index(&mut self, method: IndexMethod) -> (r: usize)
        requires
            old(self).wf(),
            method.wf(),
        ensures
            final(self).wf(),
            // the returned handle denotes the index registered for `method`,
            // whether found or newly created
            0 <= r < final(self).num_indices(),
            final(self).method_at(r as int) == method@,
            (exists|k: int| 0 <= k < old(self).num_indices()
                && old(self).method_at(k) == method@) ==> *final(self) == *old(self),
            (forall|k: int| 0 <= k < old(self).num_indices()
                ==> old(self).method_at(k) != method@) ==> {
                &&& final(self).num_indices() == old(self).num_indices() + 1
                &&& final(self).method_at(old(self).num_indices()) == method@
                &&& final(self).index_ids(old(self).num_indices()) == Seq::<MessageId>::empty()
                &&& final(self).index_since(old(self).num_indices()) == old(self).next_id()
                &&& forall|k: int| 0 <= k < old(self).num_indices() ==> {
                    &&& final(self).method_at(k) == old(self).method_at(k)
                    &&& final(self).index_ids(k) == old(self).index_ids(k)
                    &&& final(self).index_since(k) == old(self).index_since(k)
                }
                &&& final(self).entries() == old(self).entries()
                &&& final(self).start() == old(self).start()
                &&& final(self).bound() == old(self).bound()
                &&& final(self).raw_ids() == old(self).raw_ids()
            },
    {
        let mut k: usize = 0;
        while k < self.indices.len()
            invariant
                *self == *old(self),
                old(self).wf(),
                method.wf(),
                k <= old(self).num_indices(),
                forall|p: int| 0 <= p < k ==> old(self).method_at(p) != method@,
            decreases old(self).num_indices() - k,
        {
            if method_eq(&self.indices[k].method, &method) {
                proof {
                    assert(old(self).method_at(k as int) == method@);
                }
                return k;
            }
            k = k + 1;
        }
        let position = k;
        let since = Ghost(self.buffer.start() + self.buffer.entries().len());
        self.indices.push(RegisteredIndex { method, index: Index::new(since) });
        proof {
            let n = old(self).num_indices();
            assert(self.num_indices() == n + 1);
            assert forall|p: int| 0 <= p < n implies self.indices@[p] == old(self).indices@[p] by {}
            assert(self.method_at(n) == method@);
            assert forall|id: int| #[trigger] self.raw_member_rule(id) by {
                assert(old(self).raw_member_rule(id));
            }
            assert forall|p: int| 0 <= p < self.num_indices() implies #[trigger] self.index_wf(p) by {
                if p < n {
                    assert(old(self).index_wf(p));
                    assert(self.indices@[p] == old(self).indices@[p]);
                    assert(self.next_id() == old(self).next_id());
                } else {
                    assert(self.indices@[n].index.wf());
                    assert(self.method_at(n) == method@);
                    assert(sorted_by(self.method_at(n), cond_order()));
                    assert(self.index_since(n) == old(self).next_id());
                    assert(0 <= self.index_since(n) <= self.next_id());
                }
            }
            assert forall|p: int, id: int| 0 <= p < self.num_indices()
                implies #[trigger] self.index_member_rule(p, id) by {
                if p < n {
                    assert(old(self).index_member_rule(p, id));
                } else {
                    assert(!self.index_contains(p, id));
                    assert(self.in_window(id) ==> id < self.index_since(p));
                }
            }
            assert forall|k1: int, k2: int| 0 <= k1 < k2 < self.num_indices()
                implies #[trigger] self.method_at(k1) != #[trigger] self.method_at(k2) by {
                if k2 < n {
                    assert(old(self).method_at(k1) != old(self).method_at(k2));
                } else {
                    assert(old(self).method_at(k1) != method@);
                }
            }
        }
        position
    }

    /// Pushes one entry: appends it to the buffer under a fresh id, adds the
    /// id to the raw index (opaque entry) or to every secondary index whose
    /// conditions the entry satisfies (structured entry), and, if the append
    /// evicted the oldest entry, removes the evicted id from every structure
    /// that held it. Classification of the evicted entry is recomputed
    /// against the registry, exactly as for the new entry.
    #[verifier::rlimit(100)]
    pub fn push(&mut self, message: Entry)
        requires
            old(self).wf(),
            message.wf(),
            old(self).next_id() < usize::MAX,
        ensures
            final(self).wf(),
            final(self).bound() == old(self).bound(),
            final(self).num_indices() == old(self).num_indices(),
            forall|k: int| 0 <= k < old(self).num_indices() ==> {
                &&& final(self).method_at(k) == old(self).method_at(k)
                &&& final(self).index_since(k) == old(self).index_since(k)
            },
            final(self).next_id() == old(self).next_id() + 1,
            old(self).window_len() < old(self).bound() ==> {
                &&& final(self).start() == old(self).start()
                &&& final(self).entries() == old(self).entries().push(message)
            },
            old(self).window_len() == old(self).bound() ==> {
                &&& final(self).start() == old(self).start() + 1
                &&& final(self).entries() == old(self).entries().skip(1).push(message)
            },
            // raw vs structured separation for the new id
            final(self).raw_contains(old(self).next_id()) <==> !message.is_json(),
            message.is_json() ==> forall|k: int| 0 <= k < old(self).num_indices()
                ==> (final(self).index_contains(k, old(self).next_id())
                    <==> spec_matches(old(self).method_at(k), message.fields())),
            !message.is_json() ==> forall|k: int| 0 <= k < old(self).num_indices()
                ==> !final(self).index_contains(k, old(self).next_id()),
            // eviction cleanup: an evicted id leaves every structure, and
            // every other previously retained id stays exactly where it was
            forall|k: int, x: int| 0 <= k < old(self).num_indices()
                && x != old(self).next_id() && final(self).in_window(x)
                ==> (final(self).index_contains(k, x) <==> old(self).index_contains(k, x)),
            forall|x: int| x != old(self).next_id() && final(self).in_window(x)
                ==> (final(self).raw_contains(x) <==> old(self).raw_contains(x)),
            old(self).window_len() == old(self).bound() ==> {
                &&& forall|k: int| 0 <= k < old(self).num_indices()
                    ==> !final(self).index_contains(k, old(self).start())
                &&& !final(self).raw_contains(old(self).start())
            },
    {
        let ghost prev = *old(self);
        let ghost n = prev.num_indices();
        let ghost added_id = prev.next_id();

        // classify the incoming entry against the current registry
        let mut matched: Vec<bool> = Vec::new();
        let incoming_json = match &message {
            Entry::Json(je) => {
                let mut k: usize = 0;
                while k < self.indices.len()
                    invariant
                        *self == prev,
                        prev.wf(),
                        message.wf(),
                        message.is_json(),
                        je@ == message.fields(),
                        matched@.len() == k,
                        k <= n,
                        n == prev.num_indices(),
                        forall|p: int| 0 <= p < k ==> matched@[p]
                            == spec_matches(prev.method_at(p), message.fields()),
                    decreases n - k,
                {
                    proof {
                        assert(prev.index_wf(k as int));
                    }
                    let sat = should_index(&self.indices[k].method, je);
                    matched.push(sat);
                    k = k + 1;
                }
                true
            },
            Entry::Raw(_) => {
                false
            },
        };

        let push_result = self.buffer.push(message);
        let added = push_result.added;
        let ghost mid = *self;

        // add the new id where it belongs
        if incoming_json {
            let mut k: usize = 0;
            while k < self.indices.len()
                invariant
                    prev.wf(),
                    message.is_json(),
                    n == prev.num_indices(),
                    added_id == prev.next_id(),
                    added.0 == added_id,
                    matched@.len() == n,
                    forall|p: int| 0 <= p < n ==> matched@[p]
                        == spec_matches(prev.method_at(p), message.fields()),
                    mid.indices == prev.indices,
                    mid.raw_index == prev.raw_index,
                    self.buffer == mid.buffer,
                    self.raw_index == mid.raw_index,
                    self.indices@.len() == n,
                    k <= n,
                    forall|p: int| k <= p < n ==> #[trigger] self.indices@[p] == prev.indices@[p],
                    forall|p: int| 0 <= p < k
                        ==> (#[trigger] self.indices@[p]).method == prev.indices@[p].method,
                    forall|p: int| 0 <= p < k
                        ==> (#[trigger] self.indices@[p]).index.since()
                            == prev.indices@[p].index.since(),
                    forall|p: int| 0 <= p < k ==> (#[trigger] self.indices@[p]).index.wf(),
                    forall|p: int, x: int| 0 <= p < k
                        ==> (#[trigger] self.indices@[p].index.contains(x)
                            <==> (prev.indices@[p].index.contains(x)
                                || (matched@[p] && x == added_id))),
                decreases n - k,
            {
                if matched[k] {
                    proof {
                        assert(prev.index_wf(k as int));
                        let q = prev.indices@[k as int].index;
                        if q.ids().len() > 0 {
                            let lastm = q.ids()[q.ids().len() - 1];
                            assert(q.contains(lastm.0 as int));
                            assert(prev.index_member_rule(k as int, lastm.0 as int));
                            assert(lastm.0 < added_id);
                        }
                    }
                    let ghost before = self.indices@;
                    self.indices[k].index.add(added);
                    proof {
                        assert(self.indices@[k as int].method == before[k as int].method);
                        assert(self.indices@[k as int].index.since()
                            == before[k as int].index.since());
                        assert(self.indices@[k as int].index.wf());
                        assert forall|x: int| self.indices@[k as int].index.contains(x)
                            <==> (prev.indices@[k as int].index.contains(x)
                                || (matched@[k as int] && x == added_id)) by {}
                        assert forall|p: int| 0 <= p < k implies
                            self.indices@[p] == before[p] by {}
                        assert forall|p: int| k + 1 <= p < n implies
                            self.indices@[p] == before[p] by {}
                        assert forall|p: int| 0 <= p < k + 1
                            implies (#[trigger] self.indices@[p]).index.wf() by {
                            if p < k {
                                assert(self.indices@[p] == before[p]);
                                assert(before[p].index.wf());
                            }
                        }
                    }
                } else {
                    proof {
                        assert(prev.index_wf(k as int));
                        assert(self.indices@[k as int] == prev.indices@[k as int]);
                        assert(self.indices@[k as int].index.wf());
                        assert forall|x: int| self.indices@[k as int].index.contains(x)
                            <==> (prev.indices@[k as int].index.contains(x)
                                || (matched@[k as int] && x == added_id)) by {}
                    }
                }
                k = k + 1;
            }
        } else {
            proof {
                let q = prev.raw_index;
                if q.ids().len() > 0 {
                    let lastm = q.ids()[q.ids().len() - 1];
                    assert(q.contains(lastm.0 as int));
                    assert(prev.raw_member_rule(lastm.0 as int));
                    assert(lastm.0 < added_id);
                }
            }
            self.raw_index.add(added);
        }
        let ghost mid2 = *self;
        proof {
            // uniform description of the state after the addition phase
            assert(mid2.buffer == mid.buffer);
            assert(mid2.indices@.len() == n);
            assert forall|p: int| 0 <= p < n
                implies (#[trigger] mid2.indices@[p]).method == prev.indices@[p].method by {
                if !message.is_json() {
                    assert(mid2.indices@[p] == prev.indices@[p]);
                }
            }
            assert forall|p: int| 0 <= p < n
                implies (#[trigger] mid2.indices@[p]).index.since()
                    == prev.indices@[p].index.since() by {
                if !message.is_json() {
                    assert(mid2.indices@[p] == prev.indices@[p]);
                }
            }
            assert forall|p: int| 0 <= p < n
                implies (#[trigger] mid2.indices@[p]).index.wf() by {
                assert(prev.index_wf(p));
                if !message.is_json() {
                    assert(mid2.indices@[p] == prev.indices@[p]);
                }
            }
            assert forall|p: int, x: int| 0 <= p < n
                implies (#[trigger] mid2.indices@[p].index.contains(x)
                    <==> (prev.indices@[p].index.contains(x)
                        || (message.is_json() && matched@[p] && x == added_id))) by {
                if !message.is_json() {
                    assert(mid2.indices@[p] == prev.indices@[p]);
                }
            }
            assert forall|x: int| mid2.raw_index.contains(x)
                <==> (prev.raw_index.contains(x) || (!message.is_json() && x == added_id)) by {}
            assert(mid2.raw_index.wf());
            assert(mid2.raw_index.since() == 0);
        }

        // if an entry was evicted, remove its id from whichever structure
        // previously held it
        match push_result.removed {
            None => {},
            Some((removed_id, removed_message)) => {
                proof {
                    assert(removed_message == prev.entries()[0]);
                    assert(removed_message.wf());
                    assert(removed_id.0 == prev.start());
                }
                match &removed_message {
                    Entry::Raw(_) => {
                        proof {
                            let q = mid2.raw_index;
                            if q.ids().len() > 0 {
                                let hd = q.ids()[0];
                                assert(q.contains(hd.0 as int));
                                if !(prev.raw_index.contains(hd.0 as int)) {
                                    assert(hd.0 == added_id);
                                } else {
                                    assert(prev.raw_member_rule(hd.0 as int));
                                }
                                assert(hd.0 >= removed_id.0);
                            }
                        }
                        self.raw_index.remove(removed_id);
                    },
                    Entry::Json(je) => {
                        let mut k: usize = 0;
                        while k < self.indices.len()
                            invariant
                                prev.wf(),
                                n == prev.num_indices(),
                                added_id == prev.next_id(),
                                prev.window_len() == prev.bound(),
                                removed_id.0 == prev.start(),
                                removed_message == prev.entries()[0],
                                removed_message is Json,
                                je@ == removed_message.fields(),
                                removed_message.wf(),
                                mid2.indices@.len() == n,
                                forall|p: int| 0 <= p < n
                                    ==> (#[trigger] mid2.indices@[p]).method
                                        == prev.indices@[p].method,
                                forall|p: int| 0 <= p < n
                                    ==> (#[trigger] mid2.indices@[p]).index.since()
                                        == prev.indices@[p].index.since(),
                                forall|p: int| 0 <= p < n
                                    ==> (#[trigger] mid2.indices@[p]).index.wf(),
                                forall|p: int, x: int| 0 <= p < n
                                    ==> (#[trigger] mid2.indices@[p].index.contains(x)
                                        <==> (prev.indices@[p].index.contains(x)
                                            || (message.is_json() && matched@[p]
                                                && x == added_id))),
                                self.buffer == mid2.buffer,
                                self.raw_index == mid2.raw_index,
                                self.indices@.len() == n,
                                k <= n,
                                forall|p: int| k <= p < n
                                    ==> #[trigger] self.indices@[p] == mid2.indices@[p],
                                forall|p: int| 0 <= p < k
                                    ==> (#[trigger] self.indices@[p]).method
                                        == mid2.indices@[p].method,
                                forall|p: int| 0 <= p < k
                                    ==> (#[trigger] self.indices@[p]).index.since()
                                        == mid2.indices@[p].index.since(),
                                forall|p: int| 0 <= p < k
                                    ==> (#[trigger] self.indices@[p]).index.wf(),
                                forall|p: int, x: int| 0 <= p < k
                                    ==> (#[trigger] self.indices@[p].index.contains(x)
                                        <==> (mid2.indices@[p].index.contains(x)
                                            && x != removed_id.0)),
                            decreases n - k,
                        {
                            proof {
                                assert(prev.index_wf(k as int));
                                assert(self.indices@[k as int] == mid2.indices@[k as int]);
                                assert(self.indices@[k as int].method == prev.indices@[k as int].method);
                            }
                            let sat = should_index(&self.indices[k].method, je);
                            if sat {
                                proof {
                                    let q = mid2.indices@[k as int].index;
                                    if q.ids().len() > 0 {
                                        let hd = q.ids()[0];
                                        assert(q.contains(hd.0 as int));
                                        if !(prev.indices@[k as int].index.contains(hd.0 as int)) {
                                            assert(hd.0 == added_id);
                                        } else {
                                            assert(prev.index_member_rule(k as int, hd.0 as int));
                                        }
                                        assert(hd.0 >= removed_id.0);
                                    }
                                }
                                self.indices[k].index.remove(removed_id);
                            } else {
                                proof {
                                    // an index whose conditions the evicted
                                    // entry does not satisfy never held it
                                    assert(prev.index_member_rule(k as int, removed_id.0 as int));
                                    assert(prev.entry_at(removed_id.0 as int) == removed_message);
                                    assert(!prev.indices@[k as int].index.contains(removed_id.0 as int));
                                    assert forall|x: int| self.indices@[k as int].index.contains(x)
                                        <==> (mid2.indices@[k as int].index.contains(x)
                                            && x != removed_id.0) by {}
                                }
                            }
                            k = k + 1;
                        }
                    },
                }
            },
        }

        // the membership rules hold again of the shifted window
        proof {
            let ghost evicted = prev.window_len() == prev.bound();
            let ghost evicted_id = prev.start();

            assert(self.entries() == if evicted {
                prev.entries().skip(1).push(message)
            } else {
                prev.entries().push(message)
            });
            assert forall|x: int| self.in_window(x) && x != added_id
                implies prev.in_window(x) && self.entry_at(x) == prev.entry_at(x)
                    && (evicted ==> x != evicted_id) by {
                if evicted {
                    assert(self.entry_at(x) == prev.entries().skip(1)[x - prev.start() - 1]);
                } else {
                    assert(self.entry_at(x) == prev.entries()[x - prev.start()]);
                }
            }
            assert(self.entry_at(added_id) == message);
            assert(self.in_window(added_id));

            assert forall|id: int| #[trigger] self.raw_member_rule(id) by {
                assert(prev.raw_member_rule(id));
                if id == added_id {
                    assert(self.raw_contains(id) <==> !message.is_json());
                } else if self.in_window(id) {
                    assert(self.raw_contains(id) <==> prev.raw_contains(id));
                } else {
                    assert(!prev.in_window(id) || (evicted && id == evicted_id));
                    assert(!self.raw_contains(id));
                }
            }
            assert forall|p: int| 0 <= p < self.num_indices() implies #[trigger] self.index_wf(p) by {
                assert(prev.index_wf(p));
            }
            assert forall|p: int, id: int| 0 <= p < self.num_indices()
                implies #[trigger] self.index_member_rule(p, id) by {
                assert(prev.index_member_rule(p, id));
                assert(prev.index_wf(p));
                if id == added_id {
                    if message.is_json() {
                        assert(self.index_contains(p, id)
                            <==> spec_matches(self.method_at(p), message.fields()));
                        assert(self.index_since(p) <= added_id);
                    } else {
                        assert(!self.index_contains(p, id));
                    }
                } else if self.in_window(id) {
                    assert(self.index_contains(p, id) <==> prev.index_contains(p, id));
                } else {
                    assert(!prev.in_window(id) || (evicted && id == evicted_id));
                    assert(!self.index_contains(p, id));
                }
            }
            assert forall|k1: int, k2: int| 0 <= k1 < k2 < self.num_indices()
                implies #[trigger] self.method_at(k1) != #[trigger] self.method_at(k2) by {
                assert(prev.method_at(k1) != prev.method_at(k2));
            }
            assert(self.wf());

            // instantiate the re-established rules at the two ids of interest
            assert(self.raw_member_rule(added_id));
            assert(self.raw_contains(added_id) <==> !message.is_json());
            assert forall|k: int| 0 <= k < n && !message.is_json()
                implies !self.index_contains(k, added_id) by {
                assert(self.index_member_rule(k, added_id));
            }
            assert forall|k: int| 0 <= k < n && message.is_json()
                implies (self.index_contains(k, added_id)
                    <==> spec_matches(prev.method_at(k), message.fields())) by {
                assert(self.index_member_rule(k, added_id));
                assert(prev.index_wf(k));
                assert(self.method_at(k) == prev.method_at(k));
                assert(self.index_since(k) == prev.index_since(k));
                assert(self.index_since(k) <= added_id);
                assert(self.in_window(added_id));
                assert(self.entry_at(added_id) == message);
            }
            if evicted {
                assert forall|k: int| 0 <= k < n
                    implies !self.index_contains(k, evicted_id) by {
                    assert(self.index_member_rule(k, evicted_id));
                    assert(!self.in_window(evicted_id));
                }
                assert(self.raw_member_rule(evicted_id));
                assert(!self.in_window(evicted_id));
                assert(!self.raw_contains(evicted_id));
            }
        }
    }

    /// A snapshot of the identities of all currently registered indices.
    pub fn list_indices(&self) -> (r: Vec<IndexMethod>)
        ensures
            r@.len() == self.num_indices(),
            forall|k: int| 0 <= k < r@.len() ==> (#[trigger] r@[k])@ == self.method_at(k),
    {
        let mut r: Vec<IndexMethod> = Vec::new();
        let mut k: usize = 0;
        while k < self.indices.len()
            invariant
                k <= self.num_indices(),
                r@.len() == k,
                forall|p: int| 0 <= p < k ==> (#[trigger] r@[p])@ == self.method_at(p),
            decreases self.num_indices() - k,
        {
            r.push(clone_method(&self.indices[k].method));
            k = k + 1;
        }
        r
    }

    /// The current members of the index registered for `method`, oldest
    /// first, or nothing if no such index is registered.
    pub fn index_contents(&self, method: &IndexMethod) -> (r: Option<Vec<MessageId>>)
        ensures
            match r {
                Some(ids) => exists|k: int| 0 <= k < self.num_indices()
                    && #[trigger] self.method_at(k) == method@ && ids@ == self.index_ids(k),
                None => forall|k: int| 0 <= k < self.num_indices()
                    ==> #[trigger] self.method_at(k) != method@,
            },
    {
        let mut k: usize = 0;
        while k < self.indices.len()
            invariant
                k <= self.num_indices(),
                forall|p: int| 0 <= p < k ==> #[trigger] self.method_at(p) != method@,
            decreases self.num_indices() - k,
        {
            if method_eq(&self.indices[k].method, method) {
                proof {
                    assert(self.method_at(k as int) == method@);
                }
                return Some(self.indices[k].index.ids_vec());
            }
            k = k + 1;
        }
        None
    }

    /// The current members of the raw index, oldest first.
    pub fn raw_contents(&self) -> (r: Vec<MessageId>)
        ensures
            r@ == self.raw_ids(),
    {
        self.raw_index.ids_vec()
    }

    /// Id of the oldest retained entry.
    pub fn window_start(&self) -> (r: usize)
        ensures
            r == self.start(),
    {
        self.buffer.start_id()
    }

    /// Number of retained entries.
    pub fn window_size(&self) -> (r: usize)
        ensures
            r == self.window_len(),
    {
        self.buffer.size()
    }

    /// The fixed buffer capacity.
    pub fn capacity(&self) -> (r: usize)
        ensures
            r == self.bound(),
    {
        self.buffer.capacity()
    }
}

/// Bounded window: after any N pushes into a fresh store with bound B, the
/// buffer holds exactly `min(N, B)` entries and their ids form the contiguous
/// range `[max(0, N - B), N)`. Here `next_id()` equals N, since a fresh store
/// starts at id zero and every push assigns one id.
pub proof fn lemma_bounded_window(s: &Store)
    requires
        s.wf(),
    ensures
        s.window_len() == vstd::math::min(s.next_id(), s.bound()),
        s.start() == vstd::math::max(0, s.next_id() - s.bound()),
        forall|id: int| s.in_window(id) <==> vstd::math::max(0, s.next_id() - s.bound()) <= id
            < s.next_id(),
{
}

/// Eviction correctness: a push evicts exactly when the buffer is full, and
/// then it evicts the single entry with id `start()`. In particular, after
/// exactly B pushes into a fresh store with bound B, the buffer is full and
/// its oldest id is 0, so the next push evicts id 0 and nothing else — as
/// `push`'s contract then guarantees.
pub proof fn lemma_first_eviction(s: &Store)
    requires
        s.wf(),
        s.next_id() == s.bound(),
    ensures
        s.window_len() == s.bound(),
        s.start() == 0,
{
}

/// Index monotonicity: at every observable point, every secondary index's
/// queue is strictly increasing.
pub proof fn lemma_index_monotonic(s: &Store, k: int)
    requires
        s.wf(),
        0 <= k < s.num_indices(),
    ensures
        forall|i: int, j: int| 0 <= i < j < s.index_ids(k).len()
            ==> (#[trigger] s.index_ids(k)[i]).0 < (#[trigger] s.index_ids(k)[j]).0,
{
    assert(s.index_wf(k));
}

/// Membership accuracy: an id is a member of an index exactly when it is
/// still retained, was assigned while the index was registered, and its
/// entry is structured and satisfies the index's conditions — evaluated
/// against the entry's fields, which are immutable since push time.
pub proof fn lemma_membership_accuracy(s: &Store, k: int, id: int)
    requires
        s.wf(),
        0 <= k < s.num_indices(),
    ensures
        s.index_contains(k, id) <==> {
            &&& s.in_window(id)
            &&& s.index_since(k) <= id
            &&& s.entry_at(id).is_json()
            &&& spec_matches(s.method_at(k), s.entry_at(id).fields())
        },
{
    assert(s.index_member_rule(k, id));
}

/// Late registration: an index never contains an id assigned before its
/// registration horizon, even if that entry still resides in the buffer and
/// would match its conditions.
pub proof fn lemma_late_registration(s: &Store, k: int, id: int)
    requires
        s.wf(),
        0 <= k < s.num_indices(),
        id < s.index_since(k),
    ensures
        !s.index_contains(k, id),
{
    assert(s.index_member_rule(k, id));
}

/// Raw vs structured separation: the raw index holds exactly the retained
/// opaque entries, and a member of any secondary index is always structured.
pub proof fn lemma_raw_separation(s: &Store, id: int)
    requires
        s.wf(),
    ensures
        s.raw_contains(id) <==> s.in_window(id) && !s.entry_at(id).is_json(),
        forall|k: int| 0 <= k < s.num_indices() && #[trigger] s.index_contains(k, id)
            ==> s.entry_at(id).is_json(),
{
    assert(s.raw_member_rule(id));
    assert forall|k: int| 0 <= k < s.num_indices() && #[trigger] s.index_contains(k, id)
        implies s.entry_at(id).is_json() by {
        assert(s.index_member_rule(k, id));
    }
}

} // verus!
