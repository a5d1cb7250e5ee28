//! The server's shared record of accepted connections: for each connection id,
//! whether its peer asked for data, and the handle that writes to it.

use vstd::prelude::*;

verus! {

/// What the registry knows of one connection.
pub struct ConnState {
    /// The peer sent `SEND_DATA` and has not sent `STOP` since.
    pub ready: bool,
    /// A write handle is installed for the connection.
    pub connected: bool,
}

/// Accepted connections in order of their ids, which the registry hands out
/// in increasing order. `W` is the write handle of a connection.
pub struct ConnectionRegistry<W> {
    ids: Vec<usize>,
    ready: Vec<bool>,
    transports: Vec<Option<W>>,
    next_id: usize,
}

/// The position of `id` in a sequence of ids that holds it.
pub open spec fn index_in(ids: Seq<usize>, id: usize) -> int {
    choose|i: int| 0 <= i < ids.len() && ids[i] == id
}

/// At most the first two ids of a sequence.
pub open spec fn first_two(s: Seq<usize>) -> Seq<usize> {
    if s.len() <= 2 {
        s
    } else {
        s.subrange(0, 2)
    }
}

impl<W> View for ConnectionRegistry<W> {
    type V = Map<usize, ConnState>;

    /// The state of each registered connection, by id.
    closed spec fn view(&self) -> Map<usize, ConnState> {
        Map::new(
            |id: usize| self.ids@.contains(id),
            |id: usize| self.state_at(index_in(self.ids@, id)),
        )
    }
}

impl<W> ConnectionRegistry<W> {
    /// The parallel columns have one length, ids strictly increase and all lie
    /// below the next id to hand out.
    pub closed spec fn wf(&self) -> bool {
        &&& self.ready@.len() == self.ids@.len()
        &&& self.transports@.len() == self.ids@.len()
        &&& forall|i: int, j: int| 0 <= i < j < self.ids@.len() ==> self.ids@[i] < self.ids@[j]
        &&& forall|i: int| 0 <= i < self.ids@.len() ==> self.ids@[i] < self.next_id
    }

    closed spec fn state_at(&self, i: int) -> ConnState {
        ConnState { ready: self.ready@[i], connected: self.transports@[i] is Some }
    }

    /// The id that the next registration hands out.
    pub closed spec fn next_id(&self) -> usize {
        self.next_id
    }

    /// The ids of the first `k` entries that are ready (and, if
    /// `need_transport`, have a write handle), in increasing order.
    closed spec fn select_upto(&self, k: int, need_transport: bool) -> Seq<usize>
        decreases k,
    {
        if k <= 0 {
            Seq::empty()
        } else {
            let prev = self.select_upto(k - 1, need_transport);
            if self.ready@[k - 1] && (!need_transport || self.transports@[k - 1] is Some) {
                prev.push(self.ids@[k - 1])
            } else {
                prev
            }
        }
    }

    /// The ready connections, in increasing order of id.
    pub closed spec fn ready_ids(&self) -> Seq<usize> {
        self.select_upto(self.ids@.len() as int, false)
    }

    /// The ready connections that have a write handle, in increasing order of id.
    pub closed spec fn live_ready_ids(&self) -> Seq<usize> {
        self.select_upto(self.ids@.len() as int, true)
    }

    proof fn lemma_index(&self, i: int)
        requires
            self.wf(),
            0 <= i < self.ids@.len(),
        ensures
            self.ids@.contains(self.ids@[i]),
            index_in(self.ids@, self.ids@[i]) == i,
    {
        let id = self.ids@[i];
        assert(0 <= i < self.ids@.len() && self.ids@[i] == id);
        let j = index_in(self.ids@, id);
        if j < i {
            assert(self.ids@[j] < self.ids@[i]);
        } else if j > i {
            assert(self.ids@[i] < self.ids@[j]);
        }
    }

    /// Every registered id lies below the next id to hand out; since
    /// registration hands out that id and then advances it by one, and no
    /// other operation lowers it, an id is never handed out twice.
    pub proof fn lemma_ids_below_next(&self)
        requires
            self.wf(),
        ensures
            forall|id: usize| self@.contains_key(id) ==> id < self.next_id(),
    {
        assert forall|id: usize| self@.contains_key(id) implies id < self.next_id() by {
            let j = choose|j: int| 0 <= j < self.ids@.len() && self.ids@[j] == id;
        };
    }

    /// An empty registry that hands out ids from zero.
    pub fn new() -> (r: Self)
        ensures
            r.wf(),
            r@ == Map::<usize, ConnState>::empty(),
            r.next_id() == 0,
    {
        let r = ConnectionRegistry {
            ids: Vec::new(),
            ready: Vec::new(),
            transports: Vec::new(),
            next_id: 0,
        };
        assert(r@ =~= Map::<usize, ConnState>::empty());
        r
    }

    /// The position of `id`, if it is registered.
    fn find(&self, id: usize) -> (r: Option<usize>)
        requires
            self.wf(),
        ensures
            r is None <==> !self@.contains_key(id),
            r matches Some(i) ==> i < self.ids@.len() && self.ids@[i as int] == id
                && index_in(self.ids@, id) == i,
    {
        let mut k: usize = 0;
        while k < self.ids.len()
            invariant
                self.wf(),
                k <= self.ids@.len(),
                forall|j: int| 0 <= j < k ==> self.ids@[j] != id,
            decreases self.ids@.len() - k,
        {
            if self.ids[k] == id {
                proof {
                    self.lemma_index(k as int);
                }
                return Some(k);
            }
            k = k + 1;
        }
        None
    }

    /// Accepts a new connection: it gets the next id, is not ready and has no
    /// write handle yet. Gives `None`, and changes nothing, once the ids are
    /// used up.
    pub fn register(&mut self) -> (r: Option<usize>)
        requires
            old(self).wf(),
        ensures
            final(self).wf(),
            r is None <==> old(self).next_id() == usize::MAX,
            r is None ==> final(self)@ == old(self)@ && final(self).next_id() == old(self).next_id(),
            r matches Some(id) ==> final(self).next_id() == id + 1,
            r matches Some(id) ==> id == old(self).next_id() && !old(self)@.contains_key(id)
                && final(self)@ == old(self)@.insert(
                id,
                ConnState { ready: false, connected: false },
            ),
    {
        if self.next_id == usize::MAX {
            return None;
        }
        let id = self.next_id;
        let ghost before = *self;
        self.ids.push(id);
        self.ready.push(false);
        self.transports.push(None);
        self.next_id = id + 1;
        proof {
            assert(!before.ids@.contains(id));
            let n = before.ids@.len() as int;
            assert forall|x: usize| #[trigger] self@.contains_key(x) == before@.insert(
                id,
                ConnState { ready: false, connected: false },
            ).contains_key(x) by {
                if self.ids@.contains(x) {
                    let j = choose|j: int| 0 <= j < self.ids@.len() && self.ids@[j] == x;
                    if j < n {
                        assert(before.ids@[j] == x);
                    }
                }
                if before.ids@.contains(x) {
                    let j = choose|j: int| 0 <= j < before.ids@.len() && before.ids@[j] == x;
                    assert(self.ids@[j] == x);
                }
                if x == id {
                    assert(self.ids@[n] == x);
                }
            };
            assert forall|x: usize| #[trigger] self@.contains_key(x) implies self@[x]
                == before@.insert(id, ConnState { ready: false, connected: false })[x] by {
                let j = choose|j: int| 0 <= j < self.ids@.len() && self.ids@[j] == x;
                self.lemma_index(j);
                if j < n {
                    before.lemma_index(j);
                }
            };
            assert(self@ =~= before@.insert(id, ConnState { ready: false, connected: false }));
        }
        Some(id)
    }

    /// After a change that kept the ids and touched only the column entries at
    /// position `i`, the view changed only at the id stored there.
    proof fn lemma_changed_at(before: &Self, after: &Self, i: int)
        requires
            before.wf(),
            after.wf(),
            after.ids@ == before.ids@,
            0 <= i < before.ids@.len(),
            forall|j: int|
                0 <= j < before.ids@.len() && j != i ==> after.state_at(j) == before.state_at(j),
        ensures
            after@ == before@.insert(before.ids@[i], after.state_at(i)),
    {
        before.lemma_index(i);
        assert forall|x: usize| #[trigger] after@.contains_key(x) implies after@[x]
            == before@.insert(before.ids@[i], after.state_at(i))[x] by {
            let j = choose|j: int| 0 <= j < after.ids@.len() && after.ids@[j] == x;
            after.lemma_index(j);
        };
        assert(after@ =~= before@.insert(before.ids@[i], after.state_at(i)));
    }

    fn set_ready(&mut self, id: usize, flag: bool) -> (r: bool)
        requires
            old(self).wf(),
        ensures
            final(self).wf(),
            final(self).next_id() == old(self).next_id(),
            r == old(self)@.contains_key(id),
            final(self)@ == if r {
                old(self)@.insert(
                    id,
                    ConnState { ready: flag, connected: old(self)@[id].connected },
                )
            } else {
                old(self)@
            },
    {
        match self.find(id) {
            Some(i) => {
                let ghost before = *self;
                self.ready.set(i, flag);
                proof {
                    Self::lemma_changed_at(&before, self, i as int);
                }
                true
            },
            None => false,
        }
    }

    /// Marks a registered connection ready; returns whether `id` is registered.
    pub fn mark_ready(&mut self, id: usize) -> (r: bool)
        requires
            old(self).wf(),
        ensures
            final(self).wf(),
            final(self).next_id() == old(self).next_id(),
            r == old(self)@.contains_key(id),
            final(self)@ == if r {
                old(self)@.insert(
                    id,
                    ConnState { ready: true, connected: old(self)@[id].connected },
                )
            } else {
                old(self)@
            },
    {
        self.set_ready(id, true)
    }

    /// Marks a registered connection not ready; returns whether `id` is registered.
    pub fn mark_not_ready(&mut self, id: usize) -> (r: bool)
        requires
            old(self).wf(),
        ensures
            final(self).wf(),
            final(self).next_id() == old(self).next_id(),
            r == old(self)@.contains_key(id),
            final(self)@ == if r {
                old(self)@.insert(
                    id,
                    ConnState { ready: false, connected: old(self)@[id].connected },
                )
            } else {
                old(self)@
            },
    {
        self.set_ready(id, false)
    }

    /// Installs the write handle of a registered connection, replacing any
    /// earlier one; returns whether `id` is registered (if not, the handle is
    /// dropped).
    pub fn store_writer(&mut self, id: usize, writer: W) -> (r: bool)
        requires
            old(self).wf(),
        ensures
            final(self).wf(),
            final(self).next_id() == old(self).next_id(),
            r == old(self)@.contains_key(id),
            final(self)@ == if r {
                old(self)@.insert(id, ConnState { ready: old(self)@[id].ready, connected: true })
            } else {
                old(self)@
            },
    {
        match self.find(id) {
            Some(i) => {
                let ghost before = *self;
                self.transports.set(i, Some(writer));
                proof {
                    Self::lemma_changed_at(&before, self, i as int);
                }
                true
            },
            None => false,
        }
    }

    /// Takes the write handle of a connection out of the registry, leaving the
    /// connection registered without one; `store_writer` puts it back.
    pub fn take_writer(&mut self, id: usize) -> (r: Option<W>)
        requires
            old(self).wf(),
        ensures
            final(self).wf(),
            final(self).next_id() == old(self).next_id(),
            r is Some <==> old(self)@.contains_key(id) && old(self)@[id].connected,
            final(self)@ == if old(self)@.contains_key(id) {
                old(self)@.insert(id, ConnState { ready: old(self)@[id].ready, connected: false })
            } else {
                old(self)@
            },
    {
        match self.find(id) {
            Some(i) => {
                let ghost before = *self;
                let taken = self.transports.remove(i);
                self.transports.insert(i, None);
                proof {
                    assert(self.transports@ =~= before.transports@.update(i as int, None));
                    Self::lemma_changed_at(&before, self, i as int);
                }
                taken
            },
            None => None,
        }
    }

    /// Forgets a connection: its readiness and its write handle go together.
    /// Returns whether `id` was registered.
    pub fn remove(&mut self, id: usize) -> (r: bool)
        requires
            old(self).wf(),
        ensures
            final(self).wf(),
            final(self).next_id() == old(self).next_id(),
            r == old(self)@.contains_key(id),
            final(self)@ == old(self)@.remove(id),
    {
        match self.find(id) {
            Some(i) => {
                let ghost before = *self;
                self.ids.remove(i);
                self.ready.remove(i);
                self.transports.remove(i);
                proof {
                    let n = before.ids@.len() as int;
                    let ii = i as int;
                    assert forall|a: int, b: int|
                        0 <= a < b < self.ids@.len() implies self.ids@[a] < self.ids@[b] by {
                        let a0 = if a < ii { a } else { a + 1 };
                        let b0 = if b < ii { b } else { b + 1 };
                        assert(self.ids@[a] == before.ids@[a0]);
                        assert(self.ids@[b] == before.ids@[b0]);
                    };
                    assert forall|a: int| 0 <= a < self.ids@.len() implies self.ids@[a]
                        < self.next_id by {
                        let a0 = if a < ii { a } else { a + 1 };
                        assert(self.ids@[a] == before.ids@[a0]);
                    };
                    assert forall|x: usize| #[trigger] self@.contains_key(x)
                        == before@.remove(id).contains_key(x) by {
                        if self.ids@.contains(x) {
                            let j = choose|j: int| 0 <= j < self.ids@.len() && self.ids@[j] == x;
                            let j0 = if j < ii { j } else { j + 1 };
                            assert(before.ids@[j0] == x);
                            assert(j0 != ii);
                        }
                        if before.ids@.contains(x) && x != id {
                            let j = choose|j: int| 0 <= j < before.ids@.len() && before.ids@[j] == x;
                            before.lemma_index(j);
                            let j1 = if j < ii { j } else { j - 1 };
                            assert(self.ids@[j1] == x);
                        }
                    };
                    assert forall|x: usize| #[trigger] self@.contains_key(x) implies self@[x]
                        == before@.remove(id)[x] by {
                        let j = choose|j: int| 0 <= j < self.ids@.len() && self.ids@[j] == x;
                        self.lemma_index(j);
                        let j0 = if j < ii { j } else { j + 1 };
                        assert(before.ids@[j0] == x);
                        before.lemma_index(j0);
                    };
                    assert(self@ =~= before@.remove(id));
                }
                true
            },
            None => {
                proof {
                    assert(self@ =~= self@.remove(id));
                }
                false
            },
        }
    }

    proof fn lemma_select(&self, k: int, need_transport: bool)
        requires
            self.wf(),
            0 <= k <= self.ids@.len(),
        ensures
            forall|x: usize|
                self.select_upto(k, need_transport).contains(x) <==> exists|i: int|
                    0 <= i < k && #[trigger] self.ids@[i] == x && self.ready@[i] && (
                    !need_transport || self.transports@[i] is Some),
            forall|a: int, b: int|
                0 <= a < b < self.select_upto(k, need_transport).len() ==> self.select_upto(
                    k,
                    need_transport,
                )[a] < self.select_upto(k, need_transport)[b],
            forall|a: int|
                0 <= a < self.select_upto(k, need_transport).len() ==> exists|i: int|
                    0 <= i < k && self.ids@[i] == #[trigger] self.select_upto(
                        k,
                        need_transport,
                    )[a],
        decreases k,
    {
        if k > 0 {
            self.lemma_select(k - 1, need_transport);
            let prev = self.select_upto(k - 1, need_transport);
            let cur = self.select_upto(k, need_transport);
            assert forall|x: usize| cur.contains(x) <==> exists|i: int|
                0 <= i < k && #[trigger] self.ids@[i] == x && self.ready@[i] && (!need_transport
                    || self.transports@[i] is Some) by {
                if cur.contains(x) && !prev.contains(x) {
                    assert(cur.len() == prev.len() + 1);
                    let j = choose|j: int| 0 <= j < cur.len() && cur[j] == x;
                    if j < prev.len() {
                        assert(prev[j] == x);
                    }
                    assert(self.ids@[k - 1] == x);
                }
                if prev.contains(x) {
                    let j = choose|j: int| 0 <= j < prev.len() && prev[j] == x;
                    assert(cur[j] == x);
                }
                if exists|i: int|
                    0 <= i < k && #[trigger] self.ids@[i] == x && self.ready@[i] && (
                    !need_transport || self.transports@[i] is Some) {
                    let i = choose|i: int|
                        0 <= i < k && #[trigger] self.ids@[i] == x && self.ready@[i] && (
                        !need_transport || self.transports@[i] is Some);
                    if i == k - 1 {
                        assert(cur[cur.len() - 1] == x);
                    }
                }
            };
            assert forall|a: int| 0 <= a < cur.len() implies exists|i: int|
                0 <= i < k && self.ids@[i] == #[trigger] cur[a] by {
                if a < prev.len() {
                    assert(cur[a] == prev[a]);
                } else {
                    assert(self.ids@[k - 1] == cur[a]);
                }
            };
            assert forall|a: int, b: int| 0 <= a < b < cur.len() implies cur[a] < cur[b] by {
                if b == prev.len() {
                    assert(cur[a] == prev[a]);
                    let i = choose|i: int| 0 <= i < k - 1 && self.ids@[i] == #[trigger] prev[a];
                    assert(self.ids@[i] < self.ids@[k - 1]);
                } else {
                    assert(cur[a] == prev[a]);
                    assert(cur[b] == prev[b]);
                }
            };
        }
    }

    /// The ready connections are exactly the registered ones marked ready, and
    /// the live ready ones are those that also have a write handle; both lists
    /// strictly increase.
    pub proof fn lemma_ready_ids(&self)
        requires
            self.wf(),
        ensures
            forall|id: usize|
                self.ready_ids().contains(id) <==> self@.contains_key(id) && self@[id].ready,
            forall|id: usize|
                self.live_ready_ids().contains(id) <==> self@.contains_key(id) && self@[id].ready
                    && self@[id].connected,
            forall|a: int, b: int|
                0 <= a < b < self.ready_ids().len() ==> self.ready_ids()[a]
                    < self.ready_ids()[b],
            forall|a: int, b: int|
                0 <= a < b < self.live_ready_ids().len() ==> self.live_ready_ids()[a]
                    < self.live_ready_ids()[b],
    {
        let n = self.ids@.len() as int;
        self.lemma_select(n, false);
        self.lemma_select(n, true);
        assert forall|id: usize| self@.contains_key(id) implies exists|i: int|
            0 <= i < n && #[trigger] self.ids@[i] == id && i == index_in(self.ids@, id) by {
            let j = choose|j: int| 0 <= j < n && self.ids@[j] == id;
            self.lemma_index(j);
        };
        assert forall|id: usize| self.ready_ids().contains(id) implies self@.contains_key(id)
            && self@[id].ready by {
            let i = choose|i: int| 0 <= i < n && #[trigger] self.ids@[i] == id && self.ready@[i];
            self.lemma_index(i);
        };
        assert forall|id: usize| self.live_ready_ids().contains(id) implies self@.contains_key(id)
            && self@[id].ready && self@[id].connected by {
            let i = choose|i: int|
                0 <= i < n && #[trigger] self.ids@[i] == id && self.ready@[i]
                    && self.transports@[i] is Some;
            self.lemma_index(i);
        };
    }

    fn collect(&self, need_transport: bool) -> (r: Vec<usize>)
        requires
            self.wf(),
        ensures
            r@ == self.select_upto(self.ids@.len() as int, need_transport),
    {
        let mut out: Vec<usize> = Vec::new();
        let mut k: usize = 0;
        while k < self.ids.len()
            invariant
                self.wf(),
                k <= self.ids@.len(),
                out@ == self.select_upto(k as int, need_transport),
            decreases self.ids@.len() - k,
        {
            if self.ready[k] && (!need_transport || self.transports[k].is_some()) {
                out.push(self.ids[k]);
            }
            k = k + 1;
        }
        out
    }

    /// The ready connections, in increasing order of id.
    pub fn ready_list(&self) -> (r: Vec<usize>)
        requires
            self.wf(),
        ensures
            r@ == self.ready_ids(),
    {
        self.collect(false)
    }

    /// How many connections are ready, whether or not they have a write handle.
    pub fn ready_count(&self) -> (r: usize)
        requires
            self.wf(),
        ensures
            r == self.ready_ids().len(),
    {
        self.collect(false).len()
    }

    /// The connections that receive this round's portions: the two ready
    /// connections with a write handle and the lowest ids (fewer if there are
    /// fewer). The one at position `p` receives portion `p`.
    pub fn recipients(&self) -> (r: Vec<usize>)
        requires
            self.wf(),
        ensures
            r@ == first_two(self.live_ready_ids()),
    {
        let mut out = self.collect(true);
        if out.len() > 2 {
            out.truncate(2);
        }
        out
    }

    /// Whether `id` is registered and ready.
    pub fn is_ready(&self, id: usize) -> (r: bool)
        requires
            self.wf(),
        ensures
            r == (self@.contains_key(id) && self@[id].ready),
    {
        match self.find(id) {
            Some(i) => self.ready[i],
            None => false,
        }
    }

    /// Whether `id` is registered and has a write handle.
    pub fn is_connected(&self, id: usize) -> (r: bool)
        requires
            self.wf(),
        ensures
            r == (self@.contains_key(id) && self@[id].connected),
    {
        match self.find(id) {
            Some(i) => self.transports[i].is_some(),
            None => false,
        }
    }
}

} // verus!
