//! The server's registry of open connections.

use vstd::prelude::*;

verus! {

/// The connections that completed the handshake, each under an identifier
/// of its own, in the order in which they were registered. An identifier is
/// never given out twice, also not after its connection has left.
pub struct Registry<T> {
    entries: Vec<(u64, T)>,
    next_id: u64,
}

impl<T> Registry<T> {
    /// The identifiers of the registered connections, in their order.
    pub closed spec fn ids(&self) -> Seq<u64> {
        Seq::new(self.entries@.len(), |i: int| self.entries@[i].0)
    }

    /// The registered connections, in their order.
    pub closed spec fn handles(&self) -> Seq<T> {
        Seq::new(self.entries@.len(), |i: int| self.entries@[i].1)
    }

    /// How many identifiers have been given out so far.
    pub closed spec fn issued(&self) -> nat {
        self.next_id as nat
    }

    /// The registry is in order: the identifiers grow along the entries and
    /// all of them have been given out.
    pub closed spec fn wf(&self) -> bool {
        &&& forall|i: int, j: int|
            0 <= i < j < self.entries@.len() ==> self.entries@[i].0 < self.entries@[j].0
        &&& forall|i: int| 0 <= i < self.entries@.len() ==> self.entries@[i].0 < self.next_id
    }

    /// In a registry that is in order there are as many identifiers as
    /// connections, the identifiers grow, so that none occurs twice, and
    /// each is below the number of identifiers given out.
    pub proof fn lemma_ids_grow(&self)
        requires
            self.wf(),
        ensures
            self.ids().len() == self.handles().len(),
            forall|i: int, j: int| 0 <= i < j < self.ids().len() ==> self.ids()[i] < self.ids()[j],
            forall|i: int| 0 <= i < self.ids().len() ==> self.ids()[i] < self.issued(),
    {
    }

    /// A registry without connections.
    pub fn new() -> (registry: Registry<T>)
        ensures
            registry.wf(),
            registry.ids() == Seq::<u64>::empty(),
            registry.handles() == Seq::<T>::empty(),
            registry.issued() == 0,
    {
        let registry = Registry { entries: Vec::new(), next_id: 0 };
        assert(registry.ids() =~= Seq::<u64>::empty());
        assert(registry.handles() =~= Seq::<T>::empty());
        registry
    }

    /// How many connections are registered.
    pub fn len(&self) -> (count: usize)
        ensures
            count == self.ids().len(),
            count == self.handles().len(),
    {
        self.entries.len()
    }

    /// Whether no connection is registered.
    pub fn is_empty(&self) -> (empty: bool)
        ensures
            empty == (self.ids().len() == 0),
    {
        self.entries.len() == 0
    }

    /// The identifier of the connection at a position.
    pub fn id_at(&self, index: usize) -> (id: u64)
        requires
            index < self.ids().len(),
        ensures
            id == self.ids()[index as int],
    {
        self.entries[index].0
    }

    /// The connection at a position.
    pub fn handle_at(&self, index: usize) -> (handle: &T)
        requires
            index < self.handles().len(),
        ensures
            *handle == self.handles()[index as int],
    {
        &self.entries[index].1
    }

    /// The position of the connection with the given identifier.
    fn position(&self, id: u64) -> (found: Option<usize>)
        ensures
            match found {
                Some(at) => at < self.ids().len() && self.ids()[at as int] == id,
                None => !self.ids().contains(id),
            },
    {
        let mut at: usize = 0;
        while at < self.entries.len()
            invariant
                at <= self.entries@.len(),
                forall|j: int| 0 <= j < at ==> self.ids()[j] != id,
            decreases self.entries@.len() - at,
        {
            if self.entries[at].0 == id {
                return Some(at);
            }
            at += 1;
        }
        None
    }

    /// Whether a connection is registered under the identifier.
    pub fn contains(&self, id: u64) -> (present: bool)
        ensures
            present == self.ids().contains(id),
    {
        self.position(id).is_some()
    }

    /// Registers a connection and gives it a fresh identifier. Once all
    /// identifiers have been given out the connection is handed back.
    pub fn register(&mut self, handle: T) -> (id: Result<u64, T>)
        requires
            old(self).wf(),
        ensures
            final(self).wf(),
            id is Ok <==> old(self).issued() < u64::MAX,
            match id {
                Ok(fresh) => {
                    &&& fresh == old(self).issued()
                    &&& !old(self).ids().contains(fresh)
                    &&& final(self).ids() == old(self).ids().push(fresh)
                    &&& final(self).handles() == old(self).handles().push(handle)
                    &&& final(self).issued() == old(self).issued() + 1
                },
                Err(back) => {
                    &&& back == handle
                    &&& final(self).ids() == old(self).ids()
                    &&& final(self).handles() == old(self).handles()
                    &&& final(self).issued() == old(self).issued()
                },
            },
    {
        if self.next_id == u64::MAX {
            return Err(handle);
        }
        let fresh = self.next_id;
        self.entries.push((fresh, handle));
        self.next_id = fresh + 1;
        assert(self.ids() =~= old(self).ids().push(fresh));
        assert(self.handles() =~= old(self).handles().push(handle));
        assert(!old(self).ids().contains(fresh)) by {
            if old(self).ids().contains(fresh) {
                let at = choose|i: int| 0 <= i < old(self).ids().len() && old(self).ids()[i] == fresh;
                assert(old(self).entries@[at].0 < old(self).next_id);
            }
        }
        Ok(fresh)
    }

    /// Takes the connection with the given identifier out of the registry
    /// and hands it over. The other connections keep their order.
    pub fn deregister(&mut self, id: u64) -> (handle: Option<T>)
        requires
            old(self).wf(),
        ensures
            final(self).wf(),
            final(self).issued() == old(self).issued(),
            handle is Some <==> old(self).ids().contains(id),
            !final(self).ids().contains(id),
            match handle {
                Some(taken) => exists|at: int|
                    {
                        &&& 0 <= at < old(self).ids().len()
                        &&& #[trigger] old(self).ids()[at] == id
                        &&& taken == old(self).handles()[at]
                        &&& final(self).ids() == old(self).ids().remove(at)
                        &&& final(self).handles() == old(self).handles().remove(at)
                    },
                None => {
                    &&& final(self).ids() == old(self).ids()
                    &&& final(self).handles() == old(self).handles()
                },
            },
    {
        match self.position(id) {
            Some(at) => {
                let entry = self.entries.remove(at);
                assert(self.ids() =~= old(self).ids().remove(at as int));
                assert(self.handles() =~= old(self).handles().remove(at as int));
                assert(!self.ids().contains(id)) by {
                    if self.ids().contains(id) {
                        let other = choose|i: int| 0 <= i < self.ids().len() && self.ids()[i] == id;
                        if other < at {
                            assert(old(self).entries@[other].0 < old(self).entries@[at as int].0);
                        } else {
                            assert(old(self).entries@[at as int].0 < old(self).entries@[other + 1].0);
                        }
                    }
                }
                assert(old(self).ids()[at as int] == id);
                Some(entry.1)
            },
            None => None,
        }
    }

    /// Hands `bytes` to `send` once for every registered connection, in
    /// their order, and reports for each whether `send` succeeded. A
    /// failure for one connection does not keep the others from their
    /// turn.
    pub fn broadcast<F: Fn(&T, &[u8]) -> bool>(&self, bytes: &[u8], send: F) -> (delivered: Vec<
        bool,
    >)
        requires
            forall|i: int|
                0 <= i < self.handles().len() ==> call_requires(
                    send,
                    (&#[trigger] self.handles()[i], bytes),
                ),
        ensures
            delivered@.len() == self.handles().len(),
            forall|i: int|
                0 <= i < self.handles().len() ==> call_ensures(
                    send,
                    (&self.handles()[i], bytes),
                    #[trigger] delivered@[i],
                ),
    {
        let mut delivered: Vec<bool> = Vec::new();
        let count = self.entries.len();
        let mut at: usize = 0;
        while at < count
            invariant
                at <= count,
                count == self.handles().len(),
                count == self.entries@.len(),
                delivered@.len() == at,
                forall|i: int|
                    0 <= i < self.handles().len() ==> call_requires(
                        send,
                        (&#[trigger] self.handles()[i], bytes),
                    ),
                forall|i: int|
                    0 <= i < at ==> call_ensures(
                        send,
                        (&self.handles()[i], bytes),
                        #[trigger] delivered@[i],
                    ),
            decreases count - at,
        {
            assert(self.handles()[at as int] == self.entries@[at as int].1);
            let sent = send(&self.entries[at].1, bytes);
            delivered.push(sent);
            at += 1;
        }
        delivered
    }
}

} // verus!
