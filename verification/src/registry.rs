//! Registry of the servers connected to a relay. Each registration gets a
//! generation number, so that a handle from an earlier registration of the
//! same server never removes a later one.

use vstd::prelude::*;
use crate::proto::ServerId;
use crate::relay_error::{RelayError, RelayResult};

verus! {

/// What a socket's writer task is asked to send.
#[derive(Debug, Clone, PartialEq, Eq)]
pub enum ServerMsg {
    /// An encoded control frame.
    Ctrl(Vec<u8>),
    /// An encoded data frame.
    Data(Vec<u8>),
    /// Close the socket.
    Close,
}

/// A server's routing slot: its id and the handle used to reach it.
pub struct ServerSlot<T> {
    pub server_id: ServerId,
    pub tx: T,
}

impl<T> ServerSlot<T> {
    pub fn new(server_id: ServerId, tx: T) -> (r: Self)
        ensures
            r.server_id == server_id,
            r.tx == tx,
    {
        ServerSlot { server_id, tx }
    }
}

struct StoredServerSlot<T> {
    slot: ServerSlot<T>,
    generation: u64,
}

/// Proof that a server was registered, and which registration it was. It is a
/// unique handle (neither `Copy` nor `Clone`): giving it back with
/// [`ServerRegistry::release`] ends the registration.
#[must_use]
#[derive(Debug, PartialEq, Eq, Structural)]
pub struct ServerRegistration {
    pub server_id: ServerId,
    pub generation: u64,
}

pub struct ServerRegistry<T> {
    servers: Vec<StoredServerSlot<T>>,
    next_generation: u64,
}

impl<T> ServerRegistry<T> {
    /// Registered server ids, in registration order.
    pub closed spec fn ids(&self) -> Seq<ServerId> {
        self.servers@.map_values(|s: StoredServerSlot<T>| s.slot.server_id)
    }

    /// Generations of the registered servers, in the same order.
    pub closed spec fn generations(&self) -> Seq<u64> {
        self.servers@.map_values(|s: StoredServerSlot<T>| s.generation)
    }

    /// Handles of the registered servers, in the same order.
    pub closed spec fn handles(&self) -> Seq<T> {
        self.servers@.map_values(|s: StoredServerSlot<T>| s.slot.tx)
    }

    /// The generation the next registration will get.
    pub closed spec fn next_gen(&self) -> u64 {
        self.next_generation
    }

    /// Server ids are unique; every generation was handed out before.
    pub closed spec fn wf(&self) -> bool {
        &&& forall|i: int, j: int|
            0 <= i < self.servers@.len() && 0 <= j < self.servers@.len() && i != j
                ==> self.servers@[i].slot.server_id != self.servers@[j].slot.server_id
        &&& forall|i: int|
            0 <= i < self.servers@.len() ==> self.servers@[i].generation < self.next_generation
    }

    pub open spec fn index_of(&self, id: ServerId) -> Option<int> {
        if exists|i: int| 0 <= i < self.ids().len() && self.ids()[i] == id {
            Some(choose|i: int| 0 <= i < self.ids().len() && self.ids()[i] == id)
        } else {
            None
        }
    }

    /// Whether unregistering `h` removes the current entry for its server.
    pub open spec fn removes(&self, h: ServerRegistration) -> bool {
        self.index_of(h.server_id) matches Some(i) && self.generations()[i] == h.generation
    }

    pub fn new() -> (r: Self)
        ensures
            r.wf(),
            r.ids() == Seq::<ServerId>::empty(),
            r.next_gen() == 0,
    {
        let r = ServerRegistry { servers: Vec::new(), next_generation: 0 };
        assert(r.ids() =~= Seq::<ServerId>::empty());
        r
    }

    fn position(&self, id: ServerId) -> (r: Option<usize>)
        ensures
            r is None ==> forall|i: int| 0 <= i < self.ids().len() ==> self.ids()[i] != id,
            r is Some ==> r->0 < self.ids().len() && self.ids()[r->0 as int] == id,
    {
        let mut i: usize = 0;
        while i < self.servers.len()
            invariant
                i <= self.servers@.len(),
                forall|k: int| 0 <= k < i ==> self.ids()[k] != id,
            decreases self.servers@.len() - i,
        {
            if self.servers[i].slot.server_id == id {
                return Some(i);
            }
            i = i + 1;
        }
        None
    }

    proof fn lemma_index_unique(&self, id: ServerId, k: int)
        requires
            self.wf(),
            0 <= k < self.ids().len(),
            self.ids()[k] == id,
        ensures
            self.index_of(id) == Some(k),
    {
        let j = choose|i: int| 0 <= i < self.ids().len() && self.ids()[i] == id;
        if j != k {
            assert(self.servers@[j].slot.server_id == self.servers@[k].slot.server_id);
        }
    }

    /// Registers a server; a second registration of the same id is refused.
    pub fn register(&mut self, slot: ServerSlot<T>) -> (r: RelayResult<ServerRegistration>)
        requires
            old(self).wf(),
            old(self).next_gen() < u64::MAX,
        ensures
            final(self).wf(),
            old(self).ids().contains(slot.server_id) ==> r == Err::<ServerRegistration, RelayError>(
                RelayError::Protocol("duplicate server registration"),
            ) && final(self).ids() == old(self).ids() && final(self).next_gen() == old(self).next_gen() && final(self).generations() == old(self).generations()
                && final(self).handles() == old(self).handles(),
            !old(self).ids().contains(slot.server_id) ==> r == Ok::<ServerRegistration, RelayError>(
                ServerRegistration { server_id: slot.server_id, generation: old(self).next_gen() },
            ) && final(self).ids() == old(self).ids().push(slot.server_id) && final(self).generations() == old(self).generations().push(old(self).next_gen()) && final(self).handles() == old(self).handles().push(slot.tx) && final(self).next_gen() == old(self).next_gen() + 1,
    {
        let server_id = slot.server_id;
        match self.position(server_id) {
            Some(i) => {
                assert(old(self).ids().contains(server_id));
                Err(RelayError::Protocol("duplicate server registration"))
            },
            None => {
                let generation = self.next_generation;
                let ghost prev = self.servers@;
                let ghost tx = slot.tx;
                self.servers.push(StoredServerSlot { slot, generation });
                self.next_generation = generation + 1;
                proof {
                    assert(!old(self).ids().contains(server_id)) by {
                        if old(self).ids().contains(server_id) {
                            let k = choose|k: int| 0 <= k < old(self).ids().len() && old(self).ids()[k] == server_id;
                        }
                    }
                    assert(self.ids() =~= old(self).ids().push(server_id));
                    assert(self.generations() =~= old(self).generations().push(generation));
                    assert(self.handles() =~= old(self).handles().push(tx));
                    assert forall|i: int, j: int|
                        0 <= i < self.servers@.len() && 0 <= j < self.servers@.len() && i != j
                        implies self.servers@[i].slot.server_id != self.servers@[j].slot.server_id by {
                        if i < prev.len() && j < prev.len() {
                            assert(prev[i] == self.servers@[i] && prev[j] == self.servers@[j]);
                        } else if i < prev.len() {
                            assert(self.ids()[i] == old(self).ids()[i]);
                        } else {
                            assert(self.ids()[j] == old(self).ids()[j]);
                        }
                    }
                }
                Ok(ServerRegistration { server_id, generation })
            },
        }
    }

    /// The handle of a registered server.
    pub fn get(&self, server_id: &ServerId) -> (r: Option<&T>)
        requires
            self.wf(),
        ensures
            r is Some <==> self.ids().contains(*server_id),
            r is Some ==> (self.index_of(*server_id) matches Some(i) && *r->0 == self.handles()[i]),
    {
        match self.position(*server_id) {
            Some(i) => {
                proof {
                    self.lemma_index_unique(*server_id, i as int);
                }
                Some(&self.servers[i].slot.tx)
            },
            None => {
                assert(!self.ids().contains(*server_id));
                None
            },
        }
    }

    /// Registered server ids, in registration order.
    pub fn list_ids(&self) -> (r: Vec<ServerId>)
        ensures
            r@ == self.ids(),
    {
        let mut out: Vec<ServerId> = Vec::new();
        let mut i: usize = 0;
        while i < self.servers.len()
            invariant
                i <= self.servers@.len(),
                out@ == self.ids().take(i as int),
            decreases self.servers@.len() - i,
        {
            out.push(self.servers[i].slot.server_id);
            assert(out@ =~= self.ids().take(i + 1));
            i = i + 1;
        }
        assert(out@ =~= self.ids());
        out
    }

    /// Removes the server's entry if, and only if, it is still the one
    /// `registration` created.
    pub fn unregister(&mut self, registration: &ServerRegistration) -> (r: bool)
        requires
            old(self).wf(),
        ensures
            final(self).wf(),
            r == old(self).removes(*registration),
            final(self).next_gen() == old(self).next_gen(),
            !r ==> final(self).ids() == old(self).ids() && final(self).generations() == old(self).generations()
                && final(self).handles() == old(self).handles(),
            r ==> (old(self).index_of(registration.server_id) matches Some(i) && final(self).ids()
                == old(self).ids().remove(i) && final(self).generations() == old(self).generations().remove(i)
                && final(self).handles() == old(self).handles().remove(i)),
    {
        match self.position(registration.server_id) {
            Some(i) => {
                proof {
                    self.lemma_index_unique(registration.server_id, i as int);
                }
                if self.servers[i].generation == registration.generation {
                    let ghost prev = self.servers@;
                    let _ = self.servers.remove(i);
                    proof {
                        assert(self.ids() =~= old(self).ids().remove(i as int));
                        assert(self.generations() =~= old(self).generations().remove(i as int));
                        assert(self.handles() =~= old(self).handles().remove(i as int));
                        assert forall|a: int, b: int|
                            0 <= a < self.servers@.len() && 0 <= b < self.servers@.len() && a != b
                            implies self.servers@[a].slot.server_id != self.servers@[b].slot.server_id by {
                            let a2 = if a < i { a } else { a + 1 };
                            let b2 = if b < i { b } else { b + 1 };
                            assert(self.servers@[a] == prev[a2]);
                            assert(self.servers@[b] == prev[b2]);
                        }
                        assert forall|a: int| 0 <= a < self.servers@.len() implies self.servers@[a].generation
                            < self.next_generation by {
                            let a2 = if a < i { a } else { a + 1 };
                            assert(self.servers@[a] == prev[a2]);
                        }
                    }
                    true
                } else {
                    false
                }
            },
            None => {
                proof {
                    if old(self).index_of(registration.server_id) is Some {
                        let k = choose|k: int| 0 <= k < old(self).ids().len() && old(self).ids()[k] == registration.server_id;
                    }
                }
                false
            },
        }
    }

    /// Gives the registration back, ending it: the server's entry is removed
    /// if, and only if, it is still the one `registration` created. The
    /// handle is consumed, so a registration ends at most once.
    pub fn release(&mut self, registration: ServerRegistration) -> (r: bool)
        requires
            old(self).wf(),
        ensures
            final(self).wf(),
            r == old(self).removes(registration),
            final(self).next_gen() == old(self).next_gen(),
            !r ==> final(self).ids() == old(self).ids() && final(self).generations() == old(self).generations()
                && final(self).handles() == old(self).handles(),
            r ==> (old(self).index_of(registration.server_id) matches Some(i) && final(self).ids()
                == old(self).ids().remove(i) && final(self).generations() == old(self).generations().remove(i)
                && final(self).handles() == old(self).handles().remove(i)),
            r ==> !final(self).ids().contains(registration.server_id),
    {
        let r = self.unregister(&registration);
        proof {
            if r {
                let i = old(self).index_of(registration.server_id)->0;
                assert forall|k: int| 0 <= k < self.ids().len() implies self.ids()[k] != registration.server_id by {
                    let k2 = if k < i { k } else { k + 1 };
                    assert(self.ids()[k] == old(self).ids()[k2]);
                    if old(self).ids()[k2] == registration.server_id {
                        old(self).lemma_index_unique(registration.server_id, k2);
                    }
                }
            }
        }
        r
    }
}

/// Law: a registration handle from before the server's current entry was
/// created (an older generation) never removes that entry.
pub proof fn lemma_stale_registration_keeps_replacement<T>(
    registry: ServerRegistry<T>,
    stale: ServerRegistration,
    current: ServerRegistration,
)
    requires
        registry.wf(),
        registry.removes(current),
        stale.server_id == current.server_id,
        stale.generation < current.generation,
    ensures
        !registry.removes(stale),
{
}

/// Law: registering hands out strictly increasing generations, so a handle
/// obtained earlier is always older than one obtained later.
pub proof fn lemma_generations_increase<T>(before: ServerRegistry<T>, after: ServerRegistry<T>, h: ServerRegistration)
    requires
        before.wf(),
        after.next_gen() == before.next_gen() + 1,
        h.generation == before.next_gen(),
        forall|i: int| 0 <= i < before.generations().len() ==> before.generations()[i] < before.next_gen(),
    ensures
        forall|i: int| 0 <= i < before.generations().len() ==> before.generations()[i] < h.generation,
        h.generation < after.next_gen(),
{
}

} // verus!
