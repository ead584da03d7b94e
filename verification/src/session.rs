//! The daemon's live terminals: at most `max_terminals` at once, each under
//! a unique id, with the time it was created. The terminal handles are
//! opaque to this table (`T`).

use vstd::prelude::*;
use crate::daemon_error::DaemonError;
use crate::proto::TerminalId;
use crate::text::{dec_digits, hyphenated, push_decimal, uuid_text};

verus! {

pub struct SessionEntry<T> {
    pub id: TerminalId,
    pub terminal: T,
    pub created_at_unix_ms: u64,
}

pub struct SessionManager<T> {
    entries: Vec<SessionEntry<T>>,
    max_terminals: usize,
}

/// The text of the error when no more terminals may be created.
pub open spec fn limit_message(max: usize) -> Seq<char> {
    "terminal limit reached ("@ + dec_digits(max as nat) + ")"@
}

/// The text of the error for an unknown terminal.
pub open spec fn unknown_terminal_message(id: TerminalId) -> Seq<char> {
    "unknown terminal TerminalId("@ + hyphenated(id.0) + ")"@
}

impl<T> SessionManager<T> {
    /// Ids of the live terminals, in creation order.
    pub closed spec fn ids(&self) -> Seq<TerminalId> {
        self.entries@.map_values(|e: SessionEntry<T>| e.id)
    }

    /// Creation time of each live terminal, in the same order.
    pub closed spec fn created(&self) -> Seq<u64> {
        self.entries@.map_values(|e: SessionEntry<T>| e.created_at_unix_ms)
    }

    /// The terminal handles, in the same order as [`SessionManager::ids`].
    pub closed spec fn terminals(&self) -> Seq<T> {
        self.entries@.map_values(|e: SessionEntry<T>| e.terminal)
    }

    /// `t` is the terminal stored under `id`.
    pub open spec fn stores(&self, id: TerminalId, t: T) -> bool {
        exists|i: int| 0 <= i < self.ids().len() && self.ids()[i] == id && self.terminals()[i] == t
    }

    pub closed spec fn max(&self) -> usize {
        self.max_terminals
    }

    /// Ids are unique.
    pub closed spec fn wf(&self) -> bool {
        self.ids().no_duplicates()
    }

    /// An empty table for at most `max_terminals` terminals.
    pub fn new(max_terminals: usize) -> (r: Self)
        ensures
            r.wf(),
            r.ids() == Seq::<TerminalId>::empty(),
            r.max() == max_terminals,
    {
        let r = SessionManager { entries: Vec::new(), max_terminals };
        assert(r.ids() =~= Seq::<TerminalId>::empty());
        r
    }

    pub fn count(&self) -> (r: usize)
        ensures
            r == self.ids().len(),
    {
        self.entries.len()
    }

    /// Whether one more terminal may be created.
    pub fn check_capacity(&self) -> (r: Result<(), DaemonError>)
        ensures
            self.ids().len() < self.max() ==> r is Ok,
            self.ids().len() >= self.max() ==> r is Err && r->Err_0 is Internal && r->Err_0->Internal_0@
                == limit_message(self.max()),
    {
        if self.entries.len() >= self.max_terminals {
            let mut m = String::from_str("terminal limit reached (");
            push_decimal(&mut m, self.max_terminals as u64);
            m.append(")");
            return Err(DaemonError::Internal(m));
        }
        Ok(())
    }

    fn position(&self, id: &TerminalId) -> (r: Option<usize>)
        ensures
            r is None ==> !self.ids().contains(*id),
            r is Some ==> r->0 < self.ids().len() && self.ids()[r->0 as int] == *id,
    {
        let mut i: usize = 0;
        while i < self.entries.len()
            invariant
                i <= self.entries@.len(),
                forall|k: int| 0 <= k < i ==> self.ids()[k] != *id,
            decreases self.entries@.len() - i,
        {
            if self.entries[i].id == *id {
                return Some(i);
            }
            i = i + 1;
        }
        None
    }

    /// Registers a terminal created at `created_at_unix_ms`, replacing one
    /// with the same id.
    pub fn insert(&mut self, id: TerminalId, terminal: T, created_at_unix_ms: u64)
        requires
            old(self).wf(),
        ensures
            final(self).wf(),
            final(self).max() == old(self).max(),
            final(self).ids().to_set() == old(self).ids().to_set().insert(id),
            final(self).ids().contains(id),
            final(self).stores(id, terminal),
    {
        let _ = self.remove(&id);
        let ghost mid = self.ids();
        let ghost t = terminal;
        self.entries.push(SessionEntry { id, terminal, created_at_unix_ms });
        proof {
            assert(self.ids() =~= mid.push(id));
            assert(self.ids()[mid.len() as int] == id);
            assert(self.terminals()[mid.len() as int] == t);
            assert(self.ids().no_duplicates()) by {
                assert forall|a: int, b: int| 0 <= a < self.ids().len() && 0 <= b < self.ids().len() && a != b
                    implies self.ids()[a] != self.ids()[b] by {
                    if a < mid.len() && b < mid.len() {
                        assert(self.ids()[a] == mid[a] && self.ids()[b] == mid[b]);
                    } else if a < mid.len() {
                        assert(self.ids()[a] == mid[a]);
                        assert(mid.contains(mid[a]));
                    } else {
                        assert(self.ids()[b] == mid[b]);
                        assert(mid.contains(mid[b]));
                    }
                }
            }
            assert forall|x: TerminalId| self.ids().to_set().contains(x) == old(self).ids().to_set().insert(id).contains(x) by {
                assert(self.ids().to_set().contains(x) == self.ids().contains(x));
                assert(old(self).ids().to_set().contains(x) == old(self).ids().contains(x));
                assert(mid.to_set().contains(x) == mid.contains(x));
                if self.ids().contains(x) && x != id {
                    let k = choose|k: int| 0 <= k < self.ids().len() && self.ids()[k] == x;
                    assert(k < mid.len());
                    assert(mid[k] == x);
                }
                if old(self).ids().contains(x) && x != id {
                    assert(mid.to_set().contains(x));
                    let k = choose|k: int| 0 <= k < mid.len() && mid[k] == x;
                    assert(self.ids()[k] == x);
                }
            }
            assert(self.ids().to_set() =~= old(self).ids().to_set().insert(id));
        }
    }

    /// The terminal with id `id`, if live.
    pub fn attach(&self, id: &TerminalId) -> (r: Option<&T>)
        ensures
            r is Some <==> self.ids().contains(*id),
            r is Some ==> self.stores(*id, *r->0),
    {
        match self.position(id) {
            Some(i) => {
                assert(self.terminals()[i as int] == self.entries@[i as int].terminal);
                Some(&self.entries[i].terminal)
            },
            None => None,
        }
    }

    /// The terminal to kill, or the unknown-terminal error.
    pub fn kill_target(&self, id: &TerminalId) -> (r: Result<&T, DaemonError>)
        ensures
            r is Ok <==> self.ids().contains(*id),
            r is Err ==> r->Err_0 is Internal && r->Err_0->Internal_0@ == unknown_terminal_message(*id),
            r is Ok ==> self.stores(*id, *r->Ok_0),
    {
        match self.position(id) {
            Some(i) => {
                assert(self.terminals()[i as int] == self.entries@[i as int].terminal);
                Ok(&self.entries[i].terminal)
            },
            None => {
                let m = String::from_str("unknown terminal TerminalId(");
                let t = uuid_text(id.0);
                let m = m.concat(t.as_str());
                Err(DaemonError::Internal(m.concat(")")))
            },
        }
    }

    /// Drops the terminal with id `id` (the reaper does this once it has
    /// exited); returns it.
    pub fn remove(&mut self, id: &TerminalId) -> (r: Option<T>)
        requires
            old(self).wf(),
        ensures
            final(self).wf(),
            final(self).max() == old(self).max(),
            r is Some <==> old(self).ids().contains(*id),
            r is Some ==> old(self).stores(*id, r->0),
            !final(self).ids().contains(*id),
            final(self).ids().to_set() == old(self).ids().to_set().remove(*id),
    {
        match self.position(id) {
            Some(i) => {
                let ghost prev = self.ids();
                assert(old(self).terminals()[i as int] == old(self).entries@[i as int].terminal);
                let removed = self.entries.remove(i);
                proof {
                    assert(self.ids() =~= prev.remove(i as int));
                    assert(self.ids().no_duplicates()) by {
                        assert forall|a: int, b: int| 0 <= a < self.ids().len() && 0 <= b < self.ids().len() && a != b
                            implies self.ids()[a] != self.ids()[b] by {
                            let a2 = if a < i { a } else { a + 1 };
                            let b2 = if b < i { b } else { b + 1 };
                            assert(self.ids()[a] == prev[a2] && self.ids()[b] == prev[b2]);
                        }
                    }
                    assert(!self.ids().contains(*id)) by {
                        if self.ids().contains(*id) {
                            let k = choose|k: int| 0 <= k < self.ids().len() && self.ids()[k] == *id;
                            let k2 = if k < i { k } else { k + 1 };
                            assert(prev[k2] == prev[i as int]);
                        }
                    }
                    assert forall|x: TerminalId| self.ids().to_set().contains(x) == prev.to_set().remove(*id).contains(x) by {
                        assert(self.ids().to_set().contains(x) == self.ids().contains(x));
                        assert(prev.to_set().contains(x) == prev.contains(x));
                        if self.ids().contains(x) {
                            let k = choose|k: int| 0 <= k < self.ids().len() && self.ids()[k] == x;
                            let k2 = if k < i { k } else { k + 1 };
                            assert(prev[k2] == x);
                        }
                        if prev.contains(x) && x != *id {
                            let k = choose|k: int| 0 <= k < prev.len() && prev[k] == x;
                            assert(k != i);
                            let k2 = if k < i { k } else { k - 1 };
                            assert(self.ids()[k2] == x);
                        }
                    }
                    assert(self.ids().to_set() =~= prev.to_set().remove(*id));
                }
                Some(removed.terminal)
            },
            None => {
                assert(old(self).ids().to_set() =~= old(self).ids().to_set().remove(*id)) by {
                    assert(old(self).ids().to_set().contains(*id) == old(self).ids().contains(*id));
                }
                None
            },
        }
    }

    /// Ids and creation times of the live terminals, in creation order.
    pub fn list(&self) -> (r: Vec<(TerminalId, u64)>)
        ensures
            r@.len() == self.ids().len(),
            forall|i: int| 0 <= i < r@.len() ==> r@[i].0 == self.ids()[i] && r@[i].1 == self.created()[i],
    {
        let mut out: Vec<(TerminalId, u64)> = Vec::new();
        let mut i: usize = 0;
        while i < self.entries.len()
            invariant
                i <= self.entries@.len(),
                out@.len() == i,
                forall|k: int| 0 <= k < i ==> out@[k].0 == self.ids()[k] && out@[k].1 == self.created()[k],
            decreases self.entries@.len() - i,
        {
            out.push((self.entries[i].id, self.entries[i].created_at_unix_ms));
            i = i + 1;
        }
        out
    }
}

} // verus!
