//! The paired-client registry: records indexed by client id and by public
//! key (both unique), and the set of revoked clients. Every change is made on
//! a copy so that the caller can persist it first and keep the old state when
//! persisting fails.

use vstd::prelude::*;
use crate::daemon_error::DaemonError;
use crate::proto::ClientId;
use crate::text::{hyphenated, uuid_text};

verus! {

broadcast use vstd::seq_lib::group_to_multiset_ensures;

#[derive(Debug, Clone, PartialEq, Eq)]
pub struct ClientRecord {
    pub client_id: ClientId,
    pub public_key: [u8; 32],
    pub paired_at: u64,
}

/// Listing order: by pairing time, then by client id.
pub open spec fn record_le(a: ClientRecord, b: ClientRecord) -> bool {
    a.paired_at < b.paired_at || (a.paired_at == b.paired_at && a.client_id.0 <= b.client_id.0)
}

pub open spec fn records_sorted(s: Seq<ClientRecord>) -> bool {
    forall|i: int, j: int| 0 <= i < j < s.len() ==> record_le(s[i], s[j])
}

pub open spec fn ids_sorted(s: Seq<ClientId>) -> bool {
    forall|i: int, j: int| 0 <= i < j < s.len() ==> s[i].0 <= s[j].0
}

/// No two records share a client id or a public key.
pub open spec fn records_unique(s: Seq<ClientRecord>) -> bool {
    &&& forall|i: int, j: int|
        0 <= i < s.len() && 0 <= j < s.len() && i != j ==> s[i].client_id != s[j].client_id
    &&& forall|i: int, j: int|
        0 <= i < s.len() && 0 <= j < s.len() && i != j ==> s[i].public_key@ != s[j].public_key@
}

pub open spec fn ids_unique(s: Seq<ClientId>) -> bool {
    forall|i: int, j: int| 0 <= i < s.len() && 0 <= j < s.len() && i != j ==> s[i] != s[j]
}

pub open spec fn has_id(s: Seq<ClientRecord>, id: ClientId) -> bool {
    exists|i: int| 0 <= i < s.len() && s[i].client_id == id
}

pub open spec fn has_key(s: Seq<ClientRecord>, key: Seq<u8>) -> bool {
    exists|i: int| 0 <= i < s.len() && s[i].public_key@ == key
}

/// Equality of two public keys.
pub fn keys_equal(a: &[u8; 32], b: &[u8; 32]) -> (r: bool)
    ensures
        r == (a@ == b@),
{
    let mut i: usize = 0;
    while i < 32
        invariant
            i <= 32,
            a@.len() == 32,
            b@.len() == 32,
            forall|k: int| 0 <= k < i ==> a@[k] == b@[k],
        decreases 32 - i,
    {
        if a[i] != b[i] {
            return false;
        }
        i = i + 1;
    }
    assert(a@ =~= b@);
    true
}

/// The in-memory state of the client database.
pub struct ClientDb {
    records: Vec<ClientRecord>,
    revoked: Vec<ClientId>,
}

/// The set of revoked clients, as published to live sessions.
#[derive(Debug, Clone, PartialEq, Eq)]
pub struct RevocationSet {
    revoked: Vec<ClientId>,
}

impl RevocationSet {
    pub closed spec fn ids(&self) -> Seq<ClientId> {
        self.revoked@
    }

    pub fn contains(&self, client_id: &ClientId) -> (r: bool)
        ensures
            r == self.ids().contains(*client_id),
    {
        contains_id(&self.revoked, client_id)
    }

    pub fn len(&self) -> (r: usize)
        ensures
            r == self.ids().len(),
    {
        self.revoked.len()
    }

    pub fn is_empty(&self) -> (r: bool)
        ensures
            r == (self.ids().len() == 0),
    {
        self.revoked.len() == 0
    }
}

fn contains_id(v: &Vec<ClientId>, id: &ClientId) -> (r: bool)
    ensures
        r == v@.contains(*id),
{
    let mut i: usize = 0;
    while i < v.len()
        invariant
            i <= v@.len(),
            forall|k: int| 0 <= k < i ==> v@[k] != *id,
        decreases v@.len() - i,
    {
        if v[i] == *id {
            assert(v@[i as int] == *id);
            return true;
        }
        i = i + 1;
    }
    false
}

fn copy_ids(v: &Vec<ClientId>) -> (r: Vec<ClientId>)
    ensures
        r@ == v@,
{
    let mut out: Vec<ClientId> = Vec::new();
    let mut i: usize = 0;
    while i < v.len()
        invariant
            i <= v@.len(),
            out@ == v@.take(i as int),
        decreases v@.len() - i,
    {
        out.push(v[i]);
        assert(out@ =~= v@.take(i + 1));
        i = i + 1;
    }
    assert(v@.take(v@.len() as int) =~= v@);
    out
}

fn copy_records(v: &Vec<ClientRecord>) -> (r: Vec<ClientRecord>)
    ensures
        r@ == v@,
{
    let mut out: Vec<ClientRecord> = Vec::new();
    let mut i: usize = 0;
    while i < v.len()
        invariant
            i <= v@.len(),
            out@ == v@.take(i as int),
        decreases v@.len() - i,
    {
        let r = &v[i];
        out.push(ClientRecord { client_id: r.client_id, public_key: r.public_key, paired_at: r.paired_at });
        assert(out@ =~= v@.take(i + 1));
        i = i + 1;
    }
    assert(v@.take(v@.len() as int) =~= v@);
    out
}

fn record_before(a: &ClientRecord, b: &ClientRecord) -> (r: bool)
    ensures
        r == !record_le(*b, *a),
{
    a.paired_at < b.paired_at || (a.paired_at == b.paired_at && a.client_id.0 < b.client_id.0)
}

/// The records ordered by pairing time, then client id.
pub fn sort_records(v: &Vec<ClientRecord>) -> (r: Vec<ClientRecord>)
    ensures
        records_sorted(r@),
        r@.to_multiset() == v@.to_multiset(),
        r@.len() == v@.len(),
{
    let mut out: Vec<ClientRecord> = Vec::new();
    let mut i: usize = 0;
    while i < v.len()
        invariant
            i <= v@.len(),
            records_sorted(out@),
            out@.to_multiset() == v@.take(i as int).to_multiset(),
            out@.len() == i,
        decreases v@.len() - i,
    {
        let x = &v[i];
        let item = ClientRecord { client_id: x.client_id, public_key: x.public_key, paired_at: x.paired_at };
        assert(item == v@[i as int]);
        let mut p: usize = 0;
        while p < out.len() && !record_before(&item, &out[p])
            invariant
                p <= out@.len(),
                forall|k: int| 0 <= k < p ==> record_le(out@[k], item),
            decreases out@.len() - p,
        {
            p = p + 1;
        }
        let ghost before = out@;
        out.insert(p, item);
        proof {
            assert(v@.take(i + 1) =~= v@.take(i as int).push(item));
            assert forall|a: int, b: int| 0 <= a < b < out@.len() implies record_le(
                out@[a],
                out@[b],
            ) by {
                if b < p {
                    assert(out@[a] == before[a] && out@[b] == before[b]);
                } else if b == p {
                    assert(out@[a] == before[a]);
                } else if a == p {
                    assert(out@[b] == before[b - 1]);
                    assert(record_le(item, before[p as int]));
                    if b - 1 > p {
                        assert(record_le(before[p as int], before[b - 1]));
                    }
                } else if a < p {
                    assert(out@[a] == before[a] && out@[b] == before[b - 1]);
                } else {
                    assert(out@[a] == before[a - 1] && out@[b] == before[b - 1]);
                }
            }
        }
        i = i + 1;
    }
    assert(v@.take(v@.len() as int) =~= v@);
    out
}

/// Client ids in increasing order.
pub fn sort_ids(v: &Vec<ClientId>) -> (r: Vec<ClientId>)
    ensures
        ids_sorted(r@),
        r@.to_multiset() == v@.to_multiset(),
        r@.len() == v@.len(),
{
    let mut out: Vec<ClientId> = Vec::new();
    let mut i: usize = 0;
    while i < v.len()
        invariant
            i <= v@.len(),
            ids_sorted(out@),
            out@.to_multiset() == v@.take(i as int).to_multiset(),
            out@.len() == i,
        decreases v@.len() - i,
    {
        let item = v[i];
        let mut p: usize = 0;
        while p < out.len() && out[p].0 <= item.0
            invariant
                p <= out@.len(),
                forall|k: int| 0 <= k < p ==> out@[k].0 <= item.0,
            decreases out@.len() - p,
        {
            p = p + 1;
        }
        let ghost before = out@;
        out.insert(p, item);
        proof {
            assert(v@.take(i + 1) =~= v@.take(i as int).push(item));
            assert forall|a: int, b: int| 0 <= a < b < out@.len() implies out@[a].0 <= out@[b].0 by {
                if b < p {
                    assert(out@[a] == before[a] && out@[b] == before[b]);
                } else if b == p {
                    assert(out@[a] == before[a]);
                } else if a == p {
                    assert(out@[b] == before[b - 1]);
                    if b - 1 > p {
                        assert(before[p as int].0 <= before[b - 1].0);
                    }
                } else if a < p {
                    assert(out@[a] == before[a] && out@[b] == before[b - 1]);
                } else {
                    assert(out@[a] == before[a - 1] && out@[b] == before[b - 1]);
                }
            }
        }
        i = i + 1;
    }
    assert(v@.take(v@.len() as int) =~= v@);
    out
}

proof fn lemma_push_to_set<A>(s: Seq<A>, a: A)
    ensures
        s.push(a).to_set() == s.to_set().insert(a),
{
    let t = s.push(a);
    assert forall|x: A| t.to_set().contains(x) == s.to_set().insert(a).contains(x) by {
        if t.contains(x) {
            let j = choose|j: int| 0 <= j < t.len() && t[j] == x;
            if j < s.len() {
                assert(s[j] == x);
            }
        }
        if s.contains(x) {
            let j = choose|j: int| 0 <= j < s.len() && s[j] == x;
            assert(t[j] == x);
        }
        if x == a {
            assert(t[s.len() as int] == a);
        }
    }
    assert(t.to_set() =~= s.to_set().insert(a));
}

/// Whether `s[i]` repeats the client id or the public key of an earlier record.
pub open spec fn clashes(s: Seq<ClientRecord>, i: int) -> bool {
    has_id(s.take(i), s[i].client_id) || has_key(s.take(i), s[i].public_key@)
}

/// The message refusing the records `s` at their first clash `s[i]`.
pub open spec fn refusal_message(s: Seq<ClientRecord>, i: int) -> Seq<char> {
    if has_id(s.take(i), s[i].client_id) {
        duplicate_id_message(s[i].client_id)
    } else {
        "duplicate public_key"@
    }
}

/// The message of a duplicate-client-id refusal.
pub open spec fn duplicate_id_message(id: ClientId) -> Seq<char> {
    "duplicate client_id "@ + hyphenated(id.0)
}

impl ClientDb {
    pub closed spec fn records(&self) -> Seq<ClientRecord> {
        self.records@
    }

    pub closed spec fn revoked_ids(&self) -> Seq<ClientId> {
        self.revoked@
    }

    pub closed spec fn wf(&self) -> bool {
        records_unique(self.records@) && ids_unique(self.revoked@)
    }

    /// Two records of a well-formed database with the same public key are the
    /// same record.
    pub proof fn lemma_key_unique(&self, a: ClientRecord, b: ClientRecord)
        requires
            self.wf(),
            self.records().contains(a),
            self.records().contains(b),
            a.public_key@ == b.public_key@,
        ensures
            a == b,
    {
        let i = choose|i: int| 0 <= i < self.records@.len() && self.records@[i] == a;
        let j = choose|j: int| 0 <= j < self.records@.len() && self.records@[j] == b;
        if i != j {
            assert(self.records@[i].public_key@ != self.records@[j].public_key@);
        }
    }

    /// No clients and no revocations.
    pub fn empty() -> (r: Self)
        ensures
            r.wf(),
            r.records() == Seq::<ClientRecord>::empty(),
            r.revoked_ids() == Seq::<ClientId>::empty(),
    {
        ClientDb { records: Vec::new(), revoked: Vec::new() }
    }

    /// Why `record` cannot be added: a known client id or public key.
    pub fn check_new_record(&self, record: &ClientRecord) -> (r: Result<(), DaemonError>)
        ensures
            r is Ok <==> !has_id(self.records(), record.client_id) && !has_key(
                self.records(),
                record.public_key@,
            ),
            has_id(self.records(), record.client_id) ==> (r matches Err(DaemonError::ClientDb(m))
                && m@ == duplicate_id_message(record.client_id)),
            !has_id(self.records(), record.client_id) && has_key(
                self.records(),
                record.public_key@,
            ) ==> (r matches Err(DaemonError::ClientDb(m)) && m@ == "duplicate public_key"@),
    {
        let mut i: usize = 0;
        while i < self.records.len()
            invariant
                i <= self.records@.len(),
                forall|k: int| 0 <= k < i ==> self.records@[k].client_id != record.client_id,
            decreases self.records@.len() - i,
        {
            if self.records[i].client_id == record.client_id {
                let id_text = uuid_text(record.client_id.0);
                let m = String::from_str("duplicate client_id ").concat(id_text.as_str());
                proof {
                    reveal_strlit("duplicate client_id ");
                }
                return Err(DaemonError::ClientDb(m));
            }
            i = i + 1;
        }
        let mut j: usize = 0;
        while j < self.records.len()
            invariant
                j <= self.records@.len(),
                forall|k: int| 0 <= k < j ==> self.records@[k].public_key@ != record.public_key@,
                !has_id(self.records@, record.client_id),
            decreases self.records@.len() - j,
        {
            if keys_equal(&self.records[j].public_key, &record.public_key) {
                proof {
                    reveal_strlit("duplicate public_key");
                }
                return Err(DaemonError::ClientDb(String::from_str("duplicate public_key")));
            }
            j = j + 1;
        }
        Ok(())
    }

    /// A copy of this state with `record` added, unless its client id or
    /// public key is already known.
    pub fn with_added(&self, record: ClientRecord) -> (r: Result<Self, DaemonError>)
        requires
            self.wf(),
        ensures
            r is Ok <==> !has_id(self.records(), record.client_id) && !has_key(
                self.records(),
                record.public_key@,
            ),
            r is Ok ==> r->Ok_0.wf() && r->Ok_0.records() == self.records().push(record)
                && r->Ok_0.revoked_ids() == self.revoked_ids(),
            has_id(self.records(), record.client_id) ==> (r matches Err(DaemonError::ClientDb(m))
                && m@ == duplicate_id_message(record.client_id)),
            !has_id(self.records(), record.client_id) && has_key(
                self.records(),
                record.public_key@,
            ) ==> (r matches Err(DaemonError::ClientDb(m)) && m@ == "duplicate public_key"@),
    {
        match self.check_new_record(&record) {
            Err(e) => Err(e),
            Ok(()) => {
                let mut records = copy_records(&self.records);
                let ghost old_records = records@;
                records.push(record);
                let next = ClientDb { records, revoked: copy_ids(&self.revoked) };
                proof {
                    let s = next.records@;
                    assert forall|i: int, j: int|
                        0 <= i < s.len() && 0 <= j < s.len() && i != j implies s[i].client_id
                        != s[j].client_id && s[i].public_key@ != s[j].public_key@ by {
                        if i == s.len() - 1 {
                            assert(old_records[j] == s[j]);
                            if s[j].client_id == record.client_id {
                                assert(has_id(self.records@, record.client_id));
                            }
                            if s[j].public_key@ == record.public_key@ {
                                assert(has_key(self.records@, record.public_key@));
                            }
                        } else if j == s.len() - 1 {
                            assert(old_records[i] == s[i]);
                            if s[i].client_id == record.client_id {
                                assert(has_id(self.records@, record.client_id));
                            }
                            if s[i].public_key@ == record.public_key@ {
                                assert(has_key(self.records@, record.public_key@));
                            }
                        } else {
                            assert(old_records[i] == s[i] && old_records[j] == s[j]);
                        }
                    }
                }
                Ok(next)
            },
        }
    }

    /// A copy of this state with `client_id` revoked, or `None` when it is
    /// revoked already.
    pub fn with_revoked(&self, client_id: ClientId) -> (r: Option<Self>)
        requires
            self.wf(),
        ensures
            r is None <==> self.revoked_ids().contains(client_id),
            r is Some ==> r->0.wf() && r->0.records() == self.records() && r->0.revoked_ids()
                == self.revoked_ids().push(client_id),
    {
        if contains_id(&self.revoked, &client_id) {
            return None;
        }
        let mut revoked = copy_ids(&self.revoked);
        let ghost old_ids = revoked@;
        revoked.push(client_id);
        let next = ClientDb { records: copy_records(&self.records), revoked };
        proof {
            let s = next.revoked@;
            assert forall|i: int, j: int| 0 <= i < s.len() && 0 <= j < s.len() && i != j implies s[i]
                != s[j] by {
                if i == s.len() - 1 {
                    assert(old_ids[j] == s[j]);
                    if s[j] == client_id {
                        assert(self.revoked@.contains(client_id));
                    }
                } else if j == s.len() - 1 {
                    assert(old_ids[i] == s[i]);
                    if s[i] == client_id {
                        assert(self.revoked@.contains(client_id));
                    }
                } else {
                    assert(old_ids[i] == s[i] && old_ids[j] == s[j]);
                }
            }
        }
        Some(next)
    }

    /// Builds the state from the persisted records and revocations; the
    /// records are added in order and the first duplicate is refused, with
    /// the message for its client id when that repeats, otherwise for its
    /// public key.
    pub fn from_files(clients: Vec<ClientRecord>, revoked: Vec<ClientId>) -> (r: Result<
        Self,
        DaemonError,
    >)
        ensures
            r is Ok <==> records_unique(clients@),
            r is Ok ==> r->Ok_0.wf() && r->Ok_0.records() == clients@
                && r->Ok_0.revoked_ids().to_set() == revoked@.to_set(),
            r is Err ==> exists|i: int|
                0 <= i < clients@.len() && #[trigger] clashes(clients@, i) && (forall|j: int|
                    0 <= j < i ==> !clashes(clients@, j)) && (r matches Err(DaemonError::ClientDb(m))
                    && m@ == refusal_message(clients@, i)),
    {
        let mut state = ClientDb::empty();
        let mut k: usize = 0;
        while k < revoked.len()
            invariant
                k <= revoked@.len(),
                state.wf(),
                state.records@ == Seq::<ClientRecord>::empty(),
                state.revoked@.to_set() == revoked@.take(k as int).to_set(),
            decreases revoked@.len() - k,
        {
            let id = revoked[k];
            assert(revoked@.take(k + 1) =~= revoked@.take(k as int).push(id));
            match state.with_revoked(id) {
                Some(next) => {
                    let ghost prev = state.revoked@;
                    state = next;
                    proof {
                        lemma_push_to_set(prev, id);
                        lemma_push_to_set(revoked@.take(k as int), id);
                    }
                },
                None => {
                    proof {
                        let t = revoked@.take(k as int);
                        let t1 = revoked@.take(k + 1);
                        assert(state.revoked@.to_set().contains(id));
                        assert(t.to_set().contains(id));
                        assert forall|x: ClientId| t1.to_set().contains(x) == t.to_set().contains(x) by {
                            if t1.contains(x) {
                                let j = choose|j: int| 0 <= j < t1.len() && t1[j] == x;
                                if j < t.len() {
                                    assert(t[j] == x);
                                }
                            }
                            if t.contains(x) {
                                let j = choose|j: int| 0 <= j < t.len() && t[j] == x;
                                assert(t1[j] == x);
                            }
                        }
                        assert(state.revoked@.to_set() =~= t1.to_set());
                    }
                },
            }
            k = k + 1;
        }
        assert(revoked@.take(revoked@.len() as int) =~= revoked@);
        let mut i: usize = 0;
        while i < clients.len()
            invariant
                i <= clients@.len(),
                state.wf(),
                state.records@ == clients@.take(i as int),
                state.revoked@.to_set() == revoked@.to_set(),
                forall|j: int| 0 <= j < i ==> !clashes(clients@, j),
            decreases clients@.len() - i,
        {
            let c = &clients[i];
            let item = ClientRecord { client_id: c.client_id, public_key: c.public_key, paired_at: c.paired_at };
            assert(item == clients@[i as int]);
            match state.with_added(item) {
                Ok(next) => {
                    state = next;
                    assert(state.records@ =~= clients@.take(i + 1));
                    assert(!clashes(clients@, i as int));
                },
                Err(e) => {
                    assert(clashes(clients@, i as int));
                    proof {
                        let s = clients@;
                        if has_id(clients@.take(i as int), item.client_id) {
                            let j = choose|j: int| 0 <= j < i && clients@.take(i as int)[j].client_id
                                == item.client_id;
                            assert(s[j].client_id == s[i as int].client_id);
                        } else {
                            let j = choose|j: int| 0 <= j < i && clients@.take(i as int)[j].public_key@
                                == item.public_key@;
                            assert(s[j].public_key@ == s[i as int].public_key@);
                        }
                    }
                    return Err(e);
                },
            }
            i = i + 1;
        }
        assert(clients@.take(clients@.len() as int) =~= clients@);
        Ok(state)
    }

    /// The record paired with `public_key`, if any.
    pub fn lookup_by_public(&self, public_key: &[u8; 32]) -> (r: Option<ClientRecord>)
        requires
            self.wf(),
        ensures
            r is Some <==> has_key(self.records(), public_key@),
            r is Some ==> r->0.public_key@ == public_key@ && self.records().contains(r->0),
    {
        let mut i: usize = 0;
        while i < self.records.len()
            invariant
                i <= self.records@.len(),
                forall|k: int| 0 <= k < i ==> self.records@[k].public_key@ != public_key@,
            decreases self.records@.len() - i,
        {
            if keys_equal(&self.records[i].public_key, public_key) {
                let c = &self.records[i];
                let found = ClientRecord { client_id: c.client_id, public_key: c.public_key, paired_at: c.paired_at };
                assert(found == self.records@[i as int]);
                return Some(found);
            }
            i = i + 1;
        }
        None
    }

    /// The record with client id `client_id`, if any.
    pub fn lookup_by_id(&self, client_id: &ClientId) -> (r: Option<ClientRecord>)
        requires
            self.wf(),
        ensures
            r is Some <==> has_id(self.records(), *client_id),
            r is Some ==> r->0.client_id == *client_id && self.records().contains(r->0),
    {
        let mut i: usize = 0;
        while i < self.records.len()
            invariant
                i <= self.records@.len(),
                forall|k: int| 0 <= k < i ==> self.records@[k].client_id != *client_id,
            decreases self.records@.len() - i,
        {
            if self.records[i].client_id == *client_id {
                let c = &self.records[i];
                let found = ClientRecord { client_id: c.client_id, public_key: c.public_key, paired_at: c.paired_at };
                assert(found == self.records@[i as int]);
                return Some(found);
            }
            i = i + 1;
        }
        None
    }

    /// Adds `record`, or returns the record already paired with its public key.
    pub fn add_or_lookup_by_public(&self, record: ClientRecord) -> (r: Result<(Option<Self>, ClientRecord), DaemonError>)
        requires
            self.wf(),
        ensures
            has_key(self.records(), record.public_key@) ==> r is Ok && r->Ok_0.0 is None
                && r->Ok_0.1.public_key@ == record.public_key@ && self.records().contains(r->Ok_0.1),
            !has_key(self.records(), record.public_key@) ==> (r is Ok <==> !has_id(
                self.records(),
                record.client_id,
            )),
            !has_key(self.records(), record.public_key@) && r is Ok ==> r->Ok_0.1 == record
                && r->Ok_0.0 is Some && r->Ok_0.0->0.wf() && r->Ok_0.0->0.records()
                == self.records().push(record) && r->Ok_0.0->0.revoked_ids() == self.revoked_ids(),
            !has_key(self.records(), record.public_key@) && has_id(self.records(), record.client_id) ==> (r matches Err(
                DaemonError::ClientDb(m),
            ) && m@ == duplicate_id_message(record.client_id)),
    {
        match self.lookup_by_public(&record.public_key) {
            Some(existing) => Ok((None, existing)),
            None => {
                let copy = ClientRecord { client_id: record.client_id, public_key: record.public_key, paired_at: record.paired_at };
                match self.with_added(record) {
                    Ok(next) => Ok((Some(next), copy)),
                    Err(e) => Err(e),
                }
            },
        }
    }

    pub fn is_revoked(&self, client_id: &ClientId) -> (r: bool)
        ensures
            r == self.revoked_ids().contains(*client_id),
    {
        contains_id(&self.revoked, client_id)
    }

    /// All records, by pairing time then client id.
    pub fn list(&self) -> (r: Vec<ClientRecord>)
        ensures
            records_sorted(r@),
            r@.to_multiset() == self.records().to_multiset(),
    {
        sort_records(&self.records)
    }

    /// The records as persisted: the listing order.
    pub fn clients_file(&self) -> (r: Vec<ClientRecord>)
        ensures
            records_sorted(r@),
            r@.to_multiset() == self.records().to_multiset(),
    {
        sort_records(&self.records)
    }

    /// The revoked ids as persisted: in increasing order.
    pub fn revoked_file(&self) -> (r: Vec<ClientId>)
        ensures
            ids_sorted(r@),
            r@.to_multiset() == self.revoked_ids().to_multiset(),
    {
        sort_ids(&self.revoked)
    }

    /// The revocations to publish to live sessions.
    pub fn revocations(&self) -> (r: RevocationSet)
        ensures
            r.ids() == self.revoked_ids(),
    {
        RevocationSet { revoked: copy_ids(&self.revoked) }
    }
}

/// Whether two id lists hold the same ids.
fn same_ids(a: &Vec<ClientId>, b: &Vec<ClientId>) -> (r: bool)
    ensures
        r == (a@.to_set() == b@.to_set()),
{
    let mut i: usize = 0;
    while i < a.len()
        invariant
            i <= a@.len(),
            forall|k: int| 0 <= k < i ==> b@.contains(#[trigger] a@[k]),
        decreases a@.len() - i,
    {
        if !contains_id(b, &a[i]) {
            proof {
                assert(a@.to_set().contains(a@[i as int]));
                assert(!b@.to_set().contains(a@[i as int]));
            }
            return false;
        }
        i = i + 1;
    }
    let mut j: usize = 0;
    while j < b.len()
        invariant
            j <= b@.len(),
            forall|k: int| 0 <= k < a@.len() ==> b@.contains(#[trigger] a@[k]),
            forall|k: int| 0 <= k < j ==> a@.contains(#[trigger] b@[k]),
        decreases b@.len() - j,
    {
        if !contains_id(a, &b[j]) {
            proof {
                assert(b@.to_set().contains(b@[j as int]));
                assert(!a@.to_set().contains(b@[j as int]));
            }
            return false;
        }
        j = j + 1;
    }
    proof {
        assert forall|x: ClientId| a@.to_set().contains(x) == b@.to_set().contains(x) by {
            if a@.contains(x) {
                let k = choose|k: int| 0 <= k < a@.len() && a@[k] == x;
                assert(b@.contains(a@[k]));
            }
            if b@.contains(x) {
                let k = choose|k: int| 0 <= k < b@.len() && b@[k] == x;
                assert(a@.contains(b@[k]));
            }
        }
        assert(a@.to_set() =~= b@.to_set());
    }
    true
}

/// What the reload loop does after reading the two files again.
#[derive(Debug, PartialEq, Eq)]
pub enum ReloadStep {
    /// Nothing changed, or the files could not be read: keep the state.
    Keep,
    /// Take the new state; tell live sessions when the revocations changed.
    Replace { revocations_changed: bool },
}

impl ClientDb {
    /// Decides a reload: when the files' texts are unchanged, or the new
    /// state could not be built from them, the state stays; otherwise it is
    /// replaced, and live sessions hear of it when the set of revoked ids
    /// changed.
    pub fn reload_step(&self, texts_changed: bool, next: &Option<ClientDb>) -> (r: ReloadStep)
        ensures
            !texts_changed || next is None ==> r == ReloadStep::Keep,
            texts_changed && next is Some ==> r == (ReloadStep::Replace {
                revocations_changed: self.revoked_ids().to_set() != next->0.revoked_ids().to_set(),
            }),
    {
        if !texts_changed {
            return ReloadStep::Keep;
        }
        match next {
            None => ReloadStep::Keep,
            Some(n) => ReloadStep::Replace { revocations_changed: !same_ids(&self.revoked, &n.revoked) },
        }
    }
}

/// Law: what the database writes is what it reads back. Any reordering of
/// its records (the clients file lists them sorted) and of its revoked ids
/// passes the duplicate checks of [`ClientDb::from_files`], which then
/// rebuilds exactly those records and the same revoked ids.
pub proof fn lemma_persist_then_reload(db: ClientDb, clients: Seq<ClientRecord>, revoked: Seq<ClientId>)
    requires
        db.wf(),
        clients.to_multiset() == db.records().to_multiset(),
        revoked.to_multiset() == db.revoked_ids().to_multiset(),
    ensures
        records_unique(clients),
        clients.to_set() == db.records().to_set(),
        revoked.to_set() == db.revoked_ids().to_set(),
{
    broadcast use vstd::seq_lib::to_multiset_contains;

    let s = db.records();
    assert(s.no_duplicates()) by {
        assert forall|i: int, j: int| 0 <= i < s.len() && 0 <= j < s.len() && i != j implies s[i] != s[j] by {
            assert(s[i].client_id != s[j].client_id);
        }
    }
    s.lemma_multiset_has_no_duplicates();
    assert forall|x: ClientRecord| clients.to_multiset().contains(x) implies clients.to_multiset().count(x) == 1 by {
        assert(s.to_multiset().contains(x));
    }
    clients.lemma_multiset_has_no_duplicates_conv();
    assert forall|x: ClientRecord| #[trigger] clients.contains(x) == s.contains(x) by {
        assert(clients.to_multiset().count(x) == s.to_multiset().count(x));
    }
    assert forall|i: int, j: int| 0 <= i < clients.len() && 0 <= j < clients.len() && i != j implies clients[i].client_id
        != clients[j].client_id && clients[i].public_key@ != clients[j].public_key@ by {
        assert(clients.contains(clients[i]));
        assert(clients.contains(clients[j]));
        let a = choose|a: int| 0 <= a < s.len() && s[a] == clients[i];
        let b = choose|b: int| 0 <= b < s.len() && s[b] == clients[j];
        assert(clients[i] != clients[j]);
    }
    assert(clients.to_set() =~= s.to_set());
    let v = db.revoked_ids();
    assert forall|x: ClientId| #[trigger] revoked.contains(x) == v.contains(x) by {
        assert(revoked.to_multiset().count(x) == v.to_multiset().count(x));
        assert(revoked.contains(x) <==> revoked.to_multiset().count(x) > 0);
        assert(v.contains(x) <==> v.to_multiset().count(x) > 0);
    }
    assert(revoked.to_set() =~= v.to_set());
}

/// Law: once a record has been added, it is the only record with its
/// public key and the only one with its client id, so `lookup_by_public`
/// and `lookup_by_id` on the new state return exactly that record.
pub proof fn lemma_added_record_is_found(db: ClientDb, record: ClientRecord, next: ClientDb)
    requires
        db.wf(),
        next.wf(),
        next.records() == db.records().push(record),
    ensures
        has_key(next.records(), record.public_key@),
        has_id(next.records(), record.client_id),
        forall|r: ClientRecord|
            next.records().contains(r) && r.public_key@ == record.public_key@ ==> r == record,
        forall|r: ClientRecord|
            next.records().contains(r) && r.client_id == record.client_id ==> r == record,
{
    let s = next.records();
    let n = s.len() - 1;
    assert(s[n] == record);
    assert forall|r: ClientRecord|
        s.contains(r) && r.public_key@ == record.public_key@ implies r == record by {
        let j = choose|j: int| 0 <= j < s.len() && s[j] == r;
        if j != n {
            assert(s[j].public_key@ != s[n].public_key@);
        }
    }
    assert forall|r: ClientRecord| s.contains(r) && r.client_id == record.client_id implies r
        == record by {
        let j = choose|j: int| 0 <= j < s.len() && s[j] == r;
        if j != n {
            assert(s[j].client_id != s[n].client_id);
        }
    }
}

/// Law: a revoked client stays revoked: once `with_revoked` has added an
/// id, the id is on the list, so revoking it again yields `None` and
/// changes nothing.
pub proof fn lemma_revoke_idempotent(db: ClientDb, client_id: ClientId, next: ClientDb)
    requires
        db.wf(),
        next.revoked_ids() == db.revoked_ids().push(client_id),
    ensures
        next.revoked_ids().contains(client_id),
{
    assert(next.revoked_ids()[db.revoked_ids().len() as int] == client_id);
}

} // verus!
