//! The credential store: account records with a unique id and a unique
//! name. An in-memory model of the external store that enforces the same
//! uniqueness constraint the registration flow relies on.

use vstd::prelude::*;
use crate::error::AppError;

verus! {

/// A stored account: stable id, unique name, bcrypt password hash, and a
/// status flag.
pub struct CredentialRecord {
    pub id: u64,
    pub name: String,
    pub password: String,
    pub status: i32,
}

/// The mathematical image of a record: its strings as character sequences.
pub ghost struct RecordModel {
    pub id: u64,
    pub name: Seq<char>,
    pub password: Seq<char>,
    pub status: i32,
}

impl View for CredentialRecord {
    type V = RecordModel;

    open spec fn view(&self) -> RecordModel {
        RecordModel {
            id: self.id,
            name: self.name@,
            password: self.password@,
            status: self.status,
        }
    }
}

impl CredentialRecord {
    /// A fresh record holding the same data.
    pub fn duplicate(&self) -> (r: CredentialRecord)
        ensures
            r@ == self@,
    {
        CredentialRecord {
            id: self.id,
            name: self.name.clone(),
            password: self.password.clone(),
            status: self.status,
        }
    }
}

/// Account data as handed back to callers: everything but the password
/// hash, which never leaves the store.
pub struct Identity {
    pub id: u64,
    pub name: String,
    pub status: i32,
}

pub ghost struct IdentityModel {
    pub id: u64,
    pub name: Seq<char>,
    pub status: i32,
}

impl View for Identity {
    type V = IdentityModel;

    open spec fn view(&self) -> IdentityModel {
        IdentityModel { id: self.id, name: self.name@, status: self.status }
    }
}

/// The identity a record presents: the record without its hash.
pub open spec fn identity_of(r: RecordModel) -> IdentityModel {
    IdentityModel { id: r.id, name: r.name, status: r.status }
}

impl Identity {
    /// The public face of a record.
    pub fn of_record(r: &CredentialRecord) -> (i: Identity)
        ensures
            i@ == identity_of(r@),
    {
        Identity { id: r.id, name: r.name.clone(), status: r.status }
    }

    /// A fresh identity holding the same data.
    pub fn duplicate(&self) -> (i: Identity)
        ensures
            i@ == self@,
    {
        Identity { id: self.id, name: self.name.clone(), status: self.status }
    }
}

pub open spec fn ids_unique(s: Seq<RecordModel>) -> bool {
    forall|i: int, j: int| 0 <= i < j < s.len() ==> s[i].id != s[j].id
}

pub open spec fn names_unique(s: Seq<RecordModel>) -> bool {
    forall|i: int, j: int| 0 <= i < j < s.len() ==> s[i].name != s[j].name
}

/// Some record carries this name.
pub open spec fn name_taken(s: Seq<RecordModel>, name: Seq<char>) -> bool {
    exists|i: int| 0 <= i < s.len() && s[i].name == name
}

/// Some record carries this id.
pub open spec fn id_present(s: Seq<RecordModel>, id: u64) -> bool {
    exists|i: int| 0 <= i < s.len() && s[i].id == id
}

/// The record carrying this name (meaningful when the name is taken and
/// names are unique).
pub open spec fn record_with_name(s: Seq<RecordModel>, name: Seq<char>) -> RecordModel {
    s[choose|i: int| 0 <= i < s.len() && s[i].name == name]
}

/// The record carrying this id (meaningful when the id is present and ids
/// are unique).
pub open spec fn record_with_id(s: Seq<RecordModel>, id: u64) -> RecordModel {
    s[choose|i: int| 0 <= i < s.len() && s[i].id == id]
}

/// The store. Ids are assigned from a counter and never reused; the name
/// uniqueness constraint is enforced on creation, not merely advised.
pub struct CredentialStore {
    pub records: Vec<CredentialRecord>,
    pub next_id: u64,
}

impl View for CredentialStore {
    type V = Seq<RecordModel>;

    open spec fn view(&self) -> Seq<RecordModel> {
        self.records@.map_values(|r: CredentialRecord| r@)
    }
}

impl CredentialStore {
    /// The store's invariant: unique ids below the counter, unique names.
    pub open spec fn wf(&self) -> bool {
        &&& ids_unique(self@)
        &&& names_unique(self@)
        &&& forall|i: int| 0 <= i < self@.len() ==> #[trigger] self@[i].id < self.next_id
    }

    /// Whether the counter can still assign a fresh id.
    pub open spec fn can_assign_id(&self) -> bool {
        self.next_id < u64::MAX
    }

    /// An empty store.
    pub fn new() -> (s: CredentialStore)
        ensures
            s.wf(),
            s@ == Seq::<RecordModel>::empty(),
            s.can_assign_id(),
    {
        let s = CredentialStore { records: Vec::new(), next_id: 0 };
        proof {
            assert(s@ =~= Seq::<RecordModel>::empty());
        }
        s
    }

    /// Looks a record up by exact name match.
    pub fn find_by_name(&self, name: &String) -> (r: Option<CredentialRecord>)
        requires
            self.wf(),
        ensures
            match r {
                Some(rec) => name_taken(self@, name@) && rec@ == record_with_name(self@, name@)
                    && rec@.name == name@,
                None => !name_taken(self@, name@),
            },
    {
        let n = self.records.len();
        let mut i: usize = 0;
        while i < n
            invariant
                i <= n,
                n == self.records@.len(),
                self.wf(),
                forall|k: int| 0 <= k < i ==> #[trigger] self@[k].name != name@,
            decreases n - i,
        {
            if self.records[i].name.eq(name) {
                let rec = self.records[i].duplicate();
                proof {
                    assert(self@[i as int].name == name@);
                    let w = choose|k: int| 0 <= k < self@.len() && self@[k].name == name@;
                    assert(self@[w].name == name@);
                    if w != i {
                        assert(self@[w].name != self@[i as int].name);
                    }
                }
                return Some(rec);
            }
            i = i + 1;
        }
        None
    }

    /// Looks a record up by id.
    pub fn find_by_id(&self, id: u64) -> (r: Option<CredentialRecord>)
        requires
            self.wf(),
        ensures
            match r {
                Some(rec) => id_present(self@, id) && rec@ == record_with_id(self@, id)
                    && rec@.id == id,
                None => !id_present(self@, id),
            },
    {
        let n = self.records.len();
        let mut i: usize = 0;
        while i < n
            invariant
                i <= n,
                n == self.records@.len(),
                self.wf(),
                forall|k: int| 0 <= k < i ==> #[trigger] self@[k].id != id,
            decreases n - i,
        {
            if self.records[i].id == id {
                let rec = self.records[i].duplicate();
                proof {
                    assert(self@[i as int].id == id);
                    let w = choose|k: int| 0 <= k < self@.len() && self@[k].id == id;
                    assert(self@[w].id == id);
                    if w != i {
                        assert(self@[w].id != self@[i as int].id);
                    }
                }
                return Some(rec);
            }
            i = i + 1;
        }
        None
    }

    /// Creates a record. The store is the authoritative guard on name
    /// uniqueness: a taken name is refused with `Conflict` whatever the
    /// caller checked before.
    pub fn create(&mut self, name: String, password: String, status: i32) -> (r: Result<
        u64,
        AppError,
    >)
        requires
            old(self).wf(),
            old(self).can_assign_id(),
        ensures
            final(self).wf(),
            final(self).next_id >= old(self).next_id,
            match r {
                Ok(id) => !name_taken(old(self)@, name@) && !id_present(old(self)@, id) && final(self)@ =~= old(self)@ + seq![
                    RecordModel { id, name: name@, password: password@, status },
                ],
                Err(e) => e == AppError::Conflict && name_taken(old(self)@, name@) && final(self)@
                    == old(self)@ && final(self).next_id == old(self).next_id,
            },
    {
        match self.find_by_name(&name) {
            Some(_) => Err(AppError::Conflict),
            None => {
                let id = self.next_id;
                let rec = CredentialRecord { id, name, password, status };
                let ghost pre = self@;
                self.records.push(rec);
                self.next_id = self.next_id + 1;
                proof {
                    assert(self@ =~= pre + seq![rec@]);
                    assert(forall|i: int| 0 <= i < pre.len() ==> self@[i] == #[trigger] pre[i]);
                    assert(self@.last().id == id);
                    assert(forall|i: int|
                        0 <= i < pre.len() ==> #[trigger] pre[i].id < id);
                }
                Ok(id)
            },
        }
    }

    /// Replaces the password hash of the record with this id.
    pub fn set_password(&mut self, id: u64, password: String) -> (r: u64)
        requires
            old(self).wf(),
            id_present(old(self)@, id),
        ensures
            final(self).wf(),
            final(self).next_id == old(self).next_id,
            r == id,
            exists|k: int|
                0 <= k < old(self)@.len() && old(self)@[k].id == id && final(self)@ =~= old(self)@.update(
                    k,
                    RecordModel {
                        id: old(self)@[k].id,
                        name: old(self)@[k].name,
                        password: password@,
                        status: old(self)@[k].status,
                    },
                ),
    {
        let n = self.records.len();
        let mut i: usize = 0;
        while i < n
            invariant
                i <= n,
                n == self.records@.len(),
                old(self).wf(),
                self == old(self),
                forall|k: int| 0 <= k < i ==> #[trigger] self@[k].id != id,
            decreases n - i,
        {
            if self.records[i].id == id {
                let rec = CredentialRecord {
                    id,
                    name: self.records[i].name.clone(),
                    password,
                    status: self.records[i].status,
                };
                let ghost pre = self@;
                let ghost ki = i as int;
                self.records.remove(i);
                self.records.insert(i, rec);
                proof {
                    assert(self@ =~= pre.update(
                        ki,
                        RecordModel {
                            id: pre[ki].id,
                            name: pre[ki].name,
                            password: password@,
                            status: pre[ki].status,
                        },
                    ));
                    assert(forall|a: int, b: int|
                        0 <= a < b < self@.len() ==> (pre[a].id == self@[a].id && pre[b].id
                            == self@[b].id));
                    assert(forall|a: int, b: int|
                        0 <= a < b < self@.len() ==> (pre[a].name == self@[a].name && pre[b].name
                            == self@[b].name));
                }
                return id;
            }
            i = i + 1;
        }
        proof {
            let w = choose|k: int| 0 <= k < old(self)@.len() && old(self)@[k].id == id;
            assert(old(self)@[w].id == id);
            assert(self@[w].id == id);
            assert(false);
        }
        id
    }

    /// Removes the record with this id.
    pub fn remove_by_id(&mut self, id: u64)
        requires
            old(self).wf(),
            id_present(old(self)@, id),
        ensures
            final(self).wf(),
            final(self).next_id == old(self).next_id,
            !id_present(final(self)@, id),
            exists|k: int|
                0 <= k < old(self)@.len() && old(self)@[k].id == id && final(self)@ =~= old(self)@.subrange(0, k) + old(self)@.subrange(k + 1, old(self)@.len() as int),
    {
        let n = self.records.len();
        let mut i: usize = 0;
        while i < n
            invariant
                i <= n,
                n == self.records@.len(),
                old(self).wf(),
                self == old(self),
                forall|k: int| 0 <= k < i ==> #[trigger] self@[k].id != id,
            decreases n - i,
        {
            if self.records[i].id == id {
                let ghost pre = self@;
                let ghost ki = i as int;
                self.records.remove(i);
                proof {
                    assert(self@ =~= pre.subrange(0, ki) + pre.subrange(
                        ki + 1,
                        pre.len() as int,
                    ));
                    assert(pre[ki].id == id);
                    assert forall|k: int| 0 <= k < self@.len() implies #[trigger] self@[k].id
                        != id by {
                        if k < ki {
                            assert(self@[k] == pre[k]);
                        } else {
                            assert(self@[k] == pre[k + 1]);
                            assert(pre[ki].id != pre[k + 1].id);
                        }
                    }
                    assert(0 <= ki < old(self)@.len() && old(self)@[ki].id == id && self@ =~= old(self)@.subrange(0, ki) + old(self)@.subrange(ki + 1, old(self)@.len() as int));
                }
                return ;
            }
            i = i + 1;
        }
        proof {
            let w = choose|k: int| 0 <= k < old(self)@.len() && old(self)@[k].id == id;
            assert(old(self)@[w].id == id);
            assert(self@[w].id == id);
            assert(false);
        }
    }
}

/// After a registration appends its record, the name it took is taken: by
/// `create`'s contract, a second creation under the same name on the
/// resulting store answers `Conflict` and changes nothing. Of two
/// registrations racing on one name, the store lets exactly one through.
/// The hypotheses are what a successful registration ensures of the store.
pub proof fn lemma_registration_is_exclusive(
    pre: Seq<RecordModel>,
    post: Seq<RecordModel>,
    name: Seq<char>,
)
    requires
        post.len() == pre.len() + 1,
        post.subrange(0, pre.len() as int) == pre,
        post.last().name == name,
    ensures
        name_taken(post, name),
{
    assert(post[post.len() - 1].name == name);
}

} // verus!
