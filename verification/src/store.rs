//! The credential table itself: the live records, the uniqueness and
//! reserved-category invariants, and the CRUD operations.

use vstd::prelude::*;
use crate::credential::{normalize_token, normalized, Credential, CredentialModel};
use crate::errors::StoreError;
use crate::text::str_eq;

verus! {

/// The category value no credential may carry: the category listing command
/// would mistake it for its own keyword.
pub open spec fn reserved_category() -> Seq<char> {
    "categories"@
}

/// Some record carries this name.
pub open spec fn has_name(rows: Seq<CredentialModel>, name: Seq<char>) -> bool {
    exists|k: int| 0 <= k < rows.len() && rows[k].name == name
}

/// Some record carries this id.
pub open spec fn has_id(rows: Seq<CredentialModel>, id: u32) -> bool {
    exists|k: int| 0 <= k < rows.len() && rows[k].id == id
}

/// The first record carrying the given name, if any.
pub open spec fn lookup(rows: Seq<CredentialModel>, name: Seq<char>) -> Option<CredentialModel>
    decreases rows.len(),
{
    if rows.len() == 0 {
        None
    } else if rows[0].name == name {
        Some(rows[0])
    } else {
        lookup(rows.drop_first(), name)
    }
}

/// How many records carry the given name.
pub open spec fn count_name(rows: Seq<CredentialModel>, name: Seq<char>) -> nat {
    rows.filter(|c: CredentialModel| c.name == name).len()
}

pub open spec fn names_unique(rows: Seq<CredentialModel>) -> bool {
    forall|i: int, j: int| 0 <= i < j < rows.len() ==> rows[i].name != rows[j].name
}

pub open spec fn ids_unique(rows: Seq<CredentialModel>) -> bool {
    forall|i: int, j: int| 0 <= i < j < rows.len() ==> rows[i].id != rows[j].id
}

pub open spec fn ids_below(rows: Seq<CredentialModel>, bound: u32) -> bool {
    forall|i: int| 0 <= i < rows.len() ==> rows[i].id < bound
}

/// The record invariants of the table: unique names, unique ids, non-empty
/// names, and no reserved category.
pub open spec fn rows_wf(rows: Seq<CredentialModel>) -> bool {
    &&& names_unique(rows)
    &&& ids_unique(rows)
    &&& forall|i: int| 0 <= i < rows.len() ==> rows[i].name.len() > 0
    &&& forall|i: int| 0 <= i < rows.len() ==> rows[i].category != reserved_category()
}

/// Rows that can be taken up as a store: they satisfy the invariants and
/// leave at least one id to assign.
pub open spec fn loadable(rows: Seq<CredentialModel>) -> bool {
    &&& rows_wf(rows)
    &&& forall|i: int| 0 <= i < rows.len() ==> rows[i].id < u32::MAX
}

/// `lookup` finds a record exactly when one carries the name.
pub proof fn lemma_lookup_has_name(rows: Seq<CredentialModel>, name: Seq<char>)
    ensures
        lookup(rows, name) is Some <==> has_name(rows, name),
        lookup(rows, name) is Some ==> {
            let c = lookup(rows, name)->Some_0;
            &&& c.name == name
            &&& exists|k: int| 0 <= k < rows.len() && rows[k] == c
        },
    decreases rows.len(),
{
    if rows.len() > 0 && rows[0].name != name {
        lemma_lookup_has_name(rows.drop_first(), name);
        let rest = rows.drop_first();
        if has_name(rest, name) {
            let k = choose|k: int| 0 <= k < rest.len() && rest[k].name == name;
            assert(rows[k + 1].name == name);
        }
        if has_name(rows, name) {
            let k = choose|k: int| 0 <= k < rows.len() && rows[k].name == name;
            assert(rest[k - 1].name == name);
        }
        if lookup(rows, name) is Some {
            let c = lookup(rows, name)->Some_0;
            let k = choose|k: int| 0 <= k < rest.len() && rest[k] == c;
            assert(rows[k + 1] == c);
        }
    }
}

/// When the first match in row order stands at index `i`, `lookup` returns
/// that record.
pub proof fn lemma_lookup_at_first_match(rows: Seq<CredentialModel>, name: Seq<char>, i: int)
    requires
        0 <= i < rows.len(),
        rows[i].name == name,
        forall|j: int| 0 <= j < i ==> rows[j].name != name,
    ensures
        lookup(rows, name) == Some(rows[i]),
    decreases i,
{
    if i > 0 {
        lemma_lookup_at_first_match(rows.drop_first(), name, i - 1);
    }
}

/// The in-memory model of the credential table: the live records, and the
/// next id the store will assign. Ids grow monotonically, so an id is never
/// reused after a delete.
#[derive(Debug)]
pub struct Store {
    creds: Vec<Credential>,
    next_id: u32,
}

impl View for Store {
    type V = Seq<CredentialModel>;

    closed spec fn view(&self) -> Seq<CredentialModel> {
        self.creds@.map_values(|c: Credential| c@)
    }
}

impl Store {
    /// The id the next successful insert will assign.
    pub closed spec fn fresh_id(&self) -> u32 {
        self.next_id
    }

    /// The store invariant: the row invariants, and every live id below the
    /// next one to assign.
    pub open spec fn wf(&self) -> bool {
        &&& rows_wf(self@)
        &&& ids_below(self@, self.fresh_id())
    }

    /// An empty store, as created on the first run.
    pub fn new() -> (r: Store)
        ensures
            r.wf(),
            r@ == Seq::<CredentialModel>::empty(),
            r.fresh_id() == 1,
    {
        let s = Store { creds: Vec::new(), next_id: 1 };
        proof {
            assert(s@ =~= Seq::<CredentialModel>::empty());
        }
        s
    }

    /// Takes up previously persisted records, validating every invariant the
    /// store relies on; rows that violate one cannot come from this store
    /// and are refused as unusable.
    pub fn from_rows(rows: Vec<Credential>) -> (r: Result<Store, StoreError>)
        ensures
            match r {
                Ok(s) => {
                    &&& s.wf()
                    &&& s@ == rows@.map_values(|c: Credential| c@)
                    &&& loadable(rows@.map_values(|c: Credential| c@))
                },
                Err(e) => {
                    &&& e == StoreError::StorageUnavailable
                    &&& !loadable(rows@.map_values(|c: Credential| c@))
                },
            },
    {
        let ghost m = rows@.map_values(|c: Credential| c@);
        let n = rows.len();
        let mut next_id: u32 = 1;
        let mut i: usize = 0;
        while i < n
            invariant
                i <= n,
                n == rows.len(),
                m == rows@.map_values(|c: Credential| c@),
                next_id >= 1,
                forall|p: int, q: int| 0 <= p < q < i ==> m[p].name != m[q].name,
                forall|p: int, q: int| 0 <= p < q < i ==> m[p].id != m[q].id,
                forall|p: int| 0 <= p < i ==> m[p].name.len() > 0,
                forall|p: int| 0 <= p < i ==> m[p].category != reserved_category(),
                forall|p: int| 0 <= p < i ==> m[p].id < next_id,
                forall|p: int| 0 <= p < i ==> m[p].id < u32::MAX,
            decreases n - i,
        {
            let row = &rows[i];
            proof {
                assert(m[i as int] == rows@[i as int]@);
            }
            if row.name.as_str().is_empty() {
                return Err(StoreError::StorageUnavailable);
            }
            if str_eq(row.category.as_str(), "categories") {
                return Err(StoreError::StorageUnavailable);
            }
            if row.id == u32::MAX {
                return Err(StoreError::StorageUnavailable);
            }
            let mut j: usize = 0;
            while j < i
                invariant
                    j <= i,
                    i < n,
                    n == rows.len(),
                    m == rows@.map_values(|c: Credential| c@),
                    *row == rows@[i as int],
                    forall|p: int| 0 <= p < j ==> m[p].name != m[i as int].name,
                    forall|p: int| 0 <= p < j ==> m[p].id != m[i as int].id,
                decreases i - j,
            {
                proof {
                    assert(m[j as int] == rows@[j as int]@);
                    assert(m[i as int] == rows@[i as int]@);
                }
                if str_eq(rows[j].name.as_str(), row.name.as_str()) {
                    return Err(StoreError::StorageUnavailable);
                }
                if rows[j].id == row.id {
                    return Err(StoreError::StorageUnavailable);
                }
                j += 1;
            }
            if row.id >= next_id {
                next_id = row.id + 1;
            }
            i += 1;
        }
        let s = Store { creds: rows, next_id };
        Ok(s)
    }

    /// The live records, in store order.
    pub fn records(&self) -> (r: &Vec<Credential>)
        ensures
            r@.map_values(|c: Credential| c@) == self@,
    {
        &self.creds
    }

    /// Whether some record carries exactly this name; the check made before
    /// every insert.
    pub fn name_exists(&self, name: &str) -> (r: bool)
        ensures
            r == has_name(self@, name@),
    {
        let n = self.creds.len();
        let mut i: usize = 0;
        while i < n
            invariant
                i <= n,
                n == self.creds.len(),
                forall|j: int| 0 <= j < i ==> self@[j].name != name@,
            decreases n - i,
        {
            if str_eq(self.creds[i].name.as_str(), name) {
                assert(self@[i as int].name == name@);
                return true;
            }
            i += 1;
        }
        false
    }

    /// Exact-match lookup by name, returning a copy of the stored record.
    pub fn get(&self, name: &str) -> (r: Result<Credential, StoreError>)
        ensures
            match r {
                Ok(c) => lookup(self@, name@) == Some(c@),
                Err(e) => {
                    &&& e == StoreError::NotFound
                    &&& lookup(self@, name@) is None
                    &&& !has_name(self@, name@)
                },
            },
    {
        let n = self.creds.len();
        let mut i: usize = 0;
        while i < n
            invariant
                i <= n,
                n == self.creds.len(),
                forall|j: int| 0 <= j < i ==> self@[j].name != name@,
            decreases n - i,
        {
            let row = &self.creds[i];
            if str_eq(row.name.as_str(), name) {
                let c = Credential {
                    id: row.id,
                    name: row.name.clone(),
                    category: row.category.clone(),
                    username: row.username.clone(),
                    password: row.password.clone(),
                };
                proof {
                    lemma_lookup_at_first_match(self@, name@, i as int);
                }
                return Ok(c);
            }
            i += 1;
        }
        proof {
            lemma_lookup_has_name(self@, name@);
        }
        Err(StoreError::NotFound)
    }

    /// The opening step of the add flow: normalizes the chosen name and
    /// category and refuses the reserved category and a duplicate name, all
    /// before any further field values are collected. On success the fresh
    /// record is ready for the store to take, its id still the placeholder.
    pub fn prepare_new_credential(&self, name: &str, category: &str) -> (r: Result<
        Credential,
        StoreError,
    >)
        requires
            name@.len() > 0,
        ensures
            match r {
                Ok(c) => {
                    &&& c@.id == 0
                    &&& c@.name == normalized(name@)
                    &&& c@.category == normalized(category@)
                    &&& c@.username == Seq::<char>::empty()
                    &&& c@.password == Seq::<char>::empty()
                    &&& c@.category != reserved_category()
                    &&& !has_name(self@, c@.name)
                },
                Err(e) => match e {
                    StoreError::ReservedName => normalized(category@) == reserved_category(),
                    StoreError::DuplicateName => {
                        &&& normalized(category@) != reserved_category()
                        &&& has_name(self@, normalized(name@))
                    },
                    _ => false,
                },
            },
    {
        let name_n = normalize_token(name);
        let category_n = normalize_token(category);
        if str_eq(category_n.as_str(), "categories") {
            return Err(StoreError::ReservedName);
        }
        if self.name_exists(name_n.as_str()) {
            return Err(StoreError::DuplicateName);
        }
        Ok(Credential::new(name_n, category_n))
    }

    /// Inserts a new record under a fresh id and returns a copy of what was
    /// persisted. The reserved category and a duplicate name are refused
    /// before anything changes; so is an exhausted id space.
    pub fn insert(
        &mut self,
        name: String,
        category: String,
        username: String,
        password: String,
    ) -> (r: Result<Credential, StoreError>)
        requires
            old(self).wf(),
            name@.len() > 0,
        ensures
            final(self).wf(),
            match r {
                Ok(c) => {
                    &&& category@ != reserved_category()
                    &&& !has_name(old(self)@, name@)
                    &&& c@ == (CredentialModel {
                        id: old(self).fresh_id(),
                        name: name@,
                        category: category@,
                        username: username@,
                        password: password@,
                    })
                    &&& final(self)@ == old(self)@.push(c@)
                    &&& final(self).fresh_id() == old(self).fresh_id() + 1
                },
                Err(e) => {
                    &&& *final(self) == *old(self)
                    &&& match e {
                        StoreError::ReservedName => category@ == reserved_category(),
                        StoreError::DuplicateName => {
                            &&& category@ != reserved_category()
                            &&& has_name(old(self)@, name@)
                        },
                        StoreError::StorageUnavailable => {
                            &&& category@ != reserved_category()
                            &&& !has_name(old(self)@, name@)
                            &&& old(self).fresh_id() == u32::MAX
                        },
                        StoreError::NotFound => false,
                    }
                },
            },
    {
        if str_eq(category.as_str(), "categories") {
            return Err(StoreError::ReservedName);
        }
        if self.name_exists(name.as_str()) {
            return Err(StoreError::DuplicateName);
        }
        if self.next_id == u32::MAX {
            return Err(StoreError::StorageUnavailable);
        }
        let id = self.next_id;
        let stored = Credential {
            id,
            name: name.clone(),
            category: category.clone(),
            username: username.clone(),
            password: password.clone(),
        };
        let returned = Credential { id, name, category, username, password };
        self.creds.push(stored);
        self.next_id = id + 1;
        proof {
            assert(self@ =~= old(self)@.push(returned@));
        }
        Ok(returned)
    }

    /// Full-record replace by id. Beyond the id lookup, a rename that would
    /// collide with another record's name and the reserved category are both
    /// refused, so the store invariants survive every edit.
    pub fn update(&mut self, cred: &Credential) -> (r: Result<(), StoreError>)
        requires
            old(self).wf(),
            cred@.name.len() > 0,
        ensures
            final(self).wf(),
            final(self).fresh_id() == old(self).fresh_id(),
            match r {
                Ok(()) => {
                    &&& cred@.category != reserved_category()
                    &&& exists|k: int|
                        {
                            &&& 0 <= k < old(self)@.len()
                            &&& old(self)@[k].id == cred@.id
                            &&& final(self)@ == old(self)@.update(k, cred@)
                        }
                    &&& forall|j: int|
                        0 <= j < old(self)@.len() && old(self)@[j].id != cred@.id ==> old(
                            self,
                        )@[j].name != cred@.name
                },
                Err(e) => {
                    &&& *final(self) == *old(self)
                    &&& match e {
                        StoreError::NotFound => !has_id(old(self)@, cred@.id),
                        StoreError::ReservedName => {
                            &&& has_id(old(self)@, cred@.id)
                            &&& cred@.category == reserved_category()
                        },
                        StoreError::DuplicateName => {
                            &&& has_id(old(self)@, cred@.id)
                            &&& cred@.category != reserved_category()
                            &&& exists|j: int|
                                {
                                    &&& 0 <= j < old(self)@.len()
                                    &&& old(self)@[j].id != cred@.id
                                    &&& old(self)@[j].name == cred@.name
                                }
                        },
                        StoreError::StorageUnavailable => false,
                    }
                },
            },
    {
        let n = self.creds.len();
        let mut k: usize = 0;
        while k < n
            invariant
                k <= n,
                n == self.creds.len(),
                forall|j: int| 0 <= j < k ==> self@[j].id != cred@.id,
            ensures
                k <= n,
                n == self.creds.len(),
                forall|j: int| 0 <= j < k ==> self@[j].id != cred@.id,
                k < n ==> self@[k as int].id == cred@.id,
            decreases n - k,
        {
            if self.creds[k].id == cred.id {
                break ;
            }
            k += 1;
        }
        if k == n {
            return Err(StoreError::NotFound);
        }
        if str_eq(cred.category.as_str(), "categories") {
            return Err(StoreError::ReservedName);
        }
        let mut j: usize = 0;
        while j < n
            invariant
                j <= n,
                n == self.creds.len(),
                k < n,
                *self == *old(self),
                self.wf(),
                self@[k as int].id == cred@.id,
                cred@.category != reserved_category(),
                forall|p: int|
                    0 <= p < j && self@[p].id != cred@.id ==> self@[p].name != cred@.name,
            decreases n - j,
        {
            if self.creds[j].id != cred.id && str_eq(self.creds[j].name.as_str(), cred.name.as_str()) {
                proof {
                    assert(old(self)@[k as int].id == cred@.id);
                    assert(old(self)@[j as int].id != cred@.id && old(self)@[j as int].name
                        == cred@.name);
                }
                return Err(StoreError::DuplicateName);
            }
            j += 1;
        }
        let replacement = Credential {
            id: cred.id,
            name: cred.name.clone(),
            category: cred.category.clone(),
            username: cred.username.clone(),
            password: cred.password.clone(),
        };
        self.creds[k] = replacement;
        proof {
            assert(self@ =~= old(self)@.update(k as int, cred@));
            assert forall|i: int, j2: int| 0 <= i < j2 < self@.len() implies self@[i].name
                != self@[j2].name by {
                if i != k as int && j2 != k as int {
                    assert(old(self)@[i].name != old(self)@[j2].name);
                }
            }
        }
        Ok(())
    }

    /// Permanent removal by id. Deleting an id that no record carries is a
    /// no-op: the table is simply left as it stands. The id counter never
    /// moves back, so a deleted id is not handed out again.
    pub fn delete(&mut self, id: u32)
        requires
            old(self).wf(),
        ensures
            final(self).wf(),
            final(self).fresh_id() == old(self).fresh_id(),
            has_id(old(self)@, id) ==> exists|k: int|
                {
                    &&& 0 <= k < old(self)@.len()
                    &&& old(self)@[k].id == id
                    &&& final(self)@ == old(self)@.remove(k)
                },
            !has_id(old(self)@, id) ==> final(self)@ == old(self)@,
    {
        let n = self.creds.len();
        let mut k: usize = 0;
        while k < n
            invariant
                k <= n,
                n == self.creds.len(),
                self.wf(),
                *self == *old(self),
                forall|j: int| 0 <= j < k ==> self@[j].id != id,
            decreases n - k,
        {
            if self.creds[k].id == id {
                proof {
                    assert(old(self)@[k as int].id == id);
                    assert(has_id(old(self)@, id));
                }
                self.creds.remove(k);
                proof {
                    assert(self@ =~= old(self)@.remove(k as int));
                }
                return ;
            }
            k += 1;
        }
    }

    /// Every stored name, in store order; used only to feed tab completion.
    pub fn all_names(&self) -> (r: Vec<String>)
        ensures
            r@.len() == self@.len(),
            forall|i: int| 0 <= i < r@.len() ==> r@[i]@ == self@[i].name,
    {
        let n = self.creds.len();
        let mut out: Vec<String> = Vec::new();
        let mut i: usize = 0;
        while i < n
            invariant
                i <= n,
                n == self.creds.len(),
                out@.len() == i,
                forall|j: int| 0 <= j < i ==> out@[j]@ == self@[j].name,
            decreases n - i,
        {
            out.push(self.creds[i].name.clone());
            i += 1;
        }
        out
    }
}

} // verus!
