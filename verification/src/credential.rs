//! The credential record: the one persisted entity, and the small rules
//! applied to its fields before they reach the store.

use vstd::prelude::*;
use vstd::string::StrSliceExecFns;

verus! {

/// A stored name/category/username/password record. The `id` is assigned by
/// the store and never changes; `name` is unique across the store; an empty
/// `category` means "uncategorized".
#[derive(Debug)]
pub struct Credential {
    pub id: u32,
    pub name: String,
    pub category: String,
    pub username: String,
    pub password: String,
}

/// The mathematical content of a credential record.
pub struct CredentialModel {
    pub id: u32,
    pub name: Seq<char>,
    pub category: Seq<char>,
    pub username: Seq<char>,
    pub password: Seq<char>,
}

impl View for Credential {
    type V = CredentialModel;

    open spec fn view(&self) -> CredentialModel {
        CredentialModel {
            id: self.id,
            name: self.name@,
            category: self.category@,
            username: self.username@,
            password: self.password@,
        }
    }
}

impl Credential {
    /// A fresh record carrying only what the caller chose so far; the store
    /// replaces the placeholder id on insertion.
    pub fn new(name: String, category: String) -> (r: Credential)
        ensures
            r@.id == 0,
            r@.name == name@,
            r@.category == category@,
            r@.username == Seq::<char>::empty(),
            r@.password == Seq::<char>::empty(),
    {
        Credential { id: 0, name, category, username: String::new(), password: String::new() }
    }

    /// The field offered to the clipboard: the username when `username` is
    /// set, the password otherwise.
    pub fn secret(&self, username: bool) -> (r: &String)
        ensures
            r@ == if username {
                self@.username
            } else {
                self@.password
            },
    {
        if username {
            &self.username
        } else {
            &self.password
        }
    }
}

/// A field value with every space turned into an underscore, so that names
/// and categories stay single, unquoted command tokens.
pub open spec fn normalized(s: Seq<char>) -> Seq<char> {
    s.map_values(
        |c: char|
            if c == ' ' {
                '_'
            } else {
                c
            },
    )
}

/// Replaces spaces with underscores in a name or category.
pub fn normalize_token(s: &str) -> (r: String)
    ensures
        r@ == normalized(s@),
{
    let len = s.unicode_len();
    let mut out = String::new();
    let mut i: usize = 0;
    while i < len
        invariant
            i <= len,
            len == s@.len(),
            out@.len() == i,
            forall|j: int|
                0 <= j < i ==> out@[j] == (if s@[j] == ' ' {
                    '_'
                } else {
                    s@[j]
                }),
        decreases len - i,
    {
        let c = s.get_char(i);
        if c == ' ' {
            crate::text::push_char(&mut out, '_');
        } else {
            crate::text::push_char(&mut out, c);
        }
        i += 1;
    }
    proof {
        assert(out@ =~= normalized(s@));
    }
    out
}

/// Applies the field inputs collected for an add or edit to a record: an
/// empty input keeps the old value of `name`, `username` and `password`,
/// while the `category` input always replaces the category; the name and
/// category inputs are ignored altogether when `skip_name_and_category` is
/// set (a freshly added record has both already).
pub fn merge_edits(
    cred: &mut Credential,
    skip_name_and_category: bool,
    name: &str,
    category: &str,
    username: &str,
    password: &str,
)
    ensures
        final(cred)@.id == old(cred)@.id,
        final(cred)@.name == if skip_name_and_category || name@.len() == 0 {
            old(cred)@.name
        } else {
            name@
        },
        final(cred)@.category == if skip_name_and_category {
            old(cred)@.category
        } else {
            category@
        },
        final(cred)@.username == if username@.len() == 0 {
            old(cred)@.username
        } else {
            username@
        },
        final(cred)@.password == if password@.len() == 0 {
            old(cred)@.password
        } else {
            password@
        },
{
    if !skip_name_and_category {
        if !name.is_empty() {
            cred.name = name.to_owned();
        }
        cred.category = category.to_owned();
    }
    if !username.is_empty() {
        cred.username = username.to_owned();
    }
    if !password.is_empty() {
        cred.password = password.to_owned();
    }
}

} // verus!
