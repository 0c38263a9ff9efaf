//! The listing and grouping views over the store: rows sorted by category
//! and name, optionally filtered to one category, and the distinct category
//! values, ascending and deduplicated.

use vstd::prelude::*;
use crate::credential::{Credential, CredentialModel};
use crate::store::Store;
use crate::text::{
    lex_lt,
    str_eq,
    str_lt,
    lemma_lex_lt_connected,
    lemma_lex_lt_transitive,
    lemma_lex_lt_irreflexive,
};

verus! {

/// One row of a listing: the category and the name of one credential.
pub struct ListEntry {
    pub category: String,
    pub name: String,
}

impl View for ListEntry {
    type V = (Seq<char>, Seq<char>);

    open spec fn view(&self) -> (Seq<char>, Seq<char>) {
        (self.category@, self.name@)
    }
}

/// The rows of a listing as mathematical pairs.
pub open spec fn entry_views(s: Seq<ListEntry>) -> Seq<(Seq<char>, Seq<char>)> {
    s.map_values(|x: ListEntry| x@)
}

/// The credentials as `(category, name)` pairs, in store order.
pub open spec fn row_pairs(rows: Seq<CredentialModel>) -> Seq<(Seq<char>, Seq<char>)> {
    rows.map_values(|c: CredentialModel| (c.category, c.name))
}

/// The category values as character sequences, in listing order.
pub open spec fn string_views(s: Seq<String>) -> Seq<Seq<char>> {
    s.map_values(|x: String| x@)
}

/// The listing order: ascending by category, then by name.
pub open spec fn entry_lt(a: (Seq<char>, Seq<char>), b: (Seq<char>, Seq<char>)) -> bool {
    ||| lex_lt(a.0, b.0)
    ||| (a.0 == b.0 && lex_lt(a.1, b.1))
}

/// Strictly ascending in the listing order.
pub open spec fn entries_sorted(s: Seq<(Seq<char>, Seq<char>)>) -> bool {
    forall|i: int, j: int| 0 <= i < j < s.len() ==> entry_lt(s[i], s[j])
}

/// Entries that the order separates in neither direction are equal.
pub proof fn lemma_entry_lt_connected(a: (Seq<char>, Seq<char>), b: (Seq<char>, Seq<char>))
    requires
        !entry_lt(a, b),
        !entry_lt(b, a),
    ensures
        a == b,
{
    lemma_lex_lt_connected(a.0, b.0);
    lemma_lex_lt_connected(a.1, b.1);
}

/// The listing order is transitive.
pub proof fn lemma_entry_lt_transitive(
    a: (Seq<char>, Seq<char>),
    b: (Seq<char>, Seq<char>),
    c: (Seq<char>, Seq<char>),
)
    requires
        entry_lt(a, b),
        entry_lt(b, c),
    ensures
        entry_lt(a, c),
{
    if lex_lt(a.0, b.0) && lex_lt(b.0, c.0) {
        lemma_lex_lt_transitive(a.0, b.0, c.0);
    }
    if a.0 == b.0 && b.0 == c.0 {
        lemma_lex_lt_irreflexive(a.0);
        lemma_lex_lt_irreflexive(b.0);
        lemma_lex_lt_transitive(a.1, b.1, c.1);
    }
}

/// Decides the listing order on two rows.
fn entry_lt_exec(a: &ListEntry, b: &ListEntry) -> (r: bool)
    ensures
        r == entry_lt(a@, b@),
{
    if str_lt(a.category.as_str(), b.category.as_str()) {
        true
    } else if str_eq(a.category.as_str(), b.category.as_str()) {
        str_lt(a.name.as_str(), b.name.as_str())
    } else {
        false
    }
}

/// Places one row at its position in a sorted listing. The row must differ
/// from every present row (credential names are unique, so listing rows are).
fn insert_entry(out: &mut Vec<ListEntry>, e: ListEntry)
    requires
        entries_sorted(entry_views(old(out)@)),
        forall|i: int| 0 <= i < old(out)@.len() ==> old(out)@[i]@ != e@,
    ensures
        entries_sorted(entry_views(final(out)@)),
        final(out)@.len() == old(out)@.len() + 1,
        forall|x: (Seq<char>, Seq<char>)| #![auto]
            entry_views(final(out)@).contains(x) <==> (entry_views(old(out)@).contains(x) || x
                == e@),
{
    let ghost views = entry_views(old(out)@);
    let n = out.len();
    let mut p: usize = 0;
    while p < n
        invariant
            p <= n,
            n == out.len(),
            *out == *old(out),
            views == entry_views(old(out)@),
            forall|q: int| 0 <= q < n ==> views[q] != e@,
            forall|q: int| 0 <= q < p ==> entry_lt(views[q], e@),
        ensures
            p <= n,
            n == out.len(),
            *out == *old(out),
            forall|q: int| 0 <= q < p ==> entry_lt(views[q], e@),
            p < n ==> entry_lt(e@, views[p as int]),
        decreases n - p,
    {
        proof {
            assert(views[p as int] == out@[p as int]@);
        }
        if !entry_lt_exec(&out[p], &e) {
            proof {
                if !entry_lt(e@, views[p as int]) {
                    lemma_entry_lt_connected(views[p as int], e@);
                }
            }
            break ;
        }
        p += 1;
    }
    let ghost prev = out@;
    out.insert(p, e);
    proof {
        prev.insert_ensures(p as int, e);
        let nv = entry_views(out@);
        assert forall|i: int| 0 <= i < nv.len() implies nv[i] == (if i < p as int {
            views[i]
        } else if i == p as int {
            e@
        } else {
            views[i - 1]
        }) by {
            assert(nv[i] == out@[i]@);
        }
        assert forall|i: int, j: int| 0 <= i < j < nv.len() implies entry_lt(nv[i], nv[j]) by {
            let pi = p as int;
            if i < pi && j == pi {
                assert(entry_lt(views[i], e@));
            } else if i == pi && j > pi {
                if j - 1 > pi {
                    assert(entry_lt(views[pi], views[j - 1]));
                    lemma_entry_lt_transitive(e@, views[pi], views[j - 1]);
                }
            }
        }
        assert forall|x: (Seq<char>, Seq<char>)| #![auto]
            nv.contains(x) <==> (views.contains(x) || x == e@) by {
            if nv.contains(x) {
                let i = choose|i: int| 0 <= i < nv.len() && nv[i] == x;
                if i < p as int {
                    assert(views[i] == x);
                } else if i > p as int {
                    assert(views[i - 1] == x);
                }
            }
            if views.contains(x) {
                let i = choose|i: int| 0 <= i < views.len() && views[i] == x;
                if i < p as int {
                    assert(nv[i] == x);
                } else {
                    assert(nv[i + 1] == x);
                }
            }
            if x == e@ {
                assert(nv[p as int] == x);
            }
        }
    }
}

impl Store {
    /// Every credential as a `(category, name)` row, in ascending listing
    /// order; the order the grouped output walks.
    pub fn list_all(&self) -> (r: Vec<ListEntry>)
        requires
            self.wf(),
        ensures
            r@.len() == self@.len(),
            entries_sorted(entry_views(r@)),
            forall|i: int| #![auto]
                0 <= i < r@.len() ==> row_pairs(self@).contains(entry_views(r@)[i]),
            forall|k: int| #![auto]
                0 <= k < self@.len() ==> entry_views(r@).contains(row_pairs(self@)[k]),
    {
        let rows = self.records();
        let n = rows.len();
        let mut out: Vec<ListEntry> = Vec::new();
        let mut k: usize = 0;
        while k < n
            invariant
                k <= n,
                n == rows@.len(),
                rows@.map_values(|c: Credential| c@) == self@,
                self.wf(),
                out@.len() == k,
                entries_sorted(entry_views(out@)),
                forall|i: int| #![auto]
                    0 <= i < out@.len() ==> row_pairs(self@).take(k as int).contains(
                        entry_views(out@)[i],
                    ),
                forall|kk: int| #![auto]
                    0 <= kk < k ==> entry_views(out@).contains(row_pairs(self@)[kk]),
            decreases n - k,
        {
            let e = ListEntry { category: rows[k].category.clone(), name: rows[k].name.clone() };
            let ghost pairs = row_pairs(self@);
            proof {
                assert(self@[k as int] == rows@[k as int]@);
                assert(e@ == pairs[k as int]);
                assert forall|i: int| 0 <= i < out@.len() implies out@[i]@ != e@ by {
                    assert(pairs.take(k as int).contains(entry_views(out@)[i]));
                    let kk = choose|kk: int|
                        0 <= kk < k && pairs.take(k as int)[kk] == entry_views(out@)[i];
                    assert(pairs[kk] == entry_views(out@)[i]);
                    assert(self@[kk].name != self@[k as int].name);
                    assert(entry_views(out@)[i] == out@[i]@);
                }
            }
            let ghost prev_views = entry_views(out@);
            insert_entry(&mut out, e);
            proof {
                assert forall|i: int| #![auto] 0 <= i < out@.len() implies pairs.take(
                    k + 1,
                ).contains(entry_views(out@)[i]) by {
                    let x = entry_views(out@)[i];
                    assert(entry_views(out@).contains(x));
                    if prev_views.contains(x) {
                        let kk = choose|kk: int|
                            0 <= kk < k && pairs.take(k as int)[kk] == x;
                        assert(pairs.take(k + 1)[kk] == x);
                    } else {
                        assert(x == e@);
                        assert(pairs.take(k + 1)[k as int] == x);
                    }
                }
                assert forall|kk: int| #![auto] 0 <= kk < k + 1 implies entry_views(out@).contains(
                    pairs[kk],
                ) by {
                    if kk < k {
                        assert(prev_views.contains(pairs[kk]));
                    } else {
                        assert(pairs[kk] == e@);
                    }
                }
            }
            k += 1;
        }
        proof {
            assert(row_pairs(self@).take(n as int) =~= row_pairs(self@));
        }
        out
    }

    /// The rows of one category only, in ascending listing order.
    pub fn list_by_category(&self, category: &str) -> (r: Vec<ListEntry>)
        requires
            self.wf(),
        ensures
            entries_sorted(entry_views(r@)),
            forall|i: int| #![auto]
                0 <= i < r@.len() ==> entry_views(r@)[i].0 == category@ && row_pairs(
                    self@,
                ).contains(entry_views(r@)[i]),
            forall|k: int| #![auto]
                0 <= k < self@.len() && self@[k].category == category@ ==> entry_views(
                    r@,
                ).contains(row_pairs(self@)[k]),
    {
        let rows = self.records();
        let n = rows.len();
        let mut out: Vec<ListEntry> = Vec::new();
        let mut k: usize = 0;
        while k < n
            invariant
                k <= n,
                n == rows@.len(),
                rows@.map_values(|c: Credential| c@) == self@,
                self.wf(),
                entries_sorted(entry_views(out@)),
                forall|i: int| #![auto]
                    0 <= i < out@.len() ==> entry_views(out@)[i].0 == category@ && row_pairs(
                        self@,
                    ).take(k as int).contains(entry_views(out@)[i]),
                forall|kk: int| #![auto]
                    0 <= kk < k && self@[kk].category == category@ ==> entry_views(out@).contains(
                        row_pairs(self@)[kk],
                    ),
            decreases n - k,
        {
            let ghost pairs = row_pairs(self@);
            proof {
                assert(self@[k as int] == rows@[k as int]@);
            }
            if str_eq(rows[k].category.as_str(), category) {
                let e = ListEntry {
                    category: rows[k].category.clone(),
                    name: rows[k].name.clone(),
                };
                proof {
                    assert(e@ == pairs[k as int]);
                    assert forall|i: int| 0 <= i < out@.len() implies out@[i]@ != e@ by {
                        assert(pairs.take(k as int).contains(entry_views(out@)[i]));
                        let kk = choose|kk: int|
                            0 <= kk < k && pairs.take(k as int)[kk] == entry_views(out@)[i];
                        assert(pairs[kk] == entry_views(out@)[i]);
                        assert(self@[kk].name != self@[k as int].name);
                        assert(entry_views(out@)[i] == out@[i]@);
                    }
                }
                let ghost prev_views = entry_views(out@);
                insert_entry(&mut out, e);
                proof {
                    assert forall|i: int| #![auto] 0 <= i < out@.len() implies entry_views(
                        out@,
                    )[i].0 == category@ && pairs.take(k + 1).contains(entry_views(out@)[i]) by {
                        let x = entry_views(out@)[i];
                        assert(entry_views(out@).contains(x));
                        if prev_views.contains(x) {
                            let kk = choose|kk: int|
                                0 <= kk < k && pairs.take(k as int)[kk] == x;
                            assert(pairs.take(k + 1)[kk] == x);
                            let ii = choose|ii: int|
                                0 <= ii < prev_views.len() && prev_views[ii] == x;
                            assert(prev_views[ii].0 == category@);
                        } else {
                            assert(x == e@);
                            assert(pairs.take(k + 1)[k as int] == x);
                        }
                    }
                    assert forall|kk: int| #![auto]
                        0 <= kk < k + 1 && self@[kk].category == category@ implies entry_views(
                        out@,
                    ).contains(pairs[kk]) by {
                        if kk < k {
                            assert(prev_views.contains(pairs[kk]));
                        } else {
                            assert(pairs[kk] == e@);
                        }
                    }
                }
            } else {
                proof {
                    assert forall|i: int| #![auto] 0 <= i < out@.len() implies entry_views(
                        out@,
                    )[i].0 == category@ && pairs.take(k + 1).contains(entry_views(out@)[i]) by {
                        let x = entry_views(out@)[i];
                        let kk = choose|kk: int|
                            0 <= kk < k && pairs.take(k as int)[kk] == x;
                        assert(pairs.take(k + 1)[kk] == x);
                    }
                }
            }
            k += 1;
        }
        proof {
            assert(row_pairs(self@).take(n as int) =~= row_pairs(self@));
        }
        out
    }

    /// Every distinct category value, ascending and deduplicated.
    pub fn distinct_categories(&self) -> (r: Vec<String>)
        ensures
            forall|i: int, j: int| 0 <= i < j < r@.len() ==> lex_lt(r@[i]@, r@[j]@),
            forall|i: int| #![auto]
                0 <= i < r@.len() ==> category_views(self@).contains(r@[i]@),
            forall|k: int| #![auto]
                0 <= k < self@.len() ==> string_views(r@).contains(self@[k].category),
    {
        let rows = self.records();
        let n = rows.len();
        let mut out: Vec<String> = Vec::new();
        let mut k: usize = 0;
        while k < n
            invariant
                k <= n,
                n == rows@.len(),
                rows@.map_values(|c: Credential| c@) == self@,
                forall|i: int, j: int| 0 <= i < j < out@.len() ==> lex_lt(out@[i]@, out@[j]@),
                forall|i: int| #![auto]
                    0 <= i < out@.len() ==> category_views(self@).take(k as int).contains(
                        out@[i]@,
                    ),
                forall|kk: int| #![auto]
                    0 <= kk < k ==> string_views(out@).contains(self@[kk].category),
            decreases n - k,
        {
            let ghost cats = category_views(self@);
            proof {
                assert(self@[k as int] == rows@[k as int]@);
                assert(cats[k as int] == self@[k as int].category);
            }
            let ghost prev_views = string_views(out@);
            insert_category(&mut out, &rows[k].category);
            proof {
                assert forall|i: int| #![auto] 0 <= i < out@.len() implies cats.take(k + 1).contains(
                    out@[i]@,
                ) by {
                    let x = out@[i]@;
                    assert(string_views(out@)[i] == x);
                    assert(string_views(out@).contains(x));
                    if prev_views.contains(x) {
                        let kk = choose|kk: int| 0 <= kk < k && cats.take(k as int)[kk] == x;
                        assert(cats.take(k + 1)[kk] == x);
                    } else {
                        assert(x == cats[k as int]);
                        assert(cats.take(k + 1)[k as int] == x);
                    }
                }
                assert forall|kk: int| #![auto] 0 <= kk < k + 1 implies string_views(out@).contains(
                    self@[kk].category,
                ) by {
                    if kk < k {
                        assert(prev_views.contains(self@[kk].category));
                        let i = choose|i: int|
                            0 <= i < prev_views.len() && prev_views[i] == self@[kk].category;
                        assert(string_views(out@).contains(prev_views[i]));
                    }
                }
            }
            k += 1;
        }
        proof {
            assert(category_views(self@).take(n as int) =~= category_views(self@));
        }
        out
    }
}

/// The category values of the credentials, in store order.
pub open spec fn category_views(rows: Seq<CredentialModel>) -> Seq<Seq<char>> {
    rows.map_values(|c: CredentialModel| c.category)
}

/// Places a category value in the sorted, deduplicated category listing,
/// unless an equal value already stands there.
fn insert_category(out: &mut Vec<String>, category: &String)
    requires
        forall|i: int, j: int|
            0 <= i < j < old(out)@.len() ==> lex_lt(old(out)@[i]@, old(out)@[j]@),
    ensures
        forall|i: int, j: int|
            0 <= i < j < final(out)@.len() ==> lex_lt(final(out)@[i]@, final(out)@[j]@),
        forall|x: Seq<char>| #![auto]
            string_views(final(out)@).contains(x) <==> (string_views(old(out)@).contains(x) || x
                == category@),
{
    let ghost views = string_views(old(out)@);
    let n = out.len();
    let mut p: usize = 0;
    while p < n
        invariant
            p <= n,
            n == out.len(),
            *out == *old(out),
            views == string_views(old(out)@),
            forall|q: int| 0 <= q < p ==> lex_lt(views[q], category@),
        ensures
            p <= n,
            n == out.len(),
            *out == *old(out),
            forall|q: int| 0 <= q < p ==> lex_lt(views[q], category@),
            p < n ==> !lex_lt(views[p as int], category@),
        decreases n - p,
    {
        proof {
            assert(views[p as int] == out@[p as int]@);
        }
        if !str_lt(out[p].as_str(), category.as_str()) {
            break ;
        }
        p += 1;
    }
    if p < n && str_eq(out[p].as_str(), category.as_str()) {
        proof {
            assert(views[p as int] == out@[p as int]@);
            assert forall|x: Seq<char>| #![auto]
                string_views(out@).contains(x) <==> (views.contains(x) || x == category@) by {
                if x == category@ {
                    assert(views[p as int] == x);
                }
            }
        }
        return ;
    }
    proof {
        if p < n {
            assert(views[p as int] == out@[p as int]@);
            if !lex_lt(category@, views[p as int]) {
                lemma_lex_lt_connected(out@[p as int]@, category@);
            }
            assert(lex_lt(category@, views[p as int]));
        }
    }
    let ghost prev = out@;
    out.insert(p, category.clone());
    proof {
        prev.insert_ensures(p as int, *category);
        let nv = string_views(out@);
        assert(out@[p as int]@ == category@);
        assert forall|i: int| 0 <= i < nv.len() implies nv[i] == (if i < p as int {
            views[i]
        } else if i == p as int {
            category@
        } else {
            views[i - 1]
        }) by {
            assert(nv[i] == out@[i]@);
        }
        assert forall|i: int, j: int| 0 <= i < j < out@.len() implies lex_lt(out@[i]@, out@[j]@) by {
            let pi = p as int;
            assert(out@[i]@ == nv[i] && out@[j]@ == nv[j]);
            if i < pi && j == pi {
                assert(lex_lt(views[i], category@));
            } else if i == pi && j > pi {
                if j - 1 > pi {
                    assert(lex_lt(views[pi], views[j - 1]));
                    lemma_lex_lt_transitive(category@, views[pi], views[j - 1]);
                }
            }
        }
        assert forall|x: Seq<char>| #![auto]
            nv.contains(x) <==> (views.contains(x) || x == category@) by {
            if nv.contains(x) {
                let i = choose|i: int| 0 <= i < nv.len() && nv[i] == x;
                if i < p as int {
                    assert(views[i] == x);
                } else if i > p as int {
                    assert(views[i - 1] == x);
                }
            }
            if views.contains(x) {
                let i = choose|i: int| 0 <= i < views.len() && views[i] == x;
                if i < p as int {
                    assert(nv[i] == x);
                } else {
                    assert(nv[i + 1] == x);
                }
            }
            if x == category@ {
                assert(nv[p as int] == x);
            }
        }
    }
}

} // verus!
