//! The laws that tie the store operations together, each proved over the
//! same model the operations' contracts use: a successful insert pushes the
//! record (`Store::insert`), a lookup walks `lookup`, and a delete removes
//! exactly the record with the id (`Store::delete`).

use vstd::prelude::*;
use crate::credential::CredentialModel;
use crate::store::{count_name, has_name, lookup, names_unique, lemma_lookup_has_name};

verus! {

/// Law: a record just inserted is found again by its name, with every field
/// as it was given — the insert/get round trip.
pub proof fn lemma_insert_then_get(rows: Seq<CredentialModel>, c: CredentialModel)
    requires
        !has_name(rows, c.name),
    ensures
        lookup(rows.push(c), c.name) == Some(c),
    decreases rows.len(),
{
    if rows.len() == 0 {
        assert(rows.push(c)[0] == c);
    } else {
        assert(rows[0].name != c.name);
        assert(rows.push(c)[0] == rows[0]);
        assert(rows.push(c).drop_first() =~= rows.drop_first().push(c));
        assert(!has_name(rows.drop_first(), c.name)) by {
            if has_name(rows.drop_first(), c.name) {
                let k = choose|k: int|
                    0 <= k < rows.drop_first().len() && rows.drop_first()[k].name == c.name;
                assert(rows[k + 1].name == c.name);
            }
        }
        lemma_insert_then_get(rows.drop_first(), c);
    }
}

/// A table without the name holds no record counted for it.
proof fn lemma_count_name_absent(rows: Seq<CredentialModel>, name: Seq<char>)
    requires
        !has_name(rows, name),
    ensures
        count_name(rows, name) == 0,
    decreases rows.len(),
{
    reveal(Seq::filter);
    if rows.len() > 0 {
        assert(!has_name(rows.drop_last(), name)) by {
            if has_name(rows.drop_last(), name) {
                let k = choose|k: int|
                    0 <= k < rows.drop_last().len() && rows.drop_last()[k].name == name;
                assert(rows[k].name == name);
            }
        }
        lemma_count_name_absent(rows.drop_last(), name);
        assert(rows.last().name != name);
    }
}

/// Law: when a duplicate insert is rejected, the table it left untouched
/// still holds exactly one record with that name.
pub proof fn lemma_duplicate_leaves_one(rows: Seq<CredentialModel>, name: Seq<char>)
    requires
        names_unique(rows),
        has_name(rows, name),
    ensures
        count_name(rows, name) == 1,
    decreases rows.len(),
{
    reveal(Seq::filter);
    let prefix = rows.drop_last();
    let last = rows.last();
    if last.name == name {
        assert(!has_name(prefix, name)) by {
            if has_name(prefix, name) {
                let k = choose|k: int| 0 <= k < prefix.len() && prefix[k].name == name;
                assert(rows[k].name == rows[rows.len() - 1].name);
            }
        }
        lemma_count_name_absent(prefix, name);
    } else {
        assert(names_unique(prefix)) by {
            assert forall|i: int, j: int|
                0 <= i < j < prefix.len() implies prefix[i].name != prefix[j].name by {
                assert(rows[i].name != rows[j].name);
            }
        }
        assert(has_name(prefix, name)) by {
            let k = choose|k: int| 0 <= k < rows.len() && rows[k].name == name;
            assert(k < rows.len() - 1);
            assert(prefix[k].name == name);
        }
        lemma_duplicate_leaves_one(prefix, name);
    }
}

/// Law: after a record is deleted by its id, a lookup by its former name
/// finds nothing.
pub proof fn lemma_delete_then_get(rows: Seq<CredentialModel>, k: int)
    requires
        names_unique(rows),
        0 <= k < rows.len(),
    ensures
        lookup(rows.remove(k), rows[k].name) is None,
{
    let name = rows[k].name;
    assert(!has_name(rows.remove(k), name)) by {
        rows.remove_ensures(k);
        if has_name(rows.remove(k), name) {
            let j = choose|j: int|
                0 <= j < rows.remove(k).len() && rows.remove(k)[j].name == name;
            if j < k {
                assert(rows[j].name == name);
            } else {
                assert(rows[j + 1].name == name);
            }
        }
    }
    lemma_lookup_has_name(rows.remove(k), name);
}

} // verus!
