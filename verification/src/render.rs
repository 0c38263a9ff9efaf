//! The grouped rendering of a sorted listing: one category header at the
//! start of each run of equal categories, then the names of the run. The
//! grouping is a single pass over the sort order, not a grouping structure.

use vstd::prelude::*;
use crate::listing::{entry_views, ListEntry};
use crate::text::str_eq;

verus! {

/// One output line of a grouped listing.
pub enum ListLine {
    /// Starts the group of one category; an empty category is a group of its
    /// own, with a blank label.
    Header(String),
    /// One credential name within the current group.
    Entry(String),
}

/// The mathematical content of an output line.
pub enum LineModel {
    Header(Seq<char>),
    Entry(Seq<char>),
}

impl View for ListLine {
    type V = LineModel;

    open spec fn view(&self) -> LineModel {
        match self {
            ListLine::Header(s) => LineModel::Header(s@),
            ListLine::Entry(s) => LineModel::Entry(s@),
        }
    }
}

/// The lines rendered for `(category, name)` rows walked in order, a header
/// standing before each row whose category differs from the one before it
/// (`prev` is the category of the row before the first, if any).
pub open spec fn grouped(rows: Seq<(Seq<char>, Seq<char>)>, prev: Option<Seq<char>>) -> Seq<
    LineModel,
>
    decreases rows.len(),
{
    if rows.len() == 0 {
        Seq::empty()
    } else {
        let head: Seq<LineModel> = if prev == Some(rows[0].0) {
            seq![LineModel::Entry(rows[0].1)]
        } else {
            seq![LineModel::Header(rows[0].0), LineModel::Entry(rows[0].1)]
        };
        head + grouped(rows.drop_first(), Some(rows[0].0))
    }
}

/// The category the next row would be compared against after these rows.
pub open spec fn last_category(rows: Seq<(Seq<char>, Seq<char>)>, prev: Option<Seq<char>>) -> Option<
    Seq<char>,
> {
    if rows.len() == 0 {
        prev
    } else {
        Some(rows.last().0)
    }
}

/// Appending one row to a listing extends its rendering by that row's lines:
/// its name alone within a running group, a header first otherwise.
proof fn lemma_grouped_push(
    rows: Seq<(Seq<char>, Seq<char>)>,
    prev: Option<Seq<char>>,
    p: (Seq<char>, Seq<char>),
)
    ensures
        grouped(rows.push(p), prev) == grouped(rows, prev) + (if last_category(rows, prev) == Some(
            p.0,
        ) {
            seq![LineModel::Entry(p.1)]
        } else {
            seq![LineModel::Header(p.0), LineModel::Entry(p.1)]
        }),
    decreases rows.len(),
{
    let lines: Seq<LineModel> = if last_category(rows, prev) == Some(p.0) {
        seq![LineModel::Entry(p.1)]
    } else {
        seq![LineModel::Header(p.0), LineModel::Entry(p.1)]
    };
    if rows.len() == 0 {
        assert(rows.push(p)[0] == p);
        assert(rows.push(p).drop_first().len() == 0);
        assert(grouped(rows.push(p).drop_first(), Some(p.0)) == Seq::<LineModel>::empty());
        assert(grouped(rows.push(p), prev) =~= lines);
        assert(grouped(rows, prev) + lines =~= lines);
    } else {
        assert(rows.push(p)[0] == rows[0]);
        assert(rows.push(p).drop_first() =~= rows.drop_first().push(p));
        lemma_grouped_push(rows.drop_first(), Some(rows[0].0), p);
        if rows.len() >= 2 {
            assert(rows.drop_first().last() == rows.last()) by {
                assert(rows.drop_first()[rows.len() - 2] == rows[rows.len() - 1]);
            }
        }
        assert(last_category(rows.drop_first(), Some(rows[0].0)) == last_category(rows, prev));
        let head: Seq<LineModel> = if prev == Some(rows[0].0) {
            seq![LineModel::Entry(rows[0].1)]
        } else {
            seq![LineModel::Header(rows[0].0), LineModel::Entry(rows[0].1)]
        };
        assert(grouped(rows.push(p), prev) == head + (grouped(rows.drop_first(), Some(rows[0].0))
            + lines));
        assert(head + (grouped(rows.drop_first(), Some(rows[0].0)) + lines) =~= (head + grouped(
            rows.drop_first(),
            Some(rows[0].0),
        )) + lines);
    }
}

/// Renders sorted rows as the grouped output: a header opens every new
/// category run, every row contributes its name.
pub fn render_grouped(entries: &Vec<ListEntry>) -> (r: Vec<ListLine>)
    ensures
        r@.map_values(|l: ListLine| l@) == grouped(entry_views(entries@), None::<Seq<char>>),
{
    let n = entries.len();
    let mut out: Vec<ListLine> = Vec::new();
    let mut i: usize = 0;
    while i < n
        invariant
            i <= n,
            n == entries@.len(),
            out@.map_values(|l: ListLine| l@) == grouped(
                entry_views(entries@).take(i as int),
                None::<Seq<char>>,
            ),
        decreases n - i,
    {
        let ghost vs = entry_views(entries@);
        let ghost before = out@;
        let new_group = if i == 0 {
            true
        } else {
            !str_eq(entries[i - 1].category.as_str(), entries[i].category.as_str())
        };
        if new_group {
            out.push(ListLine::Header(entries[i].category.clone()));
        }
        out.push(ListLine::Entry(entries[i].name.clone()));
        proof {
            assert(vs[i as int] == entries@[i as int]@);
            if i > 0 {
                assert(vs[i - 1] == entries@[i - 1]@);
                assert(vs.take(i as int).last() == vs[i - 1]);
            }
            assert(vs.take(i + 1) =~= vs.take(i as int).push(vs[i as int]));
            lemma_grouped_push(vs.take(i as int), None::<Seq<char>>, vs[i as int]);
            assert(new_group <==> last_category(vs.take(i as int), None::<Seq<char>>) != Some(
                vs[i as int].0,
            ));
            assert(out@.map_values(|l: ListLine| l@) =~= grouped(vs.take(i + 1), None::<Seq<char>>));
        }
        i += 1;
    }
    proof {
        assert(entry_views(entries@).take(n as int) =~= entry_views(entries@));
    }
    out
}

} // verus!
