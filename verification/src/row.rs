//! Rows of cells: the direct leaves of a group, without the annotation
//! columns that appear only on some courses and would shift the others.

use vstd::prelude::*;
use crate::chunk::{views, Chunk, ChunkView};
use crate::vocab::{
    is_breadth_text, is_perm_dt, is_perm_dt_text, is_qualifier, is_qualifier_text, matches_breadth,
    texts,
};

verus! {

/// Whether a cell is an annotation column: a qualifier, a breadth tag or,
/// where `with_dates` is set, part of a permanent-date annotation.
pub open spec fn is_annotation(s: Seq<char>, with_dates: bool) -> bool {
    is_qualifier_text(s) || is_breadth_text(s) || (with_dates && is_perm_dt_text(s))
}

/// The cells of a row: the texts of the leaves among `children`, in order,
/// without annotation columns. Nested groups hold no cell.
pub open spec fn columns(children: Seq<ChunkView>, with_dates: bool) -> Seq<Seq<char>>
    decreases children.len(),
{
    if children.len() == 0 {
        seq![]
    } else {
        let before = columns(children.drop_last(), with_dates);
        match children.last() {
            ChunkView::Leaf(s) => if is_annotation(s, with_dates) {
                before
            } else {
                before.push(s)
            },
            ChunkView::Group(_) => before,
        }
    }
}

/// The rows of a section: the cells of each group among `chunks`, in order.
/// Leaves at this level are headings and hold no row.
pub open spec fn rows(chunks: Seq<ChunkView>, with_dates: bool) -> Seq<Seq<Seq<char>>>
    decreases chunks.len(),
{
    if chunks.len() == 0 {
        seq![]
    } else {
        let before = rows(chunks.drop_last(), with_dates);
        match chunks.last() {
            ChunkView::Leaf(_) => before,
            ChunkView::Group(children) => before.push(columns(children, with_dates)),
        }
    }
}

/// The texts of each row of a table.
pub open spec fn table(rows: Seq<Vec<&str>>) -> Seq<Seq<Seq<char>>> {
    Seq::new(rows.len(), |i: int| texts(rows[i]@))
}

/// The values of a part of a list are that part of the list's values.
pub proof fn lemma_views_subrange(chunks: Seq<Chunk>, from: int, to: int)
    requires
        0 <= from <= to <= chunks.len(),
    ensures
        views(chunks.subrange(from, to)) == views(chunks).subrange(from, to),
{
    assert(views(chunks.subrange(from, to)) =~= views(chunks).subrange(from, to));
}

/// Whether a cell is an annotation column.
pub fn is_annotation_cell(s: &str, with_dates: bool) -> (r: bool)
    ensures
        r == is_annotation(s@, with_dates),
{
    is_qualifier(s) || matches_breadth(s) || (with_dates && is_perm_dt(s))
}

/// The cells of the row that `children` hold.
pub fn row_columns<'a>(children: &'a [Chunk], with_dates: bool) -> (row: Vec<&'a str>)
    ensures
        texts(row@) == columns(views(children@), with_dates),
{
    let mut row: Vec<&'a str> = Vec::new();
    let mut i: usize = 0;
    proof {
        assert(texts(row@) =~= columns(views(children@).take(0), with_dates));
    }
    while i < children.len()
        invariant
            i <= children.len(),
            texts(row@) == columns(views(children@).take(i as int), with_dates),
        decreases children.len() - i,
    {
        proof {
            let upto = views(children@).take(i + 1);
            assert(upto.drop_last() =~= views(children@).take(i as int));
            assert(upto.last() == children@[i as int]@);
        }
        let ghost before = row@;
        match children[i].get_string() {
            Some(s) => {
                if !is_annotation_cell(s, with_dates) {
                    row.push(s);
                    proof {
                        assert(texts(row@) =~= texts(before).push(s@));
                    }
                }
            },
            None => {},
        }
        i += 1;
    }
    proof {
        assert(views(children@).take(children@.len() as int) =~= views(children@));
    }
    row
}

/// The rows of a section.
pub fn section_rows<'a>(chunks: &'a [Chunk], with_dates: bool) -> (out: Vec<Vec<&'a str>>)
    ensures
        table(out@) == rows(views(chunks@), with_dates),
{
    let mut out: Vec<Vec<&'a str>> = Vec::new();
    let mut i: usize = 0;
    proof {
        assert(table(out@) =~= rows(views(chunks@).take(0), with_dates));
    }
    while i < chunks.len()
        invariant
            i <= chunks.len(),
            table(out@) == rows(views(chunks@).take(i as int), with_dates),
        decreases chunks.len() - i,
    {
        proof {
            let upto = views(chunks@).take(i + 1);
            assert(upto.drop_last() =~= views(chunks@).take(i as int));
            assert(upto.last() == chunks@[i as int]@);
        }
        let ghost before = out@;
        match chunks[i].get_contained() {
            Some(children) => {
                let row = row_columns(children, with_dates);
                out.push(row);
                proof {
                    assert(table(out@) =~= table(before).push(texts(row@)));
                }
            },
            None => {},
        }
        i += 1;
    }
    proof {
        assert(views(chunks@).take(chunks@.len() as int) =~= views(chunks@));
    }
    out
}

} // verus!
