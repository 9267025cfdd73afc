//! From the pages of a transcript to the record of its student.

use vstd::prelude::*;
use crate::chunk::{page_views, simplified_all, views, Chunk, ChunkView};
use crate::combine::{combine_page_chunks, combined};
use crate::error::ExtractError;
use crate::grouper::{extract_page_chunks, page_list_views, pages_chunks, Page, PageView};
use crate::record::{StudentInfo, StudentInfoView};
use crate::student::{process_chunks, student, student_view};

verus! {

/// The chunks of each page, each in compact form.
pub open spec fn simplified_pages(pages: Seq<Seq<ChunkView>>) -> Seq<Seq<ChunkView>> {
    Seq::new(pages.len(), |i: int| simplified_all(pages[i]))
}

/// The record of the student whose transcript the pages are: the chunks of
/// every page, each in compact form, make one document, and the document
/// yields the record. The first stage that fails decides the failure.
pub open spec fn student_of(pages: Seq<PageView>) -> Result<StudentInfoView, ExtractError> {
    match pages_chunks(pages) {
        Err(e) => Err(e),
        Ok(raw) => match combined(simplified_pages(raw)) {
            Err(e) => Err(e),
            Ok(document) => student(document),
        },
    }
}

/// The chunks of a page, each in compact form.
pub fn simplify_page(page: Vec<Chunk>) -> (r: Vec<Chunk>)
    ensures
        views(r@) == simplified_all(views(page@)),
{
    let ghost chunks = page@;
    let mut out: Vec<Chunk> = Vec::new();
    proof {
        assert(views(out@) =~= simplified_all(views(chunks)).take(0));
    }
    for chunk in it: page
        invariant
            it.seq() == chunks,
            views(out@) == simplified_all(views(chunks)).take(it.index() as int),
    {
        let ghost before = out@;
        let compact = chunk.simplify();
        out.push(compact);
        proof {
            assert(views(out@) =~= views(before).push(compact@));
            assert(views(out@) =~= simplified_all(views(chunks)).take(it.index() + 1));
        }
    }
    proof {
        assert(simplified_all(views(chunks)).take(chunks.len() as int) =~= simplified_all(
            views(chunks),
        ));
    }
    out
}

/// The chunks of each page, each in compact form.
pub fn simplify_pages(pages: Vec<Vec<Chunk>>) -> (r: Vec<Vec<Chunk>>)
    ensures
        page_views(r@) == simplified_pages(page_views(pages@)),
{
    let ghost all = pages@;
    let mut out: Vec<Vec<Chunk>> = Vec::new();
    proof {
        assert(page_views(out@) =~= simplified_pages(page_views(all)).take(0));
    }
    for page in it: pages
        invariant
            it.seq() == all,
            page_views(out@) == simplified_pages(page_views(all)).take(it.index() as int),
    {
        let ghost before = out@;
        let compact = simplify_page(page);
        out.push(compact);
        proof {
            assert(page_views(out@) =~= page_views(before).push(views(compact@)));
            assert(page_views(out@) =~= simplified_pages(page_views(all)).take(it.index() + 1));
        }
    }
    proof {
        assert(simplified_pages(page_views(all)).take(all.len() as int) =~= simplified_pages(
            page_views(all),
        ));
    }
    out
}

/// The record of the student whose transcript the pages are.
pub fn extract_student(pages: &[Page]) -> (r: Result<StudentInfo, ExtractError>)
    ensures
        student_view(r) == student_of(page_list_views(pages@)),
        r matches Ok(s) ==> s@.wf(),
{
    let raw = match extract_page_chunks(pages) {
        Ok(raw) => raw,
        Err(e) => {
            return Err(e);
        },
    };
    let document = match combine_page_chunks(simplify_pages(raw)) {
        Ok(document) => document,
        Err(e) => {
            return Err(e);
        },
    };
    process_chunks(document.as_slice())
}

} // verus!
