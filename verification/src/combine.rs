//! One document out of its pages: the footer that every page but the last
//! repeats is cut off, and what is left is put end to end.

use vstd::prelude::*;
use crate::chunk::{page_views, views, Chunk, ChunkView};
use crate::error::{ExtractError, Mismatch};
use crate::section::is_leaf_with;

verus! {

/// The footer begins this far before the end of every page but the last: it
/// is the banner's block and the six blocks after it.
pub const FOOTER_FROM_END: usize = 7;

/// The text that begins the footer.
pub open spec fn footer_banner() -> Seq<char> {
    "S I M O N   F R A S E R   U N I V E R S I T Y"@
}

/// Whether a chunk begins a footer: a group whose first element is the
/// banner.
pub open spec fn is_footer_start(c: ChunkView) -> bool {
    c matches ChunkView::Group(children) && children.len() > 0 && children[0] == ChunkView::Leaf(
        footer_banner(),
    )
}

/// Whether a page ends in a footer.
pub open spec fn has_footer(page: Seq<ChunkView>) -> bool {
    page.len() >= FOOTER_FROM_END && is_footer_start(page[page.len() - FOOTER_FROM_END])
}

/// A page without its footer.
pub open spec fn body(page: Seq<ChunkView>) -> Seq<ChunkView> {
    page.take(page.len() - FOOTER_FROM_END)
}

/// The bodies of the first `count` pages, end to end.
pub open spec fn bodies(pages: Seq<Seq<ChunkView>>, count: int) -> Seq<ChunkView>
    decreases count,
{
    if count <= 0 {
        seq![]
    } else {
        bodies(pages, count - 1) + body(pages[count - 1])
    }
}

/// The document that the pages make: the bodies of all pages but the last,
/// then the last page whole. Every page but the last must end in a footer,
/// and there must be a page.
pub open spec fn combined(pages: Seq<Seq<ChunkView>>) -> Result<Seq<ChunkView>, ExtractError> {
    if pages.len() == 0 {
        Err(ExtractError::StructuralMismatch(Mismatch::NoPages))
    } else if forall|i: int| 0 <= i < pages.len() - 1 ==> has_footer(#[trigger] pages[i]) {
        Ok(bodies(pages, pages.len() - 1) + pages.last())
    } else {
        Err(ExtractError::StructuralMismatch(Mismatch::FooterNotFound))
    }
}

/// What a result of [`combine_page_chunks`] stands for.
pub open spec fn document_view(r: Result<Vec<Chunk>, ExtractError>) -> Result<
    Seq<ChunkView>,
    ExtractError,
> {
    match r {
        Ok(v) => Ok(views(v@)),
        Err(e) => Err(e),
    }
}

/// Whether a chunk begins a footer.
pub fn is_footer(chunk: &Chunk) -> (r: bool)
    ensures
        r == is_footer_start(chunk@),
{
    match chunk.get_contained() {
        Some(children) => children.len() > 0 && is_leaf_with(
            &children[0],
            "S I M O N   F R A S E R   U N I V E R S I T Y",
        ),
        None => false,
    }
}

/// The document that the pages make.
pub fn combine_page_chunks(page_chunks: Vec<Vec<Chunk>>) -> (r: Result<Vec<Chunk>, ExtractError>)
    ensures
        document_view(r) == combined(page_views(page_chunks@)),
{
    let num_pages = page_chunks.len();
    if num_pages == 0 {
        return Err(ExtractError::StructuralMismatch(Mismatch::NoPages));
    }
    let ghost pages = page_chunks@;
    let mut out: Vec<Chunk> = Vec::new();
    let mut number: usize = 0;
    proof {
        assert(views(out@) =~= bodies(page_views(pages), 0));
    }
    for page in it: page_chunks
        invariant
            it.seq() == pages,
            num_pages == pages.len(),
            number == it.index(),
            forall|i: int|
                0 <= i < number && i < num_pages - 1 ==> has_footer(
                    #[trigger] page_views(pages)[i],
                ),
            number < num_pages ==> views(out@) == bodies(page_views(pages), number as int),
            number == num_pages ==> views(out@) == bodies(page_views(pages), num_pages - 1)
                + page_views(pages).last(),
    {
        let mut page = page;
        let ghost before = out@;
        assert(views(page@) == page_views(pages)[number as int]);
        if number < num_pages - 1 {
            if page.len() < FOOTER_FROM_END || !is_footer(&page[page.len() - FOOTER_FROM_END]) {
                return Err(ExtractError::StructuralMismatch(Mismatch::FooterNotFound));
            }
            page.truncate(page.len() - FOOTER_FROM_END);
        }
        let ghost kept = page@;
        out.append(&mut page);
        proof {
            assert(views(out@) =~= views(before) + views(kept));
            if number < num_pages - 1 {
                assert(views(kept) =~= body(page_views(pages)[number as int]));
            }
        }
        number += 1;
    }
    Ok(out)
}

/// Two pages make the body of the first, then the second whole: exactly the
/// footer of the first page and what follows it on that page is dropped.
pub proof fn lemma_two_pages_combined(first: Seq<ChunkView>, second: Seq<ChunkView>)
    requires
        has_footer(first),
    ensures
        combined(seq![first, second]) == Ok::<Seq<ChunkView>, ExtractError>(
            first.take(first.len() - FOOTER_FROM_END) + second,
        ),
{
    let pages = seq![first, second];
    assert(pages[0] == first);
    reveal_with_fuel(bodies, 2);
    assert(bodies(pages, 1) =~= body(first));
}

/// A page before the last that does not end in a footer fails the document.
pub proof fn lemma_missing_footer_is_fatal(pages: Seq<Seq<ChunkView>>, at: int)
    requires
        0 <= at < pages.len() - 1,
        !has_footer(pages[at]),
    ensures
        combined(pages) == Err::<Seq<ChunkView>, ExtractError>(
            ExtractError::StructuralMismatch(Mismatch::FooterNotFound),
        ),
{
}

/// The last page is never cut: a single page is the document.
pub proof fn lemma_single_page_combined(page: Seq<ChunkView>)
    ensures
        combined(seq![page]) == Ok::<Seq<ChunkView>, ExtractError>(page),
{
    let pages = seq![page];
    assert(bodies(pages, 0) + page =~= page);
}

} // verus!
