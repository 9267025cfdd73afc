//! Where the sections of a combined document lie: found by the marker leaves
//! that introduce them.

use vstd::prelude::*;
use crate::chunk::{views, Chunk, ChunkView};
use crate::error::{ExtractError, Mismatch};
use crate::text::text_eq;

verus! {

/// The student identifier stands this far before the end of the document.
pub const STUDENT_ID_FROM_END: usize = 3;

/// The positions of the sections of one document.
#[derive(Clone, Copy, Debug, PartialEq, Eq, Hash, Structural)]
pub struct Sections {
    /// The element that holds the plan: the one after the plan label.
    pub plan: usize,
    /// The transfer label, where the document has one after the plan. The
    /// transfer section reaches from it to the program label.
    pub transfer: Option<usize>,
    /// The program label; the program section begins with it.
    pub program: usize,
    /// The end-of-record label; the program section ends before it.
    pub end: usize,
    /// The element that holds the student identifier.
    pub student_id: usize,
}

/// The mathematical value of [`Sections`].
pub struct Layout {
    pub plan: int,
    pub transfer: Option<int>,
    pub program: int,
    pub end: int,
    pub student_id: int,
}

impl View for Sections {
    type V = Layout;

    open spec fn view(&self) -> Layout {
        Layout {
            plan: self.plan as int,
            transfer: match self.transfer {
                Some(t) => Some(t as int),
                None => None,
            },
            program: self.program as int,
            end: self.end as int,
            student_id: self.student_id as int,
        }
    }
}

/// What a result of [`locate_sections`] stands for.
pub open spec fn layout_view(r: Result<Sections, ExtractError>) -> Result<Layout, ExtractError> {
    match r {
        Ok(s) => Ok(s@),
        Err(e) => Err(e),
    }
}

/// The label before the plan.
pub open spec fn plan_marker() -> Seq<char> {
    "Plan"@
}

/// The label that begins the transfer section.
pub open spec fn transfer_marker() -> Seq<char> {
    "TRANSFER COURSES"@
}

/// The label that begins the program section.
pub open spec fn program_marker() -> Seq<char> {
    "Program:"@
}

/// The label that ends the program section.
pub open spec fn end_marker() -> Seq<char> {
    "TOTAL UNITS PASSED BY ACADEMIC GROUP"@
}

/// The first index at or after `from` that holds the leaf `marker`; the
/// length of `chunks` if none does.
pub open spec fn first_leaf(chunks: Seq<ChunkView>, from: int, marker: Seq<char>) -> int
    decreases chunks.len() - from,
{
    if 0 <= from < chunks.len() && chunks[from] != ChunkView::Leaf(marker) {
        first_leaf(chunks, from + 1, marker)
    } else {
        from
    }
}

/// The sections of a document, or the first assumption that it fails: the
/// plan label, then the program label after the plan, then the end label
/// from the program label on, then a leaf three before the end.
pub open spec fn located(chunks: Seq<ChunkView>) -> Result<Layout, ExtractError> {
    let len = chunks.len() as int;
    let plan = first_leaf(chunks, 0, plan_marker()) + 1;
    let transfer = first_leaf(chunks, plan, transfer_marker());
    let program = first_leaf(chunks, plan, program_marker());
    let end = first_leaf(chunks, program, end_marker());
    if plan > len {
        Err(ExtractError::StructuralMismatch(Mismatch::PlanMarkerNotFound))
    } else if program >= len {
        Err(ExtractError::StructuralMismatch(Mismatch::ProgramMarkerNotFound))
    } else if end >= len {
        Err(ExtractError::StructuralMismatch(Mismatch::EndMarkerNotFound))
    } else if !(chunks[len - STUDENT_ID_FROM_END] is Leaf) {
        Err(ExtractError::StructuralMismatch(Mismatch::BadStudentId))
    } else {
        Ok(
            Layout {
                plan,
                transfer: if transfer < len {
                    Some(transfer)
                } else {
                    None
                },
                program,
                end,
                student_id: len - STUDENT_ID_FROM_END,
            },
        )
    }
}

/// `first_leaf` stays within the list, stops at the marker, and passes
/// nothing that holds it.
pub proof fn lemma_first_leaf(chunks: Seq<ChunkView>, from: int, marker: Seq<char>)
    requires
        0 <= from <= chunks.len(),
    ensures
        from <= first_leaf(chunks, from, marker) <= chunks.len(),
        first_leaf(chunks, from, marker) < chunks.len() ==> chunks[first_leaf(
            chunks,
            from,
            marker,
        )] == ChunkView::Leaf(marker),
        forall|k: int|
            from <= k < first_leaf(chunks, from, marker) ==> chunks[k] != ChunkView::Leaf(marker),
    decreases chunks.len() - from,
{
    if from < chunks.len() && chunks[from] != ChunkView::Leaf(marker) {
        lemma_first_leaf(chunks, from + 1, marker);
    }
}

/// The sections that [`located`] finds lie in this order, inside the
/// document: plan, program label, end label; the student identifier is a
/// leaf; a transfer label stands at or after the plan.
pub proof fn lemma_located_in_order(chunks: Seq<ChunkView>)
    requires
        located(chunks) is Ok,
    ensures
        ({
            let s = located(chunks).unwrap();
            &&& 0 < s.plan <= s.program < s.end < chunks.len()
            &&& chunks[s.plan - 1] == ChunkView::Leaf(plan_marker())
            &&& chunks[s.program] == ChunkView::Leaf(program_marker())
            &&& chunks[s.end] == ChunkView::Leaf(end_marker())
            &&& s.student_id + STUDENT_ID_FROM_END == chunks.len()
            &&& chunks[s.student_id] is Leaf
            &&& s.transfer matches Some(t) ==> s.plan <= t < chunks.len() && chunks[t]
                == ChunkView::Leaf(transfer_marker())
        }),
{
    let plan = first_leaf(chunks, 0, plan_marker()) + 1;
    lemma_first_leaf(chunks, 0, plan_marker());
    lemma_first_leaf(chunks, plan, transfer_marker());
    lemma_first_leaf(chunks, plan, program_marker());
    let program = first_leaf(chunks, plan, program_marker());
    lemma_first_leaf(chunks, program, end_marker());
    lemma_markers_differ();
}

/// The program label and the end label are different texts.
pub proof fn lemma_markers_differ()
    ensures
        program_marker() != end_marker(),
{
    reveal_strlit("Program:");
    reveal_strlit("TOTAL UNITS PASSED BY ACADEMIC GROUP");
    assert(program_marker().len() == 8);
    assert(end_marker().len() == 36);
}

/// Whether a chunk is the leaf with the given text.
pub fn is_leaf_with(chunk: &Chunk, text: &str) -> (r: bool)
    ensures
        r == (chunk@ == ChunkView::Leaf(text@)),
{
    match chunk.get_string() {
        Some(s) => text_eq(s, text),
        None => false,
    }
}

/// The first index at or after `from` that holds the leaf `marker`.
pub fn find_index(chunks: &[Chunk], from: usize, marker: &str) -> (r: Option<usize>)
    ensures
        match r {
            Some(at) => at == first_leaf(views(chunks@), from as int, marker@) && from <= at
                < chunks.len(),
            None => first_leaf(views(chunks@), from as int, marker@) >= chunks.len(),
        },
{
    let mut at: usize = from;
    while at < chunks.len()
        invariant
            from <= at,
            first_leaf(views(chunks@), from as int, marker@) == first_leaf(
                views(chunks@),
                at as int,
                marker@,
            ),
        decreases chunks.len() - at,
    {
        if is_leaf_with(&chunks[at], marker) {
            return Some(at);
        }
        at += 1;
    }
    None
}

/// The sections of a combined document.
pub fn locate_sections(chunks: &[Chunk]) -> (r: Result<Sections, ExtractError>)
    ensures
        layout_view(r) == located(views(chunks@)),
{
    let plan = match find_index(chunks, 0, "Plan") {
        Some(at) => at + 1,
        None => {
            return Err(ExtractError::StructuralMismatch(Mismatch::PlanMarkerNotFound));
        },
    };
    let transfer = find_index(chunks, plan, "TRANSFER COURSES");
    let program = match find_index(chunks, plan, "Program:") {
        Some(at) => at,
        None => {
            return Err(ExtractError::StructuralMismatch(Mismatch::ProgramMarkerNotFound));
        },
    };
    let end = match find_index(chunks, program, "TOTAL UNITS PASSED BY ACADEMIC GROUP") {
        Some(at) => at,
        None => {
            return Err(ExtractError::StructuralMismatch(Mismatch::EndMarkerNotFound));
        },
    };
    proof {
        lemma_first_leaf(views(chunks@), 0, plan_marker());
        lemma_first_leaf(views(chunks@), plan as int, program_marker());
        lemma_first_leaf(views(chunks@), program as int, end_marker());
        lemma_markers_differ();
    }
    let student_id = chunks.len() - STUDENT_ID_FROM_END;
    if !chunks[student_id].get_string().is_some() {
        return Err(ExtractError::StructuralMismatch(Mismatch::BadStudentId));
    }
    Ok(Sections { plan, transfer, program, end, student_id })
}

} // verus!
