//! One student's record, put together from the sections of the document.

use vstd::prelude::*;
use vstd::slice::slice_subrange;
use crate::chunk::{views, Chunk, ChunkView};
use crate::error::{ExtractError, Mismatch};
use crate::record::{
    semester_views, transfer_views, Plan, PlanView, StudentInfo, StudentInfoView,
};
use crate::row::lemma_views_subrange;
use crate::section::{lemma_located_in_order, locate_sections, located};
use crate::semester::{process_semesters, semesters};
use crate::transfer::{process_transfers, transfers};

verus! {

/// The plan name stands this far before the end of the plan's group.
pub const PLAN_NAME_FROM_END: usize = 2;

/// The plan that a chunk holds: the leaf that stands second to last in a
/// group.
pub open spec fn plan_of(c: ChunkView) -> Result<PlanView, ExtractError> {
    match c {
        ChunkView::Group(children) => if children.len() >= PLAN_NAME_FROM_END
            && children[children.len() - PLAN_NAME_FROM_END] is Leaf {
            Ok(PlanView { name: children[children.len() - PLAN_NAME_FROM_END]->Leaf_0 })
        } else {
            Err(ExtractError::StructuralMismatch(Mismatch::BadPlan))
        },
        ChunkView::Leaf(_) => Err(ExtractError::StructuralMismatch(Mismatch::BadPlan)),
    }
}

/// The record of the student whose document `chunks` is, or the first
/// failure, in this order: the sections, the plan, the transfer section
/// (whose label must be there, before the program label), the semesters.
pub open spec fn student(chunks: Seq<ChunkView>) -> Result<StudentInfoView, ExtractError> {
    match located(chunks) {
        Err(e) => Err(e),
        Ok(at) => match plan_of(chunks[at.plan]) {
            Err(e) => Err(e),
            Ok(plan) => match at.transfer {
                None => Err(ExtractError::OptionalSectionAbsent),
                Some(start) => if start > at.program {
                    Err(ExtractError::StructuralMismatch(Mismatch::TransferAfterProgram))
                } else {
                    match transfers(chunks.subrange(start, at.program)) {
                        Err(e) => Err(e),
                        Ok(transfers) => match semesters(chunks.subrange(at.program, at.end)) {
                            Err(e) => Err(e),
                            Ok(semesters) => Ok(
                                StudentInfoView {
                                    id: chunks[at.student_id]->Leaf_0,
                                    plan,
                                    transfers,
                                    semesters,
                                },
                            ),
                        },
                    }
                },
            },
        },
    }
}

/// What a result of [`process_plan`] stands for.
pub open spec fn plan_view(r: Result<Plan, ExtractError>) -> Result<PlanView, ExtractError> {
    match r {
        Ok(p) => Ok(p@),
        Err(e) => Err(e),
    }
}

/// What a result of [`process_chunks`] stands for.
pub open spec fn student_view(r: Result<StudentInfo, ExtractError>) -> Result<
    StudentInfoView,
    ExtractError,
> {
    match r {
        Ok(s) => Ok(s@),
        Err(e) => Err(e),
    }
}

/// The plan that a chunk holds.
pub fn process_plan(plan_chunk: &Chunk) -> (r: Result<Plan, ExtractError>)
    ensures
        plan_view(r) == plan_of(plan_chunk@),
{
    match plan_chunk.get_contained() {
        Some(children) => {
            if children.len() >= PLAN_NAME_FROM_END {
                match children[children.len() - PLAN_NAME_FROM_END].get_string() {
                    Some(name) => {
                        return Ok(Plan { name: name.to_owned() });
                    },
                    None => {},
                }
            }
        },
        None => {},
    }
    Err(ExtractError::StructuralMismatch(Mismatch::BadPlan))
}

/// The record of the student whose combined document `chunks` is.
pub fn process_chunks(chunks: &[Chunk]) -> (r: Result<StudentInfo, ExtractError>)
    ensures
        student_view(r) == student(views(chunks@)),
        r matches Ok(s) ==> s@.wf(),
{
    let at = match locate_sections(chunks) {
        Ok(at) => at,
        Err(e) => {
            return Err(e);
        },
    };
    proof {
        lemma_located_in_order(views(chunks@));
    }
    let id = match chunks[at.student_id].get_string() {
        Some(id) => id.to_owned(),
        None => {
            return Err(ExtractError::StructuralMismatch(Mismatch::BadStudentId));
        },
    };
    let plan = match process_plan(&chunks[at.plan]) {
        Ok(plan) => plan,
        Err(e) => {
            return Err(e);
        },
    };
    let start = match at.transfer {
        Some(start) => start,
        None => {
            return Err(ExtractError::OptionalSectionAbsent);
        },
    };
    if start > at.program {
        return Err(ExtractError::StructuralMismatch(Mismatch::TransferAfterProgram));
    }
    proof {
        lemma_views_subrange(chunks@, start as int, at.program as int);
        lemma_views_subrange(chunks@, at.program as int, at.end as int);
    }
    let transfers = match process_transfers(slice_subrange(chunks, start, at.program)) {
        Ok(transfers) => transfers,
        Err(e) => {
            return Err(e);
        },
    };
    let semesters = match process_semesters(slice_subrange(chunks, at.program, at.end)) {
        Ok(semesters) => semesters,
        Err(e) => {
            return Err(e);
        },
    };
    proof {
        assert forall|i: int| 0 <= i < transfers@.len() implies (#[trigger] transfer_views(
            transfers@,
        )[i]).wf() by {
            assert(transfers@[i]@.wf());
        }
        assert forall|i: int| 0 <= i < semesters@.len() implies (#[trigger] semester_views(
            semesters@,
        )[i]).wf() by {
            assert(semesters@[i]@.wf());
        }
    }
    Ok(StudentInfo { id, plan, transfers, semesters })
}

} // verus!
