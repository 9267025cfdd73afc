use transcript::chunk::Chunk;
use transcript::error::{ExtractError, Mismatch};
use transcript::section::{find_index, is_leaf_with, locate_sections, Sections};

fn mark(text: &str) -> Chunk {
    Chunk::String(text.to_string())
}

fn filler() -> Chunk {
    Chunk::Chunks(vec![mark("x"), mark("y")])
}

const END: &str = "TOTAL UNITS PASSED BY ACADEMIC GROUP";

fn document() -> Vec<Chunk> {
    vec![
        mark("Name"),
        mark("Plan"),
        filler(),
        mark("TRANSFER COURSES"),
        filler(),
        mark("Program:"),
        filler(),
        mark(END),
        mark("301234567"),
        mark("Page 2"),
        mark("2024-01-01"),
    ]
}

#[test]
fn leaf_with_text_is_structural() {
    assert!(is_leaf_with(&mark("Plan"), "Plan"));
    assert!(!is_leaf_with(&mark("Plan "), "Plan"));
    assert!(!is_leaf_with(&Chunk::Chunks(vec![mark("Plan")]), "Plan"));
}

#[test]
fn find_index_gives_the_first_from_start() {
    let chunks = vec![mark("a"), mark("b"), mark("a"), Chunk::Chunks(vec![mark("c")])];
    assert_eq!(find_index(&chunks, 0, "a"), Some(0));
    assert_eq!(find_index(&chunks, 1, "a"), Some(2));
    assert_eq!(find_index(&chunks, 3, "a"), None);
    assert_eq!(find_index(&chunks, 4, "a"), None);
    assert_eq!(find_index(&chunks, 7, "a"), None);
    assert_eq!(find_index(&chunks, 0, "c"), None);
    assert_eq!(find_index(&[], 0, "a"), None);
}

#[test]
fn sections_of_a_full_document() {
    assert_eq!(
        locate_sections(&document()),
        Ok(Sections { plan: 2, transfer: Some(3), program: 5, end: 7, student_id: 8 })
    );
}

#[test]
fn missing_transfer_marker_is_not_fatal_here() {
    let mut chunks = document();
    chunks.remove(3);
    assert_eq!(
        locate_sections(&chunks),
        Ok(Sections { plan: 2, transfer: None, program: 4, end: 6, student_id: 7 })
    );
}

#[test]
fn transfer_marker_before_the_plan_does_not_count() {
    let mut chunks = document();
    chunks.remove(3);
    chunks.insert(0, mark("TRANSFER COURSES"));
    assert_eq!(
        locate_sections(&chunks),
        Ok(Sections { plan: 3, transfer: None, program: 5, end: 7, student_id: 8 })
    );
}

#[test]
fn transfer_marker_after_the_program_is_reported_where_it_is() {
    let mut chunks = document();
    chunks.swap(3, 5);
    assert_eq!(
        locate_sections(&chunks),
        Ok(Sections { plan: 2, transfer: Some(5), program: 3, end: 7, student_id: 8 })
    );
}

#[test]
fn first_plan_marker_counts() {
    let mut chunks = document();
    chunks.insert(4, mark("Plan"));
    assert_eq!(locate_sections(&chunks).map(|s| s.plan), Ok(2));
}

#[test]
fn missing_plan_marker() {
    let mut chunks = document();
    chunks.remove(1);
    assert_eq!(
        locate_sections(&chunks),
        Err(ExtractError::StructuralMismatch(Mismatch::PlanMarkerNotFound))
    );
    assert_eq!(
        locate_sections(&[]),
        Err(ExtractError::StructuralMismatch(Mismatch::PlanMarkerNotFound))
    );
}

#[test]
fn missing_program_marker() {
    let mut chunks = document();
    chunks.remove(5);
    assert_eq!(
        locate_sections(&chunks),
        Err(ExtractError::StructuralMismatch(Mismatch::ProgramMarkerNotFound))
    );
    // a program marker that stands before the plan does not count
    chunks.insert(0, mark("Program:"));
    assert_eq!(
        locate_sections(&chunks),
        Err(ExtractError::StructuralMismatch(Mismatch::ProgramMarkerNotFound))
    );
    assert_eq!(
        locate_sections(&[mark("Plan")]),
        Err(ExtractError::StructuralMismatch(Mismatch::ProgramMarkerNotFound))
    );
}

#[test]
fn missing_end_marker() {
    let mut chunks = document();
    chunks.remove(7);
    assert_eq!(
        locate_sections(&chunks),
        Err(ExtractError::StructuralMismatch(Mismatch::EndMarkerNotFound))
    );
    // an end marker that stands before the program marker does not count
    chunks.insert(3, mark(END));
    assert_eq!(
        locate_sections(&chunks),
        Err(ExtractError::StructuralMismatch(Mismatch::EndMarkerNotFound))
    );
}

#[test]
fn student_id_must_be_a_leaf() {
    let mut chunks = document();
    chunks[8] = filler();
    assert_eq!(
        locate_sections(&chunks),
        Err(ExtractError::StructuralMismatch(Mismatch::BadStudentId))
    );
}

#[test]
fn smallest_document_has_its_markers_at_the_end() {
    let chunks = vec![mark("Plan"), mark("Program:"), mark(END)];
    assert_eq!(
        locate_sections(&chunks),
        Ok(Sections { plan: 1, transfer: None, program: 1, end: 2, student_id: 0 })
    );
}
