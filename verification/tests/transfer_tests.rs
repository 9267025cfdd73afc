use transcript::chunk::Chunk;
use transcript::error::{ExtractError, Mismatch};
use transcript::record::{Course, Transfer};
use transcript::row::{is_annotation_cell, row_columns, section_rows};
use transcript::transfer::{
    add_spacer, build_transfers, merge_page_breaks, process_transfers, transfer_from,
};

fn t_leaf(text: &str) -> Chunk {
    Chunk::String(text.to_string())
}

fn t_row(cells: &[&str]) -> Chunk {
    Chunk::Chunks(cells.iter().map(|c| t_leaf(c)).collect())
}

fn transfer(subject: &str, id: &str, grade: &str, school: Option<&str>) -> Transfer {
    Transfer {
        course: Course {
            subject: subject.to_string(),
            id: id.to_string(),
            grade: grade.to_string(),
        },
        school: school.map(|s| s.to_string()),
    }
}

const SCHOOL_ROW: [&str; 10] =
    ["", "Acme College", "c2", "c3", "c4", "c5", "c6", "c7", "c8", "c9"];

#[test]
fn annotation_cells() {
    assert!(is_annotation_cell("W", false));
    assert!(is_annotation_cell("B-Hum", false));
    assert!(!is_annotation_cell("Perm.Dt:", false));
    assert!(is_annotation_cell("Perm.Dt:", true));
    assert!(is_annotation_cell("2020-01-02", true));
    assert!(!is_annotation_cell("2020-01-02", false));
    assert!(!is_annotation_cell("CMPT", true));
}

#[test]
fn row_columns_keep_direct_leaves_without_annotations() {
    let children = vec![
        t_leaf(""),
        t_leaf("CMPT"),
        t_leaf("W"),
        Chunk::Chunks(vec![t_leaf("nested")]),
        t_leaf("Q/B-Sci"),
        t_leaf("120"),
        t_leaf("2021-09-01"),
    ];
    assert_eq!(row_columns(&children, false), vec!["", "CMPT", "120", "2021-09-01"]);
    assert_eq!(row_columns(&children, true), vec!["", "CMPT", "120"]);
    assert_eq!(row_columns(&[], true), Vec::<&str>::new());
}

#[test]
fn section_rows_skip_top_level_leaves() {
    let chunks = vec![
        t_leaf("TRANSFER COURSES"),
        t_row(&["a", "Q", "b"]),
        t_leaf("heading"),
        t_row(&[]),
        t_row(&["Online"]),
        t_row(&["c"]),
    ];
    assert_eq!(
        section_rows(&chunks, false),
        vec![vec!["a", "b"], vec![], vec![], vec!["c"]]
    );
    assert_eq!(section_rows(&[t_leaf("x")], false), Vec::<Vec<&str>>::new());
}

#[test]
fn spacer_goes_before_the_first_row_only() {
    let rows = vec![vec!["a", "b"], vec!["c"], vec![]];
    assert_eq!(add_spacer(&rows), vec![vec!["", "a", "b"], vec!["c"], vec![]]);
    assert_eq!(add_spacer(&vec![vec![]]), vec![vec![""]]);
    assert_eq!(add_spacer(&vec![]), Vec::<Vec<&str>>::new());
}

#[test]
fn page_break_merges_a_row_with_the_next() {
    let rows = vec![
        vec!["a", "b", "SFUSR0042"],
        vec!["c", "d"],
        vec!["e"],
    ];
    let merged = merge_page_breaks(&rows).unwrap();
    assert_eq!(merged, vec![vec!["a", "b", "c", "d"], vec!["e"]]);
    assert_eq!(merged.len(), rows.len() - 1);
}

#[test]
fn merge_leaves_a_table_without_breaks_alone() {
    let rows = vec![vec!["a"], vec!["b", "c"], vec!["d"]];
    assert_eq!(merge_page_breaks(&rows), Ok(rows.clone()));
    assert_eq!(merge_page_breaks(&vec![]), Ok(vec![]));
    assert_eq!(merge_page_breaks(&vec![vec![]]), Ok(vec![vec![]]));
}

#[test]
fn merge_is_one_sweep() {
    // the merged row ends in a break cell again, and is not looked at again
    let rows = vec![vec!["a", "SFUSR1"], vec!["b", "SFUSR2"], vec!["c"], vec!["d"]];
    assert_eq!(
        merge_page_breaks(&rows),
        Ok(vec![vec!["a", "b", "SFUSR2"], vec!["c"], vec!["d"]])
    );
    // two breaks apart
    let rows = vec![vec!["a", "SFUSR1"], vec!["b"], vec!["c", "SFUSR2"], vec!["d"], vec!["e"]];
    assert_eq!(
        merge_page_breaks(&rows),
        Ok(vec![vec!["a", "b"], vec!["c", "d"], vec!["e"]])
    );
}

#[test]
fn merge_never_looks_at_the_last_row() {
    let rows = vec![vec!["a"], vec!["b", "SFUSR9"]];
    assert_eq!(merge_page_breaks(&rows), Ok(rows.clone()));
    let rows = vec![vec!["a"], vec![]];
    assert_eq!(merge_page_breaks(&rows), Ok(rows.clone()));
    let rows = vec![vec!["SFUSR1"], vec!["b"]];
    assert_eq!(merge_page_breaks(&rows), Ok(vec![vec!["b"]]));
}

#[test]
fn merge_fails_on_an_empty_row_before_the_last() {
    let rows = vec![vec!["a"], vec![], vec!["c"]];
    assert_eq!(
        merge_page_breaks(&rows),
        Err(ExtractError::StructuralMismatch(Mismatch::RowTooShort))
    );
}

#[test]
fn transfer_from_a_narrow_row() {
    let row = vec!["", "ENGR", "100", "Title", "3.00", "3.00", "B+", "T"];
    assert_eq!(
        transfer_from(&row, &vec!["", "Acme College"]),
        Ok(transfer("ENGR", "100", "B+", Some("Acme College")))
    );
    assert_eq!(
        transfer_from(&row, &vec!["x", "y", "z"]),
        Ok(transfer("ENGR", "100", "B+", None))
    );
    assert_eq!(transfer_from(&row, &vec![]), Ok(transfer("ENGR", "100", "B+", None)));
}

#[test]
fn transfer_from_a_wide_row() {
    let row = vec!["", "", "ENGR", "100", "Title", "3.00", "3.00", "B+", "T", "x"];
    assert_eq!(
        transfer_from(&row, &SCHOOL_ROW.to_vec()),
        Ok(transfer("ENGR", "100", "B+", Some("Acme College")))
    );
}

#[test]
fn transfer_from_fails_on_short_rows_and_unknown_grades() {
    let short = vec!["", "ENGR", "100", "Title", "3.00", "3.00"];
    assert_eq!(
        transfer_from(&short, &vec![]),
        Err(ExtractError::StructuralMismatch(Mismatch::RowTooShort))
    );
    assert_eq!(
        transfer_from(&vec![], &vec![]),
        Err(ExtractError::StructuralMismatch(Mismatch::RowTooShort))
    );
    let bad = vec!["", "ENGR", "100", "Title", "3.00", "3.00", "B++"];
    assert_eq!(
        transfer_from(&bad, &vec![]),
        Err(ExtractError::StructuralMismatch(Mismatch::UnknownGrade))
    );
    // in a wide row the grade stands one column further right
    let wide = vec!["", "", "ENGR", "100", "Title", "3.00", "B+", "??", "T", "x"];
    assert_eq!(
        transfer_from(&wide, &vec![]),
        Err(ExtractError::StructuralMismatch(Mismatch::UnknownGrade))
    );
}

#[test]
fn build_gives_one_transfer_for_each_row_but_the_last() {
    let rows = vec![
        vec!["", "ENGR", "100", "t", "3", "3", "B+"],
        vec!["", "MATH", "151", "t", "3", "3", "TR"],
        vec!["", "Acme College"],
    ];
    assert_eq!(
        build_transfers(&rows),
        Ok(vec![
            transfer("ENGR", "100", "B+", None),
            transfer("MATH", "151", "TR", Some("Acme College")),
        ])
    );
    assert_eq!(build_transfers(&vec![rows[0].clone()]), Ok(vec![]));
    assert_eq!(build_transfers(&vec![]), Ok(vec![]));
}

#[test]
fn build_reports_the_first_failing_row() {
    let rows = vec![
        vec!["", "ENGR", "100", "t", "3", "3", "??"],
        vec!["short"],
        vec![],
    ];
    assert_eq!(
        build_transfers(&rows),
        Err(ExtractError::StructuralMismatch(Mismatch::UnknownGrade))
    );
    let rows = vec![vec!["short"], vec!["", "ENGR", "100", "t", "3", "3", "??"], vec![]];
    assert_eq!(
        build_transfers(&rows),
        Err(ExtractError::StructuralMismatch(Mismatch::RowTooShort))
    );
}

#[test]
fn transfer_round_trip() {
    // with the spacer that the first row receives, the course row has 10 columns
    let chunks = vec![
        t_leaf("TRANSFER COURSES"),
        t_row(&["", "ENGR", "100", "Engineering", "3.00", "3.00", "B+", "T", "x"]),
        t_row(&SCHOOL_ROW),
    ];
    assert_eq!(
        process_transfers(&chunks),
        Ok(vec![transfer("ENGR", "100", "B+", Some("Acme College"))])
    );
}

#[test]
fn transfers_with_annotations_and_a_page_break() {
    let chunks = vec![
        t_leaf("TRANSFER COURSES"),
        t_row(&["ENGR", "100", "W", "Engineering", "3.00", "3.00", "B+"]),
        t_row(&["", "PHYS", "120", "B-Sci", "Physics", "SFUSR_TRNS page 2"]),
        t_row(&["3.00", "3.00", "A-", "T"]),
        t_row(&["", "Acme College"]),
    ];
    assert_eq!(
        process_transfers(&chunks),
        Ok(vec![
            transfer("ENGR", "100", "B+", None),
            transfer("PHYS", "120", "A-", Some("Acme College")),
        ])
    );
}

#[test]
fn transfers_of_a_single_row_are_none() {
    let chunks = vec![t_leaf("TRANSFER COURSES"), t_row(&["anything"])];
    assert_eq!(process_transfers(&chunks), Ok(vec![]));
}

#[test]
fn transfers_without_rows_are_a_mismatch() {
    assert_eq!(
        process_transfers(&[t_leaf("TRANSFER COURSES")]),
        Err(ExtractError::StructuralMismatch(Mismatch::NoTransferRows))
    );
    assert_eq!(
        process_transfers(&[]),
        Err(ExtractError::StructuralMismatch(Mismatch::NoTransferRows))
    );
}

#[test]
fn transfer_with_unknown_grade_is_a_mismatch() {
    let chunks = vec![
        t_row(&["ENGR", "100", "Engineering", "3.00", "3.00", "B*"]),
        t_row(&["", "Acme College"]),
    ];
    assert_eq!(
        process_transfers(&chunks),
        Err(ExtractError::StructuralMismatch(Mismatch::UnknownGrade))
    );
}

#[test]
fn transfer_with_a_short_row_is_a_mismatch() {
    let chunks = vec![t_row(&["ENGR", "100"]), t_row(&["", "Acme College"])];
    assert_eq!(
        process_transfers(&chunks),
        Err(ExtractError::StructuralMismatch(Mismatch::RowTooShort))
    );
    // a row that the annotations leave empty, before the last
    let chunks = vec![t_row(&["ENGR"]), t_row(&["W", "Q"]), t_row(&["x"])];
    assert_eq!(
        process_transfers(&chunks),
        Err(ExtractError::StructuralMismatch(Mismatch::RowTooShort))
    );
}
