use transcript::chunk::Chunk;
use transcript::error::{ExtractError, Mismatch};
use transcript::export::{course_to_record, decimal_text, long_csv_records, transfer_to_record};
use transcript::record::{Course, Plan, Semester, StudentInfo, Transfer};
use transcript::student::{process_chunks, process_plan};
use transcript::vocab::Term;

fn p_leaf(text: &str) -> Chunk {
    Chunk::String(text.to_string())
}

fn p_row(cells: &[&str]) -> Chunk {
    Chunk::Chunks(cells.iter().map(|c| p_leaf(c)).collect())
}

fn a_course(subject: &str, id: &str, grade: &str) -> Course {
    Course { subject: subject.to_string(), id: id.to_string(), grade: grade.to_string() }
}

const END: &str = "TOTAL UNITS PASSED BY ACADEMIC GROUP";

fn full_document() -> Vec<Chunk> {
    vec![
        p_leaf("Student Name"),
        p_leaf("Plan"),
        p_row(&["Faculty", "Computing Science Major", "2019-09-01"]),
        p_leaf("TRANSFER COURSES"),
        p_row(&["ENGR", "100", "Engineering", "3.00", "3.00", "B+"]),
        p_row(&["", "Acme College"]),
        p_leaf("Program:"),
        p_leaf("Bachelor of Science"),
        p_leaf("2020 Fall"),
        p_row(&["", "CMPT", "120", "Intro", "3.00", "3.00", "A-", "11.01"]),
        p_row(&["", "MATH", "151", "B-Sci", "Calculus I", "3.00", "3.00", "B", "9.00"]),
        p_row(&["Term GPA:", "3.33", "a", "b", "c", "d", "e"]),
        p_leaf("2021 Spring"),
        p_row(&["", "CMPT", "125", "Intro II", "3.00", "3.00", "", "0.00"]),
        p_leaf(END),
        p_leaf("301234567"),
        p_leaf("Page 3"),
        p_leaf("2024-01-01"),
    ]
}

fn full_student() -> StudentInfo {
    StudentInfo {
        id: "301234567".to_string(),
        plan: Plan { name: "Computing Science Major".to_string() },
        transfers: vec![Transfer {
            course: a_course("ENGR", "100", "B+"),
            school: Some("Acme College".to_string()),
        }],
        semesters: vec![Semester {
            year: "2020".to_string(),
            term: Term::Fall,
            is_good_standing: true,
            courses: vec![a_course("CMPT", "120", "A-"), a_course("MATH", "151", "B")],
        }],
    }
}

#[test]
fn plan_is_second_to_last_in_its_group() {
    assert_eq!(
        process_plan(&p_row(&["a", "b", "Computing Science Major", "c"])),
        Ok(Plan { name: "Computing Science Major".to_string() })
    );
    assert_eq!(process_plan(&p_row(&["name", "x"])), Ok(Plan { name: "name".to_string() }));
}

#[test]
fn bad_plan_chunks() {
    let bad = Err(ExtractError::StructuralMismatch(Mismatch::BadPlan));
    assert_eq!(process_plan(&p_leaf("Computing Science Major")), bad);
    assert_eq!(process_plan(&p_row(&["only"])), bad);
    assert_eq!(process_plan(&p_row(&[])), bad);
    assert_eq!(
        process_plan(&Chunk::Chunks(vec![p_leaf("a"), p_row(&["nested"]), p_leaf("c")])),
        bad
    );
}

#[test]
fn student_from_a_full_document() {
    assert_eq!(process_chunks(&full_document()), Ok(full_student()));
}

#[test]
fn absent_transfer_section_is_fatal_at_assembly() {
    let mut chunks = full_document();
    chunks.drain(3..6);
    assert_eq!(process_chunks(&chunks), Err(ExtractError::OptionalSectionAbsent));
}

#[test]
fn locator_failures_come_first() {
    let mut chunks = full_document();
    chunks.remove(1);
    assert_eq!(
        process_chunks(&chunks),
        Err(ExtractError::StructuralMismatch(Mismatch::PlanMarkerNotFound))
    );
    let mut chunks = full_document();
    chunks.remove(14);
    chunks[2] = p_leaf("not a plan");
    assert_eq!(
        process_chunks(&chunks),
        Err(ExtractError::StructuralMismatch(Mismatch::EndMarkerNotFound))
    );
    let mut chunks = full_document();
    chunks[15] = p_row(&["301234567"]);
    chunks[2] = p_leaf("not a plan");
    assert_eq!(
        process_chunks(&chunks),
        Err(ExtractError::StructuralMismatch(Mismatch::BadStudentId))
    );
}

#[test]
fn bad_plan_comes_before_the_sections() {
    let mut chunks = full_document();
    chunks[2] = p_leaf("not a plan");
    chunks.drain(3..6);
    assert_eq!(
        process_chunks(&chunks),
        Err(ExtractError::StructuralMismatch(Mismatch::BadPlan))
    );
}

#[test]
fn transfer_marker_after_program_marker_is_a_mismatch() {
    let mut chunks = full_document();
    chunks.swap(3, 6);
    assert_eq!(
        process_chunks(&chunks),
        Err(ExtractError::StructuralMismatch(Mismatch::TransferAfterProgram))
    );
}

#[test]
fn section_failures_pass_through() {
    let mut chunks = full_document();
    chunks[4] = p_row(&["ENGR", "100", "Engineering", "3.00", "3.00", "?"]);
    chunks[9] = p_row(&["", "CMPT", "120", "Intro", "3.00", "3.00", "?", "11.01"]);
    assert_eq!(
        process_chunks(&chunks),
        Err(ExtractError::StructuralMismatch(Mismatch::UnknownGrade))
    );
    let mut chunks = full_document();
    chunks.drain(4..6);
    assert_eq!(
        process_chunks(&chunks),
        Err(ExtractError::StructuralMismatch(Mismatch::NoTransferRows))
    );
    let mut chunks = full_document();
    chunks[4] = p_row(&["ENGR"]);
    assert_eq!(
        process_chunks(&chunks),
        Err(ExtractError::StructuralMismatch(Mismatch::RowTooShort))
    );
}

#[test]
fn decimal_text_writes_digits() {
    assert_eq!(decimal_text(0), "0");
    assert_eq!(decimal_text(7), "7");
    assert_eq!(decimal_text(10), "10");
    assert_eq!(decimal_text(1234567890), "1234567890");
    assert_eq!(decimal_text(usize::MAX), usize::MAX.to_string());
}

#[test]
fn transfer_record_columns() {
    let id = "42".to_string();
    let plan = "CS".to_string();
    let with_school =
        Transfer { course: a_course("ENGR", "100", "B+"), school: Some("Acme".to_string()) };
    assert_eq!(
        transfer_to_record(&id, &plan, &with_school),
        vec!["42", "CS", "None", "None", "ENGR", "100", "B+", "Acme"]
    );
    let without = Transfer { course: a_course("ENGR", "100", "B+"), school: None };
    assert_eq!(
        transfer_to_record(&id, &plan, &without),
        vec!["42", "CS", "None", "None", "ENGR", "100", "B+", "None"]
    );
}

#[test]
fn course_record_columns() {
    let id = "42".to_string();
    let plan = "CS".to_string();
    let sem = Semester {
        year: "2021".to_string(),
        term: Term::Summer,
        is_good_standing: true,
        courses: vec![],
    };
    assert_eq!(
        course_to_record(&id, &plan, &sem, &a_course("CMPT", "225", "A")),
        vec!["42", "CS", "2021", "Summer", "CMPT", "225", "A", ""]
    );
}

#[test]
fn long_records_list_transfers_then_courses() {
    let mut student = full_student();
    student.transfers.push(Transfer { course: a_course("PHYS", "101", "TR"), school: None });
    student.semesters.push(Semester {
        year: "2021".to_string(),
        term: Term::Spring,
        is_good_standing: true,
        courses: vec![a_course("CMPT", "125", "C+")],
    });
    let plan = "Computing Science Major";
    assert_eq!(
        long_csv_records(&student, 17),
        vec![
            vec!["17", plan, "None", "None", "ENGR", "100", "B+", "Acme College"],
            vec!["17", plan, "None", "None", "PHYS", "101", "TR", "None"],
            vec!["17", plan, "2020", "Fall", "CMPT", "120", "A-", ""],
            vec!["17", plan, "2020", "Fall", "MATH", "151", "B", ""],
            vec!["17", plan, "2021", "Spring", "CMPT", "125", "C+", ""],
        ]
    );
}

#[test]
fn long_records_of_an_empty_student() {
    let student = StudentInfo {
        id: "1".to_string(),
        plan: Plan { name: "P".to_string() },
        transfers: vec![],
        semesters: vec![],
    };
    assert_eq!(long_csv_records(&student, 0), Vec::<Vec<String>>::new());
}
