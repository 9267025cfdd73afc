//! Per-term coursework: the program section, cut into runs at each term
//! header, and every graded course row of a run.

use vstd::prelude::*;
use vstd::slice::slice_subrange;
use crate::chunk::{views, Chunk, ChunkView};
use crate::error::{ExtractError, Mismatch};
use crate::record::{course_views, semester_views, Course, CourseView, Semester, SemesterView};
use crate::row::{columns, lemma_views_subrange, row_columns};
use crate::text::{ends_with_text, has_suffix};
use crate::vocab::{get_year_term, is_grade, is_grade_text, texts, year_term};

verus! {

/// The column of a course row that holds the subject. Column 0 is a spacer.
pub const SUBJECT_COLUMN: usize = 1;

/// The column of a course row that holds the course number.
pub const ID_COLUMN: usize = 2;

/// The column of a course row that holds the grade, once the annotation
/// columns are gone. It also tells a graded course from other rows: a row
/// that does not reach it, or holds nothing there, is no graded course.
pub const GRADE_COLUMN: usize = 6;

/// Whether a chunk is a term header: a leaf that holds a year and the name
/// of a term, and nothing else.
pub open spec fn is_term_header(c: ChunkView) -> bool {
    c matches ChunkView::Leaf(s) && year_term(s) is Some
}

/// Whether a row is a graded course: it is no grade-point summary, reaches
/// the grade column, and holds something there.
pub open spec fn is_course_row(row: Seq<Seq<char>>) -> bool {
    &&& row.len() > GRADE_COLUMN
    &&& !has_suffix(row[0], "GPA:"@)
    &&& row[GRADE_COLUMN as int].len() > 0
}

/// The course that a course row records.
pub open spec fn course_at(row: Seq<Seq<char>>, offset: int) -> CourseView {
    CourseView {
        subject: row[offset + SUBJECT_COLUMN],
        id: row[offset + ID_COLUMN],
        grade: row[offset + GRADE_COLUMN],
    }
}

/// The course that a row records, where its course columns begin `offset`
/// columns to the right. The row must reach its grade column and hold a
/// recognised grade there.
pub open spec fn course_in(row: Seq<Seq<char>>, offset: int) -> Result<CourseView, ExtractError> {
    if row.len() <= offset + GRADE_COLUMN {
        Err(ExtractError::StructuralMismatch(Mismatch::RowTooShort))
    } else if !is_grade_text(row[offset + GRADE_COLUMN]) {
        Err(ExtractError::StructuralMismatch(Mismatch::UnknownGrade))
    } else {
        Ok(course_at(row, offset))
    }
}

/// What a result of [`course_from`] stands for.
pub open spec fn course_result(r: Result<Course, ExtractError>) -> Result<
    CourseView,
    ExtractError,
> {
    match r {
        Ok(c) => Ok(c@),
        Err(e) => Err(e),
    }
}

/// The courses of a run's rows, in order. A group is a candidate row; one
/// that is a graded course must hold a recognised grade.
pub open spec fn courses_of(items: Seq<ChunkView>) -> Result<Seq<CourseView>, ExtractError>
    decreases items.len(),
{
    if items.len() == 0 {
        Ok(seq![])
    } else {
        match courses_of(items.drop_last()) {
            Err(e) => Err(e),
            Ok(before) => match items.last() {
                ChunkView::Leaf(_) => Ok(before),
                ChunkView::Group(children) => {
                    let row = columns(children, true);
                    if !is_course_row(row) {
                        Ok(before)
                    } else {
                        match course_in(row, 0) {
                            Ok(course) => Ok(before.push(course)),
                            Err(e) => Err(e),
                        }
                    }
                },
            },
        }
    }
}

/// The index of the first term header at or after `from`; the length of
/// `chunks` if there is none.
pub open spec fn next_header(chunks: Seq<ChunkView>, from: int) -> int
    decreases chunks.len() - from,
{
    if 0 <= from < chunks.len() && !is_term_header(chunks[from]) {
        next_header(chunks, from + 1)
    } else {
        from
    }
}

/// The semesters of the runs that start at or after the header at `at`.
/// A run reaches from its header to the next one; a run without a graded
/// course yields no semester.
pub open spec fn semesters_from(chunks: Seq<ChunkView>, at: int) -> Result<
    Seq<SemesterView>,
    ExtractError,
>
    decreases chunks.len() - at,
{
    if 0 <= at < chunks.len() && is_term_header(chunks[at]) {
        let end = next_header(chunks, at + 1);
        proof {
            lemma_next_header(chunks, at + 1);
        }
        match courses_of(chunks.subrange(at + 1, end)) {
            Err(e) => Err(e),
            Ok(courses) => match semesters_from(chunks, end) {
                Err(e) => Err(e),
                Ok(later) => if courses.len() > 0 {
                    Ok(seq![semester_at(chunks[at], courses)] + later)
                } else {
                    Ok(later)
                },
            },
        }
    } else {
        Ok(seq![])
    }
}

/// The semester that `header` announces, with the given courses.
pub open spec fn semester_at(header: ChunkView, courses: Seq<CourseView>) -> SemesterView {
    let (year, term) = year_term(header->Leaf_0).unwrap();
    SemesterView { year, term, is_good_standing: true, courses }
}

/// The semesters of a program section. What stands before the first header
/// after the section's first element is heading material.
pub open spec fn semesters(chunks: Seq<ChunkView>) -> Result<Seq<SemesterView>, ExtractError> {
    semesters_from(chunks, next_header(chunks, 1))
}

/// What a result of [`process_semesters`] stands for.
pub open spec fn semesters_view(r: Result<Vec<Semester>, ExtractError>) -> Result<
    Seq<SemesterView>,
    ExtractError,
> {
    match r {
        Ok(v) => Ok(semester_views(v@)),
        Err(e) => Err(e),
    }
}

/// What a result of [`run_courses`] stands for.
pub open spec fn courses_view(r: Result<Vec<Course>, ExtractError>) -> Result<
    Seq<CourseView>,
    ExtractError,
> {
    match r {
        Ok(v) => Ok(course_views(v@)),
        Err(e) => Err(e),
    }
}

/// `next_header` stays within the list and stops at a header.
pub proof fn lemma_next_header(chunks: Seq<ChunkView>, from: int)
    requires
        0 <= from <= chunks.len(),
    ensures
        from <= next_header(chunks, from) <= chunks.len(),
        next_header(chunks, from) < chunks.len() ==> is_term_header(
            chunks[next_header(chunks, from)],
        ),
        forall|k: int| from <= k < next_header(chunks, from) ==> !is_term_header(chunks[k]),
    decreases chunks.len() - from,
{
    if from < chunks.len() && !is_term_header(chunks[from]) {
        lemma_next_header(chunks, from + 1);
    }
}

/// Whether a chunk is a term header.
pub fn is_header(chunk: &Chunk) -> (r: bool)
    ensures
        r == is_term_header(chunk@),
{
    match chunk.get_string() {
        Some(s) => get_year_term(s).is_some(),
        None => false,
    }
}

/// The index of the first term header at or after `from`.
pub fn find_header(chunks: &[Chunk], from: usize) -> (at: usize)
    ensures
        at == next_header(views(chunks@), from as int),
        from <= at,
        from <= chunks.len() ==> at <= chunks.len(),
{
    let mut at: usize = from;
    while at < chunks.len() && !is_header(&chunks[at])
        invariant
            from <= at,
            from <= chunks.len() ==> at <= chunks.len(),
            next_header(views(chunks@), from as int) == next_header(views(chunks@), at as int),
        decreases chunks.len() - at,
    {
        at += 1;
    }
    at
}

/// The course that a row records, where `offset` is the number of extra
/// leading columns.
pub fn course_from(row: &Vec<&str>, offset: usize) -> (r: Result<Course, ExtractError>)
    ensures
        course_result(r) == course_in(texts(row@), offset as int),
{
    if row.len() <= GRADE_COLUMN || offset >= row.len() - GRADE_COLUMN {
        return Err(ExtractError::StructuralMismatch(Mismatch::RowTooShort));
    }
    let grade = row[offset + GRADE_COLUMN];
    if is_grade(grade) {
        Ok(
            Course {
                subject: row[offset + SUBJECT_COLUMN].to_owned(),
                id: row[offset + ID_COLUMN].to_owned(),
                grade: grade.to_owned(),
            },
        )
    } else {
        Err(ExtractError::StructuralMismatch(Mismatch::UnknownGrade))
    }
}

/// The graded courses among the rows of one run.
pub fn run_courses(items: &[Chunk]) -> (r: Result<Vec<Course>, ExtractError>)
    ensures
        courses_view(r) == courses_of(views(items@)),
{
    let mut out: Vec<Course> = Vec::new();
    let mut i: usize = 0;
    proof {
        assert(course_views(out@) =~= seq![]);
    }
    while i < items.len()
        invariant
            i <= items.len(),
            courses_of(views(items@).take(i as int)) == Ok::<Seq<CourseView>, ExtractError>(
                course_views(out@),
            ),
        decreases items.len() - i,
    {
        proof {
            let upto = views(items@).take(i + 1);
            assert(upto.drop_last() =~= views(items@).take(i as int));
            assert(upto.last() == items@[i as int]@);
        }
        let ghost before = out@;
        match items[i].get_contained() {
            Some(children) => {
                let row = row_columns(children, true);
                if row.len() > GRADE_COLUMN && !ends_with_text(row[0], "GPA:")
                    && !row[GRADE_COLUMN].is_empty() {
                    match course_from(&row, 0) {
                        Ok(course) => {
                            out.push(course);
                            proof {
                                assert(course_views(out@) =~= course_views(before).push(course@));
                            }
                        },
                        Err(e) => {
                            proof {
                                lemma_courses_of_fails(views(items@), i + 1);
                            }
                            return Err(e);
                        },
                    }
                }
            },
            None => {},
        }
        i += 1;
    }
    proof {
        assert(views(items@).take(items@.len() as int) =~= views(items@));
    }
    Ok(out)
}

/// A failure among the first `upto` rows is the failure of the whole run.
pub proof fn lemma_courses_of_fails(items: Seq<ChunkView>, upto: int)
    requires
        0 <= upto <= items.len(),
        courses_of(items.take(upto)) is Err,
    ensures
        courses_of(items) == courses_of(items.take(upto)),
    decreases items.len() - upto,
{
    if upto < items.len() {
        assert(items.take(upto + 1).drop_last() =~= items.take(upto));
        lemma_courses_of_fails(items, upto + 1);
    } else {
        assert(items.take(upto) =~= items);
    }
}

/// The semesters of a program section, in order of appearance.
pub fn process_semesters(chunks: &[Chunk]) -> (r: Result<Vec<Semester>, ExtractError>)
    ensures
        semesters_view(r) == semesters(views(chunks@)),
        r matches Ok(v) ==> forall|i: int| 0 <= i < v@.len() ==> (#[trigger] v@[i])@.wf(),
{
    let n = chunks.len();
    let mut out: Vec<Semester> = Vec::new();
    if n == 0 {
        proof {
            assert(semester_views(out@) =~= seq![]);
        }
        return Ok(out);
    }
    let mut at: usize = find_header(chunks, 1);
    proof {
        lemma_next_header(views(chunks@), 1);
        match semesters_from(views(chunks@), at as int) {
            Ok(all) => {
                assert(semester_views(out@) + all =~= all);
            },
            Err(_) => {},
        }
    }
    while at < n
        invariant
            n == chunks.len(),
            0 < at <= n,
            at < n ==> is_term_header(views(chunks@)[at as int]),
            semesters(views(chunks@)) == join(
                semester_views(out@),
                semesters_from(views(chunks@), at as int),
            ),
        decreases n - at,
    {
        let end = find_header(chunks, at + 1);
        proof {
            lemma_next_header(views(chunks@), at + 1);
            lemma_views_subrange(chunks@, at + 1, end as int);
        }
        let ghost before = out@;
        match run_courses(slice_subrange(chunks, at + 1, end)) {
            Err(e) => {
                return Err(e);
            },
            Ok(courses) => {
                if courses.len() > 0 {
                    match chunks[at].get_string() {
                        Some(header) => match get_year_term(header) {
                            Some((year, term)) => {
                                let semester = Semester {
                                    year: year.to_owned(),
                                    term,
                                    is_good_standing: true,
                                    courses,
                                };
                                proof {
                                    assert(semester@ == semester_at(
                                        views(chunks@)[at as int],
                                        course_views(courses@),
                                    ));
                                }
                                out.push(semester);
                                proof {
                                    assert(semester_views(out@) =~= semester_views(before).push(
                                        semester@,
                                    ));
                                    lemma_join_push(
                                        semester_views(before),
                                        semester@,
                                        semesters_from(views(chunks@), end as int),
                                    );
                                }
                            },
                            None => {},
                        },
                        None => {},
                    }
                }
            },
        }
        at = end;
    }
    proof {
        assert(semester_views(out@) + Seq::<SemesterView>::empty() =~= semester_views(out@));
        lemma_semesters_wf(views(chunks@));
        assert forall|i: int| 0 <= i < out@.len() implies (#[trigger] out@[i])@.wf() by {
            assert(semesters(views(chunks@)).unwrap()[i] == out@[i]@);
        }
    }
    Ok(out)
}

/// What was gathered so far, followed by what the rest yields.
pub open spec fn join(
    done: Seq<SemesterView>,
    rest: Result<Seq<SemesterView>, ExtractError>,
) -> Result<Seq<SemesterView>, ExtractError> {
    match rest {
        Ok(later) => Ok(done + later),
        Err(e) => Err(e),
    }
}

/// A semester gathered next may be counted with what was gathered so far or
/// with what follows.
proof fn lemma_join_push(
    done: Seq<SemesterView>,
    next: SemesterView,
    rest: Result<Seq<SemesterView>, ExtractError>,
)
    ensures
        join(done.push(next), rest) == join(
            done,
            match rest {
                Ok(later) => Ok(seq![next] + later),
                Err(e) => Err(e),
            },
        ),
{
    match rest {
        Ok(later) => {
            assert(done.push(next) + later =~= done + (seq![next] + later));
        },
        Err(_) => {},
    }
}

/// Whether a chunk is a graded course row whose grade is outside the grade
/// vocabulary.
pub open spec fn has_unknown_grade(c: ChunkView) -> bool {
    &&& c matches ChunkView::Group(children)
    &&& is_course_row(columns(children, true))
    &&& !is_grade_text(columns(children, true)[GRADE_COLUMN as int])
}

/// The one failure of a run.
pub open spec fn unknown_grade<T>() -> Result<T, ExtractError> {
    Err(ExtractError::StructuralMismatch(Mismatch::UnknownGrade))
}

/// A run fails only on an unrecognised grade.
pub proof fn lemma_courses_of_failure(items: Seq<ChunkView>)
    ensures
        courses_of(items) is Err ==> courses_of(items) == unknown_grade::<Seq<CourseView>>(),
    decreases items.len(),
{
    if items.len() > 0 {
        lemma_courses_of_failure(items.drop_last());
    }
}

/// A run with a graded course row whose grade is not recognised fails.
pub proof fn lemma_run_with_unknown_grade_fails(items: Seq<ChunkView>, at: int)
    requires
        0 <= at < items.len(),
        has_unknown_grade(items[at]),
    ensures
        courses_of(items) == unknown_grade::<Seq<CourseView>>(),
    decreases items.len(),
{
    lemma_courses_of_failure(items);
    if at < items.len() - 1 {
        lemma_run_with_unknown_grade_fails(items.drop_last(), at);
    }
}

/// The runs from a header on fail only on an unrecognised grade.
pub proof fn lemma_semesters_from_failure(chunks: Seq<ChunkView>, at: int)
    ensures
        semesters_from(chunks, at) is Err ==> semesters_from(chunks, at) == unknown_grade::<
            Seq<SemesterView>,
        >(),
    decreases chunks.len() - at,
{
    if 0 <= at < chunks.len() && is_term_header(chunks[at]) {
        let end = next_header(chunks, at + 1);
        lemma_next_header(chunks, at + 1);
        lemma_courses_of_failure(chunks.subrange(at + 1, end));
        lemma_semesters_from_failure(chunks, end);
    }
}

/// The runs from the header at `header` on fail if a later element is a
/// graded course row whose grade is not recognised.
pub proof fn lemma_runs_with_unknown_grade_fail(chunks: Seq<ChunkView>, header: int, at: int)
    requires
        0 <= header < at < chunks.len(),
        is_term_header(chunks[header]),
        has_unknown_grade(chunks[at]),
    ensures
        semesters_from(chunks, header) == unknown_grade::<Seq<SemesterView>>(),
    decreases at - header,
{
    let end = next_header(chunks, header + 1);
    lemma_next_header(chunks, header + 1);
    lemma_semesters_from_failure(chunks, header);
    let run = chunks.subrange(header + 1, end);
    if at < end {
        assert(run[at - header - 1] == chunks[at]);
        lemma_run_with_unknown_grade_fails(run, at - header - 1);
    } else {
        lemma_runs_with_unknown_grade_fail(chunks, end, at);
    }
}

/// An unrecognised grade is never passed over: a program section in which a
/// graded course row after a term header (the first element aside) holds a
/// grade outside the grade vocabulary fails as a structural mismatch.
pub proof fn lemma_unknown_grade_is_fatal(chunks: Seq<ChunkView>, header: int, at: int)
    requires
        1 <= header < at < chunks.len(),
        is_term_header(chunks[header]),
        has_unknown_grade(chunks[at]),
    ensures
        semesters(chunks) == unknown_grade::<Seq<SemesterView>>(),
{
    lemma_next_header(chunks, 1);
    let first = next_header(chunks, 1);
    assert(first <= header);
    lemma_runs_with_unknown_grade_fail(chunks, first, at);
}

/// Every course that a run yields holds a recognised grade.
pub proof fn lemma_courses_of_graded(items: Seq<ChunkView>)
    requires
        courses_of(items) is Ok,
    ensures
        forall|j: int|
            0 <= j < courses_of(items).unwrap().len() ==> (#[trigger] courses_of(
                items,
            ).unwrap()[j]).wf(),
    decreases items.len(),
{
    if items.len() > 0 {
        lemma_courses_of_graded(items.drop_last());
    }
}

/// Every semester that the runs from a header on yield is well formed.
pub proof fn lemma_semesters_from_wf(chunks: Seq<ChunkView>, at: int)
    requires
        semesters_from(chunks, at) is Ok,
    ensures
        forall|i: int|
            0 <= i < semesters_from(chunks, at).unwrap().len() ==> (#[trigger] semesters_from(
                chunks,
                at,
            ).unwrap()[i]).wf(),
    decreases chunks.len() - at,
{
    if 0 <= at < chunks.len() && is_term_header(chunks[at]) {
        let end = next_header(chunks, at + 1);
        lemma_next_header(chunks, at + 1);
        lemma_courses_of_graded(chunks.subrange(at + 1, end));
        lemma_semesters_from_wf(chunks, end);
    }
}

/// Every extracted semester has a course, and every course of it holds a
/// recognised grade.
pub proof fn lemma_semesters_wf(chunks: Seq<ChunkView>)
    requires
        semesters(chunks) is Ok,
    ensures
        forall|i: int|
            0 <= i < semesters(chunks).unwrap().len() ==> (#[trigger] semesters(
                chunks,
            ).unwrap()[i]).wf(),
{
    lemma_semesters_from_wf(chunks, next_header(chunks, 1));
}

/// Whether a chunk is a graded course row that holds a recognised grade.
pub open spec fn is_graded_course(c: ChunkView) -> bool {
    &&& c matches ChunkView::Group(children)
    &&& is_course_row(columns(children, true))
    &&& is_grade_text(columns(children, true)[GRADE_COLUMN as int])
}

/// Whether a chunk is a grade-point summary row.
pub open spec fn is_summary_row(c: ChunkView) -> bool {
    &&& c matches ChunkView::Group(children)
    &&& columns(children, true).len() > 0
    &&& has_suffix(columns(children, true)[0], "GPA:"@)
}

/// A term header followed by one graded course row and one grade-point
/// summary row yields exactly one semester, that of the header, with exactly
/// one course, that of the course row; the summary row yields nothing.
pub proof fn lemma_run_with_summary_row(
    heading: ChunkView,
    header: ChunkView,
    course_row: ChunkView,
    summary_row: ChunkView,
)
    requires
        is_term_header(header),
        is_graded_course(course_row),
        is_summary_row(summary_row),
    ensures
        semesters(seq![heading, header, course_row, summary_row]) == Ok::<
            Seq<SemesterView>,
            ExtractError,
        >(
            seq![
                semester_at(
                    header,
                    seq![course_at(columns(course_row->Group_0, true), 0)],
                ),
            ],
        ),
{
    let chunks = seq![heading, header, course_row, summary_row];
    reveal_with_fuel(next_header, 4);
    assert(next_header(chunks, 1) == 1);
    assert(next_header(chunks, 2) == 4);
    let run = chunks.subrange(2, 4);
    assert(run =~= seq![course_row, summary_row]);
    assert(run.drop_last() =~= seq![course_row]);
    assert(run.drop_last().drop_last() =~= Seq::<ChunkView>::empty());
    let course = course_at(columns(course_row->Group_0, true), 0);
    assert(courses_of(seq![course_row]) == Ok::<Seq<CourseView>, ExtractError>(seq![course])) by {
        assert(seq![course_row].drop_last() =~= Seq::<ChunkView>::empty());
        assert(courses_of(Seq::<ChunkView>::empty()) == Ok::<Seq<CourseView>, ExtractError>(
            seq![],
        ));
        assert(Seq::<CourseView>::empty().push(course) =~= seq![course]);
    }
    assert(courses_of(run) == Ok::<Seq<CourseView>, ExtractError>(seq![course]));
    assert(semesters_from(chunks, 4) == Ok::<Seq<SemesterView>, ExtractError>(seq![]));
    assert(seq![semester_at(header, seq![course])] + Seq::<SemesterView>::empty() =~= seq![
        semester_at(header, seq![course]),
    ]);
}

} // verus!
