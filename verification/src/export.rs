//! The long table of a student: one record for each transfer and for each
//! graded course, under an identifier that replaces the student's own.

use vstd::prelude::*;
use vstd::string::StringExecFns;
use crate::record::{
    Course, CourseView, Semester, SemesterView, StudentInfo, StudentInfoView, Transfer,
    TransferView,
};
use crate::vocab::{term_text, Term};

verus! {

/// The number of columns of a record: identifier, plan, year, term, subject,
/// course number, grade, school.
pub const RECORD_WIDTH: usize = 8;

/// What stands in the year, term and school columns of a transfer where
/// there is nothing to say.
pub open spec fn none_text() -> Seq<char> {
    "None"@
}

/// The character of a decimal digit.
pub open spec fn digit_char(d: int) -> char {
    if d == 0 {
        '0'
    } else if d == 1 {
        '1'
    } else if d == 2 {
        '2'
    } else if d == 3 {
        '3'
    } else if d == 4 {
        '4'
    } else if d == 5 {
        '5'
    } else if d == 6 {
        '6'
    } else if d == 7 {
        '7'
    } else if d == 8 {
        '8'
    } else {
        '9'
    }
}

/// A number in decimal digits, without leading zeros.
pub open spec fn decimal(n: nat) -> Seq<char>
    decreases n,
{
    if n < 10 {
        seq![digit_char(n as int)]
    } else {
        decimal(n / 10).push(digit_char((n % 10) as int))
    }
}

/// The record of a transfer.
pub open spec fn transfer_record(id: Seq<char>, plan: Seq<char>, t: TransferView) -> Seq<
    Seq<char>,
> {
    seq![
        id,
        plan,
        none_text(),
        none_text(),
        t.course.subject,
        t.course.id,
        t.course.grade,
        match t.school {
            Some(school) => school,
            None => none_text(),
        },
    ]
}

/// The record of a course taken in a semester.
pub open spec fn course_record(
    id: Seq<char>,
    plan: Seq<char>,
    year: Seq<char>,
    term: Term,
    c: CourseView,
) -> Seq<Seq<char>> {
    seq![id, plan, year, term_text(term), c.subject, c.id, c.grade, ""@]
}

/// The records of a list of transfers, in order.
pub open spec fn transfer_records(
    id: Seq<char>,
    plan: Seq<char>,
    transfers: Seq<TransferView>,
) -> Seq<Seq<Seq<char>>> {
    Seq::new(transfers.len(), |i: int| transfer_record(id, plan, transfers[i]))
}

/// The records of the courses of a semester, in order.
pub open spec fn semester_records(id: Seq<char>, plan: Seq<char>, semester: SemesterView) -> Seq<
    Seq<Seq<char>>,
> {
    Seq::new(
        semester.courses.len(),
        |i: int| course_record(id, plan, semester.year, semester.term, semester.courses[i]),
    )
}

/// The records of the courses of a list of semesters, in order.
pub open spec fn coursework_records(
    id: Seq<char>,
    plan: Seq<char>,
    semesters: Seq<SemesterView>,
) -> Seq<Seq<Seq<char>>>
    decreases semesters.len(),
{
    if semesters.len() == 0 {
        seq![]
    } else {
        coursework_records(id, plan, semesters.drop_last()) + semester_records(
            id,
            plan,
            semesters.last(),
        )
    }
}

/// The long table of a student under the identifier `new_id`: the transfers,
/// then the courses of each semester.
pub open spec fn long_records(student: StudentInfoView, new_id: nat) -> Seq<Seq<Seq<char>>> {
    transfer_records(decimal(new_id), student.plan.name, student.transfers) + coursework_records(
        decimal(new_id),
        student.plan.name,
        student.semesters,
    )
}

/// The texts of a record.
pub open spec fn record_texts(record: Seq<String>) -> Seq<Seq<char>> {
    Seq::new(record.len(), |i: int| record[i]@)
}

/// The texts of each record of a table.
pub open spec fn record_table(records: Seq<Vec<String>>) -> Seq<Seq<Seq<char>>> {
    Seq::new(records.len(), |i: int| record_texts(records[i]@))
}

/// The digit `d` as a string.
fn digit_text(d: usize) -> (r: &'static str)
    requires
        d < 10,
    ensures
        r@ == seq![digit_char(d as int)],
{
    proof {
        reveal_strlit("0");
        reveal_strlit("1");
        reveal_strlit("2");
        reveal_strlit("3");
        reveal_strlit("4");
        reveal_strlit("5");
        reveal_strlit("6");
        reveal_strlit("7");
        reveal_strlit("8");
        reveal_strlit("9");
    }
    let r = if d == 0 {
        "0"
    } else if d == 1 {
        "1"
    } else if d == 2 {
        "2"
    } else if d == 3 {
        "3"
    } else if d == 4 {
        "4"
    } else if d == 5 {
        "5"
    } else if d == 6 {
        "6"
    } else if d == 7 {
        "7"
    } else if d == 8 {
        "8"
    } else {
        "9"
    };
    proof {
        assert(r@ =~= seq![digit_char(d as int)]);
    }
    r
}

/// A number in decimal digits.
pub fn decimal_text(n: usize) -> (r: String)
    ensures
        r@ == decimal(n as nat),
    decreases n,
{
    if n < 10 {
        digit_text(n).to_owned()
    } else {
        let mut r = decimal_text(n / 10);
        r.append(digit_text(n % 10));
        proof {
            assert(r@ =~= decimal((n / 10) as nat).push(digit_char((n % 10) as int)));
        }
        r
    }
}

/// The record of a transfer.
pub fn transfer_to_record(id: &String, plan: &String, transfer: &Transfer) -> (r: Vec<String>)
    ensures
        record_texts(r@) == transfer_record(id@, plan@, transfer@),
        r@.len() == RECORD_WIDTH,
{
    let school = match &transfer.school {
        Some(school) => school.clone(),
        None => "None".to_owned(),
    };
    let r = vec![
        id.clone(),
        plan.clone(),
        "None".to_owned(),
        "None".to_owned(),
        transfer.course.subject.clone(),
        transfer.course.id.clone(),
        transfer.course.grade.clone(),
        school,
    ];
    proof {
        assert(record_texts(r@) =~= transfer_record(id@, plan@, transfer@));
    }
    r
}

/// The record of a course taken in a semester.
pub fn course_to_record(id: &String, plan: &String, semester: &Semester, course: &Course) -> (r:
    Vec<String>)
    ensures
        record_texts(r@) == course_record(id@, plan@, semester.year@, semester.term, course@),
        r@.len() == RECORD_WIDTH,
{
    let r = vec![
        id.clone(),
        plan.clone(),
        semester.year.clone(),
        semester.term.name().to_owned(),
        course.subject.clone(),
        course.id.clone(),
        course.grade.clone(),
        "".to_owned(),
    ];
    proof {
        assert(record_texts(r@) =~= course_record(
            id@,
            plan@,
            semester.year@,
            semester.term,
            course@,
        ));
    }
    r
}

/// The long table of a student under the identifier `new_id`.
pub fn long_csv_records(student: &StudentInfo, new_id: usize) -> (r: Vec<Vec<String>>)
    ensures
        record_table(r@) == long_records(student@, new_id as nat),
        forall|i: int| 0 <= i < r@.len() ==> (#[trigger] r@[i])@.len() == RECORD_WIDTH,
{
    let id = decimal_text(new_id);
    let plan = &student.plan.name;
    let mut out: Vec<Vec<String>> = Vec::new();
    let mut i: usize = 0;
    proof {
        assert(record_table(out@) =~= transfer_records(id@, plan@, student@.transfers).take(0));
    }
    while i < student.transfers.len()
        invariant
            i <= student.transfers.len(),
            forall|k: int| 0 <= k < out@.len() ==> (#[trigger] out@[k])@.len() == RECORD_WIDTH,
            record_table(out@) == transfer_records(id@, plan@, student@.transfers).take(i as int),
        decreases student.transfers.len() - i,
    {
        let ghost before = out@;
        let record = transfer_to_record(&id, plan, &student.transfers[i]);
        out.push(record);
        proof {
            assert(record_table(out@) =~= record_table(before).push(record_texts(record@)));
            assert(record_table(out@) =~= transfer_records(id@, plan@, student@.transfers).take(
                i + 1,
            ));
        }
        i += 1;
    }
    let ghost first = record_table(out@);
    proof {
        assert(first =~= transfer_records(id@, plan@, student@.transfers));
        assert(first + coursework_records(id@, plan@, student@.semesters.take(0)) =~= first);
    }
    let mut s: usize = 0;
    while s < student.semesters.len()
        invariant
            s <= student.semesters.len(),
            forall|k: int| 0 <= k < out@.len() ==> (#[trigger] out@[k])@.len() == RECORD_WIDTH,
            first == transfer_records(id@, plan@, student@.transfers),
            record_table(out@) == first + coursework_records(
                id@,
                plan@,
                student@.semesters.take(s as int),
            ),
        decreases student.semesters.len() - s,
    {
        let semester = &student.semesters[s];
        let ghost done = record_table(out@);
        let mut c: usize = 0;
        proof {
            assert(done + semester_records(id@, plan@, semester@).take(0) =~= done);
        }
        while c < semester.courses.len()
            invariant
                c <= semester.courses.len(),
                forall|k: int| 0 <= k < out@.len() ==> (#[trigger] out@[k])@.len() == RECORD_WIDTH,
                record_table(out@) == done + semester_records(id@, plan@, semester@).take(c as int),
            decreases semester.courses.len() - c,
        {
            let ghost before = out@;
            let record = course_to_record(&id, plan, semester, &semester.courses[c]);
            out.push(record);
            proof {
                assert(record_table(out@) =~= record_table(before).push(record_texts(record@)));
                assert(record_table(out@) =~= done + semester_records(id@, plan@, semester@).take(
                    c + 1,
                ));
            }
            c += 1;
        }
        proof {
            let upto = student@.semesters.take(s + 1);
            assert(upto.drop_last() =~= student@.semesters.take(s as int));
            assert(upto.last() == semester@);
            assert(semester_records(id@, plan@, semester@).take(semester@.courses.len() as int)
                =~= semester_records(id@, plan@, semester@));
            assert(record_table(out@) =~= first + coursework_records(id@, plan@, upto));
        }
        s += 1;
    }
    proof {
        assert(student@.semesters.take(student@.semesters.len() as int) =~= student@.semesters);
    }
    out
}

} // verus!
