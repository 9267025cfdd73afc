//! The records that an extraction yields, and their mathematical values.

use vstd::prelude::*;
use crate::vocab::{is_grade_text, Term};

verus! {

/// The plan a student is enrolled in.
#[derive(Clone, Debug, PartialEq, Eq, Hash)]
pub struct Plan {
    pub name: String,
}

/// One graded course.
#[derive(Clone, Debug, PartialEq, Eq, Hash)]
pub struct Course {
    pub subject: String,
    pub id: String,
    pub grade: String,
}

/// A course credited from elsewhere, with the school where one is named.
#[derive(Clone, Debug, PartialEq, Eq, Hash)]
pub struct Transfer {
    pub course: Course,
    pub school: Option<String>,
}

/// The graded courses of one term.
#[derive(Clone, Debug, PartialEq, Eq, Hash)]
pub struct Semester {
    pub year: String,
    pub term: Term,
    pub is_good_standing: bool,
    pub courses: Vec<Course>,
}

/// Everything that one transcript says of its student.
#[derive(Clone, Debug, PartialEq, Eq, Hash)]
pub struct StudentInfo {
    pub id: String,
    pub plan: Plan,
    pub transfers: Vec<Transfer>,
    pub semesters: Vec<Semester>,
}

/// The mathematical value of a [`Plan`].
pub struct PlanView {
    pub name: Seq<char>,
}

/// The mathematical value of a [`Course`].
pub struct CourseView {
    pub subject: Seq<char>,
    pub id: Seq<char>,
    pub grade: Seq<char>,
}

/// The mathematical value of a [`Transfer`].
pub struct TransferView {
    pub course: CourseView,
    pub school: Option<Seq<char>>,
}

/// The mathematical value of a [`Semester`].
pub struct SemesterView {
    pub year: Seq<char>,
    pub term: Term,
    pub is_good_standing: bool,
    pub courses: Seq<CourseView>,
}

/// The mathematical value of a [`StudentInfo`].
pub struct StudentInfoView {
    pub id: Seq<char>,
    pub plan: PlanView,
    pub transfers: Seq<TransferView>,
    pub semesters: Seq<SemesterView>,
}

impl CourseView {
    /// Whether the course holds a recognised grade.
    pub open spec fn wf(self) -> bool {
        is_grade_text(self.grade)
    }
}

impl TransferView {
    /// Whether the transferred course holds a recognised grade.
    pub open spec fn wf(self) -> bool {
        self.course.wf()
    }
}

impl SemesterView {
    /// Whether the semester has a course, and each of its courses holds a
    /// recognised grade.
    pub open spec fn wf(self) -> bool {
        self.courses.len() > 0 && forall|i: int|
            0 <= i < self.courses.len() ==> (#[trigger] self.courses[i]).wf()
    }
}

impl StudentInfoView {
    /// Whether every transfer and every semester of the record is well
    /// formed.
    pub open spec fn wf(self) -> bool {
        &&& forall|i: int| 0 <= i < self.transfers.len() ==> (#[trigger] self.transfers[i]).wf()
        &&& forall|i: int| 0 <= i < self.semesters.len() ==> (#[trigger] self.semesters[i]).wf()
    }
}

impl View for Plan {
    type V = PlanView;

    open spec fn view(&self) -> PlanView {
        PlanView { name: self.name@ }
    }
}

impl View for Course {
    type V = CourseView;

    open spec fn view(&self) -> CourseView {
        CourseView { subject: self.subject@, id: self.id@, grade: self.grade@ }
    }
}

impl View for Transfer {
    type V = TransferView;

    open spec fn view(&self) -> TransferView {
        TransferView {
            course: self.course@,
            school: match self.school {
                Some(s) => Some(s@),
                None => None,
            },
        }
    }
}

impl View for Semester {
    type V = SemesterView;

    open spec fn view(&self) -> SemesterView {
        SemesterView {
            year: self.year@,
            term: self.term,
            is_good_standing: self.is_good_standing,
            courses: course_views(self.courses@),
        }
    }
}

impl View for StudentInfo {
    type V = StudentInfoView;

    open spec fn view(&self) -> StudentInfoView {
        StudentInfoView {
            id: self.id@,
            plan: self.plan@,
            transfers: transfer_views(self.transfers@),
            semesters: semester_views(self.semesters@),
        }
    }
}

/// The values of a list of courses.
pub open spec fn course_views(courses: Seq<Course>) -> Seq<CourseView> {
    Seq::new(courses.len(), |i: int| courses[i]@)
}

/// The values of a list of transfers.
pub open spec fn transfer_views(transfers: Seq<Transfer>) -> Seq<TransferView> {
    Seq::new(transfers.len(), |i: int| transfers[i]@)
}

/// The values of a list of semesters.
pub open spec fn semester_views(semesters: Seq<Semester>) -> Seq<SemesterView> {
    Seq::new(semesters.len(), |i: int| semesters[i]@)
}

} // verus!
