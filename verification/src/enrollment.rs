//! Students, courses, and the platform that records who takes what.

use vstd::prelude::*;

verus! {

/// A student, known by name.
pub struct Student {
    pub name: String,
}

/// A course, known by name.
pub struct Course {
    pub name: String,
}

/// One student taking one course.
pub struct Enrollment<'a> {
    student: &'a Student,
    course: &'a Course,
}

/// The enrollments made so far, in the order in which they were made.
pub struct Platform<'a> {
    enrollments: Vec<Enrollment<'a>>,
}

/// An enrollment as names: who takes what.
pub struct Entry {
    pub student: Seq<char>,
    pub course: Seq<char>,
}

/// The courses that `entries` record for the student named `name`, in the
/// order of the entries.
pub open spec fn courses_of(entries: Seq<Entry>, name: Seq<char>) -> Seq<Seq<char>>
    decreases entries.len(),
{
    if entries.len() == 0 {
        Seq::empty()
    } else {
        let before = courses_of(entries.drop_last(), name);
        if entries.last().student == name {
            before.push(entries.last().course)
        } else {
            before
        }
    }
}

impl<'a> View for Enrollment<'a> {
    type V = Entry;

    closed spec fn view(&self) -> Entry {
        Entry { student: self.student.name@, course: self.course.name@ }
    }
}

impl<'a> Enrollment<'a> {
    /// The enrollment of `student` in `course`.
    pub fn new(student: &'a Student, course: &'a Course) -> (enrollment: Enrollment<'a>)
        ensures
            enrollment@ == (Entry { student: student.name@, course: course.name@ }),
    {
        Enrollment { student, course }
    }
}

impl<'a> View for Platform<'a> {
    type V = Seq<Entry>;

    closed spec fn view(&self) -> Seq<Entry> {
        Seq::new(self.enrollments@.len(), |i: int| self.enrollments@[i]@)
    }
}

impl<'a> Platform<'a> {
    /// A platform without enrollments.
    pub fn new() -> (platform: Platform<'a>)
        ensures
            platform@ == Seq::<Entry>::empty(),
    {
        Platform { enrollments: Vec::new() }
    }

    /// Records that `student` takes `course`.
    pub fn enroll(&mut self, student: &'a Student, course: &'a Course)
        ensures
            final(self)@ == old(self)@.push(
                Entry { student: student.name@, course: course.name@ },
            ),
    {
        self.enrollments.push(Enrollment::new(student, course));
    }
}

impl Student {
    /// The names of the courses that `platform` records for this student's
    /// name, in the order of enrollment.
    pub fn courses(&self, platform: Platform) -> (names: Vec<String>)
        ensures
            names.deep_view() == courses_of(platform@, self.name@),
    {
        let mut names: Vec<String> = Vec::new();
        let mut i: usize = 0;
        while i < platform.enrollments.len()
            invariant
                i <= platform.enrollments.len(),
                names.deep_view() == courses_of(platform@.take(i as int), self.name@),
            decreases platform.enrollments.len() - i,
        {
            let e = &platform.enrollments[i];
            proof {
                assert(platform@.take(i + 1).drop_last() =~= platform@.take(i as int));
                assert(platform@.take(i + 1).last() == e@);
            }
            if e.student.name == self.name {
                let ghost before = names.deep_view();
                names.push(e.course.name.clone());
                assert(names.deep_view() =~= before.push(e.course.name@));
            }
            i += 1;
        }
        assert(platform@.take(i as int) =~= platform@);
        names
    }
}

} // verus!
