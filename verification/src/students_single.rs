//! A record of students, kept in one process.

use vstd::prelude::*;

verus! {

pub type Student = String;

pub struct StudentRecord {
    students: Vec<Student>,
}

/// The names in a list of students, in order.
pub open spec fn names(students: Seq<Student>) -> Seq<Seq<char>> {
    Seq::new(students.len(), |i: int| students[i]@)
}

/// Whether `student` is in the list.
pub fn contains_name(students: &Vec<Student>, student: &Student) -> (b: bool)
    ensures
        b == names(students@).contains(student@),
{
    let mut i: usize = 0;
    while i < students.len()
        invariant
            i <= students@.len(),
            forall|j: int| 0 <= j < i ==> names(students@)[j] != student@,
        decreases students@.len() - i,
    {
        if students[i] == *student {
            assert(names(students@)[i as int] == student@);
            return true;
        }
        i += 1;
    }
    false
}

impl View for StudentRecord {
    type V = Seq<Seq<char>>;

    closed spec fn view(&self) -> Seq<Seq<char>> {
        names(self.students@)
    }
}

impl StudentRecord {
    pub fn new() -> (r: Self)
        ensures
            r@ == Seq::<Seq<char>>::empty(),
    {
        let r = StudentRecord { students: Vec::new() };
        assert(r@ =~= Seq::<Seq<char>>::empty());
        r
    }

    pub fn add_student(&mut self, student: Student)
        ensures
            final(self)@ == old(self)@.push(student@),
    {
        self.students.push(student);
        assert(self@ =~= old(self)@.push(student@));
    }

    pub fn has_student(&self, student: Student) -> (b: bool)
        ensures
            b == self@.contains(student@),
    {
        contains_name(&self.students, &student)
    }
}

} // verus!
