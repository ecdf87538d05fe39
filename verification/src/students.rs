//! A record of students, and its use from afar: the record may live at another
//! endpoint, and a proxy for it is the record itself or a handle on it.

use vstd::prelude::*;
use crate::json::{Json, JsonView, json_text};
use crate::message_serialisation::{InvokeOp, Message, MessageView};
use crate::proxy_lib::{
    Proxy, ProxyHandle, ReturnTypeOptions, SerializeTagL, Stub, StubError, lent_text,
    method_invoke, mut_ref_remote, receive_value, ref_remote, replied_value,
};
use crate::students_single::{contains_name, names};
use crate::variable::{Variable, VariableView};
use crate::wire::{Wire, encode, is_text};

verus! {

pub type Student = String;

/// The name under which `StudentRecord::new` is registered and invoked.
pub const NEW: &'static str = "umi::students::StudentRecord::new";

/// The name under which `StudentRecord::add_student` is registered and invoked.
pub const ADD_STUDENT: &'static str = "umi::students::StudentRecord::add_student";

/// The name under which `StudentRecord::has_student` is registered and invoked.
pub const HAS_STUDENT: &'static str = "umi::students::StudentRecord::has_student";

#[derive(Debug, PartialEq, Eq)]
pub struct StudentRecord {
    students: Vec<Student>,
}

impl View for StudentRecord {
    type V = Seq<Seq<char>>;

    closed spec fn view(&self) -> Seq<Seq<char>> {
        names(self.students@)
    }
}

impl StudentRecord {
    pub fn new() -> (r: Self)
        ensures
            r@ == Seq::<Seq<char>>::empty(),
    {
        let r = StudentRecord { students: Vec::new() };
        assert(r@ =~= Seq::<Seq<char>>::empty());
        r
    }

    pub fn add_student(&mut self, student: Student)
        ensures
            final(self)@ == old(self)@.push(student@),
    {
        self.students.push(student);
        assert(self@ =~= old(self)@.push(student@));
    }

    pub fn has_student(&self, student: Student) -> (b: bool)
        ensures
            b == self@.contains(student@),
    {
        contains_name(&self.students, &student)
    }
}

/// The JSON form of a record: an object whose member `students` lists the
/// names.
pub open spec fn record_json(students: Seq<Seq<char>>) -> JsonView {
    JsonView::Record(
        seq![
            (
                "students"@,
                JsonView::List(Seq::new(students.len(), |i: int| JsonView::Text(students[i]))),
            ),
        ],
    )
}

/// The names in the JSON form of a record.
pub open spec fn json_students(j: JsonView) -> Option<Seq<Seq<char>>> {
    match j {
        JsonView::Record(members) => if members.len() == 1 && members[0].0 == "students"@
            && Vec::<String>::accepts(members[0].1) {
            Some(
                Seq::new(
                    members[0].1->List_0.len(),
                    |i: int| members[0].1->List_0[i]->Text_0,
                ),
            )
        } else {
            None
        },
        _ => None,
    }
}

/// A record that is written and read again is the same record.
pub proof fn lemma_record_round_trip(students: Seq<Seq<char>>)
    ensures
        json_students(record_json(students)) == Some(students),
{
    let list = JsonView::List(Seq::new(students.len(), |i: int| JsonView::Text(students[i])));
    assert(Vec::<String>::accepts(list));
    assert(json_students(record_json(students))->0 =~= students);
}

impl Wire for StudentRecord {
    open spec fn json(&self) -> JsonView {
        record_json(self@)
    }

    open spec fn accepts(j: JsonView) -> bool {
        json_students(j) is Some
    }

    fn to_json(&self) -> (j: Json) {
        let list = self.students.to_json();
        let mut members: Vec<(String, Json)> = Vec::new();
        members.push(("students".to_owned(), list));
        let j = Json::record(members);
        proof {
            assert(list@->List_0 =~= Seq::new(self@.len(), |i: int| JsonView::Text(self@[i])));
            assert(j@->Record_0 =~= seq![("students"@, list@)]);
        }
        j
    }

    fn from_json(j: &Json) -> (r: Option<Self>) {
        let members = match j.members() {
            Some(members) => members,
            None => {
                return None;
            },
        };
        if members.len() != 1 || !is_text(&members[0].0, "students") {
            return None;
        }
        match Vec::<String>::from_json(&members[0].1) {
            Some(students) => {
                let r = StudentRecord { students };
                proof {
                    let list = members@[0].1@;
                    assert(list->List_0 =~= Seq::new(r@.len(), |i: int| JsonView::Text(r@[i])));
                    assert(j@->Record_0 =~= seq![("students"@, list)]);
                }
                Some(r)
            },
            None => None,
        }
    }

    proof fn lemma_accepts_own(&self) {
        lemma_record_round_trip(self@);
    }
}

impl SerializeTagL for StudentRecord {
    open spec fn travels_as(&self) -> JsonView {
        self.json()
    }

    fn tagged_string(&self) -> (r: (String, bool)) {
        (encode(self), true)
    }
}

/// The argument that carries the name of a student.
pub open spec fn student_argument(student: Seq<char>) -> VariableView {
    VariableView::OwnedLocal(json_text(JsonView::Text(student)))
}

impl ProxyHandle<StudentRecord> {
    /// Adds a student. A record that is here takes the student in. A handle
    /// gives the call that adds the student where the record is: the handle as
    /// an exclusive borrow, then the student.
    pub fn add_student(&mut self, student: Student) -> (r: Stub<()>)
        ensures
            match *old(self) {
                ProxyHandle::Local(record) => {
                    &&& r == Stub::Done(())
                    &&& *final(self) matches ProxyHandle::Local(after)
                    &&& after@ == record@.push(student@)
                },
                ProxyHandle::Remote(..) => {
                    let h = old(self).remote()->0;
                    &&& *final(self) == *old(self)
                    &&& r matches Stub::Call(to, msg)
                    &&& to@ == h.address
                    &&& msg@ == MessageView::Invoke(
                        ADD_STUDENT@,
                        seq![
                            VariableView::MutRefRemote(lent_text(h), h.address, h.id),
                            student_argument(student@),
                        ],
                        InvokeOp::Owned,
                    )
                },
            },
    {
        match self {
            ProxyHandle::Local(record) => {
                record.add_student(student);
                Stub::Done(())
            },
            ProxyHandle::Remote(address, id, _) => {
                let receiver = mut_ref_remote(address, id);
                let mut args: Vec<Variable> = Vec::new();
                args.push(Variable::OwnedLocal(encode(&student)));
                let msg = method_invoke(ADD_STUDENT, receiver, args, ReturnTypeOptions::Default);
                assert(msg@->Invoke_1 =~= seq![receiver@, student_argument(student@)]);
                Stub::Call(address.duplicate(), msg)
            },
        }
    }

    /// Whether a student is in the record. A record that is here answers. A
    /// handle gives the call that asks where the record is: the handle as a
    /// shared borrow, then the student.
    pub fn has_student(&self, student: Student) -> (r: Stub<bool>)
        ensures
            match *self {
                ProxyHandle::Local(record) => r == Stub::Done(record@.contains(student@)),
                ProxyHandle::Remote(..) => {
                    let h = self.remote()->0;
                    &&& r matches Stub::Call(to, msg)
                    &&& to@ == h.address
                    &&& msg@ == MessageView::Invoke(
                        HAS_STUDENT@,
                        seq![
                            VariableView::RefRemote(lent_text(h), h.address, h.id),
                            student_argument(student@),
                        ],
                        InvokeOp::Owned,
                    )
                },
            },
    {
        match self {
            ProxyHandle::Local(record) => Stub::Done(record.has_student(student)),
            ProxyHandle::Remote(address, id, _) => {
                let receiver = ref_remote(address, id);
                let mut args: Vec<Variable> = Vec::new();
                args.push(Variable::OwnedLocal(encode(&student)));
                let msg = method_invoke(HAS_STUDENT, receiver, args, ReturnTypeOptions::Owned);
                assert(msg@->Invoke_1 =~= seq![receiver@, student_argument(student@)]);
                Stub::Call(address.duplicate(), msg)
            },
        }
    }

    /// The answer in the reply to the call of `has_student`.
    pub fn has_student_reply(reply: Message) -> (r: Result<bool, StubError>)
        ensures
            replied_value(reply@, r),
    {
        receive_value::<bool>(reply)
    }

    /// Checks the reply to the call of `add_student`, which carries no value.
    pub fn add_student_reply(reply: Message) -> (r: Result<(), StubError>)
        ensures
            replied_value(reply@, r),
    {
        receive_value::<()>(reply)
    }
}

} // verus!
