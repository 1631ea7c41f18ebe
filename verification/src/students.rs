//! Students: reading one from a line of comma-separated fields, and finding
//! the oldest and the youngest of a class.

use crate::fields::{pieces, split_on};
use vstd::prelude::*;
use vstd::string::*;

verus! {

/// A student. The phone number may be unknown.
pub struct Student {
    pub name: String,
    pub phone: Option<String>,
    pub age: u8,
}

/// What is known of a student, as plain values.
pub struct StudentView {
    pub name: Seq<char>,
    pub phone: Option<Seq<char>>,
    pub age: u8,
}

impl View for Student {
    type V = StudentView;

    open spec fn view(&self) -> StudentView {
        StudentView {
            name: self.name@,
            phone: match self.phone {
                Some(phone) => Some(phone@),
                None => None,
            },
            age: self.age,
        }
    }
}

/// An age that is not a number from 0 to 255.
#[derive(Debug)]
pub struct InvalidAge {}

/// Whether every character is a decimal digit.
pub open spec fn all_digits(s: Seq<char>) -> bool {
    forall|i: int| 0 <= i < s.len() ==> '0' <= #[trigger] s[i] <= '9'
}

/// The number that a sequence of digits stands for.
pub open spec fn digits_value(s: Seq<char>) -> nat
    decreases s.len(),
{
    if s.len() == 0 {
        0
    } else {
        digits_value(s.drop_last()) * 10 + (s.last() as u8 - '0' as u8) as nat
    }
}

/// What follows the plus sign that a number may begin with.
pub open spec fn unsigned_part(s: Seq<char>) -> Seq<char> {
    if s.len() > 0 && s[0] == '+' {
        s.drop_first()
    } else {
        s
    }
}

/// The small number that a string stands for: digits, at least one, with or
/// without a plus sign before them, that make a number of at most 255.
pub open spec fn small_number(s: Seq<char>) -> Option<u8> {
    let body = unsigned_part(s);
    if body.len() > 0 && all_digits(body) && digits_value(body) <= 255 {
        Some(digits_value(body) as u8)
    } else {
        None
    }
}

/// A prefix of digits stands for no more than the whole.
pub proof fn lemma_digits_grow(s: Seq<char>, n: int)
    requires
        0 <= n <= s.len(),
    ensures
        digits_value(s.take(n)) <= digits_value(s),
    decreases s.len() - n,
{
    if n == s.len() {
        assert(s.take(n) =~= s);
    } else {
        lemma_digits_grow(s, n + 1);
        assert(s.take(n + 1).drop_last() =~= s.take(n));
    }
}

/// Reads a number from 0 to 255.
pub fn parse_u8(s: &str) -> (number: Option<u8>)
    ensures
        number == small_number(s@),
{
    let ghost all = s@;
    let ghost body = unsigned_part(all);
    let ghost skip: int = all.len() - body.len();
    let mut value: u16 = 0;
    let ghost mut digits: int = 0;
    let mut any = false;
    let mut first = true;
    proof {
        assert(body.take(0) =~= Seq::<char>::empty());
    }
    for c in it: s.chars()
        invariant
            it.seq() == all,
            all == s@,
            any <==> digits > 0,
            body == unsigned_part(all),
            skip == all.len() - body.len(),
            0 <= skip <= 1,
            first <==> it.index() == 0,
            digits == (if it.index() >= skip { it.index() - skip } else { 0int }),
            it.index() > 0 ==> it.index() >= skip,
            all_digits(body.take(digits)),
            value == digits_value(body.take(digits)),
            value <= 255,
    {
        let ghost i = it.index() as int;
        assert(all[i] == c);
        if first && c == '+' {
            first = false;
            assert(skip == 1);
        } else {
            first = false;
            assert(body[digits] == c) by {
                if skip == 1 {
                    assert(body[digits] == all[digits + 1]);
                }
            }
            if c < '0' || c > '9' {
                assert(!all_digits(body));
                return None;
            }
            let d: u16 = (c as u8 - 48u8) as u16;
            proof {
                assert(body.take(digits + 1).drop_last() =~= body.take(digits));
                assert(body.take(digits + 1).last() == c);
                assert(digits_value(body.take(digits + 1)) == value * 10 + d);
                lemma_digits_grow(body, digits + 1);
            }
            if value * 10 + d > 255 {
                return None;
            }
            value = value * 10 + d;
            any = true;
            proof {
                digits = digits + 1;
                assert forall|k: int| 0 <= k < digits implies '0' <= #[trigger] body.take(
                    digits,
                )[k] <= '9' by {
                    if k < digits - 1 {
                        assert(body.take(digits - 1)[k] == body[k]);
                    }
                }
            }
        }
    }
    proof {
        assert(body.take(body.len() as int) =~= body);
    }
    if !any {
        return None;
    }
    Some(value as u8)
}

/// The student that a line of fields describes, if its age can be read: the
/// first field is the name, the second the phone number, the third the age.
/// Without a second field the phone number is unknown, without a third the
/// age is zero, and further fields say nothing.
pub open spec fn described(line: Seq<char>) -> Option<StudentView> {
    let fields = pieces(line, ',');
    let name = fields[0];
    let phone = if fields.len() > 1 {
        Some(fields[1])
    } else {
        None
    };
    if fields.len() > 2 {
        match small_number(fields[2]) {
            Some(age) => Some(StudentView { name, phone, age }),
            None => None,
        }
    } else {
        Some(StudentView { name, phone, age: 0 })
    }
}

/// Reads a student from a line of comma-separated fields.
pub fn parse_student(line: &str) -> (result: Result<Student, InvalidAge>)
    ensures
        match result {
            Ok(student) => described(line@) == Some(student@),
            Err(_) => described(line@) is None,
        },
{
    let fields = split_on(line, ',');
    let ghost listed = fields@.map_values(|p: String| p@);
    let name = fields[0].clone();
    assert(name@ == listed[0]);
    let mut phone: Option<String> = None;
    if fields.len() > 1 {
        let second = fields[1].clone();
        assert(second@ == listed[1]);
        phone = Some(second);
    }
    let mut age: u8 = 0;
    if fields.len() > 2 {
        assert(fields@[2]@ == listed[2]);
        match parse_u8(fields[2].as_str()) {
            Some(n) => {
                age = n;
            },
            None => {
                return Err(InvalidAge {  });
            },
        }
    }
    Ok(Student { name, phone, age })
}

/// The oldest and the youngest student seen so far.
pub struct Extremes {
    pub oldest: Student,
    pub youngest: Student,
}

/// The extremes before any student: nobody of age 0 as the oldest, nobody of
/// age 255 as the youngest.
pub open spec fn no_extremes() -> (StudentView, StudentView) {
    (
        StudentView { name: Seq::empty(), phone: None, age: 0 },
        StudentView { name: Seq::empty(), phone: None, age: 255 },
    )
}

/// The extremes of a class, oldest first: the students are taken in their
/// order; who is older than the oldest so far takes that place, and who is
/// not, and is younger than the youngest so far, takes this one.
pub open spec fn extremes_of(class: Seq<StudentView>) -> (StudentView, StudentView)
    decreases class.len(),
{
    if class.len() == 0 {
        no_extremes()
    } else {
        let before = extremes_of(class.drop_last());
        let student = class.last();
        if student.age > before.0.age {
            (student, before.1)
        } else if student.age < before.1.age {
            (before.0, student)
        } else {
            before
        }
    }
}

/// Finds the oldest and the youngest student of a class.
pub fn oldest_and_youngest(class: Vec<Student>) -> (extremes: Extremes)
    ensures
        (extremes.oldest@, extremes.youngest@) == extremes_of(class@.map_values(|s: Student| s@)),
{
    let mut class = class;
    let ghost all = class@.map_values(|s: Student| s@);
    let mut rest: Vec<Student> = Vec::new();
    while class.len() > 0
        invariant
            class@.len() + rest@.len() == all.len(),
            forall|k: int| 0 <= k < class@.len() ==> (#[trigger] class@[k])@ == all[k],
            forall|k: int|
                0 <= k < rest@.len() ==> (#[trigger] rest@[k])@ == all[all.len() - 1 - k],
        decreases class@.len(),
    {
        let student = class.pop().unwrap();
        rest.push(student);
    }
    let mut extremes = Extremes {
        oldest: Student { name: String::new(), phone: None, age: 0 },
        youngest: Student { name: String::new(), phone: None, age: 255 },
    };
    proof {
        assert(all.take(0) =~= Seq::<StudentView>::empty());
    }
    let ghost mut done: int = 0;
    while rest.len() > 0
        invariant
            0 <= done <= all.len(),
            rest@.len() == all.len() - done,
            forall|k: int|
                0 <= k < rest@.len() ==> (#[trigger] rest@[k])@ == all[all.len() - 1 - k],
            (extremes.oldest@, extremes.youngest@) == extremes_of(all.take(done)),
        decreases rest@.len(),
    {
        let student = rest.pop().unwrap();
        proof {
            assert(student@ == all[done]);
            assert(all.take(done + 1).drop_last() =~= all.take(done));
            assert(all.take(done + 1).last() == student@);
        }
        if student.age > extremes.oldest.age {
            extremes.oldest = student;
        } else if student.age < extremes.youngest.age {
            extremes.youngest = student;
        }
        proof {
            done = done + 1;
        }
    }
    proof {
        assert(all.take(done) =~= all);
    }
    extremes
}

} // verus!
