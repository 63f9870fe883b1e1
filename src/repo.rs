use rand::Rng;
use vstd::prelude::*;

use crate::error::QuizError;
use crate::group::{group_text, Group, GroupSignupForm};
use crate::id::{id_of_text, id_text, lemma_id_of_own_text, EntityId};
use crate::store::{has_group, has_question, has_quiz, questions_of, Question, Quiz, Store};

verus! {

/// Relies on rand's `thread_rng().gen_range(1000..=9999)`: a value in the
/// closed range, drawn afresh on each call.
#[verifier::external_body]
fn draw_quiz_code() -> (r: u16)
    ensures
        1000 <= r <= 9999,
{
    rand::thread_rng().gen_range(1000..=9999)
}

/// A four-digit code to share a quiz by; two quizzes may draw the same one.
pub fn new_quiz_code() -> (r: u16)
    ensures
        1000 <= r <= 9999,
{
    draw_quiz_code()
}

/// A row of the `quizzes` table: the id in its hyphenated text form.
pub struct QuizRow {
    pub id: String,
    pub quiz_code: u16,
    pub date: String,
}

/// What a participant's signup hands back: the quiz joined, the new group,
/// and the value of the cookie that carries the group.
pub struct Registration {
    pub quiz: Quiz,
    pub group: Group,
    pub cookie_value: String,
}

impl Quiz {
    /// Stores a quiz with the given id, code and date. Fails, storing
    /// nothing, exactly when the id is already taken.
    pub fn create_with_id(id: EntityId, quiz_code: u16, date: String, store: &mut Store) -> (r:
        Result<Quiz, QuizError>)
        requires
            old(store)@.wf(),
        ensures
            final(store)@.wf(),
            r is Ok <==> !has_quiz(old(store)@.quizzes, id.value),
            match r {
                Ok(q) => {
                    &&& q.id == id
                    &&& q.quiz_code == quiz_code
                    &&& q.date@ == date@
                    &&& final(store)@.quizzes == old(store)@.quizzes.push(q@)
                    &&& final(store)@.questions == old(store)@.questions
                    &&& final(store)@.groups == old(store)@.groups
                },
                Err(e) => e == QuizError::PersistenceError && final(store)@ == old(store)@,
            },
    {
        let quiz = Quiz { id, quiz_code, date };
        let stored = Quiz { id, quiz_code, date: quiz.date.clone() };
        match store.insert_quiz(stored) {
            Ok(()) => Ok(quiz),
            Err(e) => Err(e),
        }
    }

    /// Creates a quiz for `date` with a fresh id and a four-digit code, and
    /// stores it. Fails, storing nothing, when the id is already taken, which
    /// cannot happen while no quiz is stored.
    pub fn new(date: String, store: &mut Store) -> (r: Result<Quiz, QuizError>)
        requires
            old(store)@.wf(),
        ensures
            final(store)@.wf(),
            old(store)@.quizzes.len() == 0 ==> r is Ok,
            match r {
                Ok(q) => {
                    &&& q.date@ == date@
                    &&& 1000 <= q.quiz_code <= 9999
                    &&& q.id.version() == 4
                    &&& !has_quiz(old(store)@.quizzes, q.id.value)
                    &&& final(store)@.quizzes == old(store)@.quizzes.push(q@)
                    &&& final(store)@.questions == old(store)@.questions
                    &&& final(store)@.groups == old(store)@.groups
                },
                Err(e) => e == QuizError::PersistenceError && final(store)@ == old(store)@,
            },
    {
        let id = EntityId::new_random();
        let quiz_code = new_quiz_code();
        Quiz::create_with_id(id, quiz_code, date, store)
    }

    /// The stored quiz with this id.
    pub fn find_by_uuid(uuid: EntityId, store: &Store) -> (r: Result<Quiz, QuizError>)
        ensures
            match r {
                Ok(q) => q.id == uuid && store@.quizzes.contains(q@),
                Err(e) => e == QuizError::NotFound && !has_quiz(store@.quizzes, uuid.value),
            },
    {
        match store.find_quiz(uuid) {
            Some(q) => Ok(Quiz { id: q.id, quiz_code: q.quiz_code, date: q.date.clone() }),
            None => Err(QuizError::NotFound),
        }
    }

    /// This quiz as a row of the `quizzes` table.
    pub fn to_row(&self) -> (r: QuizRow)
        ensures
            r.id@ == id_text(self.id.value),
            r.quiz_code == self.quiz_code,
            r.date@ == self.date@,
    {
        QuizRow { id: self.id.to_text(), quiz_code: self.quiz_code, date: self.date.clone() }
    }

    /// Reads a quiz from a row of the `quizzes` table; a row whose id is not
    /// a hyphenated identifier is refused.
    pub fn from_mysql_row(row: &QuizRow) -> (r: Result<Quiz, QuizError>)
        ensures
            match r {
                Ok(q) => {
                    &&& id_of_text(row.id@) == Some(q.id.value)
                    &&& q.quiz_code == row.quiz_code
                    &&& q.date@ == row.date@
                },
                Err(e) => e == QuizError::PersistenceError && id_of_text(row.id@) is None,
            },
    {
        match EntityId::parse(row.id.as_str()) {
            Some(id) => Ok(Quiz { id, quiz_code: row.quiz_code, date: row.date.clone() }),
            None => Err(QuizError::PersistenceError),
        }
    }
}

/// The id column that `to_row` writes is read back by `from_mysql_row` as
/// the same id.
pub proof fn lemma_quiz_row_round_trip(id: u128)
    ensures
        id_of_text(id_text(id)) == Some(id),
{
    lemma_id_of_own_text(id);
}

impl Question {
    /// Stores a question with the given id for quiz `quiz_uuid`, in section
    /// 1. Fails, storing nothing, exactly when the quiz is not stored or the
    /// id is taken.
    pub fn create_with_id(
        id: EntityId,
        quiz_uuid: EntityId,
        question: String,
        answer: String,
        store: &mut Store,
    ) -> (r: Result<Question, QuizError>)
        requires
            old(store)@.wf(),
        ensures
            final(store)@.wf(),
            r is Ok <==> (has_quiz(old(store)@.quizzes, quiz_uuid.value) && !has_question(
                old(store)@.questions,
                id.value,
            )),
            match r {
                Ok(q) => {
                    &&& q.id == id
                    &&& q.quiz_id == quiz_uuid
                    &&& q.question@ == question@
                    &&& q.answer@ == answer@
                    &&& q.section == 1
                    &&& final(store)@.questions == old(store)@.questions.push(q@)
                    &&& final(store)@.quizzes == old(store)@.quizzes
                    &&& final(store)@.groups == old(store)@.groups
                },
                Err(e) => e == QuizError::PersistenceError && final(store)@ == old(store)@,
            },
    {
        let q = Question { id, quiz_id: quiz_uuid, question, answer, section: 1 };
        let stored = Question {
            id,
            quiz_id: quiz_uuid,
            question: q.question.clone(),
            answer: q.answer.clone(),
            section: 1,
        };
        match store.insert_question(stored) {
            Ok(()) => Ok(q),
            Err(e) => Err(e),
        }
    }

    /// Stores a new question of quiz `quiz_uuid` in section 1, whatever
    /// section the host's form held. Fails, storing nothing, when the quiz
    /// is not stored or the fresh id is taken; the latter cannot happen while
    /// no question is stored.
    pub fn create_for_quiz(
        quiz_uuid: EntityId,
        question: String,
        answer: String,
        store: &mut Store,
    ) -> (r: Result<Question, QuizError>)
        requires
            old(store)@.wf(),
        ensures
            final(store)@.wf(),
            !has_quiz(old(store)@.quizzes, quiz_uuid.value) ==> r is Err,
            has_quiz(old(store)@.quizzes, quiz_uuid.value) && old(store)@.questions.len() == 0
                ==> r is Ok,
            match r {
                Ok(q) => {
                    &&& q.quiz_id == quiz_uuid
                    &&& q.question@ == question@
                    &&& q.answer@ == answer@
                    &&& q.section == 1
                    &&& q.id.version() == 4
                    &&& !has_question(old(store)@.questions, q.id.value)
                    &&& final(store)@.questions == old(store)@.questions.push(q@)
                    &&& final(store)@.quizzes == old(store)@.quizzes
                    &&& final(store)@.groups == old(store)@.groups
                },
                Err(e) => e == QuizError::PersistenceError && final(store)@ == old(store)@,
            },
    {
        let id = EntityId::new_random();
        Question::create_with_id(id, quiz_uuid, question, answer, store)
    }

    /// Every stored question of quiz `quiz_uuid`, in the order they were stored.
    pub fn find_all_for_quiz(quiz_uuid: EntityId, store: &Store) -> (r: Vec<Question>)
        ensures
            r@.map_values(|q: Question| q@) == questions_of(store@.questions, quiz_uuid.value),
    {
        store.questions_for(quiz_uuid)
    }
}

impl Group {
    /// Stores a group with the given id named `name` for `quiz`. Fails,
    /// storing nothing, exactly when the quiz is not stored or the id is taken.
    pub fn create_with_id(id: EntityId, quiz: &Quiz, name: &str, store: &mut Store) -> (r: Result<
        Group,
        QuizError,
    >)
        requires
            old(store)@.wf(),
        ensures
            final(store)@.wf(),
            r is Ok <==> (has_quiz(old(store)@.quizzes, quiz.id.value) && !has_group(
                old(store)@.groups,
                id.value,
            )),
            match r {
                Ok(g) => {
                    &&& g.id == id
                    &&& g.quiz_id == quiz.id
                    &&& g.name@ == name@
                    &&& final(store)@.groups == old(store)@.groups.push(g@)
                    &&& final(store)@.quizzes == old(store)@.quizzes
                    &&& final(store)@.questions == old(store)@.questions
                },
                Err(e) => e == QuizError::PersistenceError && final(store)@ == old(store)@,
            },
    {
        let g = Group { id, quiz_id: quiz.id, name: name.to_owned() };
        let stored = Group { id, quiz_id: quiz.id, name: g.name.clone() };
        match store.insert_group(stored) {
            Ok(()) => Ok(g),
            Err(e) => Err(e),
        }
    }

    /// Stores a new group named `name` for `quiz`. Fails, storing nothing,
    /// when the quiz is not stored or the fresh id is taken; the latter
    /// cannot happen while no group is stored.
    pub fn new(quiz: &Quiz, name: &str, store: &mut Store) -> (r: Result<Group, QuizError>)
        requires
            old(store)@.wf(),
        ensures
            final(store)@.wf(),
            !has_quiz(old(store)@.quizzes, quiz.id.value) ==> r is Err,
            has_quiz(old(store)@.quizzes, quiz.id.value) && old(store)@.groups.len() == 0
                ==> r is Ok,
            match r {
                Ok(g) => {
                    &&& g.quiz_id == quiz.id
                    &&& g.name@ == name@
                    &&& g.id.version() == 4
                    &&& !has_group(old(store)@.groups, g.id.value)
                    &&& final(store)@.groups == old(store)@.groups.push(g@)
                    &&& final(store)@.quizzes == old(store)@.quizzes
                    &&& final(store)@.questions == old(store)@.questions
                },
                Err(e) => e == QuizError::PersistenceError && final(store)@ == old(store)@,
            },
    {
        let id = EntityId::new_random();
        Group::create_with_id(id, quiz, name, store)
    }
}

/// The quiz id named by `uuid`, when it names a stored quiz.
pub open spec fn resolves(store_quizzes: Seq<crate::store::QuizView>, uuid: Seq<char>) -> bool {
    id_of_text(uuid) matches Some(v) && has_quiz(store_quizzes, v)
}

/// Signs a group up for the quiz whose id is the text `uuid`: the quiz must
/// be stored, else `NotFound` and nothing is written.
pub fn signup(form: &GroupSignupForm, uuid: &str, store: &mut Store) -> (r: Result<
    Registration,
    QuizError,
>)
    requires
        old(store)@.wf(),
    ensures
        final(store)@.wf(),
        !resolves(old(store)@.quizzes, uuid@) <==> r == Err::<Registration, QuizError>(
            QuizError::NotFound,
        ),
        resolves(old(store)@.quizzes, uuid@) && old(store)@.groups.len() == 0 ==> r is Ok,
        match r {
            Ok(reg) => {
                &&& id_of_text(uuid@) == Some(reg.quiz.id.value)
                &&& old(store)@.quizzes.contains(reg.quiz@)
                &&& reg.group.quiz_id == reg.quiz.id
                &&& reg.group.name@ == form.name@
                &&& !has_group(old(store)@.groups, reg.group.id.value)
                &&& reg.cookie_value@ == group_text(reg.group@)
                &&& final(store)@.groups == old(store)@.groups.push(reg.group@)
                &&& final(store)@.quizzes == old(store)@.quizzes
                &&& final(store)@.questions == old(store)@.questions
            },
            Err(e) => final(store)@ == old(store)@ && (e == QuizError::NotFound || e
                == QuizError::PersistenceError),
        },
{
    let quiz_id = match EntityId::parse(uuid) {
        Some(id) => id,
        None => return Err(QuizError::NotFound),
    };
    let quiz = match Quiz::find_by_uuid(quiz_id, store) {
        Ok(q) => q,
        Err(e) => return Err(e),
    };
    proof {
        let i = choose|i: int| 0 <= i < store@.quizzes.len() && store@.quizzes[i] == quiz@;
        assert(store@.quizzes[i].id == quiz_id.value);
    }
    match Group::new(&quiz, form.name.as_str(), store) {
        Ok(group) => {
            let cookie_value = group.to_string();
            Ok(Registration { quiz, group, cookie_value })
        },
        Err(e) => Err(e),
    }
}

} // verus!
