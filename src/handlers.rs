use vstd::prelude::*;

use crate::auth::SessionState;
use crate::error::QuizError;
use crate::id::{id_of_text, EntityId};
use crate::repo::resolves;
use crate::store::{questions_of, Question, Quiz, Store};

verus! {

/// What the host's dashboard shows.
pub struct HostDashboardContext {
    pub authenticated: bool,
    pub quizzes: Vec<Quiz>,
}

/// What the host's page of one quiz shows.
pub struct ViewQuizAsHostContext {
    pub uuid: String,
    pub quiz: Quiz,
    pub questions: Vec<Question>,
}

/// The host's form for a new quiz.
pub struct NewQuizForm {
    pub date: String,
}

/// The host's form for a new question; its section is not stored.
pub struct NewQuestionForm {
    pub question: String,
    pub answer: String,
    pub section: i32,
}

/// The dashboard: every quiz for the authenticated host, nothing for anyone else.
pub fn host_dashboard(state: SessionState, store: &Store) -> (r: HostDashboardContext)
    ensures
        r.authenticated == (state == SessionState::Authenticated),
        r.authenticated ==> r.quizzes@.map_values(|q: Quiz| q@) == store@.quizzes,
        !r.authenticated ==> r.quizzes@.len() == 0,
{
    match state {
        SessionState::Authenticated => HostDashboardContext {
            authenticated: true,
            quizzes: store.list_quizzes(),
        },
        SessionState::Unauthenticated => HostDashboardContext {
            authenticated: false,
            quizzes: Vec::new(),
        },
    }
}

/// Creates a quiz from the host's form.
pub fn create_quiz(form: NewQuizForm, store: &mut Store) -> (r: Result<Quiz, QuizError>)
    requires
        old(store)@.wf(),
    ensures
        final(store)@.wf(),
        old(store)@.quizzes.len() == 0 ==> r is Ok,
        match r {
            Ok(q) => {
                &&& q.date@ == form.date@
                &&& 1000 <= q.quiz_code <= 9999
                &&& final(store)@.quizzes == old(store)@.quizzes.push(q@)
                &&& final(store)@.questions == old(store)@.questions
                &&& final(store)@.groups == old(store)@.groups
            },
            Err(e) => e == QuizError::PersistenceError && final(store)@ == old(store)@,
        },
{
    Quiz::new(form.date, store)
}

/// The quiz whose id is the text `uuid`, with its questions.
pub fn view_quiz_as_host(uuid: &str, store: &Store) -> (r: Result<ViewQuizAsHostContext, QuizError>)
    ensures
        !resolves(store@.quizzes, uuid@) <==> r is Err,
        match r {
            Ok(c) => {
                &&& c.uuid@ == uuid@
                &&& id_of_text(uuid@) == Some(c.quiz.id.value)
                &&& store@.quizzes.contains(c.quiz@)
                &&& c.questions@.map_values(|q: Question| q@) == questions_of(
                    store@.questions,
                    c.quiz.id.value,
                )
            },
            Err(e) => e == QuizError::NotFound,
        },
{
    let id = match EntityId::parse(uuid) {
        Some(id) => id,
        None => return Err(QuizError::NotFound),
    };
    let quiz = match Quiz::find_by_uuid(id, store) {
        Ok(q) => q,
        Err(e) => return Err(e),
    };
    proof {
        let i = choose|i: int| 0 <= i < store@.quizzes.len() && store@.quizzes[i] == quiz@;
        assert(store@.quizzes[i].id == id.value);
    }
    let questions = Question::find_all_for_quiz(id, store);
    Ok(ViewQuizAsHostContext { uuid: uuid.to_owned(), quiz, questions })
}

/// Adds a question from the host's form to the quiz whose id is the text
/// `uuid`, in section 1 whatever the form says.
pub fn add_question_to_quiz(uuid: &str, form: NewQuestionForm, store: &mut Store) -> (r: Result<
    Question,
    QuizError,
>)
    requires
        old(store)@.wf(),
    ensures
        final(store)@.wf(),
        id_of_text(uuid@) is None ==> r == Err::<Question, QuizError>(QuizError::NotFound),
        !resolves(old(store)@.quizzes, uuid@) ==> r is Err,
        resolves(old(store)@.quizzes, uuid@) && old(store)@.questions.len() == 0 ==> r is Ok,
        match r {
            Ok(q) => {
                &&& id_of_text(uuid@) == Some(q.quiz_id.value)
                &&& q.question@ == form.question@
                &&& q.answer@ == form.answer@
                &&& q.section == 1
                &&& final(store)@.questions == old(store)@.questions.push(q@)
                &&& final(store)@.quizzes == old(store)@.quizzes
                &&& final(store)@.groups == old(store)@.groups
            },
            Err(_) => final(store)@ == old(store)@,
        },
{
    let id = match EntityId::parse(uuid) {
        Some(id) => id,
        None => return Err(QuizError::NotFound),
    };
    Question::create_for_quiz(id, form.question, form.answer, store)
}

} // verus!
