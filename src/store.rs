use vstd::prelude::*;

use crate::error::QuizError;
use crate::group::{Group, GroupView};
use crate::id::EntityId;

verus! {

/// A quiz: its identifier, a four-digit code to share, and its date as given.
#[derive(Debug, PartialEq, Eq)]
pub struct Quiz {
    pub id: EntityId,
    pub quiz_code: u16,
    pub date: String,
}

pub struct QuizView {
    pub id: u128,
    pub quiz_code: u16,
    pub date: Seq<char>,
}

impl View for Quiz {
    type V = QuizView;

    open spec fn view(&self) -> QuizView {
        QuizView { id: self.id.value, quiz_code: self.quiz_code, date: self.date@ }
    }
}

/// A question of a quiz, with its answer and its section.
#[derive(Debug, PartialEq, Eq)]
pub struct Question {
    pub id: EntityId,
    pub quiz_id: EntityId,
    pub question: String,
    pub answer: String,
    pub section: u32,
}

pub struct QuestionView {
    pub id: u128,
    pub quiz_id: u128,
    pub question: Seq<char>,
    pub answer: Seq<char>,
    pub section: u32,
}

impl View for Question {
    type V = QuestionView;

    open spec fn view(&self) -> QuestionView {
        QuestionView {
            id: self.id.value,
            quiz_id: self.quiz_id.value,
            question: self.question@,
            answer: self.answer@,
            section: self.section,
        }
    }
}

/// The three tables of the store: `quizzes`, `questions` and `groups`.
pub struct Store {
    quizzes: Vec<Quiz>,
    questions: Vec<Question>,
    groups: Vec<Group>,
}

pub struct StoreView {
    pub quizzes: Seq<QuizView>,
    pub questions: Seq<QuestionView>,
    pub groups: Seq<GroupView>,
}

impl View for Store {
    type V = StoreView;

    closed spec fn view(&self) -> StoreView {
        StoreView {
            quizzes: self.quizzes@.map_values(|q: Quiz| q@),
            questions: self.questions@.map_values(|q: Question| q@),
            groups: self.groups@.map_values(|g: Group| g@),
        }
    }
}

pub open spec fn has_quiz(quizzes: Seq<QuizView>, id: u128) -> bool {
    exists|i: int| 0 <= i < quizzes.len() && quizzes[i].id == id
}

pub open spec fn has_question(questions: Seq<QuestionView>, id: u128) -> bool {
    exists|i: int| 0 <= i < questions.len() && questions[i].id == id
}

pub open spec fn has_group(groups: Seq<GroupView>, id: u128) -> bool {
    exists|i: int| 0 <= i < groups.len() && groups[i].id == id
}

/// The questions of quiz `id`, in the order they were stored.
pub open spec fn questions_of(questions: Seq<QuestionView>, id: u128) -> Seq<QuestionView>
    decreases questions.len(),
{
    if questions.len() == 0 {
        Seq::empty()
    } else {
        let rest = questions_of(questions.drop_last(), id);
        if questions.last().quiz_id == id {
            rest.push(questions.last())
        } else {
            rest
        }
    }
}

impl StoreView {
    /// Keys are unique in each table, and every question and group names a
    /// quiz that is stored.
    pub open spec fn wf(self) -> bool {
        &&& forall|i: int, j: int|
            0 <= i < j < self.quizzes.len() ==> self.quizzes[i].id != self.quizzes[j].id
        &&& forall|i: int, j: int|
            0 <= i < j < self.questions.len() ==> self.questions[i].id != self.questions[j].id
        &&& forall|i: int, j: int|
            0 <= i < j < self.groups.len() ==> self.groups[i].id != self.groups[j].id
        &&& forall|i: int|
            0 <= i < self.questions.len() ==> has_quiz(self.quizzes, #[trigger] self.questions[i].quiz_id)
        &&& forall|i: int|
            0 <= i < self.groups.len() ==> has_quiz(self.quizzes, #[trigger] self.groups[i].quiz_id)
    }
}

proof fn lemma_push_contains<A>(s: Seq<A>, x: A, y: A)
    ensures
        s.push(x).contains(y) <==> (s.contains(y) || x == y),
{
    if s.push(x).contains(y) {
        let i = choose|i: int| 0 <= i < s.push(x).len() && s.push(x)[i] == y;
        if i < s.len() {
            assert(s[i] == y);
        }
    }
    if s.contains(y) {
        let i = choose|i: int| 0 <= i < s.len() && s[i] == y;
        assert(s.push(x)[i] == y);
    }
    if x == y {
        assert(s.push(x)[s.len() as int] == y);
    }
}

/// Of a question table and a quiz id: a question is listed for the quiz
/// exactly when it is in the table under that quiz id.
pub proof fn lemma_questions_of_exact(questions: Seq<QuestionView>, id: u128, q: QuestionView)
    ensures
        questions_of(questions, id).contains(q) <==> (questions.contains(q) && q.quiz_id == id),
    decreases questions.len(),
{
    if questions.len() > 0 {
        let init = questions.drop_last();
        let l = questions.last();
        lemma_questions_of_exact(init, id, q);
        assert(questions =~= init.push(l));
        lemma_push_contains(init, l, q);
        lemma_push_contains(questions_of(init, id), l, q);
    }
}

/// Storing one more question lists it for its own quiz, after the earlier
/// ones, and leaves the list of every other quiz as it was.
pub proof fn lemma_questions_of_after_insert(questions: Seq<QuestionView>, q: QuestionView, id: u128)
    ensures
        questions_of(questions.push(q), id) == (if q.quiz_id == id {
            questions_of(questions, id).push(q)
        } else {
            questions_of(questions, id)
        }),
{
    assert(questions.push(q).drop_last() =~= questions);
}

/// An empty question table lists nothing for any quiz.
pub proof fn lemma_questions_of_empty(id: u128)
    ensures
        questions_of(Seq::empty(), id) == Seq::<QuestionView>::empty(),
{
}

impl Quiz {
    fn duplicate(&self) -> (r: Quiz)
        ensures
            r@ == self@,
    {
        Quiz { id: self.id, quiz_code: self.quiz_code, date: self.date.clone() }
    }
}

impl Question {
    fn duplicate(&self) -> (r: Question)
        ensures
            r@ == self@,
    {
        Question {
            id: self.id,
            quiz_id: self.quiz_id,
            question: self.question.clone(),
            answer: self.answer.clone(),
            section: self.section,
        }
    }
}

impl Store {
    /// A store with three empty tables.
    pub fn new() -> (r: Store)
        ensures
            r@.quizzes.len() == 0,
            r@.questions.len() == 0,
            r@.groups.len() == 0,
            r@.wf(),
    {
        Store { quizzes: Vec::new(), questions: Vec::new(), groups: Vec::new() }
    }

    fn quiz_index(&self, id: EntityId) -> (r: Option<usize>)
        ensures
            match r {
                Some(i) => i < self@.quizzes.len() && self@.quizzes[i as int].id == id.value,
                None => !has_quiz(self@.quizzes, id.value),
            },
    {
        let mut i: usize = 0;
        while i < self.quizzes.len()
            invariant
                i <= self.quizzes.len(),
                forall|j: int| 0 <= j < i ==> self@.quizzes[j].id != id.value,
            decreases self.quizzes.len() - i,
        {
            if self.quizzes[i].id == id {
                return Some(i);
            }
            i = i + 1;
        }
        None
    }

    fn has_question_id(&self, id: EntityId) -> (r: bool)
        ensures
            r == has_question(self@.questions, id.value),
    {
        let mut i: usize = 0;
        while i < self.questions.len()
            invariant
                i <= self.questions.len(),
                forall|j: int| 0 <= j < i ==> self@.questions[j].id != id.value,
            decreases self.questions.len() - i,
        {
            if self.questions[i].id == id {
                proof {
                    assert(self@.questions[i as int].id == id.value);
                }
                return true;
            }
            i = i + 1;
        }
        false
    }

    fn has_group_id(&self, id: EntityId) -> (r: bool)
        ensures
            r == has_group(self@.groups, id.value),
    {
        let mut i: usize = 0;
        while i < self.groups.len()
            invariant
                i <= self.groups.len(),
                forall|j: int| 0 <= j < i ==> self@.groups[j].id != id.value,
            decreases self.groups.len() - i,
        {
            if self.groups[i].id == id {
                proof {
                    assert(self@.groups[i as int].id == id.value);
                }
                return true;
            }
            i = i + 1;
        }
        false
    }

    /// Inserts a row into `quizzes`; refused when its id is taken.
    pub fn insert_quiz(&mut self, quiz: Quiz) -> (r: Result<(), QuizError>)
        requires
            old(self)@.wf(),
        ensures
            final(self)@.wf(),
            r is Ok <==> !has_quiz(old(self)@.quizzes, quiz.id.value),
            r is Ok ==> final(self)@ == (StoreView {
                quizzes: old(self)@.quizzes.push(quiz@),
                ..old(self)@
            }),
            r matches Err(e) ==> e == QuizError::PersistenceError && final(self)@ == old(self)@,
    {
        if self.quiz_index(quiz.id).is_some() {
            return Err(QuizError::PersistenceError);
        }
        let ghost before = self@;
        self.quizzes.push(quiz);
        proof {
            assert(self@.quizzes =~= before.quizzes.push(quiz@));
            assert forall|i: int| 0 <= i < self@.questions.len() implies has_quiz(
                self@.quizzes,
                #[trigger] self@.questions[i].quiz_id,
            ) by {
                let k = choose|k: int|
                    0 <= k < before.quizzes.len() && before.quizzes[k].id == before.questions[i].quiz_id;
                assert(self@.quizzes[k] == before.quizzes[k]);
            }
            assert forall|i: int| 0 <= i < self@.groups.len() implies has_quiz(
                self@.quizzes,
                #[trigger] self@.groups[i].quiz_id,
            ) by {
                let k = choose|k: int|
                    0 <= k < before.quizzes.len() && before.quizzes[k].id == before.groups[i].quiz_id;
                assert(self@.quizzes[k] == before.quizzes[k]);
            }
        }
        Ok(())
    }

    /// Inserts a row into `questions`; refused when its id is taken or its
    /// quiz is not stored.
    pub fn insert_question(&mut self, question: Question) -> (r: Result<(), QuizError>)
        requires
            old(self)@.wf(),
        ensures
            final(self)@.wf(),
            r is Ok <==> (has_quiz(old(self)@.quizzes, question.quiz_id.value) && !has_question(
                old(self)@.questions,
                question.id.value,
            )),
            r is Ok ==> final(self)@ == (StoreView {
                questions: old(self)@.questions.push(question@),
                ..old(self)@
            }),
            r matches Err(e) ==> e == QuizError::PersistenceError && final(self)@ == old(self)@,
    {
        if self.quiz_index(question.quiz_id).is_none() || self.has_question_id(question.id) {
            return Err(QuizError::PersistenceError);
        }
        let ghost before = self@;
        self.questions.push(question);
        proof {
            assert(self@.questions =~= before.questions.push(question@));
            assert(self@.quizzes =~= before.quizzes);
            assert(self@.groups =~= before.groups);
            assert forall|i: int, j: int|
                0 <= i < j < self@.questions.len() implies self@.questions[i].id
                != self@.questions[j].id by {
                if j == before.questions.len() {
                    assert(before.questions[i].id != question.id.value);
                }
            }
        }
        Ok(())
    }

    /// Inserts a row into `groups`; refused when its id is taken or its quiz
    /// is not stored.
    pub fn insert_group(&mut self, group: Group) -> (r: Result<(), QuizError>)
        requires
            old(self)@.wf(),
        ensures
            final(self)@.wf(),
            r is Ok <==> (has_quiz(old(self)@.quizzes, group.quiz_id.value) && !has_group(
                old(self)@.groups,
                group.id.value,
            )),
            r is Ok ==> final(self)@ == (StoreView {
                groups: old(self)@.groups.push(group@),
                ..old(self)@
            }),
            r matches Err(e) ==> e == QuizError::PersistenceError && final(self)@ == old(self)@,
    {
        if self.quiz_index(group.quiz_id).is_none() || self.has_group_id(group.id) {
            return Err(QuizError::PersistenceError);
        }
        let ghost before = self@;
        self.groups.push(group);
        proof {
            assert(self@.groups =~= before.groups.push(group@));
            assert(self@.quizzes =~= before.quizzes);
            assert(self@.questions =~= before.questions);
            assert forall|i: int, j: int|
                0 <= i < j < self@.groups.len() implies self@.groups[i].id
                != self@.groups[j].id by {
                if j == before.groups.len() {
                    assert(before.groups[i].id != group.id.value);
                }
            }
        }
        Ok(())
    }

    /// The stored quiz with this id.
    pub fn find_quiz(&self, id: EntityId) -> (r: Option<&Quiz>)
        ensures
            match r {
                Some(q) => q.id == id && self@.quizzes.contains(q@),
                None => !has_quiz(self@.quizzes, id.value),
            },
    {
        match self.quiz_index(id) {
            Some(i) => {
                proof {
                    assert(self@.quizzes[i as int] == self.quizzes@[i as int]@);
                }
                Some(&self.quizzes[i])
            },
            None => None,
        }
    }

    /// The number of rows in `groups`.
    pub fn group_count(&self) -> (r: usize)
        ensures
            r == self@.groups.len(),
    {
        self.groups.len()
    }

    /// Every stored quiz, in the order of the table.
    pub fn list_quizzes(&self) -> (r: Vec<Quiz>)
        ensures
            r@.map_values(|q: Quiz| q@) == self@.quizzes,
    {
        let mut out: Vec<Quiz> = Vec::new();
        let mut i: usize = 0;
        while i < self.quizzes.len()
            invariant
                i <= self.quizzes.len(),
                out@.map_values(|q: Quiz| q@) == self@.quizzes.take(i as int),
            decreases self.quizzes.len() - i,
        {
            let q = self.quizzes[i].duplicate();
            let ghost before = out@;
            out.push(q);
            proof {
                assert(out@ == before.push(q));
                assert(self@.quizzes[i as int] == self.quizzes@[i as int]@);
                assert(out@.map_values(|q: Quiz| q@) =~= before.map_values(|q: Quiz| q@).push(q@));
                assert(self@.quizzes.take(i as int + 1) =~= self@.quizzes.take(i as int).push(
                    self@.quizzes[i as int],
                ));
            }
            i = i + 1;
        }
        proof {
            assert(self@.quizzes.take(i as int) =~= self@.quizzes);
        }
        out
    }

    /// The stored questions of quiz `id`, in the order of the table.
    pub fn questions_for(&self, id: EntityId) -> (r: Vec<Question>)
        ensures
            r@.map_values(|q: Question| q@) == questions_of(self@.questions, id.value),
    {
        let mut out: Vec<Question> = Vec::new();
        let mut i: usize = 0;
        proof {
            assert(out@.map_values(|q: Question| q@) =~= questions_of(self@.questions.take(0), id.value));
        }
        while i < self.questions.len()
            invariant
                i <= self.questions.len(),
                out@.map_values(|q: Question| q@) == questions_of(self@.questions.take(i as int), id.value),
            decreases self.questions.len() - i,
        {
            let ghost before = out@;
            proof {
                let t = self@.questions.take(i as int + 1);
                assert(t.drop_last() =~= self@.questions.take(i as int));
                assert(t.last() == self.questions@[i as int]@);
            }
            if self.questions[i].quiz_id == id {
                let q = self.questions[i].duplicate();
                out.push(q);
                proof {
                    assert(out@.map_values(|q: Question| q@) =~= before.map_values(|q: Question| q@).push(q@));
                }
            }
            i = i + 1;
        }
        proof {
            assert(self@.questions.take(i as int) =~= self@.questions);
        }
        out
    }
}

} // verus!
