use quiz_host::auth::{authenticate, HostConfig, LoginForm, SessionState};
use quiz_host::error::QuizError;
use quiz_host::group::{Group, GroupSignupForm};
use quiz_host::handlers::{
    add_question_to_quiz, create_quiz, host_dashboard, view_quiz_as_host, NewQuestionForm,
    NewQuizForm,
};
use quiz_host::id::EntityId;
use quiz_host::repo::{new_quiz_code, signup, QuizRow};
use quiz_host::store::{Question, Quiz, Store};

const SAMPLE: u128 = 0x67e5504410b1426f9247bb680e5fe0c8;
const SAMPLE_TEXT: &str = "67e55044-10b1-426f-9247-bb680e5fe0c8";

fn config() -> HostConfig {
    HostConfig::new(Some(String::from("s3cret"))).unwrap()
}

fn login(password: &str) -> LoginForm {
    LoginForm { password: String::from(password) }
}

#[test]
fn id_text_is_hyphenated_lowercase() {
    let id = EntityId { value: SAMPLE };
    assert_eq!(id.to_text(), SAMPLE_TEXT);
}

#[test]
fn id_parse_reads_hyphenated_text() {
    assert_eq!(EntityId::parse(SAMPLE_TEXT), Some(EntityId { value: SAMPLE }));
}

#[test]
fn id_parse_refuses_other_forms() {
    assert_eq!(EntityId::parse("67E55044-10B1-426F-9247-BB680E5FE0C8"), None);
    assert_eq!(EntityId::parse("67e5504410b1426f9247bb680e5fe0c8"), None);
    assert_eq!(EntityId::parse("not an id"), None);
    assert_eq!(EntityId::parse(""), None);
}

#[test]
fn random_ids_are_version_four_and_distinct() {
    let a = EntityId::new_random();
    let b = EntityId::new_random();
    assert_eq!((a.value >> 76) & 15, 4);
    assert_eq!((a.value >> 62) & 3, 2);
    assert_ne!(a, b);
}

#[test]
fn quiz_create_gives_unique_ids_and_codes_in_range() {
    let mut store = Store::new();
    let mut ids: Vec<EntityId> = Vec::new();
    for _ in 0..50 {
        let q = Quiz::new(String::from("2024-05-01"), &mut store).unwrap();
        assert!(q.quiz_code >= 1000 && q.quiz_code <= 9999);
        assert!(!ids.contains(&q.id));
        ids.push(q.id);
    }
    assert_eq!(store.list_quizzes().len(), 50);
}

#[test]
fn quiz_scenario_with_one_question() {
    let mut store = Store::new();
    let quiz = Quiz::new(String::from("2024-05-01"), &mut store).unwrap();
    assert_eq!(quiz.date, "2024-05-01");
    assert!(quiz.quiz_code >= 1000 && quiz.quiz_code <= 9999);
    let form = NewQuestionForm {
        question: String::from("2+2?"),
        answer: String::from("4"),
        section: 3,
    };
    let q = add_question_to_quiz(&quiz.id.to_text(), form, &mut store).unwrap();
    assert_eq!(q.quiz_id, quiz.id);
    assert_eq!(q.section, 1);
    assert_eq!(q.question, "2+2?");
    assert_eq!(q.answer, "4");
    let all = Question::find_all_for_quiz(quiz.id, &store);
    assert_eq!(all, vec![q]);
}

#[test]
fn questions_are_listed_only_for_their_quiz() {
    let mut store = Store::new();
    let a = Quiz::new(String::from("2024-05-01"), &mut store).unwrap();
    let b = Quiz::new(String::from("2024-06-01"), &mut store).unwrap();
    let a1 = Question::create_for_quiz(a.id, String::from("q1"), String::from("a1"), &mut store)
        .unwrap();
    let b1 = Question::create_for_quiz(b.id, String::from("q2"), String::from("a2"), &mut store)
        .unwrap();
    let a2 = Question::create_for_quiz(a.id, String::from("q3"), String::from("a3"), &mut store)
        .unwrap();
    assert_eq!(Question::find_all_for_quiz(a.id, &store), vec![a1, a2]);
    assert_eq!(Question::find_all_for_quiz(b.id, &store), vec![b1]);
    let other = EntityId { value: SAMPLE };
    assert!(Question::find_all_for_quiz(other, &store).is_empty());
}

#[test]
fn question_for_unknown_quiz_is_refused() {
    let mut store = Store::new();
    let r = Question::create_for_quiz(
        EntityId { value: SAMPLE },
        String::from("q"),
        String::from("a"),
        &mut store,
    );
    assert_eq!(r, Err(QuizError::PersistenceError));
    assert!(Question::find_all_for_quiz(EntityId { value: SAMPLE }, &store).is_empty());
}

#[test]
fn add_question_with_bad_id_is_not_found() {
    let mut store = Store::new();
    let form = NewQuestionForm {
        question: String::from("q"),
        answer: String::from("a"),
        section: 1,
    };
    assert_eq!(add_question_to_quiz("nope", form, &mut store), Err(QuizError::NotFound));
}

#[test]
fn signup_unknown_quiz_is_not_found_and_writes_nothing() {
    let mut store = Store::new();
    let known = Quiz::new(String::from("2024-05-01"), &mut store).unwrap();
    let form = GroupSignupForm { name: String::from("Team A") };
    let r = signup(&form, SAMPLE_TEXT, &mut store);
    assert!(matches!(r, Err(QuizError::NotFound)));
    assert_eq!(store.group_count(), 0);
    assert!(matches!(signup(&form, "Team A", &mut store), Err(QuizError::NotFound)));
    assert_eq!(store.group_count(), 0);
    // a later signup to the known quiz is the first group row
    let reg = signup(&form, &known.id.to_text(), &mut store).unwrap();
    assert_eq!(reg.group.quiz_id, known.id);
    assert_eq!(reg.quiz, known);
    assert_eq!(store.group_count(), 1);
}

#[test]
fn signup_cookie_round_trips() {
    let mut store = Store::new();
    let quiz = Quiz::new(String::from("2024-05-01"), &mut store).unwrap();
    let form = GroupSignupForm { name: String::from("Team \"A\" \\ co") };
    let reg = signup(&form, &quiz.id.to_text(), &mut store).unwrap();
    assert_eq!(reg.group.name, "Team \"A\" \\ co");
    assert_eq!(reg.cookie_value, reg.group.to_string());
    assert_eq!(Group::from_cookie(&reg.cookie_value), Ok(reg.group));
}

#[test]
fn group_text_is_a_json_object() {
    let g = Group {
        id: EntityId { value: SAMPLE },
        quiz_id: EntityId { value: 1 },
        name: String::from("Team \"A\""),
    };
    assert_eq!(
        g.to_string(),
        "{\"id\":\"67e55044-10b1-426f-9247-bb680e5fe0c8\",\"quiz_id\":\"00000000-0000-0000-0000-000000000001\",\"name\":\"Team \\\"A\\\"\"}"
    );
    assert_eq!(Group::from_cookie(&g.to_string()), Ok(g));
}

#[test]
fn group_round_trip_with_empty_and_unicode_names() {
    for name in ["", "Équipe ß", "a\\b", "\"\""] {
        let g = Group {
            id: EntityId::new_random(),
            quiz_id: EntityId::new_random(),
            name: String::from(name),
        };
        assert_eq!(Group::from_cookie(&g.to_string()), Ok(g));
    }
}

#[test]
fn malformed_cookies_are_refused() {
    let good = Group {
        id: EntityId { value: SAMPLE },
        quiz_id: EntityId { value: SAMPLE },
        name: String::from("x"),
    }
    .to_string();
    let cases = [
        String::new(),
        String::from("{}"),
        String::from("true"),
        good.replace("\"name\"", "\"nom\""),
        good.replace("67e55044", "67E55044"),
        good.replace("\"x\"", "\"x\"\""),
        good.replace("\"x\"", "\"x\\\""),
        good[..good.len() - 1].to_string(),
        format!(" {}", good),
    ];
    for c in cases.iter() {
        assert_eq!(Group::from_cookie(c), Err(QuizError::MalformedSession), "{}", c);
    }
}

#[test]
fn quiz_row_round_trip() {
    let q = Quiz { id: EntityId { value: SAMPLE }, quiz_code: 1234, date: String::from("2024-05-01") };
    let row = q.to_row();
    assert_eq!(row.id, SAMPLE_TEXT);
    assert_eq!(Quiz::from_mysql_row(&row), Ok(q));
}

#[test]
fn quiz_row_with_bad_id_is_refused() {
    let row = QuizRow { id: String::from("zzz"), quiz_code: 1234, date: String::new() };
    assert_eq!(Quiz::from_mysql_row(&row), Err(QuizError::PersistenceError));
}

#[test]
fn find_by_uuid_finds_stored_quiz_only() {
    let mut store = Store::new();
    let q = Quiz::new(String::from("2024-05-01"), &mut store).unwrap();
    assert_eq!(Quiz::find_by_uuid(q.id, &store), Ok(Quiz { id: q.id, quiz_code: q.quiz_code, date: q.date.clone() }));
    assert_eq!(Quiz::find_by_uuid(EntityId { value: SAMPLE }, &store), Err(QuizError::NotFound));
}

#[test]
fn correct_password_authenticates() {
    let c = authenticate(&login("s3cret"), &config()).unwrap();
    assert_eq!(c.name, "host_authenticated");
    assert_eq!(c.value, "true");
    assert_eq!(SessionState::from_host_cookie(Some(&c.value)), SessionState::Authenticated);
}

#[test]
fn other_passwords_do_not_authenticate() {
    for p in ["", "S3CRET", "s3cret ", "s3cre"] {
        assert!(authenticate(&login(p), &config()).is_none());
    }
    assert_eq!(SessionState::from_host_cookie(None), SessionState::Unauthenticated);
    assert_eq!(SessionState::from_host_cookie(Some("false")), SessionState::Unauthenticated);
}

#[test]
fn missing_secret_is_a_configuration_error() {
    assert!(matches!(HostConfig::new(None), Err(QuizError::ConfigurationError)));
}

#[test]
fn dashboard_lists_quizzes_only_for_host() {
    let mut store = Store::new();
    let q = create_quiz(NewQuizForm { date: String::from("2024-05-01") }, &mut store).unwrap();
    let shown = host_dashboard(SessionState::Authenticated, &store);
    assert!(shown.authenticated);
    assert_eq!(shown.quizzes, vec![q]);
    let hidden = host_dashboard(SessionState::Unauthenticated, &store);
    assert!(!hidden.authenticated);
    assert!(hidden.quizzes.is_empty());
}

#[test]
fn view_quiz_shows_its_questions() {
    let mut store = Store::new();
    let q = Quiz::new(String::from("2024-05-01"), &mut store).unwrap();
    let text = q.id.to_text();
    let question =
        Question::create_for_quiz(q.id, String::from("2+2?"), String::from("4"), &mut store)
            .unwrap();
    let ctx = view_quiz_as_host(&text, &store).unwrap();
    assert_eq!(ctx.uuid, text);
    assert_eq!(ctx.quiz, q);
    assert_eq!(ctx.questions, vec![question]);
    assert!(matches!(view_quiz_as_host(SAMPLE_TEXT, &store), Err(QuizError::NotFound)));
}

#[test]
fn control_characters_are_escaped_as_json() {
    let g = Group {
        id: EntityId { value: SAMPLE },
        quiz_id: EntityId { value: SAMPLE },
        name: String::from("a\nb\tc\u{1}d\u{1f}e\u{8}\u{c}\r"),
    };
    let text = g.to_string();
    assert!(text.ends_with("\"name\":\"a\\nb\\tc\\u0001d\\u001fe\\b\\f\\r\"}"));
    assert_eq!(Group::from_cookie(&text), Ok(g));
}

#[test]
fn cookie_text_is_read_by_a_json_parser() {
    let name = "Team \"Q\"\n\\ \u{2}";
    let g = Group {
        id: EntityId { value: SAMPLE },
        quiz_id: EntityId { value: 7 },
        name: String::from(name),
    };
    let value: serde_json::Value = serde_json::from_str(&g.to_string()).unwrap();
    assert_eq!(value.get("name").and_then(|v| v.as_str()), Some(name));
    assert_eq!(value.get("id").and_then(|v| v.as_str()), Some(SAMPLE_TEXT));
    assert_eq!(
        value.get("quiz_id").and_then(|v| v.as_str()),
        Some("00000000-0000-0000-0000-000000000007")
    );
    assert_eq!(serde_json::to_string(name).unwrap(), format!("\"{}\"", &g.to_string()[102..g.to_string().len() - 2]));
}

#[test]
fn non_canonical_escapes_are_refused() {
    let good = Group {
        id: EntityId { value: SAMPLE },
        quiz_id: EntityId { value: SAMPLE },
        name: String::from("x"),
    }
    .to_string();
    for bad in ["\\u000a", "\\u0041", "\\u001F", "\\/", "\\x", "\n", "\\u00"] {
        let c = good.replace("\"x\"", &format!("\"{}\"", bad));
        assert_eq!(Group::from_cookie(&c), Err(QuizError::MalformedSession), "{}", c);
    }
}

#[test]
fn create_with_id_refuses_taken_ids_only() {
    let mut store = Store::new();
    let id = EntityId { value: SAMPLE };
    let q = Quiz::create_with_id(id, 4321, String::from("2024-05-01"), &mut store).unwrap();
    assert_eq!(q, Quiz { id, quiz_code: 4321, date: String::from("2024-05-01") });
    assert_eq!(
        Quiz::create_with_id(id, 1111, String::from("x"), &mut store),
        Err(QuizError::PersistenceError)
    );
    let qid = EntityId { value: 5 };
    let question =
        Question::create_with_id(qid, id, String::from("2+2?"), String::from("4"), &mut store)
            .unwrap();
    assert_eq!(question.section, 1);
    assert_eq!(
        Question::create_with_id(qid, id, String::from("q"), String::from("a"), &mut store),
        Err(QuizError::PersistenceError)
    );
    assert_eq!(
        Question::create_with_id(EntityId { value: 6 }, qid, String::from("q"), String::from("a"), &mut store),
        Err(QuizError::PersistenceError)
    );
    let gid = EntityId { value: 9 };
    let g = Group::create_with_id(gid, &q, "Team A", &mut store).unwrap();
    assert_eq!(g, Group { id: gid, quiz_id: id, name: String::from("Team A") });
    assert_eq!(Group::create_with_id(gid, &q, "Team B", &mut store), Err(QuizError::PersistenceError));
    assert_eq!(store.group_count(), 1);
}

#[test]
fn quiz_codes_are_four_digits() {
    for _ in 0..200 {
        let c = new_quiz_code();
        assert!((1000..=9999).contains(&c));
    }
}
