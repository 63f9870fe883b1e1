use vstd::prelude::*;

use crate::error::QuizError;
use crate::id::{hex_digit, id_of_text, id_text, lemma_id_of_own_text, EntityId};

verus! {

/// A participant's signup for one quiz. Its whole state travels in a cookie.
#[derive(Clone, Debug, PartialEq, Eq)]
pub struct Group {
    pub id: EntityId,
    pub quiz_id: EntityId,
    pub name: String,
}

pub struct GroupView {
    pub id: u128,
    pub quiz_id: u128,
    pub name: Seq<char>,
}

impl View for Group {
    type V = GroupView;

    open spec fn view(&self) -> GroupView {
        GroupView { id: self.id.value, quiz_id: self.quiz_id.value, name: self.name@ }
    }
}

/// The participant's form: the chosen display name.
pub struct GroupSignupForm {
    pub name: String,
}

/// The letter of the two-character escape of `c`, for the control
/// characters that have one.
pub open spec fn short_escape(c: char) -> Option<char> {
    if c == '\u{8}' {
        Some('b')
    } else if c == '\t' {
        Some('t')
    } else if c == '\n' {
        Some('n')
    } else if c == '\u{c}' {
        Some('f')
    } else if c == '\r' {
        Some('r')
    } else {
        None
    }
}

/// The control character that the escape letter `l` stands for.
pub open spec fn unshort(l: char) -> Option<char> {
    if l == 'b' {
        Some('\u{8}')
    } else if l == 't' {
        Some('\t')
    } else if l == 'n' {
        Some('\n')
    } else if l == 'f' {
        Some('\u{c}')
    } else if l == 'r' {
        Some('\r')
    } else {
        None
    }
}

/// The value of a lowercase hex digit.
pub open spec fn hex_value(d: char) -> Option<u32> {
    if 48 <= d as u32 <= 57 {
        Some((d as u32 - 48) as u32)
    } else if 97 <= d as u32 <= 102 {
        Some((d as u32 - 87) as u32)
    } else {
        None
    }
}

/// How one character stands inside a JSON string: `"` and `\` get a
/// backslash, control characters take their short escape or `\u00XX`.
pub open spec fn escape_char(c: char) -> Seq<char> {
    if c == '"' || c == '\\' {
        seq!['\\', c]
    } else if short_escape(c) is Some {
        seq!['\\', short_escape(c)->Some_0]
    } else if (c as u32) < 32 {
        seq![
            '\\',
            'u',
            '0',
            '0',
            hex_digit((c as u32 / 16) as u128),
            hex_digit((c as u32 % 16) as u128),
        ]
    } else {
        seq![c]
    }
}

/// A name as it stands inside the quotes.
pub open spec fn escape(s: Seq<char>) -> Seq<char>
    decreases s.len(),
{
    if s.len() == 0 {
        Seq::empty()
    } else {
        escape_char(s[0]) + escape(s.drop_first())
    }
}

pub open spec fn prepend(o: Seq<char>, x: Option<Seq<char>>) -> Option<Seq<char>> {
    match x {
        Some(r) => Some(o + r),
        None => None,
    }
}

/// The character that `t` begins with in escaped form, and how many
/// characters its escape takes; `None` where `t` does not begin with the
/// escape of a character.
pub open spec fn token(t: Seq<char>) -> Option<(char, int)> {
    if t.len() == 0 {
        None
    } else if t[0] == '\\' {
        if t.len() < 2 {
            None
        } else if t[1] == '"' || t[1] == '\\' {
            Some((t[1], 2))
        } else if unshort(t[1]) is Some {
            Some((unshort(t[1])->Some_0, 2))
        } else if t[1] == 'u' && t.len() >= 6 && t[2] == '0' && t[3] == '0' && (t[4] == '0' || t[4]
            == '1') && hex_value(t[5]) is Some {
            let v = (if t[4] == '1' { 16u32 } else { 0u32 }) + hex_value(t[5])->Some_0;
            if short_escape((v as u8) as char) is Some {
                None
            } else {
                Some(((v as u8) as char, 6))
            }
        } else {
            None
        }
    } else if t[0] == '"' || (t[0] as u32) < 32 {
        None
    } else {
        Some((t[0], 1))
    }
}

/// The name that `t` escapes, if `t` is the escaped form of one.
pub open spec fn unescape(t: Seq<char>) -> Option<Seq<char>>
    decreases t.len(),
{
    if t.len() == 0 {
        Some(Seq::empty())
    } else {
        match token(t) {
            Some((c, n)) => if 0 < n <= t.len() {
                prepend(seq![c], unescape(t.subrange(n, t.len() as int)))
            } else {
                None
            },
            None => None,
        }
    }
}

pub open spec fn head_text() -> Seq<char> {
    seq!['{', '"', 'i', 'd', '"', ':', '"']
}

pub open spec fn quiz_id_text() -> Seq<char> {
    seq!['"', ',', '"', 'q', 'u', 'i', 'z', '_', 'i', 'd', '"', ':', '"']
}

pub open spec fn name_text() -> Seq<char> {
    seq!['"', ',', '"', 'n', 'a', 'm', 'e', '"', ':', '"']
}

pub open spec fn tail_text() -> Seq<char> {
    seq!['"', '}']
}

/// The cookie text of a group: a JSON object with the fields id, quiz_id and name.
pub open spec fn group_text(g: GroupView) -> Seq<char> {
    head_text() + id_text(g.id) + quiz_id_text() + id_text(g.quiz_id) + name_text() + escape(
        g.name,
    ) + tail_text()
}

/// The group whose cookie text is `t`, if `t` has that shape.
pub open spec fn group_from_text(t: Seq<char>) -> Option<GroupView> {
    let n = t.len() as int;
    if n >= 104 && t.subrange(0, 7) == head_text() && t.subrange(43, 56) == quiz_id_text()
        && t.subrange(92, 102) == name_text() && t.subrange(n - 2, n) == tail_text() {
        match (
            id_of_text(t.subrange(7, 43)),
            id_of_text(t.subrange(56, 92)),
            unescape(t.subrange(102, n - 2)),
        ) {
            (Some(a), Some(b), Some(name)) => Some(GroupView { id: a, quiz_id: b, name }),
            _ => None,
        }
    } else {
        None
    }
}

proof fn lemma_escape_append(a: Seq<char>, b: Seq<char>)
    ensures
        escape(a + b) == escape(a) + escape(b),
    decreases a.len(),
{
    if a.len() == 0 {
        assert(a + b =~= b);
        assert(escape(a) =~= Seq::<char>::empty());
        assert(escape(a) + escape(b) =~= escape(b));
    } else {
        assert((a + b).drop_first() =~= a.drop_first() + b);
        lemma_escape_append(a.drop_first(), b);
        assert(escape(a + b) =~= escape_char(a[0]) + (escape(a.drop_first()) + escape(b)));
    }
}

proof fn lemma_hex_round_trip(n: u32)
    requires
        n < 16,
    ensures
        hex_value(hex_digit(n as u128)) == Some(n),
{
}

proof fn lemma_hex_value_digit(d: char)
    requires
        hex_value(d) is Some,
    ensures
        hex_digit(hex_value(d)->Some_0 as u128) == d,
{
}

proof fn lemma_token_of_escape(c: char, rest: Seq<char>)
    ensures
        token(escape_char(c) + rest) == Some((c, escape_char(c).len() as int)),
{
    let t = escape_char(c) + rest;
    let e = escape_char(c);
    assert(t[0] == e[0]);
    if c == '"' || c == '\\' {
        assert(t[1] == c);
    } else if short_escape(c) is Some {
        assert(t[1] == e[1]);
    } else if (c as u32) < 32 {
        let hi = (c as u32 / 16) as u32;
        let lo = (c as u32 % 16) as u32;
        assert(t[1] == 'u' && t[2] == '0' && t[3] == '0');
        assert(t[4] == hex_digit(hi as u128) && t[5] == hex_digit(lo as u128));
        lemma_hex_round_trip(lo);
        assert(hi == 0 || hi == 1);
        let v = (if t[4] == '1' { 16u32 } else { 0u32 }) + lo;
        assert(v == c as u32);
        assert((v as u8) as char == c);
    } else {
        assert(t[0] == c);
    }
}

proof fn lemma_escape_of_token(t: Seq<char>)
    requires
        token(t) is Some,
    ensures
        0 < token(t)->Some_0.1 <= t.len(),
        t.subrange(0, token(t)->Some_0.1) == escape_char(token(t)->Some_0.0),
{
    let (c, n) = token(t)->Some_0;
    if t[0] == '\\' {
        if t[1] == '"' || t[1] == '\\' {
            assert(t.subrange(0, n) =~= escape_char(c));
        } else if unshort(t[1]) is Some {
            assert(t.subrange(0, n) =~= escape_char(c));
        } else {
            let d = hex_value(t[5])->Some_0;
            lemma_hex_value_digit(t[5]);
            let v = (if t[4] == '1' { 16u32 } else { 0u32 }) + d;
            assert(c as u32 == v);
            assert((c as u32 / 16) as u128 == (if t[4] == '1' { 1u128 } else { 0u128 }));
            assert((c as u32 % 16) == d);
            assert(t.subrange(0, n) =~= escape_char(c));
        }
    } else {
        assert(t.subrange(0, n) =~= escape_char(c));
    }
}

proof fn lemma_unescape_escape(s: Seq<char>)
    ensures
        unescape(escape(s)) == Some(s),
    decreases s.len(),
{
    if s.len() == 0 {
        assert(escape(s) =~= Seq::<char>::empty());
        assert(s =~= Seq::<char>::empty());
    } else {
        let c = s[0];
        let rest = s.drop_first();
        let t = escape(s);
        let n = escape_char(c).len() as int;
        lemma_unescape_escape(rest);
        lemma_token_of_escape(c, escape(rest));
        assert(t.subrange(n, t.len() as int) =~= escape(rest));
        assert(seq![c] + rest =~= s);
    }
}

proof fn lemma_escape_unescape(t: Seq<char>, s: Seq<char>)
    requires
        unescape(t) == Some(s),
    ensures
        escape(s) == t,
    decreases t.len(),
{
    if t.len() == 0 {
        assert(s =~= Seq::<char>::empty());
        assert(escape(s) =~= t);
    } else {
        let (c, n) = token(t)->Some_0;
        let tail = t.subrange(n, t.len() as int);
        let r = unescape(tail)->Some_0;
        lemma_escape_unescape(tail, r);
        lemma_escape_of_token(t);
        assert(s == seq![c] + r);
        assert(s.drop_first() =~= r);
        assert(s[0] == c);
        assert(t =~= t.subrange(0, n) + tail);
        assert(escape(s) =~= t);
    }
}

/// Decoding the cookie text of a group gives back that group, field for field.
pub proof fn lemma_group_text_round_trip(g: GroupView)
    ensures
        group_from_text(group_text(g)) == Some(g),
{
    let t = group_text(g);
    let n = t.len() as int;
    lemma_id_of_own_text(g.id);
    lemma_id_of_own_text(g.quiz_id);
    lemma_unescape_escape(g.name);
    assert(t.subrange(0, 7) =~= head_text());
    assert(t.subrange(7, 43) =~= id_text(g.id));
    assert(t.subrange(43, 56) =~= quiz_id_text());
    assert(t.subrange(56, 92) =~= id_text(g.quiz_id));
    assert(t.subrange(92, 102) =~= name_text());
    assert(t.subrange(102, n - 2) =~= escape(g.name));
    assert(t.subrange(n - 2, n) =~= tail_text());
}

/// Text that decodes is exactly the cookie text of what it decodes to, so no
/// other text yields a group, in part or in whole.
pub proof fn lemma_group_from_text_exact(t: Seq<char>)
    requires
        group_from_text(t) is Some,
    ensures
        t == group_text(group_from_text(t)->Some_0),
{
    let g = group_from_text(t)->Some_0;
    let n = t.len() as int;
    lemma_escape_unescape(t.subrange(102, n - 2), g.name);
    assert(t =~= t.subrange(0, 7) + t.subrange(7, 43) + t.subrange(43, 56) + t.subrange(56, 92)
        + t.subrange(92, 102) + t.subrange(102, n - 2) + t.subrange(n - 2, n));
    assert(t =~= group_text(g));
}

/// Relies on std's `String::push`: appends one character.
#[verifier::external_body]
fn push_char(s: &mut String, c: char)
    ensures
        final(s)@ == old(s)@.push(c),
{
    s.push(c)
}

fn same_text(a: &str, b: &str) -> (r: bool)
    ensures
        r == (a@ == b@),
{
    a.to_owned() == b.to_owned()
}

fn hex_char(n: u32) -> (r: char)
    requires
        n < 16,
    ensures
        r == hex_digit(n as u128),
{
    if n == 0 { '0' } else if n == 1 { '1' } else if n == 2 { '2' } else if n == 3 { '3' }
    else if n == 4 { '4' } else if n == 5 { '5' } else if n == 6 { '6' } else if n == 7 { '7' }
    else if n == 8 { '8' } else if n == 9 { '9' } else if n == 10 { 'a' } else if n == 11 { 'b' }
    else if n == 12 { 'c' } else if n == 13 { 'd' } else if n == 14 { 'e' } else { 'f' }
}

fn hex_val(d: char) -> (r: Option<u32>)
    ensures
        r == hex_value(d),
{
    let v = d as u32;
    if 48 <= v && v <= 57 {
        Some(v - 48)
    } else if 97 <= v && v <= 102 {
        Some(v - 87)
    } else {
        None
    }
}

fn short_letter(c: char) -> (r: Option<char>)
    ensures
        r == short_escape(c),
{
    if c == '\u{8}' {
        Some('b')
    } else if c == '\t' {
        Some('t')
    } else if c == '\n' {
        Some('n')
    } else if c == '\u{c}' {
        Some('f')
    } else if c == '\r' {
        Some('r')
    } else {
        None
    }
}

fn unshort_letter(l: char) -> (r: Option<char>)
    ensures
        r == unshort(l),
{
    if l == 'b' {
        Some('\u{8}')
    } else if l == 't' {
        Some('\t')
    } else if l == 'n' {
        Some('\n')
    } else if l == 'f' {
        Some('\u{c}')
    } else if l == 'r' {
        Some('\r')
    } else {
        None
    }
}

/// Appends the escaped form of one character to `out`.
fn push_escaped_char(out: &mut String, c: char)
    ensures
        final(out)@ == old(out)@ + escape_char(c),
{
    let ghost before = out@;
    if c == '"' || c == '\\' {
        push_char(out, '\\');
        push_char(out, c);
    } else {
        match short_letter(c) {
            Some(l) => {
                push_char(out, '\\');
                push_char(out, l);
            },
            None => {
                let v = c as u32;
                if v < 32 {
                    push_char(out, '\\');
                    push_char(out, 'u');
                    push_char(out, '0');
                    push_char(out, '0');
                    push_char(out, hex_char(v / 16));
                    push_char(out, hex_char(v % 16));
                } else {
                    push_char(out, c);
                }
            },
        }
    }
    assert(out@ =~= before + escape_char(c));
}

/// Appends the escaped form of `name` to `out`.
fn push_escaped(out: &mut String, name: &str)
    ensures
        final(out)@ == old(out)@ + escape(name@),
{
    let n = name.unicode_len();
    let mut i: usize = 0;
    proof {
        assert(escape(name@.take(0)) =~= Seq::<char>::empty());
        assert(out@ =~= old(out)@ + escape(name@.take(0)));
    }
    while i < n
        invariant
            n == name@.len(),
            i <= n,
            out@ == old(out)@ + escape(name@.take(i as int)),
        decreases n - i,
    {
        let c = name.get_char(i);
        let ghost before = out@;
        push_escaped_char(out, c);
        proof {
            let s = name@.take(i as int);
            lemma_escape_append(s, seq![c]);
            assert(name@.take(i as int + 1) =~= s + seq![c]);
            assert(seq![c].drop_first() =~= Seq::<char>::empty());
            assert(seq![c][0] == c);
            assert(escape(Seq::<char>::empty()) =~= Seq::<char>::empty());
            assert(escape(seq![c]) == escape_char(c) + escape(Seq::<char>::empty()));
            assert(escape(seq![c]) =~= escape_char(c));
            assert(out@ =~= before + escape_char(c));
        }
        i = i + 1;
    }
    proof {
        assert(name@.take(n as int) =~= name@);
    }
}

/// Reads the escaped character that `t` holds at `i`, and its length.
fn read_token(t: &str, i: usize, n: usize) -> (r: Option<(char, usize)>)
    requires
        n == t@.len(),
        i < n,
    ensures
        match r {
            Some((c, k)) => token(t@.subrange(i as int, n as int)) == Some((c, k as int)),
            None => token(t@.subrange(i as int, n as int)) is None,
        },
{
    let ghost u = t@.subrange(i as int, n as int);
    let c0 = t.get_char(i);
    assert(u[0] == c0);
    if c0 == '\\' {
        if n - i < 2 {
            return None;
        }
        let c1 = t.get_char(i + 1);
        assert(u[1] == c1);
        if c1 == '"' || c1 == '\\' {
            return Some((c1, 2));
        }
        match unshort_letter(c1) {
            Some(c) => {
                return Some((c, 2));
            },
            None => {},
        }
        if c1 != 'u' || n - i < 6 {
            return None;
        }
        let c2 = t.get_char(i + 2);
        let c3 = t.get_char(i + 3);
        let c4 = t.get_char(i + 4);
        let c5 = t.get_char(i + 5);
        assert(u[2] == c2 && u[3] == c3 && u[4] == c4 && u[5] == c5);
        if c2 != '0' || c3 != '0' || !(c4 == '0' || c4 == '1') {
            return None;
        }
        match hex_val(c5) {
            Some(d) => {
                let v: u32 = if c4 == '1' {
                    16 + d
                } else {
                    d
                };
                let c = (v as u8) as char;
                match short_letter(c) {
                    Some(_) => None,
                    None => Some((c, 6)),
                }
            },
            None => None,
        }
    } else if c0 == '"' || (c0 as u32) < 32 {
        None
    } else {
        Some((c0, 1))
    }
}

/// Reads back a name from its escaped form.
fn unescape_text(t: &str) -> (r: Option<String>)
    ensures
        match r {
            Some(s) => unescape(t@) == Some(s@),
            None => unescape(t@) is None,
        },
{
    let n = t.unicode_len();
    let mut out = String::new();
    let mut i: usize = 0;
    proof {
        assert(t@.subrange(0, n as int) =~= t@);
        match unescape(t@) {
            Some(r) => assert(out@ + r =~= r),
            None => {},
        }
    }
    while i < n
        invariant
            n == t@.len(),
            i <= n,
            unescape(t@) == prepend(out@, unescape(t@.subrange(i as int, n as int))),
        decreases n - i,
    {
        let ghost u = t@.subrange(i as int, n as int);
        let ghost before = out@;
        match read_token(t, i, n) {
            Some((c, k)) => {
                proof {
                    lemma_escape_of_token(u);
                }
                push_char(&mut out, c);
                proof {
                    assert(u.subrange(k as int, u.len() as int) =~= t@.subrange(
                        i + k,
                        n as int,
                    ));
                    match unescape(t@.subrange(i + k, n as int)) {
                        Some(r) => assert(before + (seq![c] + r) =~= out@ + r),
                        None => {},
                    }
                }
                i = i + k;
            },
            None => {
                return None;
            },
        }
    }
    proof {
        assert(t@.subrange(n as int, n as int) =~= Seq::<char>::empty());
        assert(out@ + Seq::<char>::empty() =~= out@);
    }
    Some(out)
}

impl Group {
    /// The cookie text of this group.
    pub fn to_string(&self) -> (r: String)
        ensures
            r@ == group_text(self@),
    {
        let mut out = String::new();
        proof {
            reveal_strlit("{\"id\":\"");
            reveal_strlit("\",\"quiz_id\":\"");
            reveal_strlit("\",\"name\":\"");
            reveal_strlit("\"}");
        }
        out.append("{\"id\":\"");
        out.append(self.id.to_text().as_str());
        out.append("\",\"quiz_id\":\"");
        out.append(self.quiz_id.to_text().as_str());
        out.append("\",\"name\":\"");
        push_escaped(&mut out, self.name.as_str());
        out.append("\"}");
        proof {
            assert(out@ =~= group_text(self@));
        }
        out
    }

    /// Reads a group back from the value of its cookie.
    pub fn from_cookie(value: &str) -> (r: Result<Group, QuizError>)
        ensures
            match r {
                Ok(g) => group_from_text(value@) == Some(g@),
                Err(e) => e == QuizError::MalformedSession && group_from_text(value@) is None,
            },
    {
        let n = value.unicode_len();
        if n < 104 {
            return Err(QuizError::MalformedSession);
        }
        proof {
            reveal_strlit("{\"id\":\"");
            reveal_strlit("\",\"quiz_id\":\"");
            reveal_strlit("\",\"name\":\"");
            reveal_strlit("\"}");
        }
        if !same_text(value.substring_char(0, 7), "{\"id\":\"") || !same_text(
            value.substring_char(43, 56),
            "\",\"quiz_id\":\"",
        ) || !same_text(value.substring_char(92, 102), "\",\"name\":\"") || !same_text(
            value.substring_char(n - 2, n),
            "\"}",
        ) {
            proof {
                assert(head_text() =~= "{\"id\":\""@);
                assert(quiz_id_text() =~= "\",\"quiz_id\":\""@);
                assert(name_text() =~= "\",\"name\":\""@);
                assert(tail_text() =~= "\"}"@);
            }
            return Err(QuizError::MalformedSession);
        }
        proof {
            assert(head_text() =~= "{\"id\":\""@);
            assert(quiz_id_text() =~= "\",\"quiz_id\":\""@);
            assert(name_text() =~= "\",\"name\":\""@);
            assert(tail_text() =~= "\"}"@);
        }
        let id = EntityId::parse(value.substring_char(7, 43));
        let quiz_id = EntityId::parse(value.substring_char(56, 92));
        let name = unescape_text(value.substring_char(102, n - 2));
        match (id, quiz_id, name) {
            (Some(id), Some(quiz_id), Some(name)) => Ok(Group { id, quiz_id, name }),
            _ => Err(QuizError::MalformedSession),
        }
    }
}

} // verus!
