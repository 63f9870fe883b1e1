use vstd::prelude::*;

verus! {

/// A 128-bit entity identifier (a version 4 UUID), held as its big-endian value.
#[derive(Clone, Copy, Debug, PartialEq, Eq, Structural, Hash)]
pub struct EntityId {
    pub value: u128,
}

/// Positions of the four hyphens in the textual form.
pub open spec fn hyphen_at(i: int) -> bool {
    i == 8 || i == 13 || i == 18 || i == 23
}

/// Which hex digit (0 = most significant) stands at text position `i`.
pub open spec fn digit_index(i: int) -> int {
    if i < 8 {
        i
    } else if i < 13 {
        i - 1
    } else if i < 18 {
        i - 2
    } else if i < 23 {
        i - 3
    } else {
        i - 4
    }
}

/// The `k`-th four-bit digit of `v`, counted from the most significant end.
pub open spec fn nibble(v: u128, k: int) -> u128 {
    (v >> ((124 - 4 * k) as u128)) & 15u128
}

pub open spec fn hex_digit(n: u128) -> char {
    if n == 0 { '0' } else if n == 1 { '1' } else if n == 2 { '2' } else if n == 3 { '3' }
    else if n == 4 { '4' } else if n == 5 { '5' } else if n == 6 { '6' } else if n == 7 { '7' }
    else if n == 8 { '8' } else if n == 9 { '9' } else if n == 10 { 'a' } else if n == 11 { 'b' }
    else if n == 12 { 'c' } else if n == 13 { 'd' } else if n == 14 { 'e' } else { 'f' }
}

/// The hyphenated lowercase form, `xxxxxxxx-xxxx-xxxx-xxxx-xxxxxxxxxxxx`.
pub open spec fn id_text(v: u128) -> Seq<char> {
    Seq::new(36, |i: int| if hyphen_at(i) { '-' } else { hex_digit(nibble(v, digit_index(i))) })
}

/// The identifier whose hyphenated form is `t`, if there is one.
pub open spec fn id_of_text(t: Seq<char>) -> Option<u128> {
    if exists|v: u128| id_text(v) == t {
        Some(choose|v: u128| id_text(v) == t)
    } else {
        None
    }
}

proof fn lemma_nibble_small(x: u128)
    by (bit_vector)
    ensures
        x & 15u128 < 16,
{
}

proof fn lemma_hex_digit_injective(x: u128, y: u128)
    requires
        x < 16,
        y < 16,
        hex_digit(x) == hex_digit(y),
    ensures
        x == y,
{
}

proof fn lemma_nibbles_determine(a: u128, b: u128)
    by (bit_vector)
    requires
            (a >> 124u128) & 15u128 == (b >> 124u128) & 15u128,
            (a >> 120u128) & 15u128 == (b >> 120u128) & 15u128,
            (a >> 116u128) & 15u128 == (b >> 116u128) & 15u128,
            (a >> 112u128) & 15u128 == (b >> 112u128) & 15u128,
            (a >> 108u128) & 15u128 == (b >> 108u128) & 15u128,
            (a >> 104u128) & 15u128 == (b >> 104u128) & 15u128,
            (a >> 100u128) & 15u128 == (b >> 100u128) & 15u128,
            (a >> 96u128) & 15u128 == (b >> 96u128) & 15u128,
            (a >> 92u128) & 15u128 == (b >> 92u128) & 15u128,
            (a >> 88u128) & 15u128 == (b >> 88u128) & 15u128,
            (a >> 84u128) & 15u128 == (b >> 84u128) & 15u128,
            (a >> 80u128) & 15u128 == (b >> 80u128) & 15u128,
            (a >> 76u128) & 15u128 == (b >> 76u128) & 15u128,
            (a >> 72u128) & 15u128 == (b >> 72u128) & 15u128,
            (a >> 68u128) & 15u128 == (b >> 68u128) & 15u128,
            (a >> 64u128) & 15u128 == (b >> 64u128) & 15u128,
            (a >> 60u128) & 15u128 == (b >> 60u128) & 15u128,
            (a >> 56u128) & 15u128 == (b >> 56u128) & 15u128,
            (a >> 52u128) & 15u128 == (b >> 52u128) & 15u128,
            (a >> 48u128) & 15u128 == (b >> 48u128) & 15u128,
            (a >> 44u128) & 15u128 == (b >> 44u128) & 15u128,
            (a >> 40u128) & 15u128 == (b >> 40u128) & 15u128,
            (a >> 36u128) & 15u128 == (b >> 36u128) & 15u128,
            (a >> 32u128) & 15u128 == (b >> 32u128) & 15u128,
            (a >> 28u128) & 15u128 == (b >> 28u128) & 15u128,
            (a >> 24u128) & 15u128 == (b >> 24u128) & 15u128,
            (a >> 20u128) & 15u128 == (b >> 20u128) & 15u128,
            (a >> 16u128) & 15u128 == (b >> 16u128) & 15u128,
            (a >> 12u128) & 15u128 == (b >> 12u128) & 15u128,
            (a >> 8u128) & 15u128 == (b >> 8u128) & 15u128,
            (a >> 4u128) & 15u128 == (b >> 4u128) & 15u128,
            (a >> 0u128) & 15u128 == (b >> 0u128) & 15u128,
    ensures
        a == b,
{
}

/// Two identifiers with the same text are the same identifier.
pub proof fn lemma_id_text_injective(a: u128, b: u128)
    requires
        id_text(a) == id_text(b),
    ensures
        a == b,
{
    assert forall|k: int| 0 <= k < 32 implies nibble(a, k) == nibble(b, k) by {
        let p: int = if k < 8 {
            k
        } else if k < 12 {
            k + 1
        } else if k < 16 {
            k + 2
        } else if k < 20 {
            k + 3
        } else {
            k + 4
        };
        assert(!hyphen_at(p) && digit_index(p) == k);
        assert(id_text(a)[p] == id_text(b)[p]);
        assert(id_text(a)[p] == hex_digit(nibble(a, k)));
        assert(id_text(b)[p] == hex_digit(nibble(b, k)));
        lemma_nibble_small(a >> ((124 - 4 * k) as u128));
        lemma_nibble_small(b >> ((124 - 4 * k) as u128));
        lemma_hex_digit_injective(nibble(a, k), nibble(b, k));
    }
    assert(nibble(a, 0) == nibble(b, 0));
    assert(nibble(a, 1) == nibble(b, 1));
    assert(nibble(a, 2) == nibble(b, 2));
    assert(nibble(a, 3) == nibble(b, 3));
    assert(nibble(a, 4) == nibble(b, 4));
    assert(nibble(a, 5) == nibble(b, 5));
    assert(nibble(a, 6) == nibble(b, 6));
    assert(nibble(a, 7) == nibble(b, 7));
    assert(nibble(a, 8) == nibble(b, 8));
    assert(nibble(a, 9) == nibble(b, 9));
    assert(nibble(a, 10) == nibble(b, 10));
    assert(nibble(a, 11) == nibble(b, 11));
    assert(nibble(a, 12) == nibble(b, 12));
    assert(nibble(a, 13) == nibble(b, 13));
    assert(nibble(a, 14) == nibble(b, 14));
    assert(nibble(a, 15) == nibble(b, 15));
    assert(nibble(a, 16) == nibble(b, 16));
    assert(nibble(a, 17) == nibble(b, 17));
    assert(nibble(a, 18) == nibble(b, 18));
    assert(nibble(a, 19) == nibble(b, 19));
    assert(nibble(a, 20) == nibble(b, 20));
    assert(nibble(a, 21) == nibble(b, 21));
    assert(nibble(a, 22) == nibble(b, 22));
    assert(nibble(a, 23) == nibble(b, 23));
    assert(nibble(a, 24) == nibble(b, 24));
    assert(nibble(a, 25) == nibble(b, 25));
    assert(nibble(a, 26) == nibble(b, 26));
    assert(nibble(a, 27) == nibble(b, 27));
    assert(nibble(a, 28) == nibble(b, 28));
    assert(nibble(a, 29) == nibble(b, 29));
    assert(nibble(a, 30) == nibble(b, 30));
    assert(nibble(a, 31) == nibble(b, 31));
    lemma_nibbles_determine(a, b);
}

/// The identifier read back from its own text is itself.
pub proof fn lemma_id_of_own_text(v: u128)
    ensures
        id_of_text(id_text(v)) == Some(v),
{
    let w = choose|w: u128| id_text(w) == id_text(v);
    lemma_id_text_injective(w, v);
}

/// Relies on uuid's `Uuid::new_v4`: 122 random bits, with the version
/// digit set to 4 and the variant bits to `10`.
#[verifier::external_body]
fn random_v4() -> (r: u128)
    ensures
        (r >> 76u128) & 15u128 == 4,
        (r >> 62u128) & 3u128 == 2,
{
    uuid::Uuid::new_v4().as_u128()
}

/// Relies on uuid's `Uuid::from_u128` (big-endian) and its hyphenated
/// formatter, which writes lowercase hex digits in 8-4-4-4-12 groups.
#[verifier::external_body]
fn hyphenated(v: u128) -> (r: String)
    ensures
        r@ == id_text(v),
{
    uuid::Uuid::from_u128(v).hyphenated().to_string()
}

/// Relies on uuid's `Uuid::parse_str`, which accepts among other forms the
/// hyphenated one in lowercase, read as a big-endian value.
#[verifier::external_body]
fn parse_uuid(s: &str) -> (r: Option<u128>)
    ensures
        forall|v: u128| id_text(v) == s@ ==> r == Some(v),
{
    uuid::Uuid::parse_str(s).ok().map(|u| u.as_u128())
}

impl EntityId {
    pub open spec fn version(self) -> u128 {
        (self.value >> 76u128) & 15u128
    }

    pub open spec fn variant(self) -> u128 {
        (self.value >> 62u128) & 3u128
    }

    /// A fresh random identifier.
    pub fn new_random() -> (r: EntityId)
        ensures
            r.version() == 4,
            r.variant() == 2,
    {
        EntityId { value: random_v4() }
    }

    /// The hyphenated lowercase text, as stored in the tables and cookies.
    pub fn to_text(&self) -> (r: String)
        ensures
            r@ == id_text(self.value),
    {
        hyphenated(self.value)
    }

    /// Reads an identifier from its hyphenated lowercase text; any other
    /// text gives `None`.
    pub fn parse(s: &str) -> (r: Option<EntityId>)
        ensures
            match r {
                Some(id) => id_of_text(s@) == Some(id.value),
                None => id_of_text(s@) is None,
            },
    {
        match parse_uuid(s) {
            None => None,
            Some(v) => {
                let back = hyphenated(v);
                let orig = s.to_owned();
                if back == orig {
                    proof {
                        lemma_id_of_own_text(v);
                    }
                    Some(EntityId { value: v })
                } else {
                    proof {
                        if exists|w: u128| id_text(w) == s@ {
                            let w = choose|w: u128| id_text(w) == s@;
                            assert(Some(v) == Some(w));
                        }
                    }
                    None
                }
            },
        }
    }
}

} // verus!
