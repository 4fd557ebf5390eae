//! The authorization guard: reading identifiers in their hyphenated
//! hexadecimal form, rendering them back, and resolving a presented
//! session token to the user it stands for.
//!
//! Every protected operation starts here: a missing token fails
//! `LoginRequired`, a malformed one `InternalError` (the client library
//! never sends one, so it marks tampering or a bug), and a token with no
//! live session `LoginRequired` again.
//!
//! Sessions here do not expire on their own: idle-timeout eviction belongs
//! to the cache a deployment puts in front of the store, not to these
//! rules.

use vstd::prelude::*;

use vstd::arithmetic::div_mod::lemma_basic_div;
use vstd::arithmetic::div_mod::lemma_div_denominator;
use vstd::arithmetic::div_mod::lemma_fundamental_div_mod;

use crate::model::ApiError;
use crate::model::UserId;
use crate::store::Platform;
use crate::store::lemma_session_map_absent;
use crate::store::lemma_session_map_index;

verus! {

/// Whether `c` is a hexadecimal digit, either case.
pub open spec fn is_hex_digit(c: char) -> bool {
    (48 <= c as u32 <= 57) || (97 <= c as u32 <= 102) || (65 <= c as u32 <= 70)
}

/// The value of a hexadecimal digit.
pub open spec fn hex_val(c: char) -> int {
    if 48 <= c as u32 <= 57 {
        c as u32 - 48
    } else if 97 <= c as u32 <= 102 {
        c as u32 - 87
    } else {
        c as u32 - 55
    }
}

/// Whether `k` is one of the four hyphen positions of the canonical
/// hyphenated identifier form.
pub open spec fn is_hyphen_pos(k: int) -> bool {
    k == 8 || k == 13 || k == 18 || k == 23
}

/// Whether `s` is an identifier in canonical hyphenated form: 36
/// characters, hyphens exactly at the four fixed positions, hexadecimal
/// digits everywhere else.
pub open spec fn is_canonical_id(s: Seq<char>) -> bool {
    &&& s.len() == 36
    &&& forall|k: int| 0 <= k < 36 && is_hyphen_pos(k) ==> s[k] == '-'
    &&& forall|k: int| 0 <= k < 36 && !is_hyphen_pos(k) ==> is_hex_digit(#[trigger] s[k])
}

/// The value of the hexadecimal digits among the first `i` characters,
/// hyphens skipped, most significant first.
pub open spec fn id_val(s: Seq<char>, i: int) -> int
    decreases i,
{
    if i <= 0 {
        0
    } else if s[i - 1] == '-' {
        id_val(s, i - 1)
    } else {
        id_val(s, i - 1) * 16 + hex_val(s[i - 1])
    }
}

/// What reading an identifier string yields: its 128-bit value when it is
/// in canonical form, nothing otherwise.
pub open spec fn spec_parse_id(s: Seq<char>) -> Option<u128> {
    if is_canonical_id(s) {
        Some(id_val(s, 36) as u128)
    } else {
        None
    }
}

/// Sixteen to the `n`th.
pub open spec fn pow16(n: nat) -> int
    decreases n,
{
    if n == 0 {
        1int
    } else {
        16 * pow16((n - 1) as nat)
    }
}

proof fn lemma_pow16_32()
    ensures
        pow16(32) == 0x1_0000_0000_0000_0000_0000_0000_0000_0000,
{
    reveal_with_fuel(pow16, 33);
}

/// Whether `c` is a hexadecimal digit, and its value; the executable
/// counterpart of `is_hex_digit` and `hex_val`.
fn hex_digit_val(c: char) -> (r: Option<u8>)
    ensures
        r is Some <==> is_hex_digit(c),
        r matches Some(v) ==> v as int == hex_val(c),
{
    let cv = c as u32;
    if 48 <= cv && cv <= 57 {
        Some((cv - 48) as u8)
    } else if 97 <= cv && cv <= 102 {
        Some((cv - 87) as u8)
    } else if 65 <= cv && cv <= 70 {
        Some((cv - 55) as u8)
    } else {
        None
    }
}

/// Reads an identifier in canonical hyphenated form; the executable
/// counterpart of [`spec_parse_id`].
pub fn parse_id(s: &str) -> (r: Option<u128>)
    ensures
        r == spec_parse_id(s@),
{
    let n = s.unicode_len();
    if n != 36 {
        return None;
    }
    let mut acc: u128 = 0;
    let mut dcount: u32 = 0;
    let mut i: usize = 0;
    while i < 36
        invariant
            0 <= i <= 36,
            s@.len() == 36,
            dcount as int == i - (if i > 8 { 1int } else { 0 }) - (if i > 13 { 1int } else { 0 })
                - (if i > 18 { 1int } else { 0 }) - (if i > 23 { 1int } else { 0 }),
            acc as int == id_val(s@, i as int),
            acc < pow16(dcount as nat),
            forall|k: int| 0 <= k < i && is_hyphen_pos(k) ==> s@[k] == '-',
            forall|k: int| 0 <= k < i && !is_hyphen_pos(k) ==> is_hex_digit(#[trigger] s@[k]),
        decreases 36 - i,
    {
        let c = s.get_char(i);
        if i == 8 || i == 13 || i == 18 || i == 23 {
            if c != '-' {
                return None;
            }
        } else {
            let Some(d) = hex_digit_val(c) else {
                return None;
            };
            proof {
                lemma_pow16_32();
                assert(dcount <= 31);
                assert(pow16((dcount + 1) as nat) == 16 * pow16(dcount as nat));
                assert(pow16(dcount as nat) <= pow16(31)) by {
                    lemma_pow16_monotone(dcount as nat, 31);
                }
                assert(16 * pow16(31) == pow16(32));
            }
            acc = acc * 16 + (d as u128);
            dcount = dcount + 1;
        }
        i = i + 1;
    }
    Some(acc)
}

proof fn lemma_pow16_monotone(a: nat, b: nat)
    requires
        a <= b,
    ensures
        pow16(a) <= pow16(b),
        pow16(a) >= 1,
    decreases b,
{
    if a == b {
        lemma_pow16_pos(a);
    } else {
        lemma_pow16_monotone(a, (b - 1) as nat);
    }
}

proof fn lemma_pow16_pos(n: nat)
    ensures
        pow16(n) >= 1,
    decreases n,
{
    if n > 0 {
        lemma_pow16_pos((n - 1) as nat);
    }
}

/// The lowercase hexadecimal digit for a nibble value.
fn hex_char_str(v: u8) -> (r: &'static str)
    requires
        v < 16,
    ensures
        r@.len() == 1,
        r@[0] != '-',
        is_hex_digit(r@[0]),
        hex_val(r@[0]) == v as int,
{
    proof {
        reveal_strlit("0");
        reveal_strlit("1");
        reveal_strlit("2");
        reveal_strlit("3");
        reveal_strlit("4");
        reveal_strlit("5");
        reveal_strlit("6");
        reveal_strlit("7");
        reveal_strlit("8");
        reveal_strlit("9");
        reveal_strlit("a");
        reveal_strlit("b");
        reveal_strlit("c");
        reveal_strlit("d");
        reveal_strlit("e");
        reveal_strlit("f");
    }
    match v {
        0 => "0",
        1 => "1",
        2 => "2",
        3 => "3",
        4 => "4",
        5 => "5",
        6 => "6",
        7 => "7",
        8 => "8",
        9 => "9",
        10 => "a",
        11 => "b",
        12 => "c",
        13 => "d",
        14 => "e",
        _ => "f",
    }
}

proof fn lemma_pow16_31()
    ensures
        pow16(31) == 0x1000_0000_0000_0000_0000_0000_0000_0000,
{
    reveal_with_fuel(pow16, 32);
}

/// The value of the digits among the first `k` characters depends on those
/// characters alone.
proof fn lemma_id_val_prefix(s1: Seq<char>, s2: Seq<char>, k: int)
    requires
        0 <= k <= s1.len(),
        k <= s2.len(),
        forall|q: int| 0 <= q < k ==> s1[q] == s2[q],
    ensures
        id_val(s1, k) == id_val(s2, k),
    decreases k,
{
    if k > 0 {
        lemma_id_val_prefix(s1, s2, k - 1);
    }
}

/// Renders an identifier in canonical hyphenated form, nibble by nibble
/// from the most significant; what comes out always reads back as the
/// identifier it was made from.
pub fn format_id(id: u128) -> (r: String)
    ensures
        spec_parse_id(r@) == Some(id),
{
    let mut s = String::new();
    let mut p: u128 = 0x1000_0000_0000_0000_0000_0000_0000_0000;
    let mut i: usize = 0;
    proof {
        lemma_pow16_31();
        lemma_pow16_32();
        lemma_basic_div(id as int, pow16(32));
    }
    while i < 32
        invariant
            0 <= i <= 32,
            i < 32 ==> p as int == pow16((31 - i) as nat),
            s@.len() == i + (if i > 8 { 1int } else { 0 }) + (if i > 12 { 1int } else { 0 })
                + (if i > 16 { 1int } else { 0 }) + (if i > 20 { 1int } else { 0 }),
            forall|q: int| 0 <= q < s@.len() && is_hyphen_pos(q) ==> s@[q] == '-',
            forall|q: int|
                0 <= q < s@.len() && !is_hyphen_pos(q) ==> is_hex_digit(#[trigger] s@[q]),
            id_val(s@, s@.len() as int) == id as int / pow16((32 - i) as nat),
        decreases 32 - i,
    {
        proof {
            lemma_pow16_pos((31 - i) as nat);
        }
        if i == 8 || i == 12 || i == 16 || i == 20 {
            let ghost pre = s@;
            proof {
                reveal_strlit("-");
            }
            s.append("-");
            proof {
                lemma_id_val_prefix(pre, s@, pre.len() as int);
            }
        }
        let d = id / p;
        let nibble: u8 = (d % 16) as u8;
        let h = hex_char_str(nibble);
        let ghost mid = s@;
        s.append(h);
        proof {
            lemma_id_val_prefix(mid, s@, mid.len() as int);
            assert(pow16((32 - i) as nat) == 16 * pow16((31 - i) as nat));
            lemma_div_denominator(id as int, p as int, 16);
            lemma_fundamental_div_mod(id as int / p as int, 16);
            assert(id_val(s@, s@.len() as int) == id_val(mid, mid.len() as int) * 16
                + nibble as int);
        }
        p = p / 16;
        i = i + 1;
        proof {
            if i < 32 {
                assert(pow16((32 - i) as nat) == 16 * pow16((31 - i) as nat));
            }
        }
    }
    proof {
        assert(is_canonical_id(s@));
        assert(pow16(0) == 1);
        assert(id as int / 1 == id as int);
    }
    s
}

/// The view of an optional borrowed string, for contracts over an optional
/// session token.
pub open spec fn opt_str_view(s: Option<&str>) -> Option<Seq<char>> {
    match s {
        None => None,
        Some(t) => Some(t@),
    }
}

/// What resolving a session token against a platform state yields: the
/// contract of [`Platform::resolve_session`], stated over the view so that
/// every protected operation's contract can reuse it.
pub open spec fn spec_resolve(v: crate::store::PlatformView, token: Option<Seq<char>>) -> Result<
    UserId,
    ApiError,
> {
    match token {
        None => Err(ApiError::LoginRequired),
        Some(t) => match spec_parse_id(t) {
            None => Err(ApiError::InternalError),
            Some(key) => if v.sessions.contains_key(key) {
                Ok(v.sessions[key])
            } else {
                Err(ApiError::LoginRequired)
            },
        },
    }
}

impl Platform {
    /// Resolves a presented session token to the user it stands for: the
    /// guard every protected operation runs first. No token fails
    /// `LoginRequired`; a token that is not a canonical identifier fails
    /// `InternalError`; a token with no live session fails `LoginRequired`.
    pub fn resolve_session(&self, token: Option<&str>) -> (r: Result<UserId, ApiError>)
        requires
            self.wf(),
        ensures
            r == spec_resolve(self@, opt_str_view(token)),
    {
        let Some(t) = token else {
            return Err(ApiError::LoginRequired);
        };
        let Some(key) = parse_id(t) else {
            return Err(ApiError::InternalError);
        };
        let mut i: usize = 0;
        while i < self.sessions.len()
            invariant
                self.wf(),
                spec_parse_id(t@) == Some(key),
                token == Some(t),
                0 <= i <= self.sessions@.len(),
                forall|j: int| 0 <= j < i ==> self.sessions@[j].token.0 != key,
            decreases self.sessions@.len() - i,
        {
            if self.sessions[i].token.0 == key {
                proof {
                    lemma_session_map_index(self.sessions@, i as int);
                }
                return Ok(self.sessions[i].user_id);
            }
            i = i + 1;
        }
        proof {
            lemma_session_map_absent(self.sessions@, key);
        }
        Err(ApiError::LoginRequired)
    }
}

} // verus!
