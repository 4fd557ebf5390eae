//! Character-sequence helpers shared by the page parser: whitespace
//! trimming, line splitting, and reading a decimal number from the front of
//! a line. Each executable function is proved against a spec function over
//! `Seq<char>`, and those spec functions are what the parser's contracts
//! speak of.
//!
//! Whitespace here means the ASCII whitespace characters; exotic Unicode
//! space characters are treated as ordinary text.

use vstd::prelude::*;

verus! {

/// The characters that trimming removes.
pub open spec fn is_space_char(c: char) -> bool {
    c == ' ' || c == '\t' || c == '\r' || c == '\n' || c == '\u{000B}' || c == '\u{000C}'
}

/// `s` without its leading whitespace.
pub open spec fn trim_front(s: Seq<char>) -> Seq<char>
    decreases s.len(),
{
    if s.len() > 0 && is_space_char(s[0]) {
        trim_front(s.drop_first())
    } else {
        s
    }
}

/// `s` without its trailing whitespace.
pub open spec fn trim_back(s: Seq<char>) -> Seq<char>
    decreases s.len(),
{
    if s.len() > 0 && is_space_char(s.last()) {
        trim_back(s.drop_last())
    } else {
        s
    }
}

/// `s` without leading and trailing whitespace.
pub open spec fn trim_spec(s: Seq<char>) -> Seq<char> {
    trim_back(trim_front(s))
}

proof fn lemma_trim_front_subrange(s: Seq<char>, i: int)
    requires
        0 <= i <= s.len(),
        forall|j: int| 0 <= j < i ==> is_space_char(s[j]),
        i < s.len() ==> !is_space_char(s[i]),
    ensures
        trim_front(s) == s.subrange(i, s.len() as int),
    decreases i,
{
    if i == 0 {
        if s.len() > 0 && is_space_char(s[0]) {
        } else {
            assert(s.subrange(0, s.len() as int) =~= s);
        }
    } else {
        let t = s.drop_first();
        assert(forall|j: int| 0 <= j < i - 1 ==> is_space_char(#[trigger] t[j]));
        lemma_trim_front_subrange(t, i - 1);
        assert(t.subrange(i - 1, t.len() as int) =~= s.subrange(i, s.len() as int));
    }
}

proof fn lemma_trim_back_subrange(s: Seq<char>, i: int)
    requires
        0 <= i <= s.len(),
        forall|j: int| i <= j < s.len() ==> is_space_char(s[j]),
        i > 0 ==> !is_space_char(s[i - 1]),
    ensures
        trim_back(s) == s.subrange(0, i),
    decreases s.len() - i,
{
    if i == s.len() {
        if s.len() > 0 && is_space_char(s.last()) {
        } else {
            assert(s.subrange(0, s.len() as int) =~= s);
        }
    } else {
        let t = s.drop_last();
        lemma_trim_back_subrange(t, i);
        assert(t.subrange(0, i) =~= s.subrange(0, i));
    }
}

/// Whether `c` is trimmed away; proved equal to `is_space_char`.
pub fn is_space(c: char) -> (r: bool)
    ensures
        r == is_space_char(c),
{
    c == ' ' || c == '\t' || c == '\r' || c == '\n' || c == '\u{000B}' || c == '\u{000C}'
}

/// Both-ends whitespace trim, the executable counterpart of `trim_spec`.
pub fn trim_str(s: &str) -> (r: &str)
    ensures
        r@ == trim_spec(s@),
{
    let n = s.unicode_len();
    let mut lo: usize = 0;
    while lo < n && is_space(s.get_char(lo))
        invariant
            0 <= lo <= n == s@.len(),
            forall|j: int| 0 <= j < lo ==> is_space_char(s@[j]),
        decreases n - lo,
    {
        lo = lo + 1;
    }
    let mut hi: usize = n;
    while hi > lo && is_space(s.get_char(hi - 1))
        invariant
            lo <= hi <= n == s@.len(),
            forall|j: int| 0 <= j < lo ==> is_space_char(s@[j]),
            lo < s@.len() ==> !is_space_char(s@[lo as int]),
            forall|j: int| hi <= j < n ==> is_space_char(s@[j]),
        decreases hi,
    {
        hi = hi - 1;
    }
    proof {
        lemma_trim_front_subrange(s@, lo as int);
        let t = s@.subrange(lo as int, s@.len() as int);
        lemma_trim_back_subrange(t, hi - lo);
        assert(t.subrange(0, hi - lo) =~= s@.subrange(lo as int, hi as int));
    }
    s.substring_char(lo, hi)
}

/// Front-only whitespace trim, the executable counterpart of `trim_front`.
pub fn trim_start_str(s: &str) -> (r: &str)
    ensures
        r@ == trim_front(s@),
{
    let n = s.unicode_len();
    let mut lo: usize = 0;
    while lo < n && is_space(s.get_char(lo))
        invariant
            0 <= lo <= n == s@.len(),
            forall|j: int| 0 <= j < lo ==> is_space_char(s@[j]),
        decreases n - lo,
    {
        lo = lo + 1;
    }
    proof {
        lemma_trim_front_subrange(s@, lo as int);
    }
    s.substring_char(lo, n)
}

/// Back-only whitespace trim, the executable counterpart of `trim_back`.
pub fn trim_end_str(s: &str) -> (r: &str)
    ensures
        r@ == trim_back(s@),
{
    let n = s.unicode_len();
    let mut hi: usize = n;
    while hi > 0 && is_space(s.get_char(hi - 1))
        invariant
            0 <= hi <= n == s@.len(),
            forall|j: int| hi <= j < n ==> is_space_char(s@[j]),
        decreases hi,
    {
        hi = hi - 1;
    }
    proof {
        lemma_trim_back_subrange(s@, hi as int);
    }
    s.substring_char(0, hi)
}

/// Character-for-character string equality.
pub fn str_eq(a: &str, b: &str) -> (r: bool)
    ensures
        r == (a@ == b@),
{
    let na = a.unicode_len();
    let nb = b.unicode_len();
    if na != nb {
        proof {
            assert(a@ != b@) by {
                assert(a@.len() != b@.len());
            }
        }
        return false;
    }
    let mut i: usize = 0;
    while i < na
        invariant
            0 <= i <= na,
            na == a@.len() == b@.len(),
            forall|j: int| 0 <= j < i ==> a@[j] == b@[j],
        decreases na - i,
    {
        if a.get_char(i) != b.get_char(i) {
            return false;
        }
        i = i + 1;
    }
    proof {
        assert(a@ =~= b@);
    }
    true
}

/// Whether `line`, trimmed, equals `tag` exactly.
pub fn line_is_tag(line: &str, tag: &str) -> (r: bool)
    ensures
        r == (trim_spec(line@) == tag@),
{
    str_eq(trim_str(line), tag)
}

/// The index of the first newline of `s`, or `-1` when it has none.
pub open spec fn find_nl(s: Seq<char>) -> int
    decreases s.len(),
{
    if s.len() == 0 {
        -1
    } else if s[0] == '\n' {
        0
    } else if find_nl(s.drop_first()) == -1 {
        -1
    } else {
        find_nl(s.drop_first()) + 1
    }
}

proof fn lemma_find_nl(s: Seq<char>, i: int)
    requires
        0 <= i <= s.len(),
        forall|j: int| 0 <= j < i ==> s[j] != '\n',
        i < s.len() ==> s[i as int] == '\n',
    ensures
        find_nl(s) == if i == s.len() { -1int } else { i },
    decreases i,
{
    if i == 0 {
    } else {
        let t = s.drop_first();
        assert(forall|j: int| 0 <= j < i - 1 ==> #[trigger] t[j] != '\n');
        lemma_find_nl(t, i - 1);
    }
}

/// A line as `str::lines` yields it: one carriage return directly before the
/// newline is dropped with it.
pub open spec fn strip_cr(l: Seq<char>) -> Seq<char> {
    if l.len() > 0 && l.last() == '\r' {
        l.drop_last()
    } else {
        l
    }
}

/// The lines of `s`, split at newlines, as `str::lines` yields them: each
/// line loses a carriage return that sat directly before its newline, and a
/// final newline ends the last line rather than opening an empty one.
pub open spec fn spec_lines(s: Seq<char>) -> Seq<Seq<char>>
    decreases s.len(),
{
    if s.len() == 0 {
        Seq::empty()
    } else if 0 <= find_nl(s) < s.len() {
        seq![strip_cr(s.subrange(0, find_nl(s)))]
            + spec_lines(s.subrange(find_nl(s) + 1, s.len() as int))
    } else {
        seq![s]
    }
}

/// Splits `s` into its lines; the executable counterpart of `spec_lines`.
pub fn source_lines(s: &str) -> (r: Vec<String>)
    ensures
        r.deep_view() == spec_lines(s@),
{
    let n = s.unicode_len();
    let mut out: Vec<String> = Vec::new();
    let mut pos: usize = 0;
    proof {
        assert(s@.subrange(0, n as int) =~= s@);
        assert(out.deep_view() =~= Seq::<Seq<char>>::empty());
    }
    while pos < n
        invariant
            0 <= pos <= n == s@.len(),
            spec_lines(s@) == out.deep_view() + spec_lines(
                s@.subrange(pos as int, n as int),
            ),
        decreases n - pos,
    {
        let ghost rest = s@.subrange(pos as int, n as int);
        let mut j: usize = pos;
        while j < n && s.get_char(j) != '\n'
            invariant
                pos <= j <= n == s@.len(),
                forall|k: int| pos <= k < j ==> s@[k] != '\n',
            decreases n - j,
        {
            j = j + 1;
        }
        proof {
            assert(forall|k: int| 0 <= k < j - pos ==> #[trigger] rest[k] != '\n');
            lemma_find_nl(rest, j - pos);
        }
        let ghost prev = out.deep_view();
        if j == n {
            out.push(String::from_str(s.substring_char(pos, n)));
            proof {
                assert(spec_lines(rest) =~= seq![rest]);
                assert(out.deep_view() =~= prev.push(rest));
                assert(s@.subrange(n as int, n as int) =~= Seq::<char>::empty());
                assert(out.deep_view() + spec_lines(s@.subrange(n as int, n as int))
                    =~= prev + spec_lines(rest));
            }
            pos = n;
        } else {
            let mut end: usize = j;
            if end > pos && s.get_char(end - 1) == '\r' {
                end = end - 1;
            }
            out.push(String::from_str(s.substring_char(pos, end)));
            proof {
                let head = rest.subrange(0, j - pos);
                assert(head =~= s@.subrange(pos as int, j as int));
                assert(strip_cr(head) =~= s@.subrange(pos as int, end as int));
                assert(rest.subrange(j - pos + 1, rest.len() as int)
                    =~= s@.subrange(j + 1, n as int));
                assert(out.deep_view() =~= prev.push(s@.subrange(pos as int, end as int)));
                assert(out.deep_view() + spec_lines(s@.subrange(j + 1, n as int))
                    =~= prev + spec_lines(rest));
            }
            pos = j + 1;
        }
    }
    proof {
        assert(s@.subrange(pos as int, n as int) =~= Seq::<char>::empty());
        assert(out.deep_view() + spec_lines(Seq::<char>::empty()) =~= out.deep_view());
    }
    out
}

/// Whether `c` is an ASCII decimal digit.
pub open spec fn is_digit_char(c: char) -> bool {
    48 <= c as u32 <= 57
}

/// The value of a sequence of decimal digits, most significant first.
pub open spec fn digits_val(t: Seq<char>) -> int
    decreases t.len(),
{
    if t.len() == 0 {
        0
    } else {
        digits_val(t.drop_last()) * 10 + (t.last() as u32 - 48)
    }
}

/// `t` without one leading `+` sign, if it has one.
pub open spec fn strip_plus(t: Seq<char>) -> Seq<char> {
    if t.len() > 0 && t[0] == '+' {
        t.drop_first()
    } else {
        t
    }
}

/// Whether every character of `t` is a decimal digit.
pub open spec fn all_digits(t: Seq<char>) -> bool {
    forall|j: int| 0 <= j < t.len() ==> is_digit_char(t[j])
}

/// What `str::parse::<u32>` accepts: an optional leading `+`, then one or
/// more decimal digits whose value fits in 32 bits.
pub open spec fn spec_parse_u32(t: Seq<char>) -> Option<u32> {
    if strip_plus(t).len() > 0 && all_digits(strip_plus(t))
        && digits_val(strip_plus(t)) <= u32::MAX {
        Some(digits_val(strip_plus(t)) as u32)
    } else {
        None
    }
}

/// The token before the first space of `l`: the whole of `l` when it has no
/// space. Only the space character splits; tabs do not.
pub open spec fn spec_first_token(l: Seq<char>) -> Seq<char> {
    if exists|j: int| 0 <= j < l.len() && l[j] == ' ' {
        let j = choose|j: int|
            0 <= j < l.len() && l[j] == ' ' && (forall|k: int| 0 <= k < j ==> l[k] != ' ');
        l.subrange(0, j)
    } else {
        l
    }
}

/// What reading a coordinate line of an image question yields: the leading
/// space-delimited token parsed as a `u32`.
pub open spec fn spec_leading_u32(l: Seq<char>) -> Option<u32> {
    spec_parse_u32(spec_first_token(l))
}

proof fn lemma_first_token(l: Seq<char>, j: int)
    requires
        0 <= j <= l.len(),
        forall|k: int| 0 <= k < j ==> l[k] != ' ',
        j < l.len() ==> l[j as int] == ' ',
    ensures
        spec_first_token(l) == if j == l.len() { l } else { l.subrange(0, j) },
{
    if j == l.len() {
        assert(forall|k: int| 0 <= k < l.len() ==> l[k] != ' ');
    } else {
        let w = choose|w: int|
            0 <= w < l.len() && l[w] == ' ' && (forall|k: int| 0 <= k < w ==> l[k] != ' ');
        assert(l[j as int] == ' ');
        assert(w == j);
    }
}

/// `digits_val` only grows as more digits are appended on the right.
proof fn lemma_digits_val_monotone(t: Seq<char>, i: int)
    requires
        0 <= i <= t.len(),
        forall|j: int| 0 <= j < t.len() ==> is_digit_char(t[j]),
    ensures
        digits_val(t.subrange(0, i)) <= digits_val(t),
        digits_val(t) >= 0,
    decreases t.len() - i,
{
    if i == t.len() {
        assert(t.subrange(0, i) =~= t);
        lemma_digits_val_nonneg(t);
    } else {
        lemma_digits_val_monotone(t, i + 1);
        let p = t.subrange(0, i + 1);
        assert(p.drop_last() =~= t.subrange(0, i));
        assert(forall|j: int|
            0 <= j < i ==> is_digit_char(#[trigger] t.subrange(0, i)[j]));
        lemma_digits_val_nonneg(t.subrange(0, i));
        assert(digits_val(p) == digits_val(t.subrange(0, i)) * 10 + (p.last() as u32 - 48));
        assert(digits_val(t.subrange(0, i)) <= digits_val(p)) by (nonlinear_arith)
            requires digits_val(t.subrange(0, i)) >= 0,
                digits_val(p) == digits_val(t.subrange(0, i)) * 10 + (p.last() as u32 - 48),
                p.last() as u32 >= 48;
    }
}

proof fn lemma_digits_val_nonneg(t: Seq<char>)
    requires
        forall|j: int| 0 <= j < t.len() ==> is_digit_char(t[j]),
    ensures
        digits_val(t) >= 0,
    decreases t.len(),
{
    if t.len() > 0 {
        assert(forall|j: int| 0 <= j < t.len() - 1 ==> is_digit_char(#[trigger] t.drop_last()[j]));
        lemma_digits_val_nonneg(t.drop_last());
    }
}

/// Reads the leading space-delimited token of `l` as a `u32`, as the image
/// question parser does; the executable counterpart of `spec_leading_u32`.
pub fn parse_leading_u32(l: &str) -> (r: Option<u32>)
    ensures
        r == spec_leading_u32(l@),
{
    let n = l.unicode_len();
    let mut tok_end: usize = 0;
    while tok_end < n && l.get_char(tok_end) != ' '
        invariant
            0 <= tok_end <= n == l@.len(),
            forall|k: int| 0 <= k < tok_end ==> l@[k] != ' ',
        decreases n - tok_end,
    {
        tok_end = tok_end + 1;
    }
    proof {
        lemma_first_token(l@, tok_end as int);
        assert(l@.subrange(0, l@.len() as int) =~= l@);
    }
    let ghost tok = spec_first_token(l@);
    let start: usize = if tok_end > 0 && l.get_char(0) == '+' {
        1
    } else {
        0
    };
    let ghost digits = tok.subrange(start as int, tok_end as int);
    proof {
        if tok.len() > 0 && tok[0] == '+' {
            assert(digits =~= tok.drop_first());
        } else {
            assert(digits =~= tok);
        }
        assert(digits == strip_plus(tok));
    }
    if start == tok_end {
        return None;
    }
    let mut i: usize = start;
    let mut acc: u64 = 0;
    proof {
        assert(l@.subrange(start as int, start as int) =~= Seq::<char>::empty());
    }
    while i < tok_end
        invariant
            start <= i <= tok_end <= l@.len(),
            digits == tok.subrange(start as int, tok_end as int),
            digits == strip_plus(tok),
            tok == spec_first_token(l@),
            tok == l@.subrange(0, tok_end as int),
            forall|k: int| start <= k < i ==> is_digit_char(l@[k]),
            acc == digits_val(l@.subrange(start as int, i as int)),
            acc <= u32::MAX,
        decreases tok_end - i,
    {
        let c = l.get_char(i);
        let cv = c as u32;
        if cv < 48 || cv > 57 {
            proof {
                assert(digits[i - start] == l@[i as int]);
                assert(!all_digits(digits));
            }
            return None;
        }
        let d: u64 = (cv - 48) as u64;
        let next: u64 = acc * 10 + d;
        proof {
            assert(l@.subrange(start as int, i + 1).drop_last()
                =~= l@.subrange(start as int, i as int));
        }
        if next > u32::MAX as u64 {
            proof {
                assert(l@.subrange(start as int, tok_end as int) =~= digits);
                assert(digits.subrange(0, i + 1 - start)
                    =~= l@.subrange(start as int, i + 1));
                if all_digits(digits) {
                    lemma_digits_val_monotone(digits, i + 1 - start);
                    assert(digits_val(digits) > u32::MAX);
                }
            }
            return None;
        }
        acc = next;
        i = i + 1;
    }
    proof {
        assert(l@.subrange(start as int, tok_end as int) =~= digits);
        assert(forall|k: int| 0 <= k < digits.len() ==> is_digit_char(#[trigger] digits[k]));
        assert(all_digits(digits));
    }
    Some(acc as u32)
}

} // verus!
