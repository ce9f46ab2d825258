//! Character classes and small text utilities shared by the parsing logic:
//! decimal and hexadecimal digit classes, ASCII-whitespace trimming, and
//! decimal number parsing as `str::parse` does it.

use vstd::prelude::*;

verus! {

/// Spec: `c` is an ASCII decimal digit.
pub open spec fn is_dec_digit(c: char) -> bool {
    '0' <= c && c <= '9'
}

/// Spec: `c` is a lowercase hexadecimal digit.
pub open spec fn is_lower_hex_digit(c: char) -> bool {
    is_dec_digit(c) || ('a' <= c && c <= 'f')
}

/// Spec: `c` is a hexadecimal digit of either case.
pub open spec fn is_hex_digit(c: char) -> bool {
    is_lower_hex_digit(c) || ('A' <= c && c <= 'F')
}

/// Spec: `c` is one of the four ASCII whitespace characters that
/// surround server-supplied text (space, tab, carriage return, newline).
pub open spec fn is_ascii_space(c: char) -> bool {
    c == ' ' || c == '\t' || c == '\r' || c == '\n'
}

/// Exec mirror of [`is_dec_digit`].
pub fn dec_digit(c: char) -> (r: bool)
    ensures
        r == is_dec_digit(c),
{
    '0' <= c && c <= '9'
}

/// Exec mirror of [`is_lower_hex_digit`].
pub fn lower_hex_digit(c: char) -> (r: bool)
    ensures
        r == is_lower_hex_digit(c),
{
    ('0' <= c && c <= '9') || ('a' <= c && c <= 'f')
}

/// Exec mirror of [`is_hex_digit`].
pub fn hex_digit(c: char) -> (r: bool)
    ensures
        r == is_hex_digit(c),
{
    ('0' <= c && c <= '9') || ('a' <= c && c <= 'f') || ('A' <= c && c <= 'F')
}

/// Exec mirror of [`is_ascii_space`].
pub fn ascii_space(c: char) -> (r: bool)
    ensures
        r == is_ascii_space(c),
{
    c == ' ' || c == '\t' || c == '\r' || c == '\n'
}

/// Character-by-character string comparison.
pub fn str_eq(a: &str, b: &str) -> (r: bool)
    ensures
        r == (a@ == b@),
{
    let na = a.unicode_len();
    let nb = b.unicode_len();
    if na != nb {
        return false;
    }
    let mut i: usize = 0;
    while i < na
        invariant
            na == a@.len(),
            na == b@.len(),
            0 <= i <= na,
            forall|j: int| 0 <= j < i ==> a@[j] == b@[j],
        decreases na - i,
    {
        if a.get_char(i) != b.get_char(i) {
            return false;
        }
        i += 1;
    }
    proof {
        assert(a@ =~= b@);
    }
    true
}

/// Whether some element of `v` has the contents of `x`.
pub fn contains_str(v: &Vec<String>, x: &str) -> (r: bool)
    ensures
        r == v.deep_view().contains(x@),
{
    let n = v.len();
    let mut i: usize = 0;
    while i < n
        invariant
            0 <= i <= n,
            n == v@.len(),
            forall|j: int| 0 <= j < i ==> v.deep_view()[j] != x@,
        decreases n - i,
    {
        proof {
            assert(v.deep_view()[i as int] == v@[i as int]@);
        }
        if str_eq(v[i].as_str(), x) {
            proof {
                assert(v.deep_view().contains(x@));
            }
            return true;
        }
        i += 1;
    }
    proof {
        if v.deep_view().contains(x@) {
            let j = choose|j: int|
                0 <= j < v.deep_view().len() && v.deep_view()[j] == x@;
            assert(false);
        }
    }
    false
}

/// The sequence with its leading ASCII whitespace removed.
pub open spec fn trim_start_spec(s: Seq<char>) -> Seq<char>
    decreases s.len(),
{
    if s.len() > 0 && is_ascii_space(s.first()) {
        trim_start_spec(s.drop_first())
    } else {
        s
    }
}

/// The sequence with its trailing ASCII whitespace removed.
pub open spec fn trim_end_spec(s: Seq<char>) -> Seq<char>
    decreases s.len(),
{
    if s.len() > 0 && is_ascii_space(s.last()) {
        trim_end_spec(s.drop_last())
    } else {
        s
    }
}

/// The sequence with ASCII whitespace removed from both ends.
pub open spec fn trim_spaces(s: Seq<char>) -> Seq<char> {
    trim_end_spec(trim_start_spec(s))
}

proof fn lemma_trim_start_at(s: Seq<char>, i: int)
    requires
        0 <= i <= s.len(),
        forall|k: int| 0 <= k < i ==> is_ascii_space(#[trigger] s[k]),
        i == s.len() || !is_ascii_space(s[i]),
    ensures
        trim_start_spec(s) == s.subrange(i, s.len() as int),
    decreases i,
{
    if i == 0 {
        assert(s.subrange(0, s.len() as int) =~= s);
    } else {
        let rest = s.drop_first();
        assert(forall|k: int| 0 <= k < i - 1 ==> is_ascii_space(#[trigger] rest[k]));
        lemma_trim_start_at(rest, i - 1);
        assert(rest.subrange(i - 1, rest.len() as int) =~= s.subrange(i, s.len() as int));
    }
}

proof fn lemma_trim_end_at(s: Seq<char>, j: int)
    requires
        0 <= j <= s.len(),
        forall|k: int| j <= k < s.len() ==> is_ascii_space(#[trigger] s[k]),
        j == 0 || !is_ascii_space(s[j - 1]),
    ensures
        trim_end_spec(s) == s.subrange(0, j),
    decreases s.len() - j,
{
    if j == s.len() {
        assert(s.subrange(0, s.len() as int) =~= s);
    } else {
        let rest = s.drop_last();
        assert(forall|k: int| j <= k < rest.len() ==> is_ascii_space(#[trigger] rest[k]));
        lemma_trim_end_at(rest, j);
        assert(rest.subrange(0, j) =~= s.subrange(0, j));
    }
}

/// Copy of `s` with ASCII whitespace removed from both ends, as a server
/// response body is trimmed before interpretation.
pub fn trim_ascii_spaces(s: &str) -> (t: String)
    ensures
        t@ == trim_spaces(s@),
{
    let n = s.unicode_len();
    let mut i: usize = 0;
    while i < n && ascii_space(s.get_char(i))
        invariant
            0 <= i <= n,
            n == s@.len(),
            forall|k: int| 0 <= k < i ==> is_ascii_space(#[trigger] s@[k]),
        decreases n - i,
    {
        i += 1;
    }
    let mut j: usize = n;
    while j > i && ascii_space(s.get_char(j - 1))
        invariant
            i <= j <= n,
            n == s@.len(),
            forall|k: int| j <= k < n ==> is_ascii_space(#[trigger] s@[k]),
        decreases j,
    {
        j -= 1;
    }
    let sub = s.substring_char(i, j);
    let t = sub.to_owned();
    proof {
        lemma_trim_start_at(s@, i as int);
        let mid = s@.subrange(i as int, n as int);
        assert(forall|k: int| j - i <= k < mid.len() ==> is_ascii_space(#[trigger] mid[k]));
        lemma_trim_end_at(mid, j - i);
        assert(mid.subrange(0, j - i) =~= s@.subrange(i as int, j as int));
    }
    t
}

/// The numeric value of a sequence of decimal digits.
pub open spec fn dec_seq_val(s: Seq<char>) -> int
    decreases s.len(),
{
    if s.len() == 0 {
        0
    } else {
        dec_seq_val(s.drop_last()) * 10 + (s.last() as u32 - 48)
    }
}

/// Every character of `s` is a decimal digit.
pub open spec fn all_dec_digits(s: Seq<char>) -> bool {
    forall|i: int| 0 <= i < s.len() ==> is_dec_digit(#[trigger] s[i])
}

/// The digit part of a decimal number in the form `str::parse` accepts:
/// everything after an optional leading `+` sign.
pub open spec fn dec_digits_of(s: Seq<char>) -> Seq<char> {
    if s.len() > 0 && s[0] == '+' {
        s.drop_first()
    } else {
        s
    }
}

/// `str::parse::<u64>` succeeds on `s`.
pub open spec fn parseable_u64(s: Seq<char>) -> bool {
    let d = dec_digits_of(s);
    d.len() > 0 && all_dec_digits(d) && dec_seq_val(d) <= u64::MAX
}

/// `str::parse::<u32>` succeeds on `s`.
pub open spec fn parseable_u32(s: Seq<char>) -> bool {
    let d = dec_digits_of(s);
    d.len() > 0 && all_dec_digits(d) && dec_seq_val(d) <= u32::MAX
}

/// The value `str::parse` reads from `s`, where it succeeds.
pub open spec fn parsed_dec_val(s: Seq<char>) -> int {
    dec_seq_val(dec_digits_of(s))
}

proof fn lemma_dec_seq_val_nonneg(s: Seq<char>)
    requires
        all_dec_digits(s),
    ensures
        dec_seq_val(s) >= 0,
    decreases s.len(),
{
    if s.len() > 0 {
        let rest = s.drop_last();
        assert(forall|i: int| 0 <= i < rest.len() ==> is_dec_digit(#[trigger] rest[i]));
        lemma_dec_seq_val_nonneg(rest);
    }
}

proof fn lemma_dec_seq_val_prefix(s: Seq<char>, k: int)
    requires
        all_dec_digits(s),
        0 <= k <= s.len(),
    ensures
        dec_seq_val(s.take(k)) <= dec_seq_val(s),
    decreases s.len() - k,
{
    if k == s.len() {
        assert(s.take(k) =~= s);
    } else {
        let shorter = s.take(k);
        let longer = s.take(k + 1);
        assert(longer.drop_last() =~= shorter);
        assert(forall|i: int| 0 <= i < shorter.len() ==> is_dec_digit(#[trigger] shorter[i]));
        lemma_dec_seq_val_nonneg(shorter);
        assert(dec_seq_val(longer) == dec_seq_val(shorter) * 10 + (longer.last() as u32 - 48));
        assert(dec_seq_val(shorter) <= dec_seq_val(longer));
        lemma_dec_seq_val_prefix(s, k + 1);
    }
}

/// Decimal parsing as `str::parse::<u64>` performs it: an optional leading
/// `+`, then at least one digit, the value fitting in the type.
pub fn parse_u64_dec(s: &str) -> (r: Option<u64>)
    ensures
        (r is Some) == parseable_u64(s@),
        r is Some ==> r->0 == parsed_dec_val(s@),
{
    let n = s.unicode_len();
    let mut i: usize = 0;
    if n > 0 && s.get_char(0) == '+' {
        i = 1;
    }
    if i == n {
        return None;
    }
    let ghost digits = dec_digits_of(s@);
    proof {
        assert(digits =~= s@.subrange(i as int, n as int));
    }
    let mut acc: u64 = 0;
    let mut k: usize = i;
    while k < n
        invariant
            i <= k <= n,
            n == s@.len(),
            i < n,
            digits =~= s@.subrange(i as int, n as int),
            digits == dec_digits_of(s@),
            forall|j: int| i <= j < k ==> is_dec_digit(#[trigger] s@[j]),
            acc == dec_seq_val(s@.subrange(i as int, k as int)),
        decreases n - k,
    {
        let c = s.get_char(k);
        if !dec_digit(c) {
            proof {
                assert(digits[k - i] == s@[k as int]);
            }
            return None;
        }
        let d: u64 = (c as u32 - 48) as u64;
        proof {
            assert(s@.subrange(i as int, k + 1).drop_last() =~= s@.subrange(i as int, k as int));
        }
        let shifted = match acc.checked_mul(10) {
            Some(v) => v,
            None => {
                proof {
                    lemma_parse_overflow(s@, digits, i as int, k as int, acc * 10 + d);
                }
                return None;
            },
        };
        let next = match shifted.checked_add(d) {
            Some(v) => v,
            None => {
                proof {
                    lemma_parse_overflow(s@, digits, i as int, k as int, acc * 10 + d);
                }
                return None;
            },
        };
        acc = next;
        k += 1;
    }
    proof {
        assert(s@.subrange(i as int, n as int) =~= digits);
    }
    Some(acc)
}

proof fn lemma_parse_overflow(s: Seq<char>, digits: Seq<char>, i: int, k: int, val: int)
    requires
        0 <= i <= k < s.len(),
        digits == s.subrange(i, s.len() as int),
        forall|j: int| i <= j < k ==> is_dec_digit(#[trigger] s[j]),
        is_dec_digit(s[k]),
        val == dec_seq_val(s.subrange(i, k)) * 10 + (s[k] as u32 - 48),
        val > u64::MAX,
    ensures
        !(digits.len() > 0 && all_dec_digits(digits) && dec_seq_val(digits) <= u64::MAX),
{
    if all_dec_digits(digits) {
        assert(digits.take(k + 1 - i) =~= s.subrange(i, k + 1));
        assert(s.subrange(i, k + 1).drop_last() =~= s.subrange(i, k));
        assert(dec_seq_val(s.subrange(i, k + 1)) == val);
        lemma_dec_seq_val_prefix(digits, k + 1 - i);
    }
}

/// Decimal parsing as `str::parse::<u32>` performs it.
pub fn parse_u32_dec(s: &str) -> (r: Option<u32>)
    ensures
        (r is Some) == parseable_u32(s@),
        r is Some ==> r->0 == parsed_dec_val(s@),
{
    match parse_u64_dec(s) {
        Some(v) => {
            if v <= 0xFFFF_FFFFu64 {
                Some(v as u32)
            } else {
                None
            }
        },
        None => None,
    }
}

} // verus!
