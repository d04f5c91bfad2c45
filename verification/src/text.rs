//! Byte-level scanning primitives for the structured-text descriptor
//! format, each paired with the specification function that defines
//! it exactly.

use vstd::prelude::*;

verus! {

/// ASCII space, tab, line feed or carriage return.
pub open spec fn is_ws(b: u8) -> bool {
    b == 32 || b == 9 || b == 10 || b == 13
}

/// ASCII decimal digit.
pub open spec fn is_digit(b: u8) -> bool {
    48 <= b <= 57
}

/// The first index at or after `i` holding a non-whitespace byte (or
/// the end of the input).
pub open spec fn skip_ws_s(s: Seq<u8>, i: int) -> int
    decreases s.len() - i,
{
    if i < s.len() && is_ws(s[i]) {
        skip_ws_s(s, i + 1)
    } else {
        i
    }
}

/// The literal occurs at exactly position `i`.
pub open spec fn lit_at(s: Seq<u8>, i: int, lit: Seq<u8>) -> bool {
    0 <= i && i + lit.len() <= s.len() && s.subrange(i, i + lit.len() as int) == lit
}

/// Position after optional whitespace and the literal, if the
/// literal is there.
pub open spec fn after_lit_s(s: Seq<u8>, i: int, lit: Seq<u8>) -> Option<int> {
    let j = skip_ws_s(s, i);
    if lit_at(s, j, lit) {
        Some(j + lit.len() as int)
    } else {
        None
    }
}

/// Position after optional whitespace and the single byte `b`, if
/// that byte is there.
pub open spec fn after_byte_s(s: Seq<u8>, i: int, b: u8) -> Option<int> {
    let j = skip_ws_s(s, i);
    if j < s.len() && s[j] == b {
        Some(j + 1)
    } else {
        None
    }
}

/// The first index at or after `i` holding a double quote (or the
/// end of the input).
pub open spec fn str_end_s(s: Seq<u8>, i: int) -> int
    decreases s.len() - i,
{
    if i < s.len() && s[i] != 34 {
        str_end_s(s, i + 1)
    } else {
        i
    }
}

/// A double-quoted string starting at exactly `i`: its content bytes
/// and the position after the closing quote.
pub open spec fn parse_string_s(s: Seq<u8>, i: int) -> Option<(Seq<u8>, int)> {
    if 0 <= i < s.len() && s[i] == 34 {
        let e = str_end_s(s, i + 1);
        if e < s.len() {
            Some((s.subrange(i + 1, e), e + 1))
        } else {
            None
        }
    } else {
        None
    }
}

/// The first index at or after `i` holding a non-digit byte (or the
/// end of the input).
pub open spec fn digits_end_s(s: Seq<u8>, i: int) -> int
    decreases s.len() - i,
{
    if i < s.len() && is_digit(s[i]) {
        digits_end_s(s, i + 1)
    } else {
        i
    }
}

/// The decimal value of the digit run `s[i..e]`.
pub open spec fn digits_val_s(s: Seq<u8>, i: int, e: int) -> int
    decreases e - i,
{
    if e <= i {
        0
    } else {
        digits_val_s(s, i, e - 1) * 10 + (s[e - 1] - 48)
    }
}

/// Ten to the `k`.
pub open spec fn pow10(k: nat) -> int
    decreases k,
{
    if k == 0 {
        1
    } else {
        10 * pow10((k - 1) as nat)
    }
}

proof fn lemma_pow10_pos(k: nat)
    ensures
        pow10(k) >= 1,
    decreases k,
{
    if k > 0 {
        lemma_pow10_pos((k - 1) as nat);
    }
}

proof fn lemma_pow10_mono(a: nat, b: nat)
    requires
        a <= b,
    ensures
        pow10(a) <= pow10(b),
    decreases b,
{
    if a < b {
        lemma_pow10_mono(a, (b - 1) as nat);
        lemma_pow10_pos((b - 1) as nat);
    }
}

/// A digit run of `n` digits denotes a value below ten to the `n`.
proof fn lemma_digits_val_bound(s: Seq<u8>, i: int, e: int)
    requires
        i <= e,
        forall|t: int| i <= t < e ==> is_digit(#[trigger] s[t]),
    ensures
        0 <= digits_val_s(s, i, e) < pow10((e - i) as nat),
    decreases e - i,
{
    if i < e {
        lemma_digits_val_bound(s, i, e - 1);
    }
}

/// Exec test for whitespace.
fn is_ws_e(b: u8) -> (r: bool)
    ensures
        r == is_ws(b),
{
    b == 32 || b == 9 || b == 10 || b == 13
}

/// Exec test for a digit.
fn is_digit_e(b: u8) -> (r: bool)
    ensures
        r == is_digit(b),
{
    48 <= b && b <= 57
}

/// Skips whitespace from `i`.
pub fn skip_ws(s: &Vec<u8>, i: usize) -> (r: usize)
    requires
        i <= s@.len(),
    ensures
        r == skip_ws_s(s@, i as int),
        i <= r <= s@.len(),
{
    let mut j = i;
    while j < s.len() && is_ws_e(s[j])
        invariant
            i <= j <= s@.len(),
            skip_ws_s(s@, i as int) == skip_ws_s(s@, j as int),
        decreases s@.len() - j,
    {
        j = j + 1;
    }
    j
}

/// Checks for the literal at exactly `i`.
fn lit_here(s: &Vec<u8>, i: usize, lit: &[u8]) -> (r: bool)
    requires
        i <= s@.len(),
    ensures
        r == lit_at(s@, i as int, lit@),
{
    let n = s.len();
    if n - i < lit.len() {
        return false;
    }
    let mut k: usize = 0;
    while k < lit.len()
        invariant
            k <= lit@.len(),
            i + lit@.len() <= s@.len(),
            n == s@.len(),
            forall|t: int| 0 <= t < k ==> s@[i + t] == lit@[t],
        decreases lit@.len() - k,
    {
        if s[i + k] != lit[k] {
            assert(s@.subrange(i as int, i + lit@.len() as int)[k as int] != lit@[k as int]);
            return false;
        }
        k = k + 1;
    }
    assert(s@.subrange(i as int, i + lit@.len() as int) =~= lit@);
    true
}

/// Skips whitespace, then the literal; `None` if the literal is not
/// there.
pub fn after_lit(s: &Vec<u8>, i: usize, lit: &[u8]) -> (r: Option<usize>)
    requires
        i <= s@.len(),
    ensures
        match r {
            Some(j) => after_lit_s(s@, i as int, lit@) == Some(j as int) && i <= j <= s@.len(),
            None => after_lit_s(s@, i as int, lit@) is None,
        },
{
    let n = s.len();
    let j = skip_ws(s, i);
    if lit_here(s, j, lit) {
        Some(j + lit.len())
    } else {
        None
    }
}

/// Skips whitespace, then the byte `b`; `None` if that byte is not
/// there.
pub fn after_byte(s: &Vec<u8>, i: usize, b: u8) -> (r: Option<usize>)
    requires
        i <= s@.len(),
    ensures
        match r {
            Some(j) => after_byte_s(s@, i as int, b) == Some(j as int) && i <= j <= s@.len(),
            None => after_byte_s(s@, i as int, b) is None,
        },
{
    let j = skip_ws(s, i);
    if j < s.len() && s[j] == b {
        Some(j + 1)
    } else {
        None
    }
}

/// Parses a double-quoted string at exactly `i`.
pub fn parse_string(s: &Vec<u8>, i: usize) -> (r: Option<(Vec<u8>, usize)>)
    requires
        i <= s@.len(),
    ensures
        match r {
            Some(p) => parse_string_s(s@, i as int) == Some((p.0@, p.1 as int)) && i <= p.1
                <= s@.len(),
            None => parse_string_s(s@, i as int) is None,
        },
{
    if i >= s.len() || s[i] != 34 {
        return None;
    }
    let mut j = i + 1;
    while j < s.len() && s[j] != 34
        invariant
            i + 1 <= j <= s@.len(),
            str_end_s(s@, i + 1) == str_end_s(s@, j as int),
        decreases s@.len() - j,
    {
        j = j + 1;
    }
    if j >= s.len() {
        return None;
    }
    let mut content: Vec<u8> = Vec::new();
    let mut k = i + 1;
    while k < j
        invariant
            i + 1 <= k <= j < s@.len(),
            content@ == s@.subrange(i + 1, k as int),
        decreases j - k,
    {
        content.push(s[k]);
        assert(content@ =~= s@.subrange(i + 1, k + 1));
        k = k + 1;
    }
    Some((content, j + 1))
}

/// Finds the end of the digit run starting at `i`.
pub fn digits_end(s: &Vec<u8>, i: usize) -> (r: usize)
    requires
        i <= s@.len(),
    ensures
        r == digits_end_s(s@, i as int),
        i <= r <= s@.len(),
        forall|t: int| i <= t < r ==> is_digit(s@[t]),
{
    let mut j = i;
    while j < s.len() && is_digit_e(s[j])
        invariant
            i <= j <= s@.len(),
            digits_end_s(s@, i as int) == digits_end_s(s@, j as int),
            forall|t: int| i <= t < j ==> is_digit(s@[t]),
        decreases s@.len() - j,
    {
        j = j + 1;
    }
    j
}

/// Evaluates the digit run `s[i..e]`.
pub fn digits_value(s: &Vec<u8>, i: usize, e: usize) -> (r: u32)
    requires
        i <= e <= s@.len(),
        e - i <= 9,
        forall|t: int| i <= t < e ==> is_digit(s@[t]),
    ensures
        r == digits_val_s(s@, i as int, e as int),
{
    let mut acc: u64 = 0;
    let mut j = i;
    while j < e
        invariant
            i <= j <= e <= s@.len(),
            e - i <= 9,
            forall|t: int| i <= t < e ==> is_digit(s@[t]),
            acc == digits_val_s(s@, i as int, j as int),
            acc < pow10((j - i) as nat),
        decreases e - j,
    {
        proof {
            lemma_pow10_mono((j - i) as nat, 8);
            assert(pow10(8) == 100000000) by {
                reveal_with_fuel(pow10, 10);
            }
            assert(pow10(((j + 1 - i)) as nat) == 10 * pow10((j - i) as nat));
        }
        acc = acc * 10 + ((s[j] - 48) as u64);
        j = j + 1;
    }
    proof {
        lemma_pow10_mono((e - i) as nat, 9);
        assert(pow10(9) == 1000000000) by {
            reveal_with_fuel(pow10, 11);
        }
    }
    acc as u32
}

} // verus!

