//! Byte classes and the lexical pieces shared by the record grammars.

use vstd::prelude::*;

verus! {

pub open spec fn is_digit(b: u8) -> bool {
    48 <= b <= 57
}

pub open spec fn digit_value(b: u8) -> int {
    b - 48
}

/// Whitespace inside a line: space, tab, vertical tab, form feed, carriage return.
pub open spec fn is_blank(b: u8) -> bool {
    b == 32 || b == 9 || b == 11 || b == 12 || b == 13
}

pub open spec fn is_space(b: u8) -> bool {
    is_blank(b) || b == 10
}

pub open spec fn is_letter(b: u8) -> bool {
    (65 <= b <= 90) || (97 <= b <= 122)
}

/// The first index at or after `i` whose byte is not a digit (or the length).
pub open spec fn digits_end(s: Seq<u8>, i: int) -> int
    decreases s.len() - i,
{
    if 0 <= i < s.len() && is_digit(s[i]) {
        digits_end(s, i + 1)
    } else {
        i
    }
}

/// The first index at or after `i` whose byte is not blank (or the length).
pub open spec fn blanks_end(s: Seq<u8>, i: int) -> int
    decreases s.len() - i,
{
    if 0 <= i < s.len() && is_blank(s[i]) {
        blanks_end(s, i + 1)
    } else {
        i
    }
}

/// The first index at or after `i` whose byte is not a letter (or the length).
pub open spec fn letters_end(s: Seq<u8>, i: int) -> int
    decreases s.len() - i,
{
    if 0 <= i < s.len() && is_letter(s[i]) {
        letters_end(s, i + 1)
    } else {
        i
    }
}

/// The decimal value of the digits `s[a..b]`.
pub open spec fn digits_value(s: Seq<u8>, a: int, b: int) -> nat
    decreases b - a,
{
    if b <= a {
        0
    } else {
        (digits_value(s, a, b - 1) * 10 + digit_value(s[b - 1])) as nat
    }
}

pub open spec fn pow10(n: nat) -> nat
    decreases n,
{
    if n == 0 {
        1
    } else {
        10 * pow10((n - 1) as nat)
    }
}

pub proof fn lemma_digits_end(s: Seq<u8>, i: int)
    requires
        0 <= i <= s.len(),
    ensures
        i <= digits_end(s, i) <= s.len(),
        forall|k: int| i <= k < digits_end(s, i) ==> is_digit(#[trigger] s[k]),
        digits_end(s, i) < s.len() ==> !is_digit(s[digits_end(s, i)]),
    decreases s.len() - i,
{
    if i < s.len() && is_digit(s[i]) {
        lemma_digits_end(s, i + 1);
    }
}

pub proof fn lemma_blanks_end(s: Seq<u8>, i: int)
    requires
        0 <= i <= s.len(),
    ensures
        i <= blanks_end(s, i) <= s.len(),
        forall|k: int| i <= k < blanks_end(s, i) ==> is_blank(#[trigger] s[k]),
        blanks_end(s, i) < s.len() ==> !is_blank(s[blanks_end(s, i)]),
    decreases s.len() - i,
{
    if i < s.len() && is_blank(s[i]) {
        lemma_blanks_end(s, i + 1);
    }
}

pub proof fn lemma_letters_end(s: Seq<u8>, i: int)
    requires
        0 <= i <= s.len(),
    ensures
        i <= letters_end(s, i) <= s.len(),
        forall|k: int| i <= k < letters_end(s, i) ==> is_letter(#[trigger] s[k]),
        letters_end(s, i) < s.len() ==> !is_letter(s[letters_end(s, i)]),
    decreases s.len() - i,
{
    if i < s.len() && is_letter(s[i]) {
        lemma_letters_end(s, i + 1);
    }
}

pub proof fn lemma_digits_value_bound(s: Seq<u8>, a: int, b: int)
    requires
        0 <= a <= b <= s.len(),
        forall|k: int| a <= k < b ==> is_digit(#[trigger] s[k]),
    ensures
        digits_value(s, a, b) < pow10((b - a) as nat),
    decreases b - a,
{
    if a < b {
        lemma_digits_value_bound(s, a, b - 1);
        let v = digits_value(s, a, b - 1);
        let p = pow10((b - 1 - a) as nat);
        assert(pow10((b - a) as nat) == 10 * p);
        assert(v * 10 + digit_value(s[b - 1]) < 10 * p) by (nonlinear_arith)
            requires
                v < p,
                0 <= digit_value(s[b - 1]) <= 9,
        ;
    }
}

pub proof fn lemma_digits_value_grows(s: Seq<u8>, a: int, b: int, c: int)
    requires
        0 <= a <= b <= c <= s.len(),
        forall|k: int| a <= k < c ==> is_digit(#[trigger] s[k]),
    ensures
        digits_value(s, a, b) <= digits_value(s, a, c),
    decreases c - b,
{
    if b < c {
        lemma_digits_value_grows(s, a, b, c - 1);
    }
}

pub proof fn lemma_pow10_add(a: nat, b: nat)
    ensures
        pow10(a) * pow10(b) == pow10(a + b),
    decreases a,
{
    if a > 0 {
        lemma_pow10_add((a - 1) as nat, b);
        assert(pow10(a) * pow10(b) == 10 * (pow10((a - 1) as nat) * pow10(b))) by (nonlinear_arith)
            requires
                pow10(a) == 10 * pow10((a - 1) as nat),
        ;
        assert(((a - 1) as nat + b) as nat == (a + b - 1) as nat);
        assert(pow10(a + b) == 10 * pow10((a + b - 1) as nat));
    } else {
        assert(pow10(a) == 1);
        assert(a + b == b);
    }
}

pub proof fn lemma_pow10_positive(n: nat)
    ensures
        pow10(n) >= 1,
    decreases n,
{
    if n > 0 {
        lemma_pow10_positive((n - 1) as nat);
    }
}

pub proof fn lemma_pow10_nine()
    ensures
        pow10(9) == 1_000_000_000,
{
    reveal_with_fuel(pow10, 10);
}

/// `10^n` for the exponents that fixed-point padding needs.
pub fn pow10_u64(n: u32) -> (r: u64)
    requires
        n <= 9,
    ensures
        r == pow10(n as nat),
{
    let mut r: u64 = 1;
    let mut k: u32 = 0;
    while k < n
        invariant
            k <= n <= 9,
            r == pow10(k as nat),
        decreases n - k,
    {
        proof {
            lemma_pow10_add((k + 1) as nat, (9 - k - 1) as nat);
            lemma_pow10_positive((9 - k - 1) as nat);
            lemma_pow10_nine();
            assert(pow10((k + 1) as nat) * pow10((9 - k - 1) as nat) >= pow10((k + 1) as nat)) by (nonlinear_arith)
                requires
                    pow10((9 - k - 1) as nat) >= 1,
            ;
        }
        r = r * 10;
        k = k + 1;
    }
    r
}

/// The index just past the run of digits starting at `i`.
pub fn scan_digits(s: &[u8], i: usize) -> (r: usize)
    requires
        i <= s@.len(),
    ensures
        r == digits_end(s@, i as int),
        i <= r <= s@.len(),
{
    proof {
        lemma_digits_end(s@, i as int);
    }
    let mut j: usize = i;
    while j < s.len() && 48 <= s[j] && s[j] <= 57
        invariant
            i <= j <= s@.len(),
            digits_end(s@, j as int) == digits_end(s@, i as int),
        decreases s@.len() - j,
    {
        j = j + 1;
    }
    j
}

/// The index just past the run of blanks starting at `i`.
pub fn scan_blanks(s: &[u8], i: usize) -> (r: usize)
    requires
        i <= s@.len(),
    ensures
        r == blanks_end(s@, i as int),
        i <= r <= s@.len(),
{
    proof {
        lemma_blanks_end(s@, i as int);
    }
    let mut j: usize = i;
    while j < s.len() && (s[j] == 32 || s[j] == 9 || s[j] == 11 || s[j] == 12 || s[j] == 13)
        invariant
            i <= j <= s@.len(),
            blanks_end(s@, j as int) == blanks_end(s@, i as int),
        decreases s@.len() - j,
    {
        j = j + 1;
    }
    j
}

/// The index just past the run of letters starting at `i`.
pub fn scan_letters(s: &[u8], i: usize) -> (r: usize)
    requires
        i <= s@.len(),
    ensures
        r == letters_end(s@, i as int),
        i <= r <= s@.len(),
{
    proof {
        lemma_letters_end(s@, i as int);
    }
    let mut j: usize = i;
    while j < s.len() && ((65 <= s[j] && s[j] <= 90) || (97 <= s[j] && s[j] <= 122))
        invariant
            i <= j <= s@.len(),
            letters_end(s@, j as int) == letters_end(s@, i as int),
        decreases s@.len() - j,
    {
        j = j + 1;
    }
    j
}

/// The value of the digits `s[a..b]`, or `cap` where that value reaches it.
pub fn digits_value_capped(s: &[u8], a: usize, b: usize, cap: u128) -> (r: u128)
    requires
        a <= b <= s@.len(),
        cap <= 0x1_0000_0000_0000_0000,
        forall|k: int| a <= k < b ==> is_digit(#[trigger] s@[k]),
    ensures
        r as int == if digits_value(s@, a as int, b as int) < cap {
            digits_value(s@, a as int, b as int) as int
        } else {
            cap as int
        },
{
    let mut acc: u128 = 0;
    let mut k: usize = a;
    while k < b
        invariant
            a <= k <= b <= s@.len(),
            cap <= 0x1_0000_0000_0000_0000,
            forall|j: int| a <= j < b ==> is_digit(#[trigger] s@[j]),
            acc as int == if digits_value(s@, a as int, k as int) < cap {
                digits_value(s@, a as int, k as int) as int
            } else {
                cap as int
            },
        decreases b - k,
    {
        proof {
            lemma_digits_value_grows(s@, a as int, k as int, (k + 1) as int);
        }
        if acc < cap {
            let d = (s[k] - 48) as u128;
            let next: u128 = acc * 10 + d;
            if next < cap {
                acc = next;
            } else {
                acc = cap;
            }
        }
        k = k + 1;
    }
    acc
}

} // verus!
