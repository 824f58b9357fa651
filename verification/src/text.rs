//! Plain-text plumbing shared by the assembler and the simulator: splitting a
//! line into whitespace-separated tokens, reading and writing decimal
//! integers, and the 32-character binary form of a machine word.

use vstd::prelude::*;

verus! {

// ---------------------------------------------------------------------------
// Whitespace tokenization.
// ---------------------------------------------------------------------------

/// The whitespace characters a line is split on.
pub open spec fn is_ws(c: char) -> bool {
    c == ' ' || c == '\t' || c == '\r' || c == '\n'
}

/// The position where the token starting at `i` ends: the next whitespace
/// character, or the end of the line.
pub open spec fn token_end(s: Seq<char>, i: int) -> int
    recommends
        0 <= i <= s.len(),
    decreases s.len() - i,
{
    if i < 0 || i >= s.len() || is_ws(s[i]) {
        i
    } else {
        token_end(s, i + 1)
    }
}

pub proof fn lemma_token_end_bounds(s: Seq<char>, i: int)
    requires
        0 <= i <= s.len(),
    ensures
        i <= token_end(s, i) <= s.len(),
        i < s.len() && !is_ws(s[i]) ==> token_end(s, i) > i,
    decreases s.len() - i,
{
    if i < s.len() && !is_ws(s[i]) {
        lemma_token_end_bounds(s, i + 1);
    }
}

/// A maximal run of non-whitespace characters ends exactly where whitespace
/// or the end of the line begins.
pub proof fn lemma_token_end_is(s: Seq<char>, i: int, j: int)
    requires
        0 <= i <= j <= s.len(),
        forall|k: int| i <= k < j ==> !is_ws(s[k]),
        j == s.len() || is_ws(s[j]),
    ensures
        token_end(s, i) == j,
    decreases j - i,
{
    if i < j {
        lemma_token_end_is(s, i + 1, j);
    }
}

/// The tokens of `s` from position `i` on: maximal runs of non-whitespace
/// characters, in order.
pub open spec fn tokens_from(s: Seq<char>, i: int) -> Seq<Seq<char>>
    recommends
        0 <= i <= s.len(),
    decreases s.len() - i,
        via tokens_from_decreases
{
    if i < 0 || i >= s.len() {
        Seq::empty()
    } else if is_ws(s[i]) {
        tokens_from(s, i + 1)
    } else {
        seq![s.subrange(i, token_end(s, i))] + tokens_from(s, token_end(s, i))
    }
}

#[via_fn]
proof fn tokens_from_decreases(s: Seq<char>, i: int) {
    if 0 <= i < s.len() && !is_ws(s[i]) {
        lemma_token_end_bounds(s, i);
    }
}

/// The whitespace-separated tokens of a whole line.
pub open spec fn tokens_of(s: Seq<char>) -> Seq<Seq<char>> {
    tokens_from(s, 0)
}

/// Whether `c` is one of the whitespace characters a line is split on.
pub fn is_ws_char(c: char) -> (r: bool)
    ensures
        r == is_ws(c),
{
    c == ' ' || c == '\t' || c == '\r' || c == '\n'
}

/// Split a line into its whitespace-separated tokens.
pub fn tokenize(s: &str) -> (ts: Vec<String>)
    ensures
        ts.deep_view() == tokens_of(s@),
{
    let n = s.unicode_len();
    let mut ts: Vec<String> = Vec::new();
    let mut i: usize = 0;
    proof {
        assert(ts.deep_view() + tokens_from(s@, 0) =~= tokens_from(s@, 0));
    }
    while i < n
        invariant
            n == s@.len(),
            i <= n,
            tokens_of(s@) == ts.deep_view() + tokens_from(s@, i as int),
        decreases n - i,
    {
        let c = s.get_char(i);
        if is_ws_char(c) {
            i = i + 1;
        } else {
            let start = i;
            let mut j = i + 1;
            while j < n
                invariant
                    n == s@.len(),
                    start < j <= n,
                    forall|k: int| start <= k < j ==> !is_ws(s@[k]),
                ensures
                    n == s@.len(),
                    start < j <= n,
                    forall|k: int| start <= k < j ==> !is_ws(s@[k]),
                    j == n || is_ws(s@[j as int]),
                decreases n - j,
            {
                if is_ws_char(s.get_char(j)) {
                    break ;
                }
                j = j + 1;
            }
            proof {
                lemma_token_end_is(s@, start as int, j as int);
            }
            let tok = s.substring_char(start, j);
            let ghost pre = ts.deep_view();
            ts.push(tok.to_owned());
            proof {
                assert(ts.deep_view() =~= pre.push(tok@));
                assert(ts.deep_view() + tokens_from(s@, j as int) =~= pre + (seq![tok@]
                    + tokens_from(s@, j as int)));
            }
            i = j;
        }
    }
    proof {
        assert(tokens_of(s@) =~= ts.deep_view());
    }
    ts
}

// ---------------------------------------------------------------------------
// Decimal integers.
// ---------------------------------------------------------------------------

pub open spec fn is_digit(c: char) -> bool {
    '0' <= c && c <= '9'
}

pub open spec fn digit_val(c: char) -> int {
    c as int - '0' as int
}

pub open spec fn all_digits(s: Seq<char>) -> bool {
    forall|i: int| 0 <= i < s.len() ==> is_digit(s[i])
}

/// The value of a non-empty digit string read in base 10.
pub open spec fn dec_val(s: Seq<char>) -> int
    decreases s.len(),
{
    if s.len() == 0 {
        0
    } else {
        dec_val(s.drop_last()) * 10 + digit_val(s.last())
    }
}

/// The integer a token denotes: an optional leading minus sign followed by
/// one or more decimal digits; anything else denotes nothing.
pub open spec fn parse_int_spec(s: Seq<char>) -> Option<int> {
    if s.len() >= 2 && s[0] == '-' && all_digits(s.subrange(1, s.len() as int)) {
        Some(-dec_val(s.subrange(1, s.len() as int)))
    } else if s.len() >= 1 && all_digits(s) {
        Some(dec_val(s))
    } else {
        None
    }
}

pub proof fn lemma_dec_val_nonneg(s: Seq<char>)
    requires
        all_digits(s),
    ensures
        dec_val(s) >= 0,
    decreases s.len(),
{
    if s.len() > 0 {
        assert(all_digits(s.drop_last()));
        lemma_dec_val_nonneg(s.drop_last());
    }
}

/// A digit string is worth at least as much as any prefix of it.
pub proof fn lemma_dec_val_prefix(s: Seq<char>, k: int)
    requires
        all_digits(s),
        0 <= k <= s.len(),
    ensures
        dec_val(s.subrange(0, k)) <= dec_val(s),
    decreases s.len() - k,
{
    if k < s.len() {
        lemma_dec_val_prefix(s, k + 1);
        assert(s.subrange(0, k + 1).drop_last() =~= s.subrange(0, k));
        assert(all_digits(s.subrange(0, k)));
        lemma_dec_val_nonneg(s.subrange(0, k));
        assert(dec_val(s.subrange(0, k + 1)) == dec_val(s.subrange(0, k)) * 10 + digit_val(
            s[k],
        ));
    } else {
        assert(s.subrange(0, k) =~= s);
    }
}

/// Whether `c` is a decimal digit.
pub fn is_digit_char(c: char) -> (r: bool)
    ensures
        r == is_digit(c),
{
    '0' <= c && c <= '9'
}

/// Read the decimal integer a token denotes, if it denotes one whose
/// magnitude fits a 64-bit signed word.
pub fn parse_int(s: &str) -> (r: Option<i64>)
    ensures
        (match parse_int_spec(s@) {
            Some(v) => if -0x7fffffffffffffff <= v <= 0x7fffffffffffffff {
                r == Some(v as i64)
            } else {
                r == None::<i64>
            },
            None => r == None::<i64>,
        }),
{
    let n = s.unicode_len();
    if n == 0 {
        return None;
    }
    let neg = s.get_char(0) == '-';
    let start: usize = if neg {
        1
    } else {
        0
    };
    if start >= n {
        return None;
    }
    let ghost digits = s@.subrange(start as int, n as int);
    let mut acc: i64 = 0;
    let mut i: usize = start;
    while i < n
        invariant
            n == s@.len(),
            1 <= n,
            start <= i <= n,
            start == (if neg {
                1usize
            } else {
                0usize
            }),
            neg == (s@[0] == '-'),
            digits == s@.subrange(start as int, n as int),
            forall|k: int| start <= k < i ==> is_digit(s@[k]),
            0 <= acc,
            acc == dec_val(s@.subrange(start as int, i as int)),
        decreases n - i,
    {
        let c = s.get_char(i);
        if !is_digit_char(c) {
            proof {
                if neg {
                    assert(s@.subrange(1, s@.len() as int)[i - 1] == s@[i as int]);
                    assert(!all_digits(s@.subrange(1, s@.len() as int)));
                } else {
                    assert(!all_digits(s@));
                }
            }
            return None;
        }
        let d = char_digit(c);
        if acc > (0x7fffffffffffffff - d) / 10 {
            // The digits seen so far already push the value past the 64-bit
            // range; the rest can only enlarge it.
            proof {
                let pre = s@.subrange(start as int, (i + 1) as int);
                assert(pre.drop_last() =~= s@.subrange(start as int, i as int));
                assert(dec_val(pre) == acc * 10 + d);
                if all_digits(digits) {
                    assert(digits.subrange(0, (i + 1 - start) as int) =~= pre);
                    lemma_dec_val_prefix(digits, (i + 1 - start) as int);
                    assert(dec_val(digits) >= dec_val(pre));
                }
                if neg {
                    assert(digits =~= s@.subrange(1, s@.len() as int));
                } else {
                    assert(digits =~= s@);
                }
            }
            return None;
        }
        acc = acc * 10 + d;
        proof {
            assert(s@.subrange(start as int, (i + 1) as int).drop_last() =~= s@.subrange(
                start as int,
                i as int,
            ));
        }
        i = i + 1;
    }
    proof {
        assert(s@.subrange(start as int, n as int) =~= digits);
        if neg {
            assert(s@.subrange(1, s@.len() as int) =~= digits);
        } else {
            assert(s@.subrange(0, s@.len() as int) =~= s@);
            assert(digits =~= s@);
        }
    }
    if neg {
        Some(-acc)
    } else {
        Some(acc)
    }
}

/// The value of one decimal digit character.
fn char_digit(c: char) -> (d: i64)
    requires
        is_digit(c),
    ensures
        d == digit_val(c),
        0 <= d <= 9,
{
    ((c as u32) - ('0' as u32)) as i64
}

// ---------------------------------------------------------------------------
// Decimal rendering (used by the code generator).
// ---------------------------------------------------------------------------

/// The decimal digit character for a value in [0, 9].
pub open spec fn digit_char(d: int) -> char {
    if d == 0 {
        '0'
    } else if d == 1 {
        '1'
    } else if d == 2 {
        '2'
    } else if d == 3 {
        '3'
    } else if d == 4 {
        '4'
    } else if d == 5 {
        '5'
    } else if d == 6 {
        '6'
    } else if d == 7 {
        '7'
    } else if d == 8 {
        '8'
    } else {
        '9'
    }
}

/// The decimal rendering of a non-negative integer, no leading zeros.
pub open spec fn dec_str(n: int) -> Seq<char>
    recommends
        n >= 0,
    decreases n,
{
    if n < 10 {
        seq![digit_char(n)]
    } else {
        dec_str(n / 10).push(digit_char(n % 10))
    }
}

/// The decimal rendering of an integer, with a minus sign when negative.
pub open spec fn int_str(v: int) -> Seq<char> {
    if v < 0 {
        seq!['-'] + dec_str(-v)
    } else {
        dec_str(v)
    }
}

/// One decimal digit as a string slice.
fn digit_str(d: u64) -> (r: &'static str)
    requires
        d <= 9,
    ensures
        r@ =~= seq![digit_char(d as int)],
{
    proof {
        reveal_strlit("0");
        reveal_strlit("1");
        reveal_strlit("2");
        reveal_strlit("3");
        reveal_strlit("4");
        reveal_strlit("5");
        reveal_strlit("6");
        reveal_strlit("7");
        reveal_strlit("8");
        reveal_strlit("9");
    }
    if d == 0 {
        "0"
    } else if d == 1 {
        "1"
    } else if d == 2 {
        "2"
    } else if d == 3 {
        "3"
    } else if d == 4 {
        "4"
    } else if d == 5 {
        "5"
    } else if d == 6 {
        "6"
    } else if d == 7 {
        "7"
    } else if d == 8 {
        "8"
    } else {
        "9"
    }
}

/// The decimal rendering of a non-negative 64-bit value.
fn u64_dec(n: u64) -> (s: String)
    ensures
        s@ == dec_str(n as int),
    decreases n,
{
    if n < 10 {
        digit_str(n).to_owned()
    } else {
        let mut s = u64_dec(n / 10);
        s.append(digit_str(n % 10));
        proof {
            assert(dec_str((n / 10) as int).push(digit_char((n % 10) as int)) =~= dec_str(
                (n / 10) as int,
            ) + seq![digit_char((n % 10) as int)]);
        }
        s
    }
}

/// The decimal rendering of a 64-bit signed value.
pub fn i64_to_string(v: i64) -> (s: String)
    ensures
        s@ == int_str(v as int),
{
    if v >= 0 {
        u64_dec(v as u64)
    } else {
        let mag: u64 = if v == -0x8000000000000000i64 {
            0x8000000000000000u64
        } else {
            (-v) as u64
        };
        let mut s = String::new();
        proof {
            reveal_strlit("-");
        }
        s.append("-");
        let d = u64_dec(mag);
        s.append(d.as_str());
        proof {
            assert(s@ =~= seq!['-'] + dec_str(mag as int));
        }
        s
    }
}

// ---------------------------------------------------------------------------
// The 32-character binary form of a machine word.
// ---------------------------------------------------------------------------

/// Character `i` (most-significant first) of the binary form of `w`.
pub open spec fn bit_char(w: u32, i: int) -> char {
    if (w >> ((31 - i) as u32)) & 1 == 1 {
        '1'
    } else {
        '0'
    }
}

/// The 32-character binary form of a machine word, most-significant bit
/// first.
pub open spec fn word_bits(w: u32) -> Seq<char> {
    Seq::new(32, |i: int| bit_char(w, i))
}

/// Render a machine word as its 32-character binary form.
pub fn to_binary_string(w: u32) -> (s: String)
    ensures
        s@ == word_bits(w),
{
    let mut s = String::new();
    let mut i: usize = 0;
    while i < 32
        invariant
            i <= 32,
            s@.len() == i,
            forall|j: int| 0 <= j < i ==> s@[j] == bit_char(w, j),
        decreases 32 - i,
    {
        proof {
            reveal_strlit("0");
            reveal_strlit("1");
        }
        let sh = (31 - i) as u32;
        if (w >> sh) & 1 == 1 {
            s.append("1");
        } else {
            s.append("0");
        }
        i = i + 1;
    }
    proof {
        assert(s@ =~= word_bits(w));
    }
    s
}

/// The value of a binary digit string read in base 2.
pub open spec fn bin_val(s: Seq<char>) -> int
    decreases s.len(),
{
    if s.len() == 0 {
        0
    } else {
        bin_val(s.drop_last()) * 2 + (if s.last() == '1' {
            1int
        } else {
            0int
        })
    }
}

pub open spec fn all_bits(s: Seq<char>) -> bool {
    forall|i: int| 0 <= i < s.len() ==> (s[i] == '0' || s[i] == '1')
}

/// The machine word a line of simulator input denotes: between 1 and 32
/// binary digits.
pub open spec fn parse_word_spec(s: Seq<char>) -> Option<u32> {
    if 1 <= s.len() <= 32 && all_bits(s) {
        Some(bin_val(s) as u32)
    } else {
        None
    }
}

pub proof fn lemma_bin_val_bound(s: Seq<char>)
    requires
        s.len() <= 32,
    ensures
        0 <= bin_val(s) < (1u64 << (s.len() as u64)),
    decreases s.len(),
{
    if s.len() == 0 {
        assert(1u64 << 0u64 == 1) by (bit_vector);
    } else {
        lemma_bin_val_bound(s.drop_last());
        let k = (s.len() - 1) as u64;
        assert(k <= 31 ==> (1u64 << ((k + 1) as u64)) == 2 * (1u64 << k)) by (bit_vector);
    }
}

/// Read a machine word from its binary form.
pub fn parse_word(s: &str) -> (r: Option<u32>)
    ensures
        r == parse_word_spec(s@),
{
    let n = s.unicode_len();
    if n == 0 || n > 32 {
        return None;
    }
    let mut acc: u64 = 0;
    let mut i: usize = 0;
    while i < n
        invariant
            n == s@.len(),
            1 <= n <= 32,
            i <= n,
            forall|k: int| 0 <= k < i ==> (s@[k] == '0' || s@[k] == '1'),
            acc == bin_val(s@.subrange(0, i as int)),
            0 <= acc < 0x100000000,
        decreases n - i,
    {
        let c = s.get_char(i);
        if c != '0' && c != '1' {
            return None;
        }
        let b: u64 = if c == '1' {
            1
        } else {
            0
        };
        proof {
            let pre = s@.subrange(0, (i + 1) as int);
            assert(pre.drop_last() =~= s@.subrange(0, i as int));
            assert(forall|k: int| 0 <= k < pre.len() ==> (#[trigger] pre[k] == '0' || pre[k]
                == '1'));
            lemma_bin_val_bound(pre);
            lemma_shl_32_bound((i + 1) as u64);
        }
        acc = acc * 2 + b;
        i = i + 1;
    }
    proof {
        assert(s@.subrange(0, n as int) =~= s@);
    }
    Some(acc as u32)
}

proof fn lemma_shl_32_bound(k: u64)
    requires
        1 <= k <= 32,
    ensures
        (1u64 << k) <= 0x100000000u64,
{
    assert(1 <= k <= 32 ==> (1u64 << k) <= 0x100000000u64) by (bit_vector);
}

/// Compare two strings character by character.
pub fn str_eq(a: &str, b: &str) -> (r: bool)
    ensures
        r == (a@ == b@),
{
    let n = a.unicode_len();
    let m = b.unicode_len();
    if n != m {
        return false;
    }
    let mut i: usize = 0;
    while i < n
        invariant
            n == a@.len(),
            n == b@.len(),
            i <= n,
            forall|j: int| 0 <= j < i ==> a@[j] == b@[j],
        decreases n - i,
    {
        if a.get_char(i) != b.get_char(i) {
            return false;
        }
        i = i + 1;
    }
    proof {
        assert(a@ =~= b@);
    }
    true
}

} // verus!
