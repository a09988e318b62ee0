//! The bencode grammar as a mathematical (spec-level) recursive-descent
//! parser over a character sequence:
//!
//! ```text
//! value    := string | integer | list | dict
//! string   := <digit>+ ":" <char>*         (length-prefixed)
//! integer  := "i" "-"? <digit>+ "e"
//! list     := "l" value* "e"
//! dict     := "d" (string value)* "e"
//! ```
//!
//! Every parsing function takes the whole input and a position, and on
//! success yields the parsed result together with the position just past
//! the consumed prefix. Failure yields `None` and stands for a malformed
//! construct at that position. Integers whose magnitude leaves the signed
//! 64-bit range, and strings whose announced length exceeds the remaining
//! input, fail rather than wrap.

use vstd::prelude::*;

use crate::value::SpecValue;
use crate::value::dict_distinct_keys;
use crate::value::lemma_dict_insert_distinct;
use crate::value::spec_dict_insert;

verus! {

/// A decimal digit, `'0'` through `'9'` (code points 48 through 57).
pub open spec fn is_bencode_digit(c: char) -> bool {
    48 <= c as u32 <= 57
}

/// The numeric value of a decimal digit.
pub open spec fn digit_val(c: char) -> int {
    c as u32 - 48
}

/// Scan decimal digits starting at `i`, folding them onto `acc`, until a
/// `:` terminator; yield the accumulated length and the position just
/// past the `:`. Fail on any other character or on end of input.
pub open spec fn spec_scan_len(s: Seq<char>, i: int, acc: int) -> Option<(int, int)>
    decreases s.len() - i,
{
    if i < 0 || i >= s.len() {
        None
    } else if s[i] == ':' {
        Some((acc, i + 1))
    } else if is_bencode_digit(s[i]) {
        spec_scan_len(s, i + 1, acc * 10 + digit_val(s[i]))
    } else {
        None
    }
}

/// A length-prefixed string `<digit>+ ":" <content>`: at least one length
/// digit, and the announced number of content characters still present.
pub open spec fn spec_parse_string(s: Seq<char>, i: int) -> Option<(Seq<char>, int)> {
    if 0 <= i < s.len() && is_bencode_digit(s[i]) {
        match spec_scan_len(s, i, 0) {
            Some((l, j)) => if 0 <= l && j + l <= s.len() {
                Some((s.subrange(j, j + l), j + l))
            } else {
                None
            },
            None => None,
        }
    } else {
        None
    }
}

/// Scan decimal digits starting at `i`, folding them onto `acc`, until an
/// `e` terminator; yield the accumulated magnitude and the position just
/// past the `e`. Fail on any other character or on end of input.
pub open spec fn spec_scan_int(s: Seq<char>, i: int, acc: int) -> Option<(int, int)>
    decreases s.len() - i,
{
    if i < 0 || i >= s.len() {
        None
    } else if s[i] == 'e' {
        Some((acc, i + 1))
    } else if is_bencode_digit(s[i]) {
        spec_scan_int(s, i + 1, acc * 10 + digit_val(s[i]))
    } else {
        None
    }
}

/// An integer `"i" "-"? <digit>+ "e"`. At least one digit is required;
/// a value outside the signed 64-bit range fails.
pub open spec fn spec_parse_integer(s: Seq<char>, i: int) -> Option<(int, int)> {
    if 0 <= i < s.len() && s[i] == 'i' {
        if i + 1 < s.len() && s[i + 1] == '-' {
            if i + 2 < s.len() && is_bencode_digit(s[i + 2]) {
                match spec_scan_int(s, i + 2, 0) {
                    Some((m, j)) => if i64::MIN as int <= -m <= i64::MAX as int {
                        Some((-m, j))
                    } else {
                        None
                    },
                    None => None,
                }
            } else {
                None
            }
        } else if i + 1 < s.len() && is_bencode_digit(s[i + 1]) {
            match spec_scan_int(s, i + 1, 0) {
                Some((m, j)) => if i64::MIN as int <= m <= i64::MAX as int {
                    Some((m, j))
                } else {
                    None
                },
                None => None,
            }
        } else {
            None
        }
    } else {
        None
    }
}

/// One bencode value at position `i`, selected by lookahead: a digit
/// starts a string, `i` an integer, `l` a list, `d` a dictionary;
/// anything else (including end of input) is no value at all.
pub open spec fn spec_parse_value(s: Seq<char>, i: int) -> Option<(SpecValue, int)>
    decreases s.len() - i, 3int,
{
    if 0 <= i < s.len() {
        if is_bencode_digit(s[i]) {
            match spec_parse_string(s, i) {
                Some((t, j)) => Some((SpecValue::Str(t), j)),
                None => None,
            }
        } else if s[i] == 'i' {
            match spec_parse_integer(s, i) {
                Some((n, j)) => Some((SpecValue::Int(n), j)),
                None => None,
            }
        } else if s[i] == 'l' {
            spec_parse_list(s, i)
        } else if s[i] == 'd' {
            spec_parse_dict(s, i)
        } else {
            None
        }
    } else {
        None
    }
}

/// A list `"l" value* "e"`: elements up to the first position where no
/// value starts, then the closing `e`.
pub open spec fn spec_parse_list(s: Seq<char>, i: int) -> Option<(SpecValue, int)>
    decreases s.len() - i, 2int,
{
    if 0 <= i < s.len() && s[i] == 'l' {
        let (elems, j) = spec_parse_elems(s, i + 1);
        if j < s.len() && s[j] == 'e' {
            Some((SpecValue::List(elems), j + 1))
        } else {
            None
        }
    } else {
        None
    }
}

/// As many successive values as can be parsed from `i` on; never fails,
/// and stops at the first position where no value starts. (The
/// impossible arms where a parsed value failed to advance only settle
/// termination; `lemma_parse_value_advances` rules them out.)
pub open spec fn spec_parse_elems(s: Seq<char>, i: int) -> (Seq<SpecValue>, int)
    decreases s.len() - i, 4int,
{
    if 0 <= i <= s.len() {
        match spec_parse_value(s, i) {
            Some((v, j)) => if i < j <= s.len() {
                let (rest, end) = spec_parse_elems(s, j);
                (seq![v] + rest, end)
            } else {
                (Seq::empty(), i)
            },
            None => (Seq::empty(), i),
        }
    } else {
        (Seq::empty(), i)
    }
}

/// A dictionary `"d" (string value)* "e"`: string keys each followed by
/// a value, up to the first position where no string key starts, then
/// the closing `e`. A key with no value after it fails the whole
/// dictionary. Entries accumulate by `spec_dict_insert`: insertion order
/// is kept and a repeated key overwrites in place.
pub open spec fn spec_parse_dict(s: Seq<char>, i: int) -> Option<(SpecValue, int)>
    decreases s.len() - i, 2int,
{
    if 0 <= i < s.len() && s[i] == 'd' {
        match spec_parse_pairs(s, i + 1, Seq::empty()) {
            Some((ps, j)) => if j < s.len() && s[j] == 'e' {
                Some((SpecValue::Dict(ps), j + 1))
            } else {
                None
            },
            None => None,
        }
    } else {
        None
    }
}

/// The key/value pairs of a dictionary body from `i` on, folded onto the
/// accumulator `acc`. Stops successfully where no string key starts;
/// fails where a key parses but no value follows it. (The impossible
/// arms where a parsed key or value failed to advance only settle
/// termination; the advance lemmas rule them out.)
pub open spec fn spec_parse_pairs(
    s: Seq<char>,
    i: int,
    acc: Seq<(Seq<char>, SpecValue)>,
) -> Option<(Seq<(Seq<char>, SpecValue)>, int)>
    decreases s.len() - i, 4int,
{
    if 0 <= i <= s.len() {
        match spec_parse_string(s, i) {
            Some((k, j)) => if i < j <= s.len() {
                match spec_parse_value(s, j) {
                    Some((v, j2)) => if j < j2 <= s.len() {
                        spec_parse_pairs(s, j2, spec_dict_insert(acc, k, v))
                    } else {
                        None
                    },
                    None => None,
                }
            } else {
                None
            },
            None => Some((acc, i)),
        }
    } else {
        Some((acc, i))
    }
}

/// A successful digit scan lands past its starting point, inside the
/// input, and never yields less than its accumulator.
pub proof fn lemma_scan_len_bounds(s: Seq<char>, i: int, acc: int)
    requires
        acc >= 0,
    ensures
        spec_scan_len(s, i, acc) matches Some((l, j)) ==> i < j <= s.len() && l >= acc,
    decreases s.len() - i,
{
    if 0 <= i < s.len() && s[i] != ':' && is_bencode_digit(s[i]) {
        lemma_scan_len_bounds(s, i + 1, acc * 10 + digit_val(s[i]));
    }
}

/// As `lemma_scan_len_bounds`, for the integer digit scan.
pub proof fn lemma_scan_int_bounds(s: Seq<char>, i: int, acc: int)
    requires
        acc >= 0,
    ensures
        spec_scan_int(s, i, acc) matches Some((m, j)) ==> i < j <= s.len() && m >= acc,
    decreases s.len() - i,
{
    if 0 <= i < s.len() && s[i] != 'e' && is_bencode_digit(s[i]) {
        lemma_scan_int_bounds(s, i + 1, acc * 10 + digit_val(s[i]));
    }
}

/// A successful string parse consumes at least its length digit and the
/// `:`, and stays inside the input.
pub proof fn lemma_parse_string_advances(s: Seq<char>, i: int)
    ensures
        spec_parse_string(s, i) matches Some((t, j)) ==> i < j <= s.len(),
{
    lemma_scan_len_bounds(s, i, 0);
}

/// A successful integer parse consumes at least `i`, a digit and `e`,
/// and stays inside the input.
pub proof fn lemma_parse_integer_advances(s: Seq<char>, i: int)
    ensures
        spec_parse_integer(s, i) matches Some((n, j)) ==> i < j <= s.len(),
{
    lemma_scan_int_bounds(s, i + 1, 0);
    lemma_scan_int_bounds(s, i + 2, 0);
}

/// A successful value parse consumes at least one character and stays
/// inside the input.
pub proof fn lemma_parse_value_advances(s: Seq<char>, i: int)
    ensures
        spec_parse_value(s, i) matches Some((v, j)) ==> i < j <= s.len(),
    decreases s.len() - i, 3int,
{
    if 0 <= i < s.len() {
        if is_bencode_digit(s[i]) {
            lemma_parse_string_advances(s, i);
        } else if s[i] == 'i' {
            lemma_parse_integer_advances(s, i);
        } else if s[i] == 'l' {
            lemma_parse_list_advances(s, i);
        } else if s[i] == 'd' {
            lemma_parse_dict_advances(s, i);
        }
    }
}

/// A successful list parse consumes at least `l` and `e` and stays
/// inside the input.
pub proof fn lemma_parse_list_advances(s: Seq<char>, i: int)
    ensures
        spec_parse_list(s, i) matches Some((v, j)) ==> i < j <= s.len(),
    decreases s.len() - i, 2int,
{
    if 0 <= i < s.len() && s[i] == 'l' {
        lemma_parse_elems_bounds(s, i + 1);
    }
}

/// A successful dictionary parse consumes at least `d` and `e` and stays
/// inside the input.
pub proof fn lemma_parse_dict_advances(s: Seq<char>, i: int)
    ensures
        spec_parse_dict(s, i) matches Some((v, j)) ==> i < j <= s.len(),
    decreases s.len() - i, 2int,
{
    if 0 <= i < s.len() && s[i] == 'd' {
        lemma_parse_pairs_bounds(s, i + 1, Seq::empty());
    }
}

/// Element parsing never moves backwards nor past the end of the input.
pub proof fn lemma_parse_elems_bounds(s: Seq<char>, i: int)
    requires
        0 <= i <= s.len(),
    ensures
        i <= spec_parse_elems(s, i).1 <= s.len(),
    decreases s.len() - i, 4int,
{
    lemma_parse_value_advances(s, i);
    match spec_parse_value(s, i) {
        Some((v, j)) => {
            lemma_parse_elems_bounds(s, j);
        },
        None => {},
    }
}

/// The digit character for a value `d` with `0 <= d <= 9`.
pub open spec fn digit_char(d: int) -> char {
    (48 + d) as char
}

/// The decimal rendering of `n >= 0`, most significant digit first.
pub open spec fn dec_digits(n: int) -> Seq<char>
    decreases n,
{
    if n < 10 {
        seq![digit_char(n)]
    } else {
        dec_digits(n / 10).push(digit_char(n % 10))
    }
}

/// Every character of `ds` is a decimal digit.
pub open spec fn all_digits(ds: Seq<char>) -> bool {
    forall|k: int| 0 <= k < ds.len() ==> is_bencode_digit(ds[k])
}

/// The numeric value of a digit sequence, most significant digit first.
pub open spec fn seq_digits_val(ds: Seq<char>) -> int
    decreases ds.len(),
{
    if ds.len() == 0 {
        0
    } else {
        seq_digits_val(ds.drop_last()) * 10 + digit_val(ds.last())
    }
}

/// The left-to-right digit fold the scanners perform over `s[i..m)`,
/// starting from `acc`.
pub open spec fn digits_fold(s: Seq<char>, i: int, m: int, acc: int) -> int
    decreases m - i,
{
    if i >= m {
        acc
    } else {
        digits_fold(s, i + 1, m, acc * 10 + digit_val(s[i]))
    }
}

/// The decimal rendering of `n` is a nonempty digit string whose value
/// is `n` again.
pub proof fn lemma_dec_digits_props(n: int)
    requires
        n >= 0,
    ensures
        all_digits(dec_digits(n)),
        dec_digits(n).len() >= 1,
        seq_digits_val(dec_digits(n)) == n,
    decreases n,
{
    if n < 10 {
        let ds = seq![digit_char(n)];
        assert(digit_char(n) as u32 == 48 + n);
        assert(ds.drop_last() =~= Seq::<char>::empty());
        assert(ds.last() == digit_char(n));
        assert(seq_digits_val(ds.drop_last()) == 0);
        assert(seq_digits_val(ds) == n);
        assert(dec_digits(n) == ds);
    } else {
        lemma_dec_digits_props(n / 10);
        assert(digit_char(n % 10) as u32 == 48 + n % 10) by {
            vstd::arithmetic::div_mod::lemma_mod_bound(n, 10);
        }
        let ds = dec_digits(n / 10).push(digit_char(n % 10));
        assert(ds.drop_last() =~= dec_digits(n / 10));
        assert(ds.last() == digit_char(n % 10));
        assert(seq_digits_val(ds) == (n / 10) * 10 + n % 10);
        vstd::arithmetic::div_mod::lemma_fundamental_div_mod(n, 10);
        assert(n == 10 * (n / 10) + n % 10);
        assert(dec_digits(n) == ds);
    }
}

/// Scanning a run of digits closed by a `:` succeeds and folds exactly
/// those digits.
pub proof fn lemma_scan_digit_run(s: Seq<char>, i: int, m: int, acc: int)
    requires
        0 <= i <= m < s.len(),
        forall|k: int| i <= k < m ==> is_bencode_digit(s[k]),
        s[m] == ':',
    ensures
        spec_scan_len(s, i, acc) == Some((digits_fold(s, i, m, acc), m + 1)),
    decreases m - i,
{
    if i < m {
        assert(is_bencode_digit(s[i]));
        assert(s[i] as u32 <= 57 && ':' as u32 == 58);
        lemma_scan_digit_run(s, i + 1, m, acc * 10 + digit_val(s[i]));
    }
}

/// Peeling the last digit off a left-to-right fold.
pub proof fn lemma_fold_right_peel(s: Seq<char>, i: int, m: int, acc: int)
    requires
        i < m,
    ensures
        digits_fold(s, i, m, acc) == digits_fold(s, i, m - 1, acc) * 10 + digit_val(s[m - 1]),
    decreases m - i,
{
    reveal_with_fuel(digits_fold, 3);
    if i + 1 < m {
        lemma_fold_right_peel(s, i + 1, m, acc * 10 + digit_val(s[i]));
    }
}

/// A fold from zero computes the value of the digit segment.
pub proof fn lemma_fold_zero(s: Seq<char>, i: int, m: int)
    requires
        0 <= i <= m <= s.len(),
    ensures
        digits_fold(s, i, m, 0) == seq_digits_val(s.subrange(i, m)),
    decreases m - i,
{
    if i < m {
        lemma_fold_right_peel(s, i, m, 0);
        lemma_fold_zero(s, i, m - 1);
        assert(s.subrange(i, m).drop_last() =~= s.subrange(i, m - 1));
        assert(s.subrange(i, m).last() == s[m - 1]);
    } else {
        assert(s.subrange(i, m) =~= Seq::<char>::empty());
    }
}

/// For every content `s` of length `n`, decoding `"{n}:{s}"` (with any
/// trailing input after it) yields exactly the string `s`, consuming
/// the rendered length, the `:`, and the `n` content characters.
pub proof fn lemma_decode_length_prefixed_string(content: Seq<char>, rest: Seq<char>)
    ensures
        ({
            let ds = dec_digits(content.len() as int);
            let enc = ds + seq![':'] + content + rest;
            spec_parse_value(enc, 0) == Some(
                (SpecValue::Str(content), ds.len() as int + 1 + content.len() as int),
            )
        }),
{
    let n = content.len() as int;
    let ds = dec_digits(n);
    let enc = ds + seq![':'] + content + rest;
    let m = ds.len() as int;
    lemma_dec_digits_props(n);
    assert(forall|k: int| 0 <= k < m ==> enc[k] == ds[k]);
    assert(enc[m] == ':');
    lemma_scan_digit_run(enc, 0, m, 0);
    lemma_fold_zero(enc, 0, m);
    assert(enc.subrange(0, m) =~= ds);
    assert(spec_scan_len(enc, 0, 0) == Some((n, m + 1)));
    assert(enc.subrange(m + 1, m + 1 + n) =~= content);
    assert(is_bencode_digit(enc[0]));
    assert(spec_parse_string(enc, 0) == Some((content, m + 1 + n)));
    assert(enc[0] as u32 <= 57);
}

/// Parsing a dictionary body keeps the accumulated keys distinct.
pub proof fn lemma_parse_pairs_distinct_keys(s: Seq<char>, i: int, acc: Seq<(Seq<char>, SpecValue)>)
    requires
        dict_distinct_keys(acc),
    ensures
        spec_parse_pairs(s, i, acc) matches Some((ps, j)) ==> dict_distinct_keys(ps),
    decreases s.len() - i,
{
    if 0 <= i <= s.len() {
        match spec_parse_string(s, i) {
            Some((k, j)) => {
                if i < j <= s.len() {
                    match spec_parse_value(s, j) {
                        Some((v, j2)) => {
                            if j < j2 <= s.len() {
                                lemma_dict_insert_distinct(acc, k, v);
                                lemma_parse_pairs_distinct_keys(s, j2, spec_dict_insert(acc, k, v));
                            }
                        },
                        None => {},
                    }
                }
            },
            None => {},
        }
    }
}

/// A decoded dictionary is a true mapping: it holds each key at most
/// once, however often the input repeats it.
pub proof fn lemma_parse_dict_distinct_keys(s: Seq<char>, i: int)
    ensures
        spec_parse_dict(s, i) matches Some((v, j)) ==> v matches SpecValue::Dict(ps)
            && dict_distinct_keys(ps),
{
    lemma_parse_pairs_distinct_keys(s, i + 1, Seq::empty());
}

/// Structural determinism: the grammar parses any one input to at most
/// one value, so decoding the same input twice yields equal value
/// trees.
pub proof fn lemma_decode_deterministic(
    s: Seq<char>,
    v1: SpecValue,
    j1: int,
    v2: SpecValue,
    j2: int,
)
    requires
        spec_parse_value(s, 0) == Some((v1, j1)),
        spec_parse_value(s, 0) == Some((v2, j2)),
    ensures
        v1 == v2,
        j1 == j2,
{
}

/// Pair parsing never moves backwards nor past the end of the input.
pub proof fn lemma_parse_pairs_bounds(s: Seq<char>, i: int, acc: Seq<(Seq<char>, SpecValue)>)
    requires
        0 <= i <= s.len(),
    ensures
        spec_parse_pairs(s, i, acc) matches Some((ps, j)) ==> i <= j <= s.len(),
    decreases s.len() - i, 4int,
{
    lemma_parse_string_advances(s, i);
    match spec_parse_string(s, i) {
        Some((k, j)) => {
            lemma_parse_value_advances(s, j);
            match spec_parse_value(s, j) {
                Some((v, j2)) => {
                    if j < j2 <= s.len() {
                        lemma_parse_pairs_bounds(s, j2, spec_dict_insert(acc, k, v));
                    }
                },
                None => {},
            }
        },
        None => {},
    }
}

} // verus!
