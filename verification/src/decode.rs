//! The executable decoders, one per bencode value kind, a lookahead
//! dispatcher selecting among them, and the top-level decode entry
//! point. Every decoder consumes a prefix of its cursor and is proved
//! to return exactly what the grammar (`crate::grammar`) parses there;
//! on failure the caller's cursor stands unchanged.

use vstd::prelude::*;
use vstd::string::StrSliceExecFns;

use crate::grammar::is_bencode_digit;
use crate::grammar::lemma_parse_string_advances;
use crate::grammar::lemma_parse_value_advances;
use crate::grammar::lemma_scan_int_bounds;
use crate::grammar::lemma_scan_len_bounds;
use crate::grammar::spec_parse_dict;
use crate::grammar::spec_parse_elems;
use crate::grammar::spec_parse_integer;
use crate::grammar::spec_parse_list;
use crate::grammar::spec_parse_pairs;
use crate::grammar::spec_parse_string;
use crate::grammar::spec_parse_value;
use crate::input::BencodedDecodeInput;
use crate::value::SpecValue;
use crate::value::Value;
use crate::value::dict_distinct_keys;
use crate::value::dict_insert;
use crate::value::elems_view;
use crate::value::pairs_view;

verus! {

/// Relies on `String::push`: it appends the given character to the end
/// of the string.
#[verifier::external_body]
fn push_char(s: &mut String, c: char)
    ensures
        final(s)@ == old(s)@.push(c),
{
    s.push(c);
}

/// The decimal value of `c`, if `c` is a digit.
fn to_digit(c: char) -> (r: Option<u32>)
    ensures
        match r {
            Some(d) => is_bencode_digit(c) && d == crate::grammar::digit_val(c),
            None => !is_bencode_digit(c),
        },
{
    let u = c as u32;
    if 48 <= u && u <= 57 {
        Some(u - 48)
    } else {
        None
    }
}

/// The characters of `s`, as a vector.
fn char_vec(s: &str) -> (r: Vec<char>)
    ensures
        r@ == s@,
{
    let n = s.unicode_len();
    let mut r: Vec<char> = Vec::new();
    let mut k: usize = 0;
    while k < n
        invariant
            k <= n,
            n == s@.len(),
            r@ == s@.subrange(0, k as int),
        decreases n - k,
    {
        r.push(s.get_char(k));
        k = k + 1;
        proof {
            assert(r@ =~= s@.subrange(0, k as int));
        }
    }
    proof {
        assert(r@ =~= s@);
    }
    r
}

/// The decoding strategy the dispatcher selects by lookahead: one per
/// bencode value kind, and a failing one for positions where no value
/// starts.
#[derive(Debug, PartialEq, Eq)]
pub enum DecoderKind {
    Str,
    Int,
    List,
    Dict,
    Failure,
}

/// The strategy `next_decoder` selects at position `i`.
pub open spec fn spec_next_decoder(s: Seq<char>, i: int) -> DecoderKind {
    if 0 <= i < s.len() {
        if is_bencode_digit(s[i]) {
            DecoderKind::Str
        } else if s[i] == 'i' {
            DecoderKind::Int
        } else if s[i] == 'l' {
            DecoderKind::List
        } else if s[i] == 'd' {
            DecoderKind::Dict
        } else {
            DecoderKind::Failure
        }
    } else {
        DecoderKind::Failure
    }
}

/// What running the strategy `kind` at position `i` parses.
pub open spec fn spec_run_decoder(kind: DecoderKind, s: Seq<char>, i: int) -> Option<
    (SpecValue, int),
> {
    match kind {
        DecoderKind::Str => match spec_parse_string(s, i) {
            Some((t, j)) => Some((SpecValue::Str(t), j)),
            None => None,
        },
        DecoderKind::Int => match spec_parse_integer(s, i) {
            Some((n, j)) => Some((SpecValue::Int(n), j)),
            None => None,
        },
        DecoderKind::List => spec_parse_list(s, i),
        DecoderKind::Dict => spec_parse_dict(s, i),
        DecoderKind::Failure => None,
    }
}

/// Running the dispatched strategy parses exactly one value: the
/// lookahead dispatch is total and faithful to the grammar.
pub proof fn lemma_dispatch(s: Seq<char>, i: int)
    ensures
        spec_run_decoder(spec_next_decoder(s, i), s, i) == spec_parse_value(s, i),
{
}

impl BencodedDecodeInput {
    /// Inspect (without consuming) the next character and select the
    /// decoding strategy for it.
    pub fn next_decoder(&self) -> (k: DecoderKind)
        ensures
            k == spec_next_decoder(self.chars(), self.pos()),
    {
        let mut it = self.iter();
        match it.next() {
            Some(c) => {
                if to_digit(c).is_some() {
                    DecoderKind::Str
                } else if c == 'i' {
                    DecoderKind::Int
                } else if c == 'l' {
                    DecoderKind::List
                } else if c == 'd' {
                    DecoderKind::Dict
                } else {
                    DecoderKind::Failure
                }
            },
            None => DecoderKind::Failure,
        }
    }

    /// A stream of successive element decodes, as the list decoder
    /// consumes them; it takes the cursor and hands it back, advanced,
    /// through `into_input`.
    pub fn decode_list_iter_mut(self) -> (r: BencodedDecodeListIterMut)
        ensures
            r.input == self,
    {
        BencodedDecodeListIterMut { input: self }
    }

    /// A stream of successive key/value pair decodes, as the dictionary
    /// decoder consumes them; it takes the cursor and hands it back,
    /// advanced, through `into_input`.
    pub fn decode_dict_iter_mut(self) -> (r: BencodedDecodeDictIterMut)
        ensures
            r.input == self,
    {
        BencodedDecodeDictIterMut { input: self }
    }

    /// A stream of successive element decodes: the same protocol as
    /// `decode_list_iter_mut`, under the name the generic element
    /// stream goes by.
    pub fn decode_iter_mut(self) -> (r: BencodedDecodeListIterMut)
        ensures
            r.input == self,
    {
        BencodedDecodeListIterMut { input: self }
    }
}

/// Decode a length-prefixed string `<digit>+ ":" <content>` at the
/// cursor. Returns exactly what the grammar parses there; any malformed
/// or truncated string (or a length overflowing the machine) fails.
#[verifier::loop_isolation(false)]
pub fn try_decode_string(input: BencodedDecodeInput) -> (r: Option<(Value, BencodedDecodeInput)>)
    requires
        input.wf(),
    ensures
        match spec_parse_string(input.chars(), input.pos()) {
            Some((t, j)) => r matches Some((v, rest)) && v.deep_view() == SpecValue::Str(t)
                && rest.wf() && rest.chars() == input.chars() && rest.pos() == j,
            None => r is None,
        },
{
    let ghost s = input.chars();
    let ghost i0 = input.pos();
    let mut cur = input;
    let c0 = match cur.next_char() {
        Some(c) => c,
        None => {
            return None;
        },
    };
    let d0 = match to_digit(c0) {
        Some(d) => d,
        None => {
            return None;
        },
    };
    let n = cur.input_len();
    let mut len: usize = d0 as usize;
    loop
        invariant
            cur.wf(),
            cur.chars() == s,
            i0 < cur.pos() <= s.len(),
            n == s.len(),
            crate::grammar::spec_scan_len(s, i0, 0) == crate::grammar::spec_scan_len(
                s,
                cur.pos(),
                len as int,
            ),
        decreases s.len() - cur.pos(),
    {
        let c = match cur.next_char() {
            Some(c) => c,
            None => {
                return None;
            },
        };
        if c == ':' {
            break;
        }
        if let Some(dv) = to_digit(c) {
            let d = dv as usize;
            let next_len = match len.checked_mul(10) {
                Some(x) => x.checked_add(d),
                None => None,
            };
            len = match next_len {
                Some(x) => x,
                None => {
                    proof {
                        lemma_scan_len_bounds(s, cur.pos(), len as int * 10 + d as int);
                    }
                    return None;
                },
            };
        } else {
            return None;
        }
    }
    let j = cur.position();
    if len > n - j {
        return None;
    }
    let mut text = String::new();
    let mut k: usize = 0;
    while k < len
        invariant
            cur.wf(),
            cur.chars() == s,
            k <= len,
            cur.pos() == j + k,
            j + len <= s.len(),
            text@ == s.subrange(j as int, j as int + k as int),
        decreases len - k,
    {
        let c = match cur.next_char() {
            Some(c) => c,
            None => {
                proof {
                    assert(false);
                }
                return None;
            },
        };
        push_char(&mut text, c);
        k = k + 1;
        proof {
            assert(text@ =~= s.subrange(j as int, j as int + k as int));
        }
    }
    Some((Value::Str(text), cur))
}

/// Decode an integer `"i" "-"? <digit>+ "e"` at the cursor. Returns
/// exactly what the grammar parses there; a missing terminator, an
/// empty digit run, or a value outside the signed 64-bit range fails.
#[verifier::loop_isolation(false)]
pub fn try_decode_integer(input: BencodedDecodeInput) -> (r: Option<(Value, BencodedDecodeInput)>)
    requires
        input.wf(),
    ensures
        match spec_parse_integer(input.chars(), input.pos()) {
            Some((n, j)) => r matches Some((v, rest)) && v.deep_view() == SpecValue::Int(n)
                && rest.wf() && rest.chars() == input.chars() && rest.pos() == j,
            None => r is None,
        },
{
    let ghost s = input.chars();
    let ghost i0 = input.pos();
    let mut cur = input;
    let c = match cur.next_char() {
        Some(c) => c,
        None => {
            return None;
        },
    };
    if c != 'i' {
        return None;
    }
    let c1 = match cur.next_char() {
        Some(c) => c,
        None => {
            return None;
        },
    };
    let neg: bool;
    let mut acc: u64;
    if c1 == '-' {
        let c2 = match cur.next_char() {
            Some(c) => c,
            None => {
                return None;
            },
        };
        let d2 = match to_digit(c2) {
            Some(d) => d,
            None => {
                return None;
            },
        };
        neg = true;
        acc = d2 as u64;
    } else {
        let d1 = match to_digit(c1) {
            Some(d) => d,
            None => {
                return None;
            },
        };
        neg = false;
        acc = d1 as u64;
    }
    let ghost base: int = if neg { i0 + 2 } else { i0 + 1 };
    loop
        invariant
            cur.wf(),
            cur.chars() == s,
            base < cur.pos() <= s.len(),
            0 <= base,
            crate::grammar::spec_scan_int(s, base, 0) == crate::grammar::spec_scan_int(
                s,
                cur.pos(),
                acc as int,
            ),
        decreases s.len() - cur.pos(),
    {
        let c = match cur.next_char() {
            Some(c) => c,
            None => {
                return None;
            },
        };
        if c == 'e' {
            break;
        }
        if let Some(dv) = to_digit(c) {
            let d = dv as u64;
            let next_acc = match acc.checked_mul(10) {
                Some(x) => x.checked_add(d),
                None => None,
            };
            acc = match next_acc {
                Some(x) => x,
                None => {
                    proof {
                        lemma_scan_int_bounds(s, cur.pos(), acc as int * 10 + d as int);
                    }
                    return None;
                },
            };
        } else {
            return None;
        }
    }
    let val: i64;
    if neg {
        if acc > i64::MAX as u64 {
            if acc == (i64::MAX as u64) + 1 {
                val = i64::MIN;
            } else {
                return None;
            }
        } else {
            val = -(acc as i64);
        }
    } else {
        if acc > i64::MAX as u64 {
            return None;
        }
        val = acc as i64;
    }
    Some((Value::Int(val), cur))
}

impl DecoderKind {
    /// Attempt this strategy at the cursor: the decoded value and the
    /// advanced cursor, or nothing if no such value starts there.
    pub fn try_decode(&self, input: BencodedDecodeInput) -> (r: Option<
        (Value, BencodedDecodeInput),
    >)
        requires
            input.wf(),
        ensures
            match spec_run_decoder(*self, input.chars(), input.pos()) {
                Some((v, j)) => r matches Some((val, rest)) && val.deep_view() == v && rest.wf()
                    && rest.chars() == input.chars() && rest.pos() == j,
                None => r is None,
            },
        decreases input.remaining(), 3int,
    {
        match self {
            DecoderKind::Str => try_decode_string(input),
            DecoderKind::Int => try_decode_integer(input),
            DecoderKind::List => try_decode_list(input),
            DecoderKind::Dict => try_decode_dict(input),
            DecoderKind::Failure => None,
        }
    }

    /// Run this strategy: on success the value and the advanced cursor,
    /// on failure no value and the cursor exactly as it was handed in.
    pub fn run_decoder(&self, input: BencodedDecodeInput) -> (r: (
        Option<Value>,
        BencodedDecodeInput,
    ))
        requires
            input.wf(),
        ensures
            r.1.wf(),
            r.1.chars() == input.chars(),
            match spec_run_decoder(*self, input.chars(), input.pos()) {
                Some((v, j)) => r.0 matches Some(val) && val.deep_view() == v && r.1.pos() == j,
                None => r.0 is None && r.1.pos() == input.pos(),
            },
        decreases input.remaining(), 4int,
    {
        let saved = input.clone();
        match self.try_decode(input) {
            Some((val, rest)) => (Some(val), rest),
            None => (None, saved),
        }
    }
}

/// A stream of successive element decodes over an owned cursor.
pub struct BencodedDecodeListIterMut {
    pub input: BencodedDecodeInput,
}

impl BencodedDecodeListIterMut {
    /// Decode the next element, if one starts at the cursor; on failure
    /// the cursor stands unchanged, ending the element run.
    pub fn next(&mut self) -> (r: Option<Value>)
        requires
            old(self).input.wf(),
        ensures
            final(self).input.wf(),
            final(self).input.chars() == old(self).input.chars(),
            match spec_parse_value(old(self).input.chars(), old(self).input.pos()) {
                Some((v, j)) => r matches Some(val) && val.deep_view() == v
                    && final(self).input.pos() == j,
                None => r is None && final(self).input.pos() == old(self).input.pos(),
            },
        decreases old(self).input.remaining(), 9int,
    {
        let ghost s = self.input.chars();
        let ghost p = self.input.pos();
        let kind = self.input.next_decoder();
        let (decoded_value, rest) = kind.run_decoder(self.input.clone());
        self.input = rest;
        proof {
            lemma_dispatch(s, p);
        }
        decoded_value
    }

    /// Hand the advanced cursor back.
    pub fn into_input(self) -> (r: BencodedDecodeInput)
        ensures
            r == self.input,
    {
        self.input
    }
}

/// A stream of successive key/value pair decodes over an owned cursor.
pub struct BencodedDecodeDictIterMut {
    pub input: BencodedDecodeInput,
}

impl BencodedDecodeDictIterMut {
    /// Decode the next key/value pair. `None`: no string key starts at
    /// the cursor, which stands unchanged, ending the pair run.
    /// `Some((k, None))`: a key but no value after it — the enclosing
    /// dictionary is malformed; the cursor stands just past the key.
    /// `Some((k, Some(v)))`: a full pair, the cursor just past it.
    pub fn next(&mut self) -> (r: Option<(String, Option<Value>)>)
        requires
            old(self).input.wf(),
        ensures
            final(self).input.wf(),
            final(self).input.chars() == old(self).input.chars(),
            match spec_parse_string(old(self).input.chars(), old(self).input.pos()) {
                Some((k, j)) => r matches Some((ks, vo)) && ks@ == k
                    && match spec_parse_value(old(self).input.chars(), j) {
                    Some((v, j2)) => vo matches Some(val) && val.deep_view() == v
                        && final(self).input.pos() == j2,
                    None => vo is None && final(self).input.pos() == j,
                },
                None => r is None && final(self).input.pos() == old(self).input.pos(),
            },
        decreases old(self).input.remaining(), 9int,
    {
        let ghost s = self.input.chars();
        let ghost p = self.input.pos();
        let saved = self.input.clone();
        let key = match try_decode_string(self.input.clone()) {
            Some((key_val, rest)) => {
                self.input = rest;
                match key_val {
                    Value::Str(k) => k,
                    _ => {
                        proof {
                            assert(false);
                        }
                        return None;
                    },
                }
            },
            None => {
                self.input = saved;
                return None;
            },
        };
        proof {
            lemma_parse_string_advances(s, p);
        }
        let ghost jk = self.input.pos();
        let kind = self.input.next_decoder();
        let (decoded_value, rest) = kind.run_decoder(self.input.clone());
        self.input = rest;
        proof {
            lemma_dispatch(s, jk);
        }
        match decoded_value {
            Some(v) => Some((key, Some(v))),
            None => Some((key, None)),
        }
    }

    /// Hand the advanced cursor back.
    pub fn into_input(self) -> (r: BencodedDecodeInput)
        ensures
            r == self.input,
    {
        self.input
    }
}

/// Decode a list `"l" value* "e"` at the cursor: elements until no
/// value starts, then the closing `e`. Returns exactly what the grammar
/// parses there.
#[verifier::loop_isolation(false)]
pub fn try_decode_list(input: BencodedDecodeInput) -> (r: Option<(Value, BencodedDecodeInput)>)
    requires
        input.wf(),
    ensures
        match spec_parse_list(input.chars(), input.pos()) {
            Some((v, j)) => r matches Some((val, rest)) && val.deep_view() == v && rest.wf()
                && rest.chars() == input.chars() && rest.pos() == j,
            None => r is None,
        },
    decreases input.remaining(), 2int,
{
    let ghost s = input.chars();
    let ghost i0 = input.pos();
    let mut cur = input;
    let c = match cur.next_char() {
        Some(c) => c,
        None => {
            return None;
        },
    };
    if c != 'l' {
        return None;
    }
    let ghost p0 = cur.pos();
    let mut items: Vec<Value> = Vec::new();
    let mut it = cur.decode_list_iter_mut();
    proof {
        assert(elems_view(items@) =~= Seq::<SpecValue>::empty());
    }
    loop
        invariant
            it.input.wf(),
            it.input.chars() == s,
            p0 <= it.input.pos() <= s.len(),
            p0 == i0 + 1,
            spec_parse_elems(s, p0).0 == elems_view(items@) + spec_parse_elems(
                s,
                it.input.pos(),
            ).0,
            spec_parse_elems(s, p0).1 == spec_parse_elems(s, it.input.pos()).1,
        decreases it.input.remaining(),
    {
        let ghost pos_before = it.input.pos();
        let ghost items_before = items@;
        match it.next() {
            Some(v) => {
                proof {
                    lemma_parse_value_advances(s, pos_before);
                }
                items.push(v);
                proof {
                    assert(elems_view(items@) =~= elems_view(items_before).push(
                        v.deep_view(),
                    ));
                    assert(elems_view(items_before) + spec_parse_elems(s, pos_before).0
                        =~= elems_view(items@) + spec_parse_elems(s, it.input.pos()).0);
                }
            },
            None => {
                break;
            },
        }
    }
    let mut cur = it.into_input();
    proof {
        assert(elems_view(items@) + spec_parse_elems(s, cur.pos()).0 =~= elems_view(items@));
    }
    let c = match cur.next_char() {
        Some(c) => c,
        None => {
            return None;
        },
    };
    if c != 'e' {
        return None;
    }
    proof {
        assert(Value::List(items).deep_view()->List_0 =~= elems_view(items@));
    }
    Some((Value::List(items), cur))
}

/// Decode a dictionary `"d" (string value)* "e"` at the cursor: string
/// keys each followed by a value, until no key starts, then the closing
/// `e`. A key with no value after it fails the whole dictionary.
/// Returns exactly what the grammar parses there.
#[verifier::loop_isolation(false)]
pub fn try_decode_dict(input: BencodedDecodeInput) -> (r: Option<(Value, BencodedDecodeInput)>)
    requires
        input.wf(),
    ensures
        match spec_parse_dict(input.chars(), input.pos()) {
            Some((v, j)) => r matches Some((val, rest)) && val.deep_view() == v && rest.wf()
                && rest.chars() == input.chars() && rest.pos() == j,
            None => r is None,
        },
    decreases input.remaining(), 2int,
{
    let ghost s = input.chars();
    let ghost i0 = input.pos();
    let mut cur = input;
    let c = match cur.next_char() {
        Some(c) => c,
        None => {
            return None;
        },
    };
    if c != 'd' {
        return None;
    }
    let ghost p0 = cur.pos();
    let mut items: Vec<(String, Value)> = Vec::new();
    let mut it = cur.decode_dict_iter_mut();
    proof {
        assert(pairs_view(items@) =~= Seq::<(Seq<char>, SpecValue)>::empty());
    }
    loop
        invariant
            it.input.wf(),
            it.input.chars() == s,
            p0 <= it.input.pos() <= s.len(),
            p0 == i0 + 1,
            dict_distinct_keys(pairs_view(items@)),
            spec_parse_pairs(s, p0, Seq::empty()) == spec_parse_pairs(
                s,
                it.input.pos(),
                pairs_view(items@),
            ),
        decreases it.input.remaining(),
    {
        let ghost pos_before = it.input.pos();
        match it.next() {
            Some((k, Some(v))) => {
                proof {
                    lemma_parse_string_advances(s, pos_before);
                    if let Some((kk, kj)) = spec_parse_string(s, pos_before) {
                        lemma_parse_value_advances(s, kj);
                    }
                }
                dict_insert(&mut items, k, v);
            },
            Some((_k, None)) => {
                proof {
                    lemma_parse_string_advances(s, pos_before);
                }
                return None;
            },
            None => {
                break;
            },
        }
    }
    let mut cur = it.into_input();
    let c = match cur.next_char() {
        Some(c) => c,
        None => {
            return None;
        },
    };
    if c != 'e' {
        return None;
    }
    proof {
        assert(Value::Dict(items).deep_view()->Dict_0 =~= pairs_view(items@));
    }
    Some((Value::Dict(items), cur))
}

/// Decode exactly one bencode value from the start of `encoded_value`:
/// the decoded value tree, or `None` when no value starts there.
/// Trailing input past the one decoded value is ignored by design.
pub fn decode_bencoded_value(encoded_value: String) -> (r: Option<Value>)
    ensures
        match spec_parse_value(encoded_value@, 0) {
            Some((v, j)) => r matches Some(val) && val.deep_view() == v,
            None => r is None,
        },
{
    let data = char_vec(encoded_value.as_str());
    let input = BencodedDecodeInput::new(data);
    let kind = input.next_decoder();
    let (result, _rest) = kind.run_decoder(input.clone());
    proof {
        lemma_dispatch(encoded_value@, 0);
    }
    result
}

} // verus!
