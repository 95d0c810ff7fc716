//! A JSON document tree and a verified parser for it.
//!
//! The configuration files this crate reads are JSON text. The grammar
//! accepted here is the standard one: objects, arrays, strings with the
//! usual escapes (including surrogate pairs), numbers, `true`, `false` and
//! `null`, separated by optional whitespace. Numbers written in integer
//! form that fit in an `i64` are kept as integers; any other number keeps
//! its lexeme verbatim and is never interpreted, since nothing in these
//! documents reads non-integer numbers.
//!
//! The parser is specified by a family of `spec` functions that define the
//! grammar directly, and the executable parser is proved to return exactly
//! what they describe.

use vstd::prelude::*;

use crate::util::{chars_to_string, str_to_chars};

verus! {

broadcast use vstd::std_specs::vec::group_vec_axioms, vstd::seq::group_seq_axioms;

/// Mathematical model of a JSON value.
///
/// Object members are kept as a sequence of key/value pairs in document
/// order; lookups take the first pair with a matching key.
pub ghost enum JsonModel {
    Null,
    Bool(bool),
    Int(int),
    Num(Seq<char>),
    Str(Seq<char>),
    Arr(Seq<JsonModel>),
    Obj(Seq<(Seq<char>, JsonModel)>),
}

/// A parsed JSON value.
///
/// `Int` holds numbers written in integer form whose value fits in an
/// `i64`; `Num` holds the verbatim lexeme of every other number.
#[derive(Debug, PartialEq)]
pub enum JsonValue {
    Null,
    Bool(bool),
    Int(i64),
    Num(String),
    Str(String),
    Arr(Vec<JsonValue>),
    Obj(Vec<(String, JsonValue)>),
}

impl View for JsonValue {
    type V = JsonModel;

    open spec fn view(&self) -> JsonModel {
        self.model()
    }
}

impl JsonValue {
    /// The model of a parsed value.
    pub open spec fn model(&self) -> JsonModel
        decreases self,
    {
        match self {
            JsonValue::Null => JsonModel::Null,
            JsonValue::Bool(b) => JsonModel::Bool(*b),
            JsonValue::Int(n) => JsonModel::Int(*n as int),
            JsonValue::Num(s) => JsonModel::Num(s@),
            JsonValue::Str(s) => JsonModel::Str(s@),
            JsonValue::Arr(items) => JsonModel::Arr(JsonValue::models_of(items@)),
            JsonValue::Obj(members) => JsonModel::Obj(JsonValue::member_models_of(members@)),
        }
    }

    /// The models of a sequence of array elements, in order.
    pub open spec fn models_of(items: Seq<JsonValue>) -> Seq<JsonModel>
        decreases items,
    {
        if items.len() == 0 {
            Seq::empty()
        } else {
            seq![items[0].model()] + JsonValue::models_of(items.drop_first())
        }
    }

    /// The models of a sequence of object members, in order.
    pub open spec fn member_models_of(members: Seq<(String, JsonValue)>) -> Seq<
        (Seq<char>, JsonModel),
    >
        decreases members,
    {
        if members.len() == 0 {
            Seq::empty()
        } else {
            seq![(members[0].0@, members[0].1.model())] + JsonValue::member_models_of(
                members.drop_first(),
            )
        }
    }
}

/// JSON whitespace: space, tab, line feed, carriage return.
pub open spec fn is_json_ws(c: char) -> bool {
    c == ' ' || c == '\t' || c == '\n' || c == '\r'
}

/// Position of the first non-whitespace character at or after `i`.
pub open spec fn spec_skip_ws(s: Seq<char>, i: int) -> int
    decreases s.len() - i,
{
    if 0 <= i < s.len() && is_json_ws(s[i]) {
        spec_skip_ws(s, i + 1)
    } else {
        i
    }
}

/// A decimal digit.
pub open spec fn is_digit(c: char) -> bool {
    '0' <= c && c <= '9'
}

/// Numeric value of a decimal digit.
pub open spec fn digit_val(c: char) -> int {
    c as int - '0' as int
}

/// A hexadecimal digit.
pub open spec fn is_hex_digit(c: char) -> bool {
    ('0' <= c && c <= '9') || ('a' <= c && c <= 'f') || ('A' <= c && c <= 'F')
}

/// Numeric value of a hexadecimal digit.
pub open spec fn hex_val(c: char) -> int {
    if '0' <= c && c <= '9' {
        c as int - '0' as int
    } else if 'a' <= c && c <= 'f' {
        c as int - 'a' as int + 10
    } else {
        c as int - 'A' as int + 10
    }
}

/// Position of the first non-digit character at or after `i`.
pub open spec fn spec_digits_end(s: Seq<char>, i: int) -> int
    decreases s.len() - i,
{
    if 0 <= i < s.len() && is_digit(s[i]) {
        spec_digits_end(s, i + 1)
    } else {
        i
    }
}

/// Value of the decimal digit run `s[i..j)`.
pub open spec fn spec_digits_val(s: Seq<char>, i: int, j: int) -> int
    decreases j - i,
{
    if i < j {
        spec_digits_val(s, i, j - 1) * 10 + digit_val(s[j - 1])
    } else {
        0
    }
}

/// End of the optional fraction part starting at `k`: `k` itself when no
/// `.` stands there, the end of the digit run after the `.` when at least
/// one digit follows it, and `None` when the fraction is malformed.
pub open spec fn spec_frac_end(s: Seq<char>, k: int) -> Option<int> {
    if 0 <= k < s.len() && s[k] == '.' {
        let d = spec_digits_end(s, k + 1);
        if d > k + 1 {
            Some(d)
        } else {
            None
        }
    } else {
        Some(k)
    }
}

/// End of the optional exponent part starting at `k`, by the same rules.
pub open spec fn spec_exp_end(s: Seq<char>, k: int) -> Option<int> {
    if 0 <= k < s.len() && (s[k] == 'e' || s[k] == 'E') {
        let m = if k + 1 < s.len() && (s[k + 1] == '+' || s[k + 1] == '-') {
            k + 2
        } else {
            k + 1
        };
        let d = spec_digits_end(s, m);
        if d > m {
            Some(d)
        } else {
            None
        }
    } else {
        Some(k)
    }
}

/// Smallest and largest `i64` values, as bounds on integer parsing.
pub open spec fn i64_min() -> int {
    -0x8000_0000_0000_0000
}

pub open spec fn i64_max() -> int {
    0x7fff_ffff_ffff_ffff
}

/// Parses a number at `i`: an optional minus sign, an integer part (`0`
/// alone, or a nonzero digit followed by digits), then an optional
/// fraction and exponent. A number in plain integer form whose value fits
/// in an `i64` becomes `Int`; every other number keeps its lexeme as
/// `Num`.
pub open spec fn spec_parse_number(s: Seq<char>, i: int) -> Option<(JsonModel, int)> {
    let j = if 0 <= i < s.len() && s[i] == '-' {
        i + 1
    } else {
        i
    };
    let neg = j == i + 1;
    if !(0 <= j < s.len() && is_digit(s[j])) {
        None
    } else {
        let k = if s[j] == '0' {
            j + 1
        } else {
            spec_digits_end(s, j)
        };
        match spec_frac_end(s, k) {
            None => None,
            Some(f) => match spec_exp_end(s, f) {
                None => None,
                Some(e) => if e == k {
                    let v = if neg {
                        -spec_digits_val(s, j, k)
                    } else {
                        spec_digits_val(s, j, k)
                    };
                    if i64_min() <= v && v <= i64_max() {
                        Some((JsonModel::Int(v), k))
                    } else {
                        Some((JsonModel::Num(s.subrange(i, k)), k))
                    }
                } else {
                    Some((JsonModel::Num(s.subrange(i, e)), e))
                },
            },
        }
    }
}

/// A unicode scalar value: any code point that is not a surrogate.
pub open spec fn valid_unicode_scalar(n: int) -> bool {
    (0 <= n < 0xD800) || (0xE000 <= n <= 0x10FFFF)
}

/// The character whose code point is `n`, for valid `n`: the value that
/// `char::from_u32` returns.
pub uninterp spec fn char_of_code(n: int) -> char;

/// Relies on `char::from_u32`: it returns `Some` exactly for unicode
/// scalar values (code points outside the surrogate range), and the
/// returned character has the given code point.
#[verifier::external_body]
fn char_from_code(n: u32) -> (r: Option<char>)
    ensures
        r is Some <==> valid_unicode_scalar(n as int),
        r matches Some(c) ==> c == char_of_code(n as int) && c as u32 == n,
{
    char::from_u32(n)
}

/// Value of the four hexadecimal digits at `s[i..i+4)`, if they stand
/// there.
pub open spec fn spec_hex4(s: Seq<char>, i: int) -> Option<int> {
    if 0 <= i && i + 4 <= s.len() && is_hex_digit(s[i]) && is_hex_digit(s[i + 1]) && is_hex_digit(
        s[i + 2],
    ) && is_hex_digit(s[i + 3]) {
        Some(
            hex_val(s[i]) * 0x1000 + hex_val(s[i + 1]) * 0x100 + hex_val(s[i + 2]) * 0x10 + hex_val(
                s[i + 3],
            ),
        )
    } else {
        None
    }
}

/// Parses a `\u` escape; `i` points at the first hexadecimal digit. A
/// high surrogate must be followed by a `\u`-escaped low surrogate, and
/// the pair denotes one supplementary-plane character; a lone surrogate
/// is an error.
pub open spec fn spec_unicode_escape(s: Seq<char>, i: int) -> Option<(Seq<char>, int)> {
    match spec_hex4(s, i) {
        None => None,
        Some(n) => if valid_unicode_scalar(n) {
            Some((seq![char_of_code(n)], i + 4))
        } else if 0xD800 <= n <= 0xDBFF && i + 6 <= s.len() && s[i + 4] == '\\' && s[i + 5]
            == 'u' {
            match spec_hex4(s, i + 6) {
                None => None,
                Some(m) => if 0xDC00 <= m <= 0xDFFF {
                    Some((seq![char_of_code(0x10000 + (n - 0xD800) * 0x400 + (m - 0xDC00))], i + 10))
                } else {
                    None
                },
            }
        } else {
            None
        },
    }
}

/// Parses one escape sequence; `i` points at the character after the
/// backslash.
pub open spec fn spec_escape(s: Seq<char>, i: int) -> Option<(Seq<char>, int)> {
    if !(0 <= i < s.len()) {
        None
    } else {
        let c = s[i];
        if c == '"' {
            Some((seq!['"'], i + 1))
        } else if c == '\\' {
            Some((seq!['\\'], i + 1))
        } else if c == '/' {
            Some((seq!['/'], i + 1))
        } else if c == 'b' {
            Some((seq!['\u{0008}'], i + 1))
        } else if c == 'f' {
            Some((seq!['\u{000C}'], i + 1))
        } else if c == 'n' {
            Some((seq!['\n'], i + 1))
        } else if c == 'r' {
            Some((seq!['\r'], i + 1))
        } else if c == 't' {
            Some((seq!['\t'], i + 1))
        } else if c == 'u' {
            spec_unicode_escape(s, i + 1)
        } else {
            None
        }
    }
}

/// Parses the body of a string literal up to and over the closing quote;
/// `i` points at the first character after the opening quote. Raw control
/// characters are not allowed.
pub open spec fn spec_string_body(s: Seq<char>, i: int) -> Option<(Seq<char>, int)>
    decreases s.len() - i,
{
    if !(0 <= i < s.len()) {
        None
    } else if s[i] == '"' {
        Some((Seq::empty(), i + 1))
    } else if s[i] == '\\' {
        match spec_escape(s, i + 1) {
            None => None,
            Some((cs, j)) => if i < j <= s.len() {
                match spec_string_body(s, j) {
                    None => None,
                    Some((rest, k)) => Some((cs + rest, k)),
                }
            } else {
                None
            },
        }
    } else if (s[i] as int) < 0x20 {
        None
    } else {
        match spec_string_body(s, i + 1) {
            None => None,
            Some((rest, k)) => Some((seq![s[i]] + rest, k)),
        }
    }
}

/// Parses a string literal at `i`, which must hold the opening quote.
pub open spec fn spec_parse_string(s: Seq<char>, i: int) -> Option<(Seq<char>, int)> {
    if 0 <= i < s.len() && s[i] == '"' {
        spec_string_body(s, i + 1)
    } else {
        None
    }
}

/// Parses one value at `i` (leading whitespace already skipped).
pub open spec fn spec_parse_value(s: Seq<char>, i: int) -> Option<(JsonModel, int)>
    decreases s.len() - i, 0int,
{
    if !(0 <= i < s.len()) {
        None
    } else {
        let c = s[i];
        if c == '"' {
            match spec_parse_string(s, i) {
                None => None,
                Some((cs, j)) => Some((JsonModel::Str(cs), j)),
            }
        } else if c == 't' {
            if i + 4 <= s.len() && s[i + 1] == 'r' && s[i + 2] == 'u' && s[i + 3] == 'e' {
                Some((JsonModel::Bool(true), i + 4))
            } else {
                None
            }
        } else if c == 'f' {
            if i + 5 <= s.len() && s[i + 1] == 'a' && s[i + 2] == 'l' && s[i + 3] == 's' && s[i + 4]
                == 'e' {
                Some((JsonModel::Bool(false), i + 5))
            } else {
                None
            }
        } else if c == 'n' {
            if i + 4 <= s.len() && s[i + 1] == 'u' && s[i + 2] == 'l' && s[i + 3] == 'l' {
                Some((JsonModel::Null, i + 4))
            } else {
                None
            }
        } else if c == '-' || is_digit(c) {
            spec_parse_number(s, i)
        } else if c == '[' {
            let j = spec_skip_ws(s, i + 1);
            if j < s.len() && s[j] == ']' {
                Some((JsonModel::Arr(Seq::empty()), j + 1))
            } else if i < j <= s.len() {
                match spec_parse_elems(s, j) {
                    None => None,
                    Some((vs, k)) => Some((JsonModel::Arr(vs), k)),
                }
            } else {
                None
            }
        } else if c == '{' {
            let j = spec_skip_ws(s, i + 1);
            if j < s.len() && s[j] == '}' {
                Some((JsonModel::Obj(Seq::empty()), j + 1))
            } else if i < j <= s.len() {
                match spec_parse_members(s, j) {
                    None => None,
                    Some((ms, k)) => Some((JsonModel::Obj(ms), k)),
                }
            } else {
                None
            }
        } else {
            None
        }
    }
}

/// Parses the comma-separated elements of an array and its closing
/// bracket; `i` points at the first element (whitespace already skipped).
pub open spec fn spec_parse_elems(s: Seq<char>, i: int) -> Option<(Seq<JsonModel>, int)>
    decreases s.len() - i, 1int,
{
    match spec_parse_value(s, i) {
        None => None,
        Some((v, j)) => {
            let j2 = spec_skip_ws(s, j);
            if j2 < s.len() && s[j2] == ']' {
                Some((seq![v], j2 + 1))
            } else if j2 < s.len() && s[j2] == ',' {
                let j3 = spec_skip_ws(s, j2 + 1);
                if i < j3 <= s.len() {
                    match spec_parse_elems(s, j3) {
                        None => None,
                        Some((rest, k)) => Some((seq![v] + rest, k)),
                    }
                } else {
                    None
                }
            } else {
                None
            }
        },
    }
}

/// Parses the comma-separated members of an object and its closing
/// brace; `i` points at the first key (whitespace already skipped).
pub open spec fn spec_parse_members(s: Seq<char>, i: int) -> Option<
    (Seq<(Seq<char>, JsonModel)>, int),
>
    decreases s.len() - i, 1int,
{
    match spec_parse_string(s, i) {
        None => None,
        Some((key, j)) => {
            let j2 = spec_skip_ws(s, j);
            if !(j2 < s.len() && s[j2] == ':') {
                None
            } else {
                let j3 = spec_skip_ws(s, j2 + 1);
                if i < j3 <= s.len() {
                    match spec_parse_value(s, j3) {
                        None => None,
                        Some((v, j4)) => {
                            let j5 = spec_skip_ws(s, j4);
                            if j5 < s.len() && s[j5] == '}' {
                                Some((seq![(key, v)], j5 + 1))
                            } else if j5 < s.len() && s[j5] == ',' {
                                let j6 = spec_skip_ws(s, j5 + 1);
                                if i < j6 <= s.len() {
                                    match spec_parse_members(s, j6) {
                                        None => None,
                                        Some((rest, k)) => Some((seq![(key, v)] + rest, k)),
                                    }
                                } else {
                                    None
                                }
                            } else {
                                None
                            }
                        },
                    }
                } else {
                    None
                }
            }
        },
    }
}

/// Parses a whole document: one value surrounded by whitespace, reaching
/// exactly the end of the text.
pub open spec fn spec_parse_json(s: Seq<char>) -> Option<JsonModel> {
    match spec_parse_value(s, spec_skip_ws(s, 0)) {
        None => None,
        Some((v, j)) => if spec_skip_ws(s, j) == s.len() {
            Some(v)
        } else {
            None
        },
    }
}

fn exec_is_json_ws(c: char) -> (r: bool)
    ensures
        r == is_json_ws(c),
{
    c == ' ' || c == '\t' || c == '\n' || c == '\r'
}

fn exec_is_control(c: char) -> (r: bool)
    ensures
        r == ((c as int) < 0x20),
{
    (c as u32) < 0x20
}

fn exec_is_digit(c: char) -> (r: bool)
    ensures
        r == is_digit(c),
{
    let n = c as u32;
    48 <= n && n <= 57
}

fn exec_is_hex_digit(c: char) -> (r: bool)
    ensures
        r == is_hex_digit(c),
{
    let n = c as u32;
    (48 <= n && n <= 57) || (97 <= n && n <= 102) || (65 <= n && n <= 70)
}

fn exec_hex_val(c: char) -> (r: u32)
    requires
        is_hex_digit(c),
    ensures
        r as int == hex_val(c),
        r < 16,
{
    let n = c as u32;
    if 48 <= n && n <= 57 {
        n - 48
    } else if 97 <= n && n <= 102 {
        n - 97 + 10
    } else {
        n - 65 + 10
    }
}

fn skip_ws(s: &Vec<char>, i: usize) -> (r: usize)
    requires
        i <= s@.len(),
    ensures
        r as int == spec_skip_ws(s@, i as int),
        i <= r <= s@.len(),
    decreases s@.len() - i,
{
    if i < s.len() && exec_is_json_ws(s[i]) {
        skip_ws(s, i + 1)
    } else {
        i
    }
}

fn digits_end(s: &Vec<char>, i: usize) -> (r: usize)
    requires
        i <= s@.len(),
    ensures
        r as int == spec_digits_end(s@, i as int),
        i <= r <= s@.len(),
        forall|t: int| i <= t < r ==> is_digit(s@[t]),
        i < s@.len() && is_digit(s@[i as int]) ==> i < r,
    decreases s@.len() - i,
{
    if i < s.len() && exec_is_digit(s[i]) {
        digits_end(s, i + 1)
    } else {
        i
    }
}

/// The characters `s[from..to)` as a fresh string.
fn subrange_string(s: &Vec<char>, from: usize, to: usize) -> (r: String)
    requires
        from <= to <= s@.len(),
    ensures
        r@ == s@.subrange(from as int, to as int),
{
    let mut v: Vec<char> = Vec::new();
    let mut t = from;
    while t < to
        invariant
            from <= t <= to <= s@.len(),
            v@ == s@.subrange(from as int, t as int),
        decreases to - t,
    {
        v.push(s[t]);
        proof {
            assert(s@.subrange(from as int, t + 1) =~= s@.subrange(from as int, t as int).push(
                s@[t as int],
            ));
        }
        t = t + 1;
    }
    chars_to_string(&v)
}

fn frac_end(s: &Vec<char>, k: usize) -> (r: Option<usize>)
    requires
        k <= s@.len(),
    ensures
        r is Some <==> spec_frac_end(s@, k as int) is Some,
        r matches Some(x) ==> spec_frac_end(s@, k as int) == Some(x as int) && k <= x <= s@.len(),
{
    if k < s.len() && s[k] == '.' {
        let d = digits_end(s, k + 1);
        if d > k + 1 {
            Some(d)
        } else {
            None
        }
    } else {
        Some(k)
    }
}

fn exp_end(s: &Vec<char>, k: usize) -> (r: Option<usize>)
    requires
        k <= s@.len(),
    ensures
        r is Some <==> spec_exp_end(s@, k as int) is Some,
        r matches Some(x) ==> spec_exp_end(s@, k as int) == Some(x as int) && k <= x <= s@.len(),
{
    if k < s.len() && (s[k] == 'e' || s[k] == 'E') {
        let m = if k + 1 < s.len() && (s[k + 1] == '+' || s[k + 1] == '-') {
            k + 2
        } else {
            k + 1
        };
        let d = digits_end(s, m);
        if d > m {
            Some(d)
        } else {
            None
        }
    } else {
        Some(k)
    }
}

/// The signed value of the digit run `s[j..k)`, when it fits in an `i64`.
fn digits_to_i64(s: &Vec<char>, j: usize, k: usize, neg: bool) -> (r: Option<i64>)
    requires
        j <= k <= s@.len(),
        forall|t: int| j <= t < k ==> is_digit(s@[t]),
    ensures
        ({
            let v = if neg {
                -spec_digits_val(s@, j as int, k as int)
            } else {
                spec_digits_val(s@, j as int, k as int)
            };
            &&& (r is Some <==> i64_min() <= v && v <= i64_max())
            &&& (r matches Some(x) ==> x as int == v)
        }),
{
    let mut acc: u128 = 0;
    let mut sat: bool = false;
    let mut t = j;
    while t < k
        invariant
            j <= t <= k <= s@.len(),
            forall|u: int| j <= u < k ==> is_digit(s@[u]),
            !sat ==> acc as int == spec_digits_val(s@, j as int, t as int) && acc
                <= 0x8000_0000_0000_0000u128,
            sat ==> spec_digits_val(s@, j as int, t as int) > 0x8000_0000_0000_0000,
        decreases k - t,
    {
        let d = (s[t] as u32) - 48;
        if !sat {
            acc = acc * 10 + (d as u128);
            if acc > 0x8000_0000_0000_0000u128 {
                sat = true;
            }
        } else {
            proof {
                let v = spec_digits_val(s@, j as int, t as int);
                assert(v * 10 == v + 9 * v);
                assert(digit_val(s@[t as int]) >= 0);
            }
        }
        t = t + 1;
    }
    if sat {
        return None;
    }
    if neg {
        if acc == 0x8000_0000_0000_0000u128 {
            Some(-0x7fff_ffff_ffff_ffffi64 - 1)
        } else {
            Some(-(acc as i64))
        }
    } else {
        if acc <= 0x7fff_ffff_ffff_ffffu128 {
            Some(acc as i64)
        } else {
            None
        }
    }
}

fn parse_number(s: &Vec<char>, i: usize) -> (r: Option<(JsonValue, usize)>)
    requires
        i <= s@.len(),
    ensures
        (r matches Some(p) ==> spec_parse_number(s@, i as int) matches Some(q) && p.0.model()
            == q.0 && p.1 as int == q.1 && i < p.1 <= s@.len()),
        r is None ==> spec_parse_number(s@, i as int) is None,
{
    let j = if i < s.len() && s[i] == '-' {
        i + 1
    } else {
        i
    };
    let neg = j != i;
    if !(j < s.len() && exec_is_digit(s[j])) {
        return None;
    }
    let k = if s[j] == '0' {
        j + 1
    } else {
        digits_end(s, j)
    };
    let f = match frac_end(s, k) {
        None => {
            return None;
        },
        Some(f) => f,
    };
    let e = match exp_end(s, f) {
        None => {
            return None;
        },
        Some(e) => e,
    };
    if e == k {
        match digits_to_i64(s, j, k, neg) {
            Some(x) => Some((JsonValue::Int(x), k)),
            None => Some((JsonValue::Num(subrange_string(s, i, k)), k)),
        }
    } else {
        Some((JsonValue::Num(subrange_string(s, i, e)), e))
    }
}

/// The value of the four hexadecimal digits at `s[i..i+4)`.
fn hex4(s: &Vec<char>, i: usize) -> (r: Option<u32>)
    requires
        i <= s@.len(),
    ensures
        r is Some <==> spec_hex4(s@, i as int) is Some,
        r matches Some(n) ==> spec_hex4(s@, i as int) == Some(n as int) && n <= 0xFFFF && i + 4
            <= s@.len(),
{
    if s.len() - i >= 4 && exec_is_hex_digit(s[i]) && exec_is_hex_digit(s[i + 1])
        && exec_is_hex_digit(s[i + 2]) && exec_is_hex_digit(s[i + 3]) {
        let n = exec_hex_val(s[i]) * 0x1000 + exec_hex_val(s[i + 1]) * 0x100 + exec_hex_val(
            s[i + 2],
        ) * 0x10 + exec_hex_val(s[i + 3]);
        Some(n)
    } else {
        None
    }
}

fn parse_unicode_escape(s: &Vec<char>, i: usize) -> (r: Option<(Vec<char>, usize)>)
    requires
        i <= s@.len(),
    ensures
        (r matches Some(p) ==> spec_unicode_escape(s@, i as int) matches Some(q) && p.0@ == q.0
            && p.1 as int == q.1 && i < p.1 <= s@.len()),
        r is None ==> spec_unicode_escape(s@, i as int) is None,
{
    proof {
        vstd::std_specs::vec::axiom_spec_len(s);
    }
    match hex4(s, i) {
        None => None,
        Some(n) => {
            if n < 0xD800 || 0xE000 <= n {
                match char_from_code(n) {
                    Some(c) => {
                        let mut v: Vec<char> = Vec::new();
                        v.push(c);
                        proof {
                            assert(v@ =~= seq![char_of_code(n as int)]);
                        }
                        Some((v, i + 4))
                    },
                    None => None,
                }
            } else if n <= 0xDBFF {
                if s.len() - i >= 6 && s[i + 4] == '\\' && s[i + 5] == 'u' {
                    match hex4(s, i + 6) {
                        None => None,
                        Some(m) => {
                            if 0xDC00 <= m && m <= 0xDFFF {
                                let code = 0x10000 + (n - 0xD800) * 0x400 + (m - 0xDC00);
                                match char_from_code(code) {
                                    Some(c) => {
                                        let mut v: Vec<char> = Vec::new();
                                        v.push(c);
                                        proof {
                                            assert(v@ =~= seq![char_of_code(code as int)]);
                                        }
                                        Some((v, i + 10))
                                    },
                                    None => None,
                                }
                            } else {
                                None
                            }
                        },
                    }
                } else {
                    None
                }
            } else {
                None
            }
        },
    }
}

fn parse_escape(s: &Vec<char>, i: usize) -> (r: Option<(Vec<char>, usize)>)
    requires
        i <= s@.len(),
    ensures
        (r matches Some(p) ==> spec_escape(s@, i as int) matches Some(q) && p.0@ == q.0 && p.1
            as int == q.1 && i < p.1 <= s@.len()),
        r is None ==> spec_escape(s@, i as int) is None,
{
    if i >= s.len() {
        return None;
    }
    let c = s[i];
    if c == 'u' {
        parse_unicode_escape(s, i + 1)
    } else {
        let rc: char = if c == '"' {
            '"'
        } else if c == '\\' {
            '\\'
        } else if c == '/' {
            '/'
        } else if c == 'b' {
            '\u{0008}'
        } else if c == 'f' {
            '\u{000C}'
        } else if c == 'n' {
            '\n'
        } else if c == 'r' {
            '\r'
        } else if c == 't' {
            '\t'
        } else {
            return None;
        };
        let mut v: Vec<char> = Vec::new();
        v.push(rc);
        proof {
            assert(v@ =~= seq![rc]);
        }
        Some((v, i + 1))
    }
}

fn string_body(s: &Vec<char>, i: usize) -> (r: Option<(Vec<char>, usize)>)
    requires
        i <= s@.len(),
    ensures
        (r matches Some(p) ==> spec_string_body(s@, i as int) matches Some(q) && p.0@ == q.0 && p.1
            as int == q.1 && i < p.1 <= s@.len()),
        r is None ==> spec_string_body(s@, i as int) is None,
    decreases s@.len() - i,
{
    if i >= s.len() {
        return None;
    }
    let c = s[i];
    if c == '"' {
        Some((Vec::new(), i + 1))
    } else if c == '\\' {
        match parse_escape(s, i + 1) {
            None => None,
            Some((mut cs, j)) => {
                match string_body(s, j) {
                    None => None,
                    Some((mut rest, k)) => {
                        let ghost cs0 = cs@;
                        let ghost rest0 = rest@;
                        cs.append(&mut rest);
                        proof {
                            assert(cs@ =~= cs0 + rest0);
                        }
                        Some((cs, k))
                    },
                }
            },
        }
    } else if exec_is_control(c) {
        None
    } else {
        match string_body(s, i + 1) {
            None => None,
            Some((rest, k)) => {
                let mut out: Vec<char> = Vec::new();
                out.push(c);
                let mut rest = rest;
                let ghost rest0 = rest@;
                out.append(&mut rest);
                proof {
                    assert(out@ =~= seq![c] + rest0);
                }
                Some((out, k))
            },
        }
    }
}

fn parse_string(s: &Vec<char>, i: usize) -> (r: Option<(String, usize)>)
    requires
        i <= s@.len(),
    ensures
        (r matches Some(p) ==> spec_parse_string(s@, i as int) matches Some(q) && p.0@ == q.0 && p.1
            as int == q.1 && i < p.1 <= s@.len()),
        r is None ==> spec_parse_string(s@, i as int) is None,
{
    if i < s.len() && s[i] == '"' {
        match string_body(s, i + 1) {
            None => None,
            Some((cs, j)) => Some((chars_to_string(&cs), j)),
        }
    } else {
        None
    }
}

fn parse_value(s: &Vec<char>, i: usize) -> (r: Option<(JsonValue, usize)>)
    requires
        i <= s@.len(),
    ensures
        (r matches Some(p) ==> spec_parse_value(s@, i as int) matches Some(q) && p.0.model() == q.0
            && p.1 as int == q.1 && i < p.1 <= s@.len()),
        r is None ==> spec_parse_value(s@, i as int) is None,
    decreases s@.len() - i, 0int,
{
    if i >= s.len() {
        return None;
    }
    let c = s[i];
    if c == '"' {
        match parse_string(s, i) {
            None => None,
            Some((st, j)) => Some((JsonValue::Str(st), j)),
        }
    } else if c == 't' {
        if s.len() - i >= 4 && s[i + 1] == 'r' && s[i + 2] == 'u' && s[i + 3] == 'e' {
            Some((JsonValue::Bool(true), i + 4))
        } else {
            None
        }
    } else if c == 'f' {
        if s.len() - i >= 5 && s[i + 1] == 'a' && s[i + 2] == 'l' && s[i + 3] == 's' && s[i + 4]
            == 'e' {
            Some((JsonValue::Bool(false), i + 5))
        } else {
            None
        }
    } else if c == 'n' {
        if s.len() - i >= 4 && s[i + 1] == 'u' && s[i + 2] == 'l' && s[i + 3] == 'l' {
            Some((JsonValue::Null, i + 4))
        } else {
            None
        }
    } else if c == '-' || exec_is_digit(c) {
        parse_number(s, i)
    } else if c == '[' {
        let j = skip_ws(s, i + 1);
        if j < s.len() && s[j] == ']' {
            proof {
                assert(JsonValue::models_of(Seq::<JsonValue>::empty()) =~= Seq::<
                    JsonModel,
                >::empty());
            }
            Some((JsonValue::Arr(Vec::new()), j + 1))
        } else if i < j {
            match parse_elems(s, j) {
                None => None,
                Some((vs, k)) => Some((JsonValue::Arr(vs), k)),
            }
        } else {
            None
        }
    } else if c == '{' {
        let j = skip_ws(s, i + 1);
        if j < s.len() && s[j] == '}' {
            proof {
                assert(JsonValue::member_models_of(Seq::<(String, JsonValue)>::empty()) =~= Seq::<
                    (Seq<char>, JsonModel),
                >::empty());
            }
            Some((JsonValue::Obj(Vec::new()), j + 1))
        } else if i < j {
            match parse_members(s, j) {
                None => None,
                Some((ms, k)) => Some((JsonValue::Obj(ms), k)),
            }
        } else {
            None
        }
    } else {
        None
    }
}

fn parse_elems(s: &Vec<char>, i: usize) -> (r: Option<(Vec<JsonValue>, usize)>)
    requires
        i <= s@.len(),
    ensures
        (r matches Some(p) ==> spec_parse_elems(s@, i as int) matches Some(q)
            && JsonValue::models_of(p.0@) == q.0 && p.1 as int == q.1 && i < p.1 <= s@.len()),
        r is None ==> spec_parse_elems(s@, i as int) is None,
    decreases s@.len() - i, 1int,
{
    match parse_value(s, i) {
        None => None,
        Some((v, j)) => {
            let j2 = skip_ws(s, j);
            if j2 < s.len() && s[j2] == ']' {
                let mut vs: Vec<JsonValue> = Vec::new();
                vs.push(v);
                proof {
                    reveal_with_fuel(JsonValue::models_of, 2);
                    assert(vs@ =~= seq![v]);
                    assert(seq![v].drop_first() =~= Seq::<JsonValue>::empty());
                    assert(JsonValue::models_of(seq![v]) =~= seq![v.model()]);
                }
                Some((vs, j2 + 1))
            } else if j2 < s.len() && s[j2] == ',' {
                let j3 = skip_ws(s, j2 + 1);
                if i < j3 {
                    match parse_elems(s, j3) {
                        None => None,
                        Some((rest, k)) => {
                            let mut vs: Vec<JsonValue> = Vec::new();
                            vs.push(v);
                            let mut rest = rest;
                            let ghost rest0 = rest@;
                            vs.append(&mut rest);
                            proof {
                                reveal_with_fuel(JsonValue::models_of, 2);
                                assert(vs@ =~= seq![v] + rest0);
                                assert((seq![v] + rest0).drop_first() =~= rest0);
                                assert(JsonValue::models_of(seq![v] + rest0) =~= seq![v.model()]
                                    + JsonValue::models_of(rest0));
                            }
                            Some((vs, k))
                        },
                    }
                } else {
                    None
                }
            } else {
                None
            }
        },
    }
}

fn parse_members(s: &Vec<char>, i: usize) -> (r: Option<(Vec<(String, JsonValue)>, usize)>)
    requires
        i <= s@.len(),
    ensures
        (r matches Some(p) ==> spec_parse_members(s@, i as int) matches Some(q)
            && JsonValue::member_models_of(p.0@) == q.0 && p.1 as int == q.1 && i < p.1
            <= s@.len()),
        r is None ==> spec_parse_members(s@, i as int) is None,
    decreases s@.len() - i, 1int,
{
    match parse_string(s, i) {
        None => None,
        Some((key, j)) => {
            let j2 = skip_ws(s, j);
            if !(j2 < s.len() && s[j2] == ':') {
                return None;
            }
            let j3 = skip_ws(s, j2 + 1);
            if i < j3 {
                match parse_value(s, j3) {
                    None => None,
                    Some((v, j4)) => {
                        let j5 = skip_ws(s, j4);
                        if j5 < s.len() && s[j5] == '}' {
                            let mut ms: Vec<(String, JsonValue)> = Vec::new();
                            let ghost keyv = key@;
                            let ghost vm = v.model();
                            ms.push((key, v));
                            proof {
                                reveal_with_fuel(JsonValue::member_models_of, 2);
                                assert(ms@ =~= seq![(ms@[0].0, ms@[0].1)]);
                                assert(seq![(ms@[0].0, ms@[0].1)].drop_first() =~= Seq::<
                                    (String, JsonValue),
                                >::empty());
                                assert(JsonValue::member_models_of(ms@) =~= seq![(keyv, vm)]);
                            }
                            Some((ms, j5 + 1))
                        } else if j5 < s.len() && s[j5] == ',' {
                            let j6 = skip_ws(s, j5 + 1);
                            if i < j6 {
                                match parse_members(s, j6) {
                                    None => None,
                                    Some((rest, k)) => {
                                        let mut ms: Vec<(String, JsonValue)> = Vec::new();
                                        let ghost keyv = key@;
                                        let ghost vm = v.model();
                                        ms.push((key, v));
                                        let mut rest = rest;
                                        let ghost rest0 = rest@;
                                        let ghost one = ms@;
                                        ms.append(&mut rest);
                                        proof {
                                            reveal_with_fuel(JsonValue::member_models_of, 2);
                                            assert(ms@ =~= one + rest0);
                                            assert((one + rest0).drop_first() =~= rest0);
                                            assert(JsonValue::member_models_of(one + rest0)
                                                =~= seq![(keyv, vm)]
                                                + JsonValue::member_models_of(rest0));
                                        }
                                        Some((ms, k))
                                    },
                                }
                            } else {
                                None
                            }
                        } else {
                            None
                        }
                    },
                }
            } else {
                None
            }
        },
    }
}

/// Parses a whole JSON document.
///
/// Returns the parsed value exactly when the text is one well-formed JSON
/// value surrounded by optional whitespace, and `None` otherwise.
pub fn parse_json(text: &str) -> (r: Option<JsonValue>)
    ensures
        (r matches Some(v) ==> spec_parse_json(text@) matches Some(m) && v.model() == m),
        r is None ==> spec_parse_json(text@) is None,
{
    let chars = str_to_chars(text);
    let i = skip_ws(&chars, 0);
    match parse_value(&chars, i) {
        None => None,
        Some((v, j)) => {
            let k = skip_ws(&chars, j);
            if k == chars.len() {
                Some(v)
            } else {
                None
            }
        },
    }
}

} // verus!
