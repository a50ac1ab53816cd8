//! Alphabet symbols and their compact identifiers.
//!
//! A [`Token`] is a named symbol whose optional numeric parameter is parsed
//! once, at construction, from the trailing decimal digits of its name.  A
//! [`TokenId`] packs the token's dense arena index (low 7 bits) together with
//! a "carries a parameter" flag (high bit) into a single byte.

use vstd::prelude::*;

use crate::errors::LSystemError;

verus! {

// ---------------------------------------------------------------------------
// Token names: space detection and trailing-parameter parsing
// ---------------------------------------------------------------------------

/// Whether the name contains a space and is therefore rejected.
pub open spec fn has_space(s: Seq<char>) -> bool {
    exists|i: int| 0 <= i < s.len() && s[i] == ' '
}

/// Whether `c` is a decimal digit `'0'..='9'`.
pub open spec fn is_digit_char(c: char) -> bool {
    48 <= c as int && c as int <= 57
}

/// The numeric value of a decimal digit character.
pub open spec fn digit_val(c: char) -> int {
    c as int - 48
}

/// Length of the rightmost contiguous run of decimal digits of `s`.
pub open spec fn trailing_digits(s: Seq<char>) -> int
    decreases s.len(),
{
    if s.len() == 0 {
        0
    } else if is_digit_char(s.last()) {
        1 + trailing_digits(s.drop_last())
    } else {
        0
    }
}

/// Value of a digit sequence read as a decimal number, most significant
/// digit first.
pub open spec fn digits_value(s: Seq<char>) -> int
    decreases s.len(),
{
    if s.len() == 0 {
        0
    } else {
        digits_value(s.drop_last()) * 10 + digit_val(s.last())
    }
}

/// The parameter encoded in a token name: the value of its trailing digit
/// run, saturated to the largest 8-bit value.
pub open spec fn param_of(s: Seq<char>) -> int {
    let v = digits_value(s.subrange(s.len() - trailing_digits(s), s.len() as int));
    if v > 255 {
        255
    } else {
        v
    }
}

/// `trailing_digits` is exactly the distance from the leftmost position
/// after which every character is a digit.
proof fn lemma_trailing_digits_characterize(s: Seq<char>, start: int)
    requires
        0 <= start <= s.len(),
        forall|j: int| start <= j < s.len() ==> is_digit_char(#[trigger] s[j]),
        start == 0 || !is_digit_char(s[start - 1]),
    ensures
        trailing_digits(s) == s.len() - start,
    decreases s.len(),
{
    if s.len() == start {
        if s.len() > 0 {
            assert(!is_digit_char(s.last()));
        }
    } else {
        assert(is_digit_char(s.last()));
        lemma_trailing_digits_characterize(s.drop_last(), start);
    }
}

/// A run of digits has a non-negative value.
proof fn lemma_digits_value_nonneg(s: Seq<char>)
    requires
        forall|j: int| 0 <= j < s.len() ==> is_digit_char(#[trigger] s[j]),
    ensures
        digits_value(s) >= 0,
    decreases s.len(),
{
    if s.len() > 0 {
        lemma_digits_value_nonneg(s.drop_last());
    }
}

/// Whether `c` is a decimal digit.
fn is_decimal_digit(c: char) -> (r: bool)
    ensures
        r == is_digit_char(c),
{
    let u: u32 = c as u32;
    48 <= u && u <= 57
}

/// Scans `name` for a space character.
fn contains_space(name: &str) -> (r: bool)
    ensures
        r == has_space(name@),
{
    let n: usize = name.unicode_len();
    let mut i: usize = 0;
    while i < n
        invariant
            n == name@.len(),
            0 <= i <= n,
            forall|j: int| 0 <= j < i ==> #[trigger] name@[j] != ' ',
        decreases n - i,
    {
        if name.get_char(i) == ' ' {
            return true;
        }
        i += 1;
    }
    false
}

/// Parses the parameter carried by a token name: the rightmost contiguous
/// run of decimal digits, read as a decimal number and saturated to 255.
pub fn parse_param(name: &str) -> (r: u8)
    ensures
        r as int == param_of(name@),
{
    let n: usize = name.unicode_len();

    // Find the start of the trailing digit run.
    let mut start: usize = n;
    while start > 0 && is_decimal_digit(name.get_char(start - 1))
        invariant
            n == name@.len(),
            0 <= start <= n,
            forall|j: int| start <= j < n ==> is_digit_char(#[trigger] name@[j]),
        decreases start,
    {
        start -= 1;
    }
    proof {
        lemma_trailing_digits_characterize(name@, start as int);
    }

    // Accumulate the run's value left to right, clamped just above the
    // 8-bit range so that saturation is detected without overflow.
    let mut val: u32 = 0;
    let mut j: usize = start;
    while j < n
        invariant
            n == name@.len(),
            start <= j <= n,
            forall|jj: int| start <= jj < n ==> is_digit_char(#[trigger] name@[jj]),
            clamped_run_value(name@.subrange(start as int, j as int), val as int),
        decreases n - j,
    {
        let c = name.get_char(j);
        let d: u32 = (c as u32) - 48;
        proof {
            let pre = name@.subrange(start as int, j as int);
            let next = name@.subrange(start as int, j + 1 as int);
            assert(next.drop_last() =~= pre);
            lemma_digits_value_nonneg(pre);
        }
        val = val * 10 + d;
        if val > 255 {
            val = 256;
        }
        j += 1;
    }

    proof {
        assert(name@.subrange(start as int, n as int) =~= name@.subrange(
            name@.len() - trailing_digits(name@),
            name@.len() as int,
        ));
    }
    if val > 255 {
        255
    } else {
        val as u8
    }
}

/// Relation maintained while accumulating a digit run's value: `val` equals
/// the exact value while it fits the 8-bit range, and sticks at 256 as soon
/// as the exact value exceeds it.
spec fn clamped_run_value(pre: Seq<char>, val: int) -> bool {
    if digits_value(pre) <= 255 {
        val == digits_value(pre)
    } else {
        val == 256
    }
}

// ---------------------------------------------------------------------------
// Token
// ---------------------------------------------------------------------------

/// A named alphabet symbol together with its parsed parameter.
#[derive(Debug, Clone, PartialEq, Eq)]
pub struct Token {
    name: String,
    param: u8,
}

impl Token {
    /// The token's name.
    pub closed spec fn spec_name(self) -> Seq<char> {
        self.name@
    }

    /// The token's parsed parameter.
    pub closed spec fn spec_param(self) -> int {
        self.param as int
    }

    /// Every token holds a space-free name and the parameter parsed from it.
    pub open spec fn wf(self) -> bool {
        &&& !has_space(self.spec_name())
        &&& self.spec_param() == param_of(self.spec_name())
    }

    /// Validates `name` and derives the token's parameter from its trailing
    /// digits; rejects any name containing a space.
    pub fn new(name: &str) -> (r: Result<Token, LSystemError>)
        ensures
            r is Err <==> has_space(name@),
            r matches Err(e) ==> (e matches LSystemError::InvalidToken(s) && s@ == name@),
            r matches Ok(t) ==> t.spec_name() == name@ && t.spec_param() == param_of(name@)
                && t.wf(),
    {
        if contains_space(name) {
            Err(LSystemError::InvalidToken(name.to_owned()))
        } else {
            let param = parse_param(name);
            Ok(Token { name: name.to_owned(), param })
        }
    }

    /// The token's name.
    pub fn name(&self) -> (r: &str)
        ensures
            r@ == self.spec_name(),
    {
        self.name.as_str()
    }

    /// The token's parsed parameter.
    pub fn param(&self) -> (r: u8)
        ensures
            r as int == self.spec_param(),
    {
        self.param
    }
}

// ---------------------------------------------------------------------------
// TokenId
// ---------------------------------------------------------------------------

/// A compact token identifier: the low 7 bits are a dense index into the
/// arena, the high bit flags "this token's parsed parameter is non-zero".
/// Two identifiers are equal iff their full 8-bit encodings are equal.
#[derive(Debug, Clone, Copy, PartialEq, Eq, Hash, Structural)]
pub struct TokenId {
    code: u8,
}

/// The identifier whose index is `value` and whose parameter flag is
/// `has_param`; meaningful for `0 <= value < 128`.
pub closed spec fn spec_encode(value: int, has_param: bool) -> TokenId {
    TokenId { code: (if has_param { value + 128 } else { value }) as u8 }
}

/// The byte encoding of an identifier produced by `spec_encode`.
pub broadcast proof fn lemma_spec_encode_code(value: int, has_param: bool)
    requires
        0 <= value < 128,
    ensures
        (#[trigger] spec_encode(value, has_param)).spec_code() == (if has_param {
            value + 128
        } else {
            value
        }),
{
}

impl TokenId {
    /// The full 8-bit encoding.
    pub closed spec fn spec_code(self) -> u8 {
        self.code
    }

    /// The 7-bit arena index carried by this identifier.
    pub open spec fn spec_value(self) -> int {
        if self.spec_code() >= 128 {
            self.spec_code() - 128
        } else {
            self.spec_code() as int
        }
    }

    /// Whether the parameter flag (high bit) is set.
    pub open spec fn spec_has_param(self) -> bool {
        self.spec_code() >= 128
    }

    /// Packs an arena index below 128 together with the parameter flag.
    /// Decoding with [`TokenId::value`] and [`TokenId::has_param`] returns
    /// exactly the two arguments.
    pub fn new(value: u8, has_param: bool) -> (r: TokenId)
        requires
            value < 128,
        ensures
            r.spec_value() == value as int,
            r.spec_has_param() == has_param,
            r == spec_encode(value as int, has_param),
    {
        let code: u8 = if has_param {
            value | 0x80
        } else {
            value
        };
        proof {
            assert(value < 128 ==> (value | 0x80) == value + 128) by (bit_vector);
        }
        TokenId { code }
    }

    /// The 7-bit arena index (the high bit masked off).
    pub fn value(&self) -> (r: u8)
        ensures
            r as int == self.spec_value(),
    {
        let c: u8 = self.code;
        proof {
            assert(c >= 128 ==> (c & 0x7f) == c - 128) by (bit_vector);
            assert(c < 128 ==> (c & 0x7f) == c) by (bit_vector);
        }
        c & 0x7f
    }

    /// Whether the parameter flag (high bit) is set.
    pub fn has_param(&self) -> (r: bool)
        ensures
            r == self.spec_has_param(),
    {
        let c: u8 = self.code;
        proof {
            assert((c & 0x80 == 0x80) == (c >= 128)) by (bit_vector);
        }
        c & 0x80 == 0x80
    }
}

/// The decimal digits of a non-negative number, most significant first.
pub open spec fn dec_digits(n: int) -> Seq<char>
    decreases n,
{
    if 0 <= n < 10 {
        seq![digit_char_of(n)]
    } else if n >= 10 {
        dec_digits(n / 10).push(digit_char_of(n % 10))
    } else {
        Seq::empty()
    }
}

/// The character for one decimal digit.
pub open spec fn digit_char_of(d: int) -> char {
    ((d + 48) as u8) as char
}

/// The textual form of an identifier: its decimal index, followed by a `p`
/// suffix when the parameter flag is set.
pub open spec fn spec_id_text(id: TokenId) -> Seq<char> {
    dec_digits(id.spec_value()) + (if id.spec_has_param() {
        seq!['p']
    } else {
        Seq::empty()
    })
}

/// One decimal digit as text.
fn digit_str(d: u8) -> (r: &'static str)
    requires
        d < 10,
    ensures
        r@ =~= seq![digit_char_of(d as int)],
{
    proof {
        reveal_strlit("0");
        reveal_strlit("1");
        reveal_strlit("2");
        reveal_strlit("3");
        reveal_strlit("4");
        reveal_strlit("5");
        reveal_strlit("6");
        reveal_strlit("7");
        reveal_strlit("8");
        reveal_strlit("9");
    }
    if d == 0 {
        "0"
    } else if d == 1 {
        "1"
    } else if d == 2 {
        "2"
    } else if d == 3 {
        "3"
    } else if d == 4 {
        "4"
    } else if d == 5 {
        "5"
    } else if d == 6 {
        "6"
    } else if d == 7 {
        "7"
    } else if d == 8 {
        "8"
    } else {
        "9"
    }
}

impl TokenId {
    /// The diagnostic textual form: the index in decimal, with a `p`
    /// suffix when the parameter flag is set.
    pub fn to_text(&self) -> (r: String)
        ensures
            r@ == spec_id_text(*self),
    {
        let v: u8 = self.value();
        let mut out = String::new();
        if v >= 100 {
            out.append(digit_str(v / 100));
        }
        if v >= 10 {
            out.append(digit_str((v / 10) % 10));
        }
        out.append(digit_str(v % 10));
        proof {
            if v < 10 {
                assert(out@ =~= dec_digits(v as int));
            } else if v < 100 {
                assert(1 <= v as int / 10 < 10);
                assert((v as int / 10) % 10 == v as int / 10);
                assert(dec_digits(v as int / 10) =~= seq![digit_char_of(v as int / 10)]);
                assert(dec_digits(v as int) =~= dec_digits(v as int / 10).push(
                    digit_char_of(v as int % 10),
                ));
                assert(out@ =~= dec_digits(v as int));
            } else {
                assert(v as int / 10 / 10 == v as int / 100) by (nonlinear_arith)
                    requires v < 128;
                assert(10 <= v as int / 10 < 100);
                assert(1 <= v as int / 100 < 10);
                assert(dec_digits(v as int / 100) =~= seq![digit_char_of(v as int / 100)]);
                assert(dec_digits(v as int / 10) =~= dec_digits(v as int / 10 / 10).push(
                    digit_char_of((v as int / 10) % 10),
                ));
                assert(dec_digits(v as int) =~= dec_digits(v as int / 10).push(
                    digit_char_of(v as int % 10),
                ));
                assert(out@ =~= dec_digits(v as int));
            }
        }
        if self.has_param() {
            proof {
                reveal_strlit("p");
            }
            out.append("p");
            proof {
                assert(out@ =~= spec_id_text(*self));
            }
        } else {
            proof {
                assert(out@ =~= spec_id_text(*self));
            }
        }
        out
    }
}

/// Two identifiers are equal exactly when their full 8-bit encodings are
/// equal: the parameter flag participates in equality.
pub proof fn lemma_token_id_eq_is_code_eq(a: TokenId, b: TokenId)
    ensures
        (a == b) <==> (a.spec_code() == b.spec_code()),
{
}

/// An identifier is determined by its index and its flag: equal decodings
/// mean equal identifiers.
pub proof fn lemma_token_id_injective(a: TokenId, b: TokenId)
    requires
        a.spec_value() == b.spec_value(),
        a.spec_has_param() == b.spec_has_param(),
    ensures
        a == b,
{
}

/// Every identifier is the encoding of its own index and flag.
pub proof fn lemma_token_id_canonical(id: TokenId)
    ensures
        id == spec_encode(id.spec_value(), id.spec_has_param()),
{
}

// ---------------------------------------------------------------------------
// Copying identifier sequences
// ---------------------------------------------------------------------------

/// Copies a sequence of identifiers element by element.
pub fn copy_ids(src: &Vec<TokenId>) -> (r: Vec<TokenId>)
    ensures
        r@ == src@,
{
    let mut out: Vec<TokenId> = Vec::new();
    let mut i: usize = 0;
    while i < src.len()
        invariant
            0 <= i <= src.len(),
            out@ == src@.subrange(0, i as int),
        decreases src.len() - i,
    {
        out.push(src[i]);
        i += 1;
        proof {
            assert(out@ =~= src@.subrange(0, i as int));
        }
    }
    proof {
        assert(out@ =~= src@);
    }
    out
}

} // verus!
