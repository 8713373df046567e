//! Numbers of a save document and their text.
//!
//! A number keeps the class its literal had: signed integer, unsigned integer or float. A
//! float stands here as its IEEE-754 bit pattern together with the two decimal renderings
//! that the renderers consume; whoever builds a [`TiFloat`] supplies both.

use vstd::prelude::*;
use vstd::string::StringExecFns;
use vstd::utf8::is_ascii_chars;
use crate::text::{
    chars_of, decimal_digits, decimal_text, lemma_decimal_digits_are_ascii,
    lemma_decimal_text_is_ascii, push_chars, push_decimal, push_signed_decimal,
};

verus! {

/// Bit that carries the sign of a 64-bit float.
pub const SIGN_BIT: u64 = 0x8000_0000_0000_0000;

/// Bit pattern of positive infinity; every larger magnitude is a NaN.
pub const INFINITY_BITS: u64 = 0x7FF0_0000_0000_0000;

/// Bit pattern of `1e-4`, below which a nonzero float is written in exponent form.
pub const SMALL_LIMIT_BITS: u64 = 0x3F1A_36E2_EB1C_432D;

/// The bit pattern with its sign bit cleared. Among floats that are not NaN, magnitudes
/// order as their bit patterns do.
pub open spec fn magnitude_bits(bits: u64) -> u64 {
    if bits >= SIGN_BIT {
        (bits - SIGN_BIT) as u64
    } else {
        bits
    }
}

/// The pattern of a NaN: a magnitude beyond that of infinity.
pub open spec fn bits_are_nan(bits: u64) -> bool {
    magnitude_bits(bits) > INFINITY_BITS
}

/// The pattern of positive or negative infinity.
pub open spec fn bits_are_infinite(bits: u64) -> bool {
    magnitude_bits(bits) == INFINITY_BITS
}

/// The sign bit is set.
pub open spec fn bits_are_negative(bits: u64) -> bool {
    bits >= SIGN_BIT
}

/// Nonzero and of magnitude below `1e-4`.
pub open spec fn bits_are_small(bits: u64) -> bool {
    0 < magnitude_bits(bits) < SMALL_LIMIT_BITS
}

/// Mathematical content of a [`TiFloat`].
pub struct FloatView {
    pub bits: u64,
    pub shortest: Seq<char>,
    pub scientific: Seq<char>,
}

/// Mathematical content of a [`TiNumber`].
pub enum NumberView {
    I64(i64),
    U64(u64),
    F64(FloatView),
}

/// A 64-bit float.
#[derive(Debug, PartialEq)]
pub struct TiFloat {
    /// The IEEE-754 bit pattern.
    pub bits: u64,
    /// The shortest decimal text that reads back as this float, in plain notation or, for
    /// very large and very small magnitudes, with a lower-case `e` exponent. Unused for NaN
    /// and the infinities.
    pub shortest: String,
    /// The same digits in exponent form: mantissa, a lower-case `e`, exponent. Unused for
    /// NaN and the infinities.
    pub scientific: String,
}

/// A number that keeps apart signed integers, unsigned integers and floats.
#[derive(Debug, PartialEq)]
pub enum TiNumber {
    I64(i64),
    U64(u64),
    F64(TiFloat),
}

/// The mathematical content of a float.
pub open spec fn float_view(f: TiFloat) -> FloatView {
    FloatView { bits: f.bits, shortest: f.shortest@, scientific: f.scientific@ }
}

/// The mathematical content of a number.
pub open spec fn number_view(n: TiNumber) -> NumberView {
    match n {
        TiNumber::I64(v) => NumberView::I64(v),
        TiNumber::U64(v) => NumberView::U64(v),
        TiNumber::F64(f) => NumberView::F64(float_view(f)),
    }
}

impl View for TiFloat {
    type V = FloatView;

    open spec fn view(&self) -> FloatView {
        float_view(*self)
    }
}

impl View for TiNumber {
    type V = NumberView;

    open spec fn view(&self) -> NumberView {
        number_view(*self)
    }
}

/// The value as a signed 64-bit integer, where it is an integer that fits.
pub open spec fn number_as_i64(n: NumberView) -> Option<i64> {
    match n {
        NumberView::I64(v) => Some(v),
        NumberView::U64(v) => if v <= i64::MAX {
            Some(v as i64)
        } else {
            None
        },
        NumberView::F64(_) => None,
    }
}

/// The class that an integer literal gets: signed where the value fits in 64 signed bits,
/// else unsigned where it fits in 64 unsigned bits. Beyond that the literal is no integer
/// of the document and has to be read as a float.
pub open spec fn integer_class(v: int) -> Option<NumberView> {
    if i64::MIN <= v <= i64::MAX {
        Some(NumberView::I64(v as i64))
    } else if 0 <= v <= u64::MAX {
        Some(NumberView::U64(v as u64))
    } else {
        None
    }
}

/// `s` with every `e` replaced by `E`.
pub open spec fn upper_exponent(s: Seq<char>) -> Seq<char> {
    s.map_values(|c: char| if c == 'e' { 'E' } else { c })
}

/// Position of the first `c` in `s`, or `s.len()` where there is none.
pub open spec fn first_index_of(s: Seq<char>, c: char) -> int
    decreases s.len(),
{
    if s.len() == 0 || s[0] == c {
        0
    } else {
        1 + first_index_of(s.drop_first(), c)
    }
}

/// A decimal digit.
pub open spec fn is_digit(c: char) -> bool {
    '0' <= c <= '9'
}

/// Nothing but decimal digits.
pub open spec fn all_digits(s: Seq<char>) -> bool {
    forall|i: int| 0 <= i < s.len() ==> is_digit(#[trigger] s[i])
}

/// The number that a run of decimal digits denotes.
pub open spec fn digits_value(s: Seq<char>) -> nat
    decreases s.len(),
{
    if s.len() == 0 {
        0
    } else {
        digits_value(s.drop_last()) * 10 + ((s.last() as u32 - 48) as nat)
    }
}

/// Reads an unsigned 32-bit integer: an optional `+`, then at least one decimal digit and
/// nothing else, with a value that fits.
pub open spec fn parse_u32(s: Seq<char>) -> Option<u32> {
    let body = if s.len() > 0 && s[0] == '+' {
        s.skip(1)
    } else {
        s
    };
    if body.len() > 0 && all_digits(body) && digits_value(body) <= u32::MAX {
        Some(digits_value(body) as u32)
    } else {
        None
    }
}

/// The exponent of a float in the save-file rendering: the sign where one is written, then
/// the exponent with at least two digits. An exponent that does not read as a number is
/// kept as it is.
pub open spec fn exponent_text(exp: Seq<char>) -> Seq<char> {
    let signed = exp.len() > 0 && (exp[0] == '+' || exp[0] == '-');
    let digits = if signed {
        exp.skip(1)
    } else {
        exp
    };
    let sign = if signed {
        seq![exp[0]]
    } else {
        Seq::empty()
    };
    sign + (match parse_u32(digits) {
        Some(n) => (if n < 10 {
            seq!['0']
        } else {
            Seq::empty()
        }) + decimal_digits(n as nat),
        None => digits,
    })
}

/// Exponent-form text normalised for the save file: the mantissa, an upper-case `E`, then
/// [`exponent_text`] of what follows the first `e`. Text without an `e` is kept as it is.
pub open spec fn padded_exponent(s: Seq<char>) -> Seq<char> {
    let k = first_index_of(s, 'e');
    if k == s.len() {
        s
    } else {
        s.take(k) + seq!['E'] + exponent_text(s.skip(k + 1))
    }
}

/// Text of a float in the general JSON5 rendering.
pub open spec fn json5_float_text(f: FloatView) -> Seq<char> {
    if bits_are_nan(f.bits) {
        "NaN"@
    } else if bits_are_infinite(f.bits) {
        if bits_are_negative(f.bits) {
            "-Infinity"@
        } else {
            "Infinity"@
        }
    } else {
        upper_exponent(f.shortest)
    }
}

/// Text of a float in the save-file rendering: nonzero magnitudes below `1e-4` go in
/// exponent form with a padded exponent, all others as in the general rendering.
pub open spec fn ti_float_text(f: FloatView) -> Seq<char> {
    if !bits_are_nan(f.bits) && !bits_are_infinite(f.bits) && bits_are_small(f.bits) {
        padded_exponent(f.scientific)
    } else {
        json5_float_text(f)
    }
}

/// Text of a number in the general JSON5 rendering.
pub open spec fn json5_number_text(n: NumberView) -> Seq<char> {
    match n {
        NumberView::I64(v) => decimal_text(v as int),
        NumberView::U64(v) => decimal_text(v as int),
        NumberView::F64(f) => json5_float_text(f),
    }
}

/// Text of a number in the save-file rendering. Integers are plain decimal in both.
pub open spec fn ti_number_text(n: NumberView) -> Seq<char> {
    match n {
        NumberView::I64(v) => decimal_text(v as int),
        NumberView::U64(v) => decimal_text(v as int),
        NumberView::F64(f) => ti_float_text(f),
    }
}

impl Clone for TiFloat {
    fn clone(&self) -> (r: Self)
        ensures
            r@ == self@,
    {
        TiFloat {
            bits: self.bits,
            shortest: self.shortest.clone(),
            scientific: self.scientific.clone(),
        }
    }
}

impl Clone for TiNumber {
    fn clone(&self) -> (r: Self)
        ensures
            r@ == self@,
    {
        match self {
            TiNumber::I64(v) => TiNumber::I64(*v),
            TiNumber::U64(v) => TiNumber::U64(*v),
            TiNumber::F64(f) => TiNumber::F64(f.clone()),
        }
    }
}

impl TiFloat {
    /// A float from its bit pattern and its two renderings. The renderings are taken as
    /// they are given.
    pub fn new(bits: u64, shortest: String, scientific: String) -> (r: TiFloat)
        ensures
            r@ == (FloatView { bits, shortest: shortest@, scientific: scientific@ }),
    {
        TiFloat { bits, shortest, scientific }
    }

    /// The IEEE-754 bit pattern.
    pub fn to_bits(&self) -> (r: u64)
        ensures
            r == self@.bits,
    {
        self.bits
    }

    fn magnitude(&self) -> (r: u64)
        ensures
            r == magnitude_bits(self@.bits),
    {
        if self.bits >= SIGN_BIT {
            self.bits - SIGN_BIT
        } else {
            self.bits
        }
    }

    /// Whether the float is a NaN.
    pub fn is_nan(&self) -> (r: bool)
        ensures
            r == bits_are_nan(self@.bits),
    {
        self.magnitude() > INFINITY_BITS
    }

    /// Whether the float is positive or negative infinity.
    pub fn is_infinite(&self) -> (r: bool)
        ensures
            r == bits_are_infinite(self@.bits),
    {
        self.magnitude() == INFINITY_BITS
    }

    /// Whether the float is neither a NaN nor an infinity.
    pub fn is_finite(&self) -> (r: bool)
        ensures
            r == (!bits_are_nan(self@.bits) && !bits_are_infinite(self@.bits)),
    {
        self.magnitude() < INFINITY_BITS
    }

    /// Whether the sign bit is set; it is for negative zero and may be for a NaN.
    pub fn is_sign_negative(&self) -> (r: bool)
        ensures
            r == bits_are_negative(self@.bits),
    {
        self.bits >= SIGN_BIT
    }

    /// Whether the sign bit is clear.
    pub fn is_sign_positive(&self) -> (r: bool)
        ensures
            r == !bits_are_negative(self@.bits),
    {
        self.bits < SIGN_BIT
    }

    /// Whether the save-file rendering writes this float in exponent form.
    pub fn is_small(&self) -> (r: bool)
        ensures
            r == bits_are_small(self@.bits),
    {
        let m = self.magnitude();
        0 < m && m < SMALL_LIMIT_BITS
    }

    /// Appends the float as the general JSON5 rendering writes it.
    pub fn write_json5(&self, out: &mut String)
        ensures
            final(out)@ == old(out)@ + json5_float_text(self@),
    {
        if self.is_nan() {
            out.append("NaN");
        } else if self.is_infinite() {
            if self.is_sign_negative() {
                out.append("-Infinity");
            } else {
                out.append("Infinity");
            }
        } else {
            let v = chars_of(self.shortest.as_str());
            let mut i: usize = 0;
            while i < v.len()
                invariant
                    i <= v@.len(),
                    v@ == self@.shortest,
                    out@ == old(out)@ + upper_exponent(v@).take(i as int),
                decreases v@.len() - i,
            {
                let c = v[i];
                if c == 'e' {
                    out.push('E');
                } else {
                    out.push(c);
                }
                assert(upper_exponent(v@).take(i + 1) =~= upper_exponent(v@).take(i as int).push(
                    upper_exponent(v@)[i as int],
                ));
                i = i + 1;
            }
            assert(upper_exponent(v@).take(v@.len() as int) =~= upper_exponent(v@));
        }
    }

    /// Appends the float as the save-file rendering writes it.
    pub fn write_ti_save(&self, out: &mut String)
        ensures
            final(out)@ == old(out)@ + ti_float_text(self@),
    {
        if self.is_finite() && self.is_small() {
            let v = chars_of(self.scientific.as_str());
            write_padded_exponent(out, &v);
        } else {
            self.write_json5(out);
        }
    }
}

/// Position of the first `c` in `v`, or the length of `v` where there is none.
fn find_char(v: &Vec<char>, c: char) -> (k: usize)
    ensures
        k == first_index_of(v@, c),
        k <= v@.len(),
{
    let mut k: usize = 0;
    assert(v@.skip(0) =~= v@);
    while k < v.len() && v[k] != c
        invariant
            k <= v@.len(),
            first_index_of(v@, c) == k + first_index_of(v@.skip(k as int), c),
        decreases v@.len() - k,
    {
        assert(v@.skip(k as int).drop_first() =~= v@.skip(k + 1));
        k = k + 1;
    }
    k
}

/// Reads `v[from..]` as an unsigned 32-bit integer.
fn parse_u32_from(v: &Vec<char>, from: usize) -> (r: Option<u32>)
    requires
        from <= v@.len(),
    ensures
        r == parse_u32(v@.skip(from as int)),
{
    let ghost s = v@.skip(from as int);
    let mut i: usize = from;
    if i < v.len() && v[i] == '+' {
        i = i + 1;
    }
    let ghost body = v@.skip(i as int);
    assert(body == if s.len() > 0 && s[0] == '+' {
        s.skip(1)
    } else {
        s
    }) by {
        if i > from {
            assert(s.skip(1) =~= v@.skip(i as int));
        }
    }
    if i == v.len() {
        return None;
    }
    let start = i;
    let mut value: u64 = 0;
    while i < v.len()
        invariant
            start <= i <= v@.len(),
            body == v@.skip(start as int),
            body.len() > 0,
            parse_u32(v@.skip(from as int)) == if all_digits(body) && digits_value(body)
                <= u32::MAX {
                Some(digits_value(body) as u32)
            } else {
                None
            },
            all_digits(body.take(i - start)),
            value == digits_value(body.take(i - start)),
            value <= u32::MAX,
        decreases v@.len() - i,
    {
        let c = v[i];
        let ghost prefix = body.take(i - start + 1);
        assert(prefix.drop_last() =~= body.take(i - start));
        assert(prefix.last() == c);
        if c < '0' || c > '9' {
            assert(!is_digit(body[i - start]));
            return None;
        }
        let d: u64 = (c as u32 - 48) as u64;
        value = value * 10 + d;
        if value > 0xFFFF_FFFF {
            proof {
                if all_digits(body) {
                    lemma_digits_value_grows(body, i - start + 1);
                }
            }
            return None;
        }
        i = i + 1;
    }
    assert(body.take(body.len() as int) =~= body);
    Some(value as u32)
}

/// A prefix of a run of digits denotes no more than the whole run.
proof fn lemma_digits_value_grows(s: Seq<char>, n: int)
    requires
        0 <= n <= s.len(),
        all_digits(s),
    ensures
        digits_value(s.take(n)) <= digits_value(s),
    decreases s.len() - n,
{
    if n < s.len() {
        lemma_digits_value_grows(s, n + 1);
        assert(s.take(n + 1).drop_last() =~= s.take(n));
    } else {
        assert(s.take(n) =~= s);
    }
}

/// Appends [`exponent_text`] of `v[from..]`.
fn write_exponent(out: &mut String, v: &Vec<char>, from: usize)
    requires
        from <= v@.len(),
    ensures
        final(out)@ == old(out)@ + exponent_text(v@.skip(from as int)),
{
    let ghost exp = v@.skip(from as int);
    let mut start: usize = from;
    if from < v.len() && (v[from] == '+' || v[from] == '-') {
        out.push(v[from]);
        start = from + 1;
        assert(exp.skip(1) =~= v@.skip(start as int));
    }
    match parse_u32_from(v, start) {
        Some(n) => {
            if n < 10 {
                out.push('0');
            }
            push_decimal(out, n as u64);
        },
        None => {
            push_chars(out, v, start, v.len());
            assert(v@.subrange(start as int, v@.len() as int) =~= v@.skip(start as int));
        },
    }
    assert(out@ =~= old(out)@ + exponent_text(exp));
}

/// Appends [`padded_exponent`] of `v`.
fn write_padded_exponent(out: &mut String, v: &Vec<char>)
    ensures
        final(out)@ == old(out)@ + padded_exponent(v@),
{
    let k = find_char(v, 'e');
    if k == v.len() {
        push_chars(out, v, 0, k);
        assert(v@.subrange(0, k as int) =~= v@);
    } else {
        push_chars(out, v, 0, k);
        out.push('E');
        write_exponent(out, v, k + 1);
        assert(v@.subrange(0, k as int) =~= v@.take(k as int));
        assert(out@ =~= old(out)@ + padded_exponent(v@));
    }
}

impl TiNumber {
    /// The number for an integer literal of value `v`: signed where it fits, else
    /// unsigned where it fits, else `None`.
    pub fn from_integer(v: i128) -> (r: Option<TiNumber>)
        ensures
            match r {
                Some(n) => integer_class(v as int) == Some(n@),
                None => integer_class(v as int).is_none(),
            },
    {
        if -0x8000_0000_0000_0000 <= v && v <= 0x7FFF_FFFF_FFFF_FFFF {
            Some(TiNumber::I64(v as i64))
        } else if 0 <= v && v <= 0xFFFF_FFFF_FFFF_FFFF {
            Some(TiNumber::U64(v as u64))
        } else {
            None
        }
    }

    /// The value as a signed 64-bit integer, for fields that hold IDs: `None` for floats
    /// and for unsigned values beyond the signed range.
    pub fn as_i64(&self) -> (r: Option<i64>)
        ensures
            r == number_as_i64(self@),
    {
        match self {
            TiNumber::I64(v) => Some(*v),
            TiNumber::U64(v) => if *v <= 0x7FFF_FFFF_FFFF_FFFF {
                Some(*v as i64)
            } else {
                None
            },
            TiNumber::F64(_) => None,
        }
    }

    /// Appends the number as the general JSON5 rendering writes it.
    pub fn write_json5(&self, out: &mut String)
        ensures
            final(out)@ == old(out)@ + json5_number_text(self@),
    {
        match self {
            TiNumber::I64(v) => push_signed_decimal(out, *v),
            TiNumber::U64(v) => push_decimal(out, *v),
            TiNumber::F64(f) => f.write_json5(out),
        }
    }

    /// Appends the number as the save-file rendering writes it.
    pub fn write_ti_save(&self, out: &mut String)
        ensures
            final(out)@ == old(out)@ + ti_number_text(self@),
    {
        match self {
            TiNumber::I64(v) => push_signed_decimal(out, *v),
            TiNumber::U64(v) => push_decimal(out, *v),
            TiNumber::F64(f) => f.write_ti_save(out),
        }
    }
}

/// An integer literal: an optional minus sign, then at least one decimal digit and nothing
/// else.
pub open spec fn is_integer_literal(s: Seq<char>) -> bool {
    let digits = if s.len() > 0 && s[0] == '-' {
        s.skip(1)
    } else {
        s
    };
    digits.len() > 0 && all_digits(digits)
}

/// The integer that an integer literal denotes.
pub open spec fn integer_literal_value(s: Seq<char>) -> int {
    if s.len() > 0 && s[0] == '-' {
        -(digits_value(s.skip(1)) as int)
    } else {
        digits_value(s) as int
    }
}

/// The decimal digits of a number are digits, at least one, and denote that number.
pub proof fn lemma_decimal_digits_read_back(n: nat)
    ensures
        decimal_digits(n).len() > 0,
        all_digits(decimal_digits(n)),
        digits_value(decimal_digits(n)) == n,
        n >= 10 ==> decimal_digits(n).len() >= 2,
    decreases n,
{
    if n >= 10 {
        lemma_decimal_digits_read_back(n / 10);
        let d = decimal_digits(n);
        assert(d.drop_last() =~= decimal_digits(n / 10));
        assert(digits_value(d) == digits_value(d.drop_last()) * 10 + (n % 10));
    } else {
        let d = decimal_digits(n);
        assert(d.drop_last() =~= Seq::<char>::empty());
        assert(digits_value(d.drop_last()) == 0);
    }
}

/// Integers keep their class through rendering: in both renderings the text of a signed
/// or unsigned integer is an integer literal, without fraction or exponent, that denotes
/// the same integer.
pub proof fn lemma_integer_text_is_integer_literal(n: NumberView)
    requires
        !(n is F64),
    ensures
        ti_number_text(n) == json5_number_text(n),
        is_integer_literal(ti_number_text(n)),
        n matches NumberView::I64(v) ==> integer_literal_value(ti_number_text(n)) == v,
        n matches NumberView::U64(v) ==> integer_literal_value(ti_number_text(n)) == v,
{
    let v: int = match n {
        NumberView::I64(v) => v as int,
        NumberView::U64(v) => v as int,
        NumberView::F64(_) => 0,
    };
    let text = decimal_text(v);
    if v < 0 {
        lemma_decimal_digits_read_back((-v) as nat);
        assert(text.skip(1) =~= decimal_digits((-v) as nat));
    } else {
        lemma_decimal_digits_read_back(v as nat);
        let d = decimal_digits(v as nat);
        assert(is_digit(d[0]));
    }
}

/// An integer as reading classifies it, which is signed unless only 64 unsigned bits hold
/// it, renders to a literal that is classified as that same number again.
pub proof fn lemma_integer_class_round_trips(n: NumberView)
    requires
        !(n is F64),
        n matches NumberView::U64(v) ==> v > i64::MAX,
    ensures
        integer_class(integer_literal_value(ti_number_text(n))) == Some(n),
        integer_class(integer_literal_value(json5_number_text(n))) == Some(n),
{
    lemma_integer_text_is_integer_literal(n);
}

/// Reading classifies no small value as unsigned: the unsigned class is for what exceeds
/// the signed range.
pub proof fn lemma_integer_class_is_canonical(v: int)
    ensures
        integer_class(v) matches Some(NumberView::I64(s)) ==> s == v,
        integer_class(v) matches Some(NumberView::U64(u)) ==> u == v && u > i64::MAX,
        !(integer_class(v) matches Some(NumberView::F64(_))),
        integer_class(v).is_some() <==> i64::MIN <= v <= u64::MAX,
{
}

/// An exponent that reads as a number is written with at least two digits, behind the
/// sign that the exponent had.
pub proof fn lemma_exponent_text_is_padded(exp: Seq<char>)
    requires
        exp.len() > 0,
        exp[0] == '+' || exp[0] == '-',
        parse_u32(exp.skip(1)).is_some(),
    ensures
        exponent_text(exp).len() >= 3,
        exponent_text(exp)[0] == exp[0],
        all_digits(exponent_text(exp).skip(1)),
        digits_value(exponent_text(exp).skip(1)) == parse_u32(exp.skip(1)).unwrap(),
{
    let n = parse_u32(exp.skip(1)).unwrap() as nat;
    lemma_decimal_digits_read_back(n);
    let d = decimal_digits(n);
    if n < 10 {
        let padded = seq!['0'] + d;
        assert(exponent_text(exp).skip(1) =~= padded);
        assert(d.len() == 1);
        assert(padded.drop_last() =~= seq!['0']);
        assert(seq!['0'].drop_last() =~= Seq::<char>::empty());
        assert(digits_value(seq!['0']) == 0) by {
            assert(digits_value(seq!['0'].drop_last()) == 0);
            assert(seq!['0'].last() == '0');
        }
        assert(padded.last() == d[0]);
        assert(d.drop_last() =~= Seq::<char>::empty());
    } else {
        assert(exponent_text(exp).skip(1) =~= d);
    }
}

/// Exponent-form text is rewritten with an upper-case `E` in place of its first `e`,
/// and with what stood before that `e` untouched.
pub proof fn lemma_padded_exponent_shape(s: Seq<char>)
    ensures
        0 <= first_index_of(s, 'e') <= s.len(),
        first_index_of(s, 'e') < s.len() ==> padded_exponent(s).len() > first_index_of(s, 'e')
            && padded_exponent(s)[first_index_of(s, 'e')] == 'E' && padded_exponent(s).take(
            first_index_of(s, 'e'),
        ) == s.take(first_index_of(s, 'e')),
        first_index_of(s, 'e') == s.len() ==> padded_exponent(s) == s,
{
    lemma_first_index_of(s, 'e');
    let k = first_index_of(s, 'e');
    if k < s.len() {
        assert(padded_exponent(s).take(k) =~= s.take(k));
    }
}

/// What `first_index_of` finds is where the character first occurs.
pub proof fn lemma_first_index_of(s: Seq<char>, c: char)
    ensures
        0 <= first_index_of(s, c) <= s.len(),
        first_index_of(s, c) < s.len() ==> s[first_index_of(s, c)] == c,
        forall|i: int| 0 <= i < first_index_of(s, c) ==> #[trigger] s[i] != c,
    decreases s.len(),
{
    if s.len() == 0 || s[0] == c {
    } else {
        let rest = s.drop_first();
        lemma_first_index_of(rest, c);
        assert forall|i: int| 0 <= i < first_index_of(s, c) implies #[trigger] s[i] != c by {
            if i > 0 {
                assert(s[i] == rest[i - 1]);
            }
        }
    }
}

/// The text of a number in the save-file rendering is ASCII, provided the two renderings
/// that a float carries are.
pub proof fn lemma_ti_number_text_is_ascii(n: NumberView)
    requires
        n matches NumberView::F64(f) ==> is_ascii_chars(f.shortest) && is_ascii_chars(
            f.scientific,
        ),
    ensures
        is_ascii_chars(ti_number_text(n)),
{
    match n {
        NumberView::I64(v) => lemma_decimal_text_is_ascii(v as int),
        NumberView::U64(v) => lemma_decimal_text_is_ascii(v as int),
        NumberView::F64(f) => {
            reveal_strlit("NaN");
            reveal_strlit("Infinity");
            reveal_strlit("-Infinity");
            if !bits_are_nan(f.bits) && !bits_are_infinite(f.bits) && bits_are_small(f.bits) {
                lemma_padded_exponent_is_ascii(f.scientific);
            } else {
                let t = json5_float_text(f);
                assert forall|i: int| 0 <= i < t.len() implies '\0' <= #[trigger] t[i]
                    <= '\u{7f}' by {
                    if !bits_are_nan(f.bits) && !bits_are_infinite(f.bits) {
                        assert(t[i] == if f.shortest[i] == 'e' {
                            'E'
                        } else {
                            f.shortest[i]
                        });
                    }
                }
            }
        },
    }
}

/// Padding the exponent of ASCII text gives ASCII text.
pub proof fn lemma_padded_exponent_is_ascii(s: Seq<char>)
    requires
        is_ascii_chars(s),
    ensures
        is_ascii_chars(padded_exponent(s)),
{
    lemma_first_index_of(s, 'e');
    let k = first_index_of(s, 'e');
    if k < s.len() {
        let exp = s.skip(k + 1);
        let signed = exp.len() > 0 && (exp[0] == '+' || exp[0] == '-');
        let digits = if signed {
            exp.skip(1)
        } else {
            exp
        };
        match parse_u32(digits) {
            Some(n) => {
                lemma_decimal_digits_are_ascii(n as nat);
            },
            None => {},
        }
        let t = padded_exponent(s);
        assert forall|i: int| 0 <= i < t.len() implies '\0' <= #[trigger] t[i] <= '\u{7f}' by {
            let e = exponent_text(exp);
            if i < k {
                assert(t[i] == s[i]);
            } else if i == k {
            } else {
                assert(t[i] == e[i - k - 1]);
                let sign_len: int = if signed {
                    1
                } else {
                    0
                };
                let j = i - k - 1;
                if j < sign_len {
                    assert(e[j] == exp[0]);
                } else {
                    match parse_u32(digits) {
                        Some(n) => {
                            let d = decimal_digits(n as nat);
                            if n < 10 {
                                if j > sign_len {
                                    assert(e[j] == d[j - sign_len - 1]);
                                }
                            } else {
                                assert(e[j] == d[j - sign_len]);
                            }
                        },
                        None => {
                            assert(e[j] == digits[j - sign_len]);
                        },
                    }
                }
            }
        }
    }
}

} // verus!
