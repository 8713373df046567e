//! Character-level building blocks of the renderers: string comparison, decimal and
//! hexadecimal digits, whitespace trimming and the two string-escaping dialects.

use vstd::prelude::*;
use vstd::string::StringSliceAdditionalSpecFns;
use vstd::utf8::{encode_utf8_decode_utf8, is_ascii_chars};

verus! {

/// `String::push` of the standard library: the character is appended, nothing else changes.
pub assume_specification[ std::string::String::push ](s: &mut std::string::String, c: char)
    ensures
        final(s)@ == old(s)@.push(c),
;

/// Compares two string slices by content.
pub fn str_eq(a: &str, b: &str) -> (r: bool)
    ensures
        r == (a@ == b@),
{
    let x = a.as_bytes();
    let y = b.as_bytes();
    proof {
        encode_utf8_decode_utf8(a@);
        encode_utf8_decode_utf8(b@);
    }
    if x.len() != y.len() {
        return false;
    }
    let mut i: usize = 0;
    while i < x.len()
        invariant
            i <= x@.len(),
            x@.len() == y@.len(),
            x@ == a.spec_bytes(),
            y@ == b.spec_bytes(),
            forall|k: int| 0 <= k < i ==> x@[k] == y@[k],
        decreases x@.len() - i,
    {
        if x[i] != y[i] {
            return false;
        }
        i = i + 1;
    }
    assert(x@ =~= y@);
    true
}

/// The characters of a string slice, in order.
pub fn chars_of(s: &str) -> (v: Vec<char>)
    ensures
        v@ == s@,
{
    let mut v: Vec<char> = Vec::new();
    for c in it: s.chars()
        invariant
            it.seq() == s@,
            v@ == s@.take(it.index() as int),
    {
        v.push(c);
        assert(s@.take(it.index() + 1) =~= s@.take(it.index() as int).push(c));
    }
    assert(s@.take(s@.len() as int) =~= s@);
    v
}

/// Appends the characters `v[from..to]` to `out`.
pub(crate) fn push_chars(out: &mut String, v: &Vec<char>, from: usize, to: usize)
    requires
        from <= to <= v@.len(),
    ensures
        final(out)@ == old(out)@ + v@.subrange(from as int, to as int),
{
    let mut i: usize = from;
    while i < to
        invariant
            from <= i <= to <= v@.len(),
            out@ == old(out)@ + v@.subrange(from as int, i as int),
        decreases to - i,
    {
        out.push(v[i]);
        assert(v@.subrange(from as int, i + 1) =~= v@.subrange(from as int, i as int).push(
            v@[i as int],
        ));
        i = i + 1;
    }
}

/// The decimal digit character for `d < 10`.
pub open spec fn digit_char(d: nat) -> char {
    (48 + d) as char
}

/// Decimal digits of `n`, most significant first, without leading zeros.
pub open spec fn decimal_digits(n: nat) -> Seq<char>
    decreases n,
{
    if n < 10 {
        seq![digit_char(n)]
    } else {
        decimal_digits(n / 10).push(digit_char(n % 10))
    }
}

/// Plain decimal rendering of an integer: a minus sign for negatives, then the digits.
pub open spec fn decimal_text(v: int) -> Seq<char> {
    if v < 0 {
        seq!['-'] + decimal_digits((-v) as nat)
    } else {
        decimal_digits(v as nat)
    }
}

/// The hexadecimal digit character for `d < 16`, in the requested case.
pub open spec fn hex_digit(d: nat, upper: bool) -> char {
    if d < 10 {
        digit_char(d)
    } else if upper {
        (55 + d) as char
    } else {
        (87 + d) as char
    }
}

/// The four hexadecimal digits of `v < 0x10000`, most significant first.
pub open spec fn hex4(v: nat, upper: bool) -> Seq<char>
    recommends
        v < 0x10000,
{
    seq![
        hex_digit(v / 4096 % 16, upper),
        hex_digit(v / 256 % 16, upper),
        hex_digit(v / 16 % 16, upper),
        hex_digit(v % 16, upper),
    ]
}

/// A backslash, `u`, and the four hexadecimal digits of the code unit `v`.
pub open spec fn unicode_escape(v: nat, upper: bool) -> Seq<char>
    recommends
        v < 0x10000,
{
    seq!['\\', 'u'] + hex4(v, upper)
}

/// Control codes: U+0000 to U+001F and U+007F to U+009F.
pub open spec fn is_control_char(c: char) -> bool {
    c as u32 <= 0x1F || 0x7F <= c as u32 <= 0x9F
}

/// Leading half of the UTF-16 surrogate pair for a character beyond U+FFFF.
pub open spec fn high_surrogate(c: char) -> nat
    recommends
        c as u32 > 0xFFFF,
{
    (0xD800 + (c as u32 - 0x10000) / 1024) as nat
}

/// Trailing half of the UTF-16 surrogate pair for a character beyond U+FFFF.
pub open spec fn low_surrogate(c: char) -> nat
    recommends
        c as u32 > 0xFFFF,
{
    (0xDC00 + (c as u32 - 0x10000) % 1024) as nat
}

/// How one character appears inside a quoted string of the general JSON5 rendering:
/// backslash, double quote, newline, carriage return and tab get their short escapes, other
/// control codes an upper-case `\uXXXX`, everything else stands for itself.
pub open spec fn escape_char(c: char) -> Seq<char> {
    if c == '\\' {
        seq!['\\', '\\']
    } else if c == '"' {
        seq!['\\', '"']
    } else if c == '\n' {
        seq!['\\', 'n']
    } else if c == '\r' {
        seq!['\\', 'r']
    } else if c == '\t' {
        seq!['\\', 't']
    } else if is_control_char(c) {
        unicode_escape(c as nat, true)
    } else {
        seq![c]
    }
}

/// How one character appears inside a quoted string of the save-file rendering: as in
/// [`escape_char`], but with lower-case hexadecimal digits, and with every character beyond
/// U+007F written as `\uXXXX`, or as a surrogate pair of two such escapes beyond U+FFFF.
pub open spec fn escape_char_ascii(c: char) -> Seq<char> {
    if c == '\\' {
        seq!['\\', '\\']
    } else if c == '"' {
        seq!['\\', '"']
    } else if c == '\n' {
        seq!['\\', 'n']
    } else if c == '\r' {
        seq!['\\', 'r']
    } else if c == '\t' {
        seq!['\\', 't']
    } else if is_control_char(c) {
        unicode_escape(c as nat, false)
    } else if c as u32 > 0x7F {
        if c as u32 <= 0xFFFF {
            unicode_escape(c as nat, false)
        } else {
            unicode_escape(high_surrogate(c), false) + unicode_escape(low_surrogate(c), false)
        }
    } else {
        seq![c]
    }
}

/// The escapes of every character of `s`, concatenated.
pub open spec fn escaped(s: Seq<char>) -> Seq<char>
    decreases s.len(),
{
    if s.len() == 0 {
        Seq::empty()
    } else {
        escaped(s.drop_last()) + escape_char(s.last())
    }
}

/// The save-file escapes of every character of `s`, concatenated.
pub open spec fn escaped_ascii(s: Seq<char>) -> Seq<char>
    decreases s.len(),
{
    if s.len() == 0 {
        Seq::empty()
    } else {
        escaped_ascii(s.drop_last()) + escape_char_ascii(s.last())
    }
}

/// `s` as a double-quoted string of the general JSON5 rendering.
pub open spec fn quoted(s: Seq<char>) -> Seq<char> {
    seq!['"'] + escaped(s) + seq!['"']
}

/// `s` as a double-quoted string of the save-file rendering.
pub open spec fn quoted_ascii(s: Seq<char>) -> Seq<char> {
    seq!['"'] + escaped_ascii(s) + seq!['"']
}

/// Characters with the Unicode `White_Space` property.
pub open spec fn is_white_space(c: char) -> bool {
    let v = c as u32;
    (0x09 <= v <= 0x0D) || v == 0x20 || v == 0x85 || v == 0xA0 || v == 0x1680 || (0x2000 <= v
        <= 0x200A) || v == 0x2028 || v == 0x2029 || v == 0x202F || v == 0x205F || v == 0x3000
}

/// `s` without its leading whitespace.
pub open spec fn trim_start(s: Seq<char>) -> Seq<char>
    decreases s.len(),
{
    if s.len() > 0 && is_white_space(s[0]) {
        trim_start(s.drop_first())
    } else {
        s
    }
}

/// `s` without its trailing whitespace.
pub open spec fn trim_end(s: Seq<char>) -> Seq<char>
    decreases s.len(),
{
    if s.len() > 0 && is_white_space(s.last()) {
        trim_end(s.drop_last())
    } else {
        s
    }
}

/// `s` without leading and trailing whitespace.
pub open spec fn trimmed(s: Seq<char>) -> Seq<char> {
    trim_end(trim_start(s))
}

fn digit_of(d: u8) -> (c: char)
    requires
        d < 10,
    ensures
        c == digit_char(d as nat),
{
    (48u8 + d) as char
}

fn hex_digit_of(d: u8, upper: bool) -> (c: char)
    requires
        d < 16,
    ensures
        c == hex_digit(d as nat, upper),
{
    if d < 10 {
        (48u8 + d) as char
    } else if upper {
        (55u8 + d) as char
    } else {
        (87u8 + d) as char
    }
}

/// Appends the decimal digits of `n`.
pub fn push_decimal(out: &mut String, n: u64)
    ensures
        final(out)@ == old(out)@ + decimal_digits(n as nat),
    decreases n,
{
    if n >= 10 {
        push_decimal(out, n / 10);
    }
    out.push(digit_of((n % 10) as u8));
    assert(out@ =~= old(out)@ + decimal_digits(n as nat));
}

/// Appends the plain decimal rendering of a signed integer.
pub fn push_signed_decimal(out: &mut String, v: i64)
    ensures
        final(out)@ == old(out)@ + decimal_text(v as int),
{
    if v < 0 {
        out.push('-');
        let magnitude: u64 = ((-(v + 1)) as u64) + 1;
        push_decimal(out, magnitude);
        assert(out@ =~= old(out)@ + decimal_text(v as int));
    } else {
        push_decimal(out, v as u64);
    }
}

/// Appends `\u` and the four hexadecimal digits of `v`.
fn push_unicode_escape(out: &mut String, v: u32, upper: bool)
    requires
        v <= 0xFFFF,
    ensures
        final(out)@ == old(out)@ + unicode_escape(v as nat, upper),
{
    out.push('\\');
    out.push('u');
    out.push(hex_digit_of((v / 4096 % 16) as u8, upper));
    out.push(hex_digit_of((v / 256 % 16) as u8, upper));
    out.push(hex_digit_of((v / 16 % 16) as u8, upper));
    out.push(hex_digit_of((v % 16) as u8, upper));
    assert(out@ =~= old(out)@ + unicode_escape(v as nat, upper));
}

fn is_control(c: char) -> (r: bool)
    ensures
        r == is_control_char(c),
{
    let v: u32 = c as u32;
    v <= 0x1F || (0x7F <= v && v <= 0x9F)
}

/// Whether `c` is whitespace in the sense of [`is_white_space`].
pub fn is_whitespace(c: char) -> (r: bool)
    ensures
        r == is_white_space(c),
{
    let v: u32 = c as u32;
    (0x09 <= v && v <= 0x0D) || v == 0x20 || v == 0x85 || v == 0xA0 || v == 0x1680 || (0x2000
        <= v && v <= 0x200A) || v == 0x2028 || v == 0x2029 || v == 0x202F || v == 0x205F || v
        == 0x3000
}

fn push_escaped_char(out: &mut String, c: char)
    ensures
        final(out)@ == old(out)@ + escape_char(c),
{
    if c == '\\' {
        out.push('\\');
        out.push('\\');
    } else if c == '"' {
        out.push('\\');
        out.push('"');
    } else if c == '\n' {
        out.push('\\');
        out.push('n');
    } else if c == '\r' {
        out.push('\\');
        out.push('r');
    } else if c == '\t' {
        out.push('\\');
        out.push('t');
    } else if is_control(c) {
        push_unicode_escape(out, c as u32, true);
    } else {
        out.push(c);
    }
    assert(out@ =~= old(out)@ + escape_char(c));
}

fn push_escaped_char_ascii(out: &mut String, c: char)
    ensures
        final(out)@ == old(out)@ + escape_char_ascii(c),
{
    let cp: u32 = c as u32;
    if c == '\\' {
        out.push('\\');
        out.push('\\');
    } else if c == '"' {
        out.push('\\');
        out.push('"');
    } else if c == '\n' {
        out.push('\\');
        out.push('n');
    } else if c == '\r' {
        out.push('\\');
        out.push('r');
    } else if c == '\t' {
        out.push('\\');
        out.push('t');
    } else if is_control(c) {
        push_unicode_escape(out, cp, false);
    } else if cp > 0x7F {
        if cp <= 0xFFFF {
            push_unicode_escape(out, cp, false);
        } else {
            let u: u32 = cp - 0x10000;
            let high: u32 = 0xD800 + u / 1024;
            let low: u32 = 0xDC00 + u % 1024;
            push_unicode_escape(out, high, false);
            push_unicode_escape(out, low, false);
        }
    } else {
        out.push(c);
    }
    assert(out@ =~= old(out)@ + escape_char_ascii(c));
}

/// Appends `s` as a double-quoted string of the general JSON5 rendering: only control
/// characters, the double quote and the backslash are escaped.
pub fn write_escaped_string(out: &mut String, s: &str)
    ensures
        final(out)@ == old(out)@ + quoted(s@),
{
    out.push('"');
    for c in it: s.chars()
        invariant
            it.seq() == s@,
            out@ == old(out)@.push('"') + escaped(s@.take(it.index() as int)),
    {
        push_escaped_char(out, c);
        proof {
            let n = it.index() as int;
            assert(s@.take(n + 1).drop_last() =~= s@.take(n));
            assert(s@.take(n + 1).last() == c);
            assert(out@ =~= old(out)@.push('"') + escaped(s@.take(n + 1)));
        }
    }
    assert(s@.take(s@.len() as int) =~= s@);
    out.push('"');
    assert(out@ =~= old(out)@ + quoted(s@));
}

/// Appends `s` as a double-quoted string of the save-file rendering: the output is ASCII
/// only, with lower-case `\uXXXX` escapes and surrogate pairs beyond U+FFFF.
pub fn write_escaped_string_ascii(out: &mut String, s: &str)
    ensures
        final(out)@ == old(out)@ + quoted_ascii(s@),
{
    out.push('"');
    for c in it: s.chars()
        invariant
            it.seq() == s@,
            out@ == old(out)@.push('"') + escaped_ascii(s@.take(it.index() as int)),
    {
        push_escaped_char_ascii(out, c);
        proof {
            let n = it.index() as int;
            assert(s@.take(n + 1).drop_last() =~= s@.take(n));
            assert(s@.take(n + 1).last() == c);
            assert(out@ =~= old(out)@.push('"') + escaped_ascii(s@.take(n + 1)));
        }
    }
    assert(s@.take(s@.len() as int) =~= s@);
    out.push('"');
    assert(out@ =~= old(out)@ + quoted_ascii(s@));
}

/// A copy of `s` without leading and trailing whitespace.
pub fn trimmed_string(s: &str) -> (r: String)
    ensures
        r@ == trimmed(s@),
{
    let v = chars_of(s);
    let mut start: usize = 0;
    assert(v@.skip(0) =~= v@);
    while start < v.len() && is_whitespace(v[start])
        invariant
            start <= v@.len(),
            trim_start(v@) == trim_start(v@.skip(start as int)),
        decreases v@.len() - start,
    {
        assert(v@.skip(start as int).drop_first() =~= v@.skip(start + 1));
        start = start + 1;
    }
    assert(trim_start(v@) == v@.skip(start as int));
    let mut end: usize = v.len();
    assert(v@.subrange(start as int, end as int) =~= v@.skip(start as int));
    while end > start && is_whitespace(v[end - 1])
        invariant
            start <= end <= v@.len(),
            trimmed(v@) == trim_end(v@.subrange(start as int, end as int)),
        decreases end,
    {
        assert(v@.subrange(start as int, end as int).drop_last() =~= v@.subrange(
            start as int,
            end - 1,
        ));
        end = end - 1;
    }
    let mut r = String::new();
    push_chars(&mut r, &v, start, end);
    r
}

/// Decimal digits are ASCII.
pub proof fn lemma_decimal_digits_are_ascii(n: nat)
    ensures
        is_ascii_chars(decimal_digits(n)),
    decreases n,
{
    if n >= 10 {
        lemma_decimal_digits_are_ascii(n / 10);
    }
}

/// The decimal rendering of an integer is ASCII.
pub proof fn lemma_decimal_text_is_ascii(v: int)
    ensures
        is_ascii_chars(decimal_text(v)),
{
    if v < 0 {
        lemma_decimal_digits_are_ascii((-v) as nat);
    } else {
        lemma_decimal_digits_are_ascii(v as nat);
    }
}

/// Whatever the character, its save-file escape is ASCII.
pub proof fn lemma_escape_char_ascii_is_ascii(c: char)
    ensures
        is_ascii_chars(escape_char_ascii(c)),
{
    let e = escape_char_ascii(c);
    assert forall|i: int| 0 <= i < e.len() implies '\0' <= #[trigger] e[i] <= '\u{7f}' by {}
}

/// A string quoted for the save file is ASCII, whatever it holds.
pub proof fn lemma_quoted_ascii_is_ascii(s: Seq<char>)
    ensures
        is_ascii_chars(escaped_ascii(s)),
        is_ascii_chars(quoted_ascii(s)),
    decreases s.len(),
{
    if s.len() > 0 {
        lemma_quoted_ascii_is_ascii(s.drop_last());
        lemma_escape_char_ascii_is_ascii(s.last());
    }
}

/// In the general rendering every character that is neither a control code, a double
/// quote nor a backslash stands for itself.
pub proof fn lemma_escape_char_keeps_printable(c: char)
    requires
        !is_control_char(c),
        c != '"',
        c != '\\',
    ensures
        escape_char(c) == seq![c],
{
}

/// Trimming leaves nothing to trim: the result neither starts nor ends with whitespace.
pub proof fn lemma_trimmed_has_no_outer_whitespace(s: Seq<char>)
    ensures
        trimmed(s).len() > 0 ==> !is_white_space(trimmed(s)[0]) && !is_white_space(
            trimmed(s).last(),
        ),
{
    lemma_trim_start_shape(s);
    lemma_trim_end_shape(trim_start(s));
}

/// `trim_start` drops a prefix of whitespace and stops at the first other character.
pub proof fn lemma_trim_start_shape(s: Seq<char>)
    ensures
        trim_start(s).len() <= s.len(),
        trim_start(s) == s.skip(s.len() - trim_start(s).len()),
        trim_start(s).len() > 0 ==> !is_white_space(trim_start(s)[0]),
        forall|i: int| 0 <= i < s.len() - trim_start(s).len() ==> is_white_space(#[trigger] s[i]),
    decreases s.len(),
{
    if s.len() > 0 && is_white_space(s[0]) {
        let rest = s.drop_first();
        lemma_trim_start_shape(rest);
        let k = rest.len() - trim_start(rest).len();
        assert(rest.skip(k) =~= s.skip(k + 1));
        assert forall|i: int| 0 <= i < s.len() - trim_start(s).len() implies is_white_space(
            #[trigger] s[i],
        ) by {
            if i > 0 {
                assert(s[i] == rest[i - 1]);
            }
        }
    } else {
        assert(s.skip(0) =~= s);
    }
}

/// `trim_end` drops a suffix of whitespace and stops at the last other character; what
/// stands before is untouched.
pub proof fn lemma_trim_end_shape(s: Seq<char>)
    ensures
        trim_end(s).len() <= s.len(),
        trim_end(s) == s.take(trim_end(s).len() as int),
        trim_end(s).len() > 0 ==> !is_white_space(trim_end(s).last()),
        forall|i: int| trim_end(s).len() <= i < s.len() ==> is_white_space(#[trigger] s[i]),
    decreases s.len(),
{
    if s.len() > 0 && is_white_space(s.last()) {
        let rest = s.drop_last();
        lemma_trim_end_shape(rest);
        let k = trim_end(rest).len() as int;
        assert(rest.take(k) =~= s.take(k));
        assert forall|i: int| trim_end(s).len() <= i < s.len() implies is_white_space(
            #[trigger] s[i],
        ) by {
            if i < s.len() - 1 {
                assert(s[i] == rest[i]);
            }
        }
    } else {
        assert(s.take(s.len() as int) =~= s);
    }
}

/// The value of a hexadecimal digit, in either case.
pub open spec fn hex_value(c: char) -> Option<nat> {
    if '0' <= c <= '9' {
        Some((c as u32 - 48) as nat)
    } else if 'a' <= c <= 'f' {
        Some((c as u32 - 87) as nat)
    } else if 'A' <= c <= 'F' {
        Some((c as u32 - 55) as nat)
    } else {
        None
    }
}

/// The code unit that the four hexadecimal digits `e[i..i + 4]` denote.
pub open spec fn hex4_value(e: Seq<char>, i: int) -> Option<nat> {
    if 0 <= i && i + 4 <= e.len() && hex_value(e[i]).is_some() && hex_value(e[i + 1]).is_some()
        && hex_value(e[i + 2]).is_some() && hex_value(e[i + 3]).is_some() {
        Some(
            hex_value(e[i]).unwrap() * 4096 + hex_value(e[i + 1]).unwrap() * 256 + hex_value(
                e[i + 2],
            ).unwrap() * 16 + hex_value(e[i + 3]).unwrap(),
        )
    } else {
        None
    }
}

/// Reads the first character off the body of a quoted string: the character and the
/// number of characters of `e` that spell it. A backslash starts one of the escapes that
/// the renderers write; two `\u` escapes that form a surrogate pair spell one character.
pub open spec fn unescape_first(e: Seq<char>) -> Option<(char, int)> {
    if e.len() == 0 {
        None
    } else if e[0] != '\\' {
        Some((e[0], 1))
    } else if e.len() < 2 {
        None
    } else if e[1] == '\\' {
        Some(('\\', 2))
    } else if e[1] == '"' {
        Some(('"', 2))
    } else if e[1] == 'n' {
        Some(('\n', 2))
    } else if e[1] == 'r' {
        Some(('\r', 2))
    } else if e[1] == 't' {
        Some(('\t', 2))
    } else if e[1] == 'u' {
        match hex4_value(e, 2) {
            Some(unit) => if unit < 0xD800 || unit > 0xDFFF {
                Some((unit as char, 6))
            } else if unit <= 0xDBFF && e.len() >= 12 && e[6] == '\\' && e[7] == 'u' {
                match hex4_value(e, 8) {
                    Some(low) => if 0xDC00 <= low <= 0xDFFF {
                        Some(((0x10000 + (unit - 0xD800) * 1024 + (low - 0xDC00)) as char, 12))
                    } else {
                        None
                    },
                    None => None,
                }
            } else {
                None
            },
            None => None,
        }
    } else {
        None
    }
}

/// Reads the body of a quoted string back into the characters it spells; `None` where it
/// holds a backslash that starts none of the escapes that the renderers write.
pub open spec fn unescaped(e: Seq<char>) -> Option<Seq<char>>
    decreases e.len(),
{
    if e.len() == 0 {
        Some(Seq::empty())
    } else {
        match unescape_first(e) {
            Some((c, n)) => if 0 < n <= e.len() {
                match unescaped(e.skip(n)) {
                    Some(rest) => Some(seq![c] + rest),
                    None => None,
                }
            } else {
                None
            },
            None => None,
        }
    }
}

/// A hexadecimal digit denotes the number it was written for.
proof fn lemma_hex_digit_value(d: nat, upper: bool)
    requires
        d < 16,
    ensures
        hex_value(hex_digit(d, upper)) == Some(d),
{
}

/// The four hexadecimal digits of a code unit add up to it.
proof fn lemma_hex_digits_sum(v: u32)
    requires
        v < 0x10000,
    ensures
        (v / 4096 % 16) * 4096 + (v / 256 % 16) * 256 + (v / 16 % 16) * 16 + v % 16 == v,
        v / 4096 % 16 < 16,
        v / 256 % 16 < 16,
        v / 16 % 16 < 16,
        v % 16 < 16,
{
    assert((v / 4096 % 16) * 4096 + (v / 256 % 16) * 256 + (v / 16 % 16) * 16 + v % 16 == v
        && v / 4096 % 16 < 16 && v / 256 % 16 < 16 && v / 16 % 16 < 16 && v % 16 < 16)
        by (bit_vector)
        requires
            v < 0x10000,
    ;
}

/// A `\uXXXX` escape in front of any text denotes the code unit it was written for.
proof fn lemma_unicode_escape_value(v: nat, upper: bool, rest: Seq<char>)
    requires
        v < 0x10000,
    ensures
        (unicode_escape(v, upper) + rest).len() == 6 + rest.len(),
        (unicode_escape(v, upper) + rest)[0] == '\\',
        (unicode_escape(v, upper) + rest)[1] == 'u',
        hex4_value(unicode_escape(v, upper) + rest, 2) == Some(v),
{
    let e = unicode_escape(v, upper) + rest;
    let d3 = v / 4096 % 16;
    let d2 = v / 256 % 16;
    let d1 = v / 16 % 16;
    let d0 = v % 16;
    lemma_hex_digits_sum(v as u32);
    assert(d3 * 4096 + d2 * 256 + d1 * 16 + d0 == v);
    lemma_hex_digit_value(d3, upper);
    lemma_hex_digit_value(d2, upper);
    lemma_hex_digit_value(d1, upper);
    lemma_hex_digit_value(d0, upper);
    assert(e[2] == hex_digit(d3, upper));
    assert(e[3] == hex_digit(d2, upper));
    assert(e[4] == hex_digit(d1, upper));
    assert(e[5] == hex_digit(d0, upper));
}

/// The save-file escape of a character, in front of any text, reads back as that
/// character.
proof fn lemma_unescape_first_ascii(c: char, rest: Seq<char>)
    ensures
        unescape_first(escape_char_ascii(c) + rest) == Some(
            (c, escape_char_ascii(c).len() as int),
        ),
        escape_char_ascii(c).len() > 0,
{
    let e = escape_char_ascii(c) + rest;
    if c == '\\' || c == '"' || c == '\n' || c == '\r' || c == '\t' {
        assert(e[0] == '\\');
    } else if is_control_char(c) || (c as u32 > 0x7F && c as u32 <= 0xFFFF) {
        lemma_unicode_escape_value(c as nat, false, rest);
    } else if c as u32 > 0xFFFF {
        let high = high_surrogate(c);
        let low = low_surrogate(c);
        let tail = unicode_escape(low, false) + rest;
        assert(e =~= unicode_escape(high, false) + tail);
        lemma_unicode_escape_value(high, false, tail);
        lemma_unicode_escape_value(low, false, rest);
        assert(e[6] == tail[0]);
        assert(e[7] == tail[1]);
        assert(e[8] == tail[2]);
        assert(e[9] == tail[3]);
        assert(e[10] == tail[4]);
        assert(e[11] == tail[5]);
        assert(hex4_value(e, 8) == hex4_value(tail, 2));
    } else {
        assert(e[0] == c);
    }
}

/// The general escape of a character, in front of any text, reads back as that
/// character.
proof fn lemma_unescape_first_general(c: char, rest: Seq<char>)
    ensures
        unescape_first(escape_char(c) + rest) == Some((c, escape_char(c).len() as int)),
        escape_char(c).len() > 0,
{
    let e = escape_char(c) + rest;
    if c == '\\' || c == '"' || c == '\n' || c == '\r' || c == '\t' {
        assert(e[0] == '\\');
    } else if is_control_char(c) {
        lemma_unicode_escape_value(c as nat, true, rest);
    } else {
        assert(e[0] == c);
    }
}

/// The escapes of a string are the escape of its first character followed by the escapes
/// of the others.
proof fn lemma_escaped_ascii_front(s: Seq<char>)
    requires
        s.len() > 0,
    ensures
        escaped_ascii(s) == escape_char_ascii(s[0]) + escaped_ascii(s.drop_first()),
    decreases s.len(),
{
    if s.len() == 1 {
        assert(s.drop_last() =~= Seq::<char>::empty());
        assert(s.drop_first() =~= Seq::<char>::empty());
        assert(escaped_ascii(s) =~= escape_char_ascii(s[0]) + escaped_ascii(s.drop_first()));
    } else {
        lemma_escaped_ascii_front(s.drop_last());
        assert(s.drop_last().drop_first() =~= s.drop_first().drop_last());
        assert(escaped_ascii(s) =~= escape_char_ascii(s[0]) + escaped_ascii(s.drop_first()));
    }
}

proof fn lemma_escaped_front(s: Seq<char>)
    requires
        s.len() > 0,
    ensures
        escaped(s) == escape_char(s[0]) + escaped(s.drop_first()),
    decreases s.len(),
{
    if s.len() == 1 {
        assert(s.drop_last() =~= Seq::<char>::empty());
        assert(s.drop_first() =~= Seq::<char>::empty());
        assert(escaped(s) =~= escape_char(s[0]) + escaped(s.drop_first()));
    } else {
        lemma_escaped_front(s.drop_last());
        assert(s.drop_last().drop_first() =~= s.drop_first().drop_last());
        assert(escaped(s) =~= escape_char(s[0]) + escaped(s.drop_first()));
    }
}

/// Escaping for the save file loses nothing: whatever the string holds, its escaped form
/// reads back as the string itself.
pub proof fn lemma_escaped_ascii_reads_back(s: Seq<char>)
    ensures
        unescaped(escaped_ascii(s)) == Some(s),
    decreases s.len(),
{
    if s.len() > 0 {
        let rest = s.drop_first();
        lemma_escaped_ascii_front(s);
        lemma_unescape_first_ascii(s[0], escaped_ascii(rest));
        lemma_escaped_ascii_reads_back(rest);
        let e = escaped_ascii(s);
        let n = escape_char_ascii(s[0]).len() as int;
        assert(e.skip(n) =~= escaped_ascii(rest));
        assert(seq![s[0]] + rest =~= s);
    }
}

/// Escaping in the general rendering loses nothing either.
pub proof fn lemma_escaped_reads_back(s: Seq<char>)
    ensures
        unescaped(escaped(s)) == Some(s),
    decreases s.len(),
{
    if s.len() > 0 {
        let rest = s.drop_first();
        lemma_escaped_front(s);
        lemma_unescape_first_general(s[0], escaped(rest));
        lemma_escaped_reads_back(rest);
        let e = escaped(s);
        let n = escape_char(s[0]).len() as int;
        assert(e.skip(n) =~= escaped(rest));
        assert(seq![s[0]] + rest =~= s);
    }
}

/// The body of a string quoted for either rendering holds no bare double quote, so the
/// closing quote is the first one that no backslash precedes.
pub proof fn lemma_escape_hides_quotes(c: char)
    ensures
        forall|i: int|
            0 <= i < escape_char(c).len() && #[trigger] escape_char(c)[i] == '"' ==> i == 1
                && escape_char(c)[0] == '\\',
        forall|i: int|
            0 <= i < escape_char_ascii(c).len() && #[trigger] escape_char_ascii(c)[i] == '"'
                ==> i == 1 && escape_char_ascii(c)[0] == '\\',
{
}

} // verus!
