//! The two text renderings of a value.
//!
//! The general JSON5 rendering is compact or indented and leaves printable characters as
//! they are. The save-file rendering reproduces what the game writes: four spaces per
//! level, keys always quoted, ASCII only, an empty object spread over three lines, and
//! small floats in exponent form.

use vstd::prelude::*;
use vstd::string::StringExecFns;
use vstd::utf8::is_ascii_chars;
use crate::number::{
    json5_number_text, lemma_ti_number_text_is_ascii, ti_number_text, NumberView,
};
use crate::statics::NL_LF;
use crate::text::{
    lemma_quoted_ascii_is_ascii, quoted, quoted_ascii, write_escaped_string,
    write_escaped_string_ascii,
};
use crate::value::{lemma_array_view, views, TiValue, ValueView};

verus! {

/// `n` space characters.
pub open spec fn spaces(n: nat) -> Seq<char> {
    Seq::new(n, |i: int| ' ')
}

/// `s` where `present` holds, nothing otherwise.
pub open spec fn optional(present: bool, s: Seq<char>) -> Seq<char> {
    if present {
        s
    } else {
        Seq::empty()
    }
}

/// What stands before member `i` of a collection in the general rendering: the indentation
/// when indenting, else a single space between members.
pub open spec fn json5_lead(i: int, indent: nat, pretty: bool) -> Seq<char> {
    if pretty {
        spaces(indent + 4)
    } else {
        optional(i > 0, seq![' '])
    }
}

/// What stands behind member `i` of `len` in the general rendering: a comma unless it is
/// the last, and a line break when indenting.
pub open spec fn json5_trail(i: int, len: nat, pretty: bool) -> Seq<char> {
    optional(i + 1 != len, seq![',']) + optional(pretty, seq!['\n'])
}

/// The general JSON5 rendering of a value that stands at indentation `indent`.
pub open spec fn json5_text(v: ValueView, indent: nat, pretty: bool) -> Seq<char>
    decreases v,
{
    match v {
        ValueView::Null => "null"@,
        ValueView::Bool(b) => if b {
            "true"@
        } else {
            "false"@
        },
        ValueView::Number(n) => json5_number_text(n),
        ValueView::String(s) => quoted(s),
        ValueView::Array(items) => seq!['['] + optional(pretty && items.len() > 0, seq!['\n'])
            + json5_items(items, items.len(), indent, pretty) + optional(
            pretty && items.len() > 0,
            spaces(indent),
        ) + seq![']'],
        ValueView::Object(entries) => seq!['{'] + optional(
            pretty && entries.len() > 0,
            seq!['\n'],
        ) + json5_entries(entries, entries.len(), indent, pretty) + optional(
            pretty && entries.len() > 0,
            spaces(indent),
        ) + seq!['}'],
    }
}

/// Element `i` of an array in the general rendering, with what stands before and behind it.
pub open spec fn json5_item(items: Seq<ValueView>, i: nat, indent: nat, pretty: bool) -> Seq<
    char,
>
    decreases items, i,
{
    if i < items.len() {
        json5_lead(i as int, indent, pretty) + json5_text(items[i as int], indent + 4, pretty)
            + json5_trail(i as int, items.len(), pretty)
    } else {
        Seq::empty()
    }
}

/// The first `n` elements of an array in the general rendering.
pub open spec fn json5_items(items: Seq<ValueView>, n: nat, indent: nat, pretty: bool) -> Seq<
    char,
>
    decreases items, n,
{
    if n == 0 {
        Seq::empty()
    } else {
        json5_items(items, (n - 1) as nat, indent, pretty) + json5_item(
            items,
            (n - 1) as nat,
            indent,
            pretty,
        )
    }
}

/// Entry `i` of an object in the general rendering: the quoted key, a colon and the value,
/// with what stands before and behind them.
pub open spec fn json5_entry(
    entries: Seq<(Seq<char>, ValueView)>,
    i: nat,
    indent: nat,
    pretty: bool,
) -> Seq<char>
    decreases entries, i,
{
    if i < entries.len() {
        json5_lead(i as int, indent, pretty) + quoted(entries[i as int].0) + seq![':']
            + optional(pretty, seq![' ']) + json5_text(entries[i as int].1, indent + 4, pretty)
            + json5_trail(i as int, entries.len(), pretty)
    } else {
        Seq::empty()
    }
}

/// The first `n` entries of an object in the general rendering.
pub open spec fn json5_entries(
    entries: Seq<(Seq<char>, ValueView)>,
    n: nat,
    indent: nat,
    pretty: bool,
) -> Seq<char>
    decreases entries, n,
{
    if n == 0 {
        Seq::empty()
    } else {
        json5_entries(entries, (n - 1) as nat, indent, pretty) + json5_entry(
            entries,
            (n - 1) as nat,
            indent,
            pretty,
        )
    }
}

/// The save-file rendering of a value that stands at indentation `indent`, with `newline`
/// as the line terminator.
pub open spec fn ti_save_text(v: ValueView, indent: nat, newline: Seq<char>) -> Seq<char>
    decreases v,
{
    match v {
        ValueView::Null => "null"@,
        ValueView::Bool(b) => if b {
            "true"@
        } else {
            "false"@
        },
        ValueView::Number(n) => ti_number_text(n),
        ValueView::String(s) => quoted_ascii(s),
        ValueView::Array(items) => if items.len() == 0 {
            seq!['[', ']']
        } else {
            seq!['['] + newline + ti_items(items, items.len(), indent, newline) + spaces(indent)
                + seq![']']
        },
        ValueView::Object(entries) => if entries.len() == 0 {
            seq!['{'] + newline + newline + spaces(indent) + seq!['}']
        } else {
            seq!['{'] + newline + ti_entries(entries, entries.len(), indent, newline) + spaces(
                indent,
            ) + seq!['}']
        },
    }
}

/// Element `i` of an array in the save-file rendering: a line of its own, with a comma
/// unless it is the last.
pub open spec fn ti_item(items: Seq<ValueView>, i: nat, indent: nat, newline: Seq<char>) -> Seq<
    char,
>
    decreases items, i,
{
    if i < items.len() {
        spaces(indent + 4) + ti_save_text(items[i as int], indent + 4, newline) + optional(
            i + 1 != items.len(),
            seq![','],
        ) + newline
    } else {
        Seq::empty()
    }
}

/// The first `n` elements of an array in the save-file rendering.
pub open spec fn ti_items(items: Seq<ValueView>, n: nat, indent: nat, newline: Seq<char>) -> Seq<
    char,
>
    decreases items, n,
{
    if n == 0 {
        Seq::empty()
    } else {
        ti_items(items, (n - 1) as nat, indent, newline) + ti_item(
            items,
            (n - 1) as nat,
            indent,
            newline,
        )
    }
}

/// Entry `i` of an object in the save-file rendering: a line with the quoted key, a colon,
/// a space and the value, and a comma unless it is the last.
pub open spec fn ti_entry(
    entries: Seq<(Seq<char>, ValueView)>,
    i: nat,
    indent: nat,
    newline: Seq<char>,
) -> Seq<char>
    decreases entries, i,
{
    if i < entries.len() {
        spaces(indent + 4) + quoted_ascii(entries[i as int].0) + seq![':', ' '] + ti_save_text(
            entries[i as int].1,
            indent + 4,
            newline,
        ) + optional(i + 1 != entries.len(), seq![',']) + newline
    } else {
        Seq::empty()
    }
}

/// The first `n` entries of an object in the save-file rendering.
pub open spec fn ti_entries(
    entries: Seq<(Seq<char>, ValueView)>,
    n: nat,
    indent: nat,
    newline: Seq<char>,
) -> Seq<char>
    decreases entries, n,
{
    if n == 0 {
        Seq::empty()
    } else {
        ti_entries(entries, (n - 1) as nat, indent, newline) + ti_entry(
            entries,
            (n - 1) as nat,
            indent,
            newline,
        )
    }
}

/// Text written piece by piece behind `before` is `before` followed by the pieces.
proof fn lemma_appended(before: Seq<char>, piece: Seq<char>, x: Seq<char>, now: Seq<char>)
    requires
        now == before + piece + x,
    ensures
        now == before + (piece + x),
{
    assert(now =~= before + (piece + x));
}

/// The indentation one level below `pad`.
fn deeper(pad: &str) -> (inner: String)
    requires
        pad@ == spaces(pad@.len()),
    ensures
        inner@ == spaces(pad@.len() + 4),
{
    let mut inner = String::from_str(pad);
    inner.append("    ");
    proof {
        reveal_strlit("    ");
        assert(inner@ =~= spaces(pad@.len() + 4));
    }
    inner
}

impl TiValue {
    /// Appends the general JSON5 rendering of the value. `pad` is the indentation at which
    /// the value stands.
    fn write_json5(&self, out: &mut String, pad: &str, pretty: bool)
        requires
            pad@ == spaces(pad@.len()),
        ensures
            final(out)@ == old(out)@ + json5_text(self@, pad@.len(), pretty),
        decreases self@,
    {
        let ghost indent = pad@.len();
        match self {
            TiValue::Null => out.append("null"),
            TiValue::Bool(v) => if *v {
                out.append("true")
            } else {
                out.append("false")
            },
            TiValue::Number(n) => n.write_json5(out),
            TiValue::String(s) => write_escaped_string(out, s.as_str()),
            TiValue::Array(values) => {
                let ghost items = views(values@);
                proof {
                    lemma_array_view(*values);
                }
                let n = values.len();
                out.push('[');
                if pretty && n > 0 {
                    out.push('\n');
                }
                let ghost start = out@;
                let inner = deeper(pad);
                let mut i: usize = 0;
                while i < n
                    invariant
                        i <= n,
                        n == values@.len(),
                        items == views(values@),
                        self@ == ValueView::Array(items),
                        indent == pad@.len(),
                        inner@ == spaces(indent + 4),
                        out@ == start + json5_items(items, i as nat, indent, pretty),
                    decreases n - i,
                {
                    let ghost before = out@;
                    if pretty {
                        out.append(inner.as_str());
                    } else if i > 0 {
                        out.push(' ');
                    }
                    let ghost lead = json5_lead(i as int, indent, pretty);
                    assert(out@ =~= before + lead);
                    assert(items[i as int] == values@[i as int]@);
                    assert(decreases_to!(self@ => self@->Array_0));
                    values[i].write_json5(out, inner.as_str(), pretty);
                    let ghost body = lead + json5_text(items[i as int], indent + 4, pretty);
                    proof {
                        lemma_appended(
                            before,
                            lead,
                            json5_text(items[i as int], indent + 4, pretty),
                            out@,
                        );
                    }
                    let ghost valued = out@;
                    if i + 1 != n {
                        out.push(',');
                    }
                    if pretty {
                        out.push('\n');
                    }
                    proof {
                        let trail = json5_trail(i as int, items.len(), pretty);
                        assert(out@ =~= valued + trail);
                        lemma_appended(before, body, trail, out@);
                        lemma_appended(
                            start,
                            json5_items(items, i as nat, indent, pretty),
                            json5_item(items, i as nat, indent, pretty),
                            out@,
                        );
                    }
                    i = i + 1;
                }
                if pretty && n > 0 {
                    out.append(pad);
                }
                out.push(']');
                assert(out@ =~= old(out)@ + json5_text(self@, indent, pretty));
            },
            TiValue::Object(map) => {
                let ghost entries = map@;
                let n = map.len();
                out.push('{');
                if pretty && n > 0 {
                    out.push('\n');
                }
                let ghost start = out@;
                let inner = deeper(pad);
                let mut i: usize = 0;
                while i < n
                    invariant
                        i <= n,
                        n == entries.len(),
                        entries == map@,
                        self@ == ValueView::Object(entries),
                        indent == pad@.len(),
                        inner@ == spaces(indent + 4),
                        out@ == start + json5_entries(entries, i as nat, indent, pretty),
                    decreases n - i,
                {
                    let ghost before = out@;
                    if pretty {
                        out.append(inner.as_str());
                    } else if i > 0 {
                        out.push(' ');
                    }
                    let ghost mut piece = json5_lead(i as int, indent, pretty);
                    assert(out@ =~= before + piece);
                    write_escaped_string(out, map.key_at(i).as_str());
                    proof {
                        lemma_appended(before, piece, quoted(entries[i as int].0), out@);
                        piece = piece + quoted(entries[i as int].0);
                    }
                    out.push(':');
                    proof {
                        assert(out@ =~= before + piece + seq![':']);
                        lemma_appended(before, piece, seq![':'], out@);
                        piece = piece + seq![':'];
                    }
                    let ghost keyed = out@;
                    if pretty {
                        out.push(' ');
                    }
                    proof {
                        assert(out@ =~= keyed + optional(pretty, seq![' ']));
                        lemma_appended(before, piece, optional(pretty, seq![' ']), out@);
                        piece = piece + optional(pretty, seq![' ']);
                    }
                    assert(decreases_to!(self@ => self@->Object_0));
                    assert(decreases_to!(entries[i as int] => entries[i as int].1));
                    map.value_at(i).write_json5(out, inner.as_str(), pretty);
                    proof {
                        let text = json5_text(entries[i as int].1, indent + 4, pretty);
                        lemma_appended(before, piece, text, out@);
                        piece = piece + text;
                    }
                    let ghost valued = out@;
                    if i + 1 != n {
                        out.push(',');
                    }
                    if pretty {
                        out.push('\n');
                    }
                    proof {
                        let trail = json5_trail(i as int, entries.len(), pretty);
                        assert(out@ =~= valued + trail);
                        lemma_appended(before, piece, trail, out@);
                        lemma_appended(
                            start,
                            json5_entries(entries, i as nat, indent, pretty),
                            json5_entry(entries, i as nat, indent, pretty),
                            out@,
                        );
                    }
                    i = i + 1;
                }
                if pretty && n > 0 {
                    out.append(pad);
                }
                out.push('}');
                assert(out@ =~= old(out)@ + json5_text(self@, indent, pretty));
            },
        }
    }

    /// Appends the save-file rendering of the value. `pad` is the indentation at which the
    /// value stands.
    fn write_ti_save(&self, out: &mut String, pad: &str, newline: &str)
        requires
            pad@ == spaces(pad@.len()),
        ensures
            final(out)@ == old(out)@ + ti_save_text(self@, pad@.len(), newline@),
        decreases self@,
    {
        let ghost indent = pad@.len();
        match self {
            TiValue::Null => out.append("null"),
            TiValue::Bool(v) => if *v {
                out.append("true")
            } else {
                out.append("false")
            },
            TiValue::Number(n) => n.write_ti_save(out),
            TiValue::String(s) => write_escaped_string_ascii(out, s.as_str()),
            TiValue::Array(values) => {
                let ghost items = views(values@);
                proof {
                    lemma_array_view(*values);
                }
                let n = values.len();
                out.push('[');
                if n > 0 {
                    out.append(newline);
                    let ghost start = out@;
                    let inner = deeper(pad);
                    let mut i: usize = 0;
                    while i < n
                        invariant
                            i <= n,
                            n == values@.len(),
                            items == views(values@),
                            self@ == ValueView::Array(items),
                            indent == pad@.len(),
                            inner@ == spaces(indent + 4),
                            out@ == start + ti_items(items, i as nat, indent, newline@),
                        decreases n - i,
                    {
                        let ghost before = out@;
                        out.append(inner.as_str());
                        let ghost mut piece = spaces(indent + 4);
                        assert(items[i as int] == values@[i as int]@);
                        assert(decreases_to!(self@ => self@->Array_0));
                        values[i].write_ti_save(out, inner.as_str(), newline);
                        proof {
                            let text = ti_save_text(items[i as int], indent + 4, newline@);
                            lemma_appended(before, piece, text, out@);
                            piece = piece + text;
                        }
                        let ghost valued = out@;
                        if i + 1 != n {
                            out.push(',');
                        }
                        proof {
                            let comma = optional(i + 1 != items.len(), seq![',']);
                            assert(out@ =~= valued + comma);
                            lemma_appended(before, piece, comma, out@);
                            piece = piece + comma;
                        }
                        out.append(newline);
                        proof {
                            lemma_appended(before, piece, newline@, out@);
                            lemma_appended(
                                start,
                                ti_items(items, i as nat, indent, newline@),
                                ti_item(items, i as nat, indent, newline@),
                                out@,
                            );
                        }
                        i = i + 1;
                    }
                    out.append(pad);
                }
                out.push(']');
                assert(out@ =~= old(out)@ + ti_save_text(self@, indent, newline@));
            },
            TiValue::Object(map) => {
                let ghost entries = map@;
                let n = map.len();
                out.push('{');
                if n == 0 {
                    // The game spreads an empty object over three lines.
                    out.append(newline);
                    out.append(newline);
                    out.append(pad);
                    out.push('}');
                    assert(out@ =~= old(out)@ + ti_save_text(self@, indent, newline@));
                    return ;
                }
                out.append(newline);
                let ghost start = out@;
                let inner = deeper(pad);
                let mut i: usize = 0;
                while i < n
                    invariant
                        i <= n,
                        n == entries.len(),
                        entries == map@,
                        self@ == ValueView::Object(entries),
                        indent == pad@.len(),
                        inner@ == spaces(indent + 4),
                        out@ == start + ti_entries(entries, i as nat, indent, newline@),
                    decreases n - i,
                {
                    let ghost before = out@;
                    out.append(inner.as_str());
                    let ghost mut piece = spaces(indent + 4);
                    write_escaped_string_ascii(out, map.key_at(i).as_str());
                    proof {
                        lemma_appended(before, piece, quoted_ascii(entries[i as int].0), out@);
                        piece = piece + quoted_ascii(entries[i as int].0);
                    }
                    let ghost keyed = out@;
                    out.push(':');
                    out.push(' ');
                    proof {
                        assert(out@ =~= keyed + seq![':', ' ']);
                        lemma_appended(before, piece, seq![':', ' '], out@);
                        piece = piece + seq![':', ' '];
                    }
                    assert(decreases_to!(self@ => self@->Object_0));
                    assert(decreases_to!(entries[i as int] => entries[i as int].1));
                    map.value_at(i).write_ti_save(out, inner.as_str(), newline);
                    proof {
                        let text = ti_save_text(entries[i as int].1, indent + 4, newline@);
                        lemma_appended(before, piece, text, out@);
                        piece = piece + text;
                    }
                    let ghost valued = out@;
                    if i + 1 != n {
                        out.push(',');
                    }
                    proof {
                        let comma = optional(i + 1 != entries.len(), seq![',']);
                        assert(out@ =~= valued + comma);
                        lemma_appended(before, piece, comma, out@);
                        piece = piece + comma;
                    }
                    out.append(newline);
                    proof {
                        lemma_appended(before, piece, newline@, out@);
                        lemma_appended(
                            start,
                            ti_entries(entries, i as nat, indent, newline@),
                            ti_entry(entries, i as nat, indent, newline@),
                            out@,
                        );
                    }
                    i = i + 1;
                }
                out.append(pad);
                out.push('}');
                assert(out@ =~= old(out)@ + ti_save_text(self@, indent, newline@));
            },
        }
    }

    /// The indented general JSON5 rendering, with a final line break.
    pub fn to_json5_pretty(&self) -> (r: String)
        ensures
            r@ == json5_text(self@, 0, true) + seq!['\n'],
    {
        let mut out = String::new();
        assert("".view() =~= spaces(0)) by {
            reveal_strlit("");
        }
        self.write_json5(&mut out, "", true);
        out.push('\n');
        assert(out@ =~= json5_text(self@, 0, true) + seq!['\n']);
        out
    }

    /// The general JSON5 rendering on a single line.
    pub fn to_json5_compact(&self) -> (r: String)
        ensures
            r@ == json5_text(self@, 0, false),
    {
        let mut out = String::new();
        assert("".view() =~= spaces(0)) by {
            reveal_strlit("");
        }
        self.write_json5(&mut out, "", false);
        assert(out@ =~= json5_text(self@, 0, false));
        out
    }

    /// The save-file rendering with `\n` as the line terminator.
    pub fn to_ti_save_pretty(&self) -> (r: String)
        ensures
            r@ == ti_save_text(self@, 0, NL_LF@),
    {
        self.to_ti_save_pretty_with_newline(NL_LF)
    }

    /// The save-file rendering: four spaces per level, keys always quoted, ASCII only, an
    /// empty object as `{`, two line terminators, the indentation and `}`.
    pub fn to_ti_save_pretty_with_newline(&self, newline: &str) -> (r: String)
        ensures
            r@ == ti_save_text(self@, 0, newline@),
    {
        let mut out = String::new();
        assert("".view() =~= spaces(0)) by {
            reveal_strlit("");
        }
        self.write_ti_save(&mut out, "", newline);
        assert(out@ =~= ti_save_text(self@, 0, newline@));
        out
    }
}

/// The two renderings that every float inside `v` carries are ASCII.
pub open spec fn float_texts_are_ascii(v: ValueView) -> bool
    decreases v,
{
    match v {
        ValueView::Number(NumberView::F64(f)) => is_ascii_chars(f.shortest) && is_ascii_chars(
            f.scientific,
        ),
        ValueView::Array(items) => forall|i: int|
            0 <= i < items.len() ==> float_texts_are_ascii(#[trigger] items[i]),
        ValueView::Object(entries) => forall|i: int|
            0 <= i < entries.len() ==> float_texts_are_ascii((#[trigger] entries[i]).1),
        _ => true,
    }
}

/// An empty object takes three lines in the save-file rendering: the opening brace, an
/// empty line, and the closing brace at the object's own indentation.
pub proof fn lemma_empty_object_text(indent: nat, newline: Seq<char>)
    ensures
        ti_save_text(ValueView::Object(Seq::empty()), indent, newline) == seq!['{'] + newline
            + newline + spaces(indent) + seq!['}'],
{
}

/// ASCII text followed by ASCII text is ASCII text.
proof fn lemma_ascii_concat(a: Seq<char>, b: Seq<char>)
    requires
        is_ascii_chars(a),
        is_ascii_chars(b),
    ensures
        is_ascii_chars(a + b),
{
}

/// The save-file rendering is ASCII only, whatever the strings of the document hold,
/// provided the line terminator and the renderings that the floats carry are ASCII.
pub proof fn lemma_ti_save_text_is_ascii(v: ValueView, indent: nat, newline: Seq<char>)
    requires
        is_ascii_chars(newline),
        float_texts_are_ascii(v),
    ensures
        is_ascii_chars(ti_save_text(v, indent, newline)),
    decreases v,
{
    match v {
        ValueView::Null => {
            reveal_strlit("null");
        },
        ValueView::Bool(_) => {
            reveal_strlit("true");
            reveal_strlit("false");
        },
        ValueView::Number(n) => {
            lemma_ti_number_text_is_ascii(n);
        },
        ValueView::String(s) => {
            lemma_quoted_ascii_is_ascii(s);
        },
        ValueView::Array(items) => {
            if items.len() > 0 {
                lemma_ti_items_are_ascii(items, items.len(), indent, newline);
                lemma_ascii_concat(seq!['['], newline);
                lemma_ascii_concat(
                    seq!['['] + newline,
                    ti_items(items, items.len(), indent, newline),
                );
                lemma_ascii_concat(
                    seq!['['] + newline + ti_items(items, items.len(), indent, newline),
                    spaces(indent),
                );
            }
        },
        ValueView::Object(entries) => {
            if entries.len() > 0 {
                lemma_ti_entries_are_ascii(entries, entries.len(), indent, newline);
                lemma_ascii_concat(seq!['{'], newline);
                lemma_ascii_concat(
                    seq!['{'] + newline,
                    ti_entries(entries, entries.len(), indent, newline),
                );
                lemma_ascii_concat(
                    seq!['{'] + newline + ti_entries(entries, entries.len(), indent, newline),
                    spaces(indent),
                );
            }
        },
    }
}

proof fn lemma_ti_items_are_ascii(items: Seq<ValueView>, n: nat, indent: nat, newline: Seq<char>)
    requires
        n <= items.len(),
        is_ascii_chars(newline),
        forall|i: int| 0 <= i < items.len() ==> float_texts_are_ascii(#[trigger] items[i]),
    ensures
        is_ascii_chars(ti_items(items, n, indent, newline)),
    decreases items, n,
{
    if n > 0 {
        let i = (n - 1) as nat;
        lemma_ti_items_are_ascii(items, i, indent, newline);
        lemma_ti_save_text_is_ascii(items[i as int], indent + 4, newline);
        let text = ti_save_text(items[i as int], indent + 4, newline);
        let comma = optional(i + 1 != items.len(), seq![',']);
        lemma_ascii_concat(spaces(indent + 4), text);
        lemma_ascii_concat(spaces(indent + 4) + text, comma);
        lemma_ascii_concat(spaces(indent + 4) + text + comma, newline);
        lemma_ascii_concat(
            ti_items(items, i, indent, newline),
            ti_item(items, i, indent, newline),
        );
    }
}

proof fn lemma_ti_entries_are_ascii(
    entries: Seq<(Seq<char>, ValueView)>,
    n: nat,
    indent: nat,
    newline: Seq<char>,
)
    requires
        n <= entries.len(),
        is_ascii_chars(newline),
        forall|i: int| 0 <= i < entries.len() ==> float_texts_are_ascii((#[trigger] entries[i]).1),
    ensures
        is_ascii_chars(ti_entries(entries, n, indent, newline)),
    decreases entries, n,
{
    if n > 0 {
        let i = (n - 1) as nat;
        lemma_ti_entries_are_ascii(entries, i, indent, newline);
        assert(float_texts_are_ascii(entries[i as int].1));
        lemma_ti_save_text_is_ascii(entries[i as int].1, indent + 4, newline);
        lemma_quoted_ascii_is_ascii(entries[i as int].0);
        let key = quoted_ascii(entries[i as int].0);
        let text = ti_save_text(entries[i as int].1, indent + 4, newline);
        let comma = optional(i + 1 != entries.len(), seq![',']);
        lemma_ascii_concat(spaces(indent + 4), key);
        lemma_ascii_concat(spaces(indent + 4) + key, seq![':', ' ']);
        lemma_ascii_concat(spaces(indent + 4) + key + seq![':', ' '], text);
        lemma_ascii_concat(spaces(indent + 4) + key + seq![':', ' '] + text, comma);
        lemma_ascii_concat(spaces(indent + 4) + key + seq![':', ' '] + text + comma, newline);
        lemma_ascii_concat(
            ti_entries(entries, i, indent, newline),
            ti_entry(entries, i, indent, newline),
        );
    }
}

} // verus!
