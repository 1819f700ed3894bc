//! Readable markdown text of decoded values.
use vstd::prelude::*;
use vstd::string::*;

use crate::float::{f32_text, f64_text, fmt_f32_bits, fmt_f64_bits};
use crate::fmt::{decimal, fmt_i64, fmt_padded, fmt_u64, int_text, lemma_decimal_digits, padded_text};
use crate::text::concat3;
use crate::value::{fields_view, lemma_value_view_nested, values_view, Duration, Time, Value, ValueView};

verus! {

/// Whether the indentation of every level that writing `v` from level `indent` reaches can be
/// made: two spaces per level, in at most `isize::MAX` bytes. The fields of a message are one
/// level deeper; the items of an array start again at level zero.
pub open spec fn indent_fits(v: ValueView, indent: nat) -> bool
    decreases v,
{
    2 * indent <= isize::MAX && match v {
        ValueView::Array(items) => items_fit(items),
        ValueView::Message(fields) => fields_fit(fields, indent + 1),
        _ => true,
    }
}

/// Whether every item of a list fits from level zero.
pub open spec fn items_fit(items: Seq<ValueView>) -> bool
    decreases items,
{
    items.len() == 0 || (items_fit(items.subrange(0, items.len() - 1)) && indent_fits(
        items[items.len() - 1],
        0,
    ))
}

/// Whether the value of every field of a list fits from level `indent`.
pub open spec fn fields_fit(fields: Seq<(Seq<char>, ValueView)>, indent: nat) -> bool
    decreases fields,
{
    fields.len() == 0 || (fields_fit(fields.subrange(0, fields.len() - 1), indent) && indent_fits(
        fields[fields.len() - 1].1,
        indent,
    ))
}

/// The indentation of a nesting level: two spaces per level.
pub open spec fn indent_text(indent: nat) -> Seq<char> {
    Seq::new(2 * indent, |_i: int| ' ')
}

/// The markdown text of a value at nesting level `indent`: booleans as a bold check mark or
/// cross, numbers as std writes them (floating-point ones with three decimals), strings in
/// quotes, times and durations with nine-digit nanoseconds, up to three array items on one
/// line, longer arrays by their length, and each field of a message on a line of its own,
/// indented by its level.
pub open spec fn markdown_text(v: ValueView, indent: nat) -> Seq<char>
    decreases v,
{
    match v {
        ValueView::Bool(b) => if b {
            "**✓**"@
        } else {
            "**✗**"@
        },
        ValueView::I8(n) => int_text(n as int),
        ValueView::I16(n) => int_text(n as int),
        ValueView::I32(n) => int_text(n as int),
        ValueView::I64(n) => int_text(n as int),
        ValueView::U8(n) => decimal(n as nat),
        ValueView::U16(n) => decimal(n as nat),
        ValueView::U32(n) => decimal(n as nat),
        ValueView::U64(n) => decimal(n as nat),
        ValueView::F32(bits) => f32_text(bits),
        ValueView::F64(bits) => f64_text(bits),
        ValueView::Str(s) => "\""@ + s + "\""@,
        ValueView::Time(t) => decimal(t.sec as nat) + "."@ + padded_text(t.nsec as int, 9)
            + "s"@,
        ValueView::Duration(d) => "⏱️ "@ + int_text(d.sec as int) + "."@ + padded_text(
            d.nsec as int,
            9,
        ) + "s"@,
        ValueView::Array(items) => if items.len() == 0 {
            "[]"@
        } else if items.len() <= 3 {
            "["@ + joined_items(items) + "]"@
        } else {
            "📊 ["@ + decimal(items.len()) + " items]"@
        },
        ValueView::Message(fields) => if fields.len() == 0 {
            "{}"@
        } else {
            field_lines(fields, indent)
        },
    }
}

/// The texts of values at level zero, separated by `, `.
pub open spec fn joined_items(items: Seq<ValueView>) -> Seq<char>
    decreases items,
{
    if items.len() == 0 {
        Seq::empty()
    } else if items.len() == 1 {
        markdown_text(items[0], 0)
    } else {
        joined_items(items.subrange(0, items.len() - 1)) + ", "@ + markdown_text(
            items[items.len() - 1],
            0,
        )
    }
}

/// One line per field: a line break, the indentation of the level, `- `, the name and `: `, then
/// the value at the next level.
pub open spec fn field_lines(fields: Seq<(Seq<char>, ValueView)>, indent: nat) -> Seq<char>
    decreases fields,
{
    if fields.len() == 0 {
        Seq::empty()
    } else {
        field_lines(fields.subrange(0, fields.len() - 1), indent) + "\n"@ + indent_text(indent)
            + "- "@ + fields[fields.len() - 1].0 + ": "@ + markdown_text(
            fields[fields.len() - 1].1,
            indent + 1,
        )
    }
}

/// A signed integer is written as std writes it, whatever its width: a value below zero as
/// `-` followed by the text of its magnitude as an unsigned number, any other value as that
/// unsigned number; an `i8`, `i16` or `i32` is written as the `i64` of the same value.
pub proof fn lemma_signed_markdown(n: i64, indent: nat)
    ensures
        n < 0 ==> markdown_text(ValueView::I64(n), indent) == seq!['-'] + markdown_text(
            ValueView::U64((-(n as int)) as u64),
            indent,
        ),
        n >= 0 ==> markdown_text(ValueView::I64(n), indent) == markdown_text(
            ValueView::U64(n as u64),
            indent,
        ),
        i32::MIN <= n <= i32::MAX ==> markdown_text(ValueView::I32(n as i32), indent)
            == markdown_text(ValueView::I64(n), indent),
        i16::MIN <= n <= i16::MAX ==> markdown_text(ValueView::I16(n as i16), indent)
            == markdown_text(ValueView::I64(n), indent),
        i8::MIN <= n <= i8::MAX ==> markdown_text(ValueView::I8(n as i8), indent)
            == markdown_text(ValueView::I64(n), indent),
{
}

/// An unsigned integer is written as its decimal digits, whatever its width: a `u8`, `u16` or
/// `u32` is written as the `u64` of the same value, and never starts with `-`.
pub proof fn lemma_unsigned_markdown(n: u64, indent: nat)
    ensures
        markdown_text(ValueView::U64(n), indent) == decimal(n as nat),
        n <= u32::MAX ==> markdown_text(ValueView::U32(n as u32), indent) == markdown_text(
            ValueView::U64(n),
            indent,
        ),
        n <= u16::MAX ==> markdown_text(ValueView::U16(n as u16), indent) == markdown_text(
            ValueView::U64(n),
            indent,
        ),
        n <= u8::MAX ==> markdown_text(ValueView::U8(n as u8), indent) == markdown_text(
            ValueView::U64(n),
            indent,
        ),
        markdown_text(ValueView::U64(n), indent)[0] != '-',
{
    lemma_decimal_digits(n as nat);
}

/// A time is written as the text of its seconds as an unsigned number, `.`, its nanoseconds
/// in nine digits, and `s`; a duration likewise after `⏱️ `, with its seconds as a signed
/// number.
pub proof fn lemma_time_markdown(t: Time, d: Duration, indent: nat)
    ensures
        markdown_text(ValueView::Time(t), indent) == markdown_text(
            ValueView::U64(t.sec as u64),
            indent,
        ) + "."@ + padded_text(t.nsec as int, 9) + "s"@,
        markdown_text(ValueView::Duration(d), indent) == "⏱️ "@ + markdown_text(
            ValueView::I64(d.sec as i64),
            indent,
        ) + "."@ + padded_text(d.nsec as int, 9) + "s"@,
{
}

/// A short array lists its items: one item is written between brackets as it is written at
/// level zero; an array of more than three items is written by its length alone, so two such
/// arrays of one length are written alike.
pub proof fn lemma_array_markdown(a: Seq<ValueView>, b: Seq<ValueView>, indent: nat)
    ensures
        a.len() == 1 ==> markdown_text(ValueView::Array(a), indent) == "["@ + markdown_text(
            a[0],
            0,
        ) + "]"@,
        a.len() > 3 && a.len() == b.len() ==> markdown_text(ValueView::Array(a), indent)
            == markdown_text(ValueView::Array(b), 0),
        a.len() == 0 ==> markdown_text(ValueView::Array(a), indent) == "[]"@,
{
}

/// A list fits exactly when each of its items does.
pub proof fn lemma_items_fit(items: Seq<ValueView>)
    ensures
        items_fit(items) <==> forall|i: int| 0 <= i < items.len() ==> indent_fits(#[trigger] items[i], 0),
    decreases items.len(),
{
    if items.len() > 0 {
        let n = items.len() - 1;
        let t = items.subrange(0, n);
        lemma_items_fit(t);
        if items_fit(items) {
            assert forall|i: int| 0 <= i < items.len() implies indent_fits(#[trigger] items[i], 0) by {
                if i < n {
                    assert(t[i] == items[i]);
                }
            }
        }
        if forall|i: int| 0 <= i < items.len() ==> indent_fits(#[trigger] items[i], 0) {
            assert forall|i: int| 0 <= i < t.len() implies indent_fits(#[trigger] t[i], 0) by {
                assert(t[i] == items[i]);
            }
        }
    }
}

/// A list of fields fits exactly when the value of each does.
pub proof fn lemma_fields_fit(fields: Seq<(Seq<char>, ValueView)>, indent: nat)
    ensures
        fields_fit(fields, indent) <==> forall|i: int|
            0 <= i < fields.len() ==> indent_fits(#[trigger] fields[i].1, indent),
    decreases fields.len(),
{
    if fields.len() > 0 {
        let n = fields.len() - 1;
        let t = fields.subrange(0, n);
        lemma_fields_fit(t, indent);
        if fields_fit(fields, indent) {
            assert forall|i: int| 0 <= i < fields.len() implies indent_fits(#[trigger] fields[i].1, indent) by {
                if i < n {
                    assert(t[i] == fields[i]);
                }
            }
        }
        if forall|i: int| 0 <= i < fields.len() ==> indent_fits(#[trigger] fields[i].1, indent) {
            assert forall|i: int| 0 <= i < t.len() implies indent_fits(#[trigger] t[i].1, indent) by {
                assert(t[i] == fields[i]);
            }
        }
    }
}

/// Two spaces for each level.
fn indentation(indent: usize) -> (r: String)
    ensures
        r@ == indent_text(indent as nat),
{
    let mut out = String::new();
    let mut i: usize = 0;
    proof {
        reveal_strlit("  ");
    }
    assert(out@ =~= indent_text(0));
    while i < indent
        invariant
            i <= indent,
            out@ == indent_text(i as nat),
            "  "@ == seq![' ', ' '],
        decreases indent - i,
    {
        out.append("  ");
        assert(out@ =~= indent_text((i + 1) as nat));
        i = i + 1;
    }
    out
}

/// Formats a value as readable markdown, its fields indented from level `indent` on.
pub fn format_value_as_markdown(value: &Value, indent: usize) -> (r: String)
    requires
        indent_fits(value@, indent as nat),
    ensures
        r@ == markdown_text(value@, indent as nat),
    decreases value,
{
    proof {
        lemma_value_view_nested(*value);
    }
    match value {
        Value::Bool(b) => if *b {
            String::from_str("**✓**")
        } else {
            String::from_str("**✗**")
        },
        Value::I8(n) => fmt_i64(*n as i64),
        Value::I16(n) => fmt_i64(*n as i64),
        Value::I32(n) => fmt_i64(*n as i64),
        Value::I64(n) => fmt_i64(*n),
        Value::U8(n) => fmt_u64(*n as u64),
        Value::U16(n) => fmt_u64(*n as u64),
        Value::U32(n) => fmt_u64(*n as u64),
        Value::U64(n) => fmt_u64(*n),
        Value::F32(bits) => fmt_f32_bits(*bits),
        Value::F64(bits) => fmt_f64_bits(*bits),
        Value::String(s) => concat3("\"", s.as_str(), "\""),
        Value::Time(t) => {
            let mut out = fmt_u64(t.sec as u64);
            out.append(".");
            out.append(fmt_padded(t.nsec as i64, 9).as_str());
            out.append("s");
            out
        },
        Value::Duration(d) => {
            let mut out = concat3("⏱️ ", fmt_i64(d.sec as i64).as_str(), ".");
            out.append(fmt_padded(d.nsec as i64, 9).as_str());
            out.append("s");
            out
        },
        Value::Array(items) => {
            let ghost vs = values_view(items@);
            if items.len() == 0 {
                String::from_str("[]")
            } else if items.len() <= 3 {
                let mut out = String::from_str("[");
                let ghost head = out@;
                let mut i: usize = 0;
                proof {
                    lemma_items_fit(vs);
                }
                while i < items.len()
                    invariant
                        vs == values_view(items@),
                        0 <= i <= items@.len() <= 3,
                        forall|j: int| 0 <= j < items@.len() ==> indent_fits(#[trigger] vs[j], 0),
                        *value == Value::Array(*items),
                        out@ == head + joined_items(vs.take(i as int)),
                    decreases items@.len() - i,
                {
                    let ghost before = out@;
                    if i > 0 {
                        out.append(", ");
                    }
                    proof {
                        lemma_value_view_nested(*value);
                        assert(decreases_to!(*value => items@[i as int]));
                    }
                    assert(items@[i as int]@ == vs[i as int]);
                    let t = format_value_as_markdown(&items[i], 0);
                    out.append(t.as_str());
                    assert(vs.take(i + 1).subrange(0, i as int) =~= vs.take(i as int));
                    assert(out@ =~= head + joined_items(vs.take(i + 1)));
                    i = i + 1;
                }
                assert(vs.take(i as int) =~= vs);
                out.append("]");
                out
            } else {
                concat3("📊 [", fmt_u64(items.len() as u64).as_str(), " items]")
            }
        },
        Value::Message(fields) => {
            let ghost fs = fields_view(fields@);
            if fields.len() == 0 {
                String::from_str("{}")
            } else {
                let prefix = indentation(indent);
                let mut out = String::new();
                let mut i: usize = 0;
                assert(out@ =~= field_lines(fs.take(0), indent as nat));
                proof {
                    lemma_fields_fit(fs, (indent + 1) as nat);
                }
                while i < fields.len()
                    invariant
                        fs == fields_view(fields@),
                        0 <= i <= fields@.len(),
                        prefix@ == indent_text(indent as nat),
                        2 * indent <= isize::MAX,
                        forall|j: int|
                            0 <= j < fields@.len() ==> indent_fits(#[trigger] fs[j].1, (indent + 1) as nat),
                        *value == Value::Message(*fields),
                        out@ == field_lines(fs.take(i as int), indent as nat),
                    decreases fields@.len() - i,
                {
                    out.append("\n");
                    out.append(prefix.as_str());
                    out.append("- ");
                    out.append(fields[i].0.as_str());
                    out.append(": ");
                    proof {
                        lemma_value_view_nested(*value);
                        assert(decreases_to!(*value => fields@[i as int].1));
                    }
                    assert(fields@[i as int].1@ == fs[i as int].1);
                    let t = format_value_as_markdown(&fields[i].1, indent + 1);
                    out.append(t.as_str());
                    assert(fs.take(i + 1).subrange(0, i as int) =~= fs.take(i as int));
                    assert(out@ =~= field_lines(fs.take(i + 1), indent as nat));
                    i = i + 1;
                }
                assert(fs.take(i as int) =~= fs);
                out
            }
        },
    }
}

/// Whether `format_value_as_markdown` can write `value` from level `indent` on: whether the
/// indentation of every level it reaches can be made.
pub fn markdown_fits(value: &Value, indent: usize) -> (r: bool)
    ensures
        r == indent_fits(value@, indent as nat),
    decreases value,
{
    proof {
        lemma_value_view_nested(*value);
    }
    if indent > (isize::MAX as usize) / 2 {
        return false;
    }
    match value {
        Value::Array(items) => {
            let ghost vs = values_view(items@);
            proof {
                lemma_items_fit(vs);
            }
            let mut i: usize = 0;
            while i < items.len()
                invariant
                    vs == values_view(items@),
                    *value == Value::Array(*items),
                    i <= items@.len(),
                    items_fit(vs) <==> forall|j: int| 0 <= j < vs.len() ==> indent_fits(#[trigger] vs[j], 0),
                    forall|j: int| 0 <= j < i ==> indent_fits(#[trigger] vs[j], 0),
                decreases items@.len() - i,
            {
                proof {
                    lemma_value_view_nested(*value);
                    assert(decreases_to!(*value => items@[i as int]));
                }
                assert(items@[i as int]@ == vs[i as int]);
                if !markdown_fits(&items[i], 0) {
                    return false;
                }
                i = i + 1;
            }
            true
        },
        Value::Message(fields) => {
            let ghost fs = fields_view(fields@);
            proof {
                lemma_fields_fit(fs, (indent + 1) as nat);
            }
            let mut i: usize = 0;
            while i < fields.len()
                invariant
                    fs == fields_view(fields@),
                    *value == Value::Message(*fields),
                    i <= fields@.len(),
                    indent <= isize::MAX / 2,
                    fields_fit(fs, (indent + 1) as nat) <==> forall|j: int|
                        0 <= j < fs.len() ==> indent_fits(#[trigger] fs[j].1, (indent + 1) as nat),
                    forall|j: int| 0 <= j < i ==> indent_fits(#[trigger] fs[j].1, (indent + 1) as nat),
                decreases fields@.len() - i,
            {
                proof {
                    lemma_value_view_nested(*value);
                    assert(decreases_to!(*value => fields@[i as int].1));
                }
                assert(fields@[i as int].1@ == fs[i as int].1);
                if !markdown_fits(&fields[i].1, indent + 1) {
                    return false;
                }
                i = i + 1;
            }
            true
        },
        _ => true,
    }
}

} // verus!
