//! Decoding of serialized ROS message data (little-endian, length-prefixed strings and
//! lists) against message definitions.
use byteorder::ByteOrder;
use vstd::prelude::*;
use vstd::string::*;
use vstd::utf8::*;

use crate::definition::{
    FieldCase, FieldCaseView, FieldDef, FieldType, FieldTypeView, I8Variant, MessagePath, MsgDef,
    U8Variant,
};
use crate::error::RosbagError;
use crate::text::str_eq;
use crate::value::{
    fields_keys_unique, fields_view, items_keys_unique, keys_unique, lemma_fields_keys_unique,
    lemma_items_keys_unique, lemma_value_view_nested, names_distinct, value_view, values_view,
    Duration, Time, Value, ValueView,
};

verus! {

/// The value of little-endian bytes.
pub open spec fn le_nat(b: Seq<u8>) -> nat
    decreases b.len(),
{
    if b.len() == 0 {
        0
    } else {
        b[0] as nat + 256 * le_nat(b.drop_first())
    }
}

/// The value of the `n` little-endian bytes of `data` from `pos`.
pub open spec fn le_at(data: Seq<u8>, pos: int, n: int) -> nat {
    le_nat(data.subrange(pos, pos + n))
}

/// byteorder's `LittleEndian::read_u16` on the bytes from `pos`.
#[verifier::external_body]
fn read_u16_le(data: &[u8], pos: usize) -> (r: u16)
    requires
        pos + 2 <= data@.len(),
    ensures
        r == le_at(data@, pos as int, 2),
{
    byteorder::LittleEndian::read_u16(&data[pos..])
}

/// byteorder's `LittleEndian::read_u32` on the bytes from `pos`.
#[verifier::external_body]
fn read_u32_le(data: &[u8], pos: usize) -> (r: u32)
    requires
        pos + 4 <= data@.len(),
    ensures
        r == le_at(data@, pos as int, 4),
{
    byteorder::LittleEndian::read_u32(&data[pos..])
}

/// byteorder's `LittleEndian::read_u64` on the bytes from `pos`.
#[verifier::external_body]
fn read_u64_le(data: &[u8], pos: usize) -> (r: u64)
    requires
        pos + 8 <= data@.len(),
    ensures
        r == le_at(data@, pos as int, 8),
{
    byteorder::LittleEndian::read_u64(&data[pos..])
}

/// byteorder's `LittleEndian::read_i16` on the bytes from `pos` (two's complement).
#[verifier::external_body]
fn read_i16_le(data: &[u8], pos: usize) -> (r: i16)
    requires
        pos + 2 <= data@.len(),
    ensures
        r == le_at(data@, pos as int, 2) as i16,
{
    byteorder::LittleEndian::read_i16(&data[pos..])
}

/// byteorder's `LittleEndian::read_i32` on the bytes from `pos` (two's complement).
#[verifier::external_body]
fn read_i32_le(data: &[u8], pos: usize) -> (r: i32)
    requires
        pos + 4 <= data@.len(),
    ensures
        r == le_at(data@, pos as int, 4) as i32,
{
    byteorder::LittleEndian::read_i32(&data[pos..])
}

/// byteorder's `LittleEndian::read_i64` on the bytes from `pos` (two's complement).
#[verifier::external_body]
fn read_i64_le(data: &[u8], pos: usize) -> (r: i64)
    requires
        pos + 8 <= data@.len(),
    ensures
        r == le_at(data@, pos as int, 8) as i64,
{
    byteorder::LittleEndian::read_i64(&data[pos..])
}

/// What std's `FromUtf8Error` writes for bytes that are not UTF-8.
pub uninterp spec fn utf8_error_text(bytes: Seq<u8>) -> Seq<char>;

/// std's `String::from_utf8` on `data[start..end]`; the error is given as its text.
#[verifier::external_body]
fn utf8_string(data: &[u8], start: usize, end: usize) -> (r: core::result::Result<String, String>)
    requires
        start <= end <= data@.len(),
    ensures
        ({
            let b = data@.subrange(start as int, end as int);
            if valid_utf8(b) {
                r matches Ok(s) && s@ == decode_utf8(b)
            } else {
                r matches Err(t) && t@ == utf8_error_text(b)
            }
        }),
{
    String::from_utf8(data[start..end].to_vec()).map_err(|e| e.to_string())
}

/// Why decoding stopped.
pub enum Fail {
    /// The data ended before a value did.
    Eof,
    /// A string was not UTF-8; the text of std's error.
    BadUtf8(Seq<char>),
    /// No definition of the named message type is known.
    Missing(Seq<char>),
    /// Messages nest deeper than there are definitions, which only recursive definitions allow.
    TooDeep,
}

/// The text of a read past the end of the data.
pub open spec fn eof_text() -> Seq<char> {
    "failed to fill whole buffer"@
}

/// The text of a string that is not UTF-8.
pub open spec fn bad_utf8_text(err: Seq<char>) -> Seq<char> {
    "Invalid UTF-8 sequence in string: "@ + err
}

/// The text of messages that nest without end.
pub open spec fn too_deep_text() -> Seq<char> {
    "Message definitions nest deeper than their number"@
}

/// Whether `e` is the error that reports `f`.
pub open spec fn error_reports(e: RosbagError, f: Fail) -> bool {
    match f {
        Fail::Eof => e matches RosbagError::IoError(m) && m@ == eof_text(),
        Fail::BadUtf8(t) => e matches RosbagError::MessageParsingError(m) && m@ == bad_utf8_text(t),
        Fail::Missing(n) => e matches RosbagError::MissingDefinitionError(m) && m@ == n,
        Fail::TooDeep => e matches RosbagError::MessageParsingError(m) && m@ == too_deep_text(),
    }
}

/// Whether an outcome of decoding is the one that the specification gives.
pub open spec fn outcome_matches(
    r: core::result::Result<Value, RosbagError>,
    s: core::result::Result<ValueView, Fail>,
) -> bool {
    match (r, s) {
        (Ok(v), Ok(w)) => v@ == w,
        (Err(e), Err(f)) => error_reports(e, f),
        _ => false,
    }
}

/// The index of the first definition named `name` (in any package).
pub open spec fn find_local(defs: Seq<MsgDef>, name: Seq<char>) -> Option<int>
    decreases defs.len(),
{
    if defs.len() == 0 {
        None
    } else if defs[0].path.name@ == name {
        Some(0)
    } else {
        match find_local(defs.drop_first(), name) {
            Some(k) => Some(k + 1),
            None => None,
        }
    }
}

/// The index of the first definition of `package/name`.
pub open spec fn find_global(defs: Seq<MsgDef>, package: Seq<char>, name: Seq<char>) -> Option<
    int,
>
    decreases defs.len(),
{
    if defs.len() == 0 {
        None
    } else if defs[0].path.package@ == package && defs[0].path.name@ == name {
        Some(0)
    } else {
        match find_global(defs.drop_first(), package, name) {
            Some(k) => Some(k + 1),
            None => None,
        }
    }
}

/// The fields of a message after storing `v` under `key`: an existing field of that name
/// takes the new value in place, otherwise the field is added at the end.
pub open spec fn insert_field(
    acc: Seq<(Seq<char>, ValueView)>,
    key: Seq<char>,
    v: ValueView,
) -> Seq<(Seq<char>, ValueView)> {
    match key_index(acc, key) {
        Some(j) => acc.update(j, (key, v)),
        None => acc.push((key, v)),
    }
}

/// The index of the first field named `key`.
pub open spec fn key_index(acc: Seq<(Seq<char>, ValueView)>, key: Seq<char>) -> Option<int>
    decreases acc.len(),
{
    if acc.len() == 0 {
        None
    } else if acc[0].0 == key {
        Some(0)
    } else {
        match key_index(acc.drop_first(), key) {
            Some(k) => Some(k + 1),
            None => None,
        }
    }
}

/// Decoding one value of type `ty` from `data` at `pos`: the outcome and the position after
/// it. A read past the end leaves the position at the end of the data. `depth` is how many
/// messages may still be opened.
pub open spec fn spec_single(
    defs: Seq<MsgDef>,
    ty: FieldTypeView,
    data: Seq<u8>,
    pos: int,
    depth: nat,
) -> (core::result::Result<ValueView, Fail>, int)
    decreases depth, 0nat, 0int,
{
    let len = data.len() as int;
    match ty {
        FieldTypeView::Bool => if pos + 1 <= len {
            (Ok(ValueView::Bool(data[pos] != 0)), pos + 1)
        } else {
            (Err(Fail::Eof), len)
        },
        FieldTypeView::I8(_) => if pos + 1 <= len {
            (Ok(ValueView::I8(data[pos] as i8)), pos + 1)
        } else {
            (Err(Fail::Eof), len)
        },
        FieldTypeView::U8(_) => if pos + 1 <= len {
            (Ok(ValueView::U8(data[pos])), pos + 1)
        } else {
            (Err(Fail::Eof), len)
        },
        FieldTypeView::I16 => if pos + 2 <= len {
            (Ok(ValueView::I16(le_at(data, pos, 2) as i16)), pos + 2)
        } else {
            (Err(Fail::Eof), len)
        },
        FieldTypeView::U16 => if pos + 2 <= len {
            (Ok(ValueView::U16(le_at(data, pos, 2) as u16)), pos + 2)
        } else {
            (Err(Fail::Eof), len)
        },
        FieldTypeView::I32 => if pos + 4 <= len {
            (Ok(ValueView::I32(le_at(data, pos, 4) as i32)), pos + 4)
        } else {
            (Err(Fail::Eof), len)
        },
        FieldTypeView::U32 => if pos + 4 <= len {
            (Ok(ValueView::U32(le_at(data, pos, 4) as u32)), pos + 4)
        } else {
            (Err(Fail::Eof), len)
        },
        FieldTypeView::F32 => if pos + 4 <= len {
            (Ok(ValueView::F32(le_at(data, pos, 4) as u32)), pos + 4)
        } else {
            (Err(Fail::Eof), len)
        },
        FieldTypeView::I64 => if pos + 8 <= len {
            (Ok(ValueView::I64(le_at(data, pos, 8) as i64)), pos + 8)
        } else {
            (Err(Fail::Eof), len)
        },
        FieldTypeView::U64 => if pos + 8 <= len {
            (Ok(ValueView::U64(le_at(data, pos, 8) as u64)), pos + 8)
        } else {
            (Err(Fail::Eof), len)
        },
        FieldTypeView::F64 => if pos + 8 <= len {
            (Ok(ValueView::F64(le_at(data, pos, 8) as u64)), pos + 8)
        } else {
            (Err(Fail::Eof), len)
        },
        FieldTypeView::Time => if pos + 8 <= len {
            (
                Ok(
                    ValueView::Time(
                        Time { sec: le_at(data, pos, 4) as u32, nsec: le_at(data, pos + 4, 4) as u32 },
                    ),
                ),
                pos + 8,
            )
        } else {
            (Err(Fail::Eof), len)
        },
        FieldTypeView::Duration => if pos + 8 <= len {
            (
                Ok(
                    ValueView::Duration(
                        Duration {
                            sec: le_at(data, pos, 4) as i32,
                            nsec: le_at(data, pos + 4, 4) as i32,
                        },
                    ),
                ),
                pos + 8,
            )
        } else {
            (Err(Fail::Eof), len)
        },
        FieldTypeView::String => if pos + 4 <= len {
            let n = le_at(data, pos, 4) as int;
            if pos + 4 + n <= len {
                let b = data.subrange(pos + 4, pos + 4 + n);
                if valid_utf8(b) {
                    (Ok(ValueView::Str(decode_utf8(b))), pos + 4 + n)
                } else {
                    (Err(Fail::BadUtf8(utf8_error_text(b))), pos + 4 + n)
                }
            } else {
                (Err(Fail::Eof), len)
            }
        } else {
            (Err(Fail::Eof), len)
        },
        FieldTypeView::LocalMessage(name) => match find_local(defs, name) {
            Some(i) => if depth <= 1 {
                (Err(Fail::TooDeep), pos)
            } else {
                spec_message(defs, defs[i], data, pos, (depth - 1) as nat)
            },
            None => (Err(Fail::Missing(name)), pos),
        },
        FieldTypeView::GlobalMessage(package, name) => match find_global(defs, package, name) {
            Some(i) => if depth <= 1 {
                (Err(Fail::TooDeep), pos)
            } else {
                spec_message(defs, defs[i], data, pos, (depth - 1) as nat)
            },
            None => (Err(Fail::Missing(package + "/"@ + name)), pos),
        },
    }
}

/// Decoding `count` more items of type `ty`, after `items`; an item that fails ends the list
/// (the position stays where that item left it).
pub open spec fn spec_items(
    defs: Seq<MsgDef>,
    ty: FieldTypeView,
    count: nat,
    items: Seq<ValueView>,
    data: Seq<u8>,
    pos: int,
    depth: nat,
) -> (Seq<ValueView>, int)
    decreases depth, 1nat, count,
{
    if count == 0 {
        (items, pos)
    } else {
        let (r, p) = spec_single(defs, ty, data, pos, depth);
        match r {
            Ok(v) => spec_items(defs, ty, (count - 1) as nat, items.push(v), data, p, depth),
            Err(_) => (items, p),
        }
    }
}

/// The length of a list of any length: a little-endian `u32`, or zero when the data ends.
pub open spec fn spec_vector_len(data: Seq<u8>, pos: int) -> (nat, int) {
    if pos + 4 <= data.len() {
        (le_at(data, pos, 4), pos + 4)
    } else {
        (0, data.len() as int)
    }
}

/// Decoding the fields of a message from the `i`-th on, after the fields `acc`; constants
/// are part of the definition and take no data.
pub open spec fn spec_fields(
    defs: Seq<MsgDef>,
    fields: Seq<FieldDef>,
    i: int,
    acc: Seq<(Seq<char>, ValueView)>,
    data: Seq<u8>,
    pos: int,
    depth: nat,
) -> (core::result::Result<ValueView, Fail>, int)
    decreases depth, 2nat, fields.len() - i,
{
    if i < 0 || i >= fields.len() {
        (Ok(ValueView::Message(acc)), pos)
    } else {
        let f = fields[i];
        match f.case@ {
            FieldCaseView::Const(_) => spec_fields(defs, fields, i + 1, acc, data, pos, depth),
            FieldCaseView::Unit => {
                let (r, p) = spec_single(defs, f.datatype@, data, pos, depth);
                match r {
                    Ok(v) => spec_fields(
                        defs,
                        fields,
                        i + 1,
                        insert_field(acc, f.name@, v),
                        data,
                        p,
                        depth,
                    ),
                    Err(e) => (Err(e), p),
                }
            },
            FieldCaseView::Vector => {
                let (n, p) = spec_vector_len(data, pos);
                let (items, p2) = spec_items(defs, f.datatype@, n, Seq::empty(), data, p, depth);
                spec_fields(
                    defs,
                    fields,
                    i + 1,
                    insert_field(acc, f.name@, ValueView::Array(items)),
                    data,
                    p2,
                    depth,
                )
            },
            FieldCaseView::Array(n) => {
                let (items, p2) = spec_items(
                    defs,
                    f.datatype@,
                    n as nat,
                    Seq::empty(),
                    data,
                    pos,
                    depth,
                );
                spec_fields(
                    defs,
                    fields,
                    i + 1,
                    insert_field(acc, f.name@, ValueView::Array(items)),
                    data,
                    p2,
                    depth,
                )
            },
        }
    }
}

/// Decoding a message of definition `def` from `data` at `pos`.
pub open spec fn spec_message(
    defs: Seq<MsgDef>,
    def: MsgDef,
    data: Seq<u8>,
    pos: int,
    depth: nat,
) -> (core::result::Result<ValueView, Fail>, int)
    decreases depth, 3nat, 0int,
{
    spec_fields(defs, def.fields@, 0, Seq::empty(), data, pos, depth)
}

/// Setting a field keeps the names of a list distinct and the names within its values unique.
proof fn lemma_insert_field_unique(acc: Seq<(Seq<char>, ValueView)>, key: Seq<char>, v: ValueView)
    requires
        names_distinct(acc),
        forall|k: int| 0 <= k < acc.len() ==> keys_unique(#[trigger] acc[k].1),
        keys_unique(v),
    ensures
        names_distinct(insert_field(acc, key, v)),
        forall|k: int|
            0 <= k < insert_field(acc, key, v).len() ==> keys_unique(
                #[trigger] insert_field(acc, key, v)[k].1,
            ),
{
    lemma_key_index(acc, key);
}

/// A single decoded value has no message with two fields of one name.
pub proof fn lemma_single_keys_unique(
    defs: Seq<MsgDef>,
    ty: FieldTypeView,
    data: Seq<u8>,
    pos: int,
    depth: nat,
)
    ensures
        spec_single(defs, ty, data, pos, depth).0 matches Ok(v) ==> keys_unique(v),
    decreases depth, 0nat, 0int,
{
    match ty {
        FieldTypeView::LocalMessage(name) => match find_local(defs, name) {
            Some(i) => if depth > 1 {
                lemma_message_keys_unique(defs, defs[i], data, pos, (depth - 1) as nat);
            },
            None => {},
        },
        FieldTypeView::GlobalMessage(package, name) => match find_global(defs, package, name) {
            Some(i) => if depth > 1 {
                lemma_message_keys_unique(defs, defs[i], data, pos, (depth - 1) as nat);
            },
            None => {},
        },
        _ => {},
    }
}

/// Decoding more items keeps the names within every item unique.
pub proof fn lemma_items_keys_unique_decoded(
    defs: Seq<MsgDef>,
    ty: FieldTypeView,
    count: nat,
    items: Seq<ValueView>,
    data: Seq<u8>,
    pos: int,
    depth: nat,
)
    requires
        forall|k: int| 0 <= k < items.len() ==> keys_unique(#[trigger] items[k]),
    ensures
        forall|k: int|
            0 <= k < spec_items(defs, ty, count, items, data, pos, depth).0.len() ==> keys_unique(
                #[trigger] spec_items(defs, ty, count, items, data, pos, depth).0[k],
            ),
    decreases depth, 1nat, count,
{
    if count > 0 {
        let (r, p) = spec_single(defs, ty, data, pos, depth);
        lemma_single_keys_unique(defs, ty, data, pos, depth);
        match r {
            Ok(v) => {
                let next = items.push(v);
                assert(spec_items(defs, ty, count, items, data, pos, depth) == spec_items(
                    defs,
                    ty,
                    (count - 1) as nat,
                    next,
                    data,
                    p,
                    depth,
                ));
                assert forall|k: int| 0 <= k < next.len() implies keys_unique(#[trigger] next[k]) by {
                    if k < items.len() {
                        assert(next[k] == items[k]);
                    }
                }
                lemma_items_keys_unique_decoded(defs, ty, (count - 1) as nat, next, data, p, depth);
            },
            Err(_) => {},
        }
    }
}

/// Decoding the remaining fields of a message gives a message with each name once and unique
/// names within each value.
pub proof fn lemma_fields_keys_unique_decoded(
    defs: Seq<MsgDef>,
    fields: Seq<FieldDef>,
    i: int,
    acc: Seq<(Seq<char>, ValueView)>,
    data: Seq<u8>,
    pos: int,
    depth: nat,
)
    requires
        names_distinct(acc),
        forall|k: int| 0 <= k < acc.len() ==> keys_unique(#[trigger] acc[k].1),
    ensures
        spec_fields(defs, fields, i, acc, data, pos, depth).0 matches Ok(v) ==> keys_unique(v),
    decreases depth, 2nat, fields.len() - i,
{
    if i < 0 || i >= fields.len() {
        lemma_fields_keys_unique(acc);
    } else {
        let f = fields[i];
        match f.case@ {
            FieldCaseView::Const(_) => {
                lemma_fields_keys_unique_decoded(defs, fields, i + 1, acc, data, pos, depth);
            },
            FieldCaseView::Unit => {
                let (r, p) = spec_single(defs, f.datatype@, data, pos, depth);
                lemma_single_keys_unique(defs, f.datatype@, data, pos, depth);
                match r {
                    Ok(v) => {
                        lemma_insert_field_unique(acc, f.name@, v);
                        lemma_fields_keys_unique_decoded(
                            defs,
                            fields,
                            i + 1,
                            insert_field(acc, f.name@, v),
                            data,
                            p,
                            depth,
                        );
                    },
                    Err(_) => {},
                }
            },
            FieldCaseView::Vector => {
                let (n, p) = spec_vector_len(data, pos);
                let (items, p2) = spec_items(defs, f.datatype@, n, Seq::empty(), data, p, depth);
                lemma_items_keys_unique_decoded(defs, f.datatype@, n, Seq::empty(), data, p, depth);
                lemma_items_keys_unique(items);
                lemma_insert_field_unique(acc, f.name@, ValueView::Array(items));
                lemma_fields_keys_unique_decoded(
                    defs,
                    fields,
                    i + 1,
                    insert_field(acc, f.name@, ValueView::Array(items)),
                    data,
                    p2,
                    depth,
                );
            },
            FieldCaseView::Array(n) => {
                let (items, p2) = spec_items(
                    defs,
                    f.datatype@,
                    n as nat,
                    Seq::empty(),
                    data,
                    pos,
                    depth,
                );
                lemma_items_keys_unique_decoded(
                    defs,
                    f.datatype@,
                    n as nat,
                    Seq::empty(),
                    data,
                    pos,
                    depth,
                );
                lemma_items_keys_unique(items);
                lemma_insert_field_unique(acc, f.name@, ValueView::Array(items));
                lemma_fields_keys_unique_decoded(
                    defs,
                    fields,
                    i + 1,
                    insert_field(acc, f.name@, ValueView::Array(items)),
                    data,
                    p2,
                    depth,
                );
            },
        }
    }
}

/// A decoded message holds each field name once, at every level, as a map from names to
/// values does: a later field of a name already taken replaces the earlier value.
pub proof fn lemma_message_keys_unique(
    defs: Seq<MsgDef>,
    def: MsgDef,
    data: Seq<u8>,
    pos: int,
    depth: nat,
)
    ensures
        spec_message(defs, def, data, pos, depth).0 matches Ok(v) ==> keys_unique(v),
    decreases depth, 3nat, 0int,
{
    lemma_fields_keys_unique_decoded(defs, def.fields@, 0, Seq::empty(), data, pos, depth);
}

/// The four little-endian bytes of a `u32`, least significant first.
pub open spec fn u32_le_bytes(u: u32) -> Seq<u8> {
    seq![(u & 0xff) as u8, ((u >> 8) & 0xff) as u8, ((u >> 16) & 0xff) as u8, ((u >> 24) & 0xff) as u8]
}

/// The four little-endian bytes of an `i32` (of its two's complement).
pub open spec fn i32_le_bytes(x: i32) -> Seq<u8> {
    u32_le_bytes(x as u32)
}

/// The little-endian value of the bytes of a `u32` is that `u32`.
pub proof fn lemma_u32_le_bytes(u: u32)
    ensures
        le_nat(u32_le_bytes(u)) == u as nat,
{
    let b = u32_le_bytes(u);
    reveal_with_fuel(le_nat, 5);
    assert(b.drop_first().drop_first().drop_first().drop_first() =~= Seq::<u8>::empty());
    assert(b.drop_first()[0] == b[1] && b.drop_first().drop_first()[0] == b[2]
        && b.drop_first().drop_first().drop_first()[0] == b[3]);
    let b0 = (u & 0xff) as u8;
    let b1 = ((u >> 8) & 0xff) as u8;
    let b2 = ((u >> 16) & 0xff) as u8;
    let b3 = ((u >> 24) & 0xff) as u8;
    assert(b0 as u32 + 256 * (b1 as u32) + 65536 * (b2 as u32) + 16777216 * (b3 as u32) == u)
        by (bit_vector)
        requires
            b0 == (u & 0xff) as u8,
            b1 == ((u >> 8) & 0xff) as u8,
            b2 == ((u >> 16) & 0xff) as u8,
            b3 == ((u >> 24) & 0xff) as u8,
    ;
}

/// Reading the four bytes of an `i32` as an `i32` gives it back.
pub proof fn lemma_i32_le_bytes(x: i32)
    ensures
        le_nat(i32_le_bytes(x)) as i32 == x,
{
    lemma_u32_le_bytes(x as u32);
    assert(((x as u32) as i32) == x) by (bit_vector);
}

/// The two little-endian bytes of a `u16`, least significant first.
pub open spec fn u16_le_bytes(u: u16) -> Seq<u8> {
    seq![(u & 0xff) as u8, ((u >> 8) & 0xff) as u8]
}

/// The eight little-endian bytes of a `u64`, least significant first.
pub open spec fn u64_le_bytes(u: u64) -> Seq<u8> {
    u32_le_bytes((u & 0xffff_ffff) as u32) + u32_le_bytes((u >> 32) as u32)
}

/// The little-endian value of the bytes of a `u16` is that `u16`.
pub proof fn lemma_u16_le_bytes(u: u16)
    ensures
        le_nat(u16_le_bytes(u)) == u as nat,
{
    let b = u16_le_bytes(u);
    reveal_with_fuel(le_nat, 3);
    assert(b.drop_first().drop_first() =~= Seq::<u8>::empty());
    assert(b.drop_first()[0] == b[1]);
    let b0 = (u & 0xff) as u8;
    let b1 = ((u >> 8) & 0xff) as u8;
    assert(b0 as u16 + 256 * (b1 as u16) == u) by (bit_vector)
        requires
            b0 == (u & 0xff) as u8,
            b1 == ((u >> 8) & 0xff) as u8,
    ;
}

/// The little-endian value of a concatenation: the first part, then the second scaled past it.
pub proof fn lemma_le_nat_append(a: Seq<u8>, b: Seq<u8>)
    ensures
        le_nat(a + b) == le_nat(a) + vstd::arithmetic::power::pow(256, a.len()) * le_nat(b),
    decreases a.len(),
{
    if a.len() == 0 {
        assert(a + b =~= b);
        vstd::arithmetic::power::lemma_pow0(256);
    } else {
        assert((a + b).drop_first() =~= a.drop_first() + b);
        lemma_le_nat_append(a.drop_first(), b);
        vstd::arithmetic::power::lemma_pow_adds(256, 1, (a.len() - 1) as nat);
        vstd::arithmetic::power::lemma_pow1(256);
        let p = vstd::arithmetic::power::pow(256, (a.len() - 1) as nat);
        assert(256 * (le_nat(a.drop_first()) + p * le_nat(b)) == 256 * le_nat(a.drop_first()) + (256
            * p) * le_nat(b)) by (nonlinear_arith);
    }
}

/// The little-endian value of the bytes of a `u64` is that `u64`.
pub proof fn lemma_u64_le_bytes(u: u64)
    ensures
        le_nat(u64_le_bytes(u)) == u as nat,
{
    let lo = (u & 0xffff_ffff) as u32;
    let hi = (u >> 32) as u32;
    lemma_u32_le_bytes(lo);
    lemma_u32_le_bytes(hi);
    lemma_le_nat_append(u32_le_bytes(lo), u32_le_bytes(hi));
    vstd::arithmetic::power::lemma_pow_positive(256, 4);
    assert(vstd::arithmetic::power::pow(256, 4) == 4294967296) by {
        reveal_with_fuel(vstd::arithmetic::power::pow, 5);
    }
    assert(lo as u64 + 4294967296 * (hi as u64) == u) by (bit_vector)
        requires
            lo == (u & 0xffff_ffff) as u32,
            hi == (u >> 32) as u32,
    ;
}

/// Each fixed-size number is decoded from its own little-endian bytes, and the position moves
/// on by its size: a byte as `u8` (and as the `i8` of the same bits), two bytes as `u16` or
/// `i16`, four as `u32` or `i32`, eight as `u64` or `i64`; a boolean is `false` exactly for
/// the byte zero.
pub proof fn lemma_numbers_of_their_bytes(
    defs: Seq<MsgDef>,
    data: Seq<u8>,
    pos: int,
    depth: nat,
    v8: u8,
    v16: u16,
    v32: u32,
    v64: u64,
    iv: I8Variant,
    uv: U8Variant,
)
    requires
        0 <= pos,
    ensures
        pos + 1 <= data.len() && data[pos] == v8 ==> {
            &&& spec_single(defs, FieldTypeView::U8(uv), data, pos, depth) == (
                Ok::<ValueView, Fail>(ValueView::U8(v8)),
                pos + 1,
            )
            &&& spec_single(defs, FieldTypeView::I8(iv), data, pos, depth) == (
                Ok::<ValueView, Fail>(ValueView::I8(v8 as i8)),
                pos + 1,
            )
            &&& spec_single(defs, FieldTypeView::Bool, data, pos, depth) == (
                Ok::<ValueView, Fail>(ValueView::Bool(v8 != 0)),
                pos + 1,
            )
        },
        pos + 2 <= data.len() && data.subrange(pos, pos + 2) == u16_le_bytes(v16) ==> {
            &&& spec_single(defs, FieldTypeView::U16, data, pos, depth) == (
                Ok::<ValueView, Fail>(ValueView::U16(v16)),
                pos + 2,
            )
            &&& spec_single(defs, FieldTypeView::I16, data, pos, depth) == (
                Ok::<ValueView, Fail>(ValueView::I16(v16 as i16)),
                pos + 2,
            )
        },
        pos + 4 <= data.len() && data.subrange(pos, pos + 4) == u32_le_bytes(v32) ==> {
            &&& spec_single(defs, FieldTypeView::U32, data, pos, depth) == (
                Ok::<ValueView, Fail>(ValueView::U32(v32)),
                pos + 4,
            )
            &&& spec_single(defs, FieldTypeView::I32, data, pos, depth) == (
                Ok::<ValueView, Fail>(ValueView::I32(v32 as i32)),
                pos + 4,
            )
            &&& spec_single(defs, FieldTypeView::F32, data, pos, depth) == (
                Ok::<ValueView, Fail>(ValueView::F32(v32)),
                pos + 4,
            )
        },
        pos + 8 <= data.len() && data.subrange(pos, pos + 8) == u64_le_bytes(v64) ==> {
            &&& spec_single(defs, FieldTypeView::U64, data, pos, depth) == (
                Ok::<ValueView, Fail>(ValueView::U64(v64)),
                pos + 8,
            )
            &&& spec_single(defs, FieldTypeView::I64, data, pos, depth) == (
                Ok::<ValueView, Fail>(ValueView::I64(v64 as i64)),
                pos + 8,
            )
            &&& spec_single(defs, FieldTypeView::F64, data, pos, depth) == (
                Ok::<ValueView, Fail>(ValueView::F64(v64)),
                pos + 8,
            )
        },
{
    lemma_u16_le_bytes(v16);
    lemma_u32_le_bytes(v32);
    lemma_u64_le_bytes(v64);
    if pos + 2 <= data.len() && data.subrange(pos, pos + 2) == u16_le_bytes(v16) {
        assert(le_at(data, pos, 2) == v16 as nat);
        assert((v16 as nat) as i16 == v16 as i16);
    }
    if pos + 4 <= data.len() && data.subrange(pos, pos + 4) == u32_le_bytes(v32) {
        assert(le_at(data, pos, 4) == v32 as nat);
    }
    if pos + 8 <= data.len() && data.subrange(pos, pos + 8) == u64_le_bytes(v64) {
        assert(le_at(data, pos, 8) == v64 as nat);
    }
}

/// A string is decoded from its own bytes: the `u32` length of its UTF-8 encoding, then that
/// encoding, give back the text, and the position moves on past the encoding.
pub proof fn lemma_string_of_its_bytes(
    defs: Seq<MsgDef>,
    data: Seq<u8>,
    pos: int,
    depth: nat,
    text: Seq<char>,
)
    requires
        0 <= pos,
        encode_utf8(text).len() <= u32::MAX,
        pos + 4 + encode_utf8(text).len() <= data.len(),
        data.subrange(pos, pos + 4) == u32_le_bytes(encode_utf8(text).len() as u32),
        data.subrange(pos + 4, pos + 4 + encode_utf8(text).len()) == encode_utf8(text),
    ensures
        spec_single(defs, FieldTypeView::String, data, pos, depth) == (
            Ok::<ValueView, Fail>(ValueView::Str(text)),
            pos + 4 + encode_utf8(text).len(),
        ),
{
    lemma_u32_le_bytes(encode_utf8(text).len() as u32);
    encode_utf8_valid_utf8(text);
    encode_utf8_decode_utf8(text);
}

/// A duration is decoded from its own bytes: the eight bytes of the `i32` seconds followed by
/// the `i32` nanoseconds give back those seconds and nanoseconds, and the position moves on
/// by eight.
pub proof fn lemma_duration_of_its_bytes(
    defs: Seq<MsgDef>,
    data: Seq<u8>,
    pos: int,
    depth: nat,
    sec: i32,
    nsec: i32,
)
    requires
        0 <= pos,
        pos + 8 <= data.len(),
        data.subrange(pos, pos + 8) == i32_le_bytes(sec) + i32_le_bytes(nsec),
    ensures
        spec_single(defs, FieldTypeView::Duration, data, pos, depth) == (
            Ok::<ValueView, Fail>(ValueView::Duration(Duration { sec, nsec })),
            pos + 8,
        ),
{
    let w = data.subrange(pos, pos + 8);
    assert(data.subrange(pos, pos + 4) =~= w.subrange(0, 4));
    assert(data.subrange(pos + 4, pos + 8) =~= w.subrange(4, 8));
    assert(w.subrange(0, 4) =~= i32_le_bytes(sec));
    assert(w.subrange(4, 8) =~= i32_le_bytes(nsec));
    lemma_i32_le_bytes(sec);
    lemma_i32_le_bytes(nsec);
}

/// A time is decoded from its own bytes: the eight bytes of the `u32` seconds followed by the
/// `u32` nanoseconds give back those seconds and nanoseconds, and the position moves on by
/// eight.
pub proof fn lemma_time_of_its_bytes(
    defs: Seq<MsgDef>,
    data: Seq<u8>,
    pos: int,
    depth: nat,
    sec: u32,
    nsec: u32,
)
    requires
        0 <= pos,
        pos + 8 <= data.len(),
        data.subrange(pos, pos + 8) == u32_le_bytes(sec) + u32_le_bytes(nsec),
    ensures
        spec_single(defs, FieldTypeView::Time, data, pos, depth) == (
            Ok::<ValueView, Fail>(ValueView::Time(Time { sec, nsec })),
            pos + 8,
        ),
{
    let w = data.subrange(pos, pos + 8);
    assert(data.subrange(pos, pos + 4) =~= w.subrange(0, 4));
    assert(data.subrange(pos + 4, pos + 8) =~= w.subrange(4, 8));
    assert(w.subrange(0, 4) =~= u32_le_bytes(sec));
    assert(w.subrange(4, 8) =~= u32_le_bytes(nsec));
    lemma_u32_le_bytes(sec);
    lemma_u32_le_bytes(nsec);
}

/// `find_local` finds the first definition of that name.
pub proof fn lemma_find_local(defs: Seq<MsgDef>, name: Seq<char>)
    ensures
        match find_local(defs, name) {
            Some(k) => 0 <= k < defs.len() && defs[k].path.name@ == name && forall|j: int|
                0 <= j < k ==> defs[j].path.name@ != name,
            None => forall|j: int| 0 <= j < defs.len() ==> defs[j].path.name@ != name,
        },
    decreases defs.len(),
{
    if defs.len() > 0 {
        lemma_find_local(defs.drop_first(), name);
        assert forall|j: int| 1 <= j < defs.len() implies defs[j] == defs.drop_first()[j - 1] by {}
    }
}

/// `find_global` finds the first definition of that package and name.
pub proof fn lemma_find_global(defs: Seq<MsgDef>, package: Seq<char>, name: Seq<char>)
    ensures
        match find_global(defs, package, name) {
            Some(k) => 0 <= k < defs.len() && defs[k].path.package@ == package
                && defs[k].path.name@ == name && forall|j: int|
                0 <= j < k ==> !(defs[j].path.package@ == package && defs[j].path.name@ == name),
            None => forall|j: int|
                0 <= j < defs.len() ==> !(defs[j].path.package@ == package && defs[j].path.name@
                    == name),
        },
    decreases defs.len(),
{
    if defs.len() > 0 {
        lemma_find_global(defs.drop_first(), package, name);
        assert forall|j: int| 1 <= j < defs.len() implies defs[j] == defs.drop_first()[j - 1] by {}
    }
}

/// `key_index` finds the first field of that name.
pub proof fn lemma_key_index(acc: Seq<(Seq<char>, ValueView)>, key: Seq<char>)
    ensures
        match key_index(acc, key) {
            Some(k) => 0 <= k < acc.len() && acc[k].0 == key && forall|j: int|
                0 <= j < k ==> acc[j].0 != key,
            None => forall|j: int| 0 <= j < acc.len() ==> acc[j].0 != key,
        },
    decreases acc.len(),
{
    if acc.len() > 0 {
        lemma_key_index(acc.drop_first(), key);
        assert forall|j: int| 1 <= j < acc.len() implies acc[j] == acc.drop_first()[j - 1] by {}
    }
}

/// Finds the first definition named `name`.
fn find_local_def(defs: &Vec<MsgDef>, name: &str) -> (r: Option<usize>)
    ensures
        match r {
            Some(k) => find_local(defs@, name@) == Some(k as int),
            None => find_local(defs@, name@) is None,
        },
{
    proof {
        lemma_find_local(defs@, name@);
    }
    let n = defs.len();
    let mut i: usize = 0;
    #[verifier::loop_isolation(false)]
    while i < n
        invariant
            n == defs@.len(),
            0 <= i <= n,
            forall|j: int| 0 <= j < i ==> defs@[j].path.name@ != name@,
        decreases n - i,
    {
        if str_eq(defs[i].path.name.as_str(), name) {
            return Some(i);
        }
        i = i + 1;
    }
    None
}

/// Finds the first definition of `path`.
fn find_global_def(defs: &Vec<MsgDef>, path: &MessagePath) -> (r: Option<usize>)
    ensures
        match r {
            Some(k) => find_global(defs@, path.package@, path.name@) == Some(k as int),
            None => find_global(defs@, path.package@, path.name@) is None,
        },
{
    proof {
        lemma_find_global(defs@, path.package@, path.name@);
    }
    let n = defs.len();
    let mut i: usize = 0;
    #[verifier::loop_isolation(false)]
    while i < n
        invariant
            n == defs@.len(),
            0 <= i <= n,
            forall|j: int|
                0 <= j < i ==> !(defs@[j].path.package@ == path.package@ && defs@[j].path.name@
                    == path.name@),
        decreases n - i,
    {
        if defs[i].path.same_as(path) {
            return Some(i);
        }
        i = i + 1;
    }
    None
}

/// Stores `v` under `name` in the fields of a message, as a map does.
fn insert_value(map: &mut Vec<(String, Value)>, name: &String, v: Value)
    ensures
        fields_view(final(map)@) == insert_field(fields_view(old(map)@), name@, v@),
{
    let ghost old_view = fields_view(map@);
    proof {
        lemma_key_index(old_view, name@);
    }
    let n = map.len();
    let mut i: usize = 0;
    while i < n
        invariant
            n == map@.len(),
            0 <= i <= n,
            old_view == fields_view(map@),
            old_view == fields_view(old(map)@),
            forall|j: int| 0 <= j < i ==> map@[j].0@ != name@,
            match key_index(old_view, name@) {
                Some(k) => 0 <= k < old_view.len() && old_view[k].0 == name@ && forall|j: int|
                    0 <= j < k ==> old_view[j].0 != name@,
                None => forall|j: int| 0 <= j < old_view.len() ==> old_view[j].0 != name@,
            },
        decreases n - i,
    {
        if str_eq(map[i].0.as_str(), name.as_str()) {
            assert(old_view[i as int].0 == name@);
            assert forall|j: int| 0 <= j < i implies old_view[j].0 != name@ by {
                assert(old_view[j].0 == map@[j].0@);
            }
            assert(key_index(old_view, name@) == Some(i as int));
            map.set(i, (name.clone(), v));
            assert(fields_view(map@) =~= old_view.update(i as int, (name@, v@)));
            return;
        }
        assert(old_view[i as int].0 == map@[i as int].0@);
        i = i + 1;
    }
    assert forall|j: int| 0 <= j < n implies old_view[j].0 != name@ by {
        assert(old_view[j].0 == map@[j].0@);
    }
    assert(key_index(old_view, name@) is None);
    map.push((name.clone(), v));
    assert(fields_view(map@) =~= old_view.push((name@, v@)));
}

/// The text of messages that nest without end.
fn too_deep_error() -> (e: RosbagError)
    ensures
        error_reports(e, Fail::TooDeep),
{
    RosbagError::MessageParsingError(String::from_str("Message definitions nest deeper than their number"))
}

/// The error of a read past the end of the data.
fn eof_error() -> (e: RosbagError)
    ensures
        error_reports(e, Fail::Eof),
{
    RosbagError::IoError(String::from_str("failed to fill whole buffer"))
}

/// Decodes one value of type `ty` from `data` at `*pos`, moving `*pos` past it.
fn parse_single_value(
    defs: &Vec<MsgDef>,
    ty: &FieldType,
    data: &[u8],
    pos: &mut usize,
    depth: usize,
) -> (r: Result<Value, RosbagError>)
    requires
        *old(pos) <= data@.len(),
    ensures
        *final(pos) <= data@.len(),
        ({
            let (s, p) = spec_single(defs@, ty@, data@, *old(pos) as int, depth as nat);
            outcome_matches(r, s) && *final(pos) == p
        }),
    decreases depth, 0usize,
{
    let len = data.len();
    match ty {
        FieldType::Bool => {
            if len - *pos >= 1 {
                let b = data[*pos];
                *pos = *pos + 1;
                Ok(Value::Bool(b != 0))
            } else {
                *pos = len;
                Err(eof_error())
            }
        },
        FieldType::I8(_) => {
            if len - *pos >= 1 {
                let b = data[*pos];
                *pos = *pos + 1;
                Ok(Value::I8(b as i8))
            } else {
                *pos = len;
                Err(eof_error())
            }
        },
        FieldType::U8(_) => {
            if len - *pos >= 1 {
                let b = data[*pos];
                *pos = *pos + 1;
                Ok(Value::U8(b))
            } else {
                *pos = len;
                Err(eof_error())
            }
        },
        FieldType::I16 => {
            if len - *pos >= 2 {
                let v = read_i16_le(data, *pos);
                *pos = *pos + 2;
                Ok(Value::I16(v))
            } else {
                *pos = len;
                Err(eof_error())
            }
        },
        FieldType::U16 => {
            if len - *pos >= 2 {
                let v = read_u16_le(data, *pos);
                *pos = *pos + 2;
                Ok(Value::U16(v))
            } else {
                *pos = len;
                Err(eof_error())
            }
        },
        FieldType::I32 => {
            if len - *pos >= 4 {
                let v = read_i32_le(data, *pos);
                *pos = *pos + 4;
                Ok(Value::I32(v))
            } else {
                *pos = len;
                Err(eof_error())
            }
        },
        FieldType::U32 => {
            if len - *pos >= 4 {
                let v = read_u32_le(data, *pos);
                *pos = *pos + 4;
                Ok(Value::U32(v))
            } else {
                *pos = len;
                Err(eof_error())
            }
        },
        FieldType::F32 => {
            if len - *pos >= 4 {
                let v = read_u32_le(data, *pos);
                *pos = *pos + 4;
                Ok(Value::F32(v))
            } else {
                *pos = len;
                Err(eof_error())
            }
        },
        FieldType::I64 => {
            if len - *pos >= 8 {
                let v = read_i64_le(data, *pos);
                *pos = *pos + 8;
                Ok(Value::I64(v))
            } else {
                *pos = len;
                Err(eof_error())
            }
        },
        FieldType::U64 => {
            if len - *pos >= 8 {
                let v = read_u64_le(data, *pos);
                *pos = *pos + 8;
                Ok(Value::U64(v))
            } else {
                *pos = len;
                Err(eof_error())
            }
        },
        FieldType::F64 => {
            if len - *pos >= 8 {
                let v = read_u64_le(data, *pos);
                *pos = *pos + 8;
                Ok(Value::F64(v))
            } else {
                *pos = len;
                Err(eof_error())
            }
        },
        FieldType::Time => {
            if len - *pos >= 8 {
                let sec = read_u32_le(data, *pos);
                let nsec = read_u32_le(data, *pos + 4);
                *pos = *pos + 8;
                Ok(Value::Time(Time { sec, nsec }))
            } else {
                *pos = len;
                Err(eof_error())
            }
        },
        FieldType::Duration => {
            if len - *pos >= 8 {
                let sec = read_i32_le(data, *pos);
                let nsec = read_i32_le(data, *pos + 4);
                *pos = *pos + 8;
                Ok(Value::Duration(Duration { sec, nsec }))
            } else {
                *pos = len;
                Err(eof_error())
            }
        },
        FieldType::String => {
            if len - *pos >= 4 {
                let n = read_u32_le(data, *pos) as usize;
                let start = *pos + 4;
                if len - start >= n {
                    let end = start + n;
                    *pos = end;
                    match utf8_string(data, start, end) {
                        Ok(s) => Ok(Value::String(s)),
                        Err(t) => {
                            let mut m = String::from_str("Invalid UTF-8 sequence in string: ");
                            m.append(t.as_str());
                            Err(RosbagError::MessageParsingError(m))
                        },
                    }
                } else {
                    *pos = len;
                    Err(eof_error())
                }
            } else {
                *pos = len;
                Err(eof_error())
            }
        },
        FieldType::LocalMessage(name) => {
            proof {
                lemma_find_local(defs@, name@);
            }
            match find_local_def(defs, name.as_str()) {
                Some(i) => {
                    if depth <= 1 {
                        Err(too_deep_error())
                    } else {
                        parse_message_data_recursive(defs, &defs[i], data, pos, depth - 1)
                    }
                },
                None => Err(RosbagError::MissingDefinitionError(name.clone())),
            }
        },
        FieldType::GlobalMessage(path) => {
            proof {
                lemma_find_global(defs@, path.package@, path.name@);
            }
            match find_global_def(defs, path) {
                Some(i) => {
                    if depth <= 1 {
                        Err(too_deep_error())
                    } else {
                        parse_message_data_recursive(defs, &defs[i], data, pos, depth - 1)
                    }
                },
                None => Err(RosbagError::MissingDefinitionError(path.to_text())),
            }
        },
    }
}

/// Decodes `count` items of type `ty`; an item that fails ends the list.
fn parse_items(
    defs: &Vec<MsgDef>,
    ty: &FieldType,
    count: usize,
    data: &[u8],
    pos: &mut usize,
    depth: usize,
) -> (r: Vec<Value>)
    requires
        *old(pos) <= data@.len(),
    ensures
        *final(pos) <= data@.len(),
        ({
            let (s, p) = spec_items(
                defs@,
                ty@,
                count as nat,
                Seq::empty(),
                data@,
                *old(pos) as int,
                depth as nat,
            );
            values_view(r@) == s && *final(pos) == p
        }),
    decreases depth, 1usize,
{
    let ghost start = *pos as int;
    let mut items: Vec<Value> = Vec::new();
    let mut i: usize = 0;
    assert(values_view(items@) =~= Seq::<ValueView>::empty());
    while i < count
        invariant
            0 <= i <= count,
            *pos <= data@.len(),
            start == *old(pos) as int,
            spec_items(defs@, ty@, count as nat, Seq::empty(), data@, start, depth as nat)
                == spec_items(
                defs@,
                ty@,
                (count - i) as nat,
                values_view(items@),
                data@,
                *pos as int,
                depth as nat,
            ),
        decreases count - i,
    {
        let ghost before = values_view(items@);
        let ghost p0 = *pos as int;
        match parse_single_value(defs, ty, data, pos, depth) {
            Ok(v) => {
                items.push(v);
                assert(values_view(items@) =~= before.push(v@));
            },
            Err(_) => {
                assert(spec_items(
                    defs@,
                    ty@,
                    (count - i) as nat,
                    before,
                    data@,
                    p0,
                    depth as nat,
                ) == (before, *pos as int));
                return items;
            },
        }
        i = i + 1;
    }
    items
}

/// Decodes a message of definition `def` from `data` at `*pos`, moving `*pos` past it.
fn parse_message_data_recursive(
    defs: &Vec<MsgDef>,
    def: &MsgDef,
    data: &[u8],
    pos: &mut usize,
    depth: usize,
) -> (r: Result<Value, RosbagError>)
    requires
        *old(pos) <= data@.len(),
    ensures
        *final(pos) <= data@.len(),
        ({
            let (s, p) = spec_message(defs@, *def, data@, *old(pos) as int, depth as nat);
            outcome_matches(r, s) && *final(pos) == p
        }),
    decreases depth, 2usize,
{
    let ghost start = *pos as int;
    let len = data.len();
    let mut map: Vec<(String, Value)> = Vec::new();
    let n = def.fields.len();
    let mut i: usize = 0;
    assert(fields_view(map@) =~= Seq::<(Seq<char>, ValueView)>::empty());
    while i < n
        invariant
            n == def.fields@.len(),
            len == data@.len(),
            0 <= i <= n,
            *pos <= data@.len(),
            start == *old(pos) as int,
            spec_message(defs@, *def, data@, start, depth as nat) == spec_fields(
                defs@,
                def.fields@,
                i as int,
                fields_view(map@),
                data@,
                *pos as int,
                depth as nat,
            ),
        decreases n - i,
    {
        let field = &def.fields[i];
        match &field.case {
            FieldCase::Const(_) => {},
            FieldCase::Unit => {
                let ghost p0 = *pos as int;
                match parse_single_value(defs, &field.datatype, data, pos, depth) {
                    Ok(v) => {
                        insert_value(&mut map, &field.name, v);
                    },
                    Err(e) => {
                        assert(spec_single(defs@, field.datatype@, data@, p0, depth as nat).1
                            == *pos as int);
                        return Err(e);
                    },
                }
            },
            FieldCase::Vector => {
                let count: usize = if len - *pos >= 4 {
                    let c = read_u32_le(data, *pos);
                    *pos = *pos + 4;
                    c as usize
                } else {
                    *pos = len;
                    0
                };
                let items = parse_items(defs, &field.datatype, count, data, pos, depth);
                let arr = Value::Array(items);
                proof {
                    lemma_value_view_nested(arr);
                }
                insert_value(&mut map, &field.name, arr);
            },
            FieldCase::Array(k) => {
                let items = parse_items(defs, &field.datatype, *k, data, pos, depth);
                let arr = Value::Array(items);
                proof {
                    lemma_value_view_nested(arr);
                }
                insert_value(&mut map, &field.name, arr);
            },
        }
        i = i + 1;
    }
    let result = Value::Message(map);
    proof {
        lemma_value_view_nested(result);
    }
    Ok(result)
}

/// The text of the error for an empty list of definitions.
pub open spec fn no_definition_text() -> Seq<char> {
    "No message definition found"@
}

/// Decodes serialized message data against its definitions: `msg_defs[0]` is the message,
/// the rest are the messages it uses.
pub fn parse_message_data(data: &[u8], msg_defs: &Vec<MsgDef>) -> (r: Result<Value, RosbagError>)
    ensures
        msg_defs@.len() == 0 ==> (r matches Err(RosbagError::MissingDefinitionError(m)) && m@
            == no_definition_text()),
        msg_defs@.len() > 0 ==> outcome_matches(
            r,
            spec_message(msg_defs@, msg_defs@[0], data@, 0, msg_defs@.len() as nat).0,
        ),
        r matches Ok(v) ==> keys_unique(v@),
{
    proof {
        if msg_defs@.len() > 0 {
            lemma_message_keys_unique(msg_defs@, msg_defs@[0], data@, 0, msg_defs@.len() as nat);
        }
    }
    if msg_defs.len() == 0 {
        return Err(RosbagError::MissingDefinitionError(String::from_str("No message definition found")));
    }
    let mut pos: usize = 0;
    parse_message_data_recursive(msg_defs, &msg_defs[0], data, &mut pos, msg_defs.len())
}

} // verus!
