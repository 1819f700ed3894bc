//! The value model of decoded ROS messages and typed access to it.
use vstd::prelude::*;

use crate::error::RosbagError;
use crate::text::{concat3, str_eq};
use vstd::string::*;

verus! {

/// A ROS `time` value.
#[derive(Clone, Copy, Debug, PartialEq, Eq, Structural)]
pub struct Time {
    pub sec: u32,
    pub nsec: u32,
}

/// A ROS `duration` value.
#[derive(Clone, Copy, Debug, PartialEq, Eq, Structural)]
pub struct Duration {
    pub sec: i32,
    pub nsec: i32,
}

/// A decoded ROS value. Floating-point fields are held as their IEEE-754 bit patterns;
/// a message is its fields, in the order of its definition.
#[derive(Debug)]
pub enum Value {
    Bool(bool),
    I8(i8),
    I16(i16),
    I32(i32),
    I64(i64),
    U8(u8),
    U16(u16),
    U32(u32),
    U64(u64),
    F32(u32),
    F64(u64),
    String(String),
    Time(Time),
    Duration(Duration),
    Array(Vec<Value>),
    Message(Vec<(String, Value)>),
}

/// The mathematical content of a [`Value`].
pub enum ValueView {
    Bool(bool),
    I8(i8),
    I16(i16),
    I32(i32),
    I64(i64),
    U8(u8),
    U16(u16),
    U32(u32),
    U64(u64),
    F32(u32),
    F64(u64),
    Str(Seq<char>),
    Time(Time),
    Duration(Duration),
    Array(Seq<ValueView>),
    Message(Seq<(Seq<char>, ValueView)>),
}

/// The content of a value.
pub open spec fn value_view(v: Value) -> ValueView
    decreases v,
{
    match v {
        Value::Bool(b) => ValueView::Bool(b),
        Value::I8(n) => ValueView::I8(n),
        Value::I16(n) => ValueView::I16(n),
        Value::I32(n) => ValueView::I32(n),
        Value::I64(n) => ValueView::I64(n),
        Value::U8(n) => ValueView::U8(n),
        Value::U16(n) => ValueView::U16(n),
        Value::U32(n) => ValueView::U32(n),
        Value::U64(n) => ValueView::U64(n),
        Value::F32(n) => ValueView::F32(n),
        Value::F64(n) => ValueView::F64(n),
        Value::String(s) => ValueView::Str(s@),
        Value::Time(t) => ValueView::Time(t),
        Value::Duration(d) => ValueView::Duration(d),
        Value::Array(items) => ValueView::Array(
            Seq::new(
                items@.len(),
                |i: int|
                    if 0 <= i < items@.len() {
                        value_view(items@[i])
                    } else {
                        ValueView::Bool(false)
                    },
            ),
        ),
        Value::Message(fields) => ValueView::Message(
            Seq::new(
                fields@.len(),
                |i: int|
                    if 0 <= i < fields@.len() {
                        (fields@[i].0@, value_view(fields@[i].1))
                    } else {
                        (Seq::empty(), ValueView::Bool(false))
                    },
            ),
        ),
    }
}

/// Whether no message in a value has two fields of one name, as in a map from names to
/// values.
pub open spec fn keys_unique(v: ValueView) -> bool
    decreases v,
{
    match v {
        ValueView::Array(items) => items_keys_unique(items),
        ValueView::Message(fields) => names_distinct(fields) && fields_keys_unique(fields),
        _ => true,
    }
}

/// Whether no two fields of a list have one name.
pub open spec fn names_distinct(fields: Seq<(Seq<char>, ValueView)>) -> bool {
    forall|i: int, j: int| 0 <= i < j < fields.len() ==> fields[i].0 != fields[j].0
}

/// Whether the names in every item of a list are unique.
pub open spec fn items_keys_unique(items: Seq<ValueView>) -> bool
    decreases items,
{
    items.len() == 0 || (items_keys_unique(items.subrange(0, items.len() - 1)) && keys_unique(
        items[items.len() - 1],
    ))
}

/// Whether the names in the value of every field of a list are unique.
pub open spec fn fields_keys_unique(fields: Seq<(Seq<char>, ValueView)>) -> bool
    decreases fields,
{
    fields.len() == 0 || (fields_keys_unique(fields.subrange(0, fields.len() - 1)) && keys_unique(
        fields[fields.len() - 1].1,
    ))
}

/// The names in a list of items are unique exactly when those in each item are.
pub proof fn lemma_items_keys_unique(items: Seq<ValueView>)
    ensures
        items_keys_unique(items) <==> forall|i: int|
            0 <= i < items.len() ==> keys_unique(#[trigger] items[i]),
    decreases items.len(),
{
    if items.len() > 0 {
        let n = items.len() - 1;
        let t = items.subrange(0, n);
        lemma_items_keys_unique(t);
        assert forall|i: int| 0 <= i < t.len() implies t[i] == items[i] by {}
    }
}

/// The names in the values of a list of fields are unique exactly when those in each value
/// are.
pub proof fn lemma_fields_keys_unique(fields: Seq<(Seq<char>, ValueView)>)
    ensures
        fields_keys_unique(fields) <==> forall|i: int|
            0 <= i < fields.len() ==> keys_unique(#[trigger] fields[i].1),
    decreases fields.len(),
{
    if fields.len() > 0 {
        let n = fields.len() - 1;
        let t = fields.subrange(0, n);
        lemma_fields_keys_unique(t);
        assert forall|i: int| 0 <= i < t.len() implies t[i] == fields[i] by {}
    }
}

/// The contents of a list of values.
pub open spec fn values_view(items: Seq<Value>) -> Seq<ValueView> {
    Seq::new(items.len(), |i: int| value_view(items[i]))
}

/// The contents of the fields of a message.
pub open spec fn fields_view(fields: Seq<(String, Value)>) -> Seq<(Seq<char>, ValueView)> {
    Seq::new(fields.len(), |i: int| (fields[i].0@, value_view(fields[i].1)))
}

/// The content of an array or message is that of its items or fields.
pub proof fn lemma_value_view_nested(v: Value)
    ensures
        v matches Value::Array(items) ==> value_view(v) == ValueView::Array(values_view(items@)),
        v matches Value::Message(fields) ==> value_view(v) == ValueView::Message(
            fields_view(fields@),
        ),
{
    match v {
        Value::Array(items) => {
            let s = value_view(v)->Array_0;
            assert(s =~= values_view(items@));
        },
        Value::Message(fields) => {
            let s = value_view(v)->Message_0;
            assert(s =~= fields_view(fields@));
        },
        _ => {},
    }
}

impl View for Value {
    type V = ValueView;

    open spec fn view(&self) -> ValueView {
        value_view(*self)
    }
}

/// The value stored under `key`: that of the first field named `key`.
pub open spec fn lookup(fields: Seq<(String, Value)>, key: Seq<char>) -> Option<Value>
    decreases fields.len(),
{
    if fields.len() == 0 {
        None
    } else if fields[0].0@ == key {
        Some(fields[0].1)
    } else {
        lookup(fields.drop_first(), key)
    }
}

/// Fields before index `i` do not change what `lookup` finds when they are not named `key`.
pub proof fn lemma_lookup_skip(fields: Seq<(String, Value)>, key: Seq<char>, i: int)
    requires
        0 <= i <= fields.len(),
        forall|j: int| 0 <= j < i ==> fields[j].0@ != key,
    ensures
        lookup(fields, key) == lookup(fields.skip(i), key),
    decreases i,
{
    if i > 0 {
        lemma_lookup_skip(fields.drop_first(), key, i - 1);
        assert(fields.drop_first().skip(i - 1) =~= fields.skip(i));
    } else {
        assert(fields.skip(0) =~= fields);
    }
}

/// Finds the value stored under `key` in the fields of a message.
pub fn find_field<'a>(fields: &'a Vec<(String, Value)>, key: &str) -> (r: Option<&'a Value>)
    ensures
        match r {
            Some(v) => lookup(fields@, key@) == Some(*v),
            None => lookup(fields@, key@) is None,
        },
{
    let n = fields.len();
    let mut i: usize = 0;
    while i < n
        invariant
            n == fields@.len(),
            0 <= i <= n,
            forall|j: int| 0 <= j < i ==> fields@[j].0@ != key@,
        decreases n - i,
    {
        if str_eq(fields[i].0.as_str(), key) {
            proof {
                lemma_lookup_skip(fields@, key@, i as int);
            }
            return Some(&fields[i].1);
        }
        i = i + 1;
    }
    proof {
        lemma_lookup_skip(fields@, key@, n as int);
    }
    None
}

/// A copy of a value, with the same content.
fn copy_value(value: &Value) -> (r: Value)
    ensures
        r@ == value@,
    decreases value,
{
    proof {
        lemma_value_view_nested(*value);
    }
    match value {
        Value::Bool(b) => Value::Bool(*b),
        Value::I8(n) => Value::I8(*n),
        Value::I16(n) => Value::I16(*n),
        Value::I32(n) => Value::I32(*n),
        Value::I64(n) => Value::I64(*n),
        Value::U8(n) => Value::U8(*n),
        Value::U16(n) => Value::U16(*n),
        Value::U32(n) => Value::U32(*n),
        Value::U64(n) => Value::U64(*n),
        Value::F32(n) => Value::F32(*n),
        Value::F64(n) => Value::F64(*n),
        Value::String(s) => Value::String(String::from_str(s.as_str())),
        Value::Time(t) => Value::Time(*t),
        Value::Duration(d) => Value::Duration(*d),
        Value::Array(items) => {
            let mut out: Vec<Value> = Vec::new();
            let mut i: usize = 0;
            while i < items.len()
                invariant
                    *value == Value::Array(*items),
                    i <= items@.len(),
                    out@.len() == i,
                    forall|j: int| 0 <= j < i ==> (#[trigger] out@[j])@ == items@[j]@,
                decreases items@.len() - i,
            {
                proof {
                    lemma_value_view_nested(*value);
                    assert(decreases_to!(*value => items@[i as int]));
                }
                out.push(copy_value(&items[i]));
                i = i + 1;
            }
            let r = Value::Array(out);
            proof {
                lemma_value_view_nested(r);
                assert(values_view(out@) =~= values_view(items@));
            }
            r
        },
        Value::Message(fields) => {
            let mut out: Vec<(String, Value)> = Vec::new();
            let mut i: usize = 0;
            while i < fields.len()
                invariant
                    *value == Value::Message(*fields),
                    i <= fields@.len(),
                    out@.len() == i,
                    forall|j: int|
                        0 <= j < i ==> (#[trigger] out@[j]).0@ == fields@[j].0@ && out@[j].1@
                            == fields@[j].1@,
                decreases fields@.len() - i,
            {
                proof {
                    lemma_value_view_nested(*value);
                    assert(decreases_to!(*value => fields@[i as int].1));
                }
                out.push((String::from_str(fields[i].0.as_str()), copy_value(&fields[i].1)));
                i = i + 1;
            }
            let r = Value::Message(out);
            proof {
                lemma_value_view_nested(r);
                assert(fields_view(out@) =~= fields_view(fields@));
            }
            r
        },
    }
}

impl Value {
    /// A copy of the value, with the same content.
    pub fn copy(&self) -> (r: Value)
        ensures
            r@ == self@,
    {
        copy_value(self)
    }

    /// The boolean held by a `Bool`.
    pub fn as_bool(&self) -> (r: Option<bool>)
        ensures
            r == (match *self {
                Value::Bool(b) => Some(b),
                _ => None,
            }),
    {
        match self {
            Value::Bool(b) => Some(*b),
            _ => None,
        }
    }

    /// The integer held by an `I8`.
    pub fn as_i8(&self) -> (r: Option<i8>)
        ensures
            r == (match *self {
                Value::I8(n) => Some(n),
                _ => None,
            }),
    {
        match self {
            Value::I8(n) => Some(*n),
            _ => None,
        }
    }

    /// The integer held by an `I16`.
    pub fn as_i16(&self) -> (r: Option<i16>)
        ensures
            r == (match *self {
                Value::I16(n) => Some(n),
                _ => None,
            }),
    {
        match self {
            Value::I16(n) => Some(*n),
            _ => None,
        }
    }

    /// The integer held by an `I32`.
    pub fn as_i32(&self) -> (r: Option<i32>)
        ensures
            r == (match *self {
                Value::I32(n) => Some(n),
                _ => None,
            }),
    {
        match self {
            Value::I32(n) => Some(*n),
            _ => None,
        }
    }

    /// The integer held by an `I64`.
    pub fn as_i64(&self) -> (r: Option<i64>)
        ensures
            r == (match *self {
                Value::I64(n) => Some(n),
                _ => None,
            }),
    {
        match self {
            Value::I64(n) => Some(*n),
            _ => None,
        }
    }

    /// The integer held by a `U8`.
    pub fn as_u8(&self) -> (r: Option<u8>)
        ensures
            r == (match *self {
                Value::U8(n) => Some(n),
                _ => None,
            }),
    {
        match self {
            Value::U8(n) => Some(*n),
            _ => None,
        }
    }

    /// The integer held by a `U16`.
    pub fn as_u16(&self) -> (r: Option<u16>)
        ensures
            r == (match *self {
                Value::U16(n) => Some(n),
                _ => None,
            }),
    {
        match self {
            Value::U16(n) => Some(*n),
            _ => None,
        }
    }

    /// The integer held by a `U32`.
    pub fn as_u32(&self) -> (r: Option<u32>)
        ensures
            r == (match *self {
                Value::U32(n) => Some(n),
                _ => None,
            }),
    {
        match self {
            Value::U32(n) => Some(*n),
            _ => None,
        }
    }

    /// The integer held by a `U64`.
    pub fn as_u64(&self) -> (r: Option<u64>)
        ensures
            r == (match *self {
                Value::U64(n) => Some(n),
                _ => None,
            }),
    {
        match self {
            Value::U64(n) => Some(*n),
            _ => None,
        }
    }

    /// The bit pattern held by an `F32`.
    pub fn as_f32_bits(&self) -> (r: Option<u32>)
        ensures
            r == (match *self {
                Value::F32(n) => Some(n),
                _ => None,
            }),
    {
        match self {
            Value::F32(n) => Some(*n),
            _ => None,
        }
    }

    /// The bit pattern held by an `F64`.
    pub fn as_f64_bits(&self) -> (r: Option<u64>)
        ensures
            r == (match *self {
                Value::F64(n) => Some(n),
                _ => None,
            }),
    {
        match self {
            Value::F64(n) => Some(*n),
            _ => None,
        }
    }

    /// The text held by a `String`.
    pub fn as_str(&self) -> (r: Option<&str>)
        ensures
            match *self {
                Value::String(s) => r matches Some(t) && t@ == s@,
                _ => r is None,
            },
    {
        match self {
            Value::String(s) => Some(s.as_str()),
            _ => None,
        }
    }

    /// The value held by a `Time`.
    pub fn as_time(&self) -> (r: Option<Time>)
        ensures
            r == (match *self {
                Value::Time(t) => Some(t),
                _ => None,
            }),
    {
        match self {
            Value::Time(t) => Some(*t),
            _ => None,
        }
    }

    /// The value held by a `Duration`.
    pub fn as_duration(&self) -> (r: Option<Duration>)
        ensures
            r == (match *self {
                Value::Duration(d) => Some(d),
                _ => None,
            }),
    {
        match self {
            Value::Duration(d) => Some(*d),
            _ => None,
        }
    }

    /// The items of an `Array`.
    pub fn as_slice(&self) -> (r: Option<&[Value]>)
        ensures
            match *self {
                Value::Array(items) => r matches Some(s) && s@ == items@,
                _ => r is None,
            },
    {
        match self {
            Value::Array(items) => Some(items.as_slice()),
            _ => None,
        }
    }

    /// The fields of a `Message`.
    pub fn as_map(&self) -> (r: Option<&Vec<(String, Value)>>)
        ensures
            match *self {
                Value::Message(fields) => r == Some(&fields),
                _ => r is None,
            },
    {
        match self {
            Value::Message(fields) => Some(fields),
            _ => None,
        }
    }
}

/// The text of the error for a value that is not a message.
pub open spec fn not_a_map_text() -> Seq<char> {
    "Not a map"@
}

/// The text of the error for a field that a message does not have.
pub open spec fn not_found_text(field: Seq<char>) -> Seq<char> {
    "Field '"@ + field + "' not found"@
}

/// The text of the error for a field whose extractor found nothing.
pub open spec fn not_extracted_text(field: Seq<char>) -> Seq<char> {
    "Could not extract field '"@ + field + "'"@
}

/// The text of the error for a field that is not of the wanted type.
pub open spec fn wrong_type_text(field: Seq<char>, kind_name: Seq<char>) -> Seq<char> {
    "Field '"@ + field + "' is not a "@ + kind_name
}

/// The text of the error for a field that is not an array.
pub open spec fn not_an_array_text(field: Seq<char>) -> Seq<char> {
    "Field '"@ + field + "' is not an array"@
}

/// The text of the error for an array with an item that is not a `U8`.
pub open spec fn not_u8_text(field: Seq<char>) -> Seq<char> {
    "Element in '"@ + field + "' is not a u8 value"@
}

/// The text of the error for a path step that meets a value that is not a message.
pub open spec fn step_not_a_map_text(field: Seq<char>) -> Seq<char> {
    "Field '"@ + field + "' is not a map"@
}

/// Types that can be read out of a [`Value`].
pub trait FromValue: Sized {
    /// What `from_value` gives for a value.
    spec fn spec_from_value(value: Value) -> Option<Self>;

    /// The name that `kind_name` gives.
    spec fn spec_kind_name() -> Seq<char>;

    /// Extract the value from a Value
    fn from_value(value: &Value) -> (r: Option<Self>)
        ensures
            r == Self::spec_from_value(*value),
    ;

    /// Name of the type, used in error messages
    fn kind_name() -> (r: &'static str)
        ensures
            r@ == Self::spec_kind_name(),
    ;

    /// Extracts the value, or names the field in the error when it is not of this type.
    fn from_value_checked(field: &str, value: &Value) -> (r: Result<Self, RosbagError>)
        ensures
            match Self::spec_from_value(*value) {
                Some(v) => r == Ok::<Self, RosbagError>(v),
                None => r matches Err(RosbagError::MessageParsingError(m)) && m@ == wrong_type_text(
                    field@,
                    Self::spec_kind_name(),
                ),
            },
    {
        match Self::from_value(value) {
            Some(v) => Ok(v),
            None => {
                let mut m = concat3("Field '", field, "' is not a ");
                m.append(Self::kind_name());
                Err(RosbagError::MessageParsingError(m))
            },
        }
    }
}

impl FromValue for bool {
    open spec fn spec_from_value(value: Value) -> Option<bool> {
        match value {
            Value::Bool(n) => Some(n),
            _ => None,
        }
    }

    open spec fn spec_kind_name() -> Seq<char> {
        "bool"@
    }

    fn from_value(value: &Value) -> (r: Option<bool>) {
        value.as_bool()
    }

    fn kind_name() -> (r: &'static str) {
        "bool"
    }
}

impl FromValue for i8 {
    open spec fn spec_from_value(value: Value) -> Option<i8> {
        match value {
            Value::I8(n) => Some(n),
            _ => None,
        }
    }

    open spec fn spec_kind_name() -> Seq<char> {
        "i8"@
    }

    fn from_value(value: &Value) -> (r: Option<i8>) {
        value.as_i8()
    }

    fn kind_name() -> (r: &'static str) {
        "i8"
    }
}

impl FromValue for i16 {
    open spec fn spec_from_value(value: Value) -> Option<i16> {
        match value {
            Value::I16(n) => Some(n),
            _ => None,
        }
    }

    open spec fn spec_kind_name() -> Seq<char> {
        "i16"@
    }

    fn from_value(value: &Value) -> (r: Option<i16>) {
        value.as_i16()
    }

    fn kind_name() -> (r: &'static str) {
        "i16"
    }
}

impl FromValue for i32 {
    open spec fn spec_from_value(value: Value) -> Option<i32> {
        match value {
            Value::I32(n) => Some(n),
            _ => None,
        }
    }

    open spec fn spec_kind_name() -> Seq<char> {
        "i32"@
    }

    fn from_value(value: &Value) -> (r: Option<i32>) {
        value.as_i32()
    }

    fn kind_name() -> (r: &'static str) {
        "i32"
    }
}

impl FromValue for i64 {
    open spec fn spec_from_value(value: Value) -> Option<i64> {
        match value {
            Value::I64(n) => Some(n),
            _ => None,
        }
    }

    open spec fn spec_kind_name() -> Seq<char> {
        "i64"@
    }

    fn from_value(value: &Value) -> (r: Option<i64>) {
        value.as_i64()
    }

    fn kind_name() -> (r: &'static str) {
        "i64"
    }
}

impl FromValue for u8 {
    open spec fn spec_from_value(value: Value) -> Option<u8> {
        match value {
            Value::U8(n) => Some(n),
            _ => None,
        }
    }

    open spec fn spec_kind_name() -> Seq<char> {
        "u8"@
    }

    fn from_value(value: &Value) -> (r: Option<u8>) {
        value.as_u8()
    }

    fn kind_name() -> (r: &'static str) {
        "u8"
    }
}

impl FromValue for u16 {
    open spec fn spec_from_value(value: Value) -> Option<u16> {
        match value {
            Value::U16(n) => Some(n),
            _ => None,
        }
    }

    open spec fn spec_kind_name() -> Seq<char> {
        "u16"@
    }

    fn from_value(value: &Value) -> (r: Option<u16>) {
        value.as_u16()
    }

    fn kind_name() -> (r: &'static str) {
        "u16"
    }
}

impl FromValue for u32 {
    open spec fn spec_from_value(value: Value) -> Option<u32> {
        match value {
            Value::U32(n) => Some(n),
            _ => None,
        }
    }

    open spec fn spec_kind_name() -> Seq<char> {
        "u32"@
    }

    fn from_value(value: &Value) -> (r: Option<u32>) {
        value.as_u32()
    }

    fn kind_name() -> (r: &'static str) {
        "u32"
    }
}

impl FromValue for u64 {
    open spec fn spec_from_value(value: Value) -> Option<u64> {
        match value {
            Value::U64(n) => Some(n),
            _ => None,
        }
    }

    open spec fn spec_kind_name() -> Seq<char> {
        "u64"@
    }

    fn from_value(value: &Value) -> (r: Option<u64>) {
        value.as_u64()
    }

    fn kind_name() -> (r: &'static str) {
        "u64"
    }
}

impl FromValue for String {
    open spec fn spec_from_value(value: Value) -> Option<String> {
        match value {
            Value::String(s) => Some(s),
            _ => None,
        }
    }

    open spec fn spec_kind_name() -> Seq<char> {
        "string"@
    }

    fn from_value(value: &Value) -> (r: Option<String>) {
        match value {
            Value::String(s) => Some(s.clone()),
            _ => None,
        }
    }

    fn kind_name() -> (r: &'static str) {
        "string"
    }
}

/// The bit pattern of a `float32` value, as read out of a [`Value`].
#[derive(Clone, Copy, Debug, PartialEq, Eq, Structural)]
pub struct F32Bits(pub u32);

/// The bit pattern of a `float64` value, as read out of a [`Value`].
#[derive(Clone, Copy, Debug, PartialEq, Eq, Structural)]
pub struct F64Bits(pub u64);

impl FromValue for F32Bits {
    open spec fn spec_from_value(value: Value) -> Option<F32Bits> {
        match value {
            Value::F32(n) => Some(F32Bits(n)),
            _ => None,
        }
    }

    open spec fn spec_kind_name() -> Seq<char> {
        "f32"@
    }

    fn from_value(value: &Value) -> (r: Option<F32Bits>) {
        match value {
            Value::F32(n) => Some(F32Bits(*n)),
            _ => None,
        }
    }

    fn kind_name() -> (r: &'static str) {
        "f32"
    }
}

impl FromValue for F64Bits {
    open spec fn spec_from_value(value: Value) -> Option<F64Bits> {
        match value {
            Value::F64(n) => Some(F64Bits(n)),
            _ => None,
        }
    }

    open spec fn spec_kind_name() -> Seq<char> {
        "f64"@
    }

    fn from_value(value: &Value) -> (r: Option<F64Bits>) {
        match value {
            Value::F64(n) => Some(F64Bits(*n)),
            _ => None,
        }
    }

    fn kind_name() -> (r: &'static str) {
        "f64"
    }
}

/// The views of a list of string slices.
pub open spec fn strs_view(path: Seq<&str>) -> Seq<Seq<char>> {
    path.map_values(|s: &str| s@)
}

/// What following the field names of `path` from `v` reaches, or the text of the error met
/// on the way.
pub open spec fn nested_lookup(v: Value, path: Seq<Seq<char>>) -> core::result::Result<Value, Seq<char>>
    decreases path.len(),
{
    if path.len() == 0 {
        Ok(v)
    } else {
        match v {
            Value::Message(fields) => match lookup(fields@, path[0]) {
                Some(child) => nested_lookup(child, path.drop_first()),
                None => Err(not_found_text(path[0])),
            },
            _ => Err(step_not_a_map_text(path[0])),
        }
    }
}

/// The bytes held by a list of `U8` values, or `None` when one of them is something else.
pub open spec fn u8_items(items: Seq<Value>) -> Option<Seq<u8>>
    decreases items.len(),
{
    if items.len() == 0 {
        Some(Seq::empty())
    } else {
        match (items.last(), u8_items(items.drop_last())) {
            (Value::U8(b), Some(rest)) => Some(rest.push(b)),
            _ => None,
        }
    }
}

/// What std's `Debug` writes for a list of string slices (brackets, quotes and escapes).
pub uninterp spec fn debug_text_of_strs(items: Seq<Seq<char>>) -> Seq<char>;

/// std's `Debug` formatting of a list of string slices.
#[verifier::external_body]
pub(crate) fn debug_strs(items: &[&str]) -> (r: String)
    ensures
        r@ == debug_text_of_strs(strs_view(items@)),
{
    format!("{:?}", items)
}

/// The text of the error for a path whose end is not of the wanted type.
pub open spec fn nested_wrong_type_text(path: Seq<Seq<char>>, kind_name: Seq<char>) -> Seq<char> {
    "Nested path "@ + debug_text_of_strs(path) + " is not a "@ + kind_name
}

/// Following a path of one field name reaches what looking the field up finds: a nested
/// access of one step is a field access.
pub proof fn lemma_nested_lookup_single(v: Value, key: Seq<char>)
    ensures
        nested_lookup(v, seq![key]) == match v {
            Value::Message(fields) => match lookup(fields@, key) {
                Some(child) => Ok(child),
                None => Err(not_found_text(key)),
            },
            _ => Err(step_not_a_map_text(key)),
        },
{
    reveal_with_fuel(nested_lookup, 2);
    assert(seq![key].drop_first() =~= Seq::<Seq<char>>::empty());
}

/// Following a path step by step: the path `a + b` reaches what `b` reaches from where `a`
/// ends.
pub proof fn lemma_nested_lookup_append(v: Value, a: Seq<Seq<char>>, b: Seq<Seq<char>>)
    ensures
        nested_lookup(v, a + b) == match nested_lookup(v, a) {
            Ok(mid) => nested_lookup(mid, b),
            Err(t) => Err(t),
        },
    decreases a.len(),
{
    if a.len() == 0 {
        assert(a + b =~= b);
    } else {
        assert((a + b)[0] == a[0]);
        assert((a + b).drop_first() =~= a.drop_first() + b);
        match v {
            Value::Message(fields) => match lookup(fields@, a[0]) {
                Some(child) => {
                    lemma_nested_lookup_append(child, a.drop_first(), b);
                },
                None => {},
            },
            _ => {},
        }
    }
}

/// Looking up a joined path is looking up its two parts in turn: the path `p` followed by `q`
/// reaches what `q` reaches from where `p` ends, and meets the error that `p` meets; the empty
/// path reaches the value itself.
pub proof fn lemma_nested_lookup_concat(v: Value, p: Seq<&str>, q: Seq<&str>)
    ensures
        nested_lookup(v, strs_view(Seq::<&str>::empty())) == Ok::<Value, Seq<char>>(v),
        nested_lookup(v, strs_view(p + q)) == match nested_lookup(v, strs_view(p)) {
            Ok(w) => nested_lookup(w, strs_view(q)),
            Err(t) => Err(t),
        },
{
    assert(strs_view(Seq::<&str>::empty()) =~= Seq::<Seq<char>>::empty());
    assert(strs_view(p + q) =~= strs_view(p) + strs_view(q));
    lemma_nested_lookup_append(v, strs_view(p), strs_view(q));
}

/// Typed access to the fields of message values.
pub trait ValueExt {
    /// Converts as_map() to a Result type with appropriate error
    fn as_map_result(&self) -> Result<&Vec<(String, Value)>, RosbagError>;

    /// Gets a field from a map and applies the extractor function, returning a Result
    fn get_field<T, F: FnOnce(&Value) -> Option<T>>(&self, field: &str, extractor: F) -> Result<
        T,
        RosbagError,
    >
        requires
            forall|v: &Value| extractor.requires((v,)),
    ;

    /// Generic method to get a field value with type conversion
    fn get<T: FromValue>(&self, field: &str) -> Result<T, RosbagError>;

    /// Gets an array field and returns it as a slice
    fn get_array(&self, field: &str) -> Result<&[Value], RosbagError>;

    /// Gets an array field and returns it as a slice, returns empty slice if field is missing
    fn get_array_optional(&self, field: &str) -> Result<&[Value], RosbagError>;

    /// Gets a field as a Vec<u8>, useful for binary data
    fn get_u8_array(&self, field: &str) -> Result<Vec<u8>, RosbagError>;

    /// Navigates a nested structure with a path of field names
    /// For example: ["pose", "position", "x"] would access data.pose.position.x
    fn get_nested_value(&self, path: &[&str]) -> Result<&Value, RosbagError>;

    /// Generic method to get a nested value with type conversion
    fn get_nested<T: FromValue>(&self, path: &[&str]) -> Result<T, RosbagError>;
}

impl ValueExt for Value {
    fn as_map_result(&self) -> (r: Result<&Vec<(String, Value)>, RosbagError>)
        ensures
            match *self {
                Value::Message(fields) => r matches Ok(f) && *f == fields,
                _ => r matches Err(RosbagError::MessageParsingError(m)) && m@ == not_a_map_text(),
            },
    {
        match self.as_map() {
            Some(fields) => Ok(fields),
            None => Err(RosbagError::MessageParsingError(String::from_str("Not a map"))),
        }
    }

    fn get_field<T, F: FnOnce(&Value) -> Option<T>>(&self, field: &str, extractor: F) -> (r: Result<
        T,
        RosbagError,
    >)
        ensures
            match *self {
                Value::Message(fields) => match lookup(fields@, field@) {
                    Some(v) => match r {
                        Ok(t) => extractor.ensures((&v,), Some(t)),
                        Err(RosbagError::MessageParsingError(m)) => extractor.ensures(
                            (&v,),
                            None,
                        ) && m@ == not_extracted_text(field@),
                        Err(_) => false,
                    },
                    None => r matches Err(RosbagError::MessageParsingError(m)) && m@
                        == not_found_text(field@),
                },
                _ => r matches Err(RosbagError::MessageParsingError(m)) && m@ == not_a_map_text(),
            },
    {
        let map = self.as_map_result()?;
        let value = match find_field(map, field) {
            Some(v) => v,
            None => {
                return Err(RosbagError::MessageParsingError(concat3("Field '", field, "' not found")));
            },
        };
        match extractor(value) {
            Some(t) => Ok(t),
            None => Err(RosbagError::MessageParsingError(concat3("Could not extract field '", field, "'"))),
        }
    }

    fn get<T: FromValue>(&self, field: &str) -> (r: Result<T, RosbagError>)
        ensures
            match *self {
                Value::Message(fields) => match lookup(fields@, field@) {
                    Some(v) => match T::spec_from_value(v) {
                        Some(t) => r == Ok::<T, RosbagError>(t),
                        None => r matches Err(RosbagError::MessageParsingError(m)) && m@
                            == wrong_type_text(field@, T::spec_kind_name()),
                    },
                    None => r matches Err(RosbagError::MessageParsingError(m)) && m@
                        == not_found_text(field@),
                },
                _ => r matches Err(RosbagError::MessageParsingError(m)) && m@ == not_a_map_text(),
            },
    {
        let map = self.as_map_result()?;
        let value = match find_field(map, field) {
            Some(v) => v,
            None => {
                return Err(RosbagError::MessageParsingError(concat3("Field '", field, "' not found")));
            },
        };
        T::from_value_checked(field, value)
    }

    fn get_array(&self, field: &str) -> (r: Result<&[Value], RosbagError>)
        ensures
            match *self {
                Value::Message(fields) => match lookup(fields@, field@) {
                    Some(Value::Array(items)) => r matches Ok(s) && s@ == items@,
                    Some(_) => r matches Err(RosbagError::MessageParsingError(m)) && m@
                        == not_an_array_text(field@),
                    None => r matches Err(RosbagError::MessageParsingError(m)) && m@
                        == not_found_text(field@),
                },
                _ => r matches Err(RosbagError::MessageParsingError(m)) && m@ == not_a_map_text(),
            },
    {
        let map = self.as_map_result()?;
        let value = match find_field(map, field) {
            Some(v) => v,
            None => {
                return Err(RosbagError::MessageParsingError(concat3("Field '", field, "' not found")));
            },
        };
        match value.as_slice() {
            Some(items) => Ok(items),
            None => Err(RosbagError::MessageParsingError(concat3("Field '", field, "' is not an array"))),
        }
    }

    fn get_array_optional(&self, field: &str) -> (r: Result<&[Value], RosbagError>)
        ensures
            match *self {
                Value::Message(fields) => match lookup(fields@, field@) {
                    Some(Value::Array(items)) => r matches Ok(s) && s@ == items@,
                    Some(_) => r matches Err(RosbagError::MessageParsingError(m)) && m@
                        == not_an_array_text(field@),
                    None => r matches Ok(s) && s@.len() == 0,
                },
                _ => r matches Err(RosbagError::MessageParsingError(m)) && m@ == not_a_map_text(),
            },
    {
        let map = self.as_map_result()?;
        match find_field(map, field) {
            Some(value) => match value.as_slice() {
                Some(items) => Ok(items),
                None => Err(RosbagError::MessageParsingError(concat3("Field '", field, "' is not an array"))),
            },
            None => Ok(&[]),
        }
    }

    fn get_u8_array(&self, field: &str) -> (r: Result<Vec<u8>, RosbagError>)
        ensures
            match *self {
                Value::Message(fields) => match lookup(fields@, field@) {
                    Some(Value::Array(items)) => match u8_items(items@) {
                        Some(bytes) => r matches Ok(v) && v@ == bytes,
                        None => r matches Err(RosbagError::MessageParsingError(m)) && m@
                            == not_u8_text(field@),
                    },
                    Some(_) => r matches Err(RosbagError::MessageParsingError(m)) && m@
                        == not_an_array_text(field@),
                    None => r matches Err(RosbagError::MessageParsingError(m)) && m@
                        == not_found_text(field@),
                },
                _ => r matches Err(RosbagError::MessageParsingError(m)) && m@ == not_a_map_text(),
            },
    {
        let map = self.as_map_result()?;
        let value = match find_field(map, field) {
            Some(v) => v,
            None => {
                return Err(RosbagError::MessageParsingError(concat3("Field '", field, "' not found")));
            },
        };
        match value {
            Value::Array(items) => {
                let mut bytes: Vec<u8> = Vec::new();
                let n = items.len();
                let mut i: usize = 0;
                #[verifier::loop_isolation(false)]
                while i < n
                    invariant
                        n == items@.len(),
                        0 <= i <= n,
                        u8_items(items@.take(i as int)) == Some(bytes@),
                    decreases n - i,
                {
                    assert(items@.take(i + 1).drop_last() =~= items@.take(i as int));
                    match &items[i] {
                        Value::U8(b) => {
                            bytes.push(*b);
                        },
                        _ => {
                            proof {
                                assert(items@.take(i + 1).last() == items@[i as int]);
                                lemma_u8_items_prefix(items@, i as int + 1);
                            }
                            return Err(RosbagError::MessageParsingError(concat3("Element in '", field, "' is not a u8 value")));
                        },
                    }
                    i = i + 1;
                }
                assert(items@.take(n as int) =~= items@);
                Ok(bytes)
            },
            _ => Err(RosbagError::MessageParsingError(concat3("Field '", field, "' is not an array"))),
        }
    }

    fn get_nested_value(&self, path: &[&str]) -> (r: Result<&Value, RosbagError>)
        ensures
            match nested_lookup(*self, strs_view(path@)) {
                Ok(v) => r matches Ok(w) && *w == v,
                Err(text) => r matches Err(RosbagError::MessageParsingError(m)) && m@ == text,
            },
    {
        let ghost pv = strs_view(path@);
        let mut current: &Value = self;
        let n = path.len();
        let mut i: usize = 0;
        assert(pv.skip(0) =~= pv);
        while i < n
            invariant
                n == path@.len(),
                0 <= i <= n,
                pv == strs_view(path@),
                nested_lookup(*self, pv) == nested_lookup(*current, pv.skip(i as int)),
            decreases n - i,
        {
            let field = path[i];
            assert(pv.skip(i as int)[0] == field@);
            assert(pv.skip(i as int).drop_first() =~= pv.skip(i + 1));
            let map = match current.as_map() {
                Some(m) => m,
                None => {
                    return Err(RosbagError::MessageParsingError(concat3("Field '", field, "' is not a map")));
                },
            };
            current = match find_field(map, field) {
                Some(v) => v,
                None => {
                    return Err(RosbagError::MessageParsingError(concat3("Field '", field, "' not found")));
                },
            };
            i = i + 1;
        }
        assert(pv.skip(n as int).len() == 0);
        Ok(current)
    }

    fn get_nested<T: FromValue>(&self, path: &[&str]) -> (r: Result<T, RosbagError>)
        ensures
            match nested_lookup(*self, strs_view(path@)) {
                Ok(v) => match T::spec_from_value(v) {
                    Some(t) => r == Ok::<T, RosbagError>(t),
                    None => r matches Err(RosbagError::MessageParsingError(m)) && m@
                        == nested_wrong_type_text(strs_view(path@), T::spec_kind_name()),
                },
                Err(text) => r matches Err(RosbagError::MessageParsingError(m)) && m@ == text,
            },
    {
        let value = self.get_nested_value(path)?;
        match T::from_value(value) {
            Some(t) => Ok(t),
            None => {
                let mut m = String::from_str("Nested path ");
                m.append(debug_strs(path).as_str());
                m.append(" is not a ");
                m.append(T::kind_name());
                Err(RosbagError::MessageParsingError(m))
            },
        }
    }
}

/// A list whose prefix holds a non-`U8` item has no bytes.
pub proof fn lemma_u8_items_prefix(items: Seq<Value>, k: int)
    requires
        0 <= k <= items.len(),
        u8_items(items.take(k)) is None,
    ensures
        u8_items(items) is None,
    decreases items.len() - k,
{
    if k < items.len() {
        assert(items.take(k + 1).drop_last() =~= items.take(k));
        lemma_u8_items_prefix(items, k + 1);
    } else {
        assert(items.take(k) =~= items);
    }
}

} // verus!
