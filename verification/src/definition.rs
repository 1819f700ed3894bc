//! Message types and message definitions, as the `ros_message` crate reads them.
use vstd::prelude::*;
use vstd::string::*;

use crate::error::RosbagError;
use crate::fmt::{decimal, fmt_u64};
use crate::brackets::{array_lengths_fit, lengths_fit};
use crate::text::{chars_of, split, split_ranges, str_eq, string_of, trim, trim_range};

verus! {

/// The name of a message type: a package and a name within it (`package/Name`).
#[derive(Debug)]
pub struct MessagePath {
    pub package: String,
    pub name: String,
}

/// Whether `c` may start a package name.
pub open spec fn is_lower_letter(c: char) -> bool {
    'a' <= c <= 'z'
}

/// Whether `c` may follow the first character of a package name.
pub open spec fn is_package_char(c: char) -> bool {
    is_lower_letter(c) || ('0' <= c <= '9') || c == '_'
}

/// A package name as REP 144 asks for it: `[a-z][a-z0-9_]+`, with no `__`.
pub open spec fn valid_package(p: Seq<char>) -> bool {
    &&& p.len() >= 2
    &&& is_lower_letter(p[0])
    &&& forall|i: int| 1 <= i < p.len() ==> is_package_char(#[trigger] p[i])
    &&& forall|i: int| 0 <= i < p.len() - 1 ==> !(#[trigger] p[i] == '_' && p[i + 1] == '_')
}

/// Whether `s` holds no `/`.
pub open spec fn no_slash(s: Seq<char>) -> bool {
    forall|i: int| 0 <= i < s.len() ==> s[i] != '/'
}

/// What `MessagePath::try_from` reads from a text: for `package/name` with exactly one `/`
/// and a valid package, the package and the name.
pub open spec fn spec_message_path(s: Seq<char>) -> Option<(Seq<char>, Seq<char>)> {
    if exists|k: int| 0 <= k < s.len() && s[k] == '/' && no_slash(s.take(k)) && no_slash(
        s.skip(k + 1),
    ) {
        let k = choose|k: int|
            0 <= k < s.len() && s[k] == '/' && no_slash(s.take(k)) && no_slash(s.skip(k + 1));
        if valid_package(s.take(k)) {
            Some((s.take(k), s.skip(k + 1)))
        } else {
            None
        }
    } else {
        None
    }
}

/// `ros_message::MessagePath::try_from`: splits `package/name` at its only `/` and checks the
/// package name against REP 144; anything else is refused.
#[verifier::external_body]
fn ros_message_path(s: &str) -> (r: core::result::Result<MessagePath, ros_message::Error>)
    ensures
        match spec_message_path(s@) {
            Some((package, name)) => r matches Ok(m) && m.package@ == package && m.name@ == name,
            None => r is Err,
        },
{
    ros_message::MessagePath::try_from(s).map(
        |p| MessagePath { package: p.package().to_string(), name: p.name().to_string() },
    )
}

impl MessagePath {
    /// Reads a message type name such as `sensor_msgs/Imu`.
    pub fn parse(s: &str) -> (r: Result<MessagePath, RosbagError>)
        ensures
            match spec_message_path(s@) {
                Some((package, name)) => r matches Ok(m) && m.package@ == package && m.name@
                    == name,
                None => r matches Err(RosbagError::RosMessageError(_)),
            },
    {
        match ros_message_path(s) {
            Ok(m) => Ok(m),
            Err(e) => Err(RosbagError::RosMessageError(e)),
        }
    }

    /// The text of the name: `package/name`.
    pub fn to_text(&self) -> (r: String)
        ensures
            r@ == self.package@ + "/"@ + self.name@,
    {
        crate::text::concat3(self.package.as_str(), "/", self.name.as_str())
    }

    /// Whether two names are the same.
    pub fn same_as(&self, other: &MessagePath) -> (r: bool)
        ensures
            r == (self.package@ == other.package@ && self.name@ == other.name@),
    {
        str_eq(self.package.as_str(), other.package.as_str()) && str_eq(
            self.name.as_str(),
            other.name.as_str(),
        )
    }

    /// A copy of the name.
    pub fn copy(&self) -> (r: MessagePath)
        ensures
            r.package@ == self.package@,
            r.name@ == self.name@,
    {
        MessagePath { package: self.package.clone(), name: self.name.clone() }
    }
}

impl MessagePath {
    /// A name as `ros_message` builds them: a valid package and a name without `/`.
    pub open spec fn wf(&self) -> bool {
        valid_package(self.package@) && no_slash(self.name@)
    }
}

/// The two spellings of a signed byte.
#[derive(Clone, Copy, Debug, PartialEq, Eq, Structural)]
pub enum I8Variant {
    Int8,
    Byte,
}

/// The two spellings of an unsigned byte.
#[derive(Clone, Copy, Debug, PartialEq, Eq, Structural)]
pub enum U8Variant {
    Uint8,
    Char,
}

/// The type of a field in a message definition.
#[derive(Debug)]
pub enum FieldType {
    Bool,
    I8(I8Variant),
    I16,
    I32,
    I64,
    U8(U8Variant),
    U16,
    U32,
    U64,
    F32,
    F64,
    String,
    Time,
    Duration,
    /// A message of the same package, named without its package.
    LocalMessage(String),
    /// A message named with its package.
    GlobalMessage(MessagePath),
}

/// The content of a [`FieldType`].
pub enum FieldTypeView {
    Bool,
    I8(I8Variant),
    I16,
    I32,
    I64,
    U8(U8Variant),
    U16,
    U32,
    U64,
    F32,
    F64,
    String,
    Time,
    Duration,
    LocalMessage(Seq<char>),
    GlobalMessage(Seq<char>, Seq<char>),
}

impl View for FieldType {
    type V = FieldTypeView;

    open spec fn view(&self) -> FieldTypeView {
        match *self {
            FieldType::Bool => FieldTypeView::Bool,
            FieldType::I8(v) => FieldTypeView::I8(v),
            FieldType::I16 => FieldTypeView::I16,
            FieldType::I32 => FieldTypeView::I32,
            FieldType::I64 => FieldTypeView::I64,
            FieldType::U8(v) => FieldTypeView::U8(v),
            FieldType::U16 => FieldTypeView::U16,
            FieldType::U32 => FieldTypeView::U32,
            FieldType::U64 => FieldTypeView::U64,
            FieldType::F32 => FieldTypeView::F32,
            FieldType::F64 => FieldTypeView::F64,
            FieldType::String => FieldTypeView::String,
            FieldType::Time => FieldTypeView::Time,
            FieldType::Duration => FieldTypeView::Duration,
            FieldType::LocalMessage(n) => FieldTypeView::LocalMessage(n@),
            FieldType::GlobalMessage(p) => FieldTypeView::GlobalMessage(p.package@, p.name@),
        }
    }
}

/// How a field holds its type: once, as a list of any length, as a list of fixed length,
/// or as a constant of the definition (with its unparsed value).
#[derive(Debug)]
pub enum FieldCase {
    Unit,
    Vector,
    Array(usize),
    Const(String),
}

/// A field of a message definition as `ros_message` lists it: its name, the text of its
/// type, and its case.
#[derive(Debug)]
pub struct RawField {
    pub name: String,
    pub datatype: String,
    pub case: FieldCase,
}

/// A field of a message definition.
#[derive(Debug)]
pub struct FieldDef {
    pub name: String,
    pub datatype: FieldType,
    pub case: FieldCase,
}

/// A message definition: the name of the message and its fields, in order.
#[derive(Debug)]
pub struct MsgDef {
    pub path: MessagePath,
    pub fields: Vec<FieldDef>,
}

/// The index of the first `c` in `s`.
pub open spec fn index_of(s: Seq<char>, c: char) -> Option<int>
    decreases s.len(),
{
    if s.len() == 0 {
        None
    } else if s[0] == c {
        Some(0)
    } else {
        match index_of(s.drop_first(), c) {
            Some(k) => Some(k + 1),
            None => None,
        }
    }
}

/// `index_of` finds the first occurrence.
pub proof fn lemma_index_of(s: Seq<char>, c: char)
    ensures
        match index_of(s, c) {
            Some(k) => 0 <= k < s.len() && s[k] == c && forall|j: int| 0 <= j < k ==> s[j] != c,
            None => forall|j: int| 0 <= j < s.len() ==> s[j] != c,
        },
    decreases s.len(),
{
    if s.len() > 0 {
        lemma_index_of(s.drop_first(), c);
        if s[0] != c {
            assert forall|j: int| 1 <= j < s.len() implies s[j] == s.drop_first()[j - 1] by {}
        }
    }
}

/// Finds the first `c` in `s`.
pub fn find_char(s: &str, c: char) -> (r: Option<usize>)
    ensures
        match r {
            Some(k) => index_of(s@, c) == Some(k as int) && k < s@.len(),
            None => index_of(s@, c) is None,
        },
{
    proof {
        lemma_index_of(s@, c);
    }
    let n = s.unicode_len();
    let mut i: usize = 0;
    while i < n
        invariant
            n == s@.len(),
            0 <= i <= n,
            forall|j: int| 0 <= j < i ==> s@[j] != c,
            match index_of(s@, c) {
                Some(k) => 0 <= k < s@.len() && s@[k] == c && forall|j: int|
                    0 <= j < k ==> s@[j] != c,
                None => forall|j: int| 0 <= j < s@.len() ==> s@[j] != c,
            },
        decreases n - i,
    {
        if s.get_char(i) == c {
            return Some(i);
        }
        i = i + 1;
    }
    None
}

/// The type that a type name of `ros_message` stands for: a built-in type, a message named
/// with its package (`package/Name`, split at the first `/`), or a message of the same
/// package.
pub open spec fn classify(t: Seq<char>) -> FieldTypeView {
    if t == "bool"@ {
        FieldTypeView::Bool
    } else if t == "int8"@ {
        FieldTypeView::I8(I8Variant::Int8)
    } else if t == "byte"@ {
        FieldTypeView::I8(I8Variant::Byte)
    } else if t == "int16"@ {
        FieldTypeView::I16
    } else if t == "int32"@ {
        FieldTypeView::I32
    } else if t == "int64"@ {
        FieldTypeView::I64
    } else if t == "uint8"@ {
        FieldTypeView::U8(U8Variant::Uint8)
    } else if t == "char"@ {
        FieldTypeView::U8(U8Variant::Char)
    } else if t == "uint16"@ {
        FieldTypeView::U16
    } else if t == "uint32"@ {
        FieldTypeView::U32
    } else if t == "uint64"@ {
        FieldTypeView::U64
    } else if t == "float32"@ {
        FieldTypeView::F32
    } else if t == "float64"@ {
        FieldTypeView::F64
    } else if t == "string"@ {
        FieldTypeView::String
    } else if t == "time"@ {
        FieldTypeView::Time
    } else if t == "duration"@ {
        FieldTypeView::Duration
    } else {
        match index_of(t, '/') {
            Some(k) => FieldTypeView::GlobalMessage(t.take(k), t.skip(k + 1)),
            None => FieldTypeView::LocalMessage(t),
        }
    }
}

/// The text of a type, as `ros_message` writes it.
pub open spec fn type_text(t: FieldTypeView) -> Seq<char> {
    match t {
        FieldTypeView::Bool => "bool"@,
        FieldTypeView::I8(I8Variant::Int8) => "int8"@,
        FieldTypeView::I8(I8Variant::Byte) => "byte"@,
        FieldTypeView::I16 => "int16"@,
        FieldTypeView::I32 => "int32"@,
        FieldTypeView::I64 => "int64"@,
        FieldTypeView::U8(U8Variant::Uint8) => "uint8"@,
        FieldTypeView::U8(U8Variant::Char) => "char"@,
        FieldTypeView::U16 => "uint16"@,
        FieldTypeView::U32 => "uint32"@,
        FieldTypeView::U64 => "uint64"@,
        FieldTypeView::F32 => "float32"@,
        FieldTypeView::F64 => "float64"@,
        FieldTypeView::String => "string"@,
        FieldTypeView::Time => "time"@,
        FieldTypeView::Duration => "duration"@,
        FieldTypeView::LocalMessage(n) => n,
        FieldTypeView::GlobalMessage(p, n) => p + "/"@ + n,
    }
}

/// Reads the text of a type as `ros_message` writes it.
pub fn classify_type(t: &str) -> (r: FieldType)
    ensures
        r@ == classify(t@),
{
    if str_eq(t, "bool") {
        FieldType::Bool
    } else if str_eq(t, "int8") {
        FieldType::I8(I8Variant::Int8)
    } else if str_eq(t, "byte") {
        FieldType::I8(I8Variant::Byte)
    } else if str_eq(t, "int16") {
        FieldType::I16
    } else if str_eq(t, "int32") {
        FieldType::I32
    } else if str_eq(t, "int64") {
        FieldType::I64
    } else if str_eq(t, "uint8") {
        FieldType::U8(U8Variant::Uint8)
    } else if str_eq(t, "char") {
        FieldType::U8(U8Variant::Char)
    } else if str_eq(t, "uint16") {
        FieldType::U16
    } else if str_eq(t, "uint32") {
        FieldType::U32
    } else if str_eq(t, "uint64") {
        FieldType::U64
    } else if str_eq(t, "float32") {
        FieldType::F32
    } else if str_eq(t, "float64") {
        FieldType::F64
    } else if str_eq(t, "string") {
        FieldType::String
    } else if str_eq(t, "time") {
        FieldType::Time
    } else if str_eq(t, "duration") {
        FieldType::Duration
    } else {
        match find_char(t, '/') {
            Some(k) => {
                proof {
                    lemma_index_of(t@, '/');
                }
                let n = t.unicode_len();
                let package = String::from_str(t.substring_char(0, k));
                let name = String::from_str(t.substring_char(k + 1, n));
                assert(t@.subrange(0, k as int) =~= t@.take(k as int));
                assert(t@.subrange(k + 1, n as int) =~= t@.skip(k + 1));
                FieldType::GlobalMessage(MessagePath { package, name })
            },
            None => FieldType::LocalMessage(String::from_str(t)),
        }
    }
}

/// Whether a type is one that `ros_message` builds: a message of the same package has a name
/// without `/` that is not the name of a built-in type, and a package has no `/`.
pub open spec fn type_wf(t: FieldTypeView) -> bool {
    match t {
        FieldTypeView::LocalMessage(n) => no_slash(n) && classify(n) == FieldTypeView::LocalMessage(n),
        FieldTypeView::GlobalMessage(p, n) => no_slash(p),
        _ => true,
    }
}

/// Reading back the text of a type gives the type: the text that `ros_message` writes for a
/// field's type is read as that type.
pub proof fn lemma_classify_type_text(t: FieldTypeView)
    requires
        type_wf(t),
    ensures
        classify(type_text(t)) == t,
{
    reveal_strlit("bool");
    reveal_strlit("int8");
    reveal_strlit("byte");
    reveal_strlit("int16");
    reveal_strlit("int32");
    reveal_strlit("int64");
    reveal_strlit("uint8");
    reveal_strlit("char");
    reveal_strlit("uint16");
    reveal_strlit("uint32");
    reveal_strlit("uint64");
    reveal_strlit("float32");
    reveal_strlit("float64");
    reveal_strlit("string");
    reveal_strlit("time");
    reveal_strlit("duration");
    reveal_strlit("/");
    match t {
        FieldTypeView::GlobalMessage(p, n) => {
            let s = p + "/"@ + n;
            assert(s[p.len() as int] == '/');
            assert(no_slash("bool"@) && no_slash("int8"@) && no_slash("byte"@) && no_slash("int16"@));
            assert(no_slash("int32"@) && no_slash("int64"@) && no_slash("uint8"@) && no_slash("char"@));
            assert(no_slash("uint16"@) && no_slash("uint32"@) && no_slash("uint64"@));
            assert(no_slash("float32"@) && no_slash("float64"@) && no_slash("string"@));
            assert(no_slash("time"@) && no_slash("duration"@));
            lemma_index_of(s, '/');
            assert forall|j: int| 0 <= j < p.len() implies s[j] != '/' by {
                assert(s[j] == p[j]);
            }
            assert(index_of(s, '/') == Some(p.len() as int));
            assert(s.take(p.len() as int) =~= p);
            assert(s.skip(p.len() as int + 1) =~= n);
        },
        _ => {
            assert("bool"@[0] == 'b' && "bool"@[1] == 'o' && "byte"@[0] == 'b' && "byte"@[1] == 'y');
            assert("int8"@[0] == 'i' && "int16"@[0] == 'i' && "int16"@[3] == '1');
            assert("int32"@[0] == 'i' && "int32"@[3] == '3' && "int64"@[0] == 'i' && "int64"@[3] == '6');
            assert("uint8"@[0] == 'u' && "uint16"@[4] == '1' && "uint32"@[4] == '3');
            assert("uint64"@[0] == 'u' && "uint64"@[4] == '6' && "uint16"@[0] == 'u' && "uint32"@[0] == 'u');
            assert("char"@[0] == 'c' && "float32"@[0] == 'f' && "float32"@[5] == '3');
            assert("float64"@[0] == 'f' && "float64"@[5] == '6' && "string"@[0] == 's');
            assert("time"@[0] == 't' && "duration"@[0] == 'd');
        },
    }
}

/// Reading back the text of a message type name gives the name.
pub proof fn lemma_message_path_text(package: Seq<char>, name: Seq<char>)
    requires
        valid_package(package),
        no_slash(name),
    ensures
        spec_message_path(package + "/"@ + name) == Some((package, name)),
{
    reveal_strlit("/");
    let s = package + "/"@ + name;
    let k0 = package.len() as int;
    assert(s.take(k0) =~= package);
    assert(s.skip(k0 + 1) =~= name);
    assert(s[k0] == '/');
    let k = choose|k: int|
        0 <= k < s.len() && s[k] == '/' && no_slash(s.take(k)) && no_slash(s.skip(k + 1));
    if k < k0 {
        assert(s.take(k0)[k] == '/');
    } else if k > k0 {
        assert(s.skip(k0 + 1)[k - k0 - 1] == '/');
    }
}

/// The content of a [`FieldCase`].
pub enum FieldCaseView {
    Unit,
    Vector,
    Array(usize),
    Const(Seq<char>),
}

impl View for FieldCase {
    type V = FieldCaseView;

    open spec fn view(&self) -> FieldCaseView {
        match *self {
            FieldCase::Unit => FieldCaseView::Unit,
            FieldCase::Vector => FieldCaseView::Vector,
            FieldCase::Array(n) => FieldCaseView::Array(n),
            FieldCase::Const(s) => FieldCaseView::Const(s@),
        }
    }
}

/// The fields that `ros_message::Msg::new` reads from the source of a message definition,
/// or `None` when it refuses the source.
pub uninterp spec fn ros_msg_fields(source: Seq<char>) -> Option<Seq<RawField>>;

/// `ros_message::Msg::new`: reads the fields of a message definition from its source. The
/// fields depend on the source alone; the name is only stored with them. `Msg::new` stops the
/// program on an array field whose length does not fit in `usize`; the `requires` leaves such
/// sources out. It does so for every line, although `ros_message` stops reading at the first
/// line it refuses, so a source with a refused line before such a field is left out too.
#[verifier::external_body]
fn ros_msg_new(path: &MessagePath, source: &str) -> (r: core::result::Result<
    Vec<RawField>,
    ros_message::Error,
>)
    requires
        path.wf(),
        lengths_fit(source@),
    ensures
        match ros_msg_fields(source@) {
            Some(fields) => r matches Ok(v) && v@ == fields,
            None => r is Err,
        },
{
    let p = ros_message::MessagePath::new(path.package.as_str(), path.name.as_str())?;
    let msg = ros_message::Msg::new(p, source)?;
    Ok(msg.fields().iter().map(|f| RawField {
        name: f.name().to_string(),
        datatype: f.datatype().to_string(),
        case: match f.case() {
            ros_message::FieldCase::Unit => FieldCase::Unit,
            ros_message::FieldCase::Vector => FieldCase::Vector,
            ros_message::FieldCase::Array(n) => FieldCase::Array(*n),
            ros_message::FieldCase::Const(v) => FieldCase::Const(v.clone()),
        },
    }).collect())
}

/// A field of a definition read from a field as `ros_message` lists it.
pub open spec fn field_from_raw(d: FieldDef, r: RawField) -> bool {
    &&& d.name@ == r.name@
    &&& d.datatype@ == classify(r.datatype@)
    &&& d.case@ == r.case@
}

/// The fields of a definition read from fields as `ros_message` lists them.
pub open spec fn fields_from_raw(ds: Seq<FieldDef>, rs: Seq<RawField>) -> bool {
    &&& ds.len() == rs.len()
    &&& forall|i: int| 0 <= i < ds.len() ==> field_from_raw(#[trigger] ds[i], rs[i])
}

impl MsgDef {
    /// Reads the message definition of `path` from its source text.
    pub fn new(path: MessagePath, source: &str) -> (r: Result<MsgDef, RosbagError>)
        requires
            path.wf(),
            lengths_fit(source@),
        ensures
            match ros_msg_fields(source@) {
                Some(raw) => r matches Ok(d) && d.path == path && fields_from_raw(d.fields@, raw),
                None => r matches Err(RosbagError::RosMessageError(_)),
            },
    {
        let raw = match ros_msg_new(&path, source) {
            Ok(v) => v,
            Err(e) => {
                return Err(RosbagError::RosMessageError(e));
            },
        };
        let mut fields: Vec<FieldDef> = Vec::new();
        let n = raw.len();
        let mut i: usize = 0;
        while i < n
            invariant
                n == raw@.len(),
                0 <= i <= n,
                fields@.len() == i,
                forall|j: int| 0 <= j < i ==> field_from_raw(#[trigger] fields@[j], raw@[j]),
            decreases n - i,
        {
            let rf = &raw[i];
            let case = match &rf.case {
                FieldCase::Unit => FieldCase::Unit,
                FieldCase::Vector => FieldCase::Vector,
                FieldCase::Array(k) => FieldCase::Array(*k),
                FieldCase::Const(v) => FieldCase::Const(v.clone()),
            };
            fields.push(
                FieldDef {
                    name: rf.name.clone(),
                    datatype: classify_type(rf.datatype.as_str()),
                    case,
                },
            );
            i = i + 1;
        }
        Ok(MsgDef { path, fields })
    }
}

/// The line of `=` that separates the definitions of a connection's message and of the
/// messages it uses.
pub open spec fn separator() -> Seq<char> {
    Seq::new(80, |_i: int| '=')
}

/// The type names and sources of the definitions after the first, read from the parts of the
/// full definition text: each part is trimmed; a part without a line break is passed over; a
/// part whose first line has no `MSG: ` ends the list; otherwise the text after the first
/// `MSG: ` (up to a next one) names the type and the lines after the first are its source.
pub open spec fn dependency_entries(parts: Seq<Seq<char>>) -> Seq<(Seq<char>, Seq<char>)>
    decreases parts.len(),
{
    if parts.len() == 0 {
        Seq::empty()
    } else {
        let def = trim(parts[0]);
        match index_of(def, '\n') {
            None => dependency_entries(parts.drop_first()),
            Some(k) => {
                let pieces = split(def.take(k), "MSG: "@);
                if pieces.len() < 2 {
                    Seq::empty()
                } else {
                    seq![(pieces[1], def.skip(k + 1))] + dependency_entries(parts.drop_first())
                }
            },
        }
    }
}

/// Whether `d` is the definition of `package/name` read from `source`.
pub open spec fn def_from(d: MsgDef, package: Seq<char>, name: Seq<char>, source: Seq<char>) -> bool {
    &&& d.path.package@ == package
    &&& d.path.name@ == name
    &&& ros_msg_fields(source) matches Some(raw) && fields_from_raw(d.fields@, raw)
}

/// Whether `defs` are the definitions read from the full definition text of a connection of
/// type `package/name`: that of the type itself, then one for each dependency entry.
pub open spec fn dependencies_from(
    defs: Seq<MsgDef>,
    package: Seq<char>,
    name: Seq<char>,
    text: Seq<char>,
) -> bool {
    let parts = split(text, separator());
    let entries = dependency_entries(parts.drop_first());
    &&& defs.len() == entries.len() + 1
    &&& def_from(defs[0], package, name, parts[0])
    &&& forall|j: int|
        0 <= j < entries.len() ==> def_from(
            #[trigger] defs[j + 1],
            spec_message_path(entries[j].0).unwrap().0,
            spec_message_path(entries[j].0).unwrap().1,
            entries[j].1,
        )
}

/// Whether every definition in a full definition text can be read.
pub open spec fn dependencies_readable(text: Seq<char>) -> bool {
    let parts = split(text, separator());
    let entries = dependency_entries(parts.drop_first());
    &&& ros_msg_fields(parts[0]) is Some
    &&& forall|j: int|
        0 <= j < entries.len() ==> spec_message_path(#[trigger] entries[j].0) is Some
            && ros_msg_fields(entries[j].1) is Some
}

/// `split` gives at least one piece.
pub proof fn lemma_split_nonempty(s: Seq<char>, pat: Seq<char>)
    ensures
        split(s, pat).len() >= 1,
{
}

/// Finds the first `c` in `v[a..b]`, as an index into `v`.
fn find_char_in(v: &Vec<char>, c: char, a: usize, b: usize) -> (r: Option<usize>)
    requires
        a <= b <= v@.len(),
    ensures
        match r {
            Some(k) => a <= k < b && index_of(v@.subrange(a as int, b as int), c) == Some(k - a),
            None => index_of(v@.subrange(a as int, b as int), c) is None,
        },
{
    let ghost s = v@.subrange(a as int, b as int);
    proof {
        lemma_index_of(s, c);
    }
    let mut i = a;
    while i < b
        invariant
            a <= i <= b,
            b <= v@.len(),
            s == v@.subrange(a as int, b as int),
            forall|j: int| a <= j < i ==> v@[j] != c,
            match index_of(s, c) {
                Some(k) => 0 <= k < s.len() && s[k] == c && forall|j: int| 0 <= j < k ==> s[j] != c,
                None => forall|j: int| 0 <= j < s.len() ==> s[j] != c,
            },
        decreases b - i,
    {
        if v[i] == c {
            proof {
                match index_of(s, c) {
                    Some(k) => {
                        assert(s[i - a] == c);
                        if k < i - a {
                            assert(s[k] == v@[a + k]);
                        }
                    },
                    None => {
                        assert(s[i - a] == v@[i as int]);
                    },
                }
            }
            return Some(i);
        }
        i = i + 1;
    }
    proof {
        match index_of(s, c) {
            Some(k) => {
                assert(s[k] == v@[a + k]);
            },
            None => {},
        }
    }
    None
}

/// Whether every array length that `ros_message` reads from the definitions of a full
/// definition text fits in `usize`: in the connection's own definition and in each dependency.
pub open spec fn sections_fit(text: Seq<char>) -> bool {
    let parts = split(text, separator());
    let entries = dependency_entries(parts.drop_first());
    &&& lengths_fit(parts[0])
    &&& forall|j: int| 0 <= j < entries.len() ==> lengths_fit(#[trigger] entries[j].1)
}

/// The source of a connection's own definition, then the type name and source of each
/// dependency, read from its full definition text.
#[verifier::rlimit(40)]
fn dependency_sources(msg_def: &str) -> (r: (String, Vec<(String, String)>))
    ensures
        r.0@ == split(msg_def@, separator())[0],
        r.1@.len() == dependency_entries(split(msg_def@, separator()).drop_first()).len(),
        forall|j: int|
            0 <= j < r.1@.len() ==> (#[trigger] r.1@[j]).0@ == dependency_entries(
                split(msg_def@, separator()).drop_first(),
            )[j].0 && r.1@[j].1@ == dependency_entries(
                split(msg_def@, separator()).drop_first(),
            )[j].1,
{
    let text = chars_of(msg_def);
    let mut sep: Vec<char> = Vec::new();
    let mut q: usize = 0;
    while q < 80
        invariant
            q <= 80,
            sep@.len() == q,
            forall|j: int| 0 <= j < q ==> sep@[j] == '=',
        decreases 80 - q,
    {
        sep.push('=');
        q = q + 1;
    }
    assert(sep@ =~= separator());
    assert(text@ == msg_def@);
    let parts = split_ranges(&text, &sep);
    let ghost pv = split(msg_def@, separator());
    proof {
        lemma_split_nonempty(msg_def@, separator());
    }
    let src0 = string_of(&text, parts[0].0, parts[0].1);
    let mut out: Vec<(String, String)> = Vec::new();
    let msg_pat = chars_of("MSG: ");
    proof {
        reveal_strlit("MSG: ");
    }
    let ghost all = dependency_entries(pv.drop_first());
    let ghost mut done: Seq<(Seq<char>, Seq<char>)> = Seq::empty();
    let n = parts.len();
    let mut i: usize = 1;
    let mut stop = false;
    assert(pv.drop_first() =~= pv.skip(1));
    while i < n && !stop
        invariant
            1 <= i <= n,
            n == parts@.len(),
            n == pv.len(),
            text@ == msg_def@,
            msg_pat@ == "MSG: "@,
            msg_pat@.len() == 5,
            pv == split(msg_def@, separator()),
            forall|j: int|
                0 <= j < parts@.len() ==> #[trigger] parts@[j].0 <= parts@[j].1 <= text@.len()
                    && text@.subrange(parts@[j].0 as int, parts@[j].1 as int) == pv[j],
            all == dependency_entries(pv.drop_first()),
            !stop ==> all == done + dependency_entries(pv.skip(i as int)),
            stop ==> all == done,
            out@.len() == done.len(),
            forall|j: int|
                0 <= j < done.len() ==> (#[trigger] out@[j]).0@ == done[j].0 && out@[j].1@
                    == done[j].1,
        decreases n - i,
    {
        let ghost rest = pv.skip(i as int);
        assert(rest[0] == pv[i as int]);
        assert(rest.drop_first() =~= pv.skip(i + 1));
        let (a, b) = trim_range(&text, parts[i].0, parts[i].1);
        let ghost def = trim(pv[i as int]);
        assert(def == text@.subrange(a as int, b as int));
        match find_char_in(&text, '\n', a, b) {
            None => {},
            Some(k) => {
                let line_str = string_of(&text, a, k);
                let line = chars_of(line_str.as_str());
                assert(line@ =~= def.take(k - a));
                let pieces = split_ranges(&line, &msg_pat);
                if pieces.len() < 2 {
                    assert(dependency_entries(rest) =~= Seq::<(Seq<char>, Seq<char>)>::empty());
                    assert(all =~= done);
                    stop = true;
                } else {
                    let name = string_of(&line, pieces[1].0, pieces[1].1);
                    let src = string_of(&text, k + 1, b);
                    assert(src@ =~= def.skip(k - a + 1));
                    let ghost entry = (name@, src@);
                    assert(dependency_entries(rest) == seq![entry] + dependency_entries(
                        rest.drop_first(),
                    ));
                    out.push((name, src));
                    proof {
                        done = done.push(entry);
                        assert(all =~= done + dependency_entries(pv.skip(i + 1)));
                    }
                }
            },
        }
        i = i + 1;
    }
    proof {
        if !stop {
            assert(pv.skip(n as int) =~= Seq::<Seq<char>>::empty());
            assert(all =~= done);
        }
    }
    (src0, out)
}

/// Whether every array length that `ros_message` reads from the definitions of a full
/// definition text fits in `usize`.
pub fn definition_lengths_fit(msg_def: &str) -> (r: bool)
    ensures
        r == sections_fit(msg_def@),
{
    let (src0, entries) = dependency_sources(msg_def);
    if !array_lengths_fit(src0.as_str()) {
        return false;
    }
    let ghost all = dependency_entries(split(msg_def@, separator()).drop_first());
    let mut j: usize = 0;
    while j < entries.len()
        invariant
            j <= entries@.len() == all.len(),
            all == dependency_entries(split(msg_def@, separator()).drop_first()),
            forall|k: int| 0 <= k < entries@.len() ==> (#[trigger] entries@[k]).1@ == all[k].1,
            forall|k: int| 0 <= k < j ==> lengths_fit(#[trigger] all[k].1),
        decreases entries@.len() - j,
    {
        if !array_lengths_fit(entries[j].1.as_str()) {
            assert(entries@[j as int].1@ == all[j as int].1);
            return false;
        }
        j = j + 1;
    }
    true
}

/// Reads the definitions in the full definition text of a connection: the message's own
/// definition first, then those of the messages it uses.
#[verifier::rlimit(40)]
pub fn get_dependencies(msg_path: &MessagePath, msg_def: &str) -> (r: Result<
    Vec<MsgDef>,
    RosbagError,
>)
    requires
        msg_path.wf(),
        sections_fit(msg_def@),
    ensures
        if dependencies_readable(msg_def@) {
            r matches Ok(defs) && dependencies_from(defs@, msg_path.package@, msg_path.name@, msg_def@)
        } else {
            r matches Err(RosbagError::RosMessageError(_))
        },
{
    let (src0, entries) = dependency_sources(msg_def);
    let ghost pv = split(msg_def@, separator());
    let ghost all = dependency_entries(pv.drop_first());
    let main = match MsgDef::new(msg_path.copy(), src0.as_str()) {
        Ok(d) => d,
        Err(e) => {
            assert(!dependencies_readable(msg_def@));
            return Err(e);
        },
    };
    let mut defs: Vec<MsgDef> = Vec::new();
    defs.push(main);
    let mut j: usize = 0;
    while j < entries.len()
        invariant
            j <= entries@.len() == all.len(),
            pv == split(msg_def@, separator()),
            all == dependency_entries(pv.drop_first()),
            sections_fit(msg_def@),
            forall|k: int|
                0 <= k < entries@.len() ==> (#[trigger] entries@[k]).0@ == all[k].0
                    && entries@[k].1@ == all[k].1,
            forall|k: int| 0 <= k < j ==> entry_readable(#[trigger] all[k]),
            defs@.len() == j + 1,
            def_from(defs@[0], msg_path.package@, msg_path.name@, pv[0]),
            forall|k: int|
                0 <= k < j ==> def_from(
                    #[trigger] defs@[k + 1],
                    spec_message_path(all[k].0).unwrap().0,
                    spec_message_path(all[k].0).unwrap().1,
                    all[k].1,
                ),
        decreases entries@.len() - j,
    {
        assert(entries@[j as int].0@ == all[j as int].0);
        assert(lengths_fit(all[j as int].1));
        let path = match MessagePath::parse(entries[j].0.as_str()) {
            Ok(p) => p,
            Err(e) => {
                proof {
                    lemma_not_readable(msg_def@, all, j as int);
                }
                return Err(e);
            },
        };
        let d = match MsgDef::new(path, entries[j].1.as_str()) {
            Ok(d) => d,
            Err(e) => {
                proof {
                    lemma_not_readable(msg_def@, all, j as int);
                }
                return Err(e);
            },
        };
        defs.push(d);
        j = j + 1;
    }
    Ok(defs)
}

/// A definition text with an unreadable dependency is not readable.
proof fn lemma_not_readable(text: Seq<char>, all: Seq<(Seq<char>, Seq<char>)>, j: int)
    requires
        all == dependency_entries(split(text, separator()).drop_first()),
        0 <= j < all.len(),
        !entry_readable(all[j]),
    ensures
        !dependencies_readable(text),
{
}

/// Whether the type name and source of a dependency can be read.
pub open spec fn entry_readable(e: (Seq<char>, Seq<char>)) -> bool {
    spec_message_path(e.0) is Some && ros_msg_fields(e.1) is Some
}

/// What std's `Debug` writes for a string (quotes and escapes).
pub uninterp spec fn debug_text_of_str(s: Seq<char>) -> Seq<char>;

/// std's `Debug` formatting of a string.
#[verifier::external_body]
fn debug_str(s: &str) -> (r: String)
    ensures
        r@ == debug_text_of_str(s@),
{
    format!("{:?}", s)
}

/// The text of a field's case, as `Debug` writes `ros_message::FieldCase`.
pub open spec fn case_text(c: FieldCaseView) -> Seq<char> {
    match c {
        FieldCaseView::Unit => "Unit"@,
        FieldCaseView::Vector => "Vector"@,
        FieldCaseView::Array(n) => "Array("@ + decimal(n as nat) + ")"@,
        FieldCaseView::Const(v) => "Const("@ + debug_text_of_str(v) + ")"@,
    }
}

/// The line that shows a field in a definition tree.
pub open spec fn field_line(f: FieldDef) -> Seq<char> {
    "        |      "@ + f.name@ + ": "@ + type_text(f.datatype@) + " "@ + case_text(f.case@) + "\n"@
}

/// The lines of a list of fields.
pub open spec fn field_lines(fs: Seq<FieldDef>) -> Seq<char>
    decreases fs.len(),
{
    if fs.len() == 0 {
        Seq::empty()
    } else {
        field_lines(fs.drop_last()) + field_line(fs.last())
    }
}

/// The lines that show a definition: the first names the message's type, the others are
/// branches.
pub open spec fn def_block(first: bool, d: MsgDef) -> Seq<char> {
    (if first {
        "type: "@
    } else {
        "        |- "@
    }) + d.path.package@ + "/"@ + d.path.name@ + "\n"@ + field_lines(d.fields@)
}

/// The lines of a list of definitions.
pub open spec fn def_blocks(ds: Seq<MsgDef>) -> Seq<char>
    decreases ds.len(),
{
    if ds.len() == 0 {
        Seq::empty()
    } else {
        def_blocks(ds.drop_last()) + def_block(ds.len() == 1, ds.last())
    }
}

/// The tree that shows the definitions of a topic's message: the topic, the message type with
/// one line per field, then each type it uses with its fields.
pub open spec fn definition_tree_text(topic: Seq<char>, ds: Seq<MsgDef>) -> Seq<char> {
    "topic: "@ + topic + "\n"@ + def_blocks(ds)
}

/// The text of a type.
pub fn type_text_of(t: &FieldType) -> (r: String)
    ensures
        r@ == type_text(t@),
{
    match t {
        FieldType::Bool => String::from_str("bool"),
        FieldType::I8(I8Variant::Int8) => String::from_str("int8"),
        FieldType::I8(I8Variant::Byte) => String::from_str("byte"),
        FieldType::I16 => String::from_str("int16"),
        FieldType::I32 => String::from_str("int32"),
        FieldType::I64 => String::from_str("int64"),
        FieldType::U8(U8Variant::Uint8) => String::from_str("uint8"),
        FieldType::U8(U8Variant::Char) => String::from_str("char"),
        FieldType::U16 => String::from_str("uint16"),
        FieldType::U32 => String::from_str("uint32"),
        FieldType::U64 => String::from_str("uint64"),
        FieldType::F32 => String::from_str("float32"),
        FieldType::F64 => String::from_str("float64"),
        FieldType::String => String::from_str("string"),
        FieldType::Time => String::from_str("time"),
        FieldType::Duration => String::from_str("duration"),
        FieldType::LocalMessage(n) => n.clone(),
        FieldType::GlobalMessage(p) => p.to_text(),
    }
}

/// The text of a field's case.
pub fn case_text_of(c: &FieldCase) -> (r: String)
    ensures
        r@ == case_text(c@),
{
    match c {
        FieldCase::Unit => String::from_str("Unit"),
        FieldCase::Vector => String::from_str("Vector"),
        FieldCase::Array(n) => crate::text::concat3("Array(", fmt_u64(*n as u64).as_str(), ")"),
        FieldCase::Const(v) => crate::text::concat3("Const(", debug_str(v.as_str()).as_str(), ")"),
    }
}

/// Writes the tree that shows the definitions of a topic's message.
pub fn definition_tree(topic: &str, defs: &Vec<MsgDef>) -> (r: String)
    ensures
        r@ == definition_tree_text(topic@, defs@),
{
    let mut out = crate::text::concat3("topic: ", topic, "\n");
    let ghost head = out@;
    let mut i: usize = 0;
    assert(defs@.take(0) =~= Seq::<MsgDef>::empty());
    while i < defs.len()
        invariant
            i <= defs@.len(),
            out@ == head + def_blocks(defs@.take(i as int)),
        decreases defs@.len() - i,
    {
        let d = &defs[i];
        let ghost before = out@;
        if i == 0 {
            out.append("type: ");
        } else {
            out.append("        |- ");
        }
        out.append(d.path.to_text().as_str());
        out.append("\n");
        let ghost mid = out@;
        let mut j: usize = 0;
        assert(d.fields@.take(0) =~= Seq::<FieldDef>::empty());
        while j < d.fields.len()
            invariant
                j <= d.fields@.len(),
                out@ == mid + field_lines(d.fields@.take(j as int)),
            decreases d.fields@.len() - j,
        {
            let f = &d.fields[j];
            let ghost b2 = out@;
            out.append("        |      ");
            out.append(f.name.as_str());
            out.append(": ");
            out.append(type_text_of(&f.datatype).as_str());
            out.append(" ");
            out.append(case_text_of(&f.case).as_str());
            out.append("\n");
            assert(d.fields@.take(j + 1).drop_last() =~= d.fields@.take(j as int));
            assert(out@ =~= b2 + field_line(*f));
            j = j + 1;
        }
        assert(d.fields@.take(j as int) =~= d.fields@);
        assert(defs@.take(i + 1).drop_last() =~= defs@.take(i as int));
        assert(out@ =~= before + def_block(i == 0, *d));
        i = i + 1;
    }
    assert(defs@.take(i as int) =~= defs@);
    out
}

} // verus!
