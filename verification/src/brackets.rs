//! The lengths of fixed-length array fields in message definitions. `ros_message` reads the
//! length of a field line `TYPE[N] name` as a `usize` and stops the program on one that does not
//! fit, so a definition may only be handed to it when each such length fits. Comments (from `#`
//! on) and `string` constants are not read as fields, and a bracketed number anywhere else does
//! not make a field line.
use vstd::prelude::*;

use crate::text::{
    chars_of, digit_value, digits_number, is_white_space, is_whitespace, lemma_digits_number_prefix,
    lemma_digits_number_push, split, split_ranges, string_of, trim, trim_range,
};

verus! {

/// The classes of characters that a field line is read by.
#[derive(Clone, Copy)]
pub enum CharClass {
    /// White space (`\s` of the `regex` crate: the Unicode `White_Space` property).
    White,
    /// The characters of a type name: ASCII letters and digits, `_` and `/`.
    Type,
    /// ASCII digits.
    Digit,
    /// The characters of a field name after the first: ASCII letters and digits and `_`.
    Name,
}

/// Whether `c` is an ASCII letter.
pub open spec fn is_ascii_letter(c: char) -> bool {
    ('a' <= c <= 'z') || ('A' <= c <= 'Z')
}

/// Whether `c` belongs to a class.
pub open spec fn in_class(c: char, cls: CharClass) -> bool {
    match cls {
        CharClass::White => is_white_space(c),
        CharClass::Type => is_ascii_letter(c) || ('0' <= c <= '9') || c == '_' || c == '/',
        CharClass::Digit => '0' <= c <= '9',
        CharClass::Name => is_ascii_letter(c) || ('0' <= c <= '9') || c == '_',
    }
}

/// Where the run of characters of a class that starts at `k` ends.
pub open spec fn run_end(s: Seq<char>, k: int, cls: CharClass) -> int
    decreases s.len() - k,
{
    if 0 <= k < s.len() && in_class(s[k], cls) {
        run_end(s, k + 1, cls)
    } else {
        k
    }
}

/// A run ends within the text, and every character of it belongs to the class.
pub proof fn lemma_run_end(s: Seq<char>, k: int, cls: CharClass)
    requires
        0 <= k <= s.len(),
    ensures
        k <= run_end(s, k, cls) <= s.len(),
        forall|m: int| k <= m < run_end(s, k, cls) ==> in_class(#[trigger] s[m], cls),
    decreases s.len() - k,
{
    if k < s.len() && in_class(s[k], cls) {
        lemma_run_end(s, k + 1, cls);
    }
}

/// Where the length of an array field lies in a line without its comment, trimmed, as
/// `ros_message` matches such a line: a type name, white space, `[`, white space, the digits of
/// the length, white space, `]`, white space (at least one character), then a field name (an
/// ASCII letter, then letters, digits and `_`) up to the end. `None` for a line of another shape.
pub open spec fn array_length_digits(d: Seq<char>) -> Option<(int, int)> {
    let j = run_end(d, 0, CharClass::Type);
    let i = run_end(d, j, CharClass::White);
    let a = run_end(d, i + 1, CharClass::White);
    let b = run_end(d, a, CharClass::Digit);
    let c = run_end(d, b, CharClass::White);
    let e = run_end(d, c + 1, CharClass::White);
    if j > 0 && i < d.len() && d[i] == '[' && b > a && c < d.len() && d[c] == ']' && e > c + 1
        && e < d.len() && is_ascii_letter(d[e]) && run_end(d, e, CharClass::Name) == d.len() {
        Some((a, b))
    } else {
        None
    }
}

/// Whether a trimmed line is a `string` constant as `ros_message` matches one: `string`, white
/// space, a field name, white space, then `=` (its value is the rest of the line).
pub open spec fn is_const_string(t: Seq<char>) -> bool {
    let g = run_end(t, 6, CharClass::White);
    let h = run_end(t, g, CharClass::Name);
    let k = run_end(t, h, CharClass::White);
    &&& t.len() >= 6
    &&& t.take(6) == seq!['s', 't', 'r', 'i', 'n', 'g']
    &&& g > 6
    &&& g < t.len()
    &&& is_ascii_letter(t[g])
    &&& k < t.len()
    &&& t[k] == '='
}

/// Whether reading a line of a definition leaves `ros_message` with a length that fits: the
/// line is a `string` constant, or the line without its comment is no array field, or the
/// length of that field fits in `usize`.
pub open spec fn line_length_fits(line: Seq<char>) -> bool {
    is_const_string(trim(line)) || {
        let d = trim(split(line, seq!['#'])[0]);
        match array_length_digits(d) {
            Some((a, b)) => digits_number(d.subrange(a, b)) <= usize::MAX,
            None => true,
        }
    }
}

/// Whether every array length that `ros_message` reads from the source of a message definition
/// fits in `usize`: the source is trimmed and read line by line.
pub open spec fn lengths_fit(source: Seq<char>) -> bool {
    let lines = split(trim(source), seq!['\n']);
    forall|i: int| 0 <= i < lines.len() ==> line_length_fits(#[trigger] lines[i])
}

/// Whether a character belongs to a class.
fn in_class_of(c: char, cls: CharClass) -> (r: bool)
    ensures
        r == in_class(c, cls),
{
    match cls {
        CharClass::White => is_whitespace(c),
        CharClass::Type => ('a' <= c && c <= 'z') || ('A' <= c && c <= 'Z') || ('0' <= c && c
            <= '9') || c == '_' || c == '/',
        CharClass::Digit => '0' <= c && c <= '9',
        CharClass::Name => ('a' <= c && c <= 'z') || ('A' <= c && c <= 'Z') || ('0' <= c && c
            <= '9') || c == '_',
    }
}

/// Where the run of characters of a class that starts at `k` ends.
fn run_end_of(v: &Vec<char>, k: usize, cls: CharClass) -> (r: usize)
    requires
        k <= v@.len(),
    ensures
        k <= r <= v@.len(),
        r == run_end(v@, k as int, cls),
{
    let mut i = k;
    while i < v.len() && in_class_of(v[i], cls)
        invariant
            k <= i <= v@.len(),
            run_end(v@, k as int, cls) == run_end(v@, i as int, cls),
        decreases v@.len() - i,
    {
        i = i + 1;
    }
    i
}

/// Whether the ASCII digits `v[a..b]` have a value that fits in `usize`.
fn digits_fit(v: &Vec<char>, a: usize, b: usize) -> (r: bool)
    requires
        a <= b <= v@.len(),
        forall|m: int| a <= m < b ==> '0' <= #[trigger] v@[m] <= '9',
    ensures
        r == (digits_number(v@.subrange(a as int, b as int)) <= usize::MAX),
{
    let ghost run = v@.subrange(a as int, b as int);
    let mut value: usize = 0;
    let mut p = a;
    assert(v@.subrange(a as int, a as int) =~= Seq::<char>::empty());
    while p < b
        invariant
            a <= p <= b <= v@.len(),
            run == v@.subrange(a as int, b as int),
            forall|m: int| a <= m < b ==> '0' <= #[trigger] v@[m] <= '9',
            value as nat == digits_number(v@.subrange(a as int, p as int)),
        decreases b - p,
    {
        let c = v[p];
        let ghost part = v@.subrange(a as int, p as int);
        assert(v@.subrange(a as int, p + 1) =~= part.push(c));
        proof {
            lemma_digits_number_push(part, c);
        }
        let d = (c as u32 - '0' as u32) as usize;
        assert(d as nat == digit_value(c));
        let next = match value.checked_mul(10) {
            Some(t) => t.checked_add(d),
            None => None,
        };
        match next {
            Some(u) => {
                value = u;
            },
            None => {
                proof {
                    assert(run.take(p + 1 - a) =~= v@.subrange(a as int, p + 1));
                    lemma_digits_number_prefix(run, p + 1 - a);
                }
                return false;
            },
        }
        p = p + 1;
    }
    true
}

/// Whether the length of an array field fits, for a line without its comment, trimmed; true
/// for a line that is no array field.
fn field_length_fits(d: &Vec<char>) -> (r: bool)
    ensures
        r == match array_length_digits(d@) {
            Some((a, b)) => digits_number(d@.subrange(a, b)) <= usize::MAX,
            None => true,
        },
{
    let n = d.len();
    let j = run_end_of(d, 0, CharClass::Type);
    let i = run_end_of(d, j, CharClass::White);
    if !(j > 0 && i < n && d[i] == '[') {
        return true;
    }
    let a = run_end_of(d, i + 1, CharClass::White);
    let b = run_end_of(d, a, CharClass::Digit);
    let c = run_end_of(d, b, CharClass::White);
    if !(b > a && c < n && d[c] == ']') {
        return true;
    }
    let e = run_end_of(d, c + 1, CharClass::White);
    if !(e > c + 1 && e < n && (('a' <= d[e] && d[e] <= 'z') || ('A' <= d[e] && d[e] <= 'Z'))) {
        return true;
    }
    let f = run_end_of(d, e, CharClass::Name);
    if f != n {
        return true;
    }
    proof {
        lemma_run_end(d@, a as int, CharClass::Digit);
    }
    digits_fit(d, a, b)
}

/// Whether a trimmed line is a `string` constant.
fn const_string_of(t: &Vec<char>) -> (r: bool)
    ensures
        r == is_const_string(t@),
{
    let n = t.len();
    if n < 6 {
        return false;
    }
    let word = t[0] == 's' && t[1] == 't' && t[2] == 'r' && t[3] == 'i' && t[4] == 'n' && t[5]
        == 'g';
    proof {
        let w = seq!['s', 't', 'r', 'i', 'n', 'g'];
        let p = t@.take(6);
        assert(p[0] == t@[0] && p[1] == t@[1] && p[2] == t@[2] && p[3] == t@[3] && p[4] == t@[4]
            && p[5] == t@[5]);
        if word {
            assert(p =~= w);
        } else {
            assert(w[0] == 's' && w[1] == 't' && w[2] == 'r' && w[3] == 'i' && w[4] == 'n' && w[5]
                == 'g');
            assert(p != w);
        }
    }
    if !word {
        return false;
    }
    let g = run_end_of(t, 6, CharClass::White);
    if !(g > 6 && g < n && (('a' <= t[g] && t[g] <= 'z') || ('A' <= t[g] && t[g] <= 'Z'))) {
        return false;
    }
    let h = run_end_of(t, g, CharClass::Name);
    let k = run_end_of(t, h, CharClass::White);
    k < n && t[k] == '='
}

/// Whether reading a line of a definition leaves `ros_message` with a length that fits.
fn line_fits(line: &Vec<char>) -> (r: bool)
    ensures
        r == line_length_fits(line@),
{
    let (c, d) = trim_range(line, 0, line.len());
    assert(line@.subrange(0, line@.len() as int) =~= line@);
    let t = chars_of(string_of(line, c, d).as_str());
    if const_string_of(&t) {
        return true;
    }
    let hash: Vec<char> = vec!['#'];
    assert(hash@ =~= seq!['#']);
    let parts = split_ranges(line, &hash);
    proof {
        crate::definition::lemma_split_nonempty(line@, seq!['#']);
    }
    let (p0, p1) = parts[0];
    let (x, y) = trim_range(line, p0, p1);
    let dv = chars_of(string_of(line, x, y).as_str());
    field_length_fits(&dv)
}

/// Whether every array length that `ros_message` reads from the source of a message
/// definition fits in `usize`.
pub fn array_lengths_fit(source: &str) -> (r: bool)
    ensures
        r == lengths_fit(source@),
{
    let v = chars_of(source);
    let (s, e) = trim_range(&v, 0, v.len());
    assert(v@.subrange(0, v@.len() as int) =~= v@);
    let t = chars_of(string_of(&v, s, e).as_str());
    let nl: Vec<char> = vec!['\n'];
    assert(nl@ =~= seq!['\n']);
    let lines = split_ranges(&t, &nl);
    let ghost ls = split(trim(source@), seq!['\n']);
    let mut i: usize = 0;
    while i < lines.len()
        invariant
            t@ == trim(source@),
            ls == split(trim(source@), seq!['\n']),
            lines@.len() == ls.len(),
            forall|j: int|
                0 <= j < lines@.len() ==> #[trigger] lines@[j].0 <= lines@[j].1 <= t@.len()
                    && t@.subrange(lines@[j].0 as int, lines@[j].1 as int) == ls[j],
            i <= lines@.len(),
            forall|j: int| 0 <= j < i ==> line_length_fits(#[trigger] ls[j]),
        decreases lines@.len() - i,
    {
        let (x, y) = lines[i];
        let l = chars_of(string_of(&t, x, y).as_str());
        if !line_fits(&l) {
            return false;
        }
        i = i + 1;
    }
    true
}

} // verus!
