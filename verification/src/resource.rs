//! The resources that the bag server offers: reading a resource URI into a request, and the
//! page that its query asks for.
use vstd::prelude::*;
use vstd::string::*;

use crate::definition::{find_char, index_of, lemma_index_of};
use crate::text::{
    all_ascii_digits, chars_of, digit_value, digits_number, first_occurrence,
    lemma_digits_number_prefix, lemma_digits_number_push, lemma_first_occurrence, occurs_at, split,
    split_ranges, str_eq, string_of,
};

verus! {

/// The contents of captured group texts.
pub open spec fn groups_view(v: Seq<Option<String>>) -> Seq<Option<Seq<char>>> {
    Seq::new(
        v.len(),
        |i: int|
            match v[i] {
                Some(s) => Some(s@),
                None => None,
            },
    )
}

/// The groups of a match as `captures_of` gives them, or `None` for no match.
pub open spec fn captured(r: Option<Option<Vec<Option<String>>>>) -> Option<Seq<Option<Seq<char>>>> {
    match r {
        Some(Some(v)) => Some(groups_view(v@)),
        _ => None,
    }
}

/// `regex::Regex::new` then `Regex::captures`, with the texts of the groups (group 0, the
/// whole match, first; `None` for a group that took no part in the match) collected. For the
/// three patterns of resource URIs the contract states what the `regex` crate's documented
/// syntax gives: `^` and `$` anchor at the ends of the text, `.` is any character but a line
/// break, `[^?]` any character but `?`, a lazy `+?` takes the shortest run that lets the rest
/// match and a greedy `+` the longest; the first match found that way is returned. Of other
/// patterns nothing is stated.
#[verifier::external_body]
fn captures_of(pattern: &str, text: &str) -> (r: Option<Option<Vec<Option<String>>>>)
    ensures
        pattern@ == metadata_pattern() ==> r is Some && captured(r) == metadata_groups(text@),
        pattern@ == messages_pattern() ==> r is Some && captured(r) == listing_groups(
            text@,
            "/messages/"@,
        ),
        pattern@ == topics_pattern() ==> r is Some && captured(r) == listing_groups(
            text@,
            "/topics/"@,
        ),
{
    let re = regex::Regex::new(pattern).ok()?;
    Some(re.captures(text).map(|c| c.iter().map(|m| m.map(|m| m.as_str().to_string())).collect()))
}

/// Whether `s` begins with `p`.
pub open spec fn begins_with(s: Seq<char>, p: Seq<char>) -> bool {
    s.len() >= p.len() && s.take(p.len() as int) == p
}

/// Whether a text holds no line break.
pub open spec fn no_line_break(s: Seq<char>) -> bool {
    !s.contains('\n')
}

/// The beginning of every resource URI.
pub open spec fn scheme() -> Seq<char> {
    "rosbag://"@
}

/// The bag path of `r` when `r` is a bag path (at least one character, no line break), `/`
/// and then `kind`.
pub open spec fn path_before_kind(r: Seq<char>, kind: Seq<char>) -> Option<Seq<char>> {
    let n = r.len() - kind.len() - 1;
    if r.len() >= kind.len() + 2 && r[n] == '/' && r.skip(n + 1) == kind && no_line_break(
        r.take(n),
    ) {
        Some(r.take(n))
    } else {
        None
    }
}

/// What the metadata pattern captures in a URI: the whole URI, the bag path and the kind; the
/// URI is `rosbag://`, a bag path of at least one character without line breaks, `/`, and
/// one of `topics`, `message_types` and `metadata` at the end.
pub open spec fn metadata_groups(t: Seq<char>) -> Option<Seq<Option<Seq<char>>>> {
    if begins_with(t, scheme()) {
        let r = t.skip(9);
        match path_before_kind(r, "topics"@) {
            Some(a) => Some(seq![Some(t), Some(a), Some("topics"@)]),
            None => match path_before_kind(r, "message_types"@) {
                Some(a) => Some(seq![Some(t), Some(a), Some("message_types"@)]),
                None => match path_before_kind(r, "metadata"@) {
                    Some(a) => Some(seq![Some(t), Some(a), Some("metadata"@)]),
                    None => None,
                },
            },
        }
    } else {
        None
    }
}

/// How the part of a listing URI after `/messages/` or `/topics/` reads: a name of at least
/// one character up to the first `?`, then, after that `?`, a query of at least one character
/// without line breaks up to the end.
pub open spec fn name_and_query(s: Seq<char>) -> Option<(Seq<char>, Option<Seq<char>>)> {
    match index_of(s, '?') {
        None => if s.len() > 0 {
            Some((s, None))
        } else {
            None
        },
        Some(m) => if m > 0 && s.len() > m + 1 && no_line_break(s.skip(m + 1)) {
            Some((s.take(m), Some(s.skip(m + 1))))
        } else {
            None
        },
    }
}

/// The shortest bag path `r[..j]` (at least `j` characters, without line breaks) after which
/// `sep` and a readable name and query follow, with that name and query.
pub open spec fn listing_from(r: Seq<char>, sep: Seq<char>, j: int) -> Option<
    (Seq<char>, Seq<char>, Option<Seq<char>>),
>
    decreases r.len() + 1 - j,
{
    if j < 1 || j > r.len() || r[j - 1] == '\n' {
        None
    } else if begins_with(r.skip(j), sep) && name_and_query(r.skip(j + sep.len())) is Some {
        let (b, c) = name_and_query(r.skip(j + sep.len())).unwrap();
        Some((r.take(j), b, c))
    } else {
        listing_from(r, sep, j + 1)
    }
}

/// What a listing pattern (with `sep` being `/messages/` or `/topics/`) captures in a URI:
/// the whole URI, the bag path, the name and the query (absent without `?`).
pub open spec fn listing_groups(t: Seq<char>, sep: Seq<char>) -> Option<Seq<Option<Seq<char>>>> {
    if begins_with(t, scheme()) {
        match listing_from(t.skip(9), sep, 1) {
            Some((a, b, c)) => Some(seq![Some(t), Some(a), Some(b), c]),
            None => None,
        }
    } else {
        None
    }
}

/// What `urlencoding::decode` gives: the text with its `%`-escapes decoded, or `None` when the
/// decoded bytes are not UTF-8.
pub uninterp spec fn url_decoded(s: Seq<char>) -> Option<Seq<char>>;

/// Whether a text holds a `%`.
pub open spec fn has_escape(s: Seq<char>) -> bool {
    s.contains('%')
}

/// `urlencoding::decode`: decoding a text without `%` does not fail.
#[verifier::external_body]
fn url_decode(s: &str) -> (r: Option<String>)
    ensures
        match url_decoded(s@) {
            Some(t) => r matches Some(d) && d@ == t,
            None => r is None,
        },
        r is Some || has_escape(s@),
{
    urlencoding::decode(s).ok().map(|c| c.into_owned())
}

/// What a metadata resource lists.
#[derive(Clone, Copy, Debug, PartialEq, Eq, Structural)]
pub enum MetadataKind {
    Topics,
    MessageTypes,
    Metadata,
}

/// A request for a resource of the bag server.
#[derive(Debug)]
pub enum ResourceRequest {
    /// Topics, message types or all metadata of a bag.
    Metadata { bag_path: String, kind: MetadataKind },
    /// A page of the messages of a type.
    Messages { bag_path: String, message_type: String, offset: Option<usize>, limit: Option<usize> },
    /// A page of the messages of a topic.
    TopicMessages { bag_path: String, topic: String, offset: Option<usize>, limit: Option<usize> },
    /// How to use the resources.
    Usage,
    /// A part of the URI is not valid percent-encoding of UTF-8; the text says which.
    BadEncoding(String),
    /// The URI names no resource.
    Unknown,
}

/// The content of a [`ResourceRequest`].
pub enum ResourceView {
    Metadata(Seq<char>, MetadataKind),
    Messages(Seq<char>, Seq<char>, Option<usize>, Option<usize>),
    TopicMessages(Seq<char>, Seq<char>, Option<usize>, Option<usize>),
    Usage,
    BadEncoding(Seq<char>),
    Unknown,
}

impl View for ResourceRequest {
    type V = ResourceView;

    open spec fn view(&self) -> ResourceView {
        match *self {
            ResourceRequest::Metadata { bag_path, kind } => ResourceView::Metadata(bag_path@, kind),
            ResourceRequest::Messages { bag_path, message_type, offset, limit } => ResourceView::Messages(
                bag_path@,
                message_type@,
                offset,
                limit,
            ),
            ResourceRequest::TopicMessages { bag_path, topic, offset, limit } => ResourceView::TopicMessages(
                bag_path@,
                topic@,
                offset,
                limit,
            ),
            ResourceRequest::Usage => ResourceView::Usage,
            ResourceRequest::BadEncoding(m) => ResourceView::BadEncoding(m@),
            ResourceRequest::Unknown => ResourceView::Unknown,
        }
    }
}

/// The pattern of metadata resources: `rosbag://{bag_path}/{topics|message_types|metadata}`.
pub open spec fn metadata_pattern() -> Seq<char> {
    "^rosbag://(.+?)/(topics|message_types|metadata)$"@
}

/// The pattern of resources of messages by type.
pub open spec fn messages_pattern() -> Seq<char> {
    "^rosbag://(.+?)/messages/([^?]+)(?:\\?(.+))?$"@
}

/// The pattern of resources of messages by topic.
pub open spec fn topics_pattern() -> Seq<char> {
    "^rosbag://(.+?)/topics/([^?]+)(?:\\?(.+))?$"@
}

/// The text of group `i`, empty when the group is absent.
pub open spec fn group_text(groups: Seq<Option<Seq<char>>>, i: int) -> Seq<char> {
    if 0 <= i < groups.len() {
        match groups[i] {
            Some(t) => t,
            None => Seq::empty(),
        }
    } else {
        Seq::empty()
    }
}

/// What std's `usize::from_str` reads: an optional `+`, then at least one ASCII digit, of a
/// value that fits.
pub open spec fn parsed_usize(s: Seq<char>) -> Option<usize> {
    let body = if s.len() > 0 && s[0] == '+' {
        s.drop_first()
    } else {
        s
    };
    if body.len() > 0 && all_ascii_digits(body) && digits_number(body) <= usize::MAX {
        Some(digits_number(body) as usize)
    } else {
        None
    }
}

/// The page asked for after reading one more `key=value` piece of a query: `offset` and
/// `limit` take the value read (none when it does not read), other keys and pieces without `=`
/// change nothing.
pub open spec fn query_step(acc: (Option<usize>, Option<usize>), piece: Seq<char>) -> (
    Option<usize>,
    Option<usize>,
) {
    match index_of(piece, '=') {
        Some(k) => {
            let key = piece.take(k);
            let value = piece.skip(k + 1);
            if key == "offset"@ {
                (parsed_usize(value), acc.1)
            } else if key == "limit"@ {
                (acc.0, parsed_usize(value))
            } else {
                acc
            }
        },
        None => acc,
    }
}

/// The page asked for by the pieces of a query, read from left to right.
pub open spec fn query_fold(pieces: Seq<Seq<char>>) -> (Option<usize>, Option<usize>)
    decreases pieces.len(),
{
    if pieces.len() == 0 {
        (None, None)
    } else {
        query_step(query_fold(pieces.drop_last()), pieces.last())
    }
}

/// The offset and limit that a query (`offset=X&limit=Y`) asks for.
pub open spec fn query_page(query: Seq<char>) -> (Option<usize>, Option<usize>) {
    query_fold(split(query, "&"@))
}

/// Splitting at a character that occurs once, between two parts without it, gives the two
/// parts.
pub proof fn lemma_split_once(x: Seq<char>, y: Seq<char>, c: char)
    requires
        !x.contains(c),
        !y.contains(c),
    ensures
        split(x + seq![c] + y, seq![c]) == seq![x, y],
{
    let s = x + seq![c] + y;
    let p = seq![c];
    lemma_first_occurrence(s, p, 0);
    assert(occurs_at(s, p, x.len() as int)) by {
        assert(s.subrange(x.len() as int, x.len() as int + 1) =~= p);
    }
    assert forall|j: int| 0 <= j < x.len() implies !occurs_at(s, p, j) by {
        if occurs_at(s, p, j) {
            assert(s.subrange(j, j + 1)[0] == s[j]);
            assert(s[j] == x[j]);
        }
    }
    assert(first_occurrence(s, p, 0) == Some(x.len() as int));
    assert(s.take(x.len() as int) =~= x);
    assert(s.skip(x.len() as int + 1) =~= y);
    lemma_first_occurrence(y, p, 0);
    assert forall|j: int| 0 <= j implies !occurs_at(y, p, j) by {
        if occurs_at(y, p, j) {
            assert(y.subrange(j, j + 1)[0] == y[j]);
        }
    }
    assert(split(y, p) == seq![y]);
}

/// The value of a `key=value` piece whose key holds no `=` is the text after the first `=`.
proof fn lemma_piece_value(key: Seq<char>, value: Seq<char>)
    requires
        !key.contains('='),
    ensures
        index_of(key + seq!['='] + value, '=') == Some(key.len() as int),
{
    let piece = key + seq!['='] + value;
    lemma_index_of(piece, '=');
    assert(piece[key.len() as int] == '=');
    match index_of(piece, '=') {
        Some(k) => {
            if k < key.len() {
                assert(piece[k] == key[k]);
            }
        },
        None => {},
    }
}

/// A query of an offset and a limit asks for the numbers that their texts read as, in
/// either order: `offset=A&limit=B` and `limit=B&offset=A` both give the offset that `A` reads
/// as and the limit that `B` reads as (none for a text that does not read).
pub proof fn lemma_query_offset_and_limit(a: Seq<char>, b: Seq<char>)
    requires
        !a.contains('&'),
        !b.contains('&'),
    ensures
        query_page("offset="@ + a + "&"@ + "limit="@ + b) == (parsed_usize(a), parsed_usize(b)),
        query_page("limit="@ + b + "&"@ + "offset="@ + a) == (parsed_usize(a), parsed_usize(b)),
{
    reveal_strlit("offset=");
    reveal_strlit("limit=");
    reveal_strlit("&");
    reveal_strlit("offset");
    reveal_strlit("limit");
    let off = "offset="@ + a;
    let lim = "limit="@ + b;
    assert(!off.contains('&')) by {
        assert forall|i: int| 0 <= i < off.len() implies off[i] != '&' by {
            if i >= 7 {
                assert(off[i] == a[i - 7]);
            }
        }
    }
    assert(!lim.contains('&')) by {
        assert forall|i: int| 0 <= i < lim.len() implies lim[i] != '&' by {
            if i >= 6 {
                assert(lim[i] == b[i - 6]);
            }
        }
    }
    assert("&"@ =~= seq!['&']);
    assert("offset="@ + a + "&"@ + "limit="@ + b =~= off + seq!['&'] + lim);
    assert("limit="@ + b + "&"@ + "offset="@ + a =~= lim + seq!['&'] + off);
    lemma_split_once(off, lim, '&');
    lemma_split_once(lim, off, '&');
    let ok = "offset"@;
    let lk = "limit"@;
    assert(!ok.contains('='));
    assert(!lk.contains('='));
    assert(off =~= ok + seq!['='] + a);
    assert(lim =~= lk + seq!['='] + b);
    lemma_piece_value(ok, a);
    lemma_piece_value(lk, b);
    assert(off.take(6) =~= ok);
    assert(off.skip(7) =~= a);
    assert(lim.take(5) =~= lk);
    assert(lim.skip(6) =~= b);
    assert(lk != ok);
    let p1 = seq![off, lim];
    let p2 = seq![lim, off];
    assert(p1.drop_last() =~= seq![off]);
    assert(p1.drop_last().drop_last() =~= Seq::<Seq<char>>::empty());
    assert(p2.drop_last() =~= seq![lim]);
    assert(p2.drop_last().drop_last() =~= Seq::<Seq<char>>::empty());
    assert(split("offset="@ + a + "&"@ + "limit="@ + b, "&"@) == p1);
    assert(split("limit="@ + b + "&"@ + "offset="@ + a, "&"@) == p2);
    assert(query_step((None, None), off) == (parsed_usize(a), None::<usize>));
    assert(query_step((None, None), lim) == (None::<usize>, parsed_usize(b)));
    assert(query_step((parsed_usize(a), None), lim) == (parsed_usize(a), parsed_usize(b)));
    assert(query_step((None, parsed_usize(b)), off) == (parsed_usize(a), parsed_usize(b)));
    reveal_with_fuel(query_fold, 3);
    assert(query_fold(p1) == (parsed_usize(a), parsed_usize(b)));
    assert(query_fold(p2) == (parsed_usize(a), parsed_usize(b)));
}

/// Reads an unsigned number as std's `usize::from_str` does: an optional `+`, then ASCII
/// digits, of a value that fits.
pub fn parse_usize(s: &str) -> (r: Option<usize>)
    ensures
        r == parsed_usize(s@),
{
    let v = chars_of(s);
    let n = v.len();
    let start: usize = if n > 0 && v[0] == '+' {
        1
    } else {
        0
    };
    let ghost body = if s@.len() > 0 && s@[0] == '+' {
        s@.drop_first()
    } else {
        s@
    };
    assert(body =~= v@.skip(start as int));
    if start >= n {
        return None;
    }
    let mut value: usize = 0;
    let mut i: usize = start;
    assert(v@.subrange(start as int, start as int) =~= Seq::<char>::empty());
    while i < n
        invariant
            start <= i <= n == v@.len(),
            v@ == s@,
            body == (if s@.len() > 0 && s@[0] == '+' {
                s@.drop_first()
            } else {
                s@
            }),
            body == v@.skip(start as int),
            all_ascii_digits(v@.subrange(start as int, i as int)),
            value as nat == digits_number(v@.subrange(start as int, i as int)),
        decreases n - i,
    {
        let c = v[i];
        let ghost prefix = v@.subrange(start as int, i as int);
        assert(v@.subrange(start as int, i + 1) =~= prefix.push(c));
        proof {
            lemma_digits_number_push(prefix, c);
        }
        if c < '0' || c > '9' {
            assert(!all_ascii_digits(body)) by {
                assert(body[i - start] == c);
            }
            return None;
        }
        let d = (c as u32 - '0' as u32) as usize;
        assert(d as nat == digit_value(c));
        match value.checked_mul(10) {
            None => {
                proof {
                    if all_ascii_digits(body) {
                        lemma_digits_number_prefix(body, (i - start) as int + 1);
                        assert(body.take((i - start) as int + 1) =~= prefix.push(c));
                    }
                }
                return None;
            },
            Some(t) => match t.checked_add(d) {
                None => {
                    proof {
                        if all_ascii_digits(body) {
                            lemma_digits_number_prefix(body, (i - start) as int + 1);
                            assert(body.take((i - start) as int + 1) =~= prefix.push(c));
                        }
                    }
                    return None;
                },
                Some(u) => {
                    value = u;
                },
            },
        }
        i = i + 1;
    }
    assert(v@.subrange(start as int, n as int) =~= body);
    Some(value)
}

/// Reads the offset and limit from the query of a resource URI (`offset=X&limit=Y`): the last
/// `offset` and the last `limit` piece count, and a value that does not read counts as none.
pub fn parse_query(query: &str) -> (r: (Option<usize>, Option<usize>))
    ensures
        r == query_page(query@),
{
    let v = chars_of(query);
    let amp: Vec<char> = vec!['&'];
    proof {
        reveal_strlit("&");
        assert(amp@ =~= "&"@);
    }
    let pieces = split_ranges(&v, &amp);
    let ghost all = split(query@, "&"@);
    let mut acc: (Option<usize>, Option<usize>) = (None, None);
    let mut i: usize = 0;
    assert(all.take(0) =~= Seq::<Seq<char>>::empty());
    while i < pieces.len()
        invariant
            v@ == query@,
            all == split(query@, "&"@),
            pieces@.len() == all.len(),
            forall|j: int|
                0 <= j < pieces@.len() ==> #[trigger] pieces@[j].0 <= pieces@[j].1 <= v@.len()
                    && v@.subrange(pieces@[j].0 as int, pieces@[j].1 as int) == all[j],
            i <= pieces@.len(),
            acc == query_fold(all.take(i as int)),
        decreases pieces@.len() - i,
    {
        let (a, b) = pieces[i];
        let piece = string_of(&v, a, b);
        assert(all.take(i + 1).drop_last() =~= all.take(i as int));
        acc = step_query(acc, piece.as_str());
        i = i + 1;
    }
    assert(all.take(i as int) =~= all);
    acc
}

/// Reads one piece of a query.
fn step_query(acc: (Option<usize>, Option<usize>), piece: &str) -> (r: (Option<usize>, Option<usize>))
    ensures
        r == query_step(acc, piece@),
{
    proof {
        lemma_index_of(piece@, '=');
    }
    match find_char(piece, '=') {
        None => acc,
        Some(k) => {
            let v = chars_of(piece);
            let n = v.len();
            assert(k < n);
            let key = string_of(&v, 0, k);
            let value = string_of(&v, k + 1, n);
            assert(key@ =~= piece@.take(k as int));
            assert(value@ =~= piece@.skip(k + 1));
            if str_eq(key.as_str(), "offset") {
                (parse_usize(value.as_str()), acc.1)
            } else if str_eq(key.as_str(), "limit") {
                (acc.0, parse_usize(value.as_str()))
            } else {
                acc
            }
        },
    }
}

/// The request of a metadata resource, from the groups of its URI.
pub open spec fn metadata_request(g: Seq<Option<Seq<char>>>) -> ResourceView {
    match url_decoded(group_text(g, 1)) {
        None => ResourceView::BadEncoding("Invalid URL encoding in bag path"@),
        Some(bag) => {
            let kind = group_text(g, 2);
            if kind == "topics"@ {
                ResourceView::Metadata(bag, MetadataKind::Topics)
            } else if kind == "message_types"@ {
                ResourceView::Metadata(bag, MetadataKind::MessageTypes)
            } else if kind == "metadata"@ {
                ResourceView::Metadata(bag, MetadataKind::Metadata)
            } else {
                ResourceView::Unknown
            }
        },
    }
}

/// The request of a resource of messages by type (`by_type`) or by topic, from the groups of
/// its URI.
pub open spec fn listing_request(g: Seq<Option<Seq<char>>>, by_type: bool) -> ResourceView {
    let page = query_page(group_text(g, 3));
    match url_decoded(group_text(g, 1)) {
        None => ResourceView::BadEncoding("Invalid URL encoding in bag path"@),
        Some(bag) => match url_decoded(group_text(g, 2)) {
            None => ResourceView::BadEncoding(
                if by_type {
                    "Invalid URL encoding in message type"@
                } else {
                    "Invalid URL encoding in topic name"@
                },
            ),
            Some(name) => if by_type {
                ResourceView::Messages(bag, name, page.0, page.1)
            } else {
                ResourceView::TopicMessages(bag, name, page.0, page.1)
            },
        },
    }
}

/// A listing by type and a listing by topic read the same groups alike: the first asks for the
/// messages of a type and the second for those of a topic, each of the decoded bag path and
/// name, on the page that the query asks for; a part that does not decode is an error in both.
pub proof fn lemma_listing_kinds(g: Seq<Option<Seq<char>>>)
    ensures
        match (listing_request(g, true), listing_request(g, false)) {
            (
                ResourceView::Messages(b1, n1, o1, l1),
                ResourceView::TopicMessages(b2, n2, o2, l2),
            ) => {
                &&& b1 == b2 && n1 == n2 && o1 == o2 && l1 == l2
                &&& url_decoded(group_text(g, 1)) == Some(b1)
                &&& url_decoded(group_text(g, 2)) == Some(n1)
                &&& (o1, l1) == query_page(group_text(g, 3))
            },
            (ResourceView::BadEncoding(_), ResourceView::BadEncoding(_)) => url_decoded(
                group_text(g, 1),
            ) is None || url_decoded(group_text(g, 2)) is None,
            _ => false,
        },
{
}

/// The request that a resource URI names: metadata, messages by type, messages by topic (each
/// tried in that order), the usage text, or nothing.
pub open spec fn resource_of(uri: Seq<char>) -> ResourceView {
    match metadata_groups(uri) {
        Some(g) => metadata_request(g),
        None => match listing_groups(uri, "/messages/"@) {
            Some(g) => listing_request(g, true),
            None => match listing_groups(uri, "/topics/"@) {
                Some(g) => listing_request(g, false),
                None => if uri == "rosbag://usage"@ {
                    ResourceView::Usage
                } else {
                    ResourceView::Unknown
                },
            },
        },
    }
}

/// The kind of a metadata resource is the one its last segment names: for a bag path of at
/// least one character without line breaks that decodes, `…/topics` asks for the topics,
/// `…/message_types` for the message types and `…/metadata` for all metadata, of the decoded
/// bag path.
pub proof fn lemma_metadata_kind_of_last_segment(bag: Seq<char>, decoded: Seq<char>)
    requires
        bag.len() > 0,
        no_line_break(bag),
        url_decoded(bag) == Some(decoded),
    ensures
        resource_of("rosbag://"@ + bag + "/topics"@) == ResourceView::Metadata(
            decoded,
            MetadataKind::Topics,
        ),
        resource_of("rosbag://"@ + bag + "/message_types"@) == ResourceView::Metadata(
            decoded,
            MetadataKind::MessageTypes,
        ),
        resource_of("rosbag://"@ + bag + "/metadata"@) == ResourceView::Metadata(
            decoded,
            MetadataKind::Metadata,
        ),
{
    reveal_strlit("rosbag://");
    reveal_strlit("/topics");
    reveal_strlit("/message_types");
    reveal_strlit("/metadata");
    reveal_strlit("topics");
    reveal_strlit("message_types");
    reveal_strlit("metadata");
    let n: int = bag.len() as int;
    let t1 = "rosbag://"@ + bag + "/topics"@;
    let r1 = t1.skip(9);
    assert(t1.take(9) =~= scheme());
    assert(r1 =~= bag + "/topics"@);
    assert(r1.take(n) =~= bag);
    assert(r1.skip(n + 1) =~= "topics"@);
    assert(metadata_groups(t1) == Some(seq![Some(t1), Some(bag), Some("topics"@)]));
    let t2 = "rosbag://"@ + bag + "/message_types"@;
    let r2 = t2.skip(9);
    assert(t2.take(9) =~= scheme());
    assert(r2 =~= bag + "/message_types"@);
    assert(r2[n + 7] == 'e');
    assert(path_before_kind(r2, "topics"@) is None);
    assert(r2.take(n) =~= bag);
    assert(r2.skip(n + 1) =~= "message_types"@);
    assert(metadata_groups(t2) == Some(seq![Some(t2), Some(bag), Some("message_types"@)]));
    let t3 = "rosbag://"@ + bag + "/metadata"@;
    let r3 = t3.skip(9);
    assert(t3.take(9) =~= scheme());
    assert(r3 =~= bag + "/metadata"@);
    assert(r3[n + 2] == 'e');
    assert(path_before_kind(r3, "topics"@) is None);
    if r3.len() >= 15 {
        let m = r3.len() - 14;
        assert(r3.skip(m + 1)[12] == r3[r3.len() - 1]);
        assert(r3.skip(m + 1) != "message_types"@);
    }
    assert(path_before_kind(r3, "message_types"@) is None);
    assert(r3.take(n) =~= bag);
    assert(r3.skip(n + 1) =~= "metadata"@);
    assert(metadata_groups(t3) == Some(seq![Some(t3), Some(bag), Some("metadata"@)]));
    assert("message_types"@ != "topics"@);
    assert("metadata"@ != "topics"@ && "metadata"@ != "message_types"@) by {
        assert("metadata"@[0] != "topics"@[0]);
        assert("metadata"@.len() != "message_types"@.len());
    }
}

/// The text of capture group `i`, empty when the group is absent.
fn group(groups: &Vec<Option<String>>, i: usize) -> (r: String)
    ensures
        r@ == group_text(groups_view(groups@), i as int),
{
    if i < groups.len() {
        match &groups[i] {
            Some(t) => String::from_str(t.as_str()),
            None => String::new(),
        }
    } else {
        String::new()
    }
}

/// Reads the request of a metadata resource from the groups of its URI.
fn metadata_of(groups: &Vec<Option<String>>) -> (r: ResourceRequest)
    ensures
        r@ == metadata_request(groups_view(groups@)),
{
    let bag = match url_decode(group(groups, 1).as_str()) {
        Some(b) => b,
        None => {
            return ResourceRequest::BadEncoding(String::from_str("Invalid URL encoding in bag path"));
        },
    };
    let kind = group(groups, 2);
    if str_eq(kind.as_str(), "topics") {
        ResourceRequest::Metadata { bag_path: bag, kind: MetadataKind::Topics }
    } else if str_eq(kind.as_str(), "message_types") {
        ResourceRequest::Metadata { bag_path: bag, kind: MetadataKind::MessageTypes }
    } else if str_eq(kind.as_str(), "metadata") {
        ResourceRequest::Metadata { bag_path: bag, kind: MetadataKind::Metadata }
    } else {
        ResourceRequest::Unknown
    }
}

/// Reads the request of a resource of messages by type or by topic from the groups of its URI.
fn listing_of(groups: &Vec<Option<String>>, by_type: bool) -> (r: ResourceRequest)
    ensures
        r@ == listing_request(groups_view(groups@), by_type),
{
    let (offset, limit) = parse_query(group(groups, 3).as_str());
    let bag = match url_decode(group(groups, 1).as_str()) {
        Some(b) => b,
        None => {
            return ResourceRequest::BadEncoding(String::from_str("Invalid URL encoding in bag path"));
        },
    };
    let name = match url_decode(group(groups, 2).as_str()) {
        Some(n) => n,
        None => {
            return ResourceRequest::BadEncoding(
                if by_type {
                    String::from_str("Invalid URL encoding in message type")
                } else {
                    String::from_str("Invalid URL encoding in topic name")
                },
            );
        },
    };
    if by_type {
        ResourceRequest::Messages { bag_path: bag, message_type: name, offset, limit }
    } else {
        ResourceRequest::TopicMessages { bag_path: bag, topic: name, offset, limit }
    }
}

/// Reads a resource URI of the bag server into the request it names.
pub fn parse_resource_uri(uri: &str) -> (r: ResourceRequest)
    ensures
        r@ == resource_of(uri@),
{
    if let Some(Some(groups)) = captures_of("^rosbag://(.+?)/(topics|message_types|metadata)$", uri) {
        return metadata_of(&groups);
    }
    if let Some(Some(groups)) = captures_of("^rosbag://(.+?)/messages/([^?]+)(?:\\?(.+))?$", uri) {
        return listing_of(&groups, true);
    }
    if let Some(Some(groups)) = captures_of("^rosbag://(.+?)/topics/([^?]+)(?:\\?(.+))?$", uri) {
        return listing_of(&groups, false);
    }
    if str_eq(uri, "rosbag://usage") {
        ResourceRequest::Usage
    } else {
        ResourceRequest::Unknown
    }
}

} // verus!
