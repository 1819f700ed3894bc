//! The texts that the command line and the bag server show: message headers, the report of a
//! pass over the messages, bag information, and the names of resources and image files.
use vstd::prelude::*;
use vstd::string::*;

use crate::fmt::{decimal, fmt_u64};
use crate::assoc::{
    assoc_put, lemma_assoc_index, lemma_assoc_index_is, lemma_assoc_index_none,
    lemma_seq_index, lemma_seq_index_is, seq_index, with_member,
};
use crate::processor::{
    pagination_text, path_text, path_view, summary_text, ConnectionInfo, PaginationInfo,
    ProcessingStats,
};
use crate::text::str_eq;
use crate::text::{chars_of, concat2, concat3, string_of};

verus! {

/// Texts joined by a separator.
pub open spec fn joined(items: Seq<Seq<char>>, sep: Seq<char>) -> Seq<char>
    decreases items.len(),
{
    if items.len() == 0 {
        Seq::empty()
    } else if items.len() == 1 {
        items[0]
    } else {
        joined(items.drop_last(), sep) + sep + items.last()
    }
}

/// The contents of a list of strings.
pub open spec fn strings_view(v: Seq<String>) -> Seq<Seq<char>> {
    Seq::new(v.len(), |i: int| v[i]@)
}

/// Each text after a prefix.
pub open spec fn prefixed(items: Seq<Seq<char>>, prefix: Seq<char>) -> Seq<Seq<char>> {
    Seq::new(items.len(), |i: int| prefix + items[i])
}

/// Joins strings with a separator (std's `join` on a slice of strings).
pub fn join_strings(items: &Vec<String>, sep: &str) -> (r: String)
    ensures
        r@ == joined(strings_view(items@), sep@),
{
    let ghost all = strings_view(items@);
    let mut out = String::new();
    let mut i: usize = 0;
    assert(all.take(0) =~= Seq::<Seq<char>>::empty());
    while i < items.len()
        invariant
            all == strings_view(items@),
            i <= items@.len(),
            out@ == joined(all.take(i as int), sep@),
        decreases items@.len() - i,
    {
        if i > 0 {
            out.append(sep);
        }
        out.append(items[i].as_str());
        assert(all.take(i + 1).drop_last() =~= all.take(i as int));
        assert(out@ =~= joined(all.take(i + 1), sep@));
        i = i + 1;
    }
    assert(all.take(i as int) =~= all);
    out
}

/// Each string after a prefix.
fn prefix_all(items: &Vec<String>, prefix: &str) -> (r: Vec<String>)
    ensures
        strings_view(r@) == prefixed(strings_view(items@), prefix@),
{
    let mut out: Vec<String> = Vec::new();
    let mut i: usize = 0;
    while i < items.len()
        invariant
            i <= items@.len(),
            out@.len() == i,
            forall|j: int| 0 <= j < i ==> (#[trigger] out@[j])@ == prefix@ + items@[j]@,
        decreases items@.len() - i,
    {
        out.push(concat2(prefix, items[i].as_str()));
        i = i + 1;
    }
    assert(strings_view(out@) =~= prefixed(strings_view(items@), prefix@));
    out
}

/// The header of the `count`-th message delivered to a registration named `label`, of a
/// topic: `\n{label} [{count}] `{topic}``.
pub open spec fn header_text(label: Seq<char>, count: nat, topic: Seq<char>) -> Seq<char> {
    "\n"@ + label + " ["@ + decimal(count) + "] `"@ + topic + "`"@
}

/// Writes the header of a delivered message.
pub fn message_header(label: &str, count: u64, topic: &str) -> (r: String)
    ensures
        r@ == header_text(label@, count as nat, topic@),
{
    let mut out = concat3("\n", label, " [");
    out.append(fmt_u64(count).as_str());
    out.append("] `");
    out.append(topic);
    out.append("`");
    out
}

/// The report of a pass over the messages: the page first when one was asked for, then the
/// output lines, or a note that there were none.
pub open spec fn messages_report_text(page: Option<PaginationInfo>, lines: Seq<Seq<char>>) -> Seq<char> {
    let head = match page {
        Some(p) => pagination_text(
            p.offset as nat,
            p.limit as nat,
            p.returned_count as nat,
            p.total as nat,
        ) + "\n\n"@,
        None => Seq::empty(),
    };
    if lines.len() == 0 {
        head + "Bag file processed successfully (no output generated)"@
    } else {
        head + joined(lines, "\n"@)
    }
}

/// Writes the report of a pass over the messages.
pub fn messages_report(page: Option<PaginationInfo>, lines: &Vec<String>) -> (r: String)
    ensures
        r@ == messages_report_text(page, strings_view(lines@)),
{
    let mut out = match page {
        Some(p) => {
            let mut s = p.format_line();
            s.append("\n\n");
            s
        },
        None => String::new(),
    };
    if lines.len() == 0 {
        out.append("Bag file processed successfully (no output generated)");
    } else {
        out.append(join_strings(lines, "\n").as_str());
    }
    out
}

/// The information of a bag: the statistics and an empty line when there are any, the topics
/// and their types, and the definitions when they are asked for; one text per line.
pub open spec fn info_lines(
    stats: Seq<char>,
    topics: Seq<Seq<char>>,
    definitions: Option<Seq<Seq<char>>>,
) -> Seq<Seq<char>> {
    let head: Seq<Seq<char>> = if stats.len() > 0 {
        seq![stats, Seq::empty()]
    } else {
        Seq::empty()
    };
    let body = head + seq!["Topics and message types:"@] + prefixed(topics, "  "@);
    match definitions {
        Some(d) => body + seq![Seq::empty(), "Message definitions:\n"@] + d,
        None => body,
    }
}

/// Writes the information of a bag.
pub fn info_report(stats: &str, topics: &Vec<String>, definitions: Option<&Vec<String>>) -> (r: String)
    ensures
        r@ == joined(
            info_lines(
                stats@,
                strings_view(topics@),
                match definitions {
                    Some(d) => Some(strings_view(d@)),
                    None => None,
                },
            ),
            "\n"@,
        ),
{
    proof {
        reveal_strlit("");
    }
    let ghost tv = strings_view(topics@);
    let ghost head: Seq<Seq<char>> = if stats@.len() > 0 {
        seq![stats@, Seq::empty()]
    } else {
        Seq::empty()
    };
    let mut lines: Vec<String> = Vec::new();
    if stats.unicode_len() > 0 {
        lines.push(String::from_str(stats));
        lines.push(String::new());
    }
    lines.push(String::from_str("Topics and message types:"));
    let ghost start = head + seq!["Topics and message types:"@];
    assert(strings_view(lines@) =~= start);
    let indented = prefix_all(topics, "  ");
    let mut i: usize = 0;
    while i < indented.len()
        invariant
            i <= indented@.len(),
            strings_view(indented@) == prefixed(tv, "  "@),
            strings_view(lines@) == start + prefixed(tv, "  "@).take(i as int),
        decreases indented@.len() - i,
    {
        let ghost before = lines@;
        lines.push(String::from_str(indented[i].as_str()));
        assert(strings_view(indented@)[i as int] == indented@[i as int]@);
        assert(strings_view(lines@) =~= strings_view(before).push(indented@[i as int]@));
        assert(prefixed(tv, "  "@).take(i + 1) =~= prefixed(tv, "  "@).take(i as int).push(
            prefixed(tv, "  "@)[i as int],
        ));
        i = i + 1;
    }
    assert(prefixed(tv, "  "@).take(i as int) =~= prefixed(tv, "  "@));
    let ghost body = start + prefixed(tv, "  "@);
    match definitions {
        Some(d) => {
            lines.push(String::new());
            lines.push(String::from_str("Message definitions:\n"));
            let ghost mid = body + seq![Seq::<char>::empty(), "Message definitions:\n"@];
            assert(strings_view(lines@) =~= mid);
            let ghost dv = strings_view(d@);
            let mut k: usize = 0;
            while k < d.len()
                invariant
                    k <= d@.len(),
                    dv == strings_view(d@),
                    strings_view(lines@) == mid + dv.take(k as int),
                decreases d@.len() - k,
            {
                let ghost before = lines@;
                lines.push(String::from_str(d[k].as_str()));
                assert(strings_view(lines@) =~= strings_view(before).push(d@[k as int]@));
                assert(dv.take(k + 1) =~= dv.take(k as int).push(dv[k as int]));
                k = k + 1;
            }
            assert(dv.take(k as int) =~= dv);
        },
        None => {},
    }
    join_strings(&lines, "\n")
}

/// The text of the metadata resource of a bag.
pub open spec fn metadata_resource_text(
    stats: Seq<char>,
    topics: Seq<Seq<char>>,
    definitions: Seq<Seq<char>>,
) -> Seq<char> {
    stats + "\n\nTopics and message types:\n"@ + joined(prefixed(topics, "  "@), "\n"@)
        + "\n\nMessage definitions:\n"@ + joined(definitions, "\n"@)
}

/// Writes the text of the metadata resource of a bag.
pub fn metadata_text(stats: &str, topics: &Vec<String>, definitions: &Vec<String>) -> (r: String)
    ensures
        r@ == metadata_resource_text(stats@, strings_view(topics@), strings_view(definitions@)),
{
    let mut out = concat2(stats, "\n\nTopics and message types:\n");
    let indented = prefix_all(topics, "  ");
    out.append(join_strings(&indented, "\n").as_str());
    out.append("\n\nMessage definitions:\n");
    out.append(join_strings(definitions, "\n").as_str());
    out
}

/// The URI of a page of messages, of a type or else of a topic, with the page when one was
/// asked for (its offset 0 and limit 1 when absent).
pub open spec fn messages_uri_text(
    bag_path: Seq<char>,
    message_type: Option<Seq<char>>,
    topic: Option<Seq<char>>,
    offset: Option<usize>,
    limit: Option<usize>,
) -> Seq<char> {
    let kind = if message_type is Some {
        "messages/"@
    } else {
        "topics/"@
    };
    let name = match message_type {
        Some(t) => t,
        None => match topic {
            Some(t) => t,
            None => Seq::empty(),
        },
    };
    let query = if offset is Some || limit is Some {
        "?offset="@ + decimal(
            match offset {
                Some(o) => o as nat,
                None => 0,
            },
        ) + "&limit="@ + decimal(
            match limit {
                Some(l) => l as nat,
                None => 1,
            },
        )
    } else {
        Seq::empty()
    };
    "rosbag://"@ + bag_path + "/"@ + kind + name + query
}

/// Writes the URI of a page of messages.
pub fn messages_uri(
    bag_path: &str,
    message_type: Option<&str>,
    topic: Option<&str>,
    offset: Option<usize>,
    limit: Option<usize>,
) -> (r: String)
    ensures
        r@ == messages_uri_text(
            bag_path@,
            match message_type {
                Some(t) => Some(t@),
                None => None,
            },
            match topic {
                Some(t) => Some(t@),
                None => None,
            },
            offset,
            limit,
        ),
{
    let mut out = concat3("rosbag://", bag_path, "/");
    match message_type {
        Some(t) => {
            out.append("messages/");
            out.append(t);
        },
        None => {
            out.append("topics/");
            match topic {
                Some(t) => out.append(t),
                None => {},
            }
        },
    }
    if offset.is_some() || limit.is_some() {
        let o: usize = match offset {
            Some(o) => o,
            None => 0,
        };
        let l: usize = match limit {
            Some(l) => l,
            None => 1,
        };
        out.append("?offset=");
        out.append(fmt_u64(o as u64).as_str());
        out.append("&limit=");
        out.append(fmt_u64(l as u64).as_str());
    }
    proof {
        reveal_strlit("");
    }
    out
}

/// The name of the file of an extracted image: `image_{topic}_{offset}.png`, with each `/` of
/// the topic turned into `_` and the offset 0 when absent.
pub open spec fn image_file_text(topic: Seq<char>, offset: Option<usize>) -> Seq<char> {
    "image_"@ + topic.map_values(|c: char| if c == '/' { '_' } else { c }) + "_"@ + decimal(
        match offset {
            Some(o) => o as nat,
            None => 0,
        },
    ) + ".png"@
}

/// Writes the name of the file of an extracted image.
pub fn image_file_name(topic: &str, offset: Option<usize>) -> (r: String)
    ensures
        r@ == image_file_text(topic@, offset),
{
    let v = chars_of(topic);
    let mut w: Vec<char> = Vec::new();
    let mut i: usize = 0;
    while i < v.len()
        invariant
            v@ == topic@,
            i <= v@.len(),
            w@ == v@.take(i as int).map_values(|c: char| if c == '/' { '_' } else { c }),
        decreases v@.len() - i,
    {
        let c = v[i];
        w.push(if c == '/' { '_' } else { c });
        assert(v@.take(i + 1) =~= v@.take(i as int).push(c));
        assert(w@ =~= v@.take(i + 1).map_values(|c: char| if c == '/' { '_' } else { c }));
        i = i + 1;
    }
    assert(v@.take(i as int) =~= v@);
    let o: usize = match offset {
        Some(o) => o,
        None => 0,
    };
    let mut out = concat2("image_", string_of(&w, 0, w.len()).as_str());
    out.append("_");
    out.append(fmt_u64(o as u64).as_str());
    out.append(".png");
    out
}

/// The most characters that a response of the bag server holds before it is stored in a file.
pub const LARGE_OUTPUT_CHARS: usize = 20000;

/// The characters of the preview that stands for a stored response.
pub const PREVIEW_CHARS: usize = 2000;

/// Whether a response is too long to be given as it is.
pub fn is_large_output(content: &str) -> (r: bool)
    ensures
        r == (content@.len() > LARGE_OUTPUT_CHARS),
{
    content.unicode_len() > LARGE_OUTPUT_CHARS
}

/// The response that stands for a long one stored in a file: its length, where it is, and a
/// preview of its first characters.
pub open spec fn stored_output_text(content: Seq<char>, path: Seq<char>) -> Seq<char> {
    let preview = if content.len() > PREVIEW_CHARS {
        content.take(PREVIEW_CHARS as int) + "\n..."@
    } else {
        content
    };
    "Output of "@ + decimal(content.len()) + " characters stored in "@ + path
        + "\n\nPreview:\n"@ + preview
}

/// Writes the response that stands for a long one stored in a file.
pub fn stored_output_note(content: &str, path: &str) -> (r: String)
    ensures
        r@ == stored_output_text(content@, path@),
{
    let v = chars_of(content);
    let n = v.len();
    let mut out = concat3("Output of ", fmt_u64(n as u64).as_str(), " characters stored in ");
    out.append(path);
    out.append("\n\nPreview:\n");
    if n > PREVIEW_CHARS {
        out.append(string_of(&v, 0, PREVIEW_CHARS).as_str());
        out.append("\n...");
        assert(v@.subrange(0, PREVIEW_CHARS as int) =~= content@.take(PREVIEW_CHARS as int));
    } else {
        out.append(content);
    }
    out
}

/// What the metadata of a bag gathers over a pass: the type of each topic, the message types,
/// the summary of the counts, a line per connection and the definition tree of each.
pub struct BagMetadata {
    /// Each topic once, with the type of its last connection.
    pub topics: Vec<(String, String)>,
    /// Each message type once, in the order found.
    pub message_types: Vec<String>,
    pub stats_output: String,
    pub topic_list: Vec<String>,
    pub definitions: Vec<String>,
}

/// The contents of a list of pairs of strings.
pub open spec fn pairs_view(v: Seq<(String, String)>) -> Seq<(Seq<char>, Seq<char>)> {
    Seq::new(v.len(), |i: int| (v[i].0@, v[i].1@))
}

/// Whether no key occurs twice in a list of pairs.
pub open spec fn keys_distinct<K, V>(s: Seq<(K, V)>) -> bool {
    forall|i: int, j: int| 0 <= i < j < s.len() ==> s[i].0 != s[j].0
}

/// Whether no item occurs twice in a list.
pub open spec fn items_distinct<T>(s: Seq<T>) -> bool {
    forall|i: int, j: int| 0 <= i < j < s.len() ==> s[i] != s[j]
}

/// Setting a key keeps the keys of a list distinct.
pub proof fn lemma_assoc_put_distinct<K, V>(s: Seq<(K, V)>, k: K, v: V)
    requires
        keys_distinct(s),
    ensures
        keys_distinct(assoc_put(s, k, v)),
{
    lemma_assoc_index(s, k);
}

/// Adding a member keeps the items of a list distinct.
pub proof fn lemma_with_member_distinct<T>(s: Seq<T>, x: T)
    requires
        items_distinct(s),
    ensures
        items_distinct(with_member(s, x)),
{
    lemma_seq_index(s, x);
}

impl BagMetadata {
    /// Metadata with nothing gathered yet.
    pub fn new() -> (r: BagMetadata)
        ensures
            r.topics@.len() == 0,
            r.message_types@.len() == 0,
            r.stats_output@.len() == 0,
            r.topic_list@.len() == 0,
            r.definitions@.len() == 0,
    {
        BagMetadata {
            topics: Vec::new(),
            message_types: Vec::new(),
            stats_output: String::new(),
            topic_list: Vec::new(),
            definitions: Vec::new(),
        }
    }

    /// Whether each topic and each message type occurs once.
    pub open spec fn wf(&self) -> bool {
        keys_distinct(pairs_view(self.topics@)) && items_distinct(strings_view(self.message_types@))
    }

    /// Takes in a connection found in the bag: its topic gets its type (in place of an earlier
    /// one), its type is added to the types unless already there, and its line and definition
    /// tree are added after the others.
    pub fn add_connection(&mut self, info: &ConnectionInfo)
        ensures
            pairs_view(final(self).topics@) == assoc_put(
                pairs_view(old(self).topics@),
                info.topic@,
                path_text(path_view(info.message_type)),
            ),
            strings_view(final(self).message_types@) == with_member(
                strings_view(old(self).message_types@),
                path_text(path_view(info.message_type)),
            ),
            strings_view(final(self).topic_list@) == strings_view(old(self).topic_list@).push(
                info.topic@ + ": "@ + path_text(path_view(info.message_type)),
            ),
            strings_view(final(self).definitions@) == strings_view(old(self).definitions@).push(
                info.definition_text@,
            ),
            final(self).stats_output@ == old(self).stats_output@,
            old(self).wf() ==> final(self).wf(),
    {
        let ghost before = *self;
        let type_text = info.message_type.to_text();
        proof {
            reveal_strlit("/");
        }
        assert(type_text@ == path_text(path_view(info.message_type)));
        let ghost tv = type_text@;
        let ghost ts = pairs_view(self.topics@);
        proof {
            lemma_assoc_index(ts, info.topic@);
        }
        let mut i: usize = 0;
        let mut found = false;
        while i < self.topics.len()
            invariant_except_break
                !found,
            invariant
                ts == pairs_view(self.topics@),
                self.topics@ == before.topics@,
                i <= self.topics@.len(),
                forall|j: int| 0 <= j < i ==> ts[j].0 != info.topic@,
            ensures
                i <= self.topics@.len(),
                forall|j: int| 0 <= j < i ==> ts[j].0 != info.topic@,
                found ==> i < self.topics@.len() && ts[i as int].0 == info.topic@,
                !found ==> i == self.topics@.len(),
            decreases self.topics@.len() - i,
        {
            assert(ts[i as int].0 == self.topics@[i as int].0@);
            if str_eq(self.topics[i].0.as_str(), info.topic.as_str()) {
                found = true;
                break;
            }
            i = i + 1;
        }
        if found {
            proof {
                lemma_assoc_index_is(ts, info.topic@, i as int);
            }
            self.topics.set(i, (String::from_str(info.topic.as_str()), type_text.clone()));
            assert(pairs_view(self.topics@) =~= ts.update(i as int, (info.topic@, tv)));
        } else {
            proof {
                lemma_assoc_index_none(ts, info.topic@);
            }
            self.topics.push((String::from_str(info.topic.as_str()), type_text.clone()));
            assert(pairs_view(self.topics@) =~= ts.push((info.topic@, tv)));
        }
        let ghost ms = strings_view(self.message_types@);
        proof {
            lemma_seq_index(ms, tv);
        }
        let mut k: usize = 0;
        let mut known = false;
        while k < self.message_types.len()
            invariant_except_break
                !known,
            invariant
                ms == strings_view(self.message_types@),
                tv == type_text@,
                self.message_types@ == before.message_types@,
                k <= self.message_types@.len(),
                forall|j: int| 0 <= j < k ==> ms[j] != tv,
            ensures
                k <= self.message_types@.len(),
                forall|j: int| 0 <= j < k ==> ms[j] != tv,
                known ==> k < self.message_types@.len() && ms[k as int] == tv,
                !known ==> k == self.message_types@.len(),
            decreases self.message_types@.len() - k,
        {
            assert(ms[k as int] == self.message_types@[k as int]@);
            if str_eq(self.message_types[k].as_str(), type_text.as_str()) {
                known = true;
                break;
            }
            k = k + 1;
        }
        if known {
            proof {
                lemma_seq_index_is(ms, tv, k as int);
            }
        } else {
            self.message_types.push(type_text);
            assert(strings_view(self.message_types@) =~= ms.push(tv));
            assert(seq_index(ms, tv) is None);
        }
        let ghost tl = strings_view(self.topic_list@);
        self.topic_list.push(info.format_basic());
        assert(strings_view(self.topic_list@) =~= tl.push(
            info.topic@ + ": "@ + path_text(path_view(info.message_type)),
        ));
        let ghost dl = strings_view(self.definitions@);
        self.definitions.push(info.format_definition());
        assert(strings_view(self.definitions@) =~= dl.push(info.definition_text@));
        proof {
            if before.wf() {
                lemma_assoc_put_distinct(ts, info.topic@, tv);
                lemma_with_member_distinct(ms, tv);
            }
        }
    }

    /// Takes in the counts of the pass: their summary follows what was gathered before.
    pub fn add_stats(&mut self, stats: &ProcessingStats)
        ensures
            final(self).stats_output@ == old(self).stats_output@ + summary_text(
                stats.total_messages as nat,
                stats.type_counts(),
                stats.topic_counts(),
            ),
            final(self).topics@ == old(self).topics@,
            final(self).message_types@ == old(self).message_types@,
            final(self).topic_list@ == old(self).topic_list@,
            final(self).definitions@ == old(self).definitions@,
    {
        let summary = stats.format_summary();
        self.stats_output.append(summary.as_str());
    }
}

} // verus!
