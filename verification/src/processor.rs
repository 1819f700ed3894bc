//! The decisions of bag processing: what each connection record and each message record of a
//! bag leads to, which messages are selected by registrations and the page, and the counts
//! kept on the way. Reading the bag and delivering messages are left to the caller.
use vstd::prelude::*;
use vstd::string::*;

use crate::assoc::{
    assoc_get, assoc_index, assoc_put, count_one, count_sum, lemma_assoc_index,
    lemma_assoc_put_get, lemma_assoc_put_values, lemma_count_le_sum, lemma_count_one,
    lemma_seq_index, lemma_seq_index_is, lemma_with_member, seq_index, with_member,
};
use crate::decode::{error_reports, parse_message_data, spec_message, Fail};
use crate::definition::{
    definition_tree, definition_tree_text, dependencies_from, dependencies_readable,
    get_dependencies, sections_fit, spec_message_path, MessagePath, MsgDef,
};
use crate::error::RosbagError;
use crate::fmt::{decimal, fmt_u64};
use crate::text::{concat3, str_eq};
use crate::value::Value;

verus! {

/// The content of a message type name: package and name.
pub type PathView = (Seq<char>, Seq<char>);

/// The content of a message type name.
pub open spec fn path_view(p: MessagePath) -> PathView {
    (p.package@, p.name@)
}

/// The text of a message type name.
pub open spec fn path_text(p: PathView) -> Seq<char> {
    p.0 + "/"@ + p.1
}

/// A connection of a bag: a topic and the type of its messages.
#[derive(Debug)]
pub struct Connection {
    pub topic: String,
    pub message_path: MessagePath,
}

/// A decoded message, ready to be delivered.
#[derive(Debug)]
pub struct MessageLog {
    pub time: u64,
    pub topic: String,
    pub msg_path: MessagePath,
    pub data: Value,
}

/// Where a page of messages starts and how long it may be, and what was found.
#[derive(Clone, Copy, Debug, PartialEq, Eq, Structural)]
pub struct PaginationInfo {
    pub offset: usize,
    pub limit: usize,
    pub returned_count: u64,
    pub total: u64,
}

/// A connection found in a bag, with the text that shows its definitions.
#[derive(Debug)]
pub struct ConnectionInfo {
    pub id: u32,
    pub topic: String,
    pub message_type: MessagePath,
    pub definition_text: String,
}

/// What to do with a message record.
#[derive(Debug)]
pub enum MessageAction {
    /// No registration selects it, or it lies outside the page.
    Skip,
    /// Deliver it to the registration of its type (by index) and to that of its topic.
    Deliver(MessageLog, Option<usize>, Option<usize>),
    /// It was selected but its data does not decode.
    ParseFailed(RosbagError),
}

/// The state of the processing of a bag, with the senders (of type `S`) that the messages of
/// each registered type and topic go to.
#[verifier::reject_recursive_types(S)]
pub struct BagProcessor<S> {
    bag_path: String,
    connections: Vec<(u32, Connection)>,
    definitions: Vec<(MessagePath, Vec<MsgDef>)>,
    types: Vec<MessagePath>,
    topics: Vec<String>,
    offset: usize,
    limit: usize,
    paginated: bool,
    total: u64,
    by_type: Vec<(MessagePath, u64)>,
    by_topic: Vec<(String, u64)>,
    matched: u64,
    returned: u64,
    failed: u64,
    stopped: bool,
    type_senders: Vec<S>,
    topic_senders: Vec<S>,
}

/// The content of a [`BagProcessor`].
#[verifier::ext_equal]
pub struct ProcessorView {
    pub bag_path: Seq<char>,
    pub connections: Seq<(u32, (Seq<char>, PathView))>,
    pub definitions: Seq<(PathView, Seq<MsgDef>)>,
    pub types: Seq<PathView>,
    pub topics: Seq<Seq<char>>,
    pub offset: nat,
    pub limit: nat,
    pub paginated: bool,
    pub total: nat,
    pub by_type: Seq<(PathView, nat)>,
    pub by_topic: Seq<(Seq<char>, nat)>,
    pub matched: nat,
    pub returned: nat,
    pub failed: nat,
    /// Whether the pass stopped because a delivery failed.
    pub stopped: bool,
}

/// Whether the message with index `i` among the selected ones lies on the page.
pub open spec fn in_window(i: nat, offset: nat, limit: nat) -> bool {
    offset <= i < offset + limit
}

/// How many of the first `matched` selected messages lie on the page.
pub open spec fn window_count(matched: nat, offset: nat, limit: nat) -> nat {
    if matched <= offset {
        0
    } else if matched - offset <= limit {
        (matched - offset) as nat
    } else {
        limit
    }
}

impl<S> View for BagProcessor<S> {
    type V = ProcessorView;

    closed spec fn view(&self) -> ProcessorView {
        ProcessorView {
            bag_path: self.bag_path@,
            connections: Seq::new(
                self.connections@.len(),
                |i: int|
                    (
                        self.connections@[i].0,
                        (
                            self.connections@[i].1.topic@,
                            path_view(self.connections@[i].1.message_path),
                        ),
                    ),
            ),
            definitions: Seq::new(
                self.definitions@.len(),
                |i: int| (path_view(self.definitions@[i].0), self.definitions@[i].1@),
            ),
            types: Seq::new(self.types@.len(), |i: int| path_view(self.types@[i])),
            topics: Seq::new(self.topics@.len(), |i: int| self.topics@[i]@),
            offset: self.offset as nat,
            limit: self.limit as nat,
            paginated: self.paginated,
            total: self.total as nat,
            by_type: Seq::new(
                self.by_type@.len(),
                |i: int| (path_view(self.by_type@[i].0), self.by_type@[i].1 as nat),
            ),
            by_topic: Seq::new(
                self.by_topic@.len(),
                |i: int| (self.by_topic@[i].0@, self.by_topic@[i].1 as nat),
            ),
            matched: self.matched as nat,
            returned: self.returned as nat,
            failed: self.failed as nat,
            stopped: self.stopped,
        }
    }
}

impl ProcessorView {
    /// What the processor keeps true: every known type has at least its own definition, the
    /// counts by type and by topic add up to the number of messages, and every selected
    /// message on the page was either delivered or failed to decode.
    pub open spec fn wf(&self) -> bool {
        &&& forall|i: int|
            0 <= i < self.definitions.len() ==> (#[trigger] self.definitions[i]).1.len() >= 1
        &&& count_sum(self.by_type) == self.total
        &&& count_sum(self.by_topic) == self.total
        &&& self.matched <= self.total
        &&& self.returned + self.failed == window_count(self.matched, self.offset, self.limit)
        &&& self.total <= u64::MAX
    }
}

/// The text of the error for a message of an unknown connection.
pub open spec fn unknown_connection_text(id: u32) -> Seq<char> {
    "Internal Error: Connection ID "@ + decimal(id as nat) + " not found for message data."@
}

/// The text of the error for a message of a type without definitions.
pub open spec fn missing_definitions_text(p: PathView) -> Seq<char> {
    "Internal Error: Definitions for "@ + path_text(p) + " not found despite connection."@
}

/// Whether an index found by exec code is the one a specification finds.
pub open spec fn same_index(a: Option<usize>, b: Option<int>) -> bool {
    match (a, b) {
        (Some(x), Some(y)) => x as int == y,
        (None, None) => true,
        _ => false,
    }
}

/// The state after counting one more message of `topic` and type `p`.
pub open spec fn counted(v: ProcessorView, topic: Seq<char>, p: PathView) -> ProcessorView {
    ProcessorView {
        total: v.total + 1,
        by_type: count_one(v.by_type, p),
        by_topic: count_one(v.by_topic, topic),
        ..v
    }
}

/// Whether a registration selects messages of `topic` and type `p`.
pub open spec fn selected(v: ProcessorView, topic: Seq<char>, p: PathView) -> bool {
    seq_index(v.types, p) is Some || seq_index(v.topics, topic) is Some
}

/// The senders after putting `s` at the registration of `k`: in place of the sender of `k`
/// when `k` was registered, else after the others.
pub open spec fn put_sender<K, S>(keys: Seq<K>, senders: Seq<S>, k: K, s: S) -> Seq<S> {
    match seq_index(keys, k) {
        Some(i) => senders.update(i, s),
        None => senders.push(s),
    }
}

/// The sender at the registration of `k`, if `k` is registered.
pub open spec fn sender_of<K, S>(keys: Seq<K>, senders: Seq<S>, k: K) -> Option<S> {
    match seq_index(keys, k) {
        Some(i) => Some(senders[i]),
        None => None,
    }
}

/// Registering a key again replaces its sender: after `s` is put at the registration of `k`,
/// `k` has the sender `s`, and every other key keeps the sender it had (or stays unregistered).
pub proof fn lemma_last_sender_wins<K, S>(keys: Seq<K>, senders: Seq<S>, k: K, s: S, other: K)
    requires
        senders.len() == keys.len(),
    ensures
        sender_of(with_member(keys, k), put_sender(keys, senders, k, s), k) == Some(s),
        other != k ==> sender_of(with_member(keys, k), put_sender(keys, senders, k, s), other)
            == sender_of(keys, senders, other),
        put_sender(keys, senders, k, s).len() == with_member(keys, k).len(),
{
    lemma_with_member(keys, k);
    lemma_seq_index(keys, k);
    lemma_seq_index(keys, other);
    if seq_index(keys, k) is None {
        let ks = keys.push(k);
        if other != k {
            match seq_index(keys, other) {
                Some(i) => {
                    lemma_seq_index_is(ks, other, i);
                },
                None => {
                    lemma_seq_index(ks, other);
                    if seq_index(ks, other) is Some {
                        let i = seq_index(ks, other).unwrap();
                        if i < keys.len() {
                            assert(keys[i] == ks[i]);
                        }
                    }
                },
            }
        }
    }
}

impl<S> BagProcessor<S> {
    /// A processor for the bag at `bag_path`, with nothing registered and a page of one
    /// message from the start.
    pub fn new(bag_path: String) -> (r: Self)
        ensures
            r@.bag_path == bag_path@,
            r@.connections.len() == 0,
            r@.definitions.len() == 0,
            r@.types.len() == 0,
            r@.topics.len() == 0,
            r@.offset == 0,
            r@.limit == 1,
            !r@.paginated,
            r@.total == 0,
            r@.by_type.len() == 0,
            r@.by_topic.len() == 0,
            r@.matched == 0,
            r@.returned == 0,
            r@.failed == 0,
            !r@.stopped,
            r@.wf(),
            r.type_senders().len() == 0,
            r.topic_senders().len() == 0,
    {
        BagProcessor {
            bag_path,
            connections: Vec::new(),
            definitions: Vec::new(),
            types: Vec::new(),
            topics: Vec::new(),
            offset: 0,
            limit: 1,
            paginated: false,
            total: 0,
            by_type: Vec::new(),
            by_topic: Vec::new(),
            matched: 0,
            returned: 0,
            failed: 0,
            stopped: false,
            type_senders: Vec::new(),
            topic_senders: Vec::new(),
        }
    }

    /// The path of the bag.
    pub fn bag_path(&self) -> (r: &str)
        ensures
            r@ == self@.bag_path,
    {
        self.bag_path.as_str()
    }

    /// The number of message records counted so far.
    pub fn total_messages(&self) -> (r: u64)
        ensures
            r == self@.total,
    {
        self.total
    }

    /// The senders of the registered message types, in the order of registration.
    pub closed spec fn type_senders(&self) -> Seq<S> {
        self.type_senders@
    }

    /// The senders of the registered topics, in the order of registration.
    pub closed spec fn topic_senders(&self) -> Seq<S> {
        self.topic_senders@
    }

    /// Whether there is one sender for each registered type and topic.
    pub open spec fn senders_match(&self) -> bool {
        &&& self.type_senders().len() == self@.types.len()
        &&& self.topic_senders().len() == self@.topics.len()
    }

    /// Registers a message type (such as `sensor_msgs/Imu`) whose messages are to be
    /// delivered to `sender`; a type registered before gets `sender` in place of its old one.
    pub fn register_message(&mut self, msg_path: &str, sender: S) -> (r: Result<(), RosbagError>)
        requires
            old(self).senders_match(),
        ensures
            final(self).senders_match(),
            final(self).topic_senders() == old(self).topic_senders(),
            match spec_message_path(msg_path@) {
                None => (r matches Err(RosbagError::RosMessageError(_))) && final(self)@ == old(
                    self,
                )@ && final(self).type_senders() == old(self).type_senders(),
                Some(p) => {
                    &&& final(self)@ == (ProcessorView {
                        types: with_member(old(self)@.types, p),
                        ..old(self)@
                    })
                    &&& final(self).type_senders() == put_sender(
                        old(self)@.types,
                        old(self).type_senders(),
                        p,
                        sender,
                    )
                    &&& r is Ok
                },
            },
            old(self)@.wf() ==> final(self)@.wf(),
    {
        let path = match MessagePath::parse(msg_path) {
            Ok(p) => p,
            Err(e) => {
                return Err(e);
            },
        };
        proof {
            lemma_with_member(self@.types, path_view(path));
            lemma_seq_index(self@.types, path_view(path));
        }
        match self.type_slot(&path) {
            Some(i) => {
                self.type_senders.set(i, sender);
                assert(self@ =~= old(self)@);
                Ok(())
            },
            None => {
                let ghost types = self@.types;
                self.types.push(path);
                self.type_senders.push(sender);
                assert(self@.types =~= types.push(path_view(path)));
                assert(self@ =~= (ProcessorView { types: types.push(path_view(path)), ..old(self)@ }));
                Ok(())
            },
        }
    }

    /// Registers a topic whose messages are to be delivered to `sender`; a topic registered
    /// before gets `sender` in place of its old one.
    pub fn register_topic(&mut self, topic: &str, sender: S) -> (r: Result<(), RosbagError>)
        requires
            old(self).senders_match(),
        ensures
            final(self).senders_match(),
            final(self)@ == (ProcessorView {
                topics: with_member(old(self)@.topics, topic@),
                ..old(self)@
            }),
            final(self).topic_senders() == put_sender(
                old(self)@.topics,
                old(self).topic_senders(),
                topic@,
                sender,
            ),
            final(self).type_senders() == old(self).type_senders(),
            r is Ok,
            old(self)@.wf() ==> final(self)@.wf(),
    {
        proof {
            lemma_with_member(self@.topics, topic@);
            lemma_seq_index(self@.topics, topic@);
        }
        match self.topic_slot(topic) {
            Some(i) => {
                self.topic_senders.set(i, sender);
                assert(self@ =~= old(self)@);
                Ok(())
            },
            None => {
                let ghost topics = self@.topics;
                self.topics.push(String::from_str(topic));
                self.topic_senders.push(sender);
                assert(self@.topics =~= topics.push(topic@));
                assert(self@ =~= (ProcessorView { topics: topics.push(topic@), ..old(self)@ }));
                Ok(())
            },
        }
    }

    /// The sender of the message type registered at `slot` (as a delivery names it).
    pub fn type_sender(&self, slot: usize) -> (r: Option<&S>)
        ensures
            match r {
                Some(s) => slot < self.type_senders().len() && *s == self.type_senders()[slot as int],
                None => slot >= self.type_senders().len(),
            },
    {
        if slot < self.type_senders.len() {
            Some(&self.type_senders[slot])
        } else {
            None
        }
    }

    /// The sender of the topic registered at `slot` (as a delivery names it).
    pub fn topic_sender(&self, slot: usize) -> (r: Option<&S>)
        ensures
            match r {
                Some(s) => slot < self.topic_senders().len() && *s == self.topic_senders()[slot as int],
                None => slot >= self.topic_senders().len(),
            },
    {
        if slot < self.topic_senders.len() {
            Some(&self.topic_senders[slot])
        } else {
            None
        }
    }

    /// Starts a pass over the messages of the bag: the page starts after `offset` selected
    /// messages (none when absent) and holds at most `limit` of them (one when absent); the
    /// counts start from zero.
    pub fn begin(&mut self, offset: Option<usize>, limit: Option<usize>)
        ensures
            final(self).type_senders() == old(self).type_senders(),
            final(self).topic_senders() == old(self).topic_senders(),
            final(self)@ == (ProcessorView {
                offset: match offset {
                    Some(o) => o as nat,
                    None => 0,
                },
                limit: match limit {
                    Some(l) => l as nat,
                    None => 1,
                },
                paginated: offset is Some || limit is Some,
                total: 0,
                by_type: Seq::empty(),
                by_topic: Seq::empty(),
                matched: 0,
                returned: 0,
                failed: 0,
                stopped: false,
                ..old(self)@
            }),
            old(self)@.wf() ==> final(self)@.wf(),
    {
        self.paginated = offset.is_some() || limit.is_some();
        self.offset = match offset {
            Some(o) => o,
            None => 0,
        };
        self.limit = match limit {
            Some(l) => l,
            None => 1,
        };
        self.total = 0;
        self.by_type = Vec::new();
        self.by_topic = Vec::new();
        self.matched = 0;
        self.returned = 0;
        self.failed = 0;
        self.stopped = false;
        assert(self@ =~= (ProcessorView {
            offset: match offset {
                Some(o) => o as nat,
                None => 0,
            },
            limit: match limit {
                Some(l) => l as nat,
                None => 1,
            },
            paginated: offset is Some || limit is Some,
            total: 0,
            by_type: Seq::empty(),
            by_topic: Seq::empty(),
            matched: 0,
            returned: 0,
            failed: 0,
            stopped: false,
            ..old(self)@
        }));
    }

    /// The page that the pass asked for and what it found, when a page was asked for: the
    /// number of selected messages delivered and the number of all selected messages.
    pub fn pagination(&self) -> (r: Option<PaginationInfo>)
        ensures
            if self@.paginated {
                r matches Some(p) && p.offset == self@.offset && p.limit == self@.limit
                    && p.returned_count == self@.returned && p.total == self@.matched
            } else {
                r is None
            },
    {
        if self.paginated {
            Some(
                PaginationInfo {
                    offset: self.offset,
                    limit: self.limit,
                    returned_count: self.returned,
                    total: self.matched,
                },
            )
        } else {
            None
        }
    }
}

impl<S> BagProcessor<S> {
    /// The index of the registration of a message type.
    fn type_slot(&self, p: &MessagePath) -> (r: Option<usize>)
        ensures
            same_index(r, seq_index(self@.types, path_view(*p))),
    {
        let ghost types = self@.types;
        let ghost pv = path_view(*p);
        proof {
            lemma_seq_index(types, pv);
        }
        let mut i: usize = 0;
        while i < self.types.len()
            invariant
                types == self@.types,
                pv == path_view(*p),
                i <= types.len(),
                forall|j: int| 0 <= j < i ==> types[j] != pv,
                match seq_index(types, pv) {
                    Some(k) => 0 <= k < types.len() && types[k] == pv && forall|j: int|
                        0 <= j < k ==> types[j] != pv,
                    None => forall|j: int| 0 <= j < types.len() ==> types[j] != pv,
                },
            decreases types.len() - i,
        {
            assert(types[i as int] == path_view(self.types@[i as int]));
            if self.types[i].same_as(p) {
                assert(seq_index(types, pv) == Some(i as int));
                return Some(i);
            }
            i = i + 1;
        }
        None
    }

    /// The index of the registration of a topic.
    fn topic_slot(&self, topic: &str) -> (r: Option<usize>)
        ensures
            same_index(r, seq_index(self@.topics, topic@)),
    {
        let ghost topics = self@.topics;
        proof {
            lemma_seq_index(topics, topic@);
        }
        let mut i: usize = 0;
        while i < self.topics.len()
            invariant
                topics == self@.topics,
                i <= topics.len(),
                forall|j: int| 0 <= j < i ==> topics[j] != topic@,
                match seq_index(topics, topic@) {
                    Some(k) => 0 <= k < topics.len() && topics[k] == topic@ && forall|j: int|
                        0 <= j < k ==> topics[j] != topic@,
                    None => forall|j: int| 0 <= j < topics.len() ==> topics[j] != topic@,
                },
            decreases topics.len() - i,
        {
            assert(topics[i as int] == self.topics@[i as int]@);
            if str_eq(self.topics[i].as_str(), topic) {
                assert(seq_index(topics, topic@) == Some(i as int));
                return Some(i);
            }
            i = i + 1;
        }
        None
    }

    /// The index of the connection with id `id`.
    fn connection_slot(&self, id: u32) -> (r: Option<usize>)
        ensures
            same_index(r, assoc_index(self@.connections, id)),
    {
        let ghost conns = self@.connections;
        proof {
            lemma_assoc_index(conns, id);
        }
        let mut i: usize = 0;
        while i < self.connections.len()
            invariant
                conns == self@.connections,
                i <= conns.len(),
                forall|j: int| 0 <= j < i ==> conns[j].0 != id,
                match assoc_index(conns, id) {
                    Some(k) => 0 <= k < conns.len() && conns[k].0 == id && forall|j: int|
                        0 <= j < k ==> conns[j].0 != id,
                    None => forall|j: int| 0 <= j < conns.len() ==> conns[j].0 != id,
                },
            decreases conns.len() - i,
        {
            assert(conns[i as int].0 == self.connections@[i as int].0);
            if self.connections[i].0 == id {
                assert(assoc_index(conns, id) == Some(i as int));
                return Some(i);
            }
            i = i + 1;
        }
        None
    }

    /// The index of the definitions of a message type.
    fn definitions_slot(&self, p: &MessagePath) -> (r: Option<usize>)
        ensures
            same_index(r, assoc_index(self@.definitions, path_view(*p))),
    {
        let ghost defs = self@.definitions;
        let ghost pv = path_view(*p);
        proof {
            lemma_assoc_index(defs, pv);
        }
        let mut i: usize = 0;
        while i < self.definitions.len()
            invariant
                defs == self@.definitions,
                pv == path_view(*p),
                i <= defs.len(),
                forall|j: int| 0 <= j < i ==> defs[j].0 != pv,
                match assoc_index(defs, pv) {
                    Some(k) => 0 <= k < defs.len() && defs[k].0 == pv && forall|j: int|
                        0 <= j < k ==> defs[j].0 != pv,
                    None => forall|j: int| 0 <= j < defs.len() ==> defs[j].0 != pv,
                },
            decreases defs.len() - i,
        {
            assert(defs[i as int].0 == path_view(self.definitions@[i as int].0));
            if self.definitions[i].0.same_as(p) {
                assert(assoc_index(defs, pv) == Some(i as int));
                return Some(i);
            }
            i = i + 1;
        }
        None
    }

    /// Takes in a connection record of the bag: the connection's id, topic, type name and full
    /// definition text. A type name that does not read is passed over. Otherwise the
    /// connection is kept (replacing one of the same id) and so are the definitions read from
    /// the text (replacing those of the same type); the result describes the connection. A
    /// definition text that does not read is an error, after the connection was kept. For a
    /// type name that reads, each array length that the definitions of the text give must fit
    /// in `usize` (see `definition_lengths_fit`).
    pub fn on_connection(&mut self, id: u32, topic: &str, tp: &str, definition: &str) -> (r: Result<
        Option<ConnectionInfo>,
        RosbagError,
    >)
        requires
            old(self)@.wf(),
            spec_message_path(tp@) is Some ==> sections_fit(definition@),
        ensures
            final(self).type_senders() == old(self).type_senders(),
            final(self).topic_senders() == old(self).topic_senders(),
            final(self)@.wf(),
            match spec_message_path(tp@) {
                None => r matches Ok(None) && final(self)@ == old(self)@,
                Some(p) => {
                    let conns = assoc_put(old(self)@.connections, id, (topic@, p));
                    if dependencies_readable(definition@) {
                        &&& r matches Ok(Some(info))
                        &&& info.id == id && info.topic@ == topic@
                        &&& path_view(info.message_type) == p
                        &&& assoc_get(final(self)@.definitions, p) matches Some(d)
                        &&& dependencies_from(d, p.0, p.1, definition@)
                        &&& info.definition_text@ == definition_tree_text(topic@, d)
                        &&& final(self)@ == (ProcessorView {
                            connections: conns,
                            definitions: assoc_put(old(self)@.definitions, p, d),
                            ..old(self)@
                        })
                    } else {
                        &&& r matches Err(RosbagError::RosMessageError(_))
                        &&& final(self)@ == (ProcessorView { connections: conns, ..old(self)@ })
                    }
                },
            },
    {
        let path = match MessagePath::parse(tp) {
            Ok(p) => p,
            Err(_) => {
                return Ok(None);
            },
        };
        let ghost pv = path_view(path);
        let ghost before = self@;
        let conn = Connection { topic: String::from_str(topic), message_path: path.copy() };
        proof {
            lemma_assoc_index(before.connections, id);
        }
        match self.connection_slot(id) {
            Some(i) => {
                self.connections.set(i, (id, conn));
            },
            None => {
                self.connections.push((id, conn));
            },
        }
        let ghost conns = assoc_put(before.connections, id, (topic@, pv));
        assert(self@.connections =~= conns);
        assert(self@ =~= (ProcessorView { connections: conns, ..before }));
        let defs = match get_dependencies(&path, definition) {
            Ok(d) => d,
            Err(e) => {
                return Err(e);
            },
        };
        let text = definition_tree(topic, &defs);
        let ghost dv = defs@;
        let ghost mid = self@;
        proof {
            lemma_assoc_index(mid.definitions, pv);
        }
        match self.definitions_slot(&path) {
            Some(i) => {
                self.definitions.set(i, (path.copy(), defs));
            },
            None => {
                self.definitions.push((path.copy(), defs));
            },
        }
        let ghost new_defs = assoc_put(mid.definitions, pv, dv);
        assert(self@.definitions =~= new_defs);
        assert(self@ =~= (ProcessorView { definitions: new_defs, ..mid }));
        proof {
            lemma_assoc_put_get(mid.definitions, pv, dv);
            assert forall|j: int| 0 <= j < new_defs.len() implies (#[trigger] new_defs[j]).1.len()
                >= 1 by {
                lemma_assoc_put_values(mid.definitions, pv, dv, j);
            }
        }
        Ok(Some(ConnectionInfo { id, topic: String::from_str(topic), message_type: path, definition_text: text }))
    }
}

/// The state after a message of `topic` and type `p`: it is counted; when a registration
/// selects it, it takes the next index among the selected messages; when that index lies on
/// the page, it is delivered if its data decodes (`decodes`) and counted as failed otherwise.
pub open spec fn message_state(v: ProcessorView, topic: Seq<char>, p: PathView, decodes: bool) -> ProcessorView {
    let c = counted(v, topic, p);
    if !selected(v, topic, p) {
        c
    } else if !in_window(v.matched, v.offset, v.limit) {
        ProcessorView { matched: v.matched + 1, ..c }
    } else if decodes {
        ProcessorView { matched: v.matched + 1, returned: v.returned + 1, ..c }
    } else {
        ProcessorView { matched: v.matched + 1, failed: v.failed + 1, ..c }
    }
}

/// How many messages of the first `matched` selected ones lie on the page grows by one
/// exactly when the next selected message lies on it.
pub proof fn lemma_window_count_step(matched: nat, offset: nat, limit: nat)
    ensures
        window_count(matched + 1, offset, limit) == window_count(matched, offset, limit) + (if in_window(
            matched,
            offset,
            limit,
        ) {
            1nat
        } else {
            0nat
        }),
{
}

impl<S> BagProcessor<S> {
    /// Counts one more message of type `p`.
    fn count_type(&mut self, p: &MessagePath)
        requires
            count_sum(old(self)@.by_type) < u64::MAX,
        ensures
            final(self).type_senders() == old(self).type_senders(),
            final(self).topic_senders() == old(self).topic_senders(),
            final(self)@ == (ProcessorView {
                by_type: count_one(old(self)@.by_type, path_view(*p)),
                ..old(self)@
            }),
    {
        let ghost before = self@;
        let ghost pv = path_view(*p);
        let ghost counts = before.by_type;
        proof {
            lemma_assoc_index(counts, pv);
        }
        let mut i: usize = 0;
        let mut found: Option<usize> = None;
        while i < self.by_type.len()
            invariant_except_break
                found is None,
            invariant
                self@ == before,
                counts == before.by_type,
                pv == path_view(*p),
                i <= counts.len(),
                forall|j: int| 0 <= j < i ==> counts[j].0 != pv,
            ensures
                match found {
                    Some(k) => k < counts.len() && counts[k as int].0 == pv && forall|j: int|
                        0 <= j < k ==> counts[j].0 != pv,
                    None => forall|j: int| 0 <= j < counts.len() ==> counts[j].0 != pv,
                },
            decreases counts.len() - i,
        {
            assert(counts[i as int].0 == path_view(self.by_type@[i as int].0));
            if self.by_type[i].0.same_as(p) {
                found = Some(i);
                break;
            }
            i = i + 1;
        }
        match found {
            Some(k) => {
                proof {
                    crate::assoc::lemma_assoc_index_is(counts, pv, k as int);
                    lemma_count_le_sum(counts, k as int);
                }
                let c = self.by_type[k].1;
                self.by_type.set(k, (p.copy(), c + 1));
            },
            None => {
                proof {
                    crate::assoc::lemma_assoc_index_none(counts, pv);
                }
                self.by_type.push((p.copy(), 1));
            },
        }
        assert(self@.by_type =~= count_one(counts, pv));
        assert(self@ =~= (ProcessorView { by_type: count_one(counts, pv), ..before }));
    }
}

impl<S> BagProcessor<S> {
    /// Counts one more message of `topic`.
    fn count_topic(&mut self, topic: &str)
        requires
            count_sum(old(self)@.by_topic) < u64::MAX,
        ensures
            final(self).type_senders() == old(self).type_senders(),
            final(self).topic_senders() == old(self).topic_senders(),
            final(self)@ == (ProcessorView {
                by_topic: count_one(old(self)@.by_topic, topic@),
                ..old(self)@
            }),
    {
        let ghost before = self@;
        let ghost counts = before.by_topic;
        let mut i: usize = 0;
        let mut found: Option<usize> = None;
        while i < self.by_topic.len()
            invariant_except_break
                found is None,
            invariant
                self@ == before,
                counts == before.by_topic,
                i <= counts.len(),
                forall|j: int| 0 <= j < i ==> counts[j].0 != topic@,
            ensures
                match found {
                    Some(k) => k < counts.len() && counts[k as int].0 == topic@ && forall|j: int|
                        0 <= j < k ==> counts[j].0 != topic@,
                    None => forall|j: int| 0 <= j < counts.len() ==> counts[j].0 != topic@,
                },
            decreases counts.len() - i,
        {
            assert(counts[i as int].0 == self.by_topic@[i as int].0@);
            if str_eq(self.by_topic[i].0.as_str(), topic) {
                found = Some(i);
                break;
            }
            i = i + 1;
        }
        match found {
            Some(k) => {
                proof {
                    crate::assoc::lemma_assoc_index_is(counts, topic@, k as int);
                    lemma_count_le_sum(counts, k as int);
                }
                let c = self.by_topic[k].1;
                self.by_topic.set(k, (String::from_str(topic), c + 1));
            },
            None => {
                proof {
                    crate::assoc::lemma_assoc_index_none(counts, topic@);
                }
                self.by_topic.push((String::from_str(topic), 1));
            },
        }
        assert(self@.by_topic =~= count_one(counts, topic@));
        assert(self@ =~= (ProcessorView { by_topic: count_one(counts, topic@), ..before }));
    }

    /// Takes in whether a delivery reached its receiver: a delivery that did not stops the
    /// pass (no later message is taken in). Tells whether the pass goes on.
    pub fn on_delivery(&mut self, delivered: bool) -> (r: bool)
        ensures
            final(self)@ == (ProcessorView { stopped: old(self)@.stopped || !delivered, ..old(self)@ }),
            r == !final(self)@.stopped,
            final(self).type_senders() == old(self).type_senders(),
            final(self).topic_senders() == old(self).topic_senders(),
            old(self)@.wf() ==> final(self)@.wf(),
    {
        if !delivered {
            self.stopped = true;
        }
        assert(self@ =~= (ProcessorView { stopped: old(self)@.stopped || !delivered, ..old(self)@ }));
        !self.stopped
    }

    /// Whether the pass stopped because a delivery failed.
    pub fn stopped(&self) -> (r: bool)
        ensures
            r == self@.stopped,
    {
        self.stopped
    }

    /// Takes in a message record of the bag: the id of its connection, its time and its data.
    /// A message of an unknown connection, or of a type without definitions, is an error.
    /// Otherwise the message is counted, by type and by topic. When a registration selects
    /// it (its type or its topic is registered), it takes the next index among the selected
    /// messages; when that index lies on the page, its data is decoded and the decoded
    /// message is to be delivered to the registrations of its type and of its topic, or the
    /// decoding error is given back. Every other message is skipped. Once the pass has
    /// stopped, every message is skipped and nothing changes.
    pub fn on_message(&mut self, conn_id: u32, time: u64, data: &[u8]) -> (r: Result<
        MessageAction,
        RosbagError,
    >)
        requires
            old(self)@.wf(),
            old(self)@.total < u64::MAX,
        ensures
            final(self).type_senders() == old(self).type_senders(),
            final(self).topic_senders() == old(self).topic_senders(),
            final(self)@.wf(),
            old(self)@.stopped ==> (r matches Ok(MessageAction::Skip)) && final(self)@ == old(self)@,
            !old(self)@.stopped ==> match assoc_get(old(self)@.connections, conn_id) {
                None => {
                    &&& r matches Err(RosbagError::MessageParsingError(m))
                    &&& m@ == unknown_connection_text(conn_id)
                    &&& final(self)@ == old(self)@
                },
                Some((topic, p)) => match assoc_get(old(self)@.definitions, p) {
                    None => {
                        &&& r matches Err(RosbagError::MissingDefinitionError(m))
                        &&& m@ == missing_definitions_text(p)
                        &&& final(self)@ == old(self)@
                    },
                    Some(defs) => {
                        let v = old(self)@;
                        let decoded = spec_message(defs, defs[0], data@, 0, defs.len()).0;
                        let on_page = selected(v, topic, p) && in_window(v.matched, v.offset, v.limit);
                        &&& final(self)@ == message_state(v, topic, p, decoded is Ok)
                        &&& !on_page ==> (r matches Ok(MessageAction::Skip))
                        &&& on_page ==> (match decoded {
                            Ok(w) => (r matches Ok(MessageAction::Deliver(log, ts, tps)) && log.time
                                == time && log.topic@ == topic && path_view(log.msg_path) == p
                                && log.data@ == w && same_index(ts, seq_index(v.types, p))
                                && same_index(tps, seq_index(v.topics, topic)) && (ts matches Some(
                                i) ==> sender_of(v.types, final(self).type_senders(), p) == Some(
                                final(self).type_senders()[i as int])) && (tps matches Some(j)
                                ==> sender_of(v.topics, final(self).topic_senders(), topic) == Some(
                                final(self).topic_senders()[j as int]))),
                            Err(f) => (r matches Ok(MessageAction::ParseFailed(e)) && error_reports(e, f)),
                        })
                    },
                },
            },
    {
        if self.stopped {
            return Ok(MessageAction::Skip);
        }
        let ghost v = self@;
        proof {
            lemma_assoc_index(v.connections, conn_id);
        }
        let ci = match self.connection_slot(conn_id) {
            Some(i) => i,
            None => {
                return Err(RosbagError::MessageParsingError(
                    concat3("Internal Error: Connection ID ", fmt_u64(conn_id as u64).as_str(), " not found for message data."),
                ));
            },
        };
        let topic = String::from_str(self.connections[ci].1.topic.as_str());
        let path = self.connections[ci].1.message_path.copy();
        let ghost pv = path_view(path);
        let ghost tv = topic@;
        assert(v.connections[ci as int] == (conn_id, (tv, pv)));
        proof {
            lemma_assoc_index(v.definitions, pv);
        }
        let di = match self.definitions_slot(&path) {
            Some(i) => i,
            None => {
                return Err(RosbagError::MissingDefinitionError(
                    concat3("Internal Error: Definitions for ", path.to_text().as_str(), " not found despite connection."),
                ));
            },
        };
        let ghost defs = v.definitions[di as int].1;
        assert(defs == self.definitions@[di as int].1@);
        let ts = self.type_slot(&path);
        let tps = self.topic_slot(topic.as_str());
        let is_selected = ts.is_some() || tps.is_some();
        let on_page = is_selected && self.offset as u64 <= self.matched && self.matched - (self.offset as u64) < self.limit as u64;
        let mut action = MessageAction::Skip;
        let mut decodes = false;
        if on_page {
            match parse_message_data(data, &self.definitions[di].1) {
                Ok(value) => {
                    decodes = true;
                    action = MessageAction::Deliver(
                        MessageLog { time, topic: String::from_str(topic.as_str()), msg_path: path.copy(), data: value },
                        ts,
                        tps,
                    );
                },
                Err(e) => {
                    action = MessageAction::ParseFailed(e);
                },
            }
        }
        proof {
            lemma_count_one(v.by_type, pv);
            lemma_count_one(v.by_topic, tv);
            lemma_window_count_step(v.matched, v.offset, v.limit);
        }
        self.count_type(&path);
        self.count_topic(topic.as_str());
        self.total = self.total + 1;
        if is_selected {
            self.matched = self.matched + 1;
            if on_page {
                if decodes {
                    self.returned = self.returned + 1;
                } else {
                    self.failed = self.failed + 1;
                }
            }
        }
        assert(self@ =~= message_state(v, tv, pv, decodes));
        Ok(action)
    }
}

/// The counts of the messages of a bag, by type and by topic, in the order in which each
/// type and topic was first seen.
#[derive(Debug)]
pub struct ProcessingStats {
    pub total_messages: u64,
    pub by_type: Vec<(MessagePath, u64)>,
    pub by_topic: Vec<(String, u64)>,
}

/// The lines that list counts by type.
pub open spec fn type_count_lines(s: Seq<(PathView, nat)>) -> Seq<char>
    decreases s.len(),
{
    if s.len() == 0 {
        Seq::empty()
    } else {
        type_count_lines(s.drop_last()) + "  "@ + path_text(s.last().0) + ": "@ + decimal(s.last().1)
            + "\n"@
    }
}

/// The lines that list counts by topic.
pub open spec fn topic_count_lines(s: Seq<(Seq<char>, nat)>) -> Seq<char>
    decreases s.len(),
{
    if s.len() == 0 {
        Seq::empty()
    } else {
        topic_count_lines(s.drop_last()) + "  "@ + s.last().0 + ": "@ + decimal(s.last().1) + "\n"@
    }
}

/// The summary of a processed bag.
pub open spec fn summary_text(
    total: nat,
    by_type: Seq<(PathView, nat)>,
    by_topic: Seq<(Seq<char>, nat)>,
) -> Seq<char> {
    "Processing completed!\nTotal messages: "@ + decimal(total) + "\nMessage counts by type:\n"@
        + type_count_lines(by_type) + "Message counts by topic:\n"@ + topic_count_lines(by_topic)
}

/// The line that shows a page.
pub open spec fn pagination_text(offset: nat, limit: nat, returned: nat, total: nat) -> Seq<char> {
    "Pagination: Offset: "@ + decimal(offset) + " | Limit: "@ + decimal(limit) + " | Returned: "@
        + decimal(returned) + " | Total: "@ + decimal(total)
}

impl ProcessingStats {
    /// The counts by type, as a sequence of type names and counts.
    pub closed spec fn type_counts(&self) -> Seq<(PathView, nat)> {
        Seq::new(
            self.by_type@.len(),
            |i: int| (path_view(self.by_type@[i].0), self.by_type@[i].1 as nat),
        )
    }

    /// The counts by topic, as a sequence of topics and counts.
    pub closed spec fn topic_counts(&self) -> Seq<(Seq<char>, nat)> {
        Seq::new(self.by_topic@.len(), |i: int| (self.by_topic@[i].0@, self.by_topic@[i].1 as nat))
    }

    /// The summary: the total, then one line per type and one per topic with its count.
    pub fn format_summary(&self) -> (r: String)
        ensures
            r@ == summary_text(self.total_messages as nat, self.type_counts(), self.topic_counts()),
    {
        let mut out = concat3("Processing completed!\nTotal messages: ", fmt_u64(self.total_messages).as_str(), "\nMessage counts by type:\n");
        let ghost head = out@;
        let mut i: usize = 0;
        while i < self.by_type.len()
            invariant
                i <= self.by_type@.len(),
                out@ == head + type_count_lines(self.type_counts().take(i as int)),
            decreases self.by_type@.len() - i,
        {
            let ghost before = out@;
            out.append("  ");
            out.append(self.by_type[i].0.to_text().as_str());
            out.append(": ");
            out.append(fmt_u64(self.by_type[i].1).as_str());
            out.append("\n");
            assert(self.type_counts().take(i + 1).drop_last() =~= self.type_counts().take(i as int));
            assert(out@ =~= head + type_count_lines(self.type_counts().take(i + 1)));
            i = i + 1;
        }
        assert(self.type_counts().take(i as int) =~= self.type_counts());
        out.append("Message counts by topic:\n");
        let ghost mid = out@;
        let mut j: usize = 0;
        while j < self.by_topic.len()
            invariant
                j <= self.by_topic@.len(),
                out@ == mid + topic_count_lines(self.topic_counts().take(j as int)),
            decreases self.by_topic@.len() - j,
        {
            out.append("  ");
            out.append(self.by_topic[j].0.as_str());
            out.append(": ");
            out.append(fmt_u64(self.by_topic[j].1).as_str());
            out.append("\n");
            assert(self.topic_counts().take(j + 1).drop_last() =~= self.topic_counts().take(j as int));
            assert(out@ =~= mid + topic_count_lines(self.topic_counts().take(j + 1)));
            j = j + 1;
        }
        assert(self.topic_counts().take(j as int) =~= self.topic_counts());
        out
    }
}

impl<S> BagProcessor<S> {
    /// The counts of the messages taken in since the pass began.
    pub fn stats(&self) -> (r: ProcessingStats)
        ensures
            r.total_messages == self@.total,
            r.type_counts() == self@.by_type,
            r.topic_counts() == self@.by_topic,
    {
        let mut by_type: Vec<(MessagePath, u64)> = Vec::new();
        let mut i: usize = 0;
        while i < self.by_type.len()
            invariant
                i <= self.by_type@.len(),
                by_type@.len() == i,
                forall|k: int|
                    0 <= k < i ==> path_view(#[trigger] by_type@[k].0) == path_view(self.by_type@[k].0)
                        && by_type@[k].1 == self.by_type@[k].1,
            decreases self.by_type@.len() - i,
        {
            by_type.push((self.by_type[i].0.copy(), self.by_type[i].1));
            i = i + 1;
        }
        let mut by_topic: Vec<(String, u64)> = Vec::new();
        let mut j: usize = 0;
        while j < self.by_topic.len()
            invariant
                j <= self.by_topic@.len(),
                by_topic@.len() == j,
                forall|k: int|
                    0 <= k < j ==> (#[trigger] by_topic@[k]).0@ == self.by_topic@[k].0@
                        && by_topic@[k].1 == self.by_topic@[k].1,
            decreases self.by_topic@.len() - j,
        {
            by_topic.push((String::from_str(self.by_topic[j].0.as_str()), self.by_topic[j].1));
            j = j + 1;
        }
        let r = ProcessingStats { total_messages: self.total, by_type, by_topic };
        assert(r.type_counts() =~= self@.by_type);
        assert(r.topic_counts() =~= self@.by_topic);
        r
    }
}

impl ConnectionInfo {
    /// The line that names the connection's topic and type: `topic: package/name`.
    pub fn format_basic(&self) -> (r: String)
        ensures
            r@ == self.topic@ + ": "@ + path_text(path_view(self.message_type)),
    {
        concat3(self.topic.as_str(), ": ", self.message_type.to_text().as_str())
    }

    /// The tree of the connection's definitions.
    pub fn format_definition(&self) -> (r: String)
        ensures
            r@ == self.definition_text@,
    {
        String::from_str(self.definition_text.as_str())
    }
}

impl PaginationInfo {
    /// The line that shows the page: offset, limit, number returned and number in all.
    pub fn format_line(&self) -> (r: String)
        ensures
            r@ == pagination_text(
                self.offset as nat,
                self.limit as nat,
                self.returned_count as nat,
                self.total as nat,
            ),
    {
        let mut out = concat3("Pagination: Offset: ", fmt_u64(self.offset as u64).as_str(), " | Limit: ");
        out.append(fmt_u64(self.limit as u64).as_str());
        out.append(" | Returned: ");
        out.append(fmt_u64(self.returned_count).as_str());
        out.append(" | Total: ");
        out.append(fmt_u64(self.total).as_str());
        out
    }
}

/// The state after taking in messages one after another, each given by its topic, its type
/// and whether its data decodes.
pub open spec fn after_messages(v: ProcessorView, msgs: Seq<(Seq<char>, PathView, bool)>) -> ProcessorView
    decreases msgs.len(),
{
    if msgs.len() == 0 {
        v
    } else {
        let m = msgs.last();
        message_state(after_messages(v, msgs.drop_last()), m.0, m.1, m.2)
    }
}

/// How many of the messages the registrations of `v` select.
pub open spec fn selected_count(v: ProcessorView, msgs: Seq<(Seq<char>, PathView, bool)>) -> nat
    decreases msgs.len(),
{
    if msgs.len() == 0 {
        0
    } else {
        selected_count(v, msgs.drop_last()) + if selected(v, msgs.last().0, msgs.last().1) {
            1nat
        } else {
            0nat
        }
    }
}

/// Over a pass, every message is counted once, the registrations and the page stay as they
/// are, and the selected messages are exactly those that the registrations select: the total
/// of the page is their number.
pub proof fn lemma_pass_counts(v: ProcessorView, msgs: Seq<(Seq<char>, PathView, bool)>)
    ensures
        after_messages(v, msgs).total == v.total + msgs.len(),
        after_messages(v, msgs).matched == v.matched + selected_count(v, msgs),
        after_messages(v, msgs).types == v.types,
        after_messages(v, msgs).topics == v.topics,
        after_messages(v, msgs).offset == v.offset,
        after_messages(v, msgs).limit == v.limit,
        after_messages(v, msgs).connections == v.connections,
        after_messages(v, msgs).definitions == v.definitions,
    decreases msgs.len(),
{
    if msgs.len() > 0 {
        lemma_pass_counts(v, msgs.drop_last());
    }
}

/// Two pages, the second starting where the first ends, hold exactly the selected messages of
/// one page as long as both together, and no message lies on both.
pub proof fn lemma_pages_adjacent(i: nat, offset: nat, limit: nat, next_limit: nat)
    ensures
        (in_window(i, offset, limit) || in_window(i, offset + limit, next_limit)) <==> in_window(
            i,
            offset,
            limit + next_limit,
        ),
        !(in_window(i, offset, limit) && in_window(i, offset + limit, next_limit)),
{
}

/// What a pass reports of its page: at most `limit` messages are returned; when none on the
/// page failed to decode, all selected messages on the page are returned, and more selected
/// messages lie beyond the page exactly when `offset + returned < total`.
pub proof fn lemma_page_report(v: ProcessorView)
    requires
        v.wf(),
    ensures
        v.returned + v.failed <= v.limit,
        v.failed == 0 ==> v.returned == window_count(v.matched, v.offset, v.limit),
        v.failed == 0 ==> (v.offset + v.returned < v.matched <==> v.matched > v.offset + v.limit),
{
}

/// The counts by type and the counts by topic each add up to the number of messages.
pub proof fn lemma_counts_add_up(v: ProcessorView)
    requires
        v.wf(),
    ensures
        count_sum(v.by_type) == v.total,
        count_sum(v.by_topic) == v.total,
{
}

impl MessageLog {
    /// A copy of the message, for delivery to a second registration.
    pub fn copy(&self) -> (r: MessageLog)
        ensures
            r.time == self.time,
            r.topic@ == self.topic@,
            path_view(r.msg_path) == path_view(self.msg_path),
            r.data@ == self.data@,
    {
        MessageLog {
            time: self.time,
            topic: String::from_str(self.topic.as_str()),
            msg_path: self.msg_path.copy(),
            data: self.data.copy(),
        }
    }
}

} // verus!
