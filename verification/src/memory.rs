//! Agent memory: the session key/value store, the bounded conversation
//! history, and the tool-result cache, together with the deterministic
//! context rendering the model prompt is built from.

use vstd::prelude::*;
use vstd::string::StringExecFns;

use crate::text::str_eq;

verus! {

broadcast use vstd::seq::group_seq_axioms, vstd::std_specs::vec::group_vec_axioms;

/// Relies on `std::time::SystemTime::now` and `duration_since`: whole
/// seconds since the Unix epoch, or zero before it.  Nothing is assumed of
/// the clock's value.
#[verifier::external_body]
fn now_unix_seconds() -> u64 {
    std::time::SystemTime::now().duration_since(std::time::UNIX_EPOCH).unwrap_or_default()
        .as_secs()
}

/// An association list of string keys and values with unique keys: the
/// deterministic stand-in for a hash map, keeping insertion order.
#[derive(Clone, Debug)]
pub struct StrMap {
    entries: Vec<(String, String)>,
}

pub open spec fn kv_views(es: Seq<(String, String)>) -> Seq<(Seq<char>, Seq<char>)> {
    es.map_values(|p: (String, String)| (p.0@, p.1@))
}

impl View for StrMap {
    type V = Seq<(Seq<char>, Seq<char>)>;

    closed spec fn view(&self) -> Seq<(Seq<char>, Seq<char>)> {
        kv_views(self.entries@)
    }
}

/// Index of the first entry with the given key, or -1.
pub open spec fn key_index(m: Seq<(Seq<char>, Seq<char>)>, k: Seq<char>) -> int
    decreases m.len(),
{
    if m.len() == 0 {
        -1
    } else if m[0].0 == k {
        0
    } else {
        let r = key_index(m.drop_first(), k);
        if r < 0 {
            -1
        } else {
            r + 1
        }
    }
}

pub open spec fn has_key(m: Seq<(Seq<char>, Seq<char>)>, k: Seq<char>) -> bool {
    key_index(m, k) >= 0
}

/// The value stored under a key.
pub open spec fn map_get(m: Seq<(Seq<char>, Seq<char>)>, k: Seq<char>) -> Option<Seq<char>> {
    if has_key(m, k) {
        Some(m[key_index(m, k)].1)
    } else {
        None
    }
}

pub proof fn lemma_key_index(m: Seq<(Seq<char>, Seq<char>)>, k: Seq<char>)
    ensures
        -1 <= key_index(m, k) < m.len(),
        key_index(m, k) >= 0 ==> m[key_index(m, k)].0 == k,
        forall|j: int| 0 <= j < m.len() && j < key_index(m, k) ==> (#[trigger] m[j]).0 != k,
        key_index(m, k) < 0 ==> forall|j: int| 0 <= j < m.len() ==> (#[trigger] m[j]).0 != k,
    decreases m.len(),
{
    if m.len() > 0 && m[0].0 != k {
        lemma_key_index(m.drop_first(), k);
        assert(forall|j: int| 1 <= j < m.len() ==> m.drop_first()[j - 1] == #[trigger] m[j]);
    }
}

impl StrMap {
    pub fn new() -> (r: StrMap)
        ensures
            r@ =~= Seq::<(Seq<char>, Seq<char>)>::empty(),
    {
        StrMap { entries: Vec::new() }
    }

    pub fn len(&self) -> (r: usize)
        ensures
            r == self@.len(),
    {
        self.entries.len()
    }

    /// Read access to the entries, in insertion order.
    pub fn entry_at(&self, i: usize) -> (r: (&String, &String))
        requires
            i < self@.len(),
        ensures
            r.0@ == self@[i as int].0,
            r.1@ == self@[i as int].1,
    {
        let p = &self.entries[i];
        (&p.0, &p.1)
    }

    /// Stores or overwrites; an existing key keeps its position, a new key
    /// is appended.
    pub fn insert(&mut self, k: &str, v: &str)
        ensures
            final(self)@ == if has_key(old(self)@, k@) {
                old(self)@.update(key_index(old(self)@, k@), (k@, v@))
            } else {
                old(self)@.push((k@, v@))
            },
    {
        proof {
            lemma_key_index(old(self)@, k@);
        }
        let n = self.entries.len();
        let mut i: usize = 0;
        while i < n
            invariant
                n == self.entries@.len(),
                i <= n,
                *self == *old(self),
                forall|j: int| 0 <= j < i ==> (#[trigger] self@[j]).0 != k@,
            decreases n - i,
        {
            if str_eq(self.entries[i].0.as_str(), k) {
                proof {
                    assert(self@[i as int].0 == k@);
                    lemma_key_index(self@, k@);
                    assert(key_index(self@, k@) == i);
                }
                self.entries[i] = (String::from_str(k), String::from_str(v));
                proof {
                    assert(self@ =~= old(self)@.update(key_index(old(self)@, k@), (k@, v@)));
                }
                return ;
            }
            i += 1;
        }
        proof {
            assert(!has_key(self@, k@));
        }
        self.entries.push((String::from_str(k), String::from_str(v)));
        proof {
            assert(self@ =~= old(self)@.push((k@, v@)));
        }
    }

    pub fn get(&self, k: &str) -> (r: Option<&str>)
        ensures
            match r {
                Some(v) => map_get(self@, k@) == Some(v@),
                None => map_get(self@, k@) is None,
            },
    {
        proof {
            lemma_key_index(self@, k@);
        }
        let n = self.entries.len();
        let mut i: usize = 0;
        while i < n
            invariant
                n == self.entries@.len(),
                i <= n,
                forall|j: int| 0 <= j < i ==> (#[trigger] self@[j]).0 != k@,
            decreases n - i,
        {
            if str_eq(self.entries[i].0.as_str(), k) {
                proof {
                    assert(self@[i as int].0 == k@);
                    lemma_key_index(self@, k@);
                    assert(key_index(self@, k@) == i);
                }
                return Some(self.entries[i].1.as_str());
            }
            i += 1;
        }
        None
    }

    /// Removes an entry, returning its value.
    pub fn take_out(&mut self, k: &str) -> (r: Option<String>)
        ensures
            match r {
                Some(v) => map_get(old(self)@, k@) == Some(v@) && final(self)@ == old(self)@.remove(key_index(old(self)@, k@)),
                None => map_get(old(self)@, k@) is None && final(self)@ == old(self)@,
            },
    {
        proof {
            lemma_key_index(old(self)@, k@);
        }
        let n = self.entries.len();
        let mut i: usize = 0;
        while i < n
            invariant
                n == self.entries@.len(),
                i <= n,
                *self == *old(self),
                forall|j: int| 0 <= j < i ==> (#[trigger] self@[j]).0 != k@,
            decreases n - i,
        {
            if str_eq(self.entries[i].0.as_str(), k) {
                proof {
                    assert(self@[i as int].0 == k@);
                    lemma_key_index(self@, k@);
                    assert(key_index(self@, k@) == i);
                }
                let p = self.entries.remove(i);
                proof {
                    assert(self@ =~= old(self)@.remove(key_index(old(self)@, k@)));
                }
                return Some(p.1);
            }
            i += 1;
        }
        None
    }

    pub fn clear(&mut self)
        ensures
            final(self)@ =~= Seq::<(Seq<char>, Seq<char>)>::empty(),
    {
        self.entries = Vec::new();
    }

    /// Wraps a list of entries as a map, keeping their order.
    pub fn from_entries(entries: Vec<(String, String)>) -> (r: StrMap)
        ensures
            r@ == kv_views(entries@),
    {
        StrMap { entries }
    }
}

/// One turn of the conversation.
#[derive(Clone, Debug)]
pub struct Message {
    pub role: String,
    pub content: String,
    pub timestamp: u64,
    pub metadata: StrMap,
}

pub struct SpecMessage {
    pub role: Seq<char>,
    pub content: Seq<char>,
    pub timestamp: u64,
    pub metadata: Seq<(Seq<char>, Seq<char>)>,
}

impl View for Message {
    type V = SpecMessage;

    open spec fn view(&self) -> SpecMessage {
        SpecMessage {
            role: self.role@,
            content: self.content@,
            timestamp: self.timestamp,
            metadata: self.metadata@,
        }
    }
}

pub open spec fn msg_views(s: Seq<Message>) -> Seq<SpecMessage> {
    s.map_values(|m: Message| m@)
}

impl Message {
    /// A message stamped with the current wall-clock time.
    pub fn new(role: &str, content: &str) -> (r: Message)
        ensures
            r@.role == role@,
            r@.content == content@,
            r@.metadata =~= Seq::<(Seq<char>, Seq<char>)>::empty(),
    {
        Message {
            role: String::from_str(role),
            content: String::from_str(content),
            timestamp: now_unix_seconds(),
            metadata: StrMap::new(),
        }
    }

    pub fn with_metadata(self, key: &str, value: &str) -> (r: Message)
        ensures
            r@.role == self@.role,
            r@.content == self@.content,
            r@.timestamp == self@.timestamp,
            r@.metadata == if has_key(self@.metadata, key@) {
                self@.metadata.update(key_index(self@.metadata, key@), (key@, value@))
            } else {
                self@.metadata.push((key@, value@))
            },
    {
        let mut m = self;
        m.metadata.insert(key, value);
        m
    }
}

/// The whole memory state: session map, history and tool cache.
pub struct SpecMemory {
    pub session: Seq<(Seq<char>, Seq<char>)>,
    pub history: Seq<SpecMessage>,
    pub cache: Seq<(Seq<char>, Seq<char>)>,
}

/// Session store, bounded conversation history and tool-result cache.
#[derive(Debug)]
pub struct AgentMemory {
    pub session_data: StrMap,
    pub conversation_history: Vec<Message>,
    pub tool_results_cache: StrMap,
    pub max_history_size: usize,
}

impl AgentMemory {
    /// The mathematical state: the three stores, without the bound.
    pub open spec fn snap(&self) -> SpecMemory {
        SpecMemory {
            session: self.session_data@,
            history: msg_views(self.conversation_history@),
            cache: self.tool_results_cache@,
        }
    }

    pub fn new() -> (r: AgentMemory)
        ensures
            r.snap().session =~= Seq::<(Seq<char>, Seq<char>)>::empty(),
            r.snap().history =~= Seq::<SpecMessage>::empty(),
            r.snap().cache =~= Seq::<(Seq<char>, Seq<char>)>::empty(),
            r.max_history_size == 50,
    {
        AgentMemory {
            session_data: StrMap::new(),
            conversation_history: Vec::new(),
            tool_results_cache: StrMap::new(),
            max_history_size: 50,
        }
    }

    pub fn store(&mut self, key: &str, value: &str)
        ensures
            final(self).snap().session == if has_key(old(self).snap().session, key@) {
                old(self).snap().session.update(
                    key_index(old(self).snap().session, key@),
                    (key@, value@),
                )
            } else {
                old(self).snap().session.push((key@, value@))
            },
            final(self).snap().history == old(self).snap().history,
            final(self).snap().cache == old(self).snap().cache,
            final(self).max_history_size == old(self).max_history_size,
    {
        self.session_data.insert(key, value);
    }

    pub fn retrieve(&self, key: &str) -> (r: Option<&str>)
        ensures
            match r {
                Some(v) => map_get(self.snap().session, key@) == Some(v@),
                None => map_get(self.snap().session, key@) is None,
            },
    {
        self.session_data.get(key)
    }

    pub fn remove(&mut self, key: &str) -> (r: Option<String>)
        ensures
            match r {
                Some(v) => map_get(old(self).snap().session, key@) == Some(v@) && final(self).snap().session == old(self).snap().session.remove(
                    key_index(old(self).snap().session, key@),
                ),
                None => map_get(old(self).snap().session, key@) is None && final(self).snap().session == old(self).snap().session,
            },
            final(self).snap().history == old(self).snap().history,
            final(self).snap().cache == old(self).snap().cache,
    {
        self.session_data.take_out(key)
    }

    pub fn clear_session(&mut self)
        ensures
            final(self).snap().session =~= Seq::<(Seq<char>, Seq<char>)>::empty(),
            final(self).snap().history == old(self).snap().history,
            final(self).snap().cache == old(self).snap().cache,
            final(self).max_history_size == old(self).max_history_size,
    {
        self.session_data.clear();
    }

    /// Appends a message; when the history would exceed its bound, the
    /// oldest message is evicted, first in, first out.
    pub fn add_to_history(&mut self, message: Message)
        ensures
            final(self).snap().history == if old(self).snap().history.len() + 1 > old(self).max_history_size {
                old(self).snap().history.push(message@).drop_first()
            } else {
                old(self).snap().history.push(message@)
            },
            final(self).snap().session == old(self).snap().session,
            final(self).snap().cache == old(self).snap().cache,
            final(self).max_history_size == old(self).max_history_size,
    {
        self.conversation_history.push(message);
        proof {
            assert(msg_views(self.conversation_history@) =~= msg_views(
                old(self).conversation_history@,
            ).push(message@));
        }
        if self.conversation_history.len() > self.max_history_size {
            let ghost pre = self.conversation_history@;
            self.conversation_history.remove(0);
            proof {
                assert(msg_views(self.conversation_history@) =~= msg_views(pre).drop_first());
            }
        }
    }

    pub fn get_history(&self) -> (r: &Vec<Message>)
        ensures
            msg_views(r@) == self.snap().history,
    {
        &self.conversation_history
    }

    /// The last `count` messages, or all of them if there are fewer.
    pub fn get_recent_history(&self, count: usize) -> (r: &[Message])
        ensures
            msg_views(r@) == spec_recent(self.snap().history, count as nat),
    {
        let len = self.conversation_history.len();
        let start = if len > count {
            len - count
        } else {
            0
        };
        let r = &self.conversation_history.as_slice()[start..len];
        proof {
            assert(msg_views(r@) =~= spec_recent(self.snap().history, count as nat));
        }
        r
    }

    pub fn clear_history(&mut self)
        ensures
            final(self).snap().history =~= Seq::<SpecMessage>::empty(),
            final(self).snap().session == old(self).snap().session,
            final(self).snap().cache == old(self).snap().cache,
            final(self).max_history_size == old(self).max_history_size,
    {
        self.conversation_history = Vec::new();
        proof {
            assert(msg_views(Seq::<Message>::empty()) =~= Seq::<SpecMessage>::empty());
        }
    }

    pub fn cache_tool_result(&mut self, tool_call_hash: &str, result: &str)
        ensures
            final(self).snap().cache == if has_key(old(self).snap().cache, tool_call_hash@) {
                old(self).snap().cache.update(
                    key_index(old(self).snap().cache, tool_call_hash@),
                    (tool_call_hash@, result@),
                )
            } else {
                old(self).snap().cache.push((tool_call_hash@, result@))
            },
            final(self).snap().session == old(self).snap().session,
            final(self).snap().history == old(self).snap().history,
            final(self).max_history_size == old(self).max_history_size,
    {
        self.tool_results_cache.insert(tool_call_hash, result);
    }

    pub fn get_cached_tool_result(&self, tool_call_hash: &str) -> (r: Option<&str>)
        ensures
            match r {
                Some(v) => map_get(self.snap().cache, tool_call_hash@) == Some(v@),
                None => map_get(self.snap().cache, tool_call_hash@) is None,
            },
    {
        self.tool_results_cache.get(tool_call_hash)
    }

    pub fn clear_tool_cache(&mut self)
        ensures
            final(self).snap().cache =~= Seq::<(Seq<char>, Seq<char>)>::empty(),
            final(self).snap().session == old(self).snap().session,
            final(self).snap().history == old(self).snap().history,
            final(self).max_history_size == old(self).max_history_size,
    {
        self.tool_results_cache.clear();
    }
}

/// The last `count` entries of a history.
pub open spec fn spec_recent(h: Seq<SpecMessage>, count: nat) -> Seq<SpecMessage> {
    h.skip(
        if h.len() > count {
            h.len() - count
        } else {
            0
        },
    )
}

/// One appended message, with first-in-first-out eviction at the bound.
pub open spec fn push_bounded(h: Seq<SpecMessage>, m: SpecMessage, cap: nat) -> Seq<SpecMessage> {
    if h.len() + 1 > cap {
        h.push(m).drop_first()
    } else {
        h.push(m)
    }
}

/// The history that results from appending each message in turn.
pub open spec fn feed_history(h: Seq<SpecMessage>, msgs: Seq<SpecMessage>, cap: nat) -> Seq<
    SpecMessage,
>
    decreases msgs.len(),
{
    if msgs.len() == 0 {
        h
    } else {
        feed_history(push_bounded(h, msgs[0], cap), msgs.drop_first(), cap)
    }
}

/// The history never exceeds its bound: after any run of insertions into a
/// history within its capacity `cap >= 1`, exactly the newest messages
/// remain, in order — the older ones, first in, are the ones evicted.
pub proof fn lemma_history_bound(h: Seq<SpecMessage>, msgs: Seq<SpecMessage>, cap: nat)
    requires
        cap >= 1,
        h.len() <= cap,
    ensures
        feed_history(h, msgs, cap) =~= (h + msgs).skip(
            if h.len() + msgs.len() > cap {
                h.len() + msgs.len() - cap
            } else {
                0
            },
        ),
        feed_history(h, msgs, cap).len() == if h.len() + msgs.len() > cap {
            cap as int
        } else {
            (h.len() + msgs.len()) as int
        },
    decreases msgs.len(),
{
    if msgs.len() == 0 {
        assert((h + msgs).skip(0) =~= h);
    } else {
        let m0 = msgs[0];
        let h2 = push_bounded(h, m0, cap);
        assert(h2.len() <= cap);
        lemma_history_bound(h2, msgs.drop_first(), cap);
        if h.len() + 1 > cap {
            assert(h2 =~= (h + msgs.take(1)).skip(h.len() + 1 - cap));
            assert((h2 + msgs.drop_first()) =~= (h + msgs).skip(h.len() + 1 - cap));
        } else {
            assert((h2 + msgs.drop_first()) =~= (h + msgs));
        }
    }
}

/// After `n` insertions into a history bounded at `cap < n`, starting
/// empty, the bound holds exactly: `cap` messages remain and the earliest
/// retained one is the `(n - cap)`-th inserted.
pub proof fn lemma_history_bound_from_empty(msgs: Seq<SpecMessage>, cap: nat)
    requires
        1 <= cap < msgs.len(),
    ensures
        feed_history(Seq::<SpecMessage>::empty(), msgs, cap).len() == cap,
        feed_history(Seq::<SpecMessage>::empty(), msgs, cap) =~= msgs.skip(msgs.len() - cap),
        feed_history(Seq::<SpecMessage>::empty(), msgs, cap)[0] == msgs[msgs.len() - cap],
{
    lemma_history_bound(Seq::<SpecMessage>::empty(), msgs, cap);
    assert((Seq::<SpecMessage>::empty() + msgs) =~= msgs);
    assert(msgs.skip(msgs.len() - cap).len() == cap);
}

pub open spec fn spec_entry_line(e: (Seq<char>, Seq<char>)) -> Seq<char> {
    "- "@ + e.0 + ": "@ + e.1 + "\n"@
}

pub open spec fn spec_entry_lines(es: Seq<(Seq<char>, Seq<char>)>) -> Seq<char>
    decreases es.len(),
{
    if es.len() == 0 {
        Seq::<char>::empty()
    } else {
        spec_entry_line(es[0]) + spec_entry_lines(es.drop_first())
    }
}

pub open spec fn spec_msg_line(m: SpecMessage) -> Seq<char> {
    m.role + ": "@ + m.content + "\n"@
}

pub open spec fn spec_msg_lines(ms: Seq<SpecMessage>) -> Seq<char>
    decreases ms.len(),
{
    if ms.len() == 0 {
        Seq::<char>::empty()
    } else {
        spec_msg_line(ms[0]) + spec_msg_lines(ms.drop_first())
    }
}

/// The exact text of the context prompt: the session entries under their
/// header, then the most recent messages under theirs; an empty section is
/// left out entirely.
pub open spec fn spec_context_prompt(m: SpecMemory, count: nat) -> Seq<char> {
    (if m.session.len() > 0 {
        "Session Context:\n"@ + spec_entry_lines(m.session) + "\n"@
    } else {
        Seq::<char>::empty()
    }) + (if m.history.len() > 0 && count > 0 {
        "Recent Conversation:\n"@ + spec_msg_lines(spec_recent(m.history, count)) + "\n"@
    } else {
        Seq::<char>::empty()
    })
}

proof fn lemma_entry_lines_snoc(es: Seq<(Seq<char>, Seq<char>)>, i: int)
    requires
        0 <= i < es.len(),
    ensures
        spec_entry_lines(es.subrange(0, i + 1)) == spec_entry_lines(es.subrange(0, i))
            + spec_entry_line(es[i]),
    decreases i,
{
    if i == 0 {
        let one = es.subrange(0, 1);
        assert(one.drop_first().len() == 0);
        assert(one[0] == es[0]);
        assert(spec_entry_lines(one.drop_first()) == Seq::<char>::empty());
        assert(spec_entry_lines(es.subrange(0, 0)) == Seq::<char>::empty());
        assert(spec_entry_lines(one) =~= spec_entry_lines(es.subrange(0, 0)) + spec_entry_line(
            es[0],
        ));
    } else {
        let a = es.subrange(0, i + 1);
        let b = es.subrange(0, i);
        let tail = es.subrange(1, es.len() as int);
        assert(a.drop_first() =~= tail.subrange(0, i));
        assert(b.drop_first() =~= tail.subrange(0, i - 1));
        lemma_entry_lines_snoc(tail, i - 1);
        assert(tail[i - 1] == es[i]);
        assert(a[0] == es[0] && b[0] == es[0]);
        assert(spec_entry_line(es[0]) + (spec_entry_lines(tail.subrange(0, i - 1))
            + spec_entry_line(es[i])) =~= (spec_entry_line(es[0]) + spec_entry_lines(
            tail.subrange(0, i - 1),
        )) + spec_entry_line(es[i]));
    }
}

proof fn lemma_msg_lines_snoc(ms: Seq<SpecMessage>, i: int)
    requires
        0 <= i < ms.len(),
    ensures
        spec_msg_lines(ms.subrange(0, i + 1)) == spec_msg_lines(ms.subrange(0, i)) + spec_msg_line(
            ms[i],
        ),
    decreases i,
{
    if i == 0 {
        let one = ms.subrange(0, 1);
        assert(one.drop_first().len() == 0);
        assert(one[0] == ms[0]);
        assert(spec_msg_lines(one.drop_first()) == Seq::<char>::empty());
        assert(spec_msg_lines(ms.subrange(0, 0)) == Seq::<char>::empty());
        assert(spec_msg_lines(one) =~= spec_msg_lines(ms.subrange(0, 0)) + spec_msg_line(ms[0]));
    } else {
        let a = ms.subrange(0, i + 1);
        let b = ms.subrange(0, i);
        let tail = ms.subrange(1, ms.len() as int);
        assert(a.drop_first() =~= tail.subrange(0, i));
        assert(b.drop_first() =~= tail.subrange(0, i - 1));
        lemma_msg_lines_snoc(tail, i - 1);
        assert(tail[i - 1] == ms[i]);
        assert(a[0] == ms[0] && b[0] == ms[0]);
        assert(spec_msg_line(ms[0]) + (spec_msg_lines(tail.subrange(0, i - 1)) + spec_msg_line(
            ms[i],
        )) =~= (spec_msg_line(ms[0]) + spec_msg_lines(tail.subrange(0, i - 1))) + spec_msg_line(
            ms[i],
        ));
    }
}

/// Character count of the keys and values of a map.
pub open spec fn kv_chars(es: Seq<(Seq<char>, Seq<char>)>) -> nat
    decreases es.len(),
{
    if es.len() == 0 {
        0
    } else {
        es[0].0.len() + es[0].1.len() + kv_chars(es.drop_first())
    }
}

/// Character count of one message: content, role and metadata.
pub open spec fn msg_chars(m: SpecMessage) -> nat {
    m.content.len() + m.role.len() + kv_chars(m.metadata)
}

pub open spec fn msgs_chars(ms: Seq<SpecMessage>) -> nat
    decreases ms.len(),
{
    if ms.len() == 0 {
        0
    } else {
        msg_chars(ms[0]) + msgs_chars(ms.drop_first())
    }
}

/// The estimated footprint: every stored character counted once.
pub open spec fn spec_memory_usage(m: SpecMemory) -> nat {
    kv_chars(m.session) + msgs_chars(m.history) + kv_chars(m.cache)
}

/// Counts saturate at the largest machine value.
pub open spec fn sat_usize(n: nat) -> usize {
    if n > usize::MAX {
        usize::MAX
    } else {
        n as usize
    }
}

/// Counts of the memory's contents.
#[derive(Debug)]
pub struct MemoryStats {
    pub session_entries: usize,
    pub history_messages: usize,
    pub cached_tool_results: usize,
    pub memory_usage_estimate: usize,
}

proof fn lemma_kv_chars_snoc(es: Seq<(Seq<char>, Seq<char>)>, i: int)
    requires
        0 <= i < es.len(),
    ensures
        kv_chars(es.subrange(0, i + 1)) == kv_chars(es.subrange(0, i)) + es[i].0.len()
            + es[i].1.len(),
    decreases i,
{
    if i == 0 {
        let one = es.subrange(0, 1);
        assert(one.drop_first().len() == 0);
        assert(one[0] == es[0]);
        assert(kv_chars(one.drop_first()) == 0);
        assert(kv_chars(es.subrange(0, 0)) == 0);
    } else {
        let a = es.subrange(0, i + 1);
        let b = es.subrange(0, i);
        let tail = es.subrange(1, es.len() as int);
        assert(a.drop_first() =~= tail.subrange(0, i));
        assert(b.drop_first() =~= tail.subrange(0, i - 1));
        lemma_kv_chars_snoc(tail, i - 1);
        assert(tail[i - 1] == es[i]);
        assert(a[0] == es[0] && b[0] == es[0]);
    }
}

proof fn lemma_msgs_chars_snoc(ms: Seq<SpecMessage>, i: int)
    requires
        0 <= i < ms.len(),
    ensures
        msgs_chars(ms.subrange(0, i + 1)) == msgs_chars(ms.subrange(0, i)) + msg_chars(ms[i]),
    decreases i,
{
    if i == 0 {
        let one = ms.subrange(0, 1);
        assert(one.drop_first().len() == 0);
        assert(one[0] == ms[0]);
        assert(msgs_chars(one.drop_first()) == 0);
        assert(msgs_chars(ms.subrange(0, 0)) == 0);
    } else {
        let a = ms.subrange(0, i + 1);
        let b = ms.subrange(0, i);
        let tail = ms.subrange(1, ms.len() as int);
        assert(a.drop_first() =~= tail.subrange(0, i));
        assert(b.drop_first() =~= tail.subrange(0, i - 1));
        lemma_msgs_chars_snoc(tail, i - 1);
        assert(tail[i - 1] == ms[i]);
        assert(a[0] == ms[0] && b[0] == ms[0]);
    }
}

impl AgentMemory {
    /// Renders the model-facing context: session entries, then the most
    /// recent messages.
    pub fn build_context_prompt(&self, include_history_count: usize) -> (r: String)
        ensures
            r@ == spec_context_prompt(self.snap(), include_history_count as nat),
    {
        let mut out = String::new();
        if self.session_data.len() > 0 {
            out.append("Session Context:\n");
            let n = self.session_data.len();
            let ghost ses = self.snap().session;
            let mut i: usize = 0;
            while i < n
                invariant
                    n == ses.len(),
                    ses == self.snap().session,
                    i <= n,
                    out@ == "Session Context:\n"@ + spec_entry_lines(ses.subrange(0, i as int)),
                decreases n - i,
            {
                let (k, v) = self.session_data.entry_at(i);
                out.append("- ");
                out.append(k.as_str());
                out.append(": ");
                out.append(v.as_str());
                out.append("\n");
                proof {
                    lemma_entry_lines_snoc(ses, i as int);
                    assert(out@ =~= "Session Context:\n"@ + spec_entry_lines(
                        ses.subrange(0, i + 1 as int),
                    ));
                }
                i += 1;
            }
            out.append("\n");
            proof {
                assert(ses.subrange(0, ses.len() as int) =~= ses);
            }
        }
        if self.conversation_history.len() > 0 && include_history_count > 0 {
            let ghost first_part = out@;
            out.append("Recent Conversation:\n");
            let recent = self.get_recent_history(include_history_count);
            let ghost rec = spec_recent(self.snap().history, include_history_count as nat);
            let n = recent.len();
            let mut i: usize = 0;
            while i < n
                invariant
                    n == rec.len(),
                    msg_views(recent@) == rec,
                    n == recent@.len(),
                    i <= n,
                    out@ == first_part + "Recent Conversation:\n"@ + spec_msg_lines(
                        rec.subrange(0, i as int),
                    ),
                decreases n - i,
            {
                let m = &recent[i];
                out.append(m.role.as_str());
                out.append(": ");
                out.append(m.content.as_str());
                out.append("\n");
                proof {
                    lemma_msg_lines_snoc(rec, i as int);
                    assert(m@ == rec[i as int]);
                    assert(out@ =~= first_part + "Recent Conversation:\n"@ + spec_msg_lines(
                        rec.subrange(0, i + 1 as int),
                    ));
                }
                i += 1;
            }
            out.append("\n");
            proof {
                assert(rec.subrange(0, rec.len() as int) =~= rec);
                assert(out@ =~= spec_context_prompt(
                    self.snap(),
                    include_history_count as nat,
                ));
            }
        } else {
            proof {
                assert(out@ =~= spec_context_prompt(
                    self.snap(),
                    include_history_count as nat,
                ));
            }
        }
        out
    }

    /// Counts of the stores and the estimated character footprint.
    pub fn get_stats(&self) -> (r: MemoryStats)
        ensures
            r.session_entries == self.snap().session.len(),
            r.history_messages == self.snap().history.len(),
            r.cached_tool_results == self.snap().cache.len(),
            r.memory_usage_estimate == sat_usize(spec_memory_usage(self.snap())),
    {
        MemoryStats {
            session_entries: self.session_data.len(),
            history_messages: self.conversation_history.len(),
            cached_tool_results: self.tool_results_cache.len(),
            memory_usage_estimate: self.estimate_memory_usage(),
        }
    }

    /// Sum of the characters held in all three stores, saturating.
    pub fn estimate_memory_usage(&self) -> (r: usize)
        ensures
            r == sat_usize(spec_memory_usage(self.snap())),
    {
        let a = kv_usage(&self.session_data);
        let b = msgs_usage(&self.conversation_history);
        let c = kv_usage(&self.tool_results_cache);
        a.saturating_add(b).saturating_add(c)
    }
}

fn kv_usage(m: &StrMap) -> (r: usize)
    ensures
        r == sat_usize(kv_chars(m@)),
{
    let n = m.len();
    let mut acc: usize = 0;
    let mut i: usize = 0;
    while i < n
        invariant
            n == m@.len(),
            i <= n,
            acc == sat_usize(kv_chars(m@.subrange(0, i as int))),
        decreases n - i,
    {
        let (k, v) = m.entry_at(i);
        let add = k.as_str().unicode_len().saturating_add(v.as_str().unicode_len());
        acc = acc.saturating_add(add);
        proof {
            lemma_kv_chars_snoc(m@, i as int);
        }
        i += 1;
    }
    proof {
        assert(m@.subrange(0, m@.len() as int) =~= m@);
    }
    acc
}

fn msgs_usage(h: &Vec<Message>) -> (r: usize)
    ensures
        r == sat_usize(msgs_chars(msg_views(h@))),
{
    let n = h.len();
    let ghost hv = msg_views(h@);
    let mut acc: usize = 0;
    let mut i: usize = 0;
    while i < n
        invariant
            n == hv.len(),
            hv == msg_views(h@),
            n == h@.len(),
            i <= n,
            acc == sat_usize(msgs_chars(hv.subrange(0, i as int))),
        decreases n - i,
    {
        let m = &h[i];
        let meta = kv_usage(&m.metadata);
        let add = m.content.as_str().unicode_len().saturating_add(
            m.role.as_str().unicode_len(),
        ).saturating_add(meta);
        acc = acc.saturating_add(add);
        proof {
            lemma_msgs_chars_snoc(hv, i as int);
            assert(m@ == hv[i as int]);
        }
        i += 1;
    }
    proof {
        assert(hv.subrange(0, hv.len() as int) =~= hv);
    }
    acc
}

} // verus!
