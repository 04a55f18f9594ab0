//! Full-snapshot persistence of the agent memory: a JSON document with the
//! fields `session_data`, `conversation_history` and `tool_results_cache`.
//! Export renders the whole state; import replaces the whole state
//! atomically, and fails without touching it when the payload does not
//! decode into all three fields.

use vstd::prelude::*;
use vstd::string::StringExecFns;

use crate::json::{
    JsonValue, SpecJson, jview, jview_list, jview_members, spec_render, spec_parse_json,
    obj_field, jobj_field, render_json, parse_json, jdepth, jdepth_elems, jdepth_members,
    lemma_jview_members_push, lemma_jview_list_push, lemma_jdepth_elems_bound,
    lemma_jdepth_members_bound, lemma_json_round_trip,
};
use crate::memory::{
    AgentMemory, Message, SpecMessage, SpecMemory, StrMap, kv_views, msg_views,
};

verus! {

broadcast use vstd::seq::group_seq_axioms, vstd::std_specs::vec::group_vec_axioms, vstd::string::group_string_axioms;

/// Import failure: the payload was not a snapshot of all three stores.
#[derive(Debug, PartialEq, Eq, Structural, Clone, Copy)]
pub struct ImportError;

/// The members of the JSON object standing for a key/value store.
pub open spec fn kv_members(es: Seq<(Seq<char>, Seq<char>)>) -> Seq<(Seq<char>, SpecJson)> {
    es.map_values(|e: (Seq<char>, Seq<char>)| (e.0, SpecJson::Str(e.1)))
}

pub open spec fn kv_jval(es: Seq<(Seq<char>, Seq<char>)>) -> SpecJson {
    SpecJson::Obj(kv_members(es))
}

pub open spec fn msg_members(m: SpecMessage) -> Seq<(Seq<char>, SpecJson)> {
    seq![
        ("role"@, SpecJson::Str(m.role)),
        ("content"@, SpecJson::Str(m.content)),
        ("timestamp"@, SpecJson::Num(m.timestamp)),
        ("metadata"@, kv_jval(m.metadata)),
    ]
}

pub open spec fn msg_jval(m: SpecMessage) -> SpecJson {
    SpecJson::Obj(msg_members(m))
}

pub open spec fn snapshot_members(m: SpecMemory) -> Seq<(Seq<char>, SpecJson)> {
    seq![
        ("session_data"@, kv_jval(m.session)),
        (
            "conversation_history"@,
            SpecJson::Arr(m.history.map_values(|x: SpecMessage| msg_jval(x))),
        ),
        ("tool_results_cache"@, kv_jval(m.cache)),
    ]
}

/// The JSON document of a whole memory state.
pub open spec fn snapshot_jval(m: SpecMemory) -> SpecJson {
    SpecJson::Obj(snapshot_members(m))
}

/// The exact text the export produces.
pub open spec fn spec_export(m: SpecMemory) -> Seq<char> {
    spec_render(snapshot_jval(m))
}

/// Reads a key/value store back from object members: every value must be a
/// string.
pub open spec fn kv_of_members(ms: Seq<(Seq<char>, SpecJson)>) -> Option<
    Seq<(Seq<char>, Seq<char>)>,
>
    decreases ms.len(),
{
    if ms.len() == 0 {
        Some(Seq::<(Seq<char>, Seq<char>)>::empty())
    } else {
        match ms[0].1 {
            SpecJson::Str(s) => match kv_of_members(ms.drop_first()) {
                Some(rest) => Some(seq![(ms[0].0, s)] + rest),
                None => None,
            },
            _ => None,
        }
    }
}

pub open spec fn kv_of_jval(v: SpecJson) -> Option<Seq<(Seq<char>, Seq<char>)>> {
    match v {
        SpecJson::Obj(ms) => kv_of_members(ms),
        _ => None,
    }
}

/// Reads one message back from a JSON value.
pub open spec fn msg_of_jval(v: SpecJson) -> Option<SpecMessage> {
    match v {
        SpecJson::Obj(ms) => match obj_field(ms, "role"@) {
            Some(SpecJson::Str(role)) => match obj_field(ms, "content"@) {
                Some(SpecJson::Str(content)) => match obj_field(ms, "timestamp"@) {
                    Some(SpecJson::Num(ts)) => match obj_field(ms, "metadata"@) {
                        Some(md) => match kv_of_jval(md) {
                            Some(meta) => Some(
                                SpecMessage {
                                    role: role,
                                    content: content,
                                    timestamp: ts,
                                    metadata: meta,
                                },
                            ),
                            None => None,
                        },
                        None => None,
                    },
                    _ => None,
                },
                _ => None,
            },
            _ => None,
        },
        _ => None,
    }
}

pub open spec fn history_of_elems(es: Seq<SpecJson>) -> Option<Seq<SpecMessage>>
    decreases es.len(),
{
    if es.len() == 0 {
        Some(Seq::<SpecMessage>::empty())
    } else {
        match msg_of_jval(es[0]) {
            Some(m) => match history_of_elems(es.drop_first()) {
                Some(rest) => Some(seq![m] + rest),
                None => None,
            },
            None => None,
        }
    }
}

/// Reads a whole memory state back from a JSON value.
pub open spec fn snapshot_of_jval(v: SpecJson) -> Option<SpecMemory> {
    match v {
        SpecJson::Obj(ms) => match obj_field(ms, "session_data"@) {
            Some(sv) => match kv_of_jval(sv) {
                Some(session) => match obj_field(ms, "conversation_history"@) {
                    Some(SpecJson::Arr(hs)) => match history_of_elems(hs) {
                        Some(history) => match obj_field(ms, "tool_results_cache"@) {
                            Some(cv) => match kv_of_jval(cv) {
                                Some(cache) => Some(
                                    SpecMemory { session: session, history: history, cache: cache },
                                ),
                                None => None,
                            },
                            None => None,
                        },
                        None => None,
                    },
                    _ => None,
                },
                None => None,
            },
            None => None,
        },
        _ => None,
    }
}

/// What a text imports as, if anything.
pub open spec fn spec_import(s: Seq<char>) -> Option<SpecMemory> {
    match spec_parse_json(s) {
        Some(v) => snapshot_of_jval(v),
        None => None,
    }
}

fn strmap_to_members(m: &StrMap) -> (r: Vec<(String, JsonValue)>)
    ensures
        jview_members(r@) == kv_members(m@),
{
    let n = m.len();
    let mut r: Vec<(String, JsonValue)> = Vec::new();
    proof {
        assert(jview_members(r@) =~~= kv_members(m@.subrange(0, 0)));
    }
    let mut i: usize = 0;
    while i < n
        invariant
            n == m@.len(),
            i <= n,
            jview_members(r@) == kv_members(m@.subrange(0, i as int)),
        decreases n - i,
    {
        let (k, v) = m.entry_at(i);
        let ghost pre = r@;
        let p = (k.clone(), JsonValue::Str(v.clone()));
        let ghost pg = p;
        r.push(p);
        proof {
            lemma_jview_members_push(pre, pg.0, pg.1);
            assert(r@ == pre.push(pg));
            assert(jview_members(r@) =~~= kv_members(m@.subrange(0, i + 1 as int)));
        }
        i += 1;
    }
    proof {
        assert(m@.subrange(0, m@.len() as int) =~= m@);
    }
    r
}

fn message_to_jval(m: &Message) -> (r: JsonValue)
    ensures
        r@ == msg_jval(m@),
{
    let mut fields: Vec<(String, JsonValue)> = Vec::new();
    let ghost f0 = fields@;
    let p0 = (String::from_str("role"), JsonValue::Str(m.role.clone()));
    let ghost g0 = p0;
    fields.push(p0);
    let ghost f1 = fields@;
    let p1 = (String::from_str("content"), JsonValue::Str(m.content.clone()));
    let ghost g1 = p1;
    fields.push(p1);
    let ghost f2 = fields@;
    let p2 = (String::from_str("timestamp"), JsonValue::Num(m.timestamp));
    let ghost g2 = p2;
    fields.push(p2);
    let ghost f3 = fields@;
    let meta = strmap_to_members(&m.metadata);
    let p3 = (String::from_str("metadata"), JsonValue::Obj(meta));
    let ghost g3 = p3;
    fields.push(p3);
    let r = JsonValue::Obj(fields);
    proof {
        lemma_jview_members_push(f0, g0.0, g0.1);
        lemma_jview_members_push(f1, g1.0, g1.1);
        lemma_jview_members_push(f2, g2.0, g2.1);
        lemma_jview_members_push(f3, g3.0, g3.1);
        assert(jview_members(f0) =~= Seq::<(Seq<char>, SpecJson)>::empty());
        assert(jview_members(fields@) =~~= msg_members(m@));
        assert(r@ =~~= msg_jval(m@));
    }
    r
}

impl AgentMemory {
    /// Renders the whole state as its snapshot document.
    pub fn export_to_json(&self) -> (r: String)
        ensures
            r@ == spec_export(self.snap()),
    {
        let session = JsonValue::Obj(strmap_to_members(&self.session_data));
        let n = self.conversation_history.len();
        let ghost hv = msg_views(self.conversation_history@);
        let mut arr: Vec<JsonValue> = Vec::new();
        proof {
            assert(jview_list(arr@) =~~= hv.subrange(0, 0).map_values(
                |x: SpecMessage| msg_jval(x),
            ));
        }
        let mut i: usize = 0;
        while i < n
            invariant
                n == self.conversation_history@.len(),
                hv == msg_views(self.conversation_history@),
                i <= n,
                jview_list(arr@) == hv.subrange(0, i as int).map_values(
                    |x: SpecMessage| msg_jval(x),
                ),
            decreases n - i,
        {
            let jm = message_to_jval(&self.conversation_history[i]);
            let ghost pre = arr@;
            arr.push(jm);
            proof {
                lemma_jview_list_push(pre, jm);
                assert(self.conversation_history@[i as int]@ == hv[i as int]);
                assert(jview_list(arr@) =~~= hv.subrange(0, i + 1 as int).map_values(
                    |x: SpecMessage| msg_jval(x),
                ));
            }
            i += 1;
        }
        proof {
            assert(hv.subrange(0, hv.len() as int) =~= hv);
        }
        let cache = JsonValue::Obj(strmap_to_members(&self.tool_results_cache));
        let mut fields: Vec<(String, JsonValue)> = Vec::new();
        let ghost f0 = fields@;
        let p0 = (String::from_str("session_data"), session);
        let ghost g0 = p0;
        fields.push(p0);
        let ghost f1 = fields@;
        let p1 = (String::from_str("conversation_history"), JsonValue::Arr(arr));
        let ghost g1 = p1;
        fields.push(p1);
        let ghost f2 = fields@;
        let p2 = (String::from_str("tool_results_cache"), cache);
        let ghost g2 = p2;
        fields.push(p2);
        let top = JsonValue::Obj(fields);
        proof {
            lemma_jview_members_push(f0, g0.0, g0.1);
            lemma_jview_members_push(f1, g1.0, g1.1);
            lemma_jview_members_push(f2, g2.0, g2.1);
            assert(jview_members(f0) =~= Seq::<(Seq<char>, SpecJson)>::empty());
            assert(jview_members(fields@) =~~= snapshot_members(self.snap()));
            assert(top@ =~~= snapshot_jval(self.snap()));
        }
        render_json(&top)
    }
}

fn strmap_of_members(ms: &Vec<(String, JsonValue)>) -> (r: Option<StrMap>)
    ensures
        match r {
            Some(sm) => kv_of_members(jview_members(ms@)) == Some(sm@),
            None => kv_of_members(jview_members(ms@)) is None,
        },
{
    let ghost mv = jview_members(ms@);
    proof {
        crate::json::lemma_jview_members_index(ms@);
        assert(mv.skip(0) =~= mv);
    }
    let n = ms.len();
    let mut acc: Vec<(String, String)> = Vec::new();
    let mut i: usize = 0;
    while i < n
        invariant
            n == ms@.len(),
            mv == jview_members(ms@),
            mv.len() == n,
            forall|j: int|
                0 <= j < ms@.len() ==> mv[j] == ((#[trigger] ms@[j]).0@, jview(ms@[j].1)),
            i <= n,
            kv_of_members(mv) == match kv_of_members(mv.skip(i as int)) {
                Some(rest) => Some(kv_views(acc@) + rest),
                None => None::<Seq<(Seq<char>, Seq<char>)>>,
            },
        decreases n - i,
    {
        proof {
            assert(mv.skip(i as int)[0] == mv[i as int]);
            assert(mv.skip(i as int).drop_first() =~= mv.skip(i + 1));
        }
        match &ms[i].1 {
            JsonValue::Str(s) => {
                let ghost pre = acc@;
                acc.push((ms[i].0.clone(), s.clone()));
                proof {
                    assert(kv_views(acc@) =~= kv_views(pre).push((ms@[i as int].0@, s@)));
                    assert(forall|rest: Seq<(Seq<char>, Seq<char>)>|
                        kv_views(pre) + (seq![(mv[i as int].0, s@)] + rest) =~= kv_views(acc@)
                            + rest);
                }
            },
            _ => {
                return None;
            },
        }
        i += 1;
    }
    proof {
        assert(mv.skip(n as int).len() == 0);
        assert(kv_of_members(mv.skip(n as int)) == Some(Seq::<(Seq<char>, Seq<char>)>::empty()));
        assert(kv_views(acc@) + Seq::<(Seq<char>, Seq<char>)>::empty() =~= kv_views(acc@));
    }
    Some(StrMap::from_entries(acc))
}

fn message_of_jval(v: &JsonValue) -> (r: Option<Message>)
    ensures
        match r {
            Some(m) => msg_of_jval(v@) == Some(m@),
            None => msg_of_jval(v@) is None,
        },
{
    match v {
        JsonValue::Obj(ms) => {
            let role = match jobj_field(ms, "role") {
                Some(JsonValue::Str(s)) => s,
                _ => {
                    return None;
                },
            };
            let content = match jobj_field(ms, "content") {
                Some(JsonValue::Str(s)) => s,
                _ => {
                    return None;
                },
            };
            let ts = match jobj_field(ms, "timestamp") {
                Some(JsonValue::Num(n)) => *n,
                _ => {
                    return None;
                },
            };
            let meta = match jobj_field(ms, "metadata") {
                Some(JsonValue::Obj(mm)) => match strmap_of_members(mm) {
                    Some(sm) => sm,
                    None => {
                        return None;
                    },
                },
                _ => {
                    return None;
                },
            };
            Some(
                Message {
                    role: role.clone(),
                    content: content.clone(),
                    timestamp: ts,
                    metadata: meta,
                },
            )
        },
        _ => None,
    }
}

fn history_of_jarr(es: &Vec<JsonValue>) -> (r: Option<Vec<Message>>)
    ensures
        match r {
            Some(h) => history_of_elems(jview_list(es@)) == Some(msg_views(h@)),
            None => history_of_elems(jview_list(es@)) is None,
        },
{
    let ghost ev = jview_list(es@);
    proof {
        crate::json::lemma_jview_list_index(es@);
        assert(ev.skip(0) =~= ev);
    }
    let n = es.len();
    let mut acc: Vec<Message> = Vec::new();
    let mut i: usize = 0;
    while i < n
        invariant
            n == es@.len(),
            ev == jview_list(es@),
            ev.len() == n,
            forall|j: int| 0 <= j < es@.len() ==> ev[j] == jview(#[trigger] es@[j]),
            i <= n,
            history_of_elems(ev) == match history_of_elems(ev.skip(i as int)) {
                Some(rest) => Some(msg_views(acc@) + rest),
                None => None::<Seq<SpecMessage>>,
            },
        decreases n - i,
    {
        proof {
            assert(ev.skip(i as int)[0] == ev[i as int]);
            assert(ev.skip(i as int).drop_first() =~= ev.skip(i + 1));
        }
        match message_of_jval(&es[i]) {
            Some(m) => {
                let ghost pre = acc@;
                let ghost mg = m@;
                acc.push(m);
                proof {
                    assert(msg_views(acc@) =~= msg_views(pre).push(mg));
                    assert(forall|rest: Seq<SpecMessage>|
                        msg_views(pre) + (seq![mg] + rest) =~= msg_views(acc@) + rest);
                }
            },
            None => {
                return None;
            },
        }
        i += 1;
    }
    proof {
        assert(ev.skip(n as int).len() == 0);
        assert(history_of_elems(ev.skip(n as int)) == Some(Seq::<SpecMessage>::empty()));
        assert(msg_views(acc@) + Seq::<SpecMessage>::empty() =~= msg_views(acc@));
    }
    Some(acc)
}

impl AgentMemory {
    /// Replaces the whole state with the snapshot in `json_data`; fails
    /// without touching anything when the payload does not decode into all
    /// three stores.
    pub fn import_from_json(&mut self, json_data: &str) -> (r: Result<(), ImportError>)
        ensures
            match r {
                Ok(()) => spec_import(json_data@) == Some(final(self).snap()) && final(self).max_history_size == old(self).max_history_size,
                Err(_) => spec_import(json_data@) is None && *final(self) == *old(self),
            },
    {
        let parsed = match parse_json(json_data) {
            Some(v) => v,
            None => {
                return Err(ImportError);
            },
        };
        match parsed {
            JsonValue::Obj(ms) => {
                let session = match jobj_field(&ms, "session_data") {
                    Some(JsonValue::Obj(sms)) => match strmap_of_members(sms) {
                        Some(sm) => sm,
                        None => {
                            return Err(ImportError);
                        },
                    },
                    _ => {
                        return Err(ImportError);
                    },
                };
                let history = match jobj_field(&ms, "conversation_history") {
                    Some(JsonValue::Arr(hs)) => match history_of_jarr(hs) {
                        Some(h) => h,
                        None => {
                            return Err(ImportError);
                        },
                    },
                    _ => {
                        return Err(ImportError);
                    },
                };
                let cache = match jobj_field(&ms, "tool_results_cache") {
                    Some(JsonValue::Obj(cms)) => match strmap_of_members(cms) {
                        Some(cm) => cm,
                        None => {
                            return Err(ImportError);
                        },
                    },
                    _ => {
                        return Err(ImportError);
                    },
                };
                self.session_data = session;
                self.conversation_history = history;
                self.tool_results_cache = cache;
                Ok(())
            },
            _ => Err(ImportError),
        }
    }
}

proof fn lemma_kv_round_trip(es: Seq<(Seq<char>, Seq<char>)>)
    ensures
        kv_of_members(kv_members(es)) == Some(es),
    decreases es.len(),
{
    let ms = kv_members(es);
    if es.len() == 0 {
        assert(kv_of_members(ms) == Some(Seq::<(Seq<char>, Seq<char>)>::empty()));
        assert(Seq::<(Seq<char>, Seq<char>)>::empty() =~= es);
    } else {
        assert(ms[0] == (es[0].0, SpecJson::Str(es[0].1)));
        assert(ms.drop_first() =~= kv_members(es.drop_first()));
        lemma_kv_round_trip(es.drop_first());
        assert(seq![(es[0].0, es[0].1)] + es.drop_first() =~= es);
        assert((es[0].0, es[0].1) == es[0]);
    }
}

proof fn lemma_msg_round_trip(m: SpecMessage)
    ensures
        msg_of_jval(msg_jval(m)) == Some(m),
{
    let ms = msg_members(m);
    reveal_strlit("role");
    reveal_strlit("content");
    reveal_strlit("timestamp");
    reveal_strlit("metadata");
    assert("role"@.len() == 4);
    assert("content"@.len() == 7);
    assert("timestamp"@.len() == 9);
    assert("metadata"@.len() == 8);
    assert(ms[0].0 == "role"@);
    assert(obj_field(ms, "role"@) == Some(SpecJson::Str(m.role)));
    assert("content"@ != "role"@);
    assert(ms.drop_first()[0] == ms[1]);
    assert(ms.drop_first().drop_first()[0] == ms[2]);
    assert(ms.drop_first().drop_first().drop_first()[0] == ms[3]);
    assert(obj_field(ms, "content"@) == obj_field(ms.drop_first(), "content"@));
    assert(obj_field(ms, "content"@) == Some(SpecJson::Str(m.content)));
    assert("timestamp"@ != "role"@ && "timestamp"@ != "content"@);
    assert(obj_field(ms, "timestamp"@) == obj_field(ms.drop_first(), "timestamp"@));
    assert(obj_field(ms.drop_first(), "timestamp"@) == obj_field(
        ms.drop_first().drop_first(),
        "timestamp"@,
    ));
    assert(obj_field(ms, "timestamp"@) == Some(SpecJson::Num(m.timestamp)));
    assert("metadata"@ != "role"@ && "metadata"@ != "content"@ && "metadata"@ != "timestamp"@);
    assert(obj_field(ms, "metadata"@) == obj_field(ms.drop_first(), "metadata"@));
    assert(obj_field(ms.drop_first(), "metadata"@) == obj_field(
        ms.drop_first().drop_first(),
        "metadata"@,
    ));
    assert(obj_field(ms.drop_first().drop_first(), "metadata"@) == obj_field(
        ms.drop_first().drop_first().drop_first(),
        "metadata"@,
    ));
    assert(obj_field(ms, "metadata"@) == Some(kv_jval(m.metadata)));
    lemma_kv_round_trip(m.metadata);
    assert(msg_of_jval(msg_jval(m)) == Some(
        SpecMessage {
            role: m.role,
            content: m.content,
            timestamp: m.timestamp,
            metadata: m.metadata,
        },
    ));
    assert(SpecMessage {
        role: m.role,
        content: m.content,
        timestamp: m.timestamp,
        metadata: m.metadata,
    } == m);
}

proof fn lemma_history_round_trip(h: Seq<SpecMessage>)
    ensures
        history_of_elems(h.map_values(|x: SpecMessage| msg_jval(x))) == Some(h),
    decreases h.len(),
{
    let es = h.map_values(|x: SpecMessage| msg_jval(x));
    if h.len() == 0 {
        assert(history_of_elems(es) == Some(Seq::<SpecMessage>::empty()));
        assert(Seq::<SpecMessage>::empty() =~= h);
    } else {
        assert(es[0] == msg_jval(h[0]));
        lemma_msg_round_trip(h[0]);
        assert(es.drop_first() =~= h.drop_first().map_values(|x: SpecMessage| msg_jval(x)));
        lemma_history_round_trip(h.drop_first());
        assert(seq![h[0]] + h.drop_first() =~= h);
    }
}

/// Nesting bound of a snapshot document: a fixed, small depth.
proof fn lemma_snapshot_depth(m: SpecMemory)
    ensures
        jdepth(snapshot_jval(m)) <= 5,
{
    assert forall|i: int| 0 <= i < kv_members(m.session).len() implies jdepth(
        (#[trigger] kv_members(m.session)[i]).1,
    ) <= 1 by {
        assert(kv_members(m.session)[i].1 == SpecJson::Str(m.session[i].1));
    }
    lemma_jdepth_members_bound(kv_members(m.session), 1);
    assert forall|i: int| 0 <= i < kv_members(m.cache).len() implies jdepth(
        (#[trigger] kv_members(m.cache)[i]).1,
    ) <= 1 by {
        assert(kv_members(m.cache)[i].1 == SpecJson::Str(m.cache[i].1));
    }
    lemma_jdepth_members_bound(kv_members(m.cache), 1);
    let hs = m.history.map_values(|x: SpecMessage| msg_jval(x));
    assert forall|i: int| 0 <= i < hs.len() implies jdepth(#[trigger] hs[i]) <= 3 by {
        let mm = msg_members(m.history[i]);
        assert forall|j: int| 0 <= j < mm.len() implies jdepth((#[trigger] mm[j]).1) <= 2 by {
            assert forall|k: int|
                0 <= k < kv_members(m.history[i].metadata).len() implies jdepth(
                (#[trigger] kv_members(m.history[i].metadata)[k]).1,
            ) <= 1 by {
                assert(kv_members(m.history[i].metadata)[k].1 == SpecJson::Str(
                    m.history[i].metadata[k].1,
                ));
            }
            lemma_jdepth_members_bound(kv_members(m.history[i].metadata), 1);
            assert(jdepth(kv_jval(m.history[i].metadata)) <= 2);
        }
        lemma_jdepth_members_bound(mm, 2);
        assert(hs[i] == msg_jval(m.history[i]));
    }
    lemma_jdepth_elems_bound(hs, 3);
    let top = snapshot_members(m);
    assert forall|j: int| 0 <= j < top.len() implies jdepth((#[trigger] top[j]).1) <= 4 by {
        assert(top[0].1 == kv_jval(m.session));
        assert(top[1].1 == SpecJson::Arr(hs));
        assert(top[2].1 == kv_jval(m.cache));
    }
    lemma_jdepth_members_bound(top, 4);
}

/// The round-trip law: exporting a memory state and importing the text
/// reproduces exactly the same session, history and cache.
pub proof fn lemma_export_import_round_trip(m: SpecMemory)
    ensures
        spec_import(spec_export(m)) == Some(m),
{
    lemma_snapshot_depth(m);
    lemma_json_round_trip(snapshot_jval(m));
    let ms = snapshot_members(m);
    reveal_strlit("session_data");
    reveal_strlit("conversation_history");
    reveal_strlit("tool_results_cache");
    assert("session_data"@.len() == 12);
    assert("conversation_history"@.len() == 20);
    assert("tool_results_cache"@.len() == 18);
    assert(ms[0].0 == "session_data"@);
    assert(obj_field(ms, "session_data"@) == Some(kv_jval(m.session)));
    assert("conversation_history"@ != "session_data"@);
    assert(ms.drop_first()[0] == ms[1]);
    assert(ms.drop_first().drop_first()[0] == ms[2]);
    assert(obj_field(ms, "conversation_history"@) == obj_field(
        ms.drop_first(),
        "conversation_history"@,
    ));
    let hs = m.history.map_values(|x: SpecMessage| msg_jval(x));
    assert(obj_field(ms, "conversation_history"@) == Some(SpecJson::Arr(hs)));
    assert("tool_results_cache"@ != "session_data"@ && "tool_results_cache"@
        != "conversation_history"@);
    assert(obj_field(ms, "tool_results_cache"@) == obj_field(
        ms.drop_first(),
        "tool_results_cache"@,
    ));
    assert(obj_field(ms.drop_first(), "tool_results_cache"@) == obj_field(
        ms.drop_first().drop_first(),
        "tool_results_cache"@,
    ));
    assert(obj_field(ms, "tool_results_cache"@) == Some(kv_jval(m.cache)));
    lemma_kv_round_trip(m.session);
    lemma_kv_round_trip(m.cache);
    lemma_history_round_trip(m.history);
    assert(snapshot_of_jval(snapshot_jval(m)) == Some(
        SpecMemory { session: m.session, history: m.history, cache: m.cache },
    ));
    assert(SpecMemory { session: m.session, history: m.history, cache: m.cache } == m);
}

} // verus!
