//! The crate's interchange format: a small JSON value type with a verified
//! renderer and parser.  Every JSON text this system writes or reads — tool
//! input envelopes, tool output, plan objects produced by the model, and
//! memory snapshots — goes through this module.
//!
//! Numbers are unsigned integers, which is all the formats of this system
//! carry; nesting is bounded by [`JSON_MAX_DEPTH`].

use vstd::prelude::*;

use crate::text::{
    digit_val, digits_value, is_digit, pow10, spec_digits, lemma_spec_digits, lemma_pow10_pos,
    digit_char_of, push_u64_digits, hex_val, hex_val_of, char_from_code_checked,
};

verus! {

broadcast use vstd::seq::group_seq_axioms, vstd::std_specs::vec::group_vec_axioms;

/// Nesting depth accepted by the parser; deeper documents are rejected.
pub const JSON_MAX_DEPTH: u64 = 32;

/// A JSON document as this system uses it.
#[derive(Debug)]
pub enum JsonValue {
    Null,
    Bool(bool),
    Num(u64),
    Str(String),
    Arr(Vec<JsonValue>),
    Obj(Vec<(String, JsonValue)>),
}

/// The mathematical shape of a [`JsonValue`].
#[verifier::ext_equal]
pub enum SpecJson {
    Null,
    Bool(bool),
    Num(u64),
    Str(Seq<char>),
    Arr(Seq<SpecJson>),
    Obj(Seq<(Seq<char>, SpecJson)>),
}

pub open spec fn jview(v: JsonValue) -> SpecJson
    decreases v,
{
    match v {
        JsonValue::Null => SpecJson::Null,
        JsonValue::Bool(b) => SpecJson::Bool(b),
        JsonValue::Num(n) => SpecJson::Num(n),
        JsonValue::Str(s) => SpecJson::Str(s@),
        JsonValue::Arr(es) => SpecJson::Arr(jview_list(es@)),
        JsonValue::Obj(ms) => SpecJson::Obj(jview_members(ms@)),
    }
}

pub open spec fn jview_list(es: Seq<JsonValue>) -> Seq<SpecJson>
    decreases es,
{
    if es.len() == 0 {
        Seq::<SpecJson>::empty()
    } else {
        seq![jview(es[0])] + jview_list(es.drop_first())
    }
}

pub open spec fn jview_members(ms: Seq<(String, JsonValue)>) -> Seq<(Seq<char>, SpecJson)>
    decreases ms,
{
    if ms.len() == 0 {
        Seq::<(Seq<char>, SpecJson)>::empty()
    } else {
        seq![(ms[0].0@, jview(ms[0].1))] + jview_members(ms.drop_first())
    }
}

pub broadcast proof fn lemma_jview_list_index(es: Seq<JsonValue>)
    ensures
        (#[trigger] jview_list(es)).len() == es.len(),
        forall|i: int| 0 <= i < es.len() ==> jview_list(es)[i] == jview(#[trigger] es[i]),
    decreases es,
{
    if es.len() > 0 {
        lemma_jview_list_index(es.drop_first());
        assert(forall|i: int|
            1 <= i < es.len() ==> es.drop_first()[i - 1] == #[trigger] es[i]);
    }
}

pub broadcast proof fn lemma_jview_members_index(ms: Seq<(String, JsonValue)>)
    ensures
        (#[trigger] jview_members(ms)).len() == ms.len(),
        forall|i: int|
            0 <= i < ms.len() ==> jview_members(ms)[i] == ((#[trigger] ms[i]).0@, jview(ms[i].1)),
    decreases ms,
{
    if ms.len() > 0 {
        lemma_jview_members_index(ms.drop_first());
        assert(forall|i: int|
            1 <= i < ms.len() ==> ms.drop_first()[i - 1] == #[trigger] ms[i]);
    }
}

impl View for JsonValue {
    type V = SpecJson;

    open spec fn view(&self) -> SpecJson {
        jview(*self)
    }
}

/// The escape sequence the renderer writes for one character.
pub open spec fn spec_escape_char(c: char) -> Seq<char> {
    if c == '"' {
        seq!['\\', '"']
    } else if c == '\\' {
        seq!['\\', '\\']
    } else if c == '\n' {
        seq!['\\', 'n']
    } else if c == '\r' {
        seq!['\\', 'r']
    } else if c == '\t' {
        seq!['\\', 't']
    } else if (c as u32) < 0x20 {
        seq![
            '\\',
            'u',
            '0',
            '0',
            crate::text::hex_char(((c as u32) / 16) as nat),
            crate::text::hex_char(((c as u32) % 16) as nat),
        ]
    } else {
        seq![c]
    }
}

/// String-body rendering: each character escaped, quotes not included.
pub open spec fn spec_escape(s: Seq<char>) -> Seq<char>
    decreases s.len(),
{
    if s.len() == 0 {
        Seq::<char>::empty()
    } else {
        spec_escape_char(s[0]) + spec_escape(s.drop_first())
    }
}

/// The exact text the renderer produces for a value.
pub open spec fn spec_render(v: SpecJson) -> Seq<char>
    decreases v,
{
    match v {
        SpecJson::Null => seq!['n', 'u', 'l', 'l'],
        SpecJson::Bool(b) => if b {
            seq!['t', 'r', 'u', 'e']
        } else {
            seq!['f', 'a', 'l', 's', 'e']
        },
        SpecJson::Num(n) => spec_digits(n as nat),
        SpecJson::Str(s) => seq!['"'] + spec_escape(s) + seq!['"'],
        SpecJson::Arr(es) => seq!['['] + spec_render_elems(es) + seq![']'],
        SpecJson::Obj(ms) => seq!['{'] + spec_render_members(ms) + seq!['}'],
    }
}

pub open spec fn spec_render_elems(es: Seq<SpecJson>) -> Seq<char>
    decreases es,
{
    if es.len() == 0 {
        Seq::<char>::empty()
    } else if es.len() == 1 {
        spec_render(es[0])
    } else {
        spec_render(es[0]) + seq![','] + spec_render_elems(es.drop_first())
    }
}

pub open spec fn spec_render_member(m: (Seq<char>, SpecJson)) -> Seq<char>
    decreases m,
{
    seq!['"'] + spec_escape(m.0) + seq!['"', ':'] + spec_render(m.1)
}

pub open spec fn spec_render_members(ms: Seq<(Seq<char>, SpecJson)>) -> Seq<char>
    decreases ms,
{
    if ms.len() == 0 {
        Seq::<char>::empty()
    } else if ms.len() == 1 {
        spec_render_member(ms[0])
    } else {
        spec_render_member(ms[0]) + seq![','] + spec_render_members(ms.drop_first())
    }
}

fn write_escaped(s: &str, out: &mut Vec<char>)
    ensures
        final(out)@ == old(out)@ + spec_escape(s@),
{
    let cs = crate::text::chars_of(s);
    let n = cs.len();
    let mut i: usize = 0;
    while i < n
        invariant
            n == cs@.len(),
            cs@ == s@,
            i <= n,
            out@ == old(out)@ + spec_escape(s@.subrange(0, i as int)),
        decreases n - i,
    {
        let c = cs[i];
        let ghost pre = out@;
        if c == '"' {
            out.push('\\');
            out.push('"');
        } else if c == '\\' {
            out.push('\\');
            out.push('\\');
        } else if c == '\n' {
            out.push('\\');
            out.push('n');
        } else if c == '\r' {
            out.push('\\');
            out.push('r');
        } else if c == '\t' {
            out.push('\\');
            out.push('t');
        } else if (c as u32) < 0x20 {
            out.push('\\');
            out.push('u');
            out.push('0');
            out.push('0');
            out.push(crate::text::hex_char_of(((c as u32) / 16) as u64));
            out.push(crate::text::hex_char_of(((c as u32) % 16) as u64));
        } else {
            out.push(c);
        }
        proof {
            assert(out@ =~= pre + spec_escape_char(c));
            lemma_escape_snoc(s@, i as int);
            assert(out@ =~= old(out)@ + spec_escape(s@.subrange(0, i + 1 as int)));
        }
        i += 1;
    }
    proof {
        assert(s@.subrange(0, s@.len() as int) =~= s@);
    }
}

proof fn lemma_escape_snoc(s: Seq<char>, i: int)
    requires
        0 <= i < s.len(),
    ensures
        spec_escape(s.subrange(0, i + 1)) == spec_escape(s.subrange(0, i)) + spec_escape_char(
            s[i],
        ),
    decreases i,
{
    if i == 0 {
        let one = s.subrange(0, 1);
        assert(one.drop_first().len() == 0);
        assert(spec_escape(one) == spec_escape_char(one[0]) + spec_escape(one.drop_first()));
        assert(s.subrange(0, 0).len() == 0);
        assert(spec_escape(one) =~= spec_escape(s.subrange(0, 0)) + spec_escape_char(s[0]));
    } else {
        let a = s.subrange(0, i + 1);
        let b = s.subrange(0, i);
        assert(a.drop_first() =~= s.subrange(1, i + 1));
        assert(b.drop_first() =~= s.subrange(1, i));
        assert(s.subrange(1, i + 1) =~= s.subrange(1, s.len() as int).subrange(0, i));
        assert(s.subrange(1, i) =~= s.subrange(1, s.len() as int).subrange(0, i - 1));
        lemma_escape_snoc(s.subrange(1, s.len() as int), i - 1);
        assert(spec_escape(a) == spec_escape_char(a[0]) + spec_escape(a.drop_first()));
        assert(spec_escape(b) == spec_escape_char(b[0]) + spec_escape(b.drop_first()));
        assert(s.subrange(1, s.len() as int)[i - 1] == s[i]);
        assert(spec_escape(a) =~= spec_escape(b) + spec_escape_char(s[i]));
    }
}

/// Appends the canonical rendering of `v` to `out`.
#[verifier::loop_isolation(false)]
#[verifier::rlimit(50)]
pub fn write_json(v: &JsonValue, out: &mut Vec<char>)
    ensures
        final(out)@ == old(out)@ + spec_render(v@),
    decreases *v,
{
    broadcast use vstd::std_specs::vec::axiom_vec_index_decreases;

    match v {
        JsonValue::Null => {
            out.push('n');
            out.push('u');
            out.push('l');
            out.push('l');
            proof {
                assert(out@ =~= old(out)@ + spec_render(v@));
            }
        },
        JsonValue::Bool(b) => {
            if *b {
                out.push('t');
                out.push('r');
                out.push('u');
                out.push('e');
            } else {
                out.push('f');
                out.push('a');
                out.push('l');
                out.push('s');
                out.push('e');
            }
            proof {
                assert(out@ =~= old(out)@ + spec_render(v@));
            }
        },
        JsonValue::Num(n) => {
            push_u64_digits(out, *n);
        },
        JsonValue::Str(s) => {
            out.push('"');
            write_escaped(s.as_str(), out);
            out.push('"');
            proof {
                assert(out@ =~= old(out)@ + spec_render(v@));
            }
        },
        JsonValue::Arr(es) => {
            out.push('[');
            let n = es.len();
            proof {
                lemma_jview_list_index(es@);
            }
            let ghost evs = jview_list(es@);
            let mut i: usize = 0;
            while i < n
                invariant
                    i <= n,
                    out@ == old(out)@ + seq!['['] + spec_render_elems(evs.subrange(0, i as int)),
                decreases n - i,
            {
                if i > 0 {
                    out.push(',');
                }
                proof {
                    assert(decreases_to!(*es => es@[i as int]));
                }
                let e = &es[i];
                write_json(e, out);
                proof {
                    lemma_render_elems_snoc(evs, i as int);
                    assert(out@ =~= old(out)@ + seq!['['] + spec_render_elems(
                        evs.subrange(0, i + 1 as int),
                    ));
                }
                i += 1;
            }
            out.push(']');
            proof {
                assert(evs.subrange(0, evs.len() as int) =~= evs);
                assert(out@ =~= old(out)@ + spec_render(v@));
            }
        },
        JsonValue::Obj(ms) => {
            out.push('{');
            let n = ms.len();
            proof {
                lemma_jview_members_index(ms@);
            }
            let ghost mvs = jview_members(ms@);
            let mut i: usize = 0;
            while i < n
                invariant
                    i <= n,
                    out@ == old(out)@ + seq!['{'] + spec_render_members(mvs.subrange(0, i as int)),
                decreases n - i,
            {
                if i > 0 {
                    out.push(',');
                }
                out.push('"');
                write_escaped(ms[i].0.as_str(), out);
                out.push('"');
                out.push(':');
                proof {
                    assert(decreases_to!(*ms => ms@[i as int]));
                }
                let e = &ms[i].1;
                write_json(e, out);
                proof {
                    lemma_render_members_snoc(mvs, i as int);
                    assert(out@ =~= old(out)@ + seq!['{'] + spec_render_members(
                        mvs.subrange(0, i + 1 as int),
                    ));
                }
                i += 1;
            }
            out.push('}');
            proof {
                assert(mvs.subrange(0, mvs.len() as int) =~= mvs);
                assert(out@ =~= old(out)@ + spec_render(v@));
            }
        },
    }
}

proof fn lemma_render_elems_snoc(es: Seq<SpecJson>, i: int)
    requires
        0 <= i < es.len(),
    ensures
        spec_render_elems(es.subrange(0, i + 1)) == if i == 0 {
            spec_render(es[0])
        } else {
            spec_render_elems(es.subrange(0, i)) + seq![','] + spec_render(es[i])
        },
    decreases i,
{
    if i == 0 {
        let one = es.subrange(0, 1);
        assert(one.len() == 1);
        assert(one[0] == es[0]);
    } else {
        let a = es.subrange(0, i + 1);
        assert(a.len() >= 2);
        assert(a.drop_first() =~= es.subrange(1, i + 1));
        lemma_render_elems_shift(es, i);
    }
}

/// Relates prefix renderings that differ by the final element.
proof fn lemma_render_elems_shift(es: Seq<SpecJson>, i: int)
    requires
        1 <= i < es.len(),
    ensures
        spec_render_elems(es.subrange(0, i + 1)) == spec_render_elems(es.subrange(0, i))
            + seq![','] + spec_render(es[i]),
    decreases i,
{
    let a = es.subrange(0, i + 1);
    let b = es.subrange(0, i);
    if i == 1 {
        assert(a.len() == 2);
        assert(a.drop_first() =~= es.subrange(1, 2));
        assert(es.subrange(1, 2).len() == 1);
        assert(es.subrange(1, 2)[0] == es[1]);
        assert(spec_render_elems(a) == spec_render(a[0]) + seq![','] + spec_render_elems(
            a.drop_first(),
        ));
        assert(b.len() == 1);
        assert(spec_render_elems(b) == spec_render(b[0]));
        assert(a[0] == es[0] && b[0] == es[0]);
    } else {
        let tail = es.subrange(1, es.len() as int);
        assert(a.drop_first() =~= tail.subrange(0, i));
        assert(b.drop_first() =~= tail.subrange(0, i - 1));
        lemma_render_elems_shift(tail, i - 1);
        assert(tail[i - 1] == es[i]);
        assert(a.len() >= 2 && b.len() >= 2);
        assert(spec_render_elems(a) == spec_render(a[0]) + seq![','] + spec_render_elems(
            a.drop_first(),
        ));
        assert(spec_render_elems(b) == spec_render(b[0]) + seq![','] + spec_render_elems(
            b.drop_first(),
        ));
        assert(a[0] == es[0] && b[0] == es[0]);
        assert(spec_render(es[0]) + seq![','] + (spec_render_elems(tail.subrange(0, i - 1))
            + seq![','] + spec_render(es[i])) =~= (spec_render(es[0]) + seq![',']
            + spec_render_elems(tail.subrange(0, i - 1))) + seq![','] + spec_render(es[i]));
    }
}

proof fn lemma_render_members_snoc(ms: Seq<(Seq<char>, SpecJson)>, i: int)
    requires
        0 <= i < ms.len(),
    ensures
        spec_render_members(ms.subrange(0, i + 1)) == if i == 0 {
            spec_render_member(ms[0])
        } else {
            spec_render_members(ms.subrange(0, i)) + seq![','] + spec_render_member(ms[i])
        },
    decreases i,
{
    if i == 0 {
        let one = ms.subrange(0, 1);
        assert(one.len() == 1);
        assert(one[0] == ms[0]);
    } else {
        lemma_render_members_shift(ms, i);
    }
}

proof fn lemma_render_members_shift(ms: Seq<(Seq<char>, SpecJson)>, i: int)
    requires
        1 <= i < ms.len(),
    ensures
        spec_render_members(ms.subrange(0, i + 1)) == spec_render_members(ms.subrange(0, i))
            + seq![','] + spec_render_member(ms[i]),
    decreases i,
{
    let a = ms.subrange(0, i + 1);
    let b = ms.subrange(0, i);
    if i == 1 {
        assert(a.len() == 2);
        assert(a.drop_first() =~= ms.subrange(1, 2));
        assert(ms.subrange(1, 2).len() == 1);
        assert(ms.subrange(1, 2)[0] == ms[1]);
        assert(spec_render_members(a) == spec_render_member(a[0]) + seq![',']
            + spec_render_members(a.drop_first()));
        assert(b.len() == 1);
        assert(spec_render_members(b) == spec_render_member(b[0]));
        assert(a[0] == ms[0] && b[0] == ms[0]);
    } else {
        let tail = ms.subrange(1, ms.len() as int);
        assert(a.drop_first() =~= tail.subrange(0, i));
        assert(b.drop_first() =~= tail.subrange(0, i - 1));
        lemma_render_members_shift(tail, i - 1);
        assert(tail[i - 1] == ms[i]);
        assert(a.len() >= 2 && b.len() >= 2);
        assert(spec_render_members(a) == spec_render_member(a[0]) + seq![',']
            + spec_render_members(a.drop_first()));
        assert(spec_render_members(b) == spec_render_member(b[0]) + seq![',']
            + spec_render_members(b.drop_first()));
        assert(a[0] == ms[0] && b[0] == ms[0]);
        assert(spec_render_member(ms[0]) + seq![','] + (spec_render_members(
            tail.subrange(0, i - 1),
        ) + seq![','] + spec_render_member(ms[i])) =~= (spec_render_member(ms[0]) + seq![',']
            + spec_render_members(tail.subrange(0, i - 1))) + seq![','] + spec_render_member(
            ms[i],
        ));
    }
}

/// Renders a value to a fresh string.
pub fn render_json(v: &JsonValue) -> (r: String)
    ensures
        r@ == spec_render(v@),
{
    let mut out: Vec<char> = Vec::new();
    write_json(v, &mut out);
    crate::text::string_from_chars(&out)
}

/// JSON whitespace.
pub open spec fn is_json_ws(c: char) -> bool {
    c == ' ' || c == '\t' || c == '\n' || c == '\r'
}

/// Number of whitespace characters at position `i`.
pub open spec fn ws_count(s: Seq<char>, i: int) -> nat
    decreases s.len() - i,
{
    if 0 <= i < s.len() && is_json_ws(s[i]) {
        1 + ws_count(s, i + 1)
    } else {
        0
    }
}

/// The character an escape letter stands for; `None` for a letter that is
/// no escape.
pub open spec fn spec_unescape(e: char) -> Option<char> {
    if e == '"' {
        Some('"')
    } else if e == '\\' {
        Some('\\')
    } else if e == '/' {
        Some('/')
    } else if e == 'b' {
        Some('\u{8}')
    } else if e == 'f' {
        Some('\u{c}')
    } else if e == 'n' {
        Some('\n')
    } else if e == 'r' {
        Some('\r')
    } else if e == 't' {
        Some('\t')
    } else {
        None
    }
}

/// Parses a string body beginning after the opening quote; returns the
/// content and the count of characters consumed, closing quote included.
pub open spec fn sp_str(s: Seq<char>, i: int) -> Option<(Seq<char>, nat)>
    decreases s.len() - i,
{
    if !(0 <= i < s.len()) {
        None
    } else if s[i] == '"' {
        Some((Seq::<char>::empty(), 1))
    } else if s[i] == '\\' {
        if i + 1 >= s.len() {
            None
        } else if s[i + 1] == 'u' {
            if i + 5 < s.len() {
                let h1 = hex_val(s[i + 2]);
                let h2 = hex_val(s[i + 3]);
                let h3 = hex_val(s[i + 4]);
                let h4 = hex_val(s[i + 5]);
                if h1 < 16 && h2 < 16 && h3 < 16 && h4 < 16 {
                    let code = h1 * 4096 + h2 * 256 + h3 * 16 + h4;
                    if code < 0xD800 || code >= 0xE000 {
                        match sp_str(s, i + 6) {
                            Some((t, c)) => Some(
                                (seq![((code as u32) as char)] + t, (c + 6) as nat),
                            ),
                            None => None,
                        }
                    } else {
                        None
                    }
                } else {
                    None
                }
            } else {
                None
            }
        } else {
            match spec_unescape(s[i + 1]) {
                Some(ch) => match sp_str(s, i + 2) {
                    Some((t, c)) => Some((seq![ch] + t, (c + 2) as nat)),
                    None => None,
                },
                None => None,
            }
        }
    } else {
        match sp_str(s, i + 1) {
            Some((t, c)) => Some((seq![s[i]] + t, (c + 1) as nat)),
            None => None,
        }
    }
}

/// Scans a run of digits, accumulating onto `acc`; `None` on overflow past
/// `u64::MAX`.
pub open spec fn sp_num(s: Seq<char>, i: int, acc: u64) -> Option<(u64, nat)>
    decreases s.len() - i,
{
    if !(0 <= i < s.len()) || !is_digit(s[i]) {
        Some((acc, 0))
    } else {
        let d = digit_val(s[i]);
        if acc as nat * 10 + d <= u64::MAX as nat {
            match sp_num(s, i + 1, (acc as nat * 10 + d) as u64) {
                Some((v, c)) => Some((v, (c + 1) as nat)),
                None => None,
            }
        } else {
            None
        }
    }
}

/// The literal `lit` stands at position `i`.
pub open spec fn lit_at(s: Seq<char>, i: int, lit: Seq<char>) -> bool {
    0 <= i && i + lit.len() <= s.len() && s.subrange(i, i + lit.len()) == lit
}

/// Parses one value at position `i`; `d` bounds the nesting depth.
/// Returns the value and the count of characters consumed.
pub open spec fn sp_value(s: Seq<char>, i: int, d: nat) -> Option<(SpecJson, nat)>
    decreases d, s.len() - i,
{
    if d == 0 || !(0 <= i < s.len()) {
        None
    } else if s[i] == 'n' {
        if lit_at(s, i, seq!['n', 'u', 'l', 'l']) {
            Some((SpecJson::Null, 4))
        } else {
            None
        }
    } else if s[i] == 't' {
        if lit_at(s, i, seq!['t', 'r', 'u', 'e']) {
            Some((SpecJson::Bool(true), 4))
        } else {
            None
        }
    } else if s[i] == 'f' {
        if lit_at(s, i, seq!['f', 'a', 'l', 's', 'e']) {
            Some((SpecJson::Bool(false), 5))
        } else {
            None
        }
    } else if s[i] == '"' {
        match sp_str(s, i + 1) {
            Some((t, c)) => Some((SpecJson::Str(t), (c + 1) as nat)),
            None => None,
        }
    } else if is_digit(s[i]) {
        match sp_num(s, i, 0) {
            Some((v, c)) => Some((SpecJson::Num(v), c)),
            None => None,
        }
    } else if s[i] == '[' {
        let w = ws_count(s, i + 1);
        let j = i + 1 + w;
        if j < s.len() && s[j] == ']' {
            Some((SpecJson::Arr(Seq::<SpecJson>::empty()), (2 + w) as nat))
        } else if j <= s.len() {
            match sp_elems(s, j, d) {
                Some((es, c)) => Some((SpecJson::Arr(es), (1 + w + c) as nat)),
                None => None,
            }
        } else {
            None
        }
    } else if s[i] == '{' {
        let w = ws_count(s, i + 1);
        let j = i + 1 + w;
        if j < s.len() && s[j] == '}' {
            Some((SpecJson::Obj(Seq::<(Seq<char>, SpecJson)>::empty()), (2 + w) as nat))
        } else if j <= s.len() {
            match sp_members(s, j, d) {
                Some((ms, c)) => Some((SpecJson::Obj(ms), (1 + w + c) as nat)),
                None => None,
            }
        } else {
            None
        }
    } else {
        None
    }
}

/// Parses the elements of a non-empty array, starting at the first element;
/// consumed count includes the closing bracket.
pub open spec fn sp_elems(s: Seq<char>, i: int, d: nat) -> Option<(Seq<SpecJson>, nat)>
    decreases d, s.len() - i,
{
    if d == 0 || !(0 <= i <= s.len()) {
        None
    } else {
        match sp_value(s, i, (d - 1) as nat) {
            None => None,
            Some((v, c)) => {
                let w = ws_count(s, i + c);
                let j = i + c + w;
                if j < s.len() && s[j] == ']' {
                    Some((seq![v], (c + w + 1) as nat))
                } else if j < s.len() && s[j] == ',' {
                    let w2 = ws_count(s, j + 1);
                    let k = j + 1 + w2;
                    if k <= s.len() {
                        match sp_elems(s, k, d) {
                            Some((es, c2)) => Some(
                                (seq![v] + es, (c + w + 1 + w2 + c2) as nat),
                            ),
                            None => None,
                        }
                    } else {
                        None
                    }
                } else {
                    None
                }
            },
        }
    }
}

/// Parses the members of a non-empty object, starting at the first key;
/// consumed count includes the closing brace.
pub open spec fn sp_members(s: Seq<char>, i: int, d: nat) -> Option<
    (Seq<(Seq<char>, SpecJson)>, nat),
>
    decreases d, s.len() - i,
{
    if d == 0 || !(0 <= i < s.len()) || s[i] != '"' {
        None
    } else {
        match sp_str(s, i + 1) {
            None => None,
            Some((key, ck)) => {
                let w1 = ws_count(s, i + 1 + ck);
                let p2 = i + 1 + ck + w1;
                if p2 < s.len() && s[p2] == ':' {
                    let w2 = ws_count(s, p2 + 1);
                    let p3 = p2 + 1 + w2;
                    if p3 <= s.len() {
                        match sp_value(s, p3, (d - 1) as nat) {
                            None => None,
                            Some((v, cv)) => {
                                let w3 = ws_count(s, p3 + cv);
                                let p5 = p3 + cv + w3;
                                if p5 < s.len() && s[p5] == '}' {
                                    Some((seq![(key, v)], (p5 + 1 - i) as nat))
                                } else if p5 < s.len() && s[p5] == ',' {
                                    let w4 = ws_count(s, p5 + 1);
                                    let p6 = p5 + 1 + w4;
                                    if p6 <= s.len() {
                                        match sp_members(s, p6, d) {
                                            Some((ms, c2)) => Some(
                                                (seq![(key, v)] + ms, (p6 - i + c2) as nat),
                                            ),
                                            None => None,
                                        }
                                    } else {
                                        None
                                    }
                                } else {
                                    None
                                }
                            },
                        }
                    } else {
                        None
                    }
                } else {
                    None
                }
            },
        }
    }
}

pub proof fn lemma_jview_list_push(es: Seq<JsonValue>, v: JsonValue)
    ensures
        jview_list(es.push(v)) == jview_list(es) + seq![jview(v)],
    decreases es.len(),
{
    if es.len() == 0 {
        assert(es.push(v).drop_first() =~= es);
        assert(es.push(v)[0] == v);
        assert(jview_list(es.push(v)) =~= jview_list(es) + seq![jview(v)]);
    } else {
        assert(es.push(v).drop_first() =~= es.drop_first().push(v));
        lemma_jview_list_push(es.drop_first(), v);
        assert(es.push(v)[0] == es[0]);
        assert(jview_list(es.push(v)) =~= jview_list(es) + seq![jview(v)]);
    }
}

pub proof fn lemma_jview_members_push(ms: Seq<(String, JsonValue)>, k: String, v: JsonValue)
    ensures
        jview_members(ms.push((k, v))) == jview_members(ms) + seq![(k@, jview(v))],
    decreases ms.len(),
{
    if ms.len() == 0 {
        assert(ms.push((k, v)).drop_first() =~= ms);
        assert(ms.push((k, v))[0] == (k, v));
        assert(jview_members(ms.push((k, v))) =~= jview_members(ms) + seq![(k@, jview(v))]);
    } else {
        assert(ms.push((k, v)).drop_first() =~= ms.drop_first().push((k, v)));
        lemma_jview_members_push(ms.drop_first(), k, v);
        assert(ms.push((k, v))[0] == ms[0]);
        assert(jview_members(ms.push((k, v))) =~= jview_members(ms) + seq![(k@, jview(v))]);
    }
}

/// Position after the whitespace run at `i`.
fn skip_ws(s: &Vec<char>, i: usize) -> (j: usize)
    requires
        i <= s@.len(),
    ensures
        i <= j <= s@.len(),
        j - i == ws_count(s@, i as int),
    decreases s@.len() - i,
{
    if i < s.len() {
        let c = s[i];
        if c == ' ' || c == '\t' || c == '\n' || c == '\r' {
            return skip_ws(s, i + 1);
        }
    }
    i
}

/// String body parser; `i` points just after the opening quote.
fn p_str(s: &Vec<char>, i: usize) -> (r: Option<(Vec<char>, usize)>)
    requires
        i <= s@.len(),
    ensures
        match r {
            Some(t) => i + t.1 <= s@.len() && sp_str(s@, i as int) == Some((t.0@, t.1 as nat)),
            None => sp_str(s@, i as int) is None,
        },
    decreases s@.len() - i,
{
    if i >= s.len() {
        return None;
    }
    let c = s[i];
    if c == '"' {
        return Some((Vec::new(), 1));
    }
    if c == '\\' {
        if i + 1 >= s.len() {
            return None;
        }
        let e = s[i + 1];
        if e == 'u' {
            if s.len() - i <= 5 {
                return None;
            }
            let h1 = hex_val_of(s[i + 2]);
            let h2 = hex_val_of(s[i + 3]);
            let h3 = hex_val_of(s[i + 4]);
            let h4 = hex_val_of(s[i + 5]);
            if h1 < 16 && h2 < 16 && h3 < 16 && h4 < 16 {
                let code = h1 * 4096 + h2 * 256 + h3 * 16 + h4;
                if code < 0xD800 || code >= 0xE000 {
                    let ch = crate::text::char_from_code(code as u32);
                    proof {
                        vstd::utf8::char_u32_cast(ch, code as u32);
                    }
                    match p_str(s, i + 6) {
                        Some((t, c2)) => {
                            let mut out: Vec<char> = Vec::new();
                            out.push(ch);
                            let mut rest = t;
                            out.append(&mut rest);
                            proof {
                                assert(out@ =~= seq![((code as u32) as char)] + t@);
                            }
                            Some((out, c2 + 6))
                        },
                        None => None,
                    }
                } else {
                    None
                }
            } else {
                None
            }
        } else {
            let ch: char;
            if e == '"' {
                ch = '"';
            } else if e == '\\' {
                ch = '\\';
            } else if e == '/' {
                ch = '/';
            } else if e == 'b' {
                ch = '\u{8}';
            } else if e == 'f' {
                ch = '\u{c}';
            } else if e == 'n' {
                ch = '\n';
            } else if e == 'r' {
                ch = '\r';
            } else if e == 't' {
                ch = '\t';
            } else {
                return None;
            }
            match p_str(s, i + 2) {
                Some((t, c2)) => {
                    let mut out: Vec<char> = Vec::new();
                    out.push(ch);
                    let mut rest = t;
                    out.append(&mut rest);
                    proof {
                        assert(out@ =~= seq![spec_unescape(s@[i as int + 1])->0] + t@);
                    }
                    Some((out, c2 + 2))
                },
                None => None,
            }
        }
    } else {
        match p_str(s, i + 1) {
            Some((t, c2)) => {
                let mut out: Vec<char> = Vec::new();
                out.push(c);
                let mut rest = t;
                out.append(&mut rest);
                proof {
                    assert(out@ =~= seq![s@[i as int]] + t@);
                }
                Some((out, c2 + 1))
            },
            None => None,
        }
    }
}

/// Digit-run parser with overflow detection.
fn p_num(s: &Vec<char>, i: usize, acc: u64) -> (r: Option<(u64, usize)>)
    requires
        i <= s@.len(),
    ensures
        match r {
            Some(t) => i + t.1 <= s@.len() && sp_num(s@, i as int, acc) == Some(
                (t.0, t.1 as nat),
            ),
            None => sp_num(s@, i as int, acc) is None,
        },
    decreases s@.len() - i,
{
    if i >= s.len() {
        return Some((acc, 0));
    }
    let c = s[i];
    if !crate::text::digit_check(c) {
        return Some((acc, 0));
    }
    let d = (c as u32 as u64) - ('0' as u32 as u64);
    proof {
        assert(d == digit_val(s@[i as int]));
    }
    if acc <= (u64::MAX - d) / 10 {
        proof {
            assert(acc as nat * 10 + d as nat <= u64::MAX as nat) by (nonlinear_arith)
                requires
                    acc <= (u64::MAX - d) / 10,
                    d <= 9,
            ;
        }
        match p_num(s, i + 1, acc * 10 + d) {
            Some((v, c2)) => Some((v, c2 + 1)),
            None => None,
        }
    } else {
        proof {
            assert(acc as nat * 10 + d as nat > u64::MAX as nat) by (nonlinear_arith)
                requires
                    acc > (u64::MAX - d) / 10,
                    d <= 9,
            ;
        }
        None
    }
}

/// Value parser; mirrors [`sp_value`].
#[verifier::rlimit(50)]
fn p_value(s: &Vec<char>, i: usize, d: u64) -> (r: Option<(JsonValue, usize)>)
    requires
        i <= s@.len(),
    ensures
        match r {
            Some(t) => i + t.1 <= s@.len() && sp_value(s@, i as int, d as nat) == Some(
                (t.0@, t.1 as nat),
            ),
            None => sp_value(s@, i as int, d as nat) is None,
        },
    decreases d, s@.len() - i,
{
    if d == 0 || i >= s.len() {
        return None;
    }
    let c = s[i];
    if c == 'n' {
        if s.len() - i > 3 && s[i + 1] == 'u' && s[i + 2] == 'l' && s[i + 3] == 'l' {
            proof {
                assert(s@.subrange(i as int, i + 4 as int) =~= seq!['n', 'u', 'l', 'l']);
            }
            Some((JsonValue::Null, 4))
        } else {
            proof {
                assert(!lit_at(s@, i as int, seq!['n', 'u', 'l', 'l'])) by {
                    if lit_at(s@, i as int, seq!['n', 'u', 'l', 'l']) {
                        assert(s@.subrange(i as int, i + 4 as int)[1] == s@[i + 1 as int]);
                        assert(s@.subrange(i as int, i + 4 as int)[2] == s@[i + 2 as int]);
                        assert(s@.subrange(i as int, i + 4 as int)[3] == s@[i + 3 as int]);
                    }
                }
            }
            None
        }
    } else if c == 't' {
        if s.len() - i > 3 && s[i + 1] == 'r' && s[i + 2] == 'u' && s[i + 3] == 'e' {
            proof {
                assert(s@.subrange(i as int, i + 4 as int) =~= seq!['t', 'r', 'u', 'e']);
            }
            Some((JsonValue::Bool(true), 4))
        } else {
            proof {
                assert(!lit_at(s@, i as int, seq!['t', 'r', 'u', 'e'])) by {
                    if lit_at(s@, i as int, seq!['t', 'r', 'u', 'e']) {
                        assert(s@.subrange(i as int, i + 4 as int)[1] == s@[i + 1 as int]);
                        assert(s@.subrange(i as int, i + 4 as int)[2] == s@[i + 2 as int]);
                        assert(s@.subrange(i as int, i + 4 as int)[3] == s@[i + 3 as int]);
                    }
                }
            }
            None
        }
    } else if c == 'f' {
        if s.len() - i > 4 && s[i + 1] == 'a' && s[i + 2] == 'l' && s[i + 3] == 's' && s[i + 4]
            == 'e' {
            proof {
                assert(s@.subrange(i as int, i + 5 as int) =~= seq!['f', 'a', 'l', 's', 'e']);
            }
            Some((JsonValue::Bool(false), 5))
        } else {
            proof {
                assert(!lit_at(s@, i as int, seq!['f', 'a', 'l', 's', 'e'])) by {
                    if lit_at(s@, i as int, seq!['f', 'a', 'l', 's', 'e']) {
                        assert(s@.subrange(i as int, i + 5 as int)[1] == s@[i + 1 as int]);
                        assert(s@.subrange(i as int, i + 5 as int)[2] == s@[i + 2 as int]);
                        assert(s@.subrange(i as int, i + 5 as int)[3] == s@[i + 3 as int]);
                        assert(s@.subrange(i as int, i + 5 as int)[4] == s@[i + 4 as int]);
                    }
                }
            }
            None
        }
    } else if c == '"' {
        match p_str(s, i + 1) {
            Some((t, c2)) => Some((JsonValue::Str(crate::text::string_from_chars(&t)), c2 + 1)),
            None => None,
        }
    } else if crate::text::digit_check(c) {
        match p_num(s, i, 0) {
            Some((v, c2)) => Some((JsonValue::Num(v), c2)),
            None => None,
        }
    } else if c == '[' {
        let j = skip_ws(s, i + 1);
        if j < s.len() && s[j] == ']' {
            Some((JsonValue::Arr(Vec::new()), j + 1 - i))
        } else {
            match p_elems(s, j, d) {
                Some((es, c2)) => Some((JsonValue::Arr(es), (j - i) + c2)),
                None => None,
            }
        }
    } else if c == '{' {
        let j = skip_ws(s, i + 1);
        if j < s.len() && s[j] == '}' {
            Some((JsonValue::Obj(Vec::new()), j + 1 - i))
        } else {
            match p_members(s, j, d) {
                Some((ms, c2)) => Some((JsonValue::Obj(ms), (j - i) + c2)),
                None => None,
            }
        }
    } else {
        None
    }
}

/// Array-element parser; mirrors [`sp_elems`].
fn p_elems(s: &Vec<char>, i: usize, d: u64) -> (r: Option<(Vec<JsonValue>, usize)>)
    requires
        i <= s@.len(),
        d >= 1,
    ensures
        match r {
            Some(t) => i + t.1 <= s@.len() && sp_elems(s@, i as int, d as nat) == Some(
                (jview_list(t.0@), t.1 as nat),
            ),
            None => sp_elems(s@, i as int, d as nat) is None,
        },
    decreases d, s@.len() - i,
{
    match p_value(s, i, d - 1) {
        None => None,
        Some((v, c)) => {
            let n = s.len();
            proof {
                assert(i + c <= n);
            }
            let j = skip_ws(s, i + c);
            if j < s.len() && s[j] == ']' {
                let mut es: Vec<JsonValue> = Vec::new();
                proof {
                    lemma_jview_list_push(Seq::<JsonValue>::empty(), v);
                    assert(jview_list(Seq::<JsonValue>::empty().push(v)) =~= seq![jview(v)]);
                }
                es.push(v);
                Some((es, (j - i) + 1))
            } else if j < s.len() && s[j] == ',' {
                let k = skip_ws(s, j + 1);
                match p_elems(s, k, d) {
                    Some((rest, c2)) => {
                        let mut es: Vec<JsonValue> = Vec::new();
                        es.push(v);
                        let mut rest2 = rest;
                        es.append(&mut rest2);
                        proof {
                            lemma_jview_list_cons(v, rest@);
                            assert(es@ =~= seq![v] + rest@);
                        }
                        Some((es, (k - i) + c2))
                    },
                    None => None,
                }
            } else {
                None
            }
        },
    }
}

/// Object-member parser; mirrors [`sp_members`].
fn p_members(s: &Vec<char>, i: usize, d: u64) -> (r: Option<(Vec<(String, JsonValue)>, usize)>)
    requires
        i <= s@.len(),
        d >= 1,
    ensures
        match r {
            Some(t) => i + t.1 <= s@.len() && sp_members(s@, i as int, d as nat) == Some(
                (jview_members(t.0@), t.1 as nat),
            ),
            None => sp_members(s@, i as int, d as nat) is None,
        },
    decreases d, s@.len() - i,
{
    if i >= s.len() || s[i] != '"' {
        return None;
    }
    match p_str(s, i + 1) {
        None => None,
        Some((key, ck)) => {
            let p2 = skip_ws(s, i + 1 + ck);
            if p2 < s.len() && s[p2] == ':' {
                let p3 = skip_ws(s, p2 + 1);
                match p_value(s, p3, d - 1) {
                    None => None,
                    Some((v, cv)) => {
                        let p5 = skip_ws(s, p3 + cv);
                        let key_s = crate::text::string_from_chars(&key);
                        if p5 < s.len() && s[p5] == '}' {
                            let mut ms: Vec<(String, JsonValue)> = Vec::new();
                            let ghost gk = key_s;
                            ms.push((key_s, v));
                            proof {
                                assert(ms@ =~= seq![(gk, v)]);
                                assert(ms@.drop_first() =~= Seq::<(String, JsonValue)>::empty());
                                assert(jview_members(ms@.drop_first()).len() == 0);
                                assert(jview_members(ms@) =~= seq![(key@, jview(v))]);
                            }
                            Some((ms, (p5 + 1) - i))
                        } else if p5 < s.len() && s[p5] == ',' {
                            let p6 = skip_ws(s, p5 + 1);
                            match p_members(s, p6, d) {
                                Some((rest, c2)) => {
                                    let mut ms: Vec<(String, JsonValue)> = Vec::new();
                                    ms.push((key_s, v));
                                    let mut rest2 = rest;
                                    ms.append(&mut rest2);
                                    proof {
                                        lemma_jview_members_cons((key_s, v), rest@);
                                        assert(ms@ =~= seq![(key_s, v)] + rest@);
                                    }
                                    Some((ms, (p6 - i) + c2))
                                },
                                None => None,
                            }
                        } else {
                            None
                        }
                    },
                }
            } else {
                None
            }
        },
    }
}

proof fn lemma_jview_list_cons(v: JsonValue, rest: Seq<JsonValue>)
    ensures
        jview_list(seq![v] + rest) == seq![jview(v)] + jview_list(rest),
{
    let s = seq![v] + rest;
    assert(s.len() >= 1);
    assert(s[0] == v);
    assert(s.drop_first() =~= rest);
}

proof fn lemma_jview_members_cons(m: (String, JsonValue), rest: Seq<(String, JsonValue)>)
    ensures
        jview_members(seq![m] + rest) == seq![(m.0@, jview(m.1))] + jview_members(rest),
{
    let s = seq![m] + rest;
    assert(s.len() >= 1);
    assert(s[0] == m);
    assert(s.drop_first() =~= rest);
}

/// Parses a whole document; agrees exactly with [`spec_parse_json`].
pub fn parse_json_chars(s: &Vec<char>) -> (r: Option<JsonValue>)
    ensures
        match r {
            Some(v) => spec_parse_json(s@) == Some(v@),
            None => spec_parse_json(s@) is None,
        },
{
    let w = skip_ws(s, 0);
    match p_value(s, w, JSON_MAX_DEPTH) {
        Some((v, c)) => {
            let n = s.len();
            proof {
                assert(w + c <= n);
            }
            let e = skip_ws(s, w + c);
            if e == s.len() {
                Some(v)
            } else {
                None
            }
        },
        None => None,
    }
}

/// Parses a whole document from a string slice.
pub fn parse_json(s: &str) -> (r: Option<JsonValue>)
    ensures
        match r {
            Some(v) => spec_parse_json(s@) == Some(v@),
            None => spec_parse_json(s@) is None,
        },
{
    let cs = crate::text::chars_of(s);
    parse_json_chars(&cs)
}

/// Parses a whole document: one value, possibly surrounded by whitespace.
pub open spec fn spec_parse_json(s: Seq<char>) -> Option<SpecJson> {
    let w = ws_count(s, 0);
    match sp_value(s, w as int, JSON_MAX_DEPTH as nat) {
        Some((v, c)) => {
            if w + c + ws_count(s, (w + c) as int) == s.len() {
                Some(v)
            } else {
                None
            }
        },
        None => None,
    }
}

/// Characters that can begin a rendered value.
pub open spec fn starts_value(c: char) -> bool {
    c == 'n' || c == 't' || c == 'f' || c == '"' || is_digit(c) || c == '[' || c == '{'
}

/// A rendered value is never empty and begins with a value-start character.
pub proof fn lemma_render_first(v: SpecJson)
    ensures
        spec_render(v).len() >= 1,
        starts_value(spec_render(v)[0]),
{
    match v {
        SpecJson::Null => {},
        SpecJson::Bool(b) => {},
        SpecJson::Num(n) => {
            lemma_spec_digits(n as nat);
            assert(is_digit(spec_digits(n as nat)[0]));
        },
        SpecJson::Str(s) => {
            assert(spec_render(v)[0] == '"');
        },
        SpecJson::Arr(es) => {
            assert(spec_render(v)[0] == '[');
        },
        SpecJson::Obj(ms) => {
            assert(spec_render(v)[0] == '{');
        },
    }
}

/// Structural nesting depth of a value.
pub open spec fn jdepth(v: SpecJson) -> nat
    decreases v,
{
    match v {
        SpecJson::Null => 1,
        SpecJson::Bool(_) => 1,
        SpecJson::Num(_) => 1,
        SpecJson::Str(_) => 1,
        SpecJson::Arr(es) => 1 + jdepth_elems(es),
        SpecJson::Obj(ms) => 1 + jdepth_members(ms),
    }
}

pub open spec fn jdepth_elems(es: Seq<SpecJson>) -> nat
    decreases es,
{
    if es.len() == 0 {
        0
    } else {
        let h = jdepth(es[0]);
        let t = jdepth_elems(es.drop_first());
        if h >= t {
            h
        } else {
            t
        }
    }
}

pub open spec fn jdepth_members(ms: Seq<(Seq<char>, SpecJson)>) -> nat
    decreases ms,
{
    if ms.len() == 0 {
        0
    } else {
        let h = jdepth(ms[0].1);
        let t = jdepth_members(ms.drop_first());
        if h >= t {
            h
        } else {
            t
        }
    }
}

proof fn lemma_hex_of_hex_char(d: nat)
    requires
        d < 16,
    ensures
        hex_val(crate::text::hex_char(d)) == d,
{
}

/// Parsing a rendered string body gives back the original characters.
proof fn lemma_str_rt(s: Seq<char>, i: int, t: Seq<char>)
    requires
        0 <= i,
        i + spec_escape(t).len() + 1 <= s.len(),
        s.subrange(i, i + spec_escape(t).len() + 1) == spec_escape(t) + seq!['"'],
    ensures
        sp_str(s, i) == Some((t, (spec_escape(t).len() + 1) as nat)),
    decreases t.len(),
{
    let et = spec_escape(t);
    let whole = et + seq!['"'];
    assert(forall|k: int|
        0 <= k < whole.len() ==> s[i + k] == #[trigger] whole[k]) by {
        assert(forall|k: int|
            0 <= k < whole.len() ==> s.subrange(i, i + et.len() + 1)[k] == #[trigger] whole[k]);
    }
    if t.len() == 0 {
        assert(et.len() == 0);
        assert(whole[0] == '"');
        assert(s[i + 0] == whole[0]);
        assert(s[i] == '"');
    } else {
        let c0 = t[0];
        let ec = spec_escape_char(c0);
        let t2 = t.drop_first();
        let et2 = spec_escape(t2);
        assert(et == ec + et2);
        assert forall|k: int| 0 <= k < ec.len() implies s[i + k] == ec[k] by {
            assert(whole[k] == ec[k]);
        }
        let j = i + ec.len();
        assert(s.subrange(j, j + et2.len() + 1) =~= et2 + seq!['"']) by {
            assert(forall|k: int|
                0 <= k < et2.len() + 1 ==> s[j + k] == #[trigger] (et2 + seq!['"'])[k]) by {
                assert(forall|k: int|
                    0 <= k < et2.len() + 1 ==> whole[ec.len() + k] == #[trigger] (et2
                        + seq!['"'])[k]);
            }
        }
        lemma_str_rt(s, j, t2);
        assert(t =~= seq![c0] + t2);
        if c0 == '"' || c0 == '\\' || c0 == '\n' || c0 == '\r' || c0 == '\t' {
            assert(ec.len() == 2);
            assert(s[i + 0] == ec[0] && s[i + 1] == ec[1]);
            assert(s[i] == '\\');
            assert(spec_unescape(s[i + 1]) == Some(c0));
        } else if (c0 as u32) < 0x20 {
            assert(ec.len() == 6);
            assert(s[i + 0] == ec[0] && s[i + 1] == ec[1] && s[i + 2] == ec[2] && s[i + 3] == ec[3]
                && s[i + 4] == ec[4] && s[i + 5] == ec[5]);
            assert(s[i] == '\\' && s[i + 1] == 'u' && s[i + 2] == '0' && s[i + 3] == '0');
            let hi = ((c0 as u32) / 16) as nat;
            let lo = ((c0 as u32) % 16) as nat;
            assert(s[i + 4] == crate::text::hex_char(hi));
            assert(s[i + 5] == crate::text::hex_char(lo));
            lemma_hex_of_hex_char(hi);
            lemma_hex_of_hex_char(lo);
            assert(hex_val(s[i + 2]) == 0 && hex_val(s[i + 3]) == 0);
            let code = hex_val(s[i + 2]) * 4096 + hex_val(s[i + 3]) * 256 + hex_val(s[i + 4]) * 16
                + hex_val(s[i + 5]);
            assert(code == hi * 16 + lo);
            assert(code == c0 as u32);
            assert(code < 0xD800);
            vstd::utf8::char_u32_cast(c0, c0 as u32);
            assert(((code as u32) as char) == c0);
        } else {
            assert(ec =~= seq![c0]);
            assert(s[i + 0] == ec[0]);
            assert(s[i] == c0);
            assert(s[i] != '"' && s[i] != '\\');
        }
    }
}

/// Scanning a run of digits accumulates their value.
proof fn lemma_scan_digits(s: Seq<char>, i: int, ds: Seq<char>, acc: u64)
    requires
        0 <= i,
        i + ds.len() <= s.len(),
        forall|k: int| 0 <= k < ds.len() ==> is_digit(#[trigger] ds[k]),
        s.subrange(i, i + ds.len()) == ds,
        i + ds.len() == s.len() || !is_digit(s[i + ds.len()]),
        acc as nat * pow10(ds.len() as nat) + digits_value(ds) <= u64::MAX as nat,
    ensures
        sp_num(s, i, acc) == Some(
            ((acc as nat * pow10(ds.len() as nat) + digits_value(ds)) as u64, ds.len() as nat),
        ),
    decreases ds.len(),
{
    assert(forall|k: int|
        0 <= k < ds.len() ==> s[i + k] == #[trigger] ds[k]) by {
        assert(forall|k: int|
            0 <= k < ds.len() ==> s.subrange(i, i + ds.len())[k] == #[trigger] ds[k]);
    }
    if ds.len() == 0 {
        assert(pow10(0) == 1);
        assert(acc as nat * 1 == acc as nat);
    } else {
        let d0 = ds[0];
        assert(s[i] == d0);
        assert(is_digit(s[i]));
        let dv = digit_val(d0);
        let rest = ds.drop_first();
        let k = rest.len() as nat;
        assert(digits_value(ds) == dv * pow10(k) + digits_value(rest));
        lemma_pow10_pos(k);
        assert(acc as nat * pow10(k + 1) == (acc as nat * 10) * pow10(k)) by (nonlinear_arith)
            requires
                pow10(k + 1) == 10 * pow10(k),
        ;
        let acc2 = acc as nat * 10 + dv;
        assert(acc2 * pow10(k) + digits_value(rest) == acc as nat * pow10(k + 1) + digits_value(
            ds,
        )) by (nonlinear_arith)
            requires
                acc as nat * pow10(k + 1) == (acc as nat * 10) * pow10(k),
                digits_value(ds) == dv * pow10(k) + digits_value(rest),
                acc2 == acc as nat * 10 + dv,
        ;
        assert(acc2 <= acc2 * pow10(k) + digits_value(rest)) by (nonlinear_arith)
            requires
                pow10(k) >= 1,
        ;
        assert(acc2 <= u64::MAX as nat);
        assert(s.subrange(i + 1, i + 1 + rest.len()) =~= rest);
        lemma_scan_digits(s, i + 1, rest, acc2 as u64);
    }
}

/// Parsing rendered digits gives back the number.
proof fn lemma_num_rt(s: Seq<char>, i: int, n: u64)
    requires
        0 <= i,
        i + spec_digits(n as nat).len() <= s.len(),
        s.subrange(i, i + spec_digits(n as nat).len()) == spec_digits(n as nat),
        i + spec_digits(n as nat).len() == s.len() || !is_digit(s[i + spec_digits(n as nat).len()]),
    ensures
        sp_num(s, i, 0) == Some((n, spec_digits(n as nat).len() as nat)),
{
    lemma_spec_digits(n as nat);
    lemma_scan_digits(s, i, spec_digits(n as nat), 0);
}

/// Parsing a rendered value gives back the value.
#[verifier::rlimit(50)]
pub proof fn lemma_value_rt(s: Seq<char>, i: int, v: SpecJson, d: nat)
    requires
        0 <= i,
        i + spec_render(v).len() <= s.len(),
        s.subrange(i, i + spec_render(v).len()) == spec_render(v),
        i + spec_render(v).len() == s.len() || !is_digit(s[i + spec_render(v).len()]),
        d >= jdepth(v),
    ensures
        sp_value(s, i, d) == Some((v, spec_render(v).len() as nat)),
    decreases v,
{
    let r = spec_render(v);
    assert(forall|k: int|
        0 <= k < r.len() ==> s[i + k] == #[trigger] r[k]) by {
        assert(forall|k: int|
            0 <= k < r.len() ==> s.subrange(i, i + r.len())[k] == #[trigger] r[k]);
    }
    lemma_render_first(v);
    match v {
        SpecJson::Null => {
            assert(s[i] == 'n' && s[i + 1] == 'u' && s[i + 2] == 'l' && s[i + 3] == 'l');
            assert(s.subrange(i, i + 4) =~= seq!['n', 'u', 'l', 'l']);
            assert(lit_at(s, i, seq!['n', 'u', 'l', 'l']));
        },
        SpecJson::Bool(b) => {
            if b {
                assert(s[i] == 't' && s[i + 1] == 'r' && s[i + 2] == 'u' && s[i + 3] == 'e');
                assert(s.subrange(i, i + 4) =~= seq!['t', 'r', 'u', 'e']);
                assert(lit_at(s, i, seq!['t', 'r', 'u', 'e']));
            } else {
                assert(s[i] == 'f' && s[i + 1] == 'a' && s[i + 2] == 'l' && s[i + 3] == 's' && s[i
                    + 4] == 'e');
                assert(s.subrange(i, i + 5) =~= seq!['f', 'a', 'l', 's', 'e']);
                assert(lit_at(s, i, seq!['f', 'a', 'l', 's', 'e']));
            }
        },
        SpecJson::Num(n) => {
            lemma_spec_digits(n as nat);
            assert(is_digit(s[i]));
            assert(s[i] != 'n' && s[i] != 't' && s[i] != 'f' && s[i] != '"');
            lemma_num_rt(s, i, n);
        },
        SpecJson::Str(t) => {
            let et = spec_escape(t);
            assert(s[i] == '"');
            assert(r =~= seq!['"'] + (et + seq!['"']));
            assert(s.subrange(i + 1, i + 1 + et.len() + 1) =~= et + seq!['"']) by {
                assert(forall|k: int|
                    0 <= k < et.len() + 1 ==> s[i + 1 + k] == #[trigger] (et + seq!['"'])[k]) by {
                    assert(forall|k: int|
                        0 <= k < et.len() + 1 ==> r[1 + k] == #[trigger] (et + seq!['"'])[k]);
                }
            }
            lemma_str_rt(s, i + 1, t);
        },
        SpecJson::Arr(es) => {
            assert(s[i] == '[');
            let re = spec_render_elems(es);
            assert(r == seq!['['] + re + seq![']']);
            assert(s[i + 1 + re.len()] == ']') by {
                assert(r[1 + re.len() as int] == ']');
            }
            if es.len() == 0 {
                assert(re.len() == 0);
                assert(r[1] == ']');
                assert(s[i + 1] == ']');
                assert(ws_count(s, i + 1) == 0);
                assert(es =~= Seq::<SpecJson>::empty());
                assert(r.len() == 2);
            } else {
                lemma_render_first(es[0]);
                assert(re == spec_render_elems_nonempty_first(es)) by {
                    lemma_render_elems_head(es);
                }
                assert(s[i + 1] == re[0]) by {
                    assert(r[1] == re[0]);
                }
                assert(starts_value(s[i + 1]));
                assert(!is_json_ws(s[i + 1]));
                assert(ws_count(s, i + 1) == 0);
                assert(s[i + 1] != ']');
                assert(s.subrange(i + 1, i + 1 + re.len() + 1) =~= re + seq![']']) by {
                    assert(forall|k: int|
                        0 <= k < re.len() + 1 ==> s[i + 1 + k] == #[trigger] (re + seq![']'])[k])
                        by {
                        assert(forall|k: int|
                            0 <= k < re.len() + 1 ==> r[1 + k] == #[trigger] (re + seq![']'])[k]);
                    }
                }
                lemma_elems_rt(s, i + 1, es, d);
                assert(sp_elems(s, i + 1, d) == Some((es, (re.len() + 1) as nat)));
            }
        },
        SpecJson::Obj(ms) => {
            assert(s[i] == '{');
            let rm = spec_render_members(ms);
            assert(r == seq!['{'] + rm + seq!['}']);
            assert(s[i + 1 + rm.len()] == '}') by {
                assert(r[1 + rm.len() as int] == '}');
            }
            if ms.len() == 0 {
                assert(rm.len() == 0);
                assert(r[1] == '}');
                assert(s[i + 1] == '}');
                assert(ws_count(s, i + 1) == 0);
                assert(ms =~= Seq::<(Seq<char>, SpecJson)>::empty());
                assert(r.len() == 2);
            } else {
                assert(rm == spec_render_member(ms[0]) + if ms.len() == 1 {
                    Seq::<char>::empty()
                } else {
                    seq![','] + spec_render_members(ms.drop_first())
                }) by {
                    lemma_render_members_head(ms);
                }
                assert(s[i + 1] == rm[0]) by {
                    assert(r[1] == rm[0]);
                }
                assert(rm[0] == '"') by {
                    assert(spec_render_member(ms[0])[0] == '"');
                }
                assert(!is_json_ws(s[i + 1]));
                assert(ws_count(s, i + 1) == 0);
                assert(s[i + 1] != '}');
                assert(s.subrange(i + 1, i + 1 + rm.len() + 1) =~= rm + seq!['}']) by {
                    assert(forall|k: int|
                        0 <= k < rm.len() + 1 ==> s[i + 1 + k] == #[trigger] (rm + seq!['}'])[k])
                        by {
                        assert(forall|k: int|
                            0 <= k < rm.len() + 1 ==> r[1 + k] == #[trigger] (rm + seq!['}'])[k]);
                    }
                }
                lemma_members_rt(s, i + 1, ms, d);
                assert(sp_members(s, i + 1, d) == Some((ms, (rm.len() + 1) as nat)));
            }
        },
    }
}

/// First-element shape of a non-empty element rendering.
pub open spec fn spec_render_elems_nonempty_first(es: Seq<SpecJson>) -> Seq<char> {
    if es.len() == 1 {
        spec_render(es[0])
    } else {
        spec_render(es[0]) + seq![','] + spec_render_elems(es.drop_first())
    }
}

proof fn lemma_render_elems_head(es: Seq<SpecJson>)
    requires
        es.len() >= 1,
    ensures
        spec_render_elems(es) == spec_render_elems_nonempty_first(es),
        spec_render_elems(es)[0] == spec_render(es[0])[0],
        spec_render_elems(es).len() >= spec_render(es[0]).len(),
{
    lemma_render_first(es[0]);
    if es.len() == 1 {
    } else {
        assert((spec_render(es[0]) + seq![','] + spec_render_elems(es.drop_first()))[0]
            == spec_render(es[0])[0]);
    }
}

proof fn lemma_render_members_head(ms: Seq<(Seq<char>, SpecJson)>)
    requires
        ms.len() >= 1,
    ensures
        spec_render_members(ms) == spec_render_member(ms[0]) + if ms.len() == 1 {
            Seq::<char>::empty()
        } else {
            seq![','] + spec_render_members(ms.drop_first())
        },
{
    if ms.len() == 1 {
        assert(spec_render_members(ms) == spec_render_member(ms[0]));
        assert(spec_render_member(ms[0]) + Seq::<char>::empty() =~= spec_render_member(ms[0]));
    } else {
        assert(spec_render_members(ms) == spec_render_member(ms[0]) + seq![',']
            + spec_render_members(ms.drop_first()));
        assert(spec_render_member(ms[0]) + seq![','] + spec_render_members(ms.drop_first())
            =~= spec_render_member(ms[0]) + (seq![','] + spec_render_members(ms.drop_first())));
    }
}

/// Parsing rendered array elements gives back the elements.
#[verifier::rlimit(50)]
proof fn lemma_elems_rt(s: Seq<char>, i: int, es: Seq<SpecJson>, d: nat)
    requires
        0 <= i,
        es.len() >= 1,
        i + spec_render_elems(es).len() + 1 <= s.len(),
        s.subrange(i, i + spec_render_elems(es).len() + 1) == spec_render_elems(es) + seq![']'],
        d >= 1 + jdepth_elems(es),
    ensures
        sp_elems(s, i, d) == Some((es, (spec_render_elems(es).len() + 1) as nat)),
    decreases es,
{
    broadcast use vstd::seq::group_seq_axioms;

    let re = spec_render_elems(es);
    let whole = re + seq![']'];
    assert(forall|k: int|
        0 <= k < whole.len() ==> s[i + k] == #[trigger] whole[k]) by {
        assert(forall|k: int|
            0 <= k < whole.len() ==> s.subrange(i, i + re.len() + 1)[k] == #[trigger] whole[k]);
    }
    let e0 = es[0];
    let r0 = spec_render(e0);
    lemma_render_elems_head(es);
    assert(jdepth_elems(es) >= jdepth(e0));
    if es.len() == 1 {
        assert(re == r0);
        assert(s.subrange(i, i + r0.len()) =~= r0) by {
            assert(forall|k: int| 0 <= k < r0.len() ==> whole[k] == #[trigger] r0[k]);
        }
        assert(s[i + r0.len()] == ']') by {
            assert(whole[r0.len() as int] == ']');
        }
        lemma_value_rt(s, i, e0, (d - 1) as nat);
        assert(ws_count(s, i + r0.len()) == 0);
        assert(seq![e0] =~= es);
    } else {
        let rest = es.drop_first();
        let rr = spec_render_elems(rest);
        assert(re == r0 + seq![','] + rr);
        assert(s.subrange(i, i + r0.len()) =~= r0) by {
            assert(forall|k: int| 0 <= k < r0.len() ==> whole[k] == #[trigger] r0[k]);
        }
        assert(s[i + r0.len()] == ',') by {
            assert(whole[r0.len() as int] == ',');
        }
        lemma_value_rt(s, i, e0, (d - 1) as nat);
        assert(ws_count(s, i + r0.len()) == 0);
        let j = i + r0.len() + 1;
        lemma_render_elems_head(rest);
        lemma_render_first(rest[0]);
        assert(s[j] == rr[0]) by {
            assert(whole[r0.len() as int + 1] == rr[0]);
            assert(rr[0] == spec_render(rest[0])[0]);
        }
        assert(starts_value(s[j]));
        assert(!is_json_ws(s[j]));
        assert(ws_count(s, j) == 0);
        assert(s.subrange(j, j + rr.len() + 1) =~= rr + seq![']']) by {
            assert(forall|k: int|
                0 <= k < rr.len() + 1 ==> s[j + k] == #[trigger] (rr + seq![']'])[k]) by {
                assert(forall|k: int|
                    0 <= k < rr.len() + 1 ==> whole[r0.len() + 1 + k] == #[trigger] (rr
                        + seq![']'])[k]);
            }
        }
        assert(jdepth_elems(rest) <= jdepth_elems(es));
        lemma_elems_rt(s, j, rest, d);
        assert(seq![e0] + rest =~= es);
        assert(s[i + r0.len()] != ']');
    }
}

/// Parsing rendered object members gives back the members.
#[verifier::rlimit(50)]
proof fn lemma_members_rt(s: Seq<char>, i: int, ms: Seq<(Seq<char>, SpecJson)>, d: nat)
    requires
        0 <= i,
        ms.len() >= 1,
        i + spec_render_members(ms).len() + 1 <= s.len(),
        s.subrange(i, i + spec_render_members(ms).len() + 1) == spec_render_members(ms)
            + seq!['}'],
        d >= 1 + jdepth_members(ms),
    ensures
        sp_members(s, i, d) == Some((ms, (spec_render_members(ms).len() + 1) as nat)),
    decreases ms,
{
    broadcast use vstd::seq::group_seq_axioms;

    let rm = spec_render_members(ms);
    let whole = rm + seq!['}'];
    assert(forall|k: int|
        0 <= k < whole.len() ==> s[i + k] == #[trigger] whole[k]) by {
        assert(forall|k: int|
            0 <= k < whole.len() ==> s.subrange(i, i + rm.len() + 1)[k] == #[trigger] whole[k]);
    }
    let m0 = ms[0];
    let r0 = spec_render_member(m0);
    let key = m0.0;
    let ek = spec_escape(key);
    let rv = spec_render(m0.1);
    assert(r0 == seq!['"'] + ek + seq!['"', ':'] + rv);
    assert(r0.len() == ek.len() + 3 + rv.len());
    lemma_render_members_head(ms);
    assert(jdepth_members(ms) >= jdepth(m0.1));
    assert(forall|k: int| 0 <= k < r0.len() ==> s[i + k] == #[trigger] r0[k]) by {
        assert(forall|k: int| 0 <= k < r0.len() ==> whole[k] == #[trigger] r0[k]);
    }
    assert(s[i] == '"') by {
        assert(r0[0] == '"');
    }
    // the key string: escape(key) followed by the closing quote
    assert(s.subrange(i + 1, i + 1 + ek.len() + 1) =~= ek + seq!['"']) by {
        assert(forall|k: int|
            0 <= k < ek.len() + 1 ==> s[i + 1 + k] == #[trigger] (ek + seq!['"'])[k]) by {
            assert(forall|k: int|
                0 <= k < ek.len() ==> r0[1 + k] == #[trigger] ek[k]);
            assert(r0[1 + ek.len() as int] == '"');
        }
    }
    lemma_str_rt(s, i + 1, key);
    let p2 = i + 1 + ek.len() + 1;
    assert(s[p2] == ':') by {
        assert(r0[ek.len() as int + 2] == ':');
    }
    assert(ws_count(s, p2) == 0);
    let p3 = p2 + 1;
    lemma_render_first(m0.1);
    assert(s.subrange(p3, p3 + rv.len()) =~= rv) by {
        assert(forall|k: int| 0 <= k < rv.len() ==> s[p3 + k] == #[trigger] rv[k]) by {
            assert(forall|k: int| 0 <= k < rv.len() ==> r0[ek.len() + 3 + k] == #[trigger] rv[k]);
        }
    }
    let after = p3 + rv.len();
    assert(s[after] == whole[r0.len() as int]);
    if ms.len() == 1 {
        assert(rm == r0);
        assert(s[after] == '}');
        lemma_value_rt(s, p3, m0.1, (d - 1) as nat);
        assert(ws_count(s, p3) == 0);
        assert(ws_count(s, after) == 0);
        assert(seq![(key, m0.1)] =~= ms);
        assert((key, m0.1) == m0);
        assert((after + 1 - i) as nat == (rm.len() + 1) as nat);
    } else {
        let rest = ms.drop_first();
        let rr = spec_render_members(rest);
        assert(rm == r0 + (seq![','] + rr));
        assert(s[after] == ',') by {
            assert(whole[r0.len() as int] == (seq![','] + rr)[0]);
        }
        assert(s[after] != '}');
        lemma_value_rt(s, p3, m0.1, (d - 1) as nat);
        assert(ws_count(s, p3) == 0);
        assert(ws_count(s, after) == 0);
        let p6 = after + 1;
        lemma_render_members_head(rest);
        assert(rr[0] == '"') by {
            assert(spec_render_member(rest[0])[0] == '"');
        }
        assert(s[p6] == rr[0]) by {
            assert(whole[r0.len() as int + 1] == (seq![','] + rr)[1]);
        }
        assert(ws_count(s, p6) == 0);
        assert(s.subrange(p6, p6 + rr.len() + 1) =~= rr + seq!['}']) by {
            assert(forall|k: int|
                0 <= k < rr.len() + 1 ==> s[p6 + k] == #[trigger] (rr + seq!['}'])[k]) by {
                assert(forall|k: int|
                    0 <= k < rr.len() + 1 ==> whole[r0.len() + 1 + k] == #[trigger] (rr
                        + seq!['}'])[k]);
            }
        }
        assert(jdepth_members(rest) <= jdepth_members(ms));
        lemma_members_rt(s, p6, rest, d);
        assert(seq![(key, m0.1)] + rest =~= ms);
        assert((key, m0.1) == m0);
    }
}

/// The value of the first member with the given key.
pub open spec fn obj_field(ms: Seq<(Seq<char>, SpecJson)>, k: Seq<char>) -> Option<SpecJson>
    decreases ms.len(),
{
    if ms.len() == 0 {
        None
    } else if ms[0].0 == k {
        Some(ms[0].1)
    } else {
        obj_field(ms.drop_first(), k)
    }
}

/// First-member lookup on a parsed object.
pub fn jobj_field<'a>(ms: &'a Vec<(String, JsonValue)>, key: &str) -> (r: Option<&'a JsonValue>)
    ensures
        match r {
            Some(v) => obj_field(jview_members(ms@), key@) == Some(v@),
            None => obj_field(jview_members(ms@), key@) is None,
        },
{
    proof {
        lemma_jview_members_index(ms@);
        assert(jview_members(ms@).skip(0) =~= jview_members(ms@));
    }
    let n = ms.len();
    let mut i: usize = 0;
    while i < n
        invariant
            n == ms@.len(),
            i <= n,
            jview_members(ms@).len() == n,
            forall|j: int|
                0 <= j < ms@.len() ==> jview_members(ms@)[j] == ((#[trigger] ms@[j]).0@, jview(
                    ms@[j].1,
                )),
            forall|j: int| 0 <= j < i ==> (#[trigger] jview_members(ms@)[j]).0 != key@,
            obj_field(jview_members(ms@), key@) == obj_field(
                jview_members(ms@).skip(i as int),
                key@,
            ),
        decreases n - i,
    {
        let ghost mv = jview_members(ms@);
        proof {
            assert(mv.skip(i as int)[0] == mv[i as int]);
            assert(mv.skip(i as int).drop_first() =~= mv.skip(i + 1));
        }
        if crate::text::str_eq(ms[i].0.as_str(), key) {
            return Some(&ms[i].1);
        }
        i += 1;
    }
    proof {
        assert(jview_members(ms@).skip(n as int).len() == 0);
    }
    None
}

pub proof fn lemma_jdepth_elems_bound(es: Seq<SpecJson>, k: nat)
    requires
        forall|i: int| 0 <= i < es.len() ==> jdepth(#[trigger] es[i]) <= k,
    ensures
        jdepth_elems(es) <= k,
    decreases es.len(),
{
    if es.len() > 0 {
        assert(forall|i: int|
            0 <= i < es.drop_first().len() ==> jdepth(#[trigger] es.drop_first()[i]) <= k) by {
            assert(forall|i: int|
                0 <= i < es.drop_first().len() ==> es.drop_first()[i] == es[i + 1]);
        }
        lemma_jdepth_elems_bound(es.drop_first(), k);
    }
}

pub proof fn lemma_jdepth_members_bound(ms: Seq<(Seq<char>, SpecJson)>, k: nat)
    requires
        forall|i: int| 0 <= i < ms.len() ==> jdepth((#[trigger] ms[i]).1) <= k,
    ensures
        jdepth_members(ms) <= k,
    decreases ms.len(),
{
    if ms.len() > 0 {
        assert(forall|i: int|
            0 <= i < ms.drop_first().len() ==> jdepth((#[trigger] ms.drop_first()[i]).1) <= k) by {
            assert(forall|i: int|
                0 <= i < ms.drop_first().len() ==> ms.drop_first()[i] == ms[i + 1]);
        }
        lemma_jdepth_members_bound(ms.drop_first(), k);
    }
}

/// The round trip: parsing a rendered document gives back the value.
pub proof fn lemma_json_round_trip(v: SpecJson)
    requires
        jdepth(v) <= JSON_MAX_DEPTH,
    ensures
        spec_parse_json(spec_render(v)) == Some(v),
{
    let s = spec_render(v);
    lemma_render_first(v);
    assert(!is_json_ws(s[0]));
    assert(ws_count(s, 0) == 0);
    assert(s.subrange(0, s.len() as int) =~= s);
    lemma_value_rt(s, 0, v, JSON_MAX_DEPTH as nat);
    assert(ws_count(s, s.len() as int) == 0);
}

} // verus!
