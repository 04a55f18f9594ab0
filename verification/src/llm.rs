//! The bundled model runtime: model-file bookkeeping and the native
//! simulation that stands in for inference, turning a prompt into a JSON
//! action plan by fixed textual rules.

use vstd::prelude::*;
use vstd::string::StringExecFns;

use crate::scan::{is_op, spec_lines, split_lines};
use crate::text::{chars_of, string_from_chars, lower, lower_chars, spec_trim, trim_chars,
    contains_sub, find_sub, is_sub_at, sub_at};

verus! {

broadcast use vstd::seq::group_seq_axioms, vstd::std_specs::vec::group_vec_axioms,
    vstd::string::group_string_axioms;

/// A model file that could not be accepted.
#[derive(Debug, Clone)]
pub enum ModelError {
    /// Fewer bytes than any model header.
    TooSmall,
}

/// One generated answer.
#[derive(Debug)]
pub struct InferenceResponse {
    pub response: String,
    pub tokens_generated: u32,
    pub model_info: String,
}

/// A failure report in the tool process protocol.
#[derive(Debug)]
pub struct ErrorResponse {
    pub error: String,
    pub code: u32,
}

/// The model holder: a path, the loaded bytes, and whether generation is
/// available.
#[derive(Debug)]
pub struct SuperTinyWasmLLM {
    model_path: String,
    model_loaded: bool,
    model_data: Option<Vec<u8>>,
}

impl SuperTinyWasmLLM {
    pub closed spec fn path_v(&self) -> Seq<char> {
        self.model_path@
    }

    pub closed spec fn loaded_v(&self) -> bool {
        self.model_loaded
    }

    pub closed spec fn data_v(&self) -> Option<Seq<u8>> {
        match self.model_data {
            Some(d) => Some(d@),
            None => None,
        }
    }

    pub fn new(model_path: String) -> (r: SuperTinyWasmLLM)
        ensures
            r.path_v() == model_path@,
            !r.loaded_v(),
            r.data_v() is None,
    {
        SuperTinyWasmLLM { model_path, model_loaded: false, model_data: None }
    }

    pub fn is_loaded(&self) -> (r: bool)
        ensures
            r == self.loaded_v(),
    {
        self.model_loaded
    }

    pub fn model_path(&self) -> (r: &str)
        ensures
            r@ == self.path_v(),
    {
        self.model_path.as_str()
    }

    /// Marks the runtime ready without any model bytes: the simulation
    /// answers instead of a model.
    pub fn enable_simulation(&mut self)
        ensures
            final(self).loaded_v(),
            final(self).path_v() == old(self).path_v(),
            final(self).data_v() == old(self).data_v(),
    {
        self.model_loaded = true;
    }

    /// Accepts model bytes read from disk: anything under four bytes is
    /// refused; the result says whether the bytes look like a known model
    /// format — the magic header, or a size only real models reach.
    pub fn load_model_data(&mut self, data: Vec<u8>) -> (r: Result<bool, ModelError>)
        ensures
            match r {
                Ok(detected) => data@.len() >= 4 && final(self).loaded_v() && final(self).data_v()
                    == Some(data@) && detected == (data@.subrange(0, 4) == seq![
                    71u8,
                    71u8,
                    85u8,
                    70u8,
                ] || data@.len() > 1000000) && final(self).path_v() == old(self).path_v(),
                Err(_) => data@.len() < 4 && *final(self) == *old(self),
            },
    {
        if data.len() < 4 {
            return Err(ModelError::TooSmall);
        }
        // the magic header spells GGUF in ASCII
        let magic = data[0] == 71 && data[1] == 71 && data[2] == 85 && data[3] == 70;
        proof {
            if magic {
                assert(data@.subrange(0, 4) =~= seq![71u8, 71u8, 85u8, 70u8]);
            } else {
                assert(data@.subrange(0, 4)[0] == data@[0]);
                assert(data@.subrange(0, 4)[1] == data@[1]);
                assert(data@.subrange(0, 4)[2] == data@[2]);
                assert(data@.subrange(0, 4)[3] == data@[3]);
            }
        }
        let detected = magic || data.len() > 1000000;
        self.model_data = Some(data);
        self.model_loaded = true;
        Ok(detected)
    }
}

/// First position at or after `i` where the needle stands, or -1.
pub open spec fn sub_index(s: Seq<char>, sub: Seq<char>, i: int) -> int
    decreases s.len() - i,
{
    if !(0 <= i && i + sub.len() <= s.len()) {
        -1
    } else if sub.len() == 0 {
        i
    } else if s.subrange(i, i + sub.len()) == sub {
        i
    } else {
        sub_index(s, sub, i + 1)
    }
}

proof fn lemma_sub_index(s: Seq<char>, sub: Seq<char>, i: int)
    requires
        0 <= i,
    ensures
        sub_index(s, sub, i) == -1 || i <= sub_index(s, sub, i),
        sub_index(s, sub, i) >= 0 ==> is_sub_at(s, sub_index(s, sub, i), sub),
        forall|j: int| i <= j < sub_index(s, sub, i) ==> !is_sub_at(s, j, sub),
        sub_index(s, sub, i) == -1 ==> forall|j: int| j >= i ==> !is_sub_at(s, j, sub),
    decreases s.len() - i,
{
    if sub.len() == 0 && 0 <= i && i + sub.len() <= s.len() {
        assert(s.subrange(i, i + sub.len()) =~= sub);
        assert(is_sub_at(s, i, sub));
    }
    if sub.len() > 0 && 0 <= i && i + sub.len() <= s.len() && s.subrange(i, i + sub.len())
        != sub {
        lemma_sub_index(s, sub, i + 1);
    }
}

fn find_sub_from(s: &Vec<char>, sub: &Vec<char>, i: usize) -> (r: Option<usize>)
    requires
        i <= s@.len(),
    ensures
        match r {
            Some(k) => sub_index(s@, sub@, i as int) == k as int && k as int + sub@.len()
                <= s@.len(),
            None => sub_index(s@, sub@, i as int) == -1,
        },
    decreases s@.len() - i,
{
    if s.len() - i < sub.len() {
        return None;
    }
    if sub.len() == 0 {
        return Some(i);
    }
    if sub_at(s, i, sub) {
        proof {
            assert(s@.subrange(i as int, i + sub@.len()) == sub@);
        }
        return Some(i);
    }
    find_sub_from(s, sub, i + 1)
}

/// Last position where the needle stands, or -1.
pub open spec fn last_sub_index(s: Seq<char>, sub: Seq<char>, i: int) -> int
    decreases i + 1,
{
    if i < 0 {
        -1
    } else if is_sub_at(s, i, sub) {
        i
    } else {
        last_sub_index(s, sub, i - 1)
    }
}

fn rfind_sub(s: &Vec<char>, sub: &Vec<char>) -> (r: Option<usize>)
    ensures
        match r {
            Some(k) => last_sub_index(s@, sub@, s@.len() as int - sub@.len()) == k as int && k
                as int + sub@.len() <= s@.len(),
            None => last_sub_index(s@, sub@, s@.len() as int - sub@.len()) == -1,
        },
{
    let n = s.len();
    let m = sub.len();
    if m > n {
        return None;
    }
    let mut i: usize = n - m;
    loop
        invariant
            m <= n,
            n == s@.len(),
            m == sub@.len(),
            i <= n - m,
            last_sub_index(s@, sub@, n as int - m as int) == last_sub_index(s@, sub@, i as int),
        decreases i + 1,
    {
        if sub_at(s, i, sub) {
            return Some(i);
        }
        if i == 0 {
            proof {
                assert(last_sub_index(s@, sub@, -1) == -1);
                assert(last_sub_index(s@, sub@, 0) == -1);
            }
            return None;
        }
        i = i - 1;
    }
}

/// Text with every occurrence of the needle removed, left to right.
pub open spec fn remove_all(s: Seq<char>, sub: Seq<char>) -> Seq<char>
    decreases s.len(),
{
    if sub.len() == 0 {
        s
    } else {
        let i = sub_index(s, sub, 0);
        if i < 0 {
            s
        } else if 0 <= i && i + sub.len() <= s.len() {
            s.subrange(0, i) + remove_all(s.subrange(i + sub.len(), s.len() as int), sub)
        } else {
            s
        }
    }
}

fn remove_all_exec(s: &Vec<char>, sub: &Vec<char>) -> (r: Vec<char>)
    requires
        sub@.len() > 0,
    ensures
        r@ == remove_all(s@, sub@),
    decreases s@.len(),
{
    proof {
        lemma_sub_index(s@, sub@, 0);
    }
    match find_sub_from(s, sub, 0) {
        None => {
            let mut out: Vec<char> = Vec::new();
            let n = s.len();
            let mut k: usize = 0;
            while k < n
                invariant
                    n == s@.len(),
                    k <= n,
                    out@ == s@.subrange(0, k as int),
                decreases n - k,
            {
                out.push(s[k]);
                proof {
                    assert(out@ =~= s@.subrange(0, k + 1 as int));
                }
                k += 1;
            }
            proof {
                assert(out@ =~= s@);
            }
            out
        },
        Some(i) => {
            let n = s.len();
            let mut head: Vec<char> = Vec::new();
            let mut k: usize = 0;
            while k < i
                invariant
                    i <= s@.len(),
                    k <= i,
                    head@ == s@.subrange(0, k as int),
                decreases i - k,
            {
                head.push(s[k]);
                proof {
                    assert(head@ =~= s@.subrange(0, k + 1 as int));
                }
                k += 1;
            }
            let start = i + sub.len();
            let mut tail: Vec<char> = Vec::new();
            let mut k2: usize = start;
            while k2 < n
                invariant
                    start <= s@.len(),
                    n == s@.len(),
                    start <= k2 <= n,
                    tail@ == s@.subrange(start as int, k2 as int),
                decreases n - k2,
            {
                tail.push(s[k2]);
                proof {
                    assert(tail@ =~= s@.subrange(start as int, k2 + 1 as int));
                }
                k2 += 1;
            }
            proof {
                assert(tail@ =~= s@.subrange(start as int, s@.len() as int));
                assert(tail@.len() < s@.len());
            }
            let mut rest = remove_all_exec(&tail, sub);
            let mut out = head;
            out.append(&mut rest);
            proof {
                assert(out@ =~= remove_all(s@, sub@));
            }
            out
        },
    }
}

/// The text holds an arithmetic operator.
pub open spec fn has_op(s: Seq<char>) -> bool {
    exists|k: int| 0 <= k < s.len() && is_op(#[trigger] s[k])
}

fn has_op_check(s: &Vec<char>) -> (r: bool)
    ensures
        r == has_op(s@),
{
    let n = s.len();
    let mut i: usize = 0;
    while i < n
        invariant
            n == s@.len(),
            i <= n,
            forall|k: int| 0 <= k < i ==> !is_op(#[trigger] s@[k]),
        decreases n - i,
    {
        let c = s[i];
        if c == '+' || c == '-' || c == '*' || c == '/' {
            proof {
                assert(is_op(s@[i as int]));
            }
            return true;
        }
        i += 1;
    }
    false
}

/// A rendered single-action plan naming one tool, one argument and a
/// reason.
pub open spec fn action_json(tool: Seq<char>, arg: Seq<char>, reason: Seq<char>) -> Seq<char> {
    "{\"tool\": \""@ + tool + "\", \"args\": [\""@ + arg + "\"], \"reasoning\": \""@ + reason
        + "\"}"@
}

fn action_json_exec(tool: &str, arg: &str, reason: &str) -> (r: String)
    ensures
        r@ == action_json(tool@, arg@, reason@),
{
    let mut out = String::from_str("{\"tool\": \"");
    out.append(tool);
    out.append("\", \"args\": [\"");
    out.append(arg);
    out.append("\"], \"reasoning\": \"");
    out.append(reason);
    out.append("\"}");
    proof {
        assert(out@ =~= action_json(tool@, arg@, reason@));
    }
    out
}

/// A rendered fetch plan with its two fixed arguments.
pub open spec fn fetch_json(tool: Seq<char>) -> Seq<char> {
    "{\"tool\": \""@ + tool
        + "\", \"args\": [\"get\", \"http://example.com\"], \"reasoning\": \"HTTP request detected\"}"@
}

/// A rendered shell plan with its two fixed arguments.
pub open spec fn shell_json(tool: Seq<char>) -> Seq<char> {
    "{\"tool\": \""@ + tool
        + "\", \"args\": [\"ls\", \"-la\"], \"reasoning\": \"File listing requested\"}"@
}

/// The arithmetic tool the lowered prompt names.
pub open spec fn sim_math_tool(p: Seq<char>) -> Seq<char> {
    if contains_sub(p, "math-native"@) {
        "math-native"@
    } else if contains_sub(p, "- math:"@) {
        "math"@
    } else {
        "math-native"@
    }
}

pub open spec fn sim_fetch_tool(p: Seq<char>) -> Seq<char> {
    if contains_sub(p, "fetch-native"@) {
        "fetch-native"@
    } else {
        "fetch"@
    }
}

pub open spec fn sim_shell_tool(p: Seq<char>) -> Seq<char> {
    if contains_sub(p, "shell-native"@) {
        "shell-native"@
    } else {
        "shell"@
    }
}

/// The expression the task marker carries, where it is short and holds an
/// operator: the marker's line, the marker itself removed, trimmed.
pub open spec fn sim_task_extract(p: Seq<char>) -> Option<Seq<char>> {
    let i = sub_index(p, "current_task:"@, 0);
    if i >= 0 && i <= p.len() {
        let part = p.subrange(i, p.len() as int);
        if part.len() > 0 && spec_lines(part).len() > 0 {
            let line = spec_lines(part)[0];
            let task = spec_trim(remove_all(line, "current_task:"@));
            if has_op(task) && task.len() < 20 {
                Some(task)
            } else {
                None
            }
        } else {
            None
        }
    } else {
        None
    }
}

/// The expression after the last speaker marker, where it is short and
/// holds an operator.
pub open spec fn sim_user_extract(p: Seq<char>) -> Option<Seq<char>> {
    let i = last_sub_index(p, "user:"@, p.len() - 5);
    if i >= 0 {
        let part = spec_trim(p.subrange(i + 5, p.len() as int));
        if part.len() > 0 && spec_lines(part).len() > 0 {
            let q = spec_trim(spec_lines(part)[0]);
            if has_op(q) && q.len() < 20 {
                Some(q)
            } else {
                None
            }
        } else {
            None
        }
    } else {
        None
    }
}

/// The simulated answer for a prompt: fixed arithmetic shortcuts first,
/// then an expression lifted from the task or conversation context, then
/// the fetch and shell rules, else an echoing sentence.
pub open spec fn spec_simulate(prompt: Seq<char>) -> Seq<char> {
    let p = lower(prompt);
    if contains_sub(p, "2+2"@) || contains_sub(p, "2 + 2"@) {
        action_json(sim_math_tool(p), "2+2"@, "Simple addition calculation"@)
    } else if contains_sub(p, "5*7"@) || contains_sub(p, "5 * 7"@) {
        action_json(sim_math_tool(p), "5*7"@, "Multiplication calculation"@)
    } else if contains_sub(p, "4*5"@) || contains_sub(p, "4 * 5"@) {
        action_json(sim_math_tool(p), "4*5"@, "Multiplication calculation"@)
    } else if contains_sub(p, "3*7"@) || contains_sub(p, "3 * 7"@) {
        action_json(sim_math_tool(p), "3*7"@, "Multiplication calculation"@)
    } else if contains_sub(p, "math"@) && has_op(p) {
        match sim_task_extract(p) {
            Some(task) => action_json(sim_math_tool(p), task, "Detected math expression"@),
            None => match sim_user_extract(p) {
                Some(q) => action_json(sim_math_tool(p), q, "Math operation requested"@),
                None => action_json(sim_math_tool(p), "calculation"@, "Math operation requested"@),
            },
        }
    } else if contains_sub(p, "http"@) {
        fetch_json(sim_fetch_tool(p))
    } else if contains_sub(p, "list"@) || contains_sub(p, "files"@) {
        shell_json(sim_shell_tool(p))
    } else {
        "I understand you want to: "@ + prompt + ". Let me help with that."@
    }
}

fn contains_check(hay: &Vec<char>, needle: &Vec<char>) -> (r: bool)
    ensures
        r == contains_sub(hay@, needle@),
{
    match find_sub(hay, needle) {
        Some(_) => true,
        None => false,
    }
}

fn sim_math_tool_exec(p: &Vec<char>) -> (r: &'static str)
    ensures
        r@ == sim_math_tool(p@),
{
    let n1 = chars_of("math-native");
    if contains_check(p, &n1) {
        "math-native"
    } else {
        let n2 = chars_of("- math:");
        if contains_check(p, &n2) {
            "math"
        } else {
            "math-native"
        }
    }
}

fn copy_from(s: &Vec<char>, i: usize) -> (r: Vec<char>)
    requires
        i <= s@.len(),
    ensures
        r@ == s@.subrange(i as int, s@.len() as int),
{
    let n = s.len();
    let mut out: Vec<char> = Vec::new();
    let mut k: usize = i;
    while k < n
        invariant
            n == s@.len(),
            i <= k <= n,
            out@ == s@.subrange(i as int, k as int),
        decreases n - k,
    {
        out.push(s[k]);
        proof {
            assert(out@ =~= s@.subrange(i as int, k + 1 as int));
        }
        k += 1;
    }
    out
}

fn task_extract_exec(p: &Vec<char>) -> (r: Option<Vec<char>>)
    ensures
        match r {
            Some(t) => sim_task_extract(p@) == Some(t@),
            None => sim_task_extract(p@) is None,
        },
{
    let marker = chars_of("current_task:");
    proof {
        reveal_strlit("current_task:");
        assert(marker@.len() == 13);
    }
    match find_sub_from(p, &marker, 0) {
        Some(i) => {
            let part = copy_from(p, i);
            if part.len() == 0 {
                return None;
            }
            let lines = split_lines(&part);
            if lines.len() == 0 {
                return None;
            }
            let removed = remove_all_exec(&lines[0], &marker);
            let task = trim_chars(&removed);
            proof {
                assert(lines@[0]@ == spec_lines(part@)[0]);
            }
            if has_op_check(&task) && task.len() < 20 {
                Some(task)
            } else {
                None
            }
        },
        None => None,
    }
}

fn user_extract_exec(p: &Vec<char>) -> (r: Option<Vec<char>>)
    ensures
        match r {
            Some(t) => sim_user_extract(p@) == Some(t@),
            None => sim_user_extract(p@) is None,
        },
{
    let marker = chars_of("user:");
    proof {
        reveal_strlit("user:");
        assert(marker@.len() == 5);
    }
    match rfind_sub(p, &marker) {
        Some(i) => {
            let n = p.len();
            proof {
                assert(i + 5 <= n);
            }
            let raw = copy_from(p, i + 5);
            let part = trim_chars(&raw);
            if part.len() == 0 {
                return None;
            }
            let lines = split_lines(&part);
            if lines.len() == 0 {
                return None;
            }
            let q = trim_chars(&lines[0]);
            proof {
                assert(lines@[0]@ == spec_lines(part@)[0]);
            }
            if has_op_check(&q) && q.len() < 20 {
                Some(q)
            } else {
                None
            }
        },
        None => None,
    }
}

/// The native stand-in for inference: a deterministic function of the
/// prompt text alone.
pub fn simulate_inference(prompt: &str) -> (r: String)
    ensures
        r@ == spec_simulate(prompt@),
{
    let cs = chars_of(prompt);
    let p = lower_chars(&cs);
    let c_22 = chars_of("2+2");
    let c_22s = chars_of("2 + 2");
    if contains_check(&p, &c_22) || contains_check(&p, &c_22s) {
        return action_json_exec(sim_math_tool_exec(&p), "2+2", "Simple addition calculation");
    }
    let c_57 = chars_of("5*7");
    let c_57s = chars_of("5 * 7");
    if contains_check(&p, &c_57) || contains_check(&p, &c_57s) {
        return action_json_exec(sim_math_tool_exec(&p), "5*7", "Multiplication calculation");
    }
    let c_45 = chars_of("4*5");
    let c_45s = chars_of("4 * 5");
    if contains_check(&p, &c_45) || contains_check(&p, &c_45s) {
        return action_json_exec(sim_math_tool_exec(&p), "4*5", "Multiplication calculation");
    }
    let c_37 = chars_of("3*7");
    let c_37s = chars_of("3 * 7");
    if contains_check(&p, &c_37) || contains_check(&p, &c_37s) {
        return action_json_exec(sim_math_tool_exec(&p), "3*7", "Multiplication calculation");
    }
    let c_math = chars_of("math");
    if contains_check(&p, &c_math) && has_op_check(&p) {
        match task_extract_exec(&p) {
            Some(task) => {
                let ts = string_from_chars(&task);
                return action_json_exec(
                    sim_math_tool_exec(&p),
                    ts.as_str(),
                    "Detected math expression",
                );
            },
            None => {},
        }
        match user_extract_exec(&p) {
            Some(q) => {
                let qs = string_from_chars(&q);
                return action_json_exec(
                    sim_math_tool_exec(&p),
                    qs.as_str(),
                    "Math operation requested",
                );
            },
            None => {},
        }
        return action_json_exec(sim_math_tool_exec(&p), "calculation", "Math operation requested");
    }
    let c_http = chars_of("http");
    if contains_check(&p, &c_http) {
        let tool = {
            let nf = chars_of("fetch-native");
            if contains_check(&p, &nf) {
                "fetch-native"
            } else {
                "fetch"
            }
        };
        let mut out = String::from_str("{\"tool\": \"");
        out.append(tool);
        out.append(
            "\", \"args\": [\"get\", \"http://example.com\"], \"reasoning\": \"HTTP request detected\"}",
        );
        proof {
            assert(out@ =~= fetch_json(sim_fetch_tool(p@)));
        }
        return out;
    }
    let c_list = chars_of("list");
    let c_files = chars_of("files");
    if contains_check(&p, &c_list) || contains_check(&p, &c_files) {
        let tool = {
            let ns = chars_of("shell-native");
            if contains_check(&p, &ns) {
                "shell-native"
            } else {
                "shell"
            }
        };
        let mut out = String::from_str("{\"tool\": \"");
        out.append(tool);
        out.append(
            "\", \"args\": [\"ls\", \"-la\"], \"reasoning\": \"File listing requested\"}",
        );
        proof {
            assert(out@ =~= shell_json(sim_shell_tool(p@)));
        }
        return out;
    }
    let mut out = String::from_str("I understand you want to: ");
    out.append(prompt);
    out.append(". Let me help with that.");
    proof {
        assert(out@ =~= spec_simulate(prompt@));
    }
    out
}

/// The part of a path after its last separator.
pub open spec fn spec_file_name(s: Seq<char>) -> Seq<char> {
    let i = last_sub_index(s, "/"@, s.len() - 1);
    if i >= 0 {
        s.subrange(i + 1, s.len() as int)
    } else {
        s
    }
}

impl SuperTinyWasmLLM {
    /// Answers a prompt through the simulation, with a token count and a
    /// note naming the model file.
    pub fn generate_response(&self, prompt: &str) -> (r: InferenceResponse)
        ensures
            r.response@ == spec_simulate(prompt@),
            r.model_info@ == "SuperTinyWasmLLM v0.1.0 - Model: "@ + spec_file_name(self.path_v())
                + " (WASI-NN)"@,
    {
        let response = simulate_inference(prompt);
        let rc = chars_of(response.as_str());
        let toks = crate::tools::split_tokens(&rc);
        let count: u32 = if toks.len() > 0xFFFFFFFF {
            0xFFFFFFFF
        } else {
            toks.len() as u32
        };
        let pc = chars_of(self.model_path.as_str());
        let slash = chars_of("/");
        proof {
            reveal_strlit("/");
            assert(slash@.len() == 1);
        }
        let base = match rfind_sub(&pc, &slash) {
            Some(i) => {
                let n = pc.len();
                proof {
                    assert(i + 1 <= n);
                }
                copy_from(&pc, i + 1)
            },
            None => copy_from(&pc, 0),
        };
        proof {
            assert(base@ =~= spec_file_name(self.path_v()));
        }
        let mut info = String::from_str("SuperTinyWasmLLM v0.1.0 - Model: ");
        let bs = string_from_chars(&base);
        info.append(bs.as_str());
        info.append(" (WASI-NN)");
        proof {
            assert(info@ =~= "SuperTinyWasmLLM v0.1.0 - Model: "@ + spec_file_name(self.path_v())
                + " (WASI-NN)"@);
        }
        InferenceResponse { response, tokens_generated: count, model_info: info }
    }
}

} // verus!
