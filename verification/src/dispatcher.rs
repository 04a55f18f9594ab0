//! The tool dispatcher's decision logic: the registry of executable tools,
//! alias resolution with its native-first preference, the input envelope
//! and output interpretation of the tool process protocol, health-probe
//! construction, and the ordering and assembly rules of the three
//! execution strategies.  The process work itself — spawning, piping and
//! deadlines — happens outside; every judgement about its results is made
//! here.

use vstd::prelude::*;
use vstd::string::StringExecFns;

use crate::json::{JsonValue, SpecJson, jview, jview_list, jview_members, obj_field,
    spec_parse_json, spec_render, render_json, parse_json, lemma_jview_list_push,
    lemma_jview_members_push};
use crate::memory::StrMap;
use crate::planner::{ActionPlan, SpecAction, ExecutionPlan, ExecutionStrategy, action_views,
    strs_views, is_alias};
use crate::text::{chars_of, string_from_chars, str_eq, spec_trim, trim_chars, contains_sub,
    find_sub, is_sub_at};

verus! {

broadcast use vstd::seq::group_seq_axioms, vstd::std_specs::vec::group_vec_axioms,
    vstd::string::group_string_axioms;

/// The outcome of one executed action.
#[derive(Debug)]
pub struct ToolResult {
    pub success: bool,
    pub result: String,
    pub error: Option<String>,
    pub execution_time_ms: u64,
    pub tool_name: String,
    pub metadata: StrMap,
}

#[verifier::ext_equal]
pub struct SpecToolResult {
    pub success: bool,
    pub result: Seq<char>,
    pub error: Option<Seq<char>>,
    pub execution_time_ms: u64,
    pub tool_name: Seq<char>,
    pub metadata: Seq<(Seq<char>, Seq<char>)>,
}

impl View for ToolResult {
    type V = SpecToolResult;

    open spec fn view(&self) -> SpecToolResult {
        SpecToolResult {
            success: self.success,
            result: self.result@,
            error: match self.error {
                Some(e) => Some(e@),
                None => None,
            },
            execution_time_ms: self.execution_time_ms,
            tool_name: self.tool_name@,
            metadata: self.metadata@,
        }
    }
}

pub open spec fn result_views(s: Seq<ToolResult>) -> Seq<SpecToolResult> {
    s.map_values(|r: ToolResult| r@)
}

impl ToolResult {
    pub fn success(tool_name: &str, result: &str, execution_time_ms: u64) -> (r: ToolResult)
        ensures
            r@.success == true,
            r@.result == result@,
            r@.error is None,
            r@.execution_time_ms == execution_time_ms,
            r@.tool_name == tool_name@,
            r@.metadata.len() == 0,
    {
        ToolResult {
            success: true,
            result: String::from_str(result),
            error: None,
            execution_time_ms,
            tool_name: String::from_str(tool_name),
            metadata: StrMap::new(),
        }
    }

    pub fn error(tool_name: &str, error: &str, execution_time_ms: u64) -> (r: ToolResult)
        ensures
            r@.success == false,
            r@.result.len() == 0,
            r@.error == Some(error@),
            r@.execution_time_ms == execution_time_ms,
            r@.tool_name == tool_name@,
            r@.metadata.len() == 0,
    {
        ToolResult {
            success: false,
            result: String::new(),
            error: Some(String::from_str(error)),
            execution_time_ms,
            tool_name: String::from_str(tool_name),
            metadata: StrMap::new(),
        }
    }

    pub fn with_metadata(self, key: &str, value: &str) -> (r: ToolResult)
        ensures
            r@.success == self@.success,
            r@.result == self@.result,
            r@.error == self@.error,
            r@.execution_time_ms == self@.execution_time_ms,
            r@.tool_name == self@.tool_name,
            r@.metadata == if crate::memory::has_key(self@.metadata, key@) {
                self@.metadata.update(
                    crate::memory::key_index(self@.metadata, key@),
                    (key@, value@),
                )
            } else {
                self@.metadata.push((key@, value@))
            },
    {
        let mut r = self;
        r.metadata.insert(key, value);
        r
    }
}

/// An executable tool as the dispatcher sees it: a name, the path of the
/// executable or module, and a description.
#[derive(Debug)]
pub struct ToolHandle {
    pub name: String,
    pub tool_path: String,
    pub description: String,
}

#[verifier::ext_equal]
pub struct SpecToolHandle {
    pub name: Seq<char>,
    pub tool_path: Seq<char>,
    pub description: Seq<char>,
}

impl View for ToolHandle {
    type V = SpecToolHandle;

    open spec fn view(&self) -> SpecToolHandle {
        SpecToolHandle {
            name: self.name@,
            tool_path: self.tool_path@,
            description: self.description@,
        }
    }
}

pub open spec fn handle_views(s: Seq<ToolHandle>) -> Seq<SpecToolHandle> {
    s.map_values(|h: ToolHandle| h@)
}

/// The text ends with the given suffix.
pub open spec fn ends_with(s: Seq<char>, suffix: Seq<char>) -> bool {
    s.len() >= suffix.len() && s.subrange(s.len() - suffix.len(), s.len() as int) == suffix
}

fn ends_with_check(s: &Vec<char>, suffix: &Vec<char>) -> (r: bool)
    ensures
        r == ends_with(s@, suffix@),
{
    let n = s.len();
    let m = suffix.len();
    if n < m {
        return false;
    }
    let r = crate::text::sub_at(s, n - m, suffix);
    proof {
        assert(is_sub_at(s@, n - m, suffix@) == ends_with(s@, suffix@));
    }
    r
}

/// A tool of this exact name is registered.
pub open spec fn handle_known(hs: Seq<SpecToolHandle>, name: Seq<char>) -> bool {
    exists|j: int| 0 <= j < hs.len() && (#[trigger] hs[j]).name == name
}

/// Index of the first handle with this exact name, or -1.
pub open spec fn handle_index(hs: Seq<SpecToolHandle>, name: Seq<char>) -> int
    decreases hs.len(),
{
    if hs.len() == 0 {
        -1
    } else if hs[0].name == name {
        0
    } else {
        let r = handle_index(hs.drop_first(), name);
        if r < 0 {
            -1
        } else {
            r + 1
        }
    }
}

pub proof fn lemma_handle_index(hs: Seq<SpecToolHandle>, name: Seq<char>)
    ensures
        -1 <= handle_index(hs, name) < hs.len(),
        handle_index(hs, name) >= 0 ==> hs[handle_index(hs, name)].name == name,
        forall|j: int|
            0 <= j < hs.len() && j < handle_index(hs, name) ==> (#[trigger] hs[j]).name != name,
        (handle_index(hs, name) >= 0) == handle_known(hs, name),
    decreases hs.len(),
{
    if hs.len() > 0 && hs[0].name != name {
        lemma_handle_index(hs.drop_first(), name);
        assert(forall|j: int| 1 <= j < hs.len() ==> hs.drop_first()[j - 1] == #[trigger] hs[j]);
    }
}

/// Index of the first handle whose name ends in `-native` and contains the
/// alias, or -1.
pub open spec fn native_index(hs: Seq<SpecToolHandle>, name: Seq<char>) -> int
    decreases hs.len(),
{
    if hs.len() == 0 {
        -1
    } else if ends_with(hs[0].name, "-native"@) && contains_sub(hs[0].name, name) {
        0
    } else {
        let r = native_index(hs.drop_first(), name);
        if r < 0 {
            -1
        } else {
            r + 1
        }
    }
}

pub proof fn lemma_native_index(hs: Seq<SpecToolHandle>, name: Seq<char>)
    ensures
        -1 <= native_index(hs, name) < hs.len(),
        native_index(hs, name) >= 0 ==> ends_with(hs[native_index(hs, name)].name, "-native"@)
            && contains_sub(hs[native_index(hs, name)].name, name),
        forall|j: int|
            0 <= j < hs.len() && j < native_index(hs, name) ==> !(ends_with(
                (#[trigger] hs[j]).name,
                "-native"@,
            ) && contains_sub(hs[j].name, name)),
        native_index(hs, name) < 0 ==> forall|j: int|
            0 <= j < hs.len() ==> !(ends_with((#[trigger] hs[j]).name, "-native"@) && contains_sub(
                hs[j].name,
                name,
            )),
    decreases hs.len(),
{
    if hs.len() > 0 && !(ends_with(hs[0].name, "-native"@) && contains_sub(hs[0].name, name)) {
        lemma_native_index(hs.drop_first(), name);
        assert(forall|j: int| 1 <= j < hs.len() ==> hs.drop_first()[j - 1] == #[trigger] hs[j]);
    }
}

/// Index of the first handle whose name contains the alias, or -1.
pub open spec fn containing_index(hs: Seq<SpecToolHandle>, name: Seq<char>) -> int
    decreases hs.len(),
{
    if hs.len() == 0 {
        -1
    } else if contains_sub(hs[0].name, name) {
        0
    } else {
        let r = containing_index(hs.drop_first(), name);
        if r < 0 {
            -1
        } else {
            r + 1
        }
    }
}

pub proof fn lemma_containing_index(hs: Seq<SpecToolHandle>, name: Seq<char>)
    ensures
        -1 <= containing_index(hs, name) < hs.len(),
        containing_index(hs, name) >= 0 ==> contains_sub(hs[containing_index(hs, name)].name, name),
        forall|j: int|
            0 <= j < hs.len() && j < containing_index(hs, name) ==> !contains_sub(
                (#[trigger] hs[j]).name,
                name,
            ),
        containing_index(hs, name) < 0 ==> forall|j: int|
            0 <= j < hs.len() ==> !contains_sub((#[trigger] hs[j]).name, name),
    decreases hs.len(),
{
    if hs.len() > 0 && !contains_sub(hs[0].name, name) {
        lemma_containing_index(hs.drop_first(), name);
        assert(forall|j: int| 1 <= j < hs.len() ==> hs.drop_first()[j - 1] == #[trigger] hs[j]);
    }
}

/// The concrete name an alias resolves to: an exact match first; else,
/// for a well-known alias, the first native implementation containing it;
/// else the first name containing it; else the name unchanged.
pub open spec fn spec_resolve_alias(hs: Seq<SpecToolHandle>, name: Seq<char>) -> Seq<char> {
    if handle_known(hs, name) {
        name
    } else if is_alias(name) {
        if native_index(hs, name) >= 0 {
            hs[native_index(hs, name)].name
        } else if containing_index(hs, name) >= 0 {
            hs[containing_index(hs, name)].name
        } else {
            name
        }
    } else {
        name
    }
}

/// An already-registered name resolves to itself unchanged.
pub proof fn lemma_resolve_alias_identity(hs: Seq<SpecToolHandle>, name: Seq<char>)
    requires
        handle_known(hs, name),
    ensures
        spec_resolve_alias(hs, name) == name,
{
}

/// Alias resolution is idempotent: resolving a resolved name changes
/// nothing, because every resolved name is either registered or returned
/// unchanged.
pub proof fn lemma_resolve_alias_idempotent(hs: Seq<SpecToolHandle>, name: Seq<char>)
    ensures
        spec_resolve_alias(hs, spec_resolve_alias(hs, name)) == spec_resolve_alias(hs, name),
{
    let r = spec_resolve_alias(hs, name);
    if handle_known(hs, name) {
    } else if is_alias(name) {
        if native_index(hs, name) >= 0 {
            lemma_native_index(hs, name);
            let i = native_index(hs, name);
            assert(hs[i].name == r);
            assert(handle_known(hs, r));
        } else if containing_index(hs, name) >= 0 {
            lemma_containing_index(hs, name);
            let i = containing_index(hs, name);
            assert(hs[i].name == r);
            assert(handle_known(hs, r));
        } else {
        }
    } else {
    }
}

/// The registry of executable tools and the per-action deadline.
#[derive(Debug)]
pub struct ToolDispatcher {
    tools: Vec<ToolHandle>,
    default_timeout_seconds: u64,
}

impl ToolDispatcher {
    pub closed spec fn handles_v(&self) -> Seq<SpecToolHandle> {
        handle_views(self.tools@)
    }

    pub closed spec fn timeout_v(&self) -> u64 {
        self.default_timeout_seconds
    }

    pub fn new() -> (r: ToolDispatcher)
        ensures
            r.handles_v() =~= Seq::<SpecToolHandle>::empty(),
            r.timeout_v() == 30,
    {
        ToolDispatcher { tools: Vec::new(), default_timeout_seconds: 30 }
    }

    pub fn set_timeout(&mut self, timeout_seconds: u64)
        ensures
            final(self).timeout_v() == timeout_seconds,
            final(self).handles_v() == old(self).handles_v(),
    {
        self.default_timeout_seconds = timeout_seconds;
    }

    /// Registers a tool under its name, overwriting an entry of the same
    /// name; the description is derived from the name.
    #[verifier::loop_isolation(false)]
    pub fn register_tool(&mut self, name: &str, tool_path: &str)
        ensures
            final(self).handles_v() == if handle_known(old(self).handles_v(), name@) {
                old(self).handles_v().update(
                    handle_index(old(self).handles_v(), name@),
                    (SpecToolHandle {
                        name: name@,
                        tool_path: tool_path@,
                        description: "Tool: "@ + name@,
                    }),
                )
            } else {
                old(self).handles_v().push(
                    SpecToolHandle {
                        name: name@,
                        tool_path: tool_path@,
                        description: "Tool: "@ + name@,
                    },
                )
            },
            final(self).timeout_v() == old(self).timeout_v(),
    {
        proof {
            lemma_handle_index(old(self).handles_v(), name@);
        }
        let mut description = String::from_str("Tool: ");
        description.append(name);
        let handle = ToolHandle {
            name: String::from_str(name),
            tool_path: String::from_str(tool_path),
            description,
        };
        let ghost hg = handle@;
        let n = self.tools.len();
        let mut i: usize = 0;
        while i < n
            invariant
                n == self.tools@.len(),
                i <= n,
                *self == *old(self),
                forall|j: int| 0 <= j < i ==> (#[trigger] self.handles_v()[j]).name != name@,
            decreases n - i,
        {
            let same = str_eq(self.tools[i].name.as_str(), name);
            proof {
                assert(self.handles_v()[i as int] == self.tools@[i as int]@);
            }
            if same {
                proof {
                    assert(self.handles_v()[i as int].name == name@);
                    lemma_handle_index(self.handles_v(), name@);
                    assert(handle_index(self.handles_v(), name@) == i);
                }
                self.tools[i] = handle;
                proof {
                    assert(hg == (SpecToolHandle {
                        name: name@,
                        tool_path: tool_path@,
                        description: "Tool: "@ + name@,
                    }));
                    assert(self.handles_v() =~~= old(self).handles_v().update(
                        handle_index(old(self).handles_v(), name@),
                        hg,
                    ));
                }
                return ;
            }
            i += 1;
        }
        proof {
            assert(!handle_known(self.handles_v(), name@));
        }
        self.tools.push(handle);
        proof {
            assert(hg == (SpecToolHandle {
                name: name@,
                tool_path: tool_path@,
                description: "Tool: "@ + name@,
            }));
            assert(self.handles_v() =~~= old(self).handles_v().push(hg));
        }
    }

    /// The registered tool names, in registration order.
    pub fn get_available_tools(&self) -> (r: Vec<String>)
        ensures
            strs_views(r@) == self.handles_v().map_values(|h: SpecToolHandle| h.name),
    {
        let n = self.tools.len();
        let mut r: Vec<String> = Vec::new();
        let mut i: usize = 0;
        while i < n
            invariant
                n == self.tools@.len(),
                i <= n,
                r@.len() == i,
                forall|j: int|
                    0 <= j < i ==> r@[j]@ == (#[trigger] self.handles_v()[j]).name,
            decreases n - i,
        {
            r.push(self.tools[i].name.clone());
            i += 1;
        }
        proof {
            assert(strs_views(r@) =~= self.handles_v().map_values(|h: SpecToolHandle| h.name));
        }
        r
    }

    /// The handle registered under this exact name.
    pub fn get_tool_info(&self, tool_name: &str) -> (r: Option<&ToolHandle>)
        ensures
            match r {
                Some(h) => handle_index(self.handles_v(), tool_name@) >= 0 && h@ == self.handles_v(
                )[handle_index(self.handles_v(), tool_name@)],
                None => !handle_known(self.handles_v(), tool_name@),
            },
    {
        proof {
            lemma_handle_index(self.handles_v(), tool_name@);
        }
        let n = self.tools.len();
        let mut i: usize = 0;
        while i < n
            invariant
                n == self.tools@.len(),
                i <= n,
                forall|j: int| 0 <= j < i ==> (#[trigger] self.handles_v()[j]).name != tool_name@,
            decreases n - i,
        {
            if str_eq(self.tools[i].name.as_str(), tool_name) {
                proof {
                    assert(self.handles_v()[i as int].name == tool_name@);
                    lemma_handle_index(self.handles_v(), tool_name@);
                    assert(handle_index(self.handles_v(), tool_name@) == i);
                }
                return Some(&self.tools[i]);
            }
            i += 1;
        }
        proof {
            lemma_handle_index(self.handles_v(), tool_name@);
        }
        None
    }

    /// Maps a tool name to the concrete registered name, preferring a
    /// native implementation for the well-known aliases.
    pub fn map_tool_alias(&self, tool_name: &str) -> (r: String)
        ensures
            r@ == spec_resolve_alias(self.handles_v(), tool_name@),
    {
        if self.known_check(tool_name) {
            return String::from_str(tool_name);
        }
        let is_al = str_eq(tool_name, "math") || str_eq(tool_name, "fetch") || str_eq(
            tool_name,
            "shell",
        );
        if !is_al {
            return String::from_str(tool_name);
        }
        match self.native_search(tool_name) {
            Some(i) => {
                proof {
                    lemma_native_index(self.handles_v(), tool_name@);
                }
                return self.tools[i].name.clone();
            },
            None => {},
        }
        match self.containing_search(tool_name) {
            Some(i) => {
                proof {
                    lemma_containing_index(self.handles_v(), tool_name@);
                }
                return self.tools[i].name.clone();
            },
            None => {},
        }
        String::from_str(tool_name)
    }

    fn known_check(&self, name: &str) -> (r: bool)
        ensures
            r == handle_known(self.handles_v(), name@),
    {
        let n = self.tools.len();
        let mut i: usize = 0;
        while i < n
            invariant
                n == self.tools@.len(),
                i <= n,
                forall|j: int| 0 <= j < i ==> (#[trigger] self.handles_v()[j]).name != name@,
            decreases n - i,
        {
            if str_eq(self.tools[i].name.as_str(), name) {
                proof {
                    assert(self.handles_v()[i as int].name == name@);
                }
                return true;
            }
            i += 1;
        }
        false
    }

    fn native_search(&self, name: &str) -> (r: Option<usize>)
        ensures
            match r {
                Some(i) => native_index(self.handles_v(), name@) == i as int,
                None => native_index(self.handles_v(), name@) < 0,
            },
    {
        proof {
            lemma_native_index(self.handles_v(), name@);
        }
        let needle = chars_of(name);
        let suffix = chars_of("-native");
        let n = self.tools.len();
        let mut i: usize = 0;
        while i < n
            invariant
                n == self.tools@.len(),
                needle@ == name@,
                suffix@ == "-native"@,
                i <= n,
                forall|j: int|
                    0 <= j < i ==> !(ends_with((#[trigger] self.handles_v()[j]).name, "-native"@)
                        && contains_sub(self.handles_v()[j].name, name@)),
            decreases n - i,
        {
            let hay = chars_of(self.tools[i].name.as_str());
            proof {
                assert(self.handles_v()[i as int] == self.tools@[i as int]@);
                assert(hay@ == self.handles_v()[i as int].name);
            }
            let is_native = ends_with_check(&hay, &suffix);
            let has = match find_sub(&hay, &needle) {
                Some(_) => true,
                None => false,
            };
            if is_native && has {
                proof {
                    assert(ends_with(self.handles_v()[i as int].name, "-native"@));
                    assert(contains_sub(self.handles_v()[i as int].name, name@));
                    lemma_native_index(self.handles_v(), name@);
                    assert(native_index(self.handles_v(), name@) == i);
                }
                return Some(i);
            }
            i += 1;
        }
        proof {
            lemma_native_index(self.handles_v(), name@);
        }
        None
    }

    /// Tool count, names and the configured deadline; reads nothing else.
    pub fn get_stats(&self) -> (r: DispatcherStats)
        ensures
            r.total_tools == self.handles_v().len(),
            strs_views(r.tool_names@) == self.handles_v().map_values(
                |h: SpecToolHandle| h.name,
            ),
            r.timeout_seconds == self.timeout_v(),
    {
        DispatcherStats {
            total_tools: self.tools.len(),
            tool_names: self.get_available_tools(),
            timeout_seconds: self.default_timeout_seconds,
        }
    }

    /// The canned probe input for one tool, chosen by the tool's kind.
    pub fn health_probe_input(&self, name: &str) -> (r: String)
        ensures
            r@ == spec_probe_input(name@),
    {
        let cs = chars_of(name);
        let op: &str = {
            let m = chars_of("math");
            let f = chars_of("fetch");
            let s = chars_of("shell");
            if match find_sub(&cs, &m) {
                Some(_) => true,
                None => false,
            } {
                "1+1"
            } else if match find_sub(&cs, &f) {
                Some(_) => true,
                None => false,
            } {
                "http://httpbin.org/status/200"
            } else if match find_sub(&cs, &s) {
                Some(_) => true,
                None => false,
            } {
                "echo hello"
            } else {
                "ping"
            }
        };
        let v = JsonValue::Obj(probe_fields(op));
        proof {
            assert(v@ =~~= probe_jval(spec_probe_operation(name@)));
        }
        render_json(&v)
    }

    /// A probe output counts as healthy when it is non-empty and does not
    /// contain the word `error` in any case.
    pub fn healthy_output(&self, output: &str) -> (r: bool)
        ensures
            r == spec_healthy_output(output@),
    {
        let cs = chars_of(output);
        if cs.len() == 0 {
            return false;
        }
        let low = crate::text::lower_chars(&cs);
        let needle = chars_of("error");
        match find_sub(&low, &needle) {
            Some(_) => false,
            None => true,
        }
    }

    fn containing_search(&self, name: &str) -> (r: Option<usize>)
        ensures
            match r {
                Some(i) => containing_index(self.handles_v(), name@) == i as int,
                None => containing_index(self.handles_v(), name@) < 0,
            },
    {
        proof {
            lemma_containing_index(self.handles_v(), name@);
        }
        let needle = chars_of(name);
        let n = self.tools.len();
        let mut i: usize = 0;
        while i < n
            invariant
                n == self.tools@.len(),
                needle@ == name@,
                i <= n,
                forall|j: int|
                    0 <= j < i ==> !contains_sub((#[trigger] self.handles_v()[j]).name, name@),
            decreases n - i,
        {
            let hay = chars_of(self.tools[i].name.as_str());
            proof {
                assert(self.handles_v()[i as int] == self.tools@[i as int]@);
                assert(hay@ == self.handles_v()[i as int].name);
            }
            match find_sub(&hay, &needle) {
                Some(_) => {
                    proof {
                        assert(contains_sub(self.handles_v()[i as int].name, name@));
                        lemma_containing_index(self.handles_v(), name@);
                        assert(containing_index(self.handles_v(), name@) == i);
                    }
                    return Some(i);
                },
                None => {
                    proof {
                        assert(!contains_sub(self.handles_v()[i as int].name, name@));
                    }
                },
            }
            i += 1;
        }
        proof {
            lemma_containing_index(self.handles_v(), name@);
        }
        None
    }
}

/// Tool count, names and deadline, as one read-only report.
#[derive(Debug)]
pub struct DispatcherStats {
    pub total_tools: usize,
    pub tool_names: Vec<String>,
    pub timeout_seconds: u64,
}

/// The canned probe operation for a tool, by the kind its name shows.
pub open spec fn spec_probe_operation(name: Seq<char>) -> Seq<char> {
    if contains_sub(name, "math"@) {
        "1+1"@
    } else if contains_sub(name, "fetch"@) {
        "http://httpbin.org/status/200"@
    } else if contains_sub(name, "shell"@) {
        "echo hello"@
    } else {
        "ping"@
    }
}

/// The probe envelope: the operation, no arguments, no context.
pub open spec fn probe_jval(op: Seq<char>) -> SpecJson {
    SpecJson::Obj(
        seq![
            ("operation"@, SpecJson::Str(op)),
            ("args"@, SpecJson::Arr(Seq::<SpecJson>::empty())),
            ("context"@, SpecJson::Null),
        ],
    )
}

pub open spec fn spec_probe_input(name: Seq<char>) -> Seq<char> {
    spec_render(probe_jval(spec_probe_operation(name)))
}

fn probe_fields(op: &str) -> (r: Vec<(String, JsonValue)>)
    ensures
        jview_members(r@) =~~= seq![
            ("operation"@, SpecJson::Str(op@)),
            ("args"@, SpecJson::Arr(Seq::<SpecJson>::empty())),
            ("context"@, SpecJson::Null),
        ],
{
    let mut fields: Vec<(String, JsonValue)> = Vec::new();
    let ghost f0 = fields@;
    let p0 = (String::from_str("operation"), JsonValue::Str(String::from_str(op)));
    let ghost g0 = p0;
    fields.push(p0);
    let ghost f1 = fields@;
    let p1 = (String::from_str("args"), JsonValue::Arr(Vec::new()));
    let ghost g1 = p1;
    fields.push(p1);
    let ghost f2 = fields@;
    let p2 = (String::from_str("context"), JsonValue::Null);
    let ghost g2 = p2;
    fields.push(p2);
    proof {
        lemma_jview_members_push(f0, g0.0, g0.1);
        lemma_jview_members_push(f1, g1.0, g1.1);
        lemma_jview_members_push(f2, g2.0, g2.1);
        assert(jview_members(f0) =~= Seq::<(Seq<char>, SpecJson)>::empty());
        assert(jview_list(Seq::<JsonValue>::empty()) =~= Seq::<SpecJson>::empty());
    }
    fields
}

/// A probe output counts as healthy when it is non-empty and free of the
/// word `error` in any case.
pub open spec fn spec_healthy_output(out: Seq<char>) -> bool {
    out.len() > 0 && !contains_sub(crate::text::lower(out), "error"@)
}

/// The input envelope of the tool process protocol: the first argument as
/// the operation, the rest as arguments, and the action's context.
pub open spec fn envelope_jval(a: SpecAction) -> SpecJson {
    SpecJson::Obj(
        seq![
            ("operation"@, SpecJson::Str(a.args[0])),
            (
                "args"@,
                SpecJson::Arr(a.args.drop_first().map_values(|s: Seq<char>| SpecJson::Str(s))),
            ),
            (
                "context"@,
                match a.context {
                    Some(c) => SpecJson::Str(c),
                    None => SpecJson::Null,
                },
            ),
        ],
    )
}

/// Renders the input envelope an action is handed to its tool with.
pub fn build_tool_input(action: &ActionPlan) -> (r: String)
    requires
        action@.args.len() >= 1,
    ensures
        r@ == spec_render(envelope_jval(action@)),
{
    let ghost av = action@;
    let mut rest: Vec<JsonValue> = Vec::new();
    let n = action.args.len();
    let mut i: usize = 1;
    proof {
        assert(jview_list(rest@) =~= av.args.subrange(1, 1).map_values(
            |s: Seq<char>| SpecJson::Str(s),
        ));
    }
    while i < n
        invariant
            n == action.args@.len(),
            av == action@,
            av.args.len() == n,
            1 <= i <= n,
            jview_list(rest@) == av.args.subrange(1, i as int).map_values(
                |s: Seq<char>| SpecJson::Str(s),
            ),
        decreases n - i,
    {
        let ghost pre = rest@;
        let jv = JsonValue::Str(action.args[i].clone());
        let ghost jg = jv;
        rest.push(jv);
        proof {
            lemma_jview_list_push(pre, jg);
            assert(jview_list(rest@) =~= av.args.subrange(1, i + 1 as int).map_values(
                |s: Seq<char>| SpecJson::Str(s),
            ));
        }
        i += 1;
    }
    proof {
        assert(av.args.subrange(1, n as int) =~= av.args.drop_first());
    }
    let mut fields: Vec<(String, JsonValue)> = Vec::new();
    let ghost f0 = fields@;
    let p0 = (String::from_str("operation"), JsonValue::Str(action.args[0].clone()));
    let ghost g0 = p0;
    fields.push(p0);
    let ghost f1 = fields@;
    let p1 = (String::from_str("args"), JsonValue::Arr(rest));
    let ghost g1 = p1;
    fields.push(p1);
    let ghost f2 = fields@;
    let p2 = (
        String::from_str("context"),
        match &action.context {
            Some(c) => JsonValue::Str(c.clone()),
            None => JsonValue::Null,
        },
    );
    let ghost g2 = p2;
    fields.push(p2);
    let v = JsonValue::Obj(fields);
    proof {
        lemma_jview_members_push(f0, g0.0, g0.1);
        lemma_jview_members_push(f1, g1.0, g1.1);
        lemma_jview_members_push(f2, g2.0, g2.1);
        assert(jview_members(f0) =~= Seq::<(Seq<char>, SpecJson)>::empty());
        assert(jview(g0.1) == SpecJson::Str(av.args[0]));
        assert(jview(g1.1) =~~= SpecJson::Arr(av.args.drop_first().map_values(
            |s: Seq<char>| SpecJson::Str(s),
        )));
        assert(jview(g2.1) == (match av.context {
            Some(c) => SpecJson::Str(c),
            None => SpecJson::Null,
        }));
        assert(jview_members(fields@) =~~= seq![
            ("operation"@, SpecJson::Str(av.args[0])),
            (
                "args"@,
                SpecJson::Arr(av.args.drop_first().map_values(|s: Seq<char>| SpecJson::Str(s))),
            ),
            (
                "context"@,
                match av.context {
                    Some(c) => SpecJson::Str(c),
                    None => SpecJson::Null,
                },
            ),
        ]);
        assert(v@ =~~= envelope_jval(av));
    }
    render_json(&v)
}

/// The text taken from a tool's raw output: the rendered `result` field
/// when the output parses as a JSON object carrying one, else the trimmed
/// raw output.
pub open spec fn spec_interpret_output(out: Seq<char>) -> Seq<char> {
    match spec_parse_json(out) {
        Some(v) => match v {
            SpecJson::Obj(ms) => match obj_field(ms, "result"@) {
                Some(rv) => spec_render(rv),
                None => spec_trim(out),
            },
            _ => spec_trim(out),
        },
        None => spec_trim(out),
    }
}

pub fn interpret_tool_output(output: &str) -> (r: String)
    ensures
        r@ == spec_interpret_output(output@),
{
    match parse_json(output) {
        Some(v) => match &v {
            JsonValue::Obj(ms) => match crate::json::jobj_field(ms, "result") {
                Some(rv) => render_json(rv),
                None => string_from_chars(&trim_chars(&chars_of(output))),
            },
            _ => string_from_chars(&trim_chars(&chars_of(output))),
        },
        None => string_from_chars(&trim_chars(&chars_of(output))),
    }
}

/// How one action's execution ended, as the outside runner reports it.
pub enum ActionOutcome {
    /// The tool ran and wrote this output.
    Output(String),
    /// No backend could run the tool, or it failed; the message says why.
    Failed(String),
    /// The deadline elapsed before the tool finished.
    TimedOut,
}

#[verifier::ext_equal]
pub enum SpecOutcome {
    Output(Seq<char>),
    Failed(Seq<char>),
    TimedOut,
}

impl View for ActionOutcome {
    type V = SpecOutcome;

    open spec fn view(&self) -> SpecOutcome {
        match self {
            ActionOutcome::Output(o) => SpecOutcome::Output(o@),
            ActionOutcome::Failed(e) => SpecOutcome::Failed(e@),
            ActionOutcome::TimedOut => SpecOutcome::TimedOut,
        }
    }
}

/// Builds the result recorded for one executed action: output is
/// interpreted, a failure keeps its message, and a timeout is flagged with
/// its fixed message.
pub fn finish_action(tool_name: &str, outcome: &ActionOutcome, execution_time_ms: u64) -> (r:
    ToolResult)
    ensures
        r@.tool_name == tool_name@,
        r@.execution_time_ms == execution_time_ms,
        r@.metadata.len() == 0,
        match outcome@ {
            SpecOutcome::Output(o) => r@.success == true && r@.result == spec_interpret_output(o)
                && r@.error is None,
            SpecOutcome::Failed(e) => r@.success == false && r@.result.len() == 0 && r@.error
                == Some(e),
            SpecOutcome::TimedOut => r@.success == false && r@.result.len() == 0 && r@.error
                == Some("Tool execution timeout"@),
        },
{
    match outcome {
        ActionOutcome::Output(o) => {
            let text = interpret_tool_output(o.as_str());
            ToolResult::success(tool_name, text.as_str(), execution_time_ms)
        },
        ActionOutcome::Failed(e) => ToolResult::error(tool_name, e.as_str(), execution_time_ms),
        ActionOutcome::TimedOut => ToolResult::error(
            tool_name,
            "Tool execution timeout",
            execution_time_ms,
        ),
    }
}

/// Descending order of priorities.
pub open spec fn sorted_desc(s: Seq<SpecAction>) -> bool {
    forall|i: int, j: int|
        0 <= i <= j < s.len() ==> (#[trigger] s[i]).priority >= (#[trigger] s[j]).priority
}

/// The actions grouped by priority, highest group first, each group in
/// the original order: the stable descending sort.
pub open spec fn buckets_from(s: Seq<SpecAction>, p: int) -> Seq<SpecAction>
    decreases p + 1,
{
    if p < 0 {
        Seq::<SpecAction>::empty()
    } else {
        s.filter(|a: SpecAction| a.priority as int == p) + buckets_from(s, p - 1)
    }
}

proof fn lemma_filter_empty(s: Seq<SpecAction>, pred: spec_fn(SpecAction) -> bool)
    requires
        s.len() == 0,
    ensures
        s.filter(pred) =~= Seq::<SpecAction>::empty(),
{
    broadcast use vstd::seq_lib::group_filter_ensures;

    assert(s.filter(pred).len() <= s.len());
}

proof fn lemma_filter_filter(s: Seq<SpecAction>, p: int, q: int)
    ensures
        s.filter(|a: SpecAction| a.priority as int == p).filter(
            |a: SpecAction| a.priority as int == q,
        ) =~= if p == q {
            s.filter(|a: SpecAction| a.priority as int == p)
        } else {
            Seq::<SpecAction>::empty()
        },
    decreases s.len(),
{
    broadcast use vstd::seq_lib::group_filter_ensures, Seq::lemma_filter_push;

    if s.len() == 0 {
        lemma_filter_empty(s, |a: SpecAction| a.priority as int == p);
        lemma_filter_empty(
            s.filter(|a: SpecAction| a.priority as int == p),
            |a: SpecAction| a.priority as int == q,
        );
    } else {
        let init = s.drop_last();
        let last = s.last();
        lemma_filter_filter(init, p, q);
        assert(s =~= init.push(last));
        assert(init.push(last).filter(|a: SpecAction| a.priority as int == p) == if (
        last.priority as int == p) {
            init.filter(|a: SpecAction| a.priority as int == p).push(last)
        } else {
            init.filter(|a: SpecAction| a.priority as int == p)
        });
        if last.priority as int == p {
            let fp = init.filter(|a: SpecAction| a.priority as int == p);
            assert(fp.push(last).filter(|a: SpecAction| a.priority as int == q) == if (
            last.priority as int == q) {
                fp.filter(|a: SpecAction| a.priority as int == q).push(last)
            } else {
                fp.filter(|a: SpecAction| a.priority as int == q)
            });
        }
        assert(init.push(last).filter(|a: SpecAction| a.priority as int == q) == if (
        last.priority as int == q) {
            init.filter(|a: SpecAction| a.priority as int == q).push(last)
        } else {
            init.filter(|a: SpecAction| a.priority as int == q)
        });
    }
}

proof fn lemma_buckets_bound(s: Seq<SpecAction>, p: int)
    ensures
        forall|k: int|
            0 <= k < buckets_from(s, p).len() ==> (#[trigger] buckets_from(s, p)[k]).priority
                <= p,
    decreases p + 1,
{
    broadcast use vstd::seq_lib::group_filter_ensures;

    if p >= 0 {
        lemma_buckets_bound(s, p - 1);
        let f = s.filter(|a: SpecAction| a.priority as int == p);
        let rest = buckets_from(s, p - 1);
        assert forall|k: int|
            0 <= k < buckets_from(s, p).len() implies (#[trigger] buckets_from(s, p)[k]).priority
            <= p by {
            if k < f.len() {
                assert(buckets_from(s, p)[k] == f[k]);
            } else {
                assert(buckets_from(s, p)[k] == rest[k - f.len()]);
            }
        }
    }
}

proof fn lemma_buckets_sorted(s: Seq<SpecAction>, p: int)
    ensures
        sorted_desc(buckets_from(s, p)),
    decreases p + 1,
{
    broadcast use vstd::seq_lib::group_filter_ensures;

    if p < 0 {
    } else {
        lemma_buckets_sorted(s, p - 1);
        lemma_buckets_bound(s, p - 1);
        let f = s.filter(|a: SpecAction| a.priority as int == p);
        let rest = buckets_from(s, p - 1);
        let whole = buckets_from(s, p);
        assert forall|i: int, j: int|
            0 <= i <= j < whole.len() implies (#[trigger] whole[i]).priority >= (
        #[trigger] whole[j]).priority by {
            if i < f.len() {
                assert(whole[i] == f[i]);
                assert(f[i].priority as int == p);
                if j < f.len() {
                    assert(whole[j] == f[j]);
                } else {
                    assert(whole[j] == rest[j - f.len()]);
                }
            } else {
                assert(whole[i] == rest[i - f.len()]);
                assert(whole[j] == rest[j - f.len()]);
            }
        }
    }
}

proof fn lemma_buckets_filter(s: Seq<SpecAction>, p: int, q: int)
    requires
        0 <= q,
    ensures
        buckets_from(s, p).filter(|a: SpecAction| a.priority as int == q) =~= if q <= p {
            s.filter(|a: SpecAction| a.priority as int == q)
        } else {
            Seq::<SpecAction>::empty()
        },
    decreases p + 1,
{
    broadcast use vstd::seq_lib::group_filter_ensures;

    if p < 0 {
        lemma_filter_empty(buckets_from(s, p), |a: SpecAction| a.priority as int == q);
    } else {
        lemma_buckets_filter(s, p - 1, q);
        let f = s.filter(|a: SpecAction| a.priority as int == p);
        let rest = buckets_from(s, p - 1);
        Seq::filter_distributes_over_add(f, rest, |a: SpecAction| a.priority as int == q);
        lemma_filter_filter(s, p, q);
    }
}

/// The actions of one priority, in their original order.
pub open spec fn by_priority(s: Seq<SpecAction>, q: int) -> Seq<SpecAction> {
    s.filter(|a: SpecAction| a.priority as int == q)
}

/// The stable-sort law: ordering by priority leaves, within every
/// priority, exactly the original actions in their original order, and
/// the whole list descending.
pub proof fn lemma_priority_order_stable(s: Seq<SpecAction>)
    ensures
        sorted_desc(buckets_from(s, 255)),
        forall|q: int|
            0 <= q <= 255 ==> #[trigger] by_priority(buckets_from(s, 255), q) == by_priority(
                s,
                q,
            ),
{
    lemma_buckets_sorted(s, 255);
    assert forall|q: int|
        0 <= q <= 255 implies #[trigger] by_priority(buckets_from(s, 255), q) == by_priority(
        s,
        q,
    ) by {
        lemma_buckets_filter(s, 255, q);
    }
}

impl ToolDispatcher {
    /// The order a plan's actions run in: list order for the sequential
    /// and parallel strategies; the stable descending priority order for
    /// the priority strategy.
    #[verifier::loop_isolation(false)]
    pub fn order_for_execution(&self, plan: &ExecutionPlan) -> (r: Vec<ActionPlan>)
        ensures
            match plan.execution_strategy {
                ExecutionStrategy::Priority => action_views(r@) == buckets_from(
                    plan@.actions,
                    255,
                ),
                _ => action_views(r@) == plan@.actions,
            },
    {
        broadcast use vstd::seq_lib::group_filter_ensures, Seq::lemma_filter_push;

        let n = plan.actions.len();
        let ghost s = plan@.actions;
        let mut out: Vec<ActionPlan> = Vec::new();
        match plan.execution_strategy {
            ExecutionStrategy::Priority => {
                let mut pv: u32 = 256;
                proof {
                    assert(action_views(out@) + buckets_from(s, 255) =~= buckets_from(s, 255));
                }
                while pv > 0
                    invariant
                        n == plan.actions@.len(),
                        s == plan@.actions,
                        pv <= 256,
                        action_views(out@) + buckets_from(s, pv as int - 1) == buckets_from(
                            s,
                            255,
                        ),
                    decreases pv,
                {
                    pv = pv - 1;
                    let ghost fl = s.filter(|a: SpecAction| a.priority as int == pv as int);
                    let ghost pre_outer = out@;
                    let mut j: usize = 0;
                    proof {
                        assert(s.subrange(0, 0).len() == 0);
                        lemma_filter_empty(
                            s.subrange(0, 0),
                            |a: SpecAction| a.priority as int == pv as int,
                        );
                        assert(action_views(out@) =~= action_views(pre_outer) + s.subrange(
                            0,
                            0,
                        ).filter(|a: SpecAction| a.priority as int == pv as int));
                    }
                    while j < n
                        invariant
                            n == plan.actions@.len(),
                            s == plan@.actions,
                            s.len() == n,
                            j <= n,
                            action_views(out@) == action_views(pre_outer) + s.subrange(
                                0,
                                j as int,
                            ).filter(|a: SpecAction| a.priority as int == pv as int),
                        decreases n - j,
                    {
                        let ghost prefix = s.subrange(0, j as int);
                        proof {
                            assert(s.subrange(0, j + 1 as int) =~= prefix.push(s[j as int]));
                            assert(prefix.push(s[j as int]).filter(
                                |a: SpecAction| a.priority as int == pv as int,
                            ) == if (s[j as int].priority as int == pv as int) {
                                prefix.filter(
                                    |a: SpecAction| a.priority as int == pv as int,
                                ).push(s[j as int])
                            } else {
                                prefix.filter(|a: SpecAction| a.priority as int == pv as int)
                            });
                        }
                        let a = &plan.actions[j];
                        if (a.priority as u32) == pv {
                            let d = a.duplicate();
                            let ghost dg = d@;
                            let ghost pre = out@;
                            out.push(d);
                            proof {
                                assert(action_views(out@) =~= action_views(pre).push(dg));
                                assert(dg == s[j as int]);
                            }
                        }
                        j += 1;
                    }
                    proof {
                        assert(s.subrange(0, n as int) =~= s);
                        assert(buckets_from(s, pv as int) == fl + buckets_from(s, pv as int - 1));
                        assert(action_views(out@) + buckets_from(s, pv as int - 1)
                            =~= buckets_from(s, 255)) by {
                            assert(action_views(out@) =~= action_views(pre_outer) + fl);
                            assert((action_views(pre_outer) + fl) + buckets_from(
                                s,
                                pv as int - 1,
                            ) =~= action_views(pre_outer) + (fl + buckets_from(s, pv as int - 1)));
                        }
                    }
                }
                proof {
                    assert(buckets_from(s, -1).len() == 0);
                    assert(action_views(out@) + buckets_from(s, -1) =~= action_views(out@));
                }
                out
            },
            _ => {
                let mut i: usize = 0;
                while i < n
                    invariant
                        n == plan.actions@.len(),
                        s == plan@.actions,
                        s.len() == n,
                        i <= n,
                        action_views(out@) == s.subrange(0, i as int),
                    decreases n - i,
                {
                    let d = plan.actions[i].duplicate();
                    let ghost dg = d@;
                    let ghost pre = out@;
                    out.push(d);
                    proof {
                        assert(action_views(out@) =~= action_views(pre).push(dg));
                        assert(action_views(out@) =~= s.subrange(0, i + 1 as int));
                    }
                    i += 1;
                }
                proof {
                    assert(s.subrange(0, n as int) =~= s);
                }
                out
            },
        }
    }
}

/// The result recorded for a parallel launch that could not even start.
pub open spec fn spec_parallel_slot(o: Result<ToolResult, String>) -> SpecToolResult {
    match o {
        Ok(t) => t@,
        Err(m) => SpecToolResult {
            success: false,
            result: Seq::<char>::empty(),
            error: Some(m@),
            execution_time_ms: 0,
            tool_name: "unknown"@,
            metadata: Seq::<(Seq<char>, Seq<char>)>::empty(),
        },
    }
}

/// Collects a parallel wave: one result per launched action, in launch
/// order; a launch that failed outright becomes a synthetic error result,
/// so the count always equals the action count.
pub fn assemble_parallel_results(outcomes: Vec<Result<ToolResult, String>>) -> (r: Vec<
    ToolResult,
>)
    ensures
        r@.len() == outcomes@.len(),
        forall|i: int|
            0 <= i < outcomes@.len() ==> (#[trigger] r@[i])@ == spec_parallel_slot(outcomes@[i]),
{
    let ghost orig = outcomes@;
    let n0 = outcomes.len();
    let mut rest = outcomes;
    let mut r: Vec<ToolResult> = Vec::new();
    let mut k: usize = 0;
    while rest.len() > 0
        invariant
            n0 == orig.len(),
            k + rest@.len() == orig.len(),
            rest@ =~= orig.skip(k as int),
            r@.len() == k,
            forall|i: int|
                0 <= i < k ==> (#[trigger] r@[i])@ == spec_parallel_slot(orig[i]),
        decreases rest@.len(),
    {
        let o = rest.remove(0);
        proof {
            assert(orig.skip(k as int)[0] == orig[k as int]);
            assert(rest@ =~= orig.skip(k as int + 1));
        }
        match o {
            Ok(t) => {
                r.push(t);
            },
            Err(m) => {
                r.push(ToolResult::error("unknown", m.as_str(), 0));
            },
        }
        k += 1;
    }
    proof {
        assert(orig.skip(k as int).len() == 0);
    }
    r
}

} // verus!
