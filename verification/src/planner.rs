//! The plan parser: action and plan types, the tool registry the parser
//! validates against, and the three-tier parsing cascade that turns model
//! output into an execution plan.

use vstd::prelude::*;
use vstd::string::StringExecFns;

use crate::json::{JsonValue, SpecJson, jview, jview_list, jview_members, obj_field, jobj_field,
    spec_parse_json, parse_json_chars};
use crate::scan::{find_use_tool_spec, find_paren_spec, find_math_spec, find_sqrt_spec,
    find_caret_spec, find_url_spec, find_use_tool, find_paren, find_math, find_sqrt, find_caret,
    find_url, spec_lines, split_lines};
use crate::text::{chars_of, string_from_chars, str_eq, spec_trim, trim_chars, lower, lower_chars,
    contains_sub, find_sub, is_sub_at, spec_hex, push_u64_hex};

verus! {

broadcast use vstd::seq::group_seq_axioms, vstd::std_specs::vec::group_vec_axioms,
    vstd::string::group_string_axioms;

/// Views of a vector of strings.
pub open spec fn strs_views(ss: Seq<String>) -> Seq<Seq<char>> {
    ss.map_values(|x: String| x@)
}

/// One requested tool invocation.
#[derive(Clone, Debug)]
pub struct ActionPlan {
    pub tool: String,
    pub args: Vec<String>,
    pub context: Option<String>,
    pub reasoning: Option<String>,
    pub priority: u8,
}

/// The mathematical shape of an action.
#[verifier::ext_equal]
pub struct SpecAction {
    pub tool: Seq<char>,
    pub args: Seq<Seq<char>>,
    pub context: Option<Seq<char>>,
    pub reasoning: Option<Seq<char>>,
    pub priority: u8,
}

impl View for ActionPlan {
    type V = SpecAction;

    open spec fn view(&self) -> SpecAction {
        SpecAction {
            tool: self.tool@,
            args: strs_views(self.args@),
            context: match self.context {
                Some(c) => Some(c@),
                None => None,
            },
            reasoning: match self.reasoning {
                Some(c) => Some(c@),
                None => None,
            },
            priority: self.priority,
        }
    }
}

/// How a plan's actions are run.
#[derive(Clone, Copy, Debug, PartialEq, Eq, Structural)]
pub enum ExecutionStrategy {
    Sequential,
    Parallel,
    Priority,
}

/// An ordered list of actions with a strategy and a per-action timeout.
#[derive(Debug)]
pub struct ExecutionPlan {
    pub actions: Vec<ActionPlan>,
    pub execution_strategy: ExecutionStrategy,
    pub timeout_seconds: u64,
}

#[verifier::ext_equal]
pub struct SpecPlan {
    pub actions: Seq<SpecAction>,
    pub strategy: ExecutionStrategy,
    pub timeout_seconds: u64,
}

pub open spec fn action_views(s: Seq<ActionPlan>) -> Seq<SpecAction> {
    s.map_values(|a: ActionPlan| a@)
}

impl View for ExecutionPlan {
    type V = SpecPlan;

    open spec fn view(&self) -> SpecPlan {
        SpecPlan {
            actions: action_views(self.actions@),
            strategy: self.execution_strategy,
            timeout_seconds: self.timeout_seconds,
        }
    }
}

/// What the planner knows about one tool.
#[derive(Clone, Debug)]
pub struct ToolDefinition {
    pub name: String,
    pub description: String,
    pub parameters: Vec<String>,
    pub examples: Vec<String>,
}

#[verifier::ext_equal]
pub struct SpecToolDef {
    pub name: Seq<char>,
    pub description: Seq<char>,
    pub parameters: Seq<Seq<char>>,
    pub examples: Seq<Seq<char>>,
}

impl View for ToolDefinition {
    type V = SpecToolDef;

    open spec fn view(&self) -> SpecToolDef {
        SpecToolDef {
            name: self.name@,
            description: self.description@,
            parameters: strs_views(self.parameters@),
            examples: strs_views(self.examples@),
        }
    }
}

pub open spec fn tool_views(s: Seq<ToolDefinition>) -> Seq<SpecToolDef> {
    s.map_values(|t: ToolDefinition| t@)
}

/// Why parsing failed.
#[derive(Debug, Clone)]
pub enum PlanError {
    /// A known tool was named without any argument.
    MissingArguments { tool: String },
    /// The named tool is not registered, directly or through an alias.
    UnknownTool { tool: String },
    /// No parsing strategy produced a plan; the original text is kept.
    Unparseable { response: String },
    /// The text is not one of the structured JSON forms.
    InvalidJson,
    /// No line held a valid tool command.
    NoToolCommands,
    /// No heuristic found an action.
    NoHeuristicActions,
    /// An action list held nothing valid.
    NoValidActions,
}

impl ActionPlan {
    pub fn new(tool: &str, args: Vec<String>) -> (r: ActionPlan)
        ensures
            r@.tool == tool@,
            r@.args == strs_views(args@),
            r@.context is None,
            r@.reasoning is None,
            r@.priority == 5,
    {
        ActionPlan {
            tool: String::from_str(tool),
            args,
            context: None,
            reasoning: None,
            priority: 5,
        }
    }

    pub fn with_context(self, context: &str) -> (r: ActionPlan)
        ensures
            r@ == (SpecAction { context: Some(context@), ..self@ }),
    {
        let mut a = self;
        a.context = Some(String::from_str(context));
        a
    }

    pub fn with_reasoning(self, reasoning: &str) -> (r: ActionPlan)
        ensures
            r@ == (SpecAction { reasoning: Some(reasoning@), ..self@ }),
    {
        let mut a = self;
        a.reasoning = Some(String::from_str(reasoning));
        a
    }

    /// Sets the priority, clamped into 1 to 10.
    pub fn with_priority(self, priority: u8) -> (r: ActionPlan)
        ensures
            r@ == (SpecAction { priority: clamp_priority(priority), ..self@ }),
    {
        let mut a = self;
        a.priority = if priority < 1 {
            1
        } else if priority > 10 {
            10
        } else {
            priority
        };
        a
    }

    /// A copy with the same value.
    pub fn duplicate(&self) -> (r: ActionPlan)
        ensures
            r@ == self@,
    {
        let r = ActionPlan {
            tool: self.tool.clone(),
            args: clone_strings(&self.args),
            context: match &self.context {
                Some(c) => Some(c.clone()),
                None => None,
            },
            reasoning: match &self.reasoning {
                Some(c) => Some(c.clone()),
                None => None,
            },
            priority: self.priority,
        };
        proof {
            assert(r@ =~= self@);
        }
        r
    }

    /// The cache fingerprint: the tool name, an underscore, and the hash of
    /// the tool and arguments in hexadecimal.
    pub fn cache_key(&self) -> (r: String)
        ensures
            r@ == spec_action_cache_key(self@),
    {
        let tool_chars = chars_of(self.tool.as_str());
        let mut h = fnv_chars_exec(FNV_OFFSET, &tool_chars);
        let n = self.args.len();
        let mut i: usize = 0;
        while i < n
            invariant
                n == self.args@.len(),
                i <= n,
                h == fnv_args(fnv_chars(FNV_OFFSET, self.tool@), strs_views(self.args@).subrange(
                    0,
                    i as int,
                )),
            decreases n - i,
        {
            let arg_chars = chars_of(self.args[i].as_str());
            h = fnv_chars_exec(fnv_mix(h, '\u{1f}'), &arg_chars);
            proof {
                lemma_fnv_args_snoc(
                    fnv_chars(FNV_OFFSET, self.tool@),
                    strs_views(self.args@),
                    i as int,
                );
            }
            i += 1;
        }
        proof {
            assert(strs_views(self.args@).subrange(0, strs_views(self.args@).len() as int)
                =~= strs_views(self.args@));
        }
        let mut out = chars_of(self.tool.as_str());
        out.push('_');
        push_u64_hex(&mut out, h);
        proof {
            assert(out@ =~= spec_action_cache_key(self@));
        }
        string_from_chars(&out)
    }
}

pub open spec fn clamp_priority(p: u8) -> u8 {
    if p < 1 {
        1
    } else if p > 10 {
        10
    } else {
        p
    }
}

fn clone_strings(v: &Vec<String>) -> (r: Vec<String>)
    ensures
        strs_views(r@) == strs_views(v@),
        r@.len() == v@.len(),
{
    let mut r: Vec<String> = Vec::new();
    let mut i: usize = 0;
    while i < v.len()
        invariant
            i <= v@.len(),
            r@.len() == i,
            forall|j: int| 0 <= j < i ==> r@[j]@ == (#[trigger] v@[j])@,
        decreases v@.len() - i,
    {
        r.push(v[i].clone());
        i += 1;
    }
    proof {
        assert(strs_views(r@) =~= strs_views(v@));
    }
    r
}

/// The hash offset the fingerprint starts from.
pub open spec fn spec_fnv_offset() -> u64 {
    0xcbf29ce484222325
}

const FNV_OFFSET: u64 = 0xcbf29ce484222325;

/// One mixing step of the fingerprint hash.
pub open spec fn fnv_mix_spec(h: u64, c: char) -> u64 {
    ((((h ^ ((c as u32) as u64)) as u128) * 0x100000001b3) % 0x10000000000000000) as u64
}

fn fnv_mix(h: u64, c: char) -> (r: u64)
    ensures
        r == fnv_mix_spec(h, c),
{
    let x: u128 = ((h ^ ((c as u32) as u64)) as u128) * 0x100000001b3;
    (x % 0x10000000000000000) as u64
}

pub open spec fn fnv_chars(h: u64, s: Seq<char>) -> u64
    decreases s.len(),
{
    if s.len() == 0 {
        h
    } else {
        fnv_chars(fnv_mix_spec(h, s[0]), s.drop_first())
    }
}

fn fnv_chars_exec(h0: u64, s: &Vec<char>) -> (r: u64)
    ensures
        r == fnv_chars(h0, s@),
{
    let n = s.len();
    let mut h = h0;
    let mut i: usize = 0;
    proof {
        assert(s@.skip(0) =~= s@);
    }
    while i < n
        invariant
            n == s@.len(),
            i <= n,
            fnv_chars(h0, s@) == fnv_chars(h, s@.skip(i as int)),
        decreases n - i,
    {
        proof {
            assert(s@.skip(i as int)[0] == s@[i as int]);
            assert(s@.skip(i as int).drop_first() =~= s@.skip(i + 1));
        }
        h = fnv_mix(h, s[i]);
        i += 1;
    }
    proof {
        assert(s@.skip(n as int).len() == 0);
    }
    h
}

pub open spec fn fnv_args(h: u64, args: Seq<Seq<char>>) -> u64
    decreases args.len(),
{
    if args.len() == 0 {
        h
    } else {
        fnv_args(fnv_chars(fnv_mix_spec(h, '\u{1f}'), args[0]), args.drop_first())
    }
}

proof fn lemma_fnv_args_snoc(h: u64, args: Seq<Seq<char>>, i: int)
    requires
        0 <= i < args.len(),
    ensures
        fnv_args(h, args.subrange(0, i + 1)) == fnv_chars(
            fnv_mix_spec(fnv_args(h, args.subrange(0, i)), '\u{1f}'),
            args[i],
        ),
    decreases i,
{
    if i == 0 {
        let one = args.subrange(0, 1);
        assert(one[0] == args[0]);
        assert(one.drop_first().len() == 0);
        assert(args.subrange(0, 0).len() == 0);
        assert(fnv_args(h, args.subrange(0, 0)) == h);
        assert(fnv_args(fnv_chars(fnv_mix_spec(h, '\u{1f}'), one[0]), one.drop_first())
            == fnv_chars(fnv_mix_spec(h, '\u{1f}'), args[0]));
    } else {
        let a = args.subrange(0, i + 1);
        let b = args.subrange(0, i);
        let tail = args.subrange(1, args.len() as int);
        assert(a.drop_first() =~= tail.subrange(0, i));
        assert(b.drop_first() =~= tail.subrange(0, i - 1));
        assert(a[0] == args[0] && b[0] == args[0]);
        lemma_fnv_args_snoc(fnv_chars(fnv_mix_spec(h, '\u{1f}'), args[0]), tail, i - 1);
        assert(tail[i - 1] == args[i]);
    }
}

/// The fingerprint of an action: a function of the tool and arguments
/// alone.
pub open spec fn spec_cache_key(tool: Seq<char>, args: Seq<Seq<char>>) -> Seq<char> {
    tool + seq!['_'] + spec_hex(fnv_args(fnv_chars(spec_fnv_offset(), tool), args) as nat)
}

pub open spec fn spec_action_cache_key(a: SpecAction) -> Seq<char> {
    spec_cache_key(a.tool, a.args)
}

/// Two actions with the same tool and arguments share a cache key, however
/// their context, reasoning and priority differ.
pub proof fn lemma_cache_key_same(a: SpecAction, b: SpecAction)
    requires
        a.tool == b.tool,
        a.args == b.args,
    ensures
        spec_action_cache_key(a) == spec_action_cache_key(b),
{
}

/// A tool of this exact name is registered.
pub open spec fn known_direct(ts: Seq<SpecToolDef>, name: Seq<char>) -> bool {
    exists|j: int| 0 <= j < ts.len() && (#[trigger] ts[j]).name == name
}

/// The well-known generic tool names.
pub open spec fn is_alias(name: Seq<char>) -> bool {
    name == "math"@ || name == "fetch"@ || name == "shell"@
}

/// An alias resolves when some registered name contains it.
pub open spec fn known_alias(ts: Seq<SpecToolDef>, name: Seq<char>) -> bool {
    is_alias(name) && exists|j: int|
        0 <= j < ts.len() && contains_sub((#[trigger] ts[j]).name, name)
}

/// The named tool resolves, directly or through an alias.
pub open spec fn tool_known(ts: Seq<SpecToolDef>, name: Seq<char>) -> bool {
    known_direct(ts, name) || known_alias(ts, name)
}

/// An action passes validation: its tool resolves and it has an argument.
pub open spec fn action_ok(ts: Seq<SpecToolDef>, a: SpecAction) -> bool {
    tool_known(ts, a.tool) && a.args.len() > 0
}

/// Index of the first registered tool with this exact name, or -1.
pub open spec fn name_index(ts: Seq<SpecToolDef>, name: Seq<char>) -> int
    decreases ts.len(),
{
    if ts.len() == 0 {
        -1
    } else if ts[0].name == name {
        0
    } else {
        let r = name_index(ts.drop_first(), name);
        if r < 0 {
            -1
        } else {
            r + 1
        }
    }
}

pub proof fn lemma_name_index(ts: Seq<SpecToolDef>, name: Seq<char>)
    ensures
        -1 <= name_index(ts, name) < ts.len(),
        name_index(ts, name) >= 0 ==> ts[name_index(ts, name)].name == name,
        forall|j: int|
            0 <= j < ts.len() && j < name_index(ts, name) ==> (#[trigger] ts[j]).name != name,
        name_index(ts, name) < 0 ==> forall|j: int|
            0 <= j < ts.len() ==> (#[trigger] ts[j]).name != name,
    decreases ts.len(),
{
    if ts.len() > 0 && ts[0].name != name {
        lemma_name_index(ts.drop_first(), name);
        assert(forall|j: int| 1 <= j < ts.len() ==> ts.drop_first()[j - 1] == #[trigger] ts[j]);
    }
}

/// Index of the first registered tool whose name contains the given text,
/// or -1.
pub open spec fn contains_index(ts: Seq<SpecToolDef>, name: Seq<char>) -> int
    decreases ts.len(),
{
    if ts.len() == 0 {
        -1
    } else if contains_sub(ts[0].name, name) {
        0
    } else {
        let r = contains_index(ts.drop_first(), name);
        if r < 0 {
            -1
        } else {
            r + 1
        }
    }
}

pub proof fn lemma_contains_index(ts: Seq<SpecToolDef>, name: Seq<char>)
    ensures
        -1 <= contains_index(ts, name) < ts.len(),
        contains_index(ts, name) >= 0 ==> contains_sub(ts[contains_index(ts, name)].name, name),
        forall|j: int|
            0 <= j < ts.len() && j < contains_index(ts, name) ==> !contains_sub(
                (#[trigger] ts[j]).name,
                name,
            ),
        contains_index(ts, name) < 0 ==> forall|j: int|
            0 <= j < ts.len() ==> !contains_sub((#[trigger] ts[j]).name, name),
    decreases ts.len(),
{
    if ts.len() > 0 && !contains_sub(ts[0].name, name) {
        lemma_contains_index(ts.drop_first(), name);
        assert(forall|j: int| 1 <= j < ts.len() ==> ts.drop_first()[j - 1] == #[trigger] ts[j]);
    }
}

/// The registry of tools the parser validates against.
#[derive(Debug)]
pub struct Planner {
    tools: Vec<ToolDefinition>,
    default_timeout: u64,
}

impl Planner {
    /// The registered tools, in registration order.
    pub closed spec fn tools_v(&self) -> Seq<SpecToolDef> {
        tool_views(self.tools@)
    }

    pub closed spec fn timeout_v(&self) -> u64 {
        self.default_timeout
    }

    pub fn new() -> (r: Planner)
        ensures
            r.tools_v() =~= Seq::<SpecToolDef>::empty(),
            r.timeout_v() == 30,
    {
        Planner { tools: Vec::new(), default_timeout: 30 }
    }

    /// Stores or overwrites the definition under its name.
    pub fn register_tool(&mut self, tool: ToolDefinition)
        ensures
            final(self).tools_v() == if known_direct(old(self).tools_v(), tool@.name) {
                old(self).tools_v().update(name_index(old(self).tools_v(), tool@.name), tool@)
            } else {
                old(self).tools_v().push(tool@)
            },
            final(self).timeout_v() == old(self).timeout_v(),
    {
        proof {
            lemma_name_index(old(self).tools_v(), tool@.name);
        }
        let n = self.tools.len();
        let mut i: usize = 0;
        while i < n
            invariant
                n == self.tools@.len(),
                i <= n,
                *self == *old(self),
                forall|j: int| 0 <= j < i ==> (#[trigger] self.tools_v()[j]).name != tool@.name,
            decreases n - i,
        {
            if str_eq(self.tools[i].name.as_str(), tool.name.as_str()) {
                proof {
                    assert(self.tools_v()[i as int].name == tool@.name);
                    lemma_name_index(self.tools_v(), tool@.name);
                    assert(name_index(self.tools_v(), tool@.name) == i);
                }
                self.tools[i] = tool;
                proof {
                    assert(self.tools_v() =~= old(self).tools_v().update(
                        name_index(old(self).tools_v(), tool@.name),
                        tool@,
                    ));
                }
                return ;
            }
            i += 1;
        }
        proof {
            assert(!known_direct(self.tools_v(), tool@.name));
        }
        self.tools.push(tool);
        proof {
            assert(self.tools_v() =~= old(self).tools_v().push(tool@));
        }
    }

    /// Read access to the registered tools.
    pub fn get_available_tools(&self) -> (r: &Vec<ToolDefinition>)
        ensures
            tool_views(r@) == self.tools_v(),
    {
        &self.tools
    }

    fn known_direct_check(&self, name: &str) -> (r: bool)
        ensures
            r == known_direct(self.tools_v(), name@),
    {
        let n = self.tools.len();
        let mut i: usize = 0;
        while i < n
            invariant
                n == self.tools@.len(),
                i <= n,
                forall|j: int| 0 <= j < i ==> (#[trigger] self.tools_v()[j]).name != name@,
            decreases n - i,
        {
            if str_eq(self.tools[i].name.as_str(), name) {
                proof {
                    assert(self.tools_v()[i as int].name == name@);
                }
                return true;
            }
            i += 1;
        }
        false
    }

    /// Index of the first registered name containing the given text.
    fn contains_search(&self, name: &str) -> (r: Option<usize>)
        ensures
            match r {
                Some(i) => contains_index(self.tools_v(), name@) == i as int,
                None => contains_index(self.tools_v(), name@) < 0,
            },
    {
        proof {
            lemma_contains_index(self.tools_v(), name@);
        }
        let needle = chars_of(name);
        let n = self.tools.len();
        let mut i: usize = 0;
        while i < n
            invariant
                n == self.tools@.len(),
                needle@ == name@,
                i <= n,
                forall|j: int|
                    0 <= j < i ==> !contains_sub((#[trigger] self.tools_v()[j]).name, name@),
            decreases n - i,
        {
            let hay = chars_of(self.tools[i].name.as_str());
            proof {
                assert(self.tools_v()[i as int] == self.tools@[i as int]@);
                assert(hay@ == self.tools_v()[i as int].name);
            }
            match find_sub(&hay, &needle) {
                Some(_) => {
                    proof {
                        assert(contains_sub(self.tools_v()[i as int].name, name@));
                        lemma_contains_index(self.tools_v(), name@);
                        assert(contains_index(self.tools_v(), name@) == i);
                    }
                    return Some(i);
                },
                None => {
                    proof {
                        assert(!contains_sub(self.tools_v()[i as int].name, name@));
                    }
                },
            }
            i += 1;
        }
        proof {
            lemma_contains_index(self.tools_v(), name@);
        }
        None
    }

    fn alias_check(&self, name: &str) -> (r: bool)
        ensures
            r == is_alias(name@),
    {
        str_eq(name, "math") || str_eq(name, "fetch") || str_eq(name, "shell")
    }

    /// Checks that an action names a resolvable tool and carries at least
    /// one argument; says which requirement failed.
    fn validate_action(&self, action: &ActionPlan) -> (r: Result<(), PlanError>)
        ensures
            match r {
                Ok(()) => action_ok(self.tools_v(), action@),
                Err(e) => match e {
                    PlanError::MissingArguments { tool } => tool_known(self.tools_v(), action@.tool)
                        && action@.args.len() == 0 && tool@ == action@.tool,
                    PlanError::UnknownTool { tool } => !tool_known(self.tools_v(), action@.tool)
                        && tool@ == action@.tool,
                    _ => false,
                },
            },
    {
        if self.known_direct_check(action.tool.as_str()) {
            if action.args.len() == 0 {
                return Err(PlanError::MissingArguments { tool: action.tool.clone() });
            }
            return Ok(());
        }
        let aliased = if self.alias_check(action.tool.as_str()) {
            self.contains_search(action.tool.as_str())
        } else {
            None
        };
        proof {
            lemma_contains_index(self.tools_v(), action@.tool);
        }
        match aliased {
            Some(i) => {
                if action.args.len() == 0 {
                    return Err(PlanError::MissingArguments { tool: action.tool.clone() });
                }
                proof {
                    assert(contains_sub(self.tools_v()[i as int].name, action@.tool));
                }
                Ok(())
            },
            None => Err(PlanError::UnknownTool { tool: action.tool.clone() }),
        }
    }

    /// Index of the first action that fails validation, or -1.
    pub open spec fn first_bad(ts: Seq<SpecToolDef>, s: Seq<SpecAction>) -> int
        decreases s.len(),
    {
        if s.len() == 0 {
            -1
        } else if !action_ok(ts, s[0]) {
            0
        } else {
            let r = Self::first_bad(ts, s.drop_first());
            if r < 0 {
                -1
            } else {
                r + 1
            }
        }
    }

    /// Validates every action; fails on the first invalid one, or when the
    /// list is empty.
    fn validate_actions(&self, actions: Vec<ActionPlan>) -> (r: Result<
        Vec<ActionPlan>,
        PlanError,
    >)
        ensures
            match r {
                Ok(out) => action_views(out@) == action_views(actions@) && actions@.len() > 0
                    && Self::first_bad(self.tools_v(), action_views(actions@)) < 0,
                Err(_) => actions@.len() == 0 || Self::first_bad(
                    self.tools_v(),
                    action_views(actions@),
                ) >= 0,
            },
    {
        let ghost avs = action_views(actions@);
        proof {
            lemma_first_bad(self.tools_v(), avs);
        }
        let n = actions.len();
        let mut i: usize = 0;
        while i < n
            invariant
                n == actions@.len(),
                avs == action_views(actions@),
                i <= n,
                forall|j: int| 0 <= j < i ==> action_ok(self.tools_v(), #[trigger] avs[j]),
            decreases n - i,
        {
            match self.validate_action(&actions[i]) {
                Ok(()) => {},
                Err(e) => {
                    proof {
                        assert(!action_ok(self.tools_v(), avs[i as int]));
                        lemma_first_bad(self.tools_v(), avs);
                        assert(Self::first_bad(self.tools_v(), avs) >= 0);
                    }
                    return Err(e);
                },
            }
            i += 1;
        }
        if n == 0 {
            return Err(PlanError::NoValidActions);
        }
        proof {
            lemma_first_bad(self.tools_v(), avs);
        }
        Ok(actions)
    }
}

/// Decoded string-array elements; `None` when one is no string.
pub open spec fn strs_of_elems(es: Seq<SpecJson>) -> Option<Seq<Seq<char>>>
    decreases es.len(),
{
    if es.len() == 0 {
        Some(Seq::<Seq<char>>::empty())
    } else {
        match es[0] {
            SpecJson::Str(s) => match strs_of_elems(es.drop_first()) {
                Some(rest) => Some(seq![s] + rest),
                None => None,
            },
            _ => None,
        }
    }
}

/// An optional text field: absent or null reads as `None`; any value
/// other than a string is invalid.
pub open spec fn opt_str_field(ms: Seq<(Seq<char>, SpecJson)>, key: Seq<char>) -> Option<
    Option<Seq<char>>,
> {
    match obj_field(ms, key) {
        None => Some(None),
        Some(SpecJson::Null) => Some(None),
        Some(SpecJson::Str(s)) => Some(Some(s)),
        Some(_) => None,
    }
}

/// The priority field: absent reads as 5; a number too large for a byte,
/// or any non-number, is invalid.
pub open spec fn priority_field(ms: Seq<(Seq<char>, SpecJson)>) -> Option<u8> {
    match obj_field(ms, "priority"@) {
        None => Some(5),
        Some(SpecJson::Num(n)) => if n <= 255 {
            Some(n as u8)
        } else {
            None
        },
        Some(_) => None,
    }
}

/// One action decoded from a JSON object.
pub open spec fn action_of_jval(v: SpecJson) -> Option<SpecAction> {
    match v {
        SpecJson::Obj(ms) => match obj_field(ms, "tool"@) {
            Some(SpecJson::Str(tool)) => match obj_field(ms, "args"@) {
                Some(SpecJson::Arr(es)) => match strs_of_elems(es) {
                    Some(args) => match opt_str_field(ms, "context"@) {
                        Some(context) => match opt_str_field(ms, "reasoning"@) {
                            Some(reasoning) => match priority_field(ms) {
                                Some(p) => Some(
                                    SpecAction {
                                        tool: tool,
                                        args: args,
                                        context: context,
                                        reasoning: reasoning,
                                        priority: p,
                                    },
                                ),
                                None => None,
                            },
                            None => None,
                        },
                        None => None,
                    },
                    None => None,
                },
                _ => None,
            },
            _ => None,
        },
        _ => None,
    }
}

pub open spec fn actions_of_elems(es: Seq<SpecJson>) -> Option<Seq<SpecAction>>
    decreases es.len(),
{
    if es.len() == 0 {
        Some(Seq::<SpecAction>::empty())
    } else {
        match action_of_jval(es[0]) {
            Some(a) => match actions_of_elems(es.drop_first()) {
                Some(rest) => Some(seq![a] + rest),
                None => None,
            },
            None => None,
        }
    }
}

pub open spec fn strategy_of(v: SpecJson) -> Option<ExecutionStrategy> {
    match v {
        SpecJson::Str(s) => if s == "Sequential"@ {
            Some(ExecutionStrategy::Sequential)
        } else if s == "Parallel"@ {
            Some(ExecutionStrategy::Parallel)
        } else if s == "Priority"@ {
            Some(ExecutionStrategy::Priority)
        } else {
            None
        },
        _ => None,
    }
}

/// A whole plan object decoded from JSON.
pub open spec fn plan_of_jval(v: SpecJson) -> Option<SpecPlan> {
    match v {
        SpecJson::Obj(ms) => match obj_field(ms, "actions"@) {
            Some(SpecJson::Arr(es)) => match actions_of_elems(es) {
                Some(acts) => match obj_field(ms, "execution_strategy"@) {
                    Some(sv) => match strategy_of(sv) {
                        Some(st) => match obj_field(ms, "timeout_seconds"@) {
                            Some(SpecJson::Num(t)) => Some(
                                SpecPlan { actions: acts, strategy: st, timeout_seconds: t },
                            ),
                            _ => None,
                        },
                        None => None,
                    },
                    None => None,
                },
                None => None,
            },
            _ => None,
        },
        _ => None,
    }
}

pub open spec fn list_of_jval(v: SpecJson) -> Option<Seq<SpecAction>> {
    match v {
        SpecJson::Arr(es) => actions_of_elems(es),
        _ => None,
    }
}

/// The structured tier: a single action object, a list of action objects,
/// or a whole plan object, each validated.
pub open spec fn spec_tier1(ts: Seq<SpecToolDef>, s: Seq<char>, timeout: u64) -> Option<
    SpecPlan,
> {
    match spec_parse_json(s) {
        None => None,
        Some(v) => match action_of_jval(v) {
            Some(a) => if action_ok(ts, a) {
                Some(
                    SpecPlan {
                        actions: seq![a],
                        strategy: ExecutionStrategy::Sequential,
                        timeout_seconds: timeout,
                    },
                )
            } else {
                None
            },
            None => match list_of_jval(v) {
                Some(acts) => if acts.len() > 0 && Planner::first_bad(ts, acts) < 0 {
                    Some(
                        SpecPlan {
                            actions: acts,
                            strategy: ExecutionStrategy::Sequential,
                            timeout_seconds: timeout,
                        },
                    )
                } else {
                    None
                },
                None => match plan_of_jval(v) {
                    Some(p) => if p.actions.len() > 0 && Planner::first_bad(ts, p.actions) < 0 {
                        Some(p)
                    } else {
                        None
                    },
                    None => None,
                },
            },
        },
    }
}

/// Length of the run of characters other than a comma at `i`.
pub open spec fn noncomma_run(s: Seq<char>, i: int) -> nat
    decreases s.len() - i,
{
    if 0 <= i < s.len() && s[i] != ',' {
        1 + noncomma_run(s, i + 1)
    } else {
        0
    }
}

fn noncomma_run_at(s: &Vec<char>, i: usize) -> (r: usize)
    requires
        i <= s@.len(),
    ensures
        r == noncomma_run(s@, i as int),
        i + r <= s@.len(),
    decreases s@.len() - i,
{
    if i < s.len() && s[i] != ',' {
        1 + noncomma_run_at(s, i + 1)
    } else {
        0
    }
}

/// The comma-separated arguments from position `i` on, each trimmed, empty
/// pieces left out.
pub open spec fn args_from(s: Seq<char>, i: int) -> Seq<Seq<char>>
    decreases s.len() - i,
{
    if !(0 <= i <= s.len()) {
        Seq::<Seq<char>>::empty()
    } else {
        let k = noncomma_run(s, i);
        if i + k > s.len() {
            Seq::<Seq<char>>::empty()
        } else {
            let piece = spec_trim(s.subrange(i, i + k));
            let rest = if i + k < s.len() {
                args_from(s, i + k + 1)
            } else {
                Seq::<Seq<char>>::empty()
            };
            if piece.len() > 0 {
                seq![piece] + rest
            } else {
                rest
            }
        }
    }
}

pub open spec fn spec_args(s: Seq<char>) -> Seq<Seq<char>> {
    args_from(s, 0)
}

/// An action built by the line patterns, before validation.
pub open spec fn line_action(tool: Seq<char>, argstr: Seq<char>) -> SpecAction {
    SpecAction {
        tool: tool,
        args: spec_args(argstr),
        context: None,
        reasoning: None,
        priority: 5,
    }
}

/// One line of the structured-text tier: a validated action, nothing, or a
/// validation failure that aborts the tier.
pub open spec fn spec_parse_tool_line(ts: Seq<SpecToolDef>, l: Seq<char>) -> Result<
    Option<SpecAction>,
    (),
> {
    match find_use_tool_spec(l, 0) {
        Some(nr) => {
            let a = line_action(nr.0, nr.1);
            if action_ok(ts, a) {
                Ok(Some(a))
            } else {
                Err(())
            }
        },
        None => match find_paren_spec(l, 0) {
            Some(nr) => {
                let a = line_action(nr.0, nr.1);
                if action_ok(ts, a) {
                    Ok(Some(a))
                } else {
                    Err(())
                }
            },
            None => Ok(None),
        },
    }
}

pub open spec fn tier2_actions(ts: Seq<SpecToolDef>, lines: Seq<Seq<char>>, i: int) -> Result<
    Seq<SpecAction>,
    (),
>
    decreases lines.len() - i,
{
    if !(0 <= i < lines.len()) {
        Ok(Seq::<SpecAction>::empty())
    } else {
        let l = spec_trim(lines[i]);
        if l.len() == 0 {
            tier2_actions(ts, lines, i + 1)
        } else {
            match spec_parse_tool_line(ts, l) {
                Err(()) => Err(()),
                Ok(None) => tier2_actions(ts, lines, i + 1),
                Ok(Some(a)) => match tier2_actions(ts, lines, i + 1) {
                    Ok(rest) => Ok(seq![a] + rest),
                    Err(()) => Err(()),
                },
            }
        }
    }
}

/// The structured-text tier: every line scanned for the two line patterns.
pub open spec fn spec_tier2(ts: Seq<SpecToolDef>, s: Seq<char>, timeout: u64) -> Option<
    SpecPlan,
> {
    match tier2_actions(ts, spec_lines(s), 0) {
        Ok(acts) => if acts.len() > 0 {
            Some(
                SpecPlan {
                    actions: acts,
                    strategy: ExecutionStrategy::Sequential,
                    timeout_seconds: timeout,
                },
            )
        } else {
            None
        },
        Err(()) => None,
    }
}

/// The arithmetic heuristic: the first of the three number patterns that
/// matches anywhere in the text.
pub open spec fn spec_extract_math(ts: Seq<SpecToolDef>, t: Seq<char>) -> Result<
    Option<SpecAction>,
    (),
> {
    let found = match find_math_spec(t, 0) {
        Some(e) => Some(e),
        None => match find_sqrt_spec(t, 0) {
            Some(e) => Some(e),
            None => find_caret_spec(t, 0),
        },
    };
    match found {
        Some(e) => {
            let a = SpecAction {
                tool: "math"@,
                args: seq![e],
                context: None,
                reasoning: Some("Detected math expression in natural language"@),
                priority: 5,
            };
            if action_ok(ts, a) {
                Ok(Some(a))
            } else {
                Err(())
            }
        },
        None => Ok(None),
    }
}

/// The address heuristic: the first web address in the text.
pub open spec fn spec_extract_fetch(ts: Seq<SpecToolDef>, t: Seq<char>) -> Result<
    Option<SpecAction>,
    (),
> {
    match find_url_spec(t, 0) {
        Some(url) => {
            let a = SpecAction {
                tool: "fetch"@,
                args: seq!["get"@, url],
                context: None,
                reasoning: Some("Detected URL in text"@),
                priority: 5,
            };
            if action_ok(ts, a) {
                Ok(Some(a))
            } else {
                Err(())
            }
        },
        None => Ok(None),
    }
}

/// The command heuristic: any of the fixed indicator phrases, found
/// case-insensitively, yields one fixed diagnostic action.
pub open spec fn shell_indicated(t: Seq<char>) -> bool {
    contains_sub(lower(t), "run command"@) || contains_sub(lower(t), "execute"@) || contains_sub(
        lower(t),
        "shell"@,
    ) || contains_sub(lower(t), "command"@)
}

pub open spec fn spec_extract_shell(ts: Seq<SpecToolDef>, t: Seq<char>) -> Result<
    Option<SpecAction>,
    (),
> {
    if shell_indicated(t) {
        let a = SpecAction {
            tool: "shell"@,
            args: seq!["echo"@, "Hello from shell"@],
            context: None,
            reasoning: Some("Detected shell command request"@),
            priority: 5,
        };
        if action_ok(ts, a) {
            Ok(Some(a))
        } else {
            Err(())
        }
    } else {
        Ok(None)
    }
}

pub open spec fn opt_seq(o: Option<SpecAction>) -> Seq<SpecAction> {
    match o {
        Some(a) => seq![a],
        None => Seq::<SpecAction>::empty(),
    }
}

/// The natural-language tier: the independent heuristics combined.
pub open spec fn spec_tier3(ts: Seq<SpecToolDef>, s: Seq<char>, timeout: u64) -> Option<
    SpecPlan,
> {
    match spec_extract_math(ts, s) {
        Err(()) => None,
        Ok(m) => match spec_extract_fetch(ts, s) {
            Err(()) => None,
            Ok(f) => match spec_extract_shell(ts, s) {
                Err(()) => None,
                Ok(sh) => {
                    let acts = opt_seq(m) + opt_seq(f) + opt_seq(sh);
                    if acts.len() > 0 {
                        Some(
                            SpecPlan {
                                actions: acts,
                                strategy: ExecutionStrategy::Sequential,
                                timeout_seconds: timeout,
                            },
                        )
                    } else {
                        None
                    }
                },
            },
        },
    }
}

/// The whole cascade: first structured JSON, then line patterns, then the
/// natural-language heuristics.
pub open spec fn spec_cascade(ts: Seq<SpecToolDef>, s: Seq<char>, timeout: u64) -> Option<
    SpecPlan,
> {
    match spec_tier1(ts, s, timeout) {
        Some(p) => Some(p),
        None => match spec_tier2(ts, s, timeout) {
            Some(p) => Some(p),
            None => spec_tier3(ts, s, timeout),
        },
    }
}

/// The concrete name an alias maps to: an exact match keeps the name; a
/// well-known alias takes the first registered name containing it; any
/// other name is returned unchanged.
pub open spec fn spec_planner_alias(ts: Seq<SpecToolDef>, name: Seq<char>) -> Seq<char> {
    if known_direct(ts, name) {
        name
    } else if is_alias(name) {
        if contains_index(ts, name) >= 0 {
            ts[contains_index(ts, name)].name
        } else {
            name
        }
    } else {
        name
    }
}

pub proof fn lemma_first_bad(ts: Seq<SpecToolDef>, s: Seq<SpecAction>)
    ensures
        -1 <= Planner::first_bad(ts, s) < s.len(),
        Planner::first_bad(ts, s) >= 0 ==> !action_ok(ts, s[Planner::first_bad(ts, s)]),
        Planner::first_bad(ts, s) < 0 ==> forall|j: int|
            0 <= j < s.len() ==> action_ok(ts, #[trigger] s[j]),
        forall|j: int|
            0 <= j < s.len() && j < Planner::first_bad(ts, s) ==> action_ok(ts, #[trigger] s[j]),
    decreases s.len(),
{
    if s.len() > 0 && action_ok(ts, s[0]) {
        lemma_first_bad(ts, s.drop_first());
        assert(forall|j: int| 1 <= j < s.len() ==> s.drop_first()[j - 1] == #[trigger] s[j]);
    }
}

fn strs_of_jarr(es: &Vec<JsonValue>) -> (r: Option<Vec<String>>)
    ensures
        match r {
            Some(out) => strs_of_elems(jview_list(es@)) == Some(strs_views(out@)),
            None => strs_of_elems(jview_list(es@)) is None,
        },
{
    let ghost ev = jview_list(es@);
    proof {
        crate::json::lemma_jview_list_index(es@);
        assert(ev.skip(0) =~= ev);
    }
    let n = es.len();
    let mut out: Vec<String> = Vec::new();
    let mut i: usize = 0;
    while i < n
        invariant
            n == es@.len(),
            ev == jview_list(es@),
            ev.len() == n,
            forall|j: int| 0 <= j < es@.len() ==> ev[j] == jview(#[trigger] es@[j]),
            i <= n,
            strs_of_elems(ev) == match strs_of_elems(ev.skip(i as int)) {
                Some(rest) => Some(strs_views(out@) + rest),
                None => None::<Seq<Seq<char>>>,
            },
        decreases n - i,
    {
        proof {
            assert(ev.skip(i as int)[0] == ev[i as int]);
            assert(ev.skip(i as int).drop_first() =~= ev.skip(i + 1));
        }
        match &es[i] {
            JsonValue::Str(s) => {
                let ghost pre = out@;
                let sv = s.clone();
                let ghost svg = sv;
                out.push(sv);
                proof {
                    assert(strs_views(out@) =~= strs_views(pre).push(svg@));
                    assert(forall|rest: Seq<Seq<char>>|
                        strs_views(pre) + (seq![svg@] + rest) =~= strs_views(out@) + rest);
                }
            },
            _ => {
                return None;
            },
        }
        i += 1;
    }
    proof {
        assert(ev.skip(n as int).len() == 0);
        assert(strs_of_elems(ev.skip(n as int)) == Some(Seq::<Seq<char>>::empty()));
        assert(strs_views(out@) + Seq::<Seq<char>>::empty() =~= strs_views(out@));
    }
    Some(out)
}

fn decode_action(v: &JsonValue) -> (r: Option<ActionPlan>)
    ensures
        match r {
            Some(a) => action_of_jval(v@) == Some(a@),
            None => action_of_jval(v@) is None,
        },
{
    match v {
        JsonValue::Obj(ms) => {
            let tool = match jobj_field(ms, "tool") {
                Some(JsonValue::Str(s)) => s.clone(),
                _ => {
                    return None;
                },
            };
            let args = match jobj_field(ms, "args") {
                Some(JsonValue::Arr(es)) => match strs_of_jarr(es) {
                    Some(a) => a,
                    None => {
                        return None;
                    },
                },
                _ => {
                    return None;
                },
            };
            let context = match jobj_field(ms, "context") {
                None => None,
                Some(JsonValue::Null) => None,
                Some(JsonValue::Str(s)) => Some(s.clone()),
                Some(_) => {
                    return None;
                },
            };
            let reasoning = match jobj_field(ms, "reasoning") {
                None => None,
                Some(JsonValue::Null) => None,
                Some(JsonValue::Str(s)) => Some(s.clone()),
                Some(_) => {
                    return None;
                },
            };
            let priority: u8 = match jobj_field(ms, "priority") {
                None => 5,
                Some(JsonValue::Num(n)) => if *n <= 255 {
                    *n as u8
                } else {
                    return None;
                },
                Some(_) => {
                    return None;
                },
            };
            let a = ActionPlan { tool, args, context, reasoning, priority };
            proof {
                assert(action_of_jval(v@) == Some(a@)) by {
                    assert(a@ =~= action_of_jval(v@)->0);
                }
            }
            Some(a)
        },
        _ => None,
    }
}

fn decode_actions_arr(es: &Vec<JsonValue>) -> (r: Option<Vec<ActionPlan>>)
    ensures
        match r {
            Some(out) => actions_of_elems(jview_list(es@)) == Some(action_views(out@)),
            None => actions_of_elems(jview_list(es@)) is None,
        },
{
    let ghost ev = jview_list(es@);
    proof {
        crate::json::lemma_jview_list_index(es@);
        assert(ev.skip(0) =~= ev);
    }
    let n = es.len();
    let mut out: Vec<ActionPlan> = Vec::new();
    let mut i: usize = 0;
    while i < n
        invariant
            n == es@.len(),
            ev == jview_list(es@),
            ev.len() == n,
            forall|j: int| 0 <= j < es@.len() ==> ev[j] == jview(#[trigger] es@[j]),
            i <= n,
            actions_of_elems(ev) == match actions_of_elems(ev.skip(i as int)) {
                Some(rest) => Some(action_views(out@) + rest),
                None => None::<Seq<SpecAction>>,
            },
        decreases n - i,
    {
        proof {
            assert(ev.skip(i as int)[0] == ev[i as int]);
            assert(ev.skip(i as int).drop_first() =~= ev.skip(i + 1));
        }
        match decode_action(&es[i]) {
            Some(a) => {
                let ghost pre = out@;
                let ghost ag = a@;
                out.push(a);
                proof {
                    assert(action_views(out@) =~= action_views(pre).push(ag));
                    assert(forall|rest: Seq<SpecAction>|
                        action_views(pre) + (seq![ag] + rest) =~= action_views(out@) + rest);
                }
            },
            None => {
                return None;
            },
        }
        i += 1;
    }
    proof {
        assert(ev.skip(n as int).len() == 0);
        assert(actions_of_elems(ev.skip(n as int)) == Some(Seq::<SpecAction>::empty()));
        assert(action_views(out@) + Seq::<SpecAction>::empty() =~= action_views(out@));
    }
    Some(out)
}

fn decode_strategy(v: &JsonValue) -> (r: Option<ExecutionStrategy>)
    ensures
        r == strategy_of(v@),
{
    match v {
        JsonValue::Str(s) => {
            if str_eq(s.as_str(), "Sequential") {
                Some(ExecutionStrategy::Sequential)
            } else if str_eq(s.as_str(), "Parallel") {
                Some(ExecutionStrategy::Parallel)
            } else if str_eq(s.as_str(), "Priority") {
                Some(ExecutionStrategy::Priority)
            } else {
                None
            }
        },
        _ => None,
    }
}

impl Planner {
    /// The structured tier: the text as a JSON action, action list, or
    /// plan object.
    fn parse_json_response(&self, response: &str) -> (r: Result<ExecutionPlan, PlanError>)
        ensures
            match r {
                Ok(p) => spec_tier1(self.tools_v(), response@, self.timeout_v()) == Some(p@),
                Err(_) => spec_tier1(self.tools_v(), response@, self.timeout_v()) is None,
            },
    {
        let cs = chars_of(response);
        let parsed = match parse_json_chars(&cs) {
            Some(v) => v,
            None => {
                return Err(PlanError::InvalidJson);
            },
        };
        match decode_action(&parsed) {
            Some(a) => {
                match self.validate_action(&a) {
                    Ok(()) => {
                        let ghost av = a@;
                        let mut actions: Vec<ActionPlan> = Vec::new();
                        actions.push(a);
                        let p = ExecutionPlan {
                            actions,
                            execution_strategy: ExecutionStrategy::Sequential,
                            timeout_seconds: self.default_timeout,
                        };
                        proof {
                            assert(action_views(p.actions@) =~= seq![av]);
                            assert(spec_tier1(self.tools_v(), response@, self.timeout_v())
                                == Some(p@)) by {
                                assert(p@ =~= spec_tier1(
                                    self.tools_v(),
                                    response@,
                                    self.timeout_v(),
                                )->0);
                            }
                        }
                        return Ok(p);
                    },
                    Err(e) => {
                        return Err(e);
                    },
                }
            },
            None => {},
        }
        match &parsed {
            JsonValue::Arr(es) => {
                match decode_actions_arr(es) {
                    Some(acts) => {
                        let ghost avs = action_views(acts@);
                        match self.validate_actions(acts) {
                            Ok(validated) => {
                                let p = ExecutionPlan {
                                    actions: validated,
                                    execution_strategy: ExecutionStrategy::Sequential,
                                    timeout_seconds: self.default_timeout,
                                };
                                proof {
                                    assert(spec_tier1(self.tools_v(), response@, self.timeout_v())
                                        == Some(p@)) by {
                                        assert(p@ =~= spec_tier1(
                                            self.tools_v(),
                                            response@,
                                            self.timeout_v(),
                                        )->0);
                                    }
                                }
                                Ok(p)
                            },
                            Err(e) => Err(e),
                        }
                    },
                    None => Err(PlanError::InvalidJson),
                }
            },
            JsonValue::Obj(ms) => {
                let es = match jobj_field(ms, "actions") {
                    Some(JsonValue::Arr(es)) => es,
                    _ => {
                        return Err(PlanError::InvalidJson);
                    },
                };
                let acts = match decode_actions_arr(es) {
                    Some(a) => a,
                    None => {
                        return Err(PlanError::InvalidJson);
                    },
                };
                let strat = match jobj_field(ms, "execution_strategy") {
                    Some(sv) => match decode_strategy(sv) {
                        Some(st) => st,
                        None => {
                            return Err(PlanError::InvalidJson);
                        },
                    },
                    None => {
                        return Err(PlanError::InvalidJson);
                    },
                };
                let timeout = match jobj_field(ms, "timeout_seconds") {
                    Some(JsonValue::Num(t)) => *t,
                    _ => {
                        return Err(PlanError::InvalidJson);
                    },
                };
                let ghost avs = action_views(acts@);
                match self.validate_actions(acts) {
                    Ok(validated) => {
                        let p = ExecutionPlan {
                            actions: validated,
                            execution_strategy: strat,
                            timeout_seconds: timeout,
                        };
                        proof {
                            assert(spec_tier1(self.tools_v(), response@, self.timeout_v())
                                == Some(p@)) by {
                                assert(p@ =~= spec_tier1(
                                    self.tools_v(),
                                    response@,
                                    self.timeout_v(),
                                )->0);
                            }
                        }
                        Ok(p)
                    },
                    Err(e) => Err(e),
                }
            },
            _ => Err(PlanError::InvalidJson),
        }
    }

    /// Splits a comma-separated argument text, trimming each piece and
    /// leaving empty pieces out.
    fn parse_args(&self, args_str: &str) -> (r: Vec<String>)
        ensures
            strs_views(r@) == spec_args(args_str@),
    {
        let cs = chars_of(args_str);
        let n = cs.len();
        let mut out: Vec<String> = Vec::new();
        let mut i: usize = 0;
        proof {
            assert(strs_views(out@) + args_from(cs@, 0) =~= args_from(cs@, 0));
        }
        while i < n
            invariant
                n == cs@.len(),
                cs@ == args_str@,
                i <= n,
                args_from(cs@, 0) == strs_views(out@) + args_from(cs@, i as int),
            decreases n - i,
        {
            let k = noncomma_run_at(&cs, i);
            let piece_end = i + k;
            let mut piece: Vec<char> = Vec::new();
            let mut j: usize = i;
            while j < piece_end
                invariant
                    piece_end == i + k,
                    i <= j <= piece_end,
                    piece_end <= cs@.len(),
                    piece@ == cs@.subrange(i as int, j as int),
                decreases piece_end - j,
            {
                piece.push(cs[j]);
                proof {
                    assert(piece@ =~= cs@.subrange(i as int, j + 1 as int));
                }
                j += 1;
            }
            let trimmed = trim_chars(&piece);
            let ghost pre = out@;
            if trimmed.len() > 0 {
                let s = string_from_chars(&trimmed);
                let ghost sg = s;
                out.push(s);
                proof {
                    assert(strs_views(out@) =~= strs_views(pre).push(sg@));
                }
            }
            proof {
                let rest = if i + k < cs@.len() {
                    args_from(cs@, i + k + 1)
                } else {
                    Seq::<Seq<char>>::empty()
                };
                assert(args_from(cs@, i as int) == if spec_trim(
                    cs@.subrange(i as int, i + k),
                ).len() > 0 {
                    seq![spec_trim(cs@.subrange(i as int, i + k))] + rest
                } else {
                    rest
                });
                assert(args_from(cs@, 0) =~= strs_views(out@) + rest);
            }
            if i + k < n {
                i = i + k + 1;
            } else {
                i = n;
                proof {
                    assert(args_from(cs@, 0) =~= strs_views(out@) + args_from(cs@, n as int));
                }
            }
        }
        proof {
            if n == 0 {
                assert(args_from(cs@, 0).len() == 0);
                assert(args_from(cs@, 0) =~= strs_views(out@));
            } else {
                assert(args_from(cs@, n as int).len() == 0);
                assert(strs_views(out@) + args_from(cs@, n as int) =~= strs_views(out@));
            }
        }
        out
    }

    /// Scans one line for the two line patterns; a validation failure
    /// aborts the whole tier.
    fn parse_tool_line(&self, line: &Vec<char>) -> (r: Result<Option<ActionPlan>, PlanError>)
        ensures
            match r {
                Ok(Some(a)) => spec_parse_tool_line(self.tools_v(), line@) == Ok::<
                    Option<SpecAction>,
                    (),
                >(Some(a@)),
                Ok(None) => spec_parse_tool_line(self.tools_v(), line@) == Ok::<
                    Option<SpecAction>,
                    (),
                >(None),
                Err(_) => spec_parse_tool_line(self.tools_v(), line@) is Err,
            },
    {
        match find_use_tool(line) {
            Some((name, rest)) => {
                let name_s = string_from_chars(&name);
                let rest_s = string_from_chars(&rest);
                let args = self.parse_args(rest_s.as_str());
                let a = ActionPlan::new(name_s.as_str(), args);
                proof {
                    assert(a@ =~= line_action(name@, rest@));
                }
                match self.validate_action(&a) {
                    Ok(()) => Ok(Some(a)),
                    Err(e) => Err(e),
                }
            },
            None => {
                match find_paren(line) {
                    Some((name, argstr)) => {
                        let name_s = string_from_chars(&name);
                        let arg_s = string_from_chars(&argstr);
                        let args = self.parse_args(arg_s.as_str());
                        let a = ActionPlan::new(name_s.as_str(), args);
                        proof {
                            assert(a@ =~= line_action(name@, argstr@));
                        }
                        match self.validate_action(&a) {
                            Ok(()) => Ok(Some(a)),
                            Err(e) => Err(e),
                        }
                    },
                    None => Ok(None),
                }
            },
        }
    }

    /// The structured-text tier: every line scanned for tool commands.
    fn parse_structured_text(&self, response: &str) -> (r: Result<ExecutionPlan, PlanError>)
        ensures
            match r {
                Ok(p) => spec_tier2(self.tools_v(), response@, self.timeout_v()) == Some(p@),
                Err(_) => spec_tier2(self.tools_v(), response@, self.timeout_v()) is None,
            },
    {
        let cs = chars_of(response);
        let lines = split_lines(&cs);
        let ghost lv = spec_lines(response@);
        let n = lines.len();
        let mut acc: Vec<ActionPlan> = Vec::new();
        let mut i: usize = 0;
        proof {
            assert(action_views(acc@).len() == 0);
            assert(action_views(acc@) + tier2_actions_unwrap(self.tools_v(), lv, 0)
                =~= tier2_actions_unwrap(self.tools_v(), lv, 0));
        }
        while i < n
            invariant
                n == lines@.len(),
                n == lv.len(),
                lv == spec_lines(response@),
                forall|j: int| 0 <= j < n ==> (#[trigger] lines@[j])@ == lv[j],
                i <= n,
                (tier2_actions(self.tools_v(), lv, 0) is Err) == (tier2_actions(
                    self.tools_v(),
                    lv,
                    i as int,
                ) is Err),
                (tier2_actions(self.tools_v(), lv, 0) is Ok) ==> tier2_actions_unwrap(
                    self.tools_v(),
                    lv,
                    0,
                ) == action_views(acc@) + tier2_actions_unwrap(self.tools_v(), lv, i as int),
            decreases n - i,
        {
            let lt = trim_chars(&lines[i]);
            let ghost tsv = self.tools_v();
            proof {
                assert(lt@ == spec_trim(lv[i as int]));
            }
            if lt.len() > 0 {
                match self.parse_tool_line(&lt) {
                    Ok(Some(a)) => {
                        let ghost pre = acc@;
                        let ghost ag = a@;
                        acc.push(a);
                        proof {
                            assert(spec_parse_tool_line(tsv, spec_trim(lv[i as int])) == Ok::<
                                Option<SpecAction>,
                                (),
                            >(Some(ag)));
                            let cur = tier2_actions(tsv, lv, i as int);
                            let nxt = tier2_actions(tsv, lv, i as int + 1);
                            assert(cur == (match nxt {
                                Ok(rest) => Ok::<Seq<SpecAction>, ()>(seq![ag] + rest),
                                Err(()) => Err::<Seq<SpecAction>, ()>(()),
                            }));
                            assert(action_views(acc@) =~= action_views(pre).push(ag));
                            assert(action_views(pre) + (seq![ag] + tier2_actions_unwrap(
                                tsv,
                                lv,
                                i as int + 1,
                            )) =~= action_views(acc@) + tier2_actions_unwrap(
                                tsv,
                                lv,
                                i as int + 1,
                            ));
                        }
                    },
                    Ok(None) => {},
                    Err(e) => {
                        proof {
                            assert(tier2_actions(tsv, lv, i as int) is Err);
                        }
                        return Err(e);
                    },
                }
            }
            i += 1;
        }
        proof {
            assert(tier2_actions(self.tools_v(), lv, n as int) == Ok::<Seq<SpecAction>, ()>(
                Seq::<SpecAction>::empty(),
            ));
            assert(action_views(acc@) + Seq::<SpecAction>::empty() =~= action_views(acc@));
        }
        if acc.len() == 0 {
            return Err(PlanError::NoToolCommands);
        }
        Ok(
            ExecutionPlan {
                actions: acc,
                execution_strategy: ExecutionStrategy::Sequential,
                timeout_seconds: self.default_timeout,
            },
        )
    }

    fn extract_math_action(&self, cs: &Vec<char>) -> (r: Result<Option<ActionPlan>, PlanError>)
        ensures
            match r {
                Ok(Some(a)) => spec_extract_math(self.tools_v(), cs@) == Ok::<Option<SpecAction>, ()>(
                    Some(a@),
                ),
                Ok(None) => spec_extract_math(self.tools_v(), cs@) == Ok::<Option<SpecAction>, ()>(None),
                Err(_) => spec_extract_math(self.tools_v(), cs@) is Err,
            },
    {
        let found = match find_math(cs) {
            Some(e) => Some(e),
            None => match find_sqrt(cs) {
                Some(e) => Some(e),
                None => find_caret(cs),
            },
        };
        match found {
            Some(e) => {
                let expr = string_from_chars(&e);
                let mut args: Vec<String> = Vec::new();
                args.push(expr);
                let a = ActionPlan::new("math", args).with_reasoning(
                    "Detected math expression in natural language",
                );
                proof {
                    assert(a@ =~= spec_extract_math_action(e@));
                }
                match self.validate_action(&a) {
                    Ok(()) => Ok(Some(a)),
                    Err(e2) => Err(e2),
                }
            },
            None => Ok(None),
        }
    }

    fn extract_fetch_action(&self, cs: &Vec<char>) -> (r: Result<Option<ActionPlan>, PlanError>)
        ensures
            match r {
                Ok(Some(a)) => spec_extract_fetch(self.tools_v(), cs@) == Ok::<Option<SpecAction>, ()>(
                    Some(a@),
                ),
                Ok(None) => spec_extract_fetch(self.tools_v(), cs@) == Ok::<Option<SpecAction>, ()>(None),
                Err(_) => spec_extract_fetch(self.tools_v(), cs@) is Err,
            },
    {
        match find_url(cs) {
            Some(u) => {
                let url = string_from_chars(&u);
                let mut args: Vec<String> = Vec::new();
                args.push(String::from_str("get"));
                args.push(url);
                let a = ActionPlan::new("fetch", args).with_reasoning("Detected URL in text");
                proof {
                    assert(a@ =~= spec_extract_fetch_action(u@));
                }
                match self.validate_action(&a) {
                    Ok(()) => Ok(Some(a)),
                    Err(e2) => Err(e2),
                }
            },
            None => Ok(None),
        }
    }

    fn extract_shell_action(&self, cs: &Vec<char>) -> (r: Result<Option<ActionPlan>, PlanError>)
        ensures
            match r {
                Ok(Some(a)) => spec_extract_shell(self.tools_v(), cs@) == Ok::<Option<SpecAction>, ()>(
                    Some(a@),
                ),
                Ok(None) => spec_extract_shell(self.tools_v(), cs@) == Ok::<Option<SpecAction>, ()>(None),
                Err(_) => spec_extract_shell(self.tools_v(), cs@) is Err,
            },
    {
        let low = lower_chars(cs);
        let ind1 = chars_of("run command");
        let ind2 = chars_of("execute");
        let ind3 = chars_of("shell");
        let ind4 = chars_of("command");
        let hit = match find_sub(&low, &ind1) {
            Some(_) => true,
            None => match find_sub(&low, &ind2) {
                Some(_) => true,
                None => match find_sub(&low, &ind3) {
                    Some(_) => true,
                    None => match find_sub(&low, &ind4) {
                        Some(_) => true,
                        None => false,
                    },
                },
            },
        };
        proof {
            assert(hit == shell_indicated(cs@));
        }
        if hit {
            let mut args: Vec<String> = Vec::new();
            args.push(String::from_str("echo"));
            args.push(String::from_str("Hello from shell"));
            let a = ActionPlan::new("shell", args).with_reasoning(
                "Detected shell command request",
            );
            proof {
                assert(a@ =~= spec_shell_action());
            }
            match self.validate_action(&a) {
                Ok(()) => Ok(Some(a)),
                Err(e2) => Err(e2),
            }
        } else {
            Ok(None)
        }
    }

    /// The natural-language tier: the independent heuristics combined.
    fn parse_natural_language(&self, response: &str) -> (r: Result<ExecutionPlan, PlanError>)
        ensures
            match r {
                Ok(p) => spec_tier3(self.tools_v(), response@, self.timeout_v()) == Some(p@),
                Err(_) => spec_tier3(self.tools_v(), response@, self.timeout_v()) is None,
            },
    {
        let cs = chars_of(response);
        let mut acc: Vec<ActionPlan> = Vec::new();
        let m = match self.extract_math_action(&cs) {
            Ok(o) => o,
            Err(e) => {
                return Err(e);
            },
        };
        let ghost mv = match &m {
            Some(a) => Some(a@),
            None => None,
        };
        match m {
            Some(a) => {
                acc.push(a);
            },
            None => {},
        }
        let f = match self.extract_fetch_action(&cs) {
            Ok(o) => o,
            Err(e) => {
                return Err(e);
            },
        };
        let ghost fv = match &f {
            Some(a) => Some(a@),
            None => None,
        };
        match f {
            Some(a) => {
                acc.push(a);
            },
            None => {},
        }
        let sh = match self.extract_shell_action(&cs) {
            Ok(o) => o,
            Err(e) => {
                return Err(e);
            },
        };
        let ghost shv = match &sh {
            Some(a) => Some(a@),
            None => None,
        };
        match sh {
            Some(a) => {
                acc.push(a);
            },
            None => {},
        }
        proof {
            assert(action_views(acc@) =~= opt_seq(mv) + opt_seq(fv) + opt_seq(shv));
        }
        if acc.len() == 0 {
            return Err(PlanError::NoHeuristicActions);
        }
        Ok(
            ExecutionPlan {
                actions: acc,
                execution_strategy: ExecutionStrategy::Sequential,
                timeout_seconds: self.default_timeout,
            },
        )
    }

    /// Turns model output into a validated execution plan: first the
    /// structured tier, then the line patterns, then the heuristics; the
    /// first success wins, and exhaustion keeps the original text in the
    /// error.
    pub fn parse_llm_response(&self, response: &str) -> (r: Result<ExecutionPlan, PlanError>)
        ensures
            match r {
                Ok(p) => spec_cascade(self.tools_v(), response@, self.timeout_v()) == Some(p@),
                Err(e) => spec_cascade(self.tools_v(), response@, self.timeout_v()) is None && (
                e matches PlanError::Unparseable { response: rr } && rr@ == response@),
            },
    {
        match self.parse_json_response(response) {
            Ok(p) => {
                return Ok(p);
            },
            Err(_) => {},
        }
        match self.parse_structured_text(response) {
            Ok(p) => {
                return Ok(p);
            },
            Err(_) => {},
        }
        match self.parse_natural_language(response) {
            Ok(p) => {
                return Ok(p);
            },
            Err(_) => {},
        }
        Err(PlanError::Unparseable { response: String::from_str(response) })
    }

    /// Maps a well-known alias to the first registered name containing it;
    /// exact and unknown names come back unchanged.
    fn map_tool_alias(&self, tool_name: &str) -> (r: String)
        ensures
            r@ == spec_planner_alias(self.tools_v(), tool_name@),
    {
        if self.known_direct_check(tool_name) {
            return String::from_str(tool_name);
        }
        if self.alias_check(tool_name) {
            match self.contains_search(tool_name) {
                Some(i) => {
                    proof {
                        lemma_contains_index(self.tools_v(), tool_name@);
                    }
                    return self.tools[i].name.clone();
                },
                None => {
                    return String::from_str(tool_name);
                },
            }
        }
        String::from_str(tool_name)
    }
}

/// The fixed shape of a heuristic arithmetic action.
pub open spec fn spec_extract_math_action(e: Seq<char>) -> SpecAction {
    SpecAction {
        tool: "math"@,
        args: seq![e],
        context: None,
        reasoning: Some("Detected math expression in natural language"@),
        priority: 5,
    }
}

/// The fixed shape of a heuristic fetch action.
pub open spec fn spec_extract_fetch_action(u: Seq<char>) -> SpecAction {
    SpecAction {
        tool: "fetch"@,
        args: seq!["get"@, u],
        context: None,
        reasoning: Some("Detected URL in text"@),
        priority: 5,
    }
}

/// The fixed diagnostic shell action.
pub open spec fn spec_shell_action() -> SpecAction {
    SpecAction {
        tool: "shell"@,
        args: seq!["echo"@, "Hello from shell"@],
        context: None,
        reasoning: Some("Detected shell command request"@),
        priority: 5,
    }
}

/// Comma-and-space joined text pieces.
pub open spec fn join_comma(ss: Seq<Seq<char>>) -> Seq<char>
    decreases ss.len(),
{
    if ss.len() == 0 {
        Seq::<char>::empty()
    } else if ss.len() == 1 {
        ss[0]
    } else {
        ss[0] + ", "@ + join_comma(ss.drop_first())
    }
}

proof fn lemma_join_comma_snoc(ss: Seq<Seq<char>>, i: int)
    requires
        0 <= i < ss.len(),
    ensures
        join_comma(ss.subrange(0, i + 1)) == if i == 0 {
            ss[0]
        } else {
            join_comma(ss.subrange(0, i)) + ", "@ + ss[i]
        },
    decreases i,
{
    if i == 0 {
        let one = ss.subrange(0, 1);
        assert(one.len() == 1 && one[0] == ss[0]);
    } else if i == 1 {
        let a = ss.subrange(0, 2);
        assert(a.len() == 2 && a[0] == ss[0]);
        assert(a.drop_first() =~= ss.subrange(1, 2));
        assert(ss.subrange(1, 2).len() == 1 && ss.subrange(1, 2)[0] == ss[1]);
        assert(join_comma(ss.subrange(1, 2)) == ss.subrange(1, 2)[0]);
        assert(ss.subrange(0, 1).len() == 1 && ss.subrange(0, 1)[0] == ss[0]);
        assert(join_comma(ss.subrange(0, 1)) == ss.subrange(0, 1)[0]);
    } else {
        let a = ss.subrange(0, i + 1);
        let b = ss.subrange(0, i);
        let tail = ss.subrange(1, ss.len() as int);
        assert(a.drop_first() =~= tail.subrange(0, i));
        assert(b.drop_first() =~= tail.subrange(0, i - 1));
        lemma_join_comma_snoc(tail, i - 1);
        assert(tail[i - 1] == ss[i]);
        assert(a.len() >= 2 && b.len() >= 2);
        assert(a[0] == ss[0] && b[0] == ss[0]);
        assert(ss[0] + ", "@ + (join_comma(tail.subrange(0, i - 1)) + ", "@ + ss[i]) =~= (ss[0]
            + ", "@ + join_comma(tail.subrange(0, i - 1))) + ", "@ + ss[i]);
    }
}

fn join_comma_exec(ss: &Vec<String>) -> (r: String)
    ensures
        r@ == join_comma(strs_views(ss@)),
{
    let ghost sv = strs_views(ss@);
    let mut out = String::new();
    let n = ss.len();
    let mut i: usize = 0;
    while i < n
        invariant
            n == ss@.len(),
            sv == strs_views(ss@),
            sv.len() == n,
            i <= n,
            out@ == join_comma(sv.subrange(0, i as int)),
        decreases n - i,
    {
        if i > 0 {
            out.append(", ");
        }
        out.append(ss[i].as_str());
        proof {
            lemma_join_comma_snoc(sv, i as int);
            assert(out@ =~= join_comma(sv.subrange(0, i + 1 as int)));
        }
        i += 1;
    }
    proof {
        assert(sv.subrange(0, sv.len() as int) =~= sv);
    }
    out
}

/// The line the prompt prints for one tool.
pub open spec fn tool_line(t: SpecToolDef) -> Seq<char> {
    "- "@ + t.name + ": "@ + t.description + " (parameters: "@ + join_comma(t.parameters)
        + ")\n"@
}

pub open spec fn tools_lines(ts: Seq<SpecToolDef>) -> Seq<char>
    decreases ts.len(),
{
    if ts.len() == 0 {
        Seq::<char>::empty()
    } else {
        tool_line(ts[0]) + tools_lines(ts.drop_first())
    }
}

proof fn lemma_tools_lines_snoc(ts: Seq<SpecToolDef>, i: int)
    requires
        0 <= i < ts.len(),
    ensures
        tools_lines(ts.subrange(0, i + 1)) == tools_lines(ts.subrange(0, i)) + tool_line(ts[i]),
    decreases i,
{
    if i == 0 {
        let one = ts.subrange(0, 1);
        assert(one.drop_first().len() == 0);
        assert(one[0] == ts[0]);
        assert(tools_lines(one.drop_first()) == Seq::<char>::empty());
        assert(tools_lines(ts.subrange(0, 0)) == Seq::<char>::empty());
        assert(tools_lines(one) =~= tools_lines(ts.subrange(0, 0)) + tool_line(ts[0]));
    } else {
        let a = ts.subrange(0, i + 1);
        let b = ts.subrange(0, i);
        let tail = ts.subrange(1, ts.len() as int);
        assert(a.drop_first() =~= tail.subrange(0, i));
        assert(b.drop_first() =~= tail.subrange(0, i - 1));
        lemma_tools_lines_snoc(tail, i - 1);
        assert(tail[i - 1] == ts[i]);
        assert(a[0] == ts[0] && b[0] == ts[0]);
    }
}

/// The example lines for one tool.
pub open spec fn example_lines(es: Seq<Seq<char>>) -> Seq<char>
    decreases es.len(),
{
    if es.len() == 0 {
        Seq::<char>::empty()
    } else {
        "- "@ + es[0] + "\n"@ + example_lines(es.drop_first())
    }
}

proof fn lemma_example_lines_snoc(es: Seq<Seq<char>>, i: int)
    requires
        0 <= i < es.len(),
    ensures
        example_lines(es.subrange(0, i + 1)) == example_lines(es.subrange(0, i)) + "- "@ + es[i]
            + "\n"@,
    decreases i,
{
    if i == 0 {
        let one = es.subrange(0, 1);
        assert(one.drop_first().len() == 0);
        assert(one[0] == es[0]);
        assert(example_lines(one.drop_first()) == Seq::<char>::empty());
        assert(example_lines(es.subrange(0, 0)) == Seq::<char>::empty());
        assert(example_lines(one) =~= example_lines(es.subrange(0, 0)) + "- "@ + es[0] + "\n"@);
    } else {
        let a = es.subrange(0, i + 1);
        let b = es.subrange(0, i);
        let tail = es.subrange(1, es.len() as int);
        assert(a.drop_first() =~= tail.subrange(0, i));
        assert(b.drop_first() =~= tail.subrange(0, i - 1));
        lemma_example_lines_snoc(tail, i - 1);
        assert(tail[i - 1] == es[i]);
        assert(a[0] == es[0] && b[0] == es[0]);
        assert(("- "@ + es[0] + "\n"@) + (example_lines(tail.subrange(0, i - 1)) + "- "@ + es[i]
            + "\n"@) =~= (("- "@ + es[0] + "\n"@) + example_lines(tail.subrange(0, i - 1))) + "- "@
            + es[i] + "\n"@);
    }
}

pub open spec fn examples_lines(ts: Seq<SpecToolDef>) -> Seq<char>
    decreases ts.len(),
{
    if ts.len() == 0 {
        Seq::<char>::empty()
    } else {
        example_lines(ts[0].examples) + examples_lines(ts.drop_first())
    }
}

proof fn lemma_examples_lines_snoc(ts: Seq<SpecToolDef>, i: int)
    requires
        0 <= i < ts.len(),
    ensures
        examples_lines(ts.subrange(0, i + 1)) == examples_lines(ts.subrange(0, i))
            + example_lines(ts[i].examples),
    decreases i,
{
    if i == 0 {
        let one = ts.subrange(0, 1);
        assert(one.drop_first().len() == 0);
        assert(one[0] == ts[0]);
        assert(examples_lines(one.drop_first()) == Seq::<char>::empty());
        assert(examples_lines(ts.subrange(0, 0)) == Seq::<char>::empty());
        assert(examples_lines(one) =~= examples_lines(ts.subrange(0, 0)) + example_lines(
            ts[0].examples,
        ));
    } else {
        let a = ts.subrange(0, i + 1);
        let b = ts.subrange(0, i);
        let tail = ts.subrange(1, ts.len() as int);
        assert(a.drop_first() =~= tail.subrange(0, i));
        assert(b.drop_first() =~= tail.subrange(0, i - 1));
        lemma_examples_lines_snoc(tail, i - 1);
        assert(tail[i - 1] == ts[i]);
        assert(a[0] == ts[0] && b[0] == ts[0]);
    }
}

/// The exact text of the system prompt for a registry.
pub open spec fn spec_system_prompt(ts: Seq<SpecToolDef>) -> Seq<char> {
    "You are an autonomous agent. Parse user requests and output JSON action plans.\n\n"@
        + "Available tools:\n"@ + tools_lines(ts)
        + "\nOutput format: {\"tool\": \"tool_name\", \"args\": [\"arg1\", \"arg2\"], \"reasoning\": \"explanation\"}\n"@
        + "For multiple actions: [{\"tool\": \"tool1\", \"args\": [...]}, {\"tool\": \"tool2\", \"args\": [...]}]\n\n"@
        + "Examples:\n"@ + examples_lines(ts)
}

impl Planner {
    /// Renders the model-facing description of every registered tool, with
    /// the output format and the tools' example invocations.
    pub fn generate_system_prompt(&self) -> (r: String)
        ensures
            r@ == spec_system_prompt(self.tools_v()),
    {
        let ghost ts = self.tools_v();
        let mut out = String::from_str(
            "You are an autonomous agent. Parse user requests and output JSON action plans.\n\n",
        );
        out.append("Available tools:\n");
        let ghost head = out@;
        let n = self.tools.len();
        let mut i: usize = 0;
        proof {
            assert(tools_lines(ts.subrange(0, 0)).len() == 0);
            assert(out@ =~= head + tools_lines(ts.subrange(0, 0)));
        }
        while i < n
            invariant
                n == self.tools@.len(),
                ts == self.tools_v(),
                ts.len() == n,
                i <= n,
                out@ == head + tools_lines(ts.subrange(0, i as int)),
            decreases n - i,
        {
            let t = &self.tools[i];
            out.append("- ");
            out.append(t.name.as_str());
            out.append(": ");
            out.append(t.description.as_str());
            out.append(" (parameters: ");
            let joined = join_comma_exec(&t.parameters);
            out.append(joined.as_str());
            out.append(")\n");
            proof {
                lemma_tools_lines_snoc(ts, i as int);
                assert(t@ == ts[i as int]);
                assert(out@ =~= head + tools_lines(ts.subrange(0, i + 1 as int)));
            }
            i += 1;
        }
        proof {
            assert(ts.subrange(0, ts.len() as int) =~= ts);
        }
        out.append(
            "\nOutput format: {\"tool\": \"tool_name\", \"args\": [\"arg1\", \"arg2\"], \"reasoning\": \"explanation\"}\n",
        );
        out.append(
            "For multiple actions: [{\"tool\": \"tool1\", \"args\": [...]}, {\"tool\": \"tool2\", \"args\": [...]}]\n\n",
        );
        out.append("Examples:\n");
        let ghost head2 = out@;
        let mut i2: usize = 0;
        proof {
            assert(examples_lines(ts.subrange(0, 0)).len() == 0);
            assert(out@ =~= head2 + examples_lines(ts.subrange(0, 0)));
        }
        while i2 < n
            invariant
                n == self.tools@.len(),
                ts == self.tools_v(),
                ts.len() == n,
                i2 <= n,
                out@ == head2 + examples_lines(ts.subrange(0, i2 as int)),
            decreases n - i2,
        {
            let t = &self.tools[i2];
            let ghost exs = ts[i2 as int].examples;
            let m = t.examples.len();
            let ghost mid = out@;
            let mut k: usize = 0;
            proof {
                assert(t@ == ts[i2 as int]);
                assert(example_lines(exs.subrange(0, 0)).len() == 0);
                assert(out@ =~= mid + example_lines(exs.subrange(0, 0)));
            }
            while k < m
                invariant
                    m == t.examples@.len(),
                    exs == strs_views(t.examples@),
                    exs.len() == m,
                    k <= m,
                    out@ == mid + example_lines(exs.subrange(0, k as int)),
                decreases m - k,
            {
                out.append("- ");
                out.append(t.examples[k].as_str());
                out.append("\n");
                proof {
                    lemma_example_lines_snoc(exs, k as int);
                    assert(out@ =~= mid + example_lines(exs.subrange(0, k + 1 as int)));
                }
                k += 1;
            }
            proof {
                assert(exs.subrange(0, exs.len() as int) =~= exs);
                lemma_examples_lines_snoc(ts, i2 as int);
                assert(out@ =~= head2 + examples_lines(ts.subrange(0, i2 + 1 as int)));
            }
            i2 += 1;
        }
        proof {
            assert(ts.subrange(0, ts.len() as int) =~= ts);
            assert(out@ =~= spec_system_prompt(ts));
        }
        out
    }
}

/// The tools a default planner starts with: native arithmetic preferred,
/// then the generic arithmetic, fetch and shell entries.
pub open spec fn spec_default_tools() -> Seq<SpecToolDef> {
    seq![
        SpecToolDef {
            name: "math-native"@,
            description: "Perform mathematical calculations"@,
            parameters: seq!["expression"@],
            examples: seq![
                "User: What is 5*7? → {\"tool\": \"math-native\", \"args\": [\"5*7\"]}"@,
                "User: Calculate sqrt(16) → {\"tool\": \"math-native\", \"args\": [\"sqrt(16)\"]}"@,
            ],
        },
        SpecToolDef {
            name: "math"@,
            description: "Perform mathematical calculations"@,
            parameters: seq!["expression"@],
            examples: seq![
                "User: What is 5*7? → {\"tool\": \"math\", \"args\": [\"5*7\"]}"@,
                "User: Calculate sqrt(16) → {\"tool\": \"math\", \"args\": [\"sqrt(16)\"]}"@,
            ],
        },
        SpecToolDef {
            name: "fetch"@,
            description: "Make HTTP requests to fetch data"@,
            parameters: seq!["method"@, "url"@],
            examples: seq![
                "User: Get data from example.com → {\"tool\": \"fetch\", \"args\": [\"get\", \"http://example.com\"]}"@,
            ],
        },
        SpecToolDef {
            name: "shell"@,
            description: "Execute shell commands safely"@,
            parameters: seq!["command"@, "args..."@],
            examples: seq!["User: List files → {\"tool\": \"shell\", \"args\": [\"ls\", \"-la\"]}"@],
        },
    ]
}

fn two_strings(a: &str, b: &str) -> (r: Vec<String>)
    ensures
        strs_views(r@) =~= seq![a@, b@],
{
    let mut v: Vec<String> = Vec::new();
    v.push(String::from_str(a));
    v.push(String::from_str(b));
    v
}

fn one_string(a: &str) -> (r: Vec<String>)
    ensures
        strs_views(r@) =~= seq![a@],
{
    let mut v: Vec<String> = Vec::new();
    v.push(String::from_str(a));
    v
}

impl Default for Planner {
    /// A planner with the default tools registered.
    fn default() -> (r: Planner)
        ensures
            r.tools_v() == spec_default_tools(),
            r.timeout_v() == 30,
    {
        let mut planner = Planner::new();
        planner.register_tool(
            ToolDefinition {
                name: String::from_str("math-native"),
                description: String::from_str("Perform mathematical calculations"),
                parameters: one_string("expression"),
                examples: two_strings(
                    "User: What is 5*7? → {\"tool\": \"math-native\", \"args\": [\"5*7\"]}",
                    "User: Calculate sqrt(16) → {\"tool\": \"math-native\", \"args\": [\"sqrt(16)\"]}",
                ),
            },
        );
        proof {
            reveal_strlit("math-native");
            reveal_strlit("math");
            reveal_strlit("fetch");
            reveal_strlit("shell");
            assert("math-native"@.len() == 11);
            assert("math"@.len() == 4);
            assert("fetch"@.len() == 5);
            assert("shell"@.len() == 5);
            assert("fetch"@[0] == 'f' && "shell"@[0] == 's');
            assert(planner.tools_v() =~~= spec_default_tools().subrange(0, 1));
        }
        planner.register_tool(
            ToolDefinition {
                name: String::from_str("math"),
                description: String::from_str("Perform mathematical calculations"),
                parameters: one_string("expression"),
                examples: two_strings(
                    "User: What is 5*7? → {\"tool\": \"math\", \"args\": [\"5*7\"]}",
                    "User: Calculate sqrt(16) → {\"tool\": \"math\", \"args\": [\"sqrt(16)\"]}",
                ),
            },
        );
        proof {
            assert(planner.tools_v() =~~= spec_default_tools().subrange(0, 2));
        }
        planner.register_tool(
            ToolDefinition {
                name: String::from_str("fetch"),
                description: String::from_str("Make HTTP requests to fetch data"),
                parameters: two_strings("method", "url"),
                examples: one_string(
                    "User: Get data from example.com → {\"tool\": \"fetch\", \"args\": [\"get\", \"http://example.com\"]}",
                ),
            },
        );
        proof {
            assert(planner.tools_v() =~~= spec_default_tools().subrange(0, 3));
        }
        planner.register_tool(
            ToolDefinition {
                name: String::from_str("shell"),
                description: String::from_str("Execute shell commands safely"),
                parameters: two_strings("command", "args..."),
                examples: one_string(
                    "User: List files → {\"tool\": \"shell\", \"args\": [\"ls\", \"-la\"]}",
                ),
            },
        );
        proof {
            assert(spec_default_tools().subrange(0, 4) =~= spec_default_tools());
            assert(planner.tools_v() =~~= spec_default_tools());
        }
        planner
    }
}

/// The actions a run of the structured-text tier yields, unwrapped.
pub open spec fn tier2_actions_unwrap(ts: Seq<SpecToolDef>, lines: Seq<Seq<char>>, i: int) -> Seq<
    SpecAction,
> {
    match tier2_actions(ts, lines, i) {
        Ok(acts) => acts,
        Err(()) => Seq::<SpecAction>::empty(),
    }
}

} // verus!
