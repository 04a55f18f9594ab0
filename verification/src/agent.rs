//! The agent shell: the assembled runtime — model, memory, planner and
//! dispatcher — with the task bookkeeping rules: how a task's prompt is
//! assembled, how tool results are folded into one answer, and which
//! results are cached under which key.  Running the tools themselves is
//! the caller's part; every judgement about their results is made here.

use vstd::prelude::*;
use vstd::string::StringExecFns;

use crate::dispatcher::{DispatcherStats, SpecToolHandle, SpecToolResult, ToolDispatcher,
    ToolResult, result_views, handle_index, handle_known, lemma_handle_index};
use crate::llm::SuperTinyWasmLLM;
use crate::memory::{AgentMemory, MemoryStats, sat_usize, spec_memory_usage};
use crate::planner::{ActionPlan, ExecutionPlan, Planner, SpecAction, SpecToolDef, ToolDefinition,
    action_views, spec_action_cache_key, strs_views};
use crate::text::str_eq;

verus! {

broadcast use vstd::seq::group_seq_axioms, vstd::std_specs::vec::group_vec_axioms,
    vstd::string::group_string_axioms;

/// The outward answer for one task.
#[derive(Debug)]
pub struct TaskResponse {
    pub success: bool,
    pub result: String,
    pub reasoning: Option<String>,
    pub tools_used: Vec<String>,
    pub execution_time_ms: u64,
    pub memory_stats: MemoryStats,
}

/// The assembled health report.
#[derive(Debug)]
pub struct AgentHealthStatus {
    pub llm_loaded: bool,
    pub tools_healthy: Vec<(String, bool)>,
    pub memory_usage: usize,
    pub total_tools: usize,
}

/// The assembled runtime.
#[derive(Debug)]
pub struct TinyEdgeAgent {
    pub llm: SuperTinyWasmLLM,
    pub memory: AgentMemory,
    pub planner: Planner,
    pub dispatcher: ToolDispatcher,
    pub model_loaded: bool,
}

/// The prompt a task is answered from: the system prompt, the memory
/// context, and the task itself.
pub open spec fn spec_task_prompt(system: Seq<char>, context: Seq<char>, task: Seq<char>) -> Seq<
    char,
> {
    system + "\n\n"@ + context + "\n\nUser task: "@ + task
}

/// Joins the system prompt, context and task into the model prompt.
pub fn build_task_prompt(system: &str, context: &str, task: &str) -> (r: String)
    ensures
        r@ == spec_task_prompt(system@, context@, task@),
{
    let mut out = String::from_str(system);
    out.append("\n\n");
    out.append(context);
    out.append("\n\nUser task: ");
    out.append(task);
    proof {
        assert(out@ =~= spec_task_prompt(system@, context@, task@));
    }
    out
}

/// The folded answer text after one more result: a success is appended
/// behind a separator, a failure appends its inline error fragment.
pub open spec fn fold_one(acc: Seq<char>, r: SpecToolResult) -> Seq<char> {
    if r.success {
        if acc.len() > 0 {
            acc + "; "@ + r.result
        } else {
            acc + r.result
        }
    } else {
        match r.error {
            Some(e) => acc + "Error in "@ + r.tool_name + ": "@ + e,
            None => acc,
        }
    }
}

pub open spec fn fold_results(rs: Seq<SpecToolResult>, acc: Seq<char>) -> Seq<char>
    decreases rs.len(),
{
    if rs.len() == 0 {
        acc
    } else {
        fold_results(rs.drop_first(), fold_one(acc, rs[0]))
    }
}

pub open spec fn all_successful(rs: Seq<SpecToolResult>) -> bool {
    forall|i: int| 0 <= i < rs.len() ==> (#[trigger] rs[i]).success
}

/// Folds a wave of results into the combined answer text, the list of
/// tools used, and the overall success flag: one failing action does not
/// erase the successful ones, but it marks the whole task failed.
pub fn summarize_results(results: &Vec<ToolResult>) -> (r: (String, Vec<String>, bool))
    ensures
        r.0@ == fold_results(result_views(results@), Seq::<char>::empty()),
        strs_views(r.1@) == result_views(results@).map_values(|t: SpecToolResult| t.tool_name),
        r.2 == all_successful(result_views(results@)),
{
    let ghost rv = result_views(results@);
    let n = results.len();
    let mut text = String::new();
    let mut used: Vec<String> = Vec::new();
    let mut ok = true;
    let mut i: usize = 0;
    proof {
        assert(rv.skip(0) =~= rv);
    }
    while i < n
        invariant
            n == results@.len(),
            rv == result_views(results@),
            rv.len() == n,
            i <= n,
            fold_results(rv, Seq::<char>::empty()) == fold_results(rv.skip(i as int), text@),
            used@.len() == i,
            forall|j: int| 0 <= j < i ==> used@[j]@ == (#[trigger] rv[j]).tool_name,
            ok == (forall|j: int| 0 <= j < i ==> (#[trigger] rv[j]).success),
        decreases n - i,
    {
        proof {
            assert(rv.skip(i as int)[0] == rv[i as int]);
            assert(rv.skip(i as int).drop_first() =~= rv.skip(i + 1));
        }
        let ghost pre_text = text@;
        let res = &results[i];
        used.push(res.tool_name.clone());
        if res.success {
            if text.as_str().unicode_len() > 0 {
                text.append("; ");
            }
            text.append(res.result.as_str());
        } else {
            match &res.error {
                Some(e) => {
                    text.append("Error in ");
                    text.append(res.tool_name.as_str());
                    text.append(": ");
                    text.append(e.as_str());
                },
                None => {},
            }
            ok = false;
        }
        proof {
            assert(text@ =~= fold_one(pre_text, rv[i as int]));
        }
        i += 1;
    }
    proof {
        assert(rv.skip(n as int).len() == 0);
        assert(strs_views(used@) =~= rv.map_values(|t: SpecToolResult| t.tool_name));
    }
    (text, used, ok)
}

/// The cache entries a wave of results earns: each successful result,
/// keyed by the fingerprint of the first plan action naming its tool.
pub open spec fn spec_cache_updates(
    actions: Seq<SpecAction>,
    rs: Seq<SpecToolResult>,
) -> Seq<(Seq<char>, Seq<char>)>
    decreases rs.len(),
{
    if rs.len() == 0 {
        Seq::<(Seq<char>, Seq<char>)>::empty()
    } else {
        let rest = spec_cache_updates(actions, rs.drop_first());
        if rs[0].success && action_index_for(actions, rs[0].tool_name) >= 0 {
            seq![
                (
                    spec_action_cache_key(actions[action_index_for(actions, rs[0].tool_name)]),
                    rs[0].result,
                ),
            ] + rest
        } else {
            rest
        }
    }
}

/// Index of the first action naming the tool, or -1.
pub open spec fn action_index_for(actions: Seq<SpecAction>, tool: Seq<char>) -> int
    decreases actions.len(),
{
    if actions.len() == 0 {
        -1
    } else if actions[0].tool == tool {
        0
    } else {
        let r = action_index_for(actions.drop_first(), tool);
        if r < 0 {
            -1
        } else {
            r + 1
        }
    }
}

proof fn lemma_action_index_for(actions: Seq<SpecAction>, tool: Seq<char>)
    ensures
        -1 <= action_index_for(actions, tool) < actions.len(),
        action_index_for(actions, tool) >= 0 ==> actions[action_index_for(actions, tool)].tool
            == tool,
        forall|j: int|
            0 <= j < actions.len() && j < action_index_for(actions, tool) ==> (
            #[trigger] actions[j]).tool != tool,
        action_index_for(actions, tool) < 0 ==> forall|j: int|
            0 <= j < actions.len() ==> (#[trigger] actions[j]).tool != tool,
    decreases actions.len(),
{
    if actions.len() > 0 && actions[0].tool != tool {
        lemma_action_index_for(actions.drop_first(), tool);
        assert(forall|j: int|
            1 <= j < actions.len() ==> actions.drop_first()[j - 1] == #[trigger] actions[j]);
    }
}

fn find_action_for<'a>(actions: &'a Vec<ActionPlan>, tool: &str) -> (r: Option<&'a ActionPlan>)
    ensures
        match r {
            Some(a) => action_index_for(action_views(actions@), tool@) >= 0 && a@ == action_views(
                actions@,
            )[action_index_for(action_views(actions@), tool@)],
            None => action_index_for(action_views(actions@), tool@) < 0,
        },
{
    proof {
        lemma_action_index_for(action_views(actions@), tool@);
    }
    let n = actions.len();
    let mut i: usize = 0;
    while i < n
        invariant
            n == actions@.len(),
            i <= n,
            forall|j: int|
                0 <= j < i ==> (#[trigger] action_views(actions@)[j]).tool != tool@,
        decreases n - i,
    {
        if str_eq(actions[i].tool.as_str(), tool) {
            proof {
                assert(action_views(actions@)[i as int].tool == tool@);
                lemma_action_index_for(action_views(actions@), tool@);
            }
            return Some(&actions[i]);
        }
        i += 1;
    }
    proof {
        lemma_action_index_for(action_views(actions@), tool@);
    }
    None
}

/// Computes the cache entries a wave of results earns.
pub fn cache_updates(plan: &ExecutionPlan, results: &Vec<ToolResult>) -> (r: Vec<
    (String, String),
>)
    ensures
        crate::memory::kv_views(r@) == spec_cache_updates(
            action_views(plan.actions@),
            result_views(results@),
        ),
{
    let ghost av = action_views(plan.actions@);
    let ghost rv = result_views(results@);
    let n = results.len();
    let mut out: Vec<(String, String)> = Vec::new();
    let mut i: usize = 0;
    proof {
        assert(rv.skip(0) =~= rv);
    }
    while i < n
        invariant
            n == results@.len(),
            av == action_views(plan.actions@),
            rv == result_views(results@),
            rv.len() == n,
            i <= n,
            spec_cache_updates(av, rv) == crate::memory::kv_views(out@) + spec_cache_updates(
                av,
                rv.skip(i as int),
            ),
        decreases n - i,
    {
        proof {
            assert(rv.skip(i as int)[0] == rv[i as int]);
            assert(rv.skip(i as int).drop_first() =~= rv.skip(i + 1));
        }
        let res = &results[i];
        if res.success {
            match find_action_for(&plan.actions, res.tool_name.as_str()) {
                Some(a) => {
                    let key = a.cache_key();
                    let ghost pre = out@;
                    let p = (key, res.result.clone());
                    let ghost pg = p;
                    out.push(p);
                    proof {
                        assert(crate::memory::kv_views(out@) =~= crate::memory::kv_views(
                            pre,
                        ).push((pg.0@, pg.1@)));
                        assert(crate::memory::kv_views(pre) + (seq![(pg.0@, pg.1@)]
                            + spec_cache_updates(av, rv.skip(i as int + 1)))
                            =~= crate::memory::kv_views(out@) + spec_cache_updates(
                            av,
                            rv.skip(i as int + 1),
                        ));
                    }
                },
                None => {},
            }
        }
        i += 1;
    }
    proof {
        assert(rv.skip(n as int).len() == 0);
        assert(crate::memory::kv_views(out@) + Seq::<(Seq<char>, Seq<char>)>::empty()
            =~= crate::memory::kv_views(out@));
    }
    out
}

/// The planner registry rebuilt from the dispatcher's tools and a health
/// report: walking the tools in order, each one reported healthy is
/// registered under its name — the definition taken from the first handle
/// of that name — and the rest are left out.
pub open spec fn adopt_from(
    acc: Seq<SpecToolDef>,
    hs: Seq<SpecToolHandle>,
    i: int,
    hv: Seq<(Seq<char>, bool)>,
) -> Seq<SpecToolDef>
    decreases hs.len() - i,
{
    if !(0 <= i < hs.len()) {
        acc
    } else {
        let nm = hs[i].name;
        let step = if health_of(hv, nm) && 0 <= handle_index(hs, nm) < hs.len() {
            let d = adopted_def(hs[handle_index(hs, nm)]);
            if crate::planner::known_direct(acc, d.name) {
                acc.update(crate::planner::name_index(acc, d.name), d)
            } else {
                acc.push(d)
            }
        } else {
            acc
        };
        adopt_from(step, hs, i + 1, hv)
    }
}

/// The reported health of one tool: the first report for its name, taken
/// as unhealthy when no report names it.
pub open spec fn health_of(health: Seq<(Seq<char>, bool)>, name: Seq<char>) -> bool
    decreases health.len(),
{
    if health.len() == 0 {
        false
    } else if health[0].0 == name {
        health[0].1
    } else {
        health_of(health.drop_first(), name)
    }
}

/// The planner-facing definition a healthy tool is adopted under.
pub open spec fn adopted_def(h: SpecToolHandle) -> SpecToolDef {
    SpecToolDef {
        name: h.name,
        description: h.description,
        parameters: seq!["operation"@, "args..."@],
        examples: seq![
            "{\"tool\": \""@ + h.name + "\", \"args\": [\"operation\", \"arg1\"]}"@,
        ],
    }
}

fn health_lookup(health: &Vec<(String, bool)>, name: &str) -> (r: bool)
    ensures
        r == health_of(
            health@.map_values(|p: (String, bool)| (p.0@, p.1)),
            name@,
        ),
{
    let ghost hv = health@.map_values(|p: (String, bool)| (p.0@, p.1));
    let n = health.len();
    let mut i: usize = 0;
    proof {
        assert(hv.skip(0) =~= hv);
    }
    while i < n
        invariant
            n == health@.len(),
            hv == health@.map_values(|p: (String, bool)| (p.0@, p.1)),
            hv.len() == n,
            i <= n,
            health_of(hv, name@) == health_of(hv.skip(i as int), name@),
        decreases n - i,
    {
        proof {
            assert(hv.skip(i as int)[0] == hv[i as int]);
            assert(hv.skip(i as int).drop_first() =~= hv.skip(i + 1));
        }
        if str_eq(health[i].0.as_str(), name) {
            return health[i].1;
        }
        i += 1;
    }
    proof {
        assert(hv.skip(n as int).len() == 0);
    }
    false
}

impl TinyEdgeAgent {
    /// A fresh runtime: empty memory, the default planner tools, no
    /// executable tools yet, and the model not loaded.
    pub fn new(model_path: &str) -> (r: TinyEdgeAgent)
        ensures
            r.llm.path_v() == model_path@,
            !r.llm.loaded_v(),
            r.memory.snap().session =~= Seq::<(Seq<char>, Seq<char>)>::empty(),
            r.memory.snap().history =~= Seq::<crate::memory::SpecMessage>::empty(),
            r.memory.snap().cache =~= Seq::<(Seq<char>, Seq<char>)>::empty(),
            r.planner.tools_v() == crate::planner::spec_default_tools(),
            r.dispatcher.handles_v() =~= Seq::<SpecToolHandle>::empty(),
            !r.model_loaded,
    {
        TinyEdgeAgent {
            llm: SuperTinyWasmLLM::new(String::from_str(model_path)),
            memory: AgentMemory::new(),
            planner: Planner::default(),
            dispatcher: ToolDispatcher::new(),
            model_loaded: false,
        }
    }

    pub fn get_available_tools(&self) -> (r: Vec<String>)
        ensures
            strs_views(r@) == self.dispatcher.handles_v().map_values(
                |h: SpecToolHandle| h.name,
            ),
    {
        self.dispatcher.get_available_tools()
    }

    pub fn get_memory_stats(&self) -> (r: MemoryStats)
        ensures
            r.session_entries == self.memory.snap().session.len(),
            r.history_messages == self.memory.snap().history.len(),
            r.cached_tool_results == self.memory.snap().cache.len(),
            r.memory_usage_estimate == sat_usize(spec_memory_usage(self.memory.snap())),
    {
        self.memory.get_stats()
    }

    pub fn get_dispatcher_stats(&self) -> (r: DispatcherStats)
        ensures
            r.total_tools == self.dispatcher.handles_v().len(),
            r.timeout_seconds == self.dispatcher.timeout_v(),
    {
        self.dispatcher.get_stats()
    }

    /// Replaces the planner registry with the dispatcher's tools filtered
    /// by a health report.
    pub fn adopt_healthy_tools(&mut self, health: &Vec<(String, bool)>)
        ensures
            final(self).planner.tools_v() == adopt_from(
                Seq::<SpecToolDef>::empty(),
                old(self).dispatcher.handles_v(),
                0,
                health@.map_values(|p: (String, bool)| (p.0@, p.1)),
            ),
            final(self).dispatcher == old(self).dispatcher,
            final(self).memory == old(self).memory,
            final(self).llm == old(self).llm,
            final(self).model_loaded == old(self).model_loaded,
    {
        let ghost hv = health@.map_values(|p: (String, bool)| (p.0@, p.1));
        let ghost hs = self.dispatcher.handles_v();
        self.planner = Planner::new();
        let names = self.dispatcher.get_available_tools();
        let n = names.len();
        let mut i: usize = 0;
        proof {
            assert(self.planner.tools_v() =~= Seq::<SpecToolDef>::empty());
            assert(strs_views(names@).len() == names@.len());
            assert(hs.map_values(|h: SpecToolHandle| h.name).len() == hs.len());
            assert forall|j: int| 0 <= j < n implies names@[j]@ == (#[trigger] hs[j]).name by {
                assert(strs_views(names@)[j] == names@[j]@);
                assert(hs.map_values(|h: SpecToolHandle| h.name)[j] == hs[j].name);
            }
        }
        while i < n
            invariant
                n == names@.len(),
                hs == self.dispatcher.handles_v(),
                hv == health@.map_values(|p: (String, bool)| (p.0@, p.1)),
                hs.len() == n,
                forall|j: int| 0 <= j < n ==> names@[j]@ == (#[trigger] hs[j]).name,
                i <= n,
                adopt_from(Seq::<SpecToolDef>::empty(), hs, 0, hv) == adopt_from(
                    self.planner.tools_v(),
                    hs,
                    i as int,
                    hv,
                ),
                self.dispatcher == old(self).dispatcher,
                self.memory == old(self).memory,
                self.llm == old(self).llm,
                self.model_loaded == old(self).model_loaded,
            decreases n - i,
        {
            let name = &names[i];
            if health_lookup(health, name.as_str()) {
                match self.dispatcher.get_tool_info(name.as_str()) {
                    Some(info) => {
                        proof {
                            lemma_handle_index(hs, name@);
                        }
                        let ghost idx = handle_index(hs, name@);
                        let mut params: Vec<String> = Vec::new();
                        params.push(String::from_str("operation"));
                        params.push(String::from_str("args..."));
                        let mut ex = String::from_str("{\"tool\": \"");
                        ex.append(name.as_str());
                        ex.append("\", \"args\": [\"operation\", \"arg1\"]}");
                        let mut examples: Vec<String> = Vec::new();
                        examples.push(ex);
                        let def = ToolDefinition {
                            name: name.clone(),
                            description: info.description.clone(),
                            parameters: params,
                            examples,
                        };
                        let ghost pre = self.planner.tools_v();
                        let ghost defg = def@;
                        proof {
                            assert(info@ == hs[idx]);
                            assert(defg =~~= adopted_def(hs[idx]));
                        }
                        self.planner.register_tool(def);
                        proof {
                            assert(adopt_from(pre, hs, i as int, hv) == adopt_from(
                                self.planner.tools_v(),
                                hs,
                                i as int + 1,
                                hv,
                            ));
                        }
                    },
                    None => {
                        proof {
                            assert(handle_known(hs, hs[i as int].name));
                            assert(false);
                        }
                    },
                }
            } else {
                proof {
                    assert(adopt_from(self.planner.tools_v(), hs, i as int, hv) == adopt_from(
                        self.planner.tools_v(),
                        hs,
                        i as int + 1,
                        hv,
                    ));
                }
            }
            i += 1;
        }
        proof {
            assert(adopt_from(self.planner.tools_v(), hs, n as int, hv)
                == self.planner.tools_v());
        }
    }

    /// Assembles the health report from the tool probes.
    pub fn assemble_health(&self, tool_health: Vec<(String, bool)>) -> (r: AgentHealthStatus)
        ensures
            r.llm_loaded == self.model_loaded,
            r.tools_healthy@ == tool_health@,
            r.memory_usage == sat_usize(spec_memory_usage(self.memory.snap())),
            r.total_tools == self.dispatcher.handles_v().len(),
    {
        AgentHealthStatus {
            llm_loaded: self.model_loaded,
            tools_healthy: tool_health,
            memory_usage: self.memory.estimate_memory_usage(),
            total_tools: self.dispatcher.get_stats().total_tools,
        }
    }

    /// Clears all three memory stores.
    pub fn clear_memory(&mut self)
        ensures
            final(self).memory.snap().session =~= Seq::<(Seq<char>, Seq<char>)>::empty(),
            final(self).memory.snap().history =~= Seq::<crate::memory::SpecMessage>::empty(),
            final(self).memory.snap().cache =~= Seq::<(Seq<char>, Seq<char>)>::empty(),
    {
        self.memory.clear_session();
        self.memory.clear_history();
        self.memory.clear_tool_cache();
    }

    /// Renders the memory snapshot.
    pub fn export_memory(&self) -> (r: String)
        ensures
            r@ == crate::snapshot::spec_export(self.memory.snap()),
    {
        self.memory.export_to_json()
    }

    /// Replaces the memory from a snapshot, atomically.
    pub fn import_memory(&mut self, json_data: &str) -> (r: Result<
        (),
        crate::snapshot::ImportError,
    >)
        ensures
            match r {
                Ok(()) => crate::snapshot::spec_import(json_data@) == Some(
                    final(self).memory.snap(),
                ),
                Err(_) => crate::snapshot::spec_import(json_data@) is None && final(self).memory
                    == old(self).memory,
            },
    {
        self.memory.import_from_json(json_data)
    }
}

} // verus!
