//! Running tools: finding them, keeping their results, and running them once more.

use vstd::prelude::*;
use vstd::string::*;

use crate::agent::cache;
use crate::agent::cache::{CacheEntry, ToolResultCache};
use crate::agent::protocol;
use crate::agent::protocol::{
    AgentError, AgentResult, ErrorSpec, Outcome, ResultSpec, ToolCall, ToolDefinition, ToolResult,
};
use crate::agent::tool;
use crate::agent::tool::{BuiltinTool, ToolTable};
use crate::agent::tools;
use crate::agent::tools::files;
use crate::agent::tools::files::CanonicalPaths;
use crate::agent::tools::AgentTool;
use crate::agent::types;
use crate::agent::types::ToolRetryConfig;
use crate::paths;
use crate::text;

verus! {

/// What came of running a tool once.
pub enum Attempt {
    /// The tool returned.
    Finished(AgentResult<ToolResult>),
    /// The tool panicked.
    Panicked,
    /// The tool did not return within so many seconds.
    TimedOut(u64),
    /// The tool's thread went away without a word.
    Disconnected,
}

/// A result is what an attempt comes to.
pub open spec fn is_attempt_result(r: AgentResult<ToolResult>, name: Seq<char>, attempt: Attempt) -> bool {
    match attempt {
        Attempt::Finished(given) => r == given,
        Attempt::Panicked => match r {
            Err(AgentError::Internal(m)) => m@ == "Tool '"@ + name
                + "' panicked during execution"@,
            _ => false,
        },
        Attempt::TimedOut(secs) => r == Err::<ToolResult, AgentError>(AgentError::Timeout(secs)),
        Attempt::Disconnected => match r {
            Err(AgentError::Internal(m)) => m@ == "Tool execution thread disconnected"@,
            _ => false,
        },
    }
}

/// What an attempt comes to.
pub fn attempt_result(name: &str, attempt: Attempt) -> (r: AgentResult<ToolResult>)
    ensures
        is_attempt_result(r, name@, attempt),
{
    match attempt {
        Attempt::Finished(given) => given,
        Attempt::Panicked => {
            let mut m = "Tool '".to_owned();
            m.append(name);
            m.append("' panicked during execution");
            Err(AgentError::Internal(m))
        },
        Attempt::TimedOut(secs) => Err(AgentError::Timeout(secs)),
        Attempt::Disconnected => Err(
            AgentError::Internal("Tool execution thread disconnected".to_owned()),
        ),
    }
}

/// An error is one after which a tool is run once more.
pub open spec fn is_transient(config: ToolRetryConfig, e: AgentError) -> bool {
    match e {
        AgentError::Timeout(_) => config.retry_on_timeout,
        AgentError::Internal(_) => config.retry_on_transient_error,
        _ => false,
    }
}

/// A tool is run once more: after an error that may go away, unless this was the last of the
/// attempts. `attempt` counts from 0; there are as many attempts as retries, and one.
pub open spec fn runs_again(
    config: ToolRetryConfig,
    attempt: nat,
    result: AgentResult<ToolResult>,
) -> bool {
    match result {
        Ok(_) => false,
        Err(e) => is_transient(config, e) && attempt < config.max_retries,
    }
}

/// The wait before the attempt that follows, in milliseconds.
pub open spec fn wait_after(config: ToolRetryConfig, attempt: nat) -> nat {
    config.backoff_ms as nat * (attempt + 1)
}

/// Every wait is longer than the one before by the same time, which is that of the first.
pub proof fn law_waits_grow_evenly(config: ToolRetryConfig, attempt: nat)
    ensures
        wait_after(config, 0) == config.backoff_ms,
        wait_after(config, attempt + 1) == wait_after(config, attempt) + config.backoff_ms,
{
    assert(config.backoff_ms as nat * (0nat + 1) == config.backoff_ms) by (nonlinear_arith);
    assert(config.backoff_ms as nat * (attempt + 2) == config.backoff_ms as nat * (attempt + 1)
        + config.backoff_ms) by (nonlinear_arith);
}

/// As long as attempts are left, a tool is run once more after an error that may go away: after a
/// timeout if these are retried, and after an error of the agent itself if those are.
pub proof fn law_errors_that_may_go_away_are_retried(
    config: ToolRetryConfig,
    attempt: nat,
    secs: u64,
    m: String,
)
    requires
        attempt < config.max_retries,
    ensures
        runs_again(config, attempt, Err(AgentError::Timeout(secs))) == config.retry_on_timeout,
        runs_again(config, attempt, Err(AgentError::Internal(m)))
            == config.retry_on_transient_error,
{
}

/// Unless other retries are asked for, a tool is run twice more after whatever may go away, each time
/// after a wait that is a tenth of a second longer.
pub proof fn law_usual_retries(n: nat, secs: u64, m: String)
    ensures
        ({
            let config = types::default_retry();
            &&& runs_again(config, n, Err(AgentError::Timeout(secs))) <==> n < 2
            &&& runs_again(config, n, Err(AgentError::Internal(m))) <==> n < 2
            &&& wait_after(config, n) == 100 * (n + 1)
        }),
{
}

/// What follows an attempt.
pub enum NextStep {
    /// The call is done.
    Return(AgentResult<ToolResult>),
    /// The tool is run once more after so many milliseconds.
    RetryAfter(u64),
}

/// Tells whether a tool is run once more.
pub fn is_retried(config: &ToolRetryConfig, attempt: usize, result: &AgentResult<ToolResult>) -> (r:
    bool)
    ensures
        r == runs_again(*config, attempt as nat, *result),
{
    match result {
        Ok(_) => false,
        Err(e) => {
            let transient = match e {
                AgentError::Timeout(_) => config.retry_on_timeout,
                AgentError::Internal(_) => config.retry_on_transient_error,
                _ => false,
            };
            transient && attempt < config.max_retries
        },
    }
}

/// Decides what follows an attempt. The wait before each attempt is longer than the one before.
pub fn next_step(config: &ToolRetryConfig, attempt: usize, result: AgentResult<ToolResult>) -> (r:
    NextStep)
    requires
        runs_again(*config, attempt as nat, result) ==> wait_after(*config, attempt as nat)
            <= u64::MAX,
    ensures
        match r {
            NextStep::Return(given) => given == result && !runs_again(
                *config,
                attempt as nat,
                result,
            ),
            NextStep::RetryAfter(ms) => runs_again(*config, attempt as nat, result) && ms
                == wait_after(*config, attempt as nat),
        },
{
    if is_retried(config, attempt, &result) {
        NextStep::RetryAfter(config.backoff_ms * ((attempt + 1) as u64))
    } else {
        NextStep::Return(result)
    }
}

/// However the attempts end, the last one that is allowed is not followed by another, a success
/// never is, and neither is an error that a tool reports itself.
pub proof fn law_attempts_are_bounded(
    config: ToolRetryConfig,
    attempt: nat,
    result: AgentResult<ToolResult>,
)
    ensures
        attempt >= config.max_retries ==> !runs_again(config, attempt, result),
        result is Ok ==> !runs_again(config, attempt, result),
        match result {
            Err(AgentError::ToolError { tool_name, message }) => !runs_again(
                config,
                attempt,
                result,
            ),
            _ => true,
        },
{
}

/// What comes of looking for a tool.
pub enum Start {
    /// The call is done.
    Done(AgentResult<ToolResult>),
    /// The tool at this place is to be run.
    Run(usize),
}

/// What comes of looking for a tool.
pub enum StartPlan {
    /// There is no tool of this name.
    Unknown,
    /// A result is kept.
    Kept(ResultSpec),
    /// Something speaks against the arguments.
    Refused(ErrorSpec),
    /// The path leads out of the project.
    Outside(Seq<char>),
    /// The tool at this place is to be run.
    Run(int),
}

/// The path that a call names leads out of the project.
pub open spec fn leads_out(call: ToolCall, project: Seq<char>, found: CanonicalPaths) -> bool {
    match call.text_argument("path"@) {
        Some(path) => !files::lies_in(
            files::target_form(files::joined(project, path), found),
            files::project_form(project, found),
        ),
        None => false,
    }
}

/// What comes of looking for a tool: a result that is kept is given again; else nothing may speak
/// against the arguments and the path must stay in the project.
pub open spec fn start_plan<T: BuiltinTool>(
    tools: Seq<T>,
    kept: Seq<(Seq<char>, CacheEntry)>,
    ttl: u64,
    now: u64,
    call: ToolCall,
    project: Seq<char>,
    found: CanonicalPaths,
) -> StartPlan {
    let i = tool::first_named(tool::names_of(tools), call.name@);
    if i >= tools.len() {
        StartPlan::Unknown
    } else if tools[i].cacheable() && cache::is_fresh(kept, tools[i].key_of(call), now, ttl) {
        StartPlan::Kept(kept[cache::place_of(kept, tools[i].key_of(call))].1.result.spec())
    } else {
        match tools[i].objection(call) {
            Some(e) => StartPlan::Refused(e),
            None => if leads_out(call, project, found) {
                StartPlan::Outside(call.text_argument("path"@)->0)
            } else {
                StartPlan::Run(i)
            },
        }
    }
}

/// A call is made with the first tool that has its name, if nothing speaks against its arguments,
/// its path stays in the project, and no fresh result is kept; a call that names no tool is unknown.
/// A tool whose results may not be kept is always run.
pub proof fn law_named_tool_is_run<T: BuiltinTool>(
    tools: Seq<T>,
    kept: Seq<(Seq<char>, CacheEntry)>,
    ttl: u64,
    now: u64,
    call: ToolCall,
    project: Seq<char>,
    found: CanonicalPaths,
    i: int,
)
    requires
        0 <= i < tools.len(),
        tools[i].defined().name == call.name@,
        forall|j: int| 0 <= j < i ==> (#[trigger] tools[j]).defined().name != call.name@,
    ensures
        ({
            let plan = start_plan(tools, kept, ttl, now, call, project, found);
            let known = tools[i].cacheable() && exists|k: int|
                0 <= k < kept.len() && (#[trigger] kept[k]).0 == tools[i].key_of(call) && now
                    - kept[k].1.inserted_at <= ttl && forall|m: int|
                    0 <= m < k ==> (#[trigger] kept[m]).0 != tools[i].key_of(call);
            &&& known <==> plan is Kept
            &&& !known ==> match tools[i].objection(call) {
                Some(e) => plan == StartPlan::Refused(e),
                None => match plan {
                    StartPlan::Run(at) => at == i,
                    StartPlan::Outside(path) => call.text_argument("path"@) == Some(path),
                    _ => false,
                },
            }
            &&& !known && tools[i].objection(call) is None && call.text_argument("path"@) is None
                ==> plan == StartPlan::Run(i)
        }),
{
    let names = tool::names_of(tools);
    tool::lemma_first_named(names, call.name@);
    assert(names[i] == call.name@);
    let at = tool::first_named(names, call.name@);
    if at < i {
        assert(names[at] == call.name@);
        assert(tools[at].defined().name != call.name@);
    }
    let key = tools[i].key_of(call);
    cache::lemma_place_of(kept, key);
    let p = cache::place_of(kept, key);
    if cache::is_fresh(kept, key, now, ttl) {
        assert(kept[p].0 == key);
    }
    if exists|k: int|
        0 <= k < kept.len() && (#[trigger] kept[k]).0 == key && now - kept[k].1.inserted_at <= ttl
            && forall|m: int| 0 <= m < k ==> (#[trigger] kept[m]).0 != key {
        let k = choose|k: int|
            0 <= k < kept.len() && (#[trigger] kept[k]).0 == key && now - kept[k].1.inserted_at
                <= ttl && forall|m: int| 0 <= m < k ==> (#[trigger] kept[m]).0 != key;
        if p < k {
            assert(kept[p].0 == key);
        }
        assert(p == k);
    }
}

/// A call that names none of the tools is not made.
pub proof fn law_unknown_tool_is_not_run<T: BuiltinTool>(
    tools: Seq<T>,
    kept: Seq<(Seq<char>, CacheEntry)>,
    ttl: u64,
    now: u64,
    call: ToolCall,
    project: Seq<char>,
    found: CanonicalPaths,
)
    requires
        forall|j: int| 0 <= j < tools.len() ==> (#[trigger] tools[j]).defined().name != call.name@,
    ensures
        start_plan(tools, kept, ttl, now, call, project, found) == StartPlan::Unknown,
{
    let names = tool::names_of(tools);
    tool::lemma_first_named(names, call.name@);
    let at = tool::first_named(names, call.name@);
    if at < tools.len() {
        assert(names[at] == call.name@);
        assert(tools[at].defined().name != call.name@);
    }
}

/// A call that names a path is made exactly if the path lies in the project: the components of the
/// path begin with those of the project, each in its canonical form where that is known. A path that
/// is not there yet lies where its directory does.
pub proof fn law_only_paths_of_the_project_are_used<T: BuiltinTool>(
    tools: Seq<T>,
    kept: Seq<(Seq<char>, CacheEntry)>,
    ttl: u64,
    now: u64,
    call: ToolCall,
    project: Seq<char>,
    found: CanonicalPaths,
    i: int,
    path: Seq<char>,
)
    requires
        0 <= i < tools.len(),
        tools[i].defined().name == call.name@,
        forall|j: int| 0 <= j < i ==> (#[trigger] tools[j]).defined().name != call.name@,
        !tools[i].cacheable(),
        tools[i].objection(call) is None,
        call.text_argument("path"@) == Some(path),
    ensures
        ({
            let plan = start_plan(tools, kept, ttl, now, call, project, found);
            let home = paths::components(
                match found.project {
                    Some(p) => p@,
                    None => project,
                },
            );
            let absolute = path.len() > 0 && path[0] == '/';
            let joins = absolute || (project.len() > 0 && project.last() != '/');
            let whole = if absolute {
                path
            } else {
                project + "/"@ + path
            };
            &&& plan == StartPlan::Run(i) || plan == StartPlan::Outside(path)
            &&& match found.target {
                Some(t) => plan is Run <==> home.is_prefix_of(paths::components(t@)),
                None => true,
            }
            &&& found.target is None && found.parent is None && joins ==> (plan is Run
                <==> home.is_prefix_of(paths::components(whole)))
            &&& (match (found.parent, paths::file_name(whole)) {
                (Some(p), Some(name)) => found.target is None && joins && p@.len() > 0 && p@.last()
                    != '/' && name.len() > 0 && name[0] != '/' ==> (plan is Run
                    <==> home.is_prefix_of(paths::components(p@ + "/"@ + name))),
                _ => true,
            })
        }),
{
    law_named_tool_is_run(tools, kept, ttl, now, call, project, found, i);
}

/// Looking for a tool gives what was planned: the tool that is to be run, the result that is kept,
/// or an error that names the tool or the path.
pub proof fn law_starts_are_as_planned(start: Start, plan: StartPlan, call: ToolCall)
    requires
        is_start(start, plan, call),
    ensures
        plan is Run <==> start is Run,
        start matches Start::Run(i) ==> plan == StartPlan::Run(i as int),
        match start {
            Start::Done(Ok(result)) => plan == StartPlan::Kept(result.spec()),
            Start::Done(Err(e)) => match plan {
                StartPlan::Refused(given) => e.spec() == given,
                StartPlan::Unknown => (match e {
                    AgentError::ToolError { tool_name, message } => tool_name@ == call.name@
                        && text::occurs_in(message@, call.name@),
                    _ => false,
                }),
                StartPlan::Outside(path) => (match e {
                    AgentError::ToolError { tool_name, message } => text::occurs_in(message@, path),
                    _ => false,
                }),
                _ => false,
            },
            Start::Run(_) => true,
        },
{
    let none = Seq::<char>::empty();
    text::lemma_part_occurs("Unknown tool: "@, call.name@, none);
    assert("Unknown tool: "@ + call.name@ + none =~= "Unknown tool: "@ + call.name@);
    if let StartPlan::Outside(path) = plan {
        text::lemma_part_occurs("Path '"@, path, "' is outside the project directory"@);
    }
}

/// An attempt that ended comes to what the tool gave. One that did not end is an error after which
/// the tool is run once more, if errors of that sort are retried and attempts are left.
pub proof fn law_attempts_come_to_what_happened(
    r: AgentResult<ToolResult>,
    name: Seq<char>,
    attempt: Attempt,
    config: ToolRetryConfig,
    n: nat,
)
    requires
        is_attempt_result(r, name, attempt),
    ensures
        match attempt {
            Attempt::Finished(given) => r == given,
            Attempt::TimedOut(secs) => r == Err::<ToolResult, AgentError>(
                AgentError::Timeout(secs),
            ) && runs_again(config, n, r) == (config.retry_on_timeout && n < config.max_retries),
            _ => r is Err && runs_again(config, n, r) == (config.retry_on_transient_error && n
                < config.max_retries),
        },
{
}

/// A registry runs a tool once more after whatever may go away, as often and after as long a wait as
/// it was told.
pub proof fn law_registry_retries_what_may_go_away<T: BuiltinTool>(
    registry: RuntimeToolRegistry<T>,
    n: nat,
    secs: u64,
    m: String,
)
    ensures
        ({
            let config = registry.retries();
            &&& runs_again(config, n, Err(AgentError::Timeout(secs))) == (n
                < registry.retry_config.max_retries)
            &&& runs_again(config, n, Err(AgentError::Internal(m))) == (n
                < registry.retry_config.max_retries)
            &&& wait_after(config, 0) == registry.retry_config.backoff_ms
        }),
{
    law_waits_grow_evenly(registry.retries(), 0);
}

/// Looking for a tool leaves the results of other calls where they are, and the result of this one
/// unless it is too old.
pub proof fn law_looking_keeps_results<T: BuiltinTool>(
    tools: Seq<T>,
    kept: Seq<(Seq<char>, CacheEntry)>,
    ttl: u64,
    now: u64,
    call: ToolCall,
    k: int,
)
    requires
        0 <= k < kept.len(),
        cache::keys_differ(kept),
        now - kept[k].1.inserted_at <= ttl,
    ensures
        kept_after(tools, kept, ttl, now, call).contains(kept[k]),
{
    let i = tool::first_named(tool::names_of(tools), call.name@);
    let after = kept_after(tools, kept, ttl, now, call);
    if i < tools.len() && tools[i].cacheable() {
        let key = tools[i].key_of(call);
        cache::lemma_place_of(kept, key);
        let p = cache::place_of(kept, key);
        if cache::holds(kept, key) {
            let moved = kept.remove(p);
            if k < p {
                assert(moved[k] == kept[k]);
            } else if k > p {
                assert(moved[k - 1] == kept[k]);
            }
            if cache::is_fresh(kept, key, now, ttl) {
                assert(after == seq![kept[p]] + moved);
                if k < p {
                    assert(after[k + 1] == kept[k]);
                } else if k > p {
                    assert(after[k] == kept[k]);
                } else {
                    assert(after[0] == kept[k]);
                }
            } else if k < p {
                assert(after[k] == kept[k]);
            } else if k > p {
                assert(after[k - 1] == kept[k]);
            }
        } else {
            assert(after[k] == kept[k]);
        }
    } else {
        assert(after[k] == kept[k]);
    }
}

/// What the cache holds once a tool was looked for.
pub open spec fn kept_after<T: BuiltinTool>(
    tools: Seq<T>,
    kept: Seq<(Seq<char>, CacheEntry)>,
    ttl: u64,
    now: u64,
    call: ToolCall,
) -> Seq<(Seq<char>, CacheEntry)> {
    let i = tool::first_named(tool::names_of(tools), call.name@);
    if i < tools.len() && tools[i].cacheable() {
        if cache::is_fresh(kept, tools[i].key_of(call), now, ttl) {
            cache::touched(kept, tools[i].key_of(call))
        } else {
            cache::without(kept, tools[i].key_of(call))
        }
    } else {
        kept
    }
}

/// The start is this plan.
pub open spec fn is_start(start: Start, plan: StartPlan, call: ToolCall) -> bool {
    match start {
        Start::Done(r) => match plan {
            StartPlan::Unknown => protocol::is_outcome(
                r,
                Outcome::Fails(call.name@, "Unknown tool: "@ + call.name@),
            ),
            StartPlan::Kept(result) => protocol::is_outcome(r, Outcome::Answers(result)),
            StartPlan::Refused(e) => r is Err && r->Err_0.spec() == e,
            StartPlan::Outside(path) => protocol::is_outcome(
                r,
                Outcome::Fails("path_check"@, files::outside_message(path)),
            ),
            StartPlan::Run(_) => false,
        },
        Start::Run(i) => match plan {
            StartPlan::Run(j) => i == j,
            _ => false,
        },
    }
}

/// Tools that can be called, with the results that are kept of them.
pub struct BuiltinToolRegistry<T: BuiltinTool> {
    pub tools: ToolTable<T>,
    pub cache: ToolResultCache,
    pub retry_config: ToolRetryConfig,
}

impl BuiltinToolRegistry<AgentTool> {
    /// Adds the tools that come with the agent.
    pub fn register_defaults(&mut self)
        ensures
            exists|added: Seq<AgentTool>| #[trigger]
                tools::are_defaults(added) && final(self).tools.tools@ == old(self).tools.tools@
                    + added,
            final(self).cache == old(self).cache,
            final(self).retry_config == old(self).retry_config,
    {
        let more = tools::default_tools();
        let ghost added = more@;
        self.register_all(more);
        assert(tools::are_defaults(added));
    }
}

impl<T: BuiltinTool> BuiltinToolRegistry<T> {
    /// A registry without tools.
    pub fn new(retry_config: ToolRetryConfig) -> (r: Self)
        ensures
            r.tools.tools@.len() == 0,
            cache::is_new_cache(r.cache),
            r.retry_config == retry_config,
    {
        BuiltinToolRegistry { tools: ToolTable::new(), cache: ToolResultCache::default(), retry_config }
    }

    /// Adds a tool.
    pub fn register(&mut self, tool: T)
        ensures
            final(self).tools.tools@ == old(self).tools.tools@.push(tool),
            final(self).cache == old(self).cache,
            final(self).retry_config == old(self).retry_config,
    {
        self.tools.push(tool);
    }

    /// Adds tools, one after the other.
    pub fn register_all(&mut self, tools: Vec<T>)
        ensures
            final(self).tools.tools@ == old(self).tools.tools@ + tools@,
            final(self).cache == old(self).cache,
            final(self).retry_config == old(self).retry_config,
    {
        let ghost before = self.tools.tools@;
        let ghost all = tools@;
        assert(before + all.take(0) =~= before);
        for tool in it: tools
            invariant
                it.seq() == all,
                self.tools.tools@ == before + all.take(it.index() as int),
                self.cache == old(self).cache,
                self.retry_config == old(self).retry_config,
        {
            self.tools.push(tool);
            assert(self.tools.tools@ =~= before + all.take(it.index() + 1));
        }
        assert(all.take(all.len() as int) =~= all);
    }

    /// The definitions of the tools.
    pub fn list_tools(&self) -> (r: Vec<ToolDefinition>)
        ensures
            tool::definition_specs(r@) == self.tools.tools@.map_values(|t: T| t.defined()),
    {
        self.tools.list_tools()
    }

    /// Whether there is a tool of a name.
    pub fn has_tool(&self, name: &str) -> (r: bool)
        ensures
            r == tool::names_of(self.tools.tools@).contains(name@),
    {
        self.tools.has_tool(name)
    }

    /// The prompt that offers the tools.
    pub fn format_tool_prompt(&self) -> (r: String)
        ensures
            r@ == tool::tool_prompt(self.tools.tools@.map_values(|t: T| t.defined()), true),
    {
        self.tools.format_tool_prompt()
    }

    /// Looks for the tool of a call at the time `now`.
    pub fn begin(&mut self, call: &ToolCall, project: &str, found: &CanonicalPaths, now: u64) -> (r:
        Start)
        requires
            old(self).cache.well_formed(),
        ensures
            final(self).tools == old(self).tools,
            final(self).retry_config == old(self).retry_config,
            final(self).cache.well_formed(),
            final(self).cache.ttl == old(self).cache.ttl,
            final(self).cache.limit() == old(self).cache.limit(),
            final(self).cache.entries() == kept_after(
                old(self).tools.tools@,
                old(self).cache.entries(),
                old(self).cache.ttl,
                now,
                *call,
            ),
            is_start(
                r,
                start_plan(
                    old(self).tools.tools@,
                    old(self).cache.entries(),
                    old(self).cache.ttl,
                    now,
                    *call,
                    project@,
                    *found,
                ),
                *call,
            ),
    {
        begin_call(&self.tools, &mut self.cache, call, project, found, now)
    }

    /// Keeps what the tool at a place answered to a call, from the time `now` on.
    pub fn keep(&mut self, place: usize, call: &ToolCall, result: &ToolResult, now: u64)
        requires
            old(self).cache.well_formed(),
            place < old(self).tools.tools@.len(),
        ensures
            final(self).tools == old(self).tools,
            final(self).retry_config == old(self).retry_config,
            final(self).cache.well_formed(),
            is_kept(
                old(self).cache,
                final(self).cache,
                old(self).tools.tools@[place as int].cacheable(),
                old(self).tools.tools@[place as int].key_of(*call),
                *result,
                now,
            ),
    {
        keep_result(&self.tools.tools[place], &mut self.cache, call, result, now);
    }
}

/// The cache holds a result under a key, if the tool's results may be kept.
pub open spec fn is_kept(
    before: ToolResultCache,
    after: ToolResultCache,
    cacheable: bool,
    key: Seq<char>,
    result: ToolResult,
    now: u64,
) -> bool {
    if cacheable {
        &&& after.ttl == before.ttl
        &&& after.limit() == before.limit()
        &&& exists|e: CacheEntry|
            e.result.spec() == result.spec() && e.inserted_at == now && after.entries()
                == #[trigger] cache::with_entry(
                before.entries(),
                before.limit(),
                key,
                e,
            )
    } else {
        after == before
    }
}

fn keep_result<T: BuiltinTool>(
    tool: &T,
    kept: &mut ToolResultCache,
    call: &ToolCall,
    result: &ToolResult,
    now: u64,
)
    requires
        old(kept).well_formed(),
    ensures
        final(kept).well_formed(),
        is_kept(*old(kept), *final(kept), tool.cacheable(), tool.key_of(*call), *result, now),
{
    if tool.is_cacheable() {
        let key = tool.cache_key(call);
        let copy = result.clone();
        let ghost e = CacheEntry { result: copy, inserted_at: now };
        kept.set(key, copy, now);
        assert(kept.entries() == cache::with_entry(
            old(kept).entries(),
            old(kept).limit(),
            tool.key_of(*call),
            e,
        ));
    }
}

fn begin_call<T: BuiltinTool>(
    tools: &ToolTable<T>,
    kept: &mut ToolResultCache,
    call: &ToolCall,
    project: &str,
    found: &CanonicalPaths,
    now: u64,
) -> (r: Start)
    requires
        old(kept).well_formed(),
    ensures
        final(kept).well_formed(),
        final(kept).ttl == old(kept).ttl,
        final(kept).limit() == old(kept).limit(),
        final(kept).entries() == kept_after(
            tools.tools@,
            old(kept).entries(),
            old(kept).ttl,
            now,
            *call,
        ),
        is_start(
            r,
            start_plan(
                tools.tools@,
                old(kept).entries(),
                old(kept).ttl,
                now,
                *call,
                project@,
                *found,
            ),
            *call,
        ),
{
    let place: usize = match tools.find(call.name.as_str()) {
        Some(i) => i,
        None => {
            let mut m = "Unknown tool: ".to_owned();
            m.append(call.name.as_str());
            return Start::Done(Err(AgentError::tool_error(call.name.as_str(), m.as_str())));
        },
    };
    if tools.tools[place].is_cacheable() {
        let key = tools.tools[place].cache_key(call);
        match kept.get(key.as_str(), now) {
            Some(result) => {
                return Start::Done(Ok(result));
            },
            None => {},
        }
    }
    match tools.tools[place].validate_arguments(call) {
        Ok(_) => {},
        Err(e) => {
            return Start::Done(Err(e));
        },
    }
    match call.get_string("path") {
        Some(path) => match files::resolve_safe_path(project, path, found) {
            Ok(_) => {},
            Err(e) => {
                return Start::Done(Err(e));
            },
        },
        None => {},
    }
    Start::Run(place)
}

/// Tools that can be added and taken out while the agent runs.
pub struct RuntimeToolRegistry<T: BuiltinTool> {
    pub tools: ToolTable<T>,
    pub cache: ToolResultCache,
    pub retry_config: ToolRetryConfig,
}

impl RuntimeToolRegistry<AgentTool> {
    /// A registry of the tools that come with the agent.
    pub fn with_defaults(retry_config: ToolRetryConfig) -> (r: Self)
        ensures
            tools::are_defaults(r.tools.tools@),
            cache::is_new_cache(r.cache),
            r.retry_config == retry_config,
    {
        RuntimeToolRegistry {
            tools: ToolTable { tools: tools::default_tools() },
            cache: ToolResultCache::default(),
            retry_config,
        }
    }
}

impl<T: BuiltinTool> RuntimeToolRegistry<T> {
    /// A registry without tools.
    pub fn new(retry_config: ToolRetryConfig) -> (r: Self)
        ensures
            r.tools.tools@.len() == 0,
            cache::is_new_cache(r.cache),
            r.retry_config == retry_config,
    {
        RuntimeToolRegistry { tools: ToolTable::new(), cache: ToolResultCache::default(), retry_config }
    }

    /// The retries of the registry: its number and its waits, after whatever may go away.
    pub open spec fn retries(&self) -> ToolRetryConfig {
        ToolRetryConfig {
            retry_on_timeout: true,
            retry_on_transient_error: true,
            ..self.retry_config
        }
    }

    /// The retries of the registry.
    pub fn retry_rule(&self) -> (r: ToolRetryConfig)
        ensures
            r == self.retries(),
    {
        ToolRetryConfig {
            max_retries: self.retry_config.max_retries,
            retry_on_timeout: true,
            retry_on_transient_error: true,
            backoff_ms: self.retry_config.backoff_ms,
        }
    }

    /// Puts a tool in the place of the one of its name, or at the end.
    pub fn register(&mut self, tool: T)
        ensures
            ({
                let before = old(self).tools.tools@;
                let i = tool::first_named(tool::names_of(before), tool.defined().name);
                final(self).tools.tools@ == if i < before.len() {
                    before.update(i, tool)
                } else {
                    before.push(tool)
                }
            }),
            final(self).cache == old(self).cache,
            final(self).retry_config == old(self).retry_config,
    {
        self.tools.register(tool);
    }

    /// Takes a tool out, and says whether it was there.
    pub fn deregister(&mut self, name: &str) -> (r: bool)
        ensures
            final(self).tools.tools@ == tool::without(old(self).tools.tools@, name@),
            r == tool::names_of(old(self).tools.tools@).contains(name@),
            final(self).cache == old(self).cache,
            final(self).retry_config == old(self).retry_config,
    {
        self.tools.deregister(name)
    }

    /// The names of the tools.
    pub fn tool_names(&self) -> (r: Vec<String>)
        ensures
            text::views(r@) == tool::names_of(self.tools.tools@),
    {
        self.tools.tool_names()
    }

    /// The definitions of the tools.
    pub fn list_tools(&self) -> (r: Vec<ToolDefinition>)
        ensures
            tool::definition_specs(r@) == self.tools.tools@.map_values(|t: T| t.defined()),
    {
        self.tools.list_tools()
    }

    /// Whether there is a tool of a name.
    pub fn has_tool(&self, name: &str) -> (r: bool)
        ensures
            r == tool::names_of(self.tools.tools@).contains(name@),
    {
        self.tools.has_tool(name)
    }

    /// The prompt that offers the tools.
    pub fn format_tool_prompt(&self) -> (r: String)
        ensures
            r@ == tool::tool_prompt(self.tools.tools@.map_values(|t: T| t.defined()), false),
    {
        self.tools.format_short_prompt()
    }

    /// Looks for the tool of a call at the time `now`.
    pub fn begin(&mut self, call: &ToolCall, project: &str, found: &CanonicalPaths, now: u64) -> (r:
        Start)
        requires
            old(self).cache.well_formed(),
        ensures
            final(self).tools == old(self).tools,
            final(self).retry_config == old(self).retry_config,
            final(self).cache.well_formed(),
            final(self).cache.ttl == old(self).cache.ttl,
            final(self).cache.limit() == old(self).cache.limit(),
            final(self).cache.entries() == kept_after(
                old(self).tools.tools@,
                old(self).cache.entries(),
                old(self).cache.ttl,
                now,
                *call,
            ),
            is_start(
                r,
                start_plan(
                    old(self).tools.tools@,
                    old(self).cache.entries(),
                    old(self).cache.ttl,
                    now,
                    *call,
                    project@,
                    *found,
                ),
                *call,
            ),
    {
        begin_call(&self.tools, &mut self.cache, call, project, found, now)
    }

    /// Keeps what the tool at a place answered to a call, from the time `now` on.
    pub fn keep(&mut self, place: usize, call: &ToolCall, result: &ToolResult, now: u64)
        requires
            old(self).cache.well_formed(),
            place < old(self).tools.tools@.len(),
        ensures
            final(self).tools == old(self).tools,
            final(self).retry_config == old(self).retry_config,
            final(self).cache.well_formed(),
            is_kept(
                old(self).cache,
                final(self).cache,
                old(self).tools.tools@[place as int].cacheable(),
                old(self).tools.tools@[place as int].key_of(*call),
                *result,
                now,
            ),
    {
        keep_result(&self.tools.tools[place], &mut self.cache, call, result, now);
    }
}

/// Once a tool's result of a call is kept, the same call is answered with it until it is too old, without
/// the tool being run.
pub proof fn law_kept_result_answers<T: BuiltinTool>(
    tools: Seq<T>,
    before: ToolResultCache,
    after: ToolResultCache,
    call: ToolCall,
    result: ToolResult,
    put_at: u64,
    now: u64,
    project: Seq<char>,
    found: CanonicalPaths,
)
    requires
        before.well_formed(),
        ({
            let i = tool::first_named(tool::names_of(tools), call.name@);
            &&& i < tools.len()
            &&& tools[i].cacheable()
            &&& is_kept(before, after, true, tools[i].key_of(call), result, put_at)
        }),
        now - put_at <= before.ttl,
    ensures
        start_plan(tools, after.entries(), after.ttl, now, call, project, found)
            == StartPlan::Kept(result.spec()),
{
    let i = tool::first_named(tool::names_of(tools), call.name@);
    let key = tools[i].key_of(call);
    let e = choose|e: CacheEntry|
        e.result.spec() == result.spec() && e.inserted_at == put_at && after.entries()
            == #[trigger] cache::with_entry(before.entries(), before.limit(), key, e);
    cache::law_kept_result_is_found(before.entries(), before.limit(), key, e, now, before.ttl);
    cache::law_put_entry_is_found(before.entries(), before.limit(), key, e);
}

} // verus!
