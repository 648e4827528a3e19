//! Several agents at work on one thing: tasks that wait for other tasks.

use vstd::prelude::*;
use vstd::string::*;

use crate::agent::protocol::AgentResult;
use crate::agent::response::{AgentResponse, ResponseSpec};
use crate::agent::types::{AgentConfig, ConfigSpec};
use crate::text;
use crate::text_map::TextMap;

verus! {

/// A task of one agent.
#[derive(Debug)]
pub struct AgentTask {
    pub id: String,
    pub query: String,
    /// The tasks that have to be done before.
    pub depends_on: Vec<String>,
    /// A configuration of its own, in place of the usual one.
    pub config_override: Option<AgentConfig>,
}

/// What a task says.
pub struct TaskSpec {
    pub id: Seq<char>,
    pub query: Seq<char>,
    pub depends_on: Seq<Seq<char>>,
    pub config: Option<ConfigSpec>,
}

impl AgentTask {
    /// What the task says.
    pub open spec fn spec(&self) -> TaskSpec {
        TaskSpec {
            id: self.id@,
            query: self.query@,
            depends_on: text::views(self.depends_on@),
            config: match self.config_override {
                Some(c) => Some(c.spec()),
                None => None,
            },
        }
    }

    /// A task that waits for nothing.
    pub fn new(id: &str, query: &str) -> (r: Self)
        ensures
            r.spec() == (TaskSpec {
                id: id@,
                query: query@,
                depends_on: Seq::empty(),
                config: None,
            }),
    {
        let r = AgentTask {
            id: id.to_owned(),
            query: query.to_owned(),
            depends_on: Vec::new(),
            config_override: None,
        };
        assert(text::views(r.depends_on@) =~= Seq::empty());
        r
    }

    /// The task, which also waits for `dependency`.
    #[must_use]
    pub fn depends_on(self, dependency: &str) -> (r: Self)
        ensures
            r.spec() == (TaskSpec {
                depends_on: self.spec().depends_on.push(dependency@),
                ..self.spec()
            }),
    {
        let AgentTask { id, query, mut depends_on, config_override } = self;
        let ghost before = text::views(depends_on@);
        depends_on.push(dependency.to_owned());
        assert(text::views(depends_on@) =~= before.push(dependency@));
        AgentTask { id, query, depends_on, config_override }
    }

    /// The task with a configuration of its own.
    #[must_use]
    pub fn with_config(self, config: AgentConfig) -> (r: Self)
        ensures
            r.spec() == (TaskSpec { config: Some(config.spec()), ..self.spec() }),
    {
        AgentTask { config_override: Some(config), ..self }
    }
}

/// What is told while tasks are done.
pub enum AgentMessage {
    /// A task begins.
    Started { id: String, query: String },
    /// A task is done.
    Completed { id: String, response: Box<AgentResponse> },
    /// A task failed.
    Failed { id: String, error: String },
    /// What a task tells the others.
    Broadcast { from: String, content: String },
}

/// What is told while tasks are done.
pub enum MessageSpec {
    Started(Seq<char>, Seq<char>),
    Completed(Seq<char>, ResponseSpec),
    Failed(Seq<char>, Seq<char>),
    Broadcast(Seq<char>, Seq<char>),
}

impl AgentMessage {
    /// What the message tells.
    pub open spec fn spec(&self) -> MessageSpec {
        match self {
            AgentMessage::Started { id, query } => MessageSpec::Started(id@, query@),
            AgentMessage::Completed { id, response } => MessageSpec::Completed(
                id@,
                response.spec(),
            ),
            AgentMessage::Failed { id, error } => MessageSpec::Failed(id@, error@),
            AgentMessage::Broadcast { from, content } => MessageSpec::Broadcast(from@, content@),
        }
    }
}

/// What messages tell.
pub open spec fn message_specs(v: Seq<AgentMessage>) -> Seq<MessageSpec> {
    Seq::new(v.len(), |i: int| v[i].spec())
}

/// Does one task.
pub trait SubAgentRunner: Send + Sync {
    /// Does a task.
    fn run(&self, task: &AgentTask) -> (r: AgentResult<AgentResponse>);
}

/// What came of all tasks.
pub struct OrchestrationResult {
    /// The answers of the tasks that were done.
    pub completed: TextMap<AgentResponse>,
    /// Why the others failed.
    pub failed: TextMap<String>,
    /// The tasks in the order in which they were run.
    pub execution_order: Vec<String>,
    /// What was told, in order.
    pub messages: Vec<AgentMessage>,
}

/// What came of the tasks so far.
pub struct Progress {
    pub completed: Map<Seq<char>, ResponseSpec>,
    pub failed: Map<Seq<char>, Seq<char>>,
    pub order: Seq<Seq<char>>,
    pub messages: Seq<MessageSpec>,
}

/// The answers, by task.
pub open spec fn response_map(m: Map<Seq<char>, AgentResponse>) -> Map<Seq<char>, ResponseSpec> {
    m.map_values(|r: AgentResponse| r.spec())
}

/// The texts, by task.
pub open spec fn text_values(m: Map<Seq<char>, String>) -> Map<Seq<char>, Seq<char>> {
    m.map_values(|s: String| s@)
}

/// Nothing was done.
pub open spec fn no_progress() -> Progress {
    Progress {
        completed: Map::empty(),
        failed: Map::empty(),
        order: Seq::empty(),
        messages: Seq::empty(),
    }
}

impl OrchestrationResult {
    /// What came of the tasks.
    pub open spec fn spec(&self) -> Progress {
        Progress {
            completed: response_map(self.completed@),
            failed: text_values(self.failed@),
            order: text::views(self.execution_order@),
            messages: message_specs(self.messages@),
        }
    }

    /// Whether no task failed.
    pub fn is_success(&self) -> (r: bool)
        ensures
            r == (self.spec().failed == Map::<Seq<char>, Seq<char>>::empty()),
    {
        let n: usize = self.failed.len();
        let ghost all = self.failed.listed();
        proof {
            if n == 0 {
                assert forall|k: Seq<char>| !self.failed@.contains_key(k) by {}
                assert(self.spec().failed =~= Map::empty());
            } else {
                crate::text_map::lemma_value_at(all, 0);
                assert(self.spec().failed.contains_key(all[0].0@));
            }
        }
        n == 0
    }
}

impl Default for OrchestrationResult {
    fn default() -> (r: Self)
        ensures
            r.spec() == no_progress(),
    {
        let r = OrchestrationResult {
            completed: TextMap::new(),
            failed: TextMap::new(),
            execution_order: Vec::new(),
            messages: Vec::new(),
        };
        assert(r.spec().completed =~= Map::empty());
        assert(r.spec().failed =~= Map::empty());
        assert(r.spec().order =~= Seq::empty());
        assert(r.spec().messages =~= Seq::empty());
        r
    }
}

/// What tasks say.
pub open spec fn task_specs(v: Seq<AgentTask>) -> Seq<TaskSpec> {
    Seq::new(v.len(), |i: int| v[i].spec())
}

/// A task waits for nothing but what was run.
pub open spec fn is_ready(task: TaskSpec, order: Seq<Seq<char>>) -> bool {
    forall|i: int|
        0 <= i < task.depends_on.len() ==> order.contains(#[trigger] task.depends_on[i])
}

/// The first task that is ready, from task `from` on.
pub open spec fn first_ready(tasks: Seq<TaskSpec>, order: Seq<Seq<char>>, from: nat) -> Option<nat>
    decreases tasks.len() - from,
{
    if from >= tasks.len() {
        None
    } else if is_ready(tasks[from as int], order) {
        Some(from)
    } else {
        first_ready(tasks, order, from + 1)
    }
}

/// What came of running a task: its answer, or why it failed.
pub enum RunSpec {
    Done(ResponseSpec),
    Failed(Seq<char>),
}

/// What came of running a task.
pub open spec fn run_spec(r: AgentResult<AgentResponse>) -> RunSpec {
    match r {
        Ok(response) => RunSpec::Done(response.spec()),
        Err(e) => RunSpec::Failed(e.display()),
    }
}

/// The tasks that are left, and what came of the others.
pub struct Standing {
    pub remaining: Seq<TaskSpec>,
    pub progress: Progress,
}

/// All tasks are left.
pub open spec fn at_start(tasks: Seq<TaskSpec>) -> Standing {
    Standing { remaining: tasks, progress: no_progress() }
}

/// What a task adds to what is known.
pub open spec fn recorded(p: Progress, task: TaskSpec, run: RunSpec) -> Progress {
    let started = p.messages.push(MessageSpec::Started(task.id, task.query));
    match run {
        RunSpec::Done(response) => Progress {
            completed: p.completed.insert(task.id, response),
            failed: p.failed,
            order: p.order.push(task.id),
            messages: started.push(MessageSpec::Broadcast(task.id, response.answer)).push(
                MessageSpec::Completed(task.id, response),
            ),
        },
        RunSpec::Failed(error) => Progress {
            completed: p.completed,
            failed: p.failed.insert(task.id, error),
            order: p.order.push(task.id),
            messages: started.push(MessageSpec::Failed(task.id, error)),
        },
    }
}

/// The task that is run next.
pub open spec fn next_task(s: Standing) -> Option<TaskSpec> {
    match first_ready(s.remaining, s.progress.order, 0) {
        Some(i) => Some(s.remaining[i as int]),
        None => None,
    }
}

/// How things stand after the next task was run.
pub open spec fn after_run(s: Standing, run: RunSpec) -> Standing {
    match first_ready(s.remaining, s.progress.order, 0) {
        Some(i) => Standing {
            remaining: s.remaining.remove(i as int),
            progress: recorded(s.progress, s.remaining[i as int], run),
        },
        None => s,
    }
}

/// How things stand after as many tasks were run as there are runs.
pub open spec fn after_runs(s: Standing, runs: Seq<RunSpec>) -> Standing
    decreases runs.len(),
{
    if runs.len() == 0 {
        s
    } else {
        after_run(after_runs(s, runs.drop_last()), runs.last())
    }
}

/// Texts as a list is written for debugging.
pub open spec fn debug_list(v: Seq<Seq<char>>) -> Seq<char> {
    "["@ + text::join(v.map_values(|s: Seq<char>| text::debug_text(s)), ", "@) + "]"@
}

/// Why a task that was never ready failed.
pub open spec fn unsatisfied(task: TaskSpec) -> Seq<char> {
    "Unsatisfied dependencies for task '"@ + task.id + "': "@ + debug_list(task.depends_on)
}

/// What is known after the tasks that are left failed.
pub open spec fn given_up(p: Progress, tasks: Seq<TaskSpec>) -> Progress
    decreases tasks.len(),
{
    if tasks.len() == 0 {
        p
    } else {
        let before = given_up(p, tasks.drop_last());
        let task = tasks.last();
        Progress {
            failed: before.failed.insert(task.id, unsatisfied(task)),
            messages: before.messages.push(MessageSpec::Failed(task.id, unsatisfied(task))),
            ..before
        }
    }
}

/// What came of all tasks in the end.
pub open spec fn in_the_end(s: Standing) -> Progress {
    given_up(s.progress, s.remaining)
}

/// What came of runs.
pub open spec fn run_specs(runs: Seq<(AgentTask, AgentResult<AgentResponse>)>) -> Seq<RunSpec> {
    Seq::new(runs.len(), |i: int| run_spec(runs[i].1))
}

/// The `k`th run is one of the task that is next after the runs before it.
pub open spec fn is_next_run(
    tasks: Seq<TaskSpec>,
    runs: Seq<(AgentTask, AgentResult<AgentResponse>)>,
    k: int,
) -> bool {
    next_task(after_runs(at_start(tasks), run_specs(runs).take(k))) == Some(runs[k].0.spec())
}

/// Each run is one of the task that is next, made by the runner.
pub open spec fn are_runs<R: SubAgentRunner>(
    runner: R,
    tasks: Seq<TaskSpec>,
    runs: Seq<(AgentTask, AgentResult<AgentResponse>)>,
) -> bool {
    forall|k: int|
        0 <= k < runs.len() ==> #[trigger] is_next_run(tasks, runs, k) && call_ensures(
            R::run,
            (&runner, &runs[k].0),
            runs[k].1,
        )
}

/// Does tasks, each after those that it waits for.
pub struct AgentOrchestrator<R: SubAgentRunner> {
    pub runner: R,
    pub tasks: Vec<AgentTask>,
}

impl<R: SubAgentRunner> AgentOrchestrator<R> {
    /// What the tasks say.
    pub open spec fn task_list(&self) -> Seq<TaskSpec> {
        task_specs(self.tasks@)
    }

    /// An orchestrator without tasks.
    pub fn new(runner: R) -> (r: Self)
        ensures
            r.runner == runner,
            r.task_list() == Seq::<TaskSpec>::empty(),
    {
        let r = AgentOrchestrator { runner, tasks: Vec::new() };
        assert(r.task_list() =~= Seq::empty());
        r
    }

    /// The orchestrator with one more task.
    #[must_use]
    pub fn add_task(self, task: AgentTask) -> (r: Self)
        ensures
            r.runner == self.runner,
            r.task_list() == self.task_list().push(task.spec()),
    {
        let AgentOrchestrator { runner, mut tasks } = self;
        let ghost before = task_specs(tasks@);
        tasks.push(task);
        assert(task_specs(tasks@) =~= before.push(task.spec()));
        AgentOrchestrator { runner, tasks }
    }

    /// The orchestrator with more tasks.
    #[must_use]
    pub fn add_tasks(self, tasks: Vec<AgentTask>) -> (r: Self)
        ensures
            r.runner == self.runner,
            r.task_list() == self.task_list() + task_specs(tasks@),
    {
        let AgentOrchestrator { runner, tasks: mut all } = self;
        let mut more = tasks;
        let ghost before = task_specs(all@);
        let ghost added = task_specs(more@);
        all.append(&mut more);
        assert(task_specs(all@) =~= before + added);
        AgentOrchestrator { runner, tasks: all }
    }

    /// Runs one task.
    pub fn run_one(&self, task: &AgentTask) -> (r: AgentResult<AgentResponse>)
        ensures
            call_ensures(R::run, (&self.runner, task), r),
    {
        self.runner.run(task)
    }

    /// Runs all tasks, each time the first that is ready. Tasks that never get ready fail.
    pub fn execute(self) -> (r: OrchestrationResult)
        ensures
            exists|runs: Seq<(AgentTask, AgentResult<AgentResponse>)>| #[trigger]
                are_runs(self.runner, self.task_list(), runs) && next_task(
                    after_runs(at_start(self.task_list()), run_specs(runs)),
                ) is None && r.spec() == in_the_end(
                    after_runs(at_start(self.task_list()), run_specs(runs)),
                ),
    {
        let ghost tasks = self.task_list();
        let AgentOrchestrator { runner, tasks: mut remaining } = self;
        let mut result = OrchestrationResult::default();
        let ghost mut runs: Seq<(AgentTask, AgentResult<AgentResponse>)> = Seq::empty();
        assert(run_specs(runs) =~= Seq::empty());
        loop
            invariant
                are_runs(runner, tasks, runs),
                after_runs(at_start(tasks), run_specs(runs)) == (Standing {
                    remaining: task_specs(remaining@),
                    progress: result.spec(),
                }),
            ensures
                are_runs(runner, tasks, runs),
                after_runs(at_start(tasks), run_specs(runs)) == (Standing {
                    remaining: task_specs(remaining@),
                    progress: result.spec(),
                }),
                next_task(after_runs(at_start(tasks), run_specs(runs))) is None,
            decreases remaining@.len(),
        {
            let ghost before = Standing {
                remaining: task_specs(remaining@),
                progress: result.spec(),
            };
            let found = find_ready(&remaining, &result.execution_order);
            let at: usize = match found {
                Some(i) => i,
                None => {
                    break;
                },
            };
            let task = remaining.remove(at);
            let ghost spec = task.spec();
            assert(task_specs(remaining@) =~= before.remaining.remove(at as int));
            let run = runner.run(&task);
            proof {
                let run_before = runs;
                runs = runs.push((task, run));
                assert(run_specs(runs).drop_last() =~= run_specs(run_before));
                assert forall|k: int| 0 <= k < runs.len() implies #[trigger] is_next_run(
                    tasks,
                    runs,
                    k,
                ) && call_ensures(R::run, (&runner, &runs[k].0), runs[k].1) by {
                    if k < run_before.len() {
                        assert(is_next_run(tasks, run_before, k));
                        assert(run_specs(runs).take(k) =~= run_specs(run_before).take(k));
                    } else {
                        assert(run_specs(runs).take(k) =~= run_specs(run_before));
                    }
                }
            }
            record(&mut result, task, run);
        }
        give_up(&mut result, &remaining);
        assert(are_runs(runner, tasks, runs));
        result
    }
}

/// Finds the first task that is ready.
pub fn find_ready(tasks: &Vec<AgentTask>, order: &Vec<String>) -> (r: Option<usize>)
    ensures
        match r {
            Some(i) => first_ready(task_specs(tasks@), text::views(order@), 0) == Some(i as nat)
                && i < tasks@.len(),
            None => first_ready(task_specs(tasks@), text::views(order@), 0) is None,
        },
{
    let ghost specs = task_specs(tasks@);
    let ghost done = text::views(order@);
    let mut i: usize = 0;
    while i < tasks.len()
        invariant
            i <= tasks@.len(),
            specs == task_specs(tasks@),
            done == text::views(order@),
            first_ready(specs, done, 0) == first_ready(specs, done, i as nat),
        decreases tasks@.len() - i,
    {
        let ghost waits = text::views(tasks@[i as int].depends_on@);
        assert(specs[i as int].depends_on == waits);
        assert(waits.len() == tasks@[i as int].depends_on@.len());
        if all_listed(&tasks[i].depends_on, order) {
            assert(is_ready(specs[i as int], done));
            return Some(i);
        }
        assert(!is_ready(specs[i as int], done));
        i += 1;
    }
    None
}

/// Tells whether each of some texts is listed.
fn all_listed(texts: &Vec<String>, list: &Vec<String>) -> (r: bool)
    ensures
        r == forall|i: int|
            0 <= i < texts@.len() ==> text::views(list@).contains(
                #[trigger] text::views(texts@)[i],
            ),
{
    let mut i: usize = 0;
    while i < texts.len()
        invariant
            i <= texts@.len(),
            forall|k: int|
                0 <= k < i ==> text::views(list@).contains(#[trigger] text::views(texts@)[k]),
        decreases texts@.len() - i,
    {
        if !text::lists(list, texts[i].as_str()) {
            assert(!text::views(list@).contains(text::views(texts@)[i as int]));
            return false;
        }
        i += 1;
    }
    true
}

/// Records what came of a task.
pub fn record(result: &mut OrchestrationResult, task: AgentTask, run: AgentResult<AgentResponse>)
    ensures
        final(result).spec() == recorded(old(result).spec(), task.spec(), run_spec(run)),
{
    let ghost p = result.spec();
    let ghost expected = recorded(p, task.spec(), run_spec(run));
    let AgentTask { id, query, depends_on: _, config_override: _ } = task;
    result.execution_order.push(id.clone());
    assert(text::views(result.execution_order@) =~= p.order.push(id@));
    result.messages.push(AgentMessage::Started { id: id.clone(), query });
    match run {
        Ok(response) => {
            let content = response.answer.clone();
            result.messages.push(AgentMessage::Broadcast { from: id.clone(), content });
            result.messages.push(
                AgentMessage::Completed { id: id.clone(), response: Box::new(response.clone()) },
            );
            result.completed.insert(id, response);
        },
        Err(e) => {
            let error = e.to_text();
            result.messages.push(AgentMessage::Failed { id: id.clone(), error: error.clone() });
            result.failed.insert(id, error);
        },
    }
    assert(result.spec().messages =~= expected.messages);
    assert(result.spec().completed =~= expected.completed);
    assert(result.spec().failed =~= expected.failed);
}

/// Writes texts as a list is written for debugging.
fn debug_list_text(v: &Vec<String>) -> (r: String)
    ensures
        r@ == debug_list(text::views(v@)),
{
    let ghost all = text::views(v@);
    let mut shown: Vec<String> = Vec::new();
    let mut i: usize = 0;
    while i < v.len()
        invariant
            i <= v@.len(),
            shown@.len() == i,
            forall|k: int| 0 <= k < i ==> (#[trigger] shown@[k])@ == text::debug_text(v@[k]@),
        decreases v@.len() - i,
    {
        shown.push(text::debug_of(v[i].as_str()));
        i += 1;
    }
    assert(text::views(shown@) =~= all.map_values(|s: Seq<char>| text::debug_text(s)));
    let body = text::join_texts(&shown, ", ");
    let mut r = "[".to_owned();
    r.append(body.as_str());
    r.append("]");
    r
}

/// Records that tasks failed because they never got ready.
pub fn give_up(result: &mut OrchestrationResult, tasks: &Vec<AgentTask>)
    ensures
        final(result).spec() == given_up(old(result).spec(), task_specs(tasks@)),
{
    let ghost p = result.spec();
    let ghost all = task_specs(tasks@);
    let mut i: usize = 0;
    assert(all.take(0) =~= Seq::empty());
    while i < tasks.len()
        invariant
            i <= tasks@.len(),
            all == task_specs(tasks@),
            result.spec() == given_up(p, all.take(i as int)),
        decreases tasks@.len() - i,
    {
        let task = &tasks[i];
        let ghost before = result.spec();
        let mut error = "Unsatisfied dependencies for task '".to_owned();
        error.append(task.id.as_str());
        error.append("': ");
        let list = debug_list_text(&task.depends_on);
        error.append(list.as_str());
        assert(error@ =~= unsatisfied(task.spec()));
        result.failed.insert(task.id.clone(), error.clone());
        result.messages.push(AgentMessage::Failed { id: task.id.clone(), error });
        i += 1;
        assert(all.take(i as int).drop_last() =~= all.take(i - 1));
        assert(all.take(i as int).last() == all[i - 1]);
        let ghost expected = given_up(p, all.take(i as int));
        assert(result.spec().messages =~= expected.messages);
        assert(result.spec().failed =~= expected.failed);
        assert(result.spec().completed =~= expected.completed);
        assert(result.spec().order =~= expected.order);
    }
    assert(all.take(all.len() as int) =~= all);
}

proof fn lemma_first_ready(tasks: Seq<TaskSpec>, order: Seq<Seq<char>>, from: nat)
    ensures
        match first_ready(tasks, order, from) {
            Some(i) => from <= i < tasks.len() && is_ready(tasks[i as int], order),
            None => forall|i: int|
                from <= i < tasks.len() ==> !is_ready(#[trigger] tasks[i], order),
        },
    decreases tasks.len() - from,
{
    if from < tasks.len() && !is_ready(tasks[from as int], order) {
        lemma_first_ready(tasks, order, from + 1);
    }
}

/// There is a next task at each run.
pub open spec fn proceeds(tasks: Seq<TaskSpec>, runs: Seq<RunSpec>) -> bool {
    forall|k: int|
        0 <= k < runs.len() ==> next_task(
            after_runs(at_start(tasks), #[trigger] runs.take(k)),
        ) is Some
}

proof fn lemma_proceeds_before(tasks: Seq<TaskSpec>, runs: Seq<RunSpec>)
    requires
        proceeds(tasks, runs),
        runs.len() > 0,
    ensures
        proceeds(tasks, runs.drop_last()),
        next_task(after_runs(at_start(tasks), runs.drop_last())) is Some,
{
    let before = runs.drop_last();
    assert(runs.take(runs.len() - 1) =~= before);
    assert forall|k: int| 0 <= k < before.len() implies next_task(
        after_runs(at_start(tasks), #[trigger] before.take(k)),
    ) is Some by {
        assert(before.take(k) =~= runs.take(k));
    }
}

/// Each run takes one task: as many tasks were run as there are runs, and the others are left.
pub proof fn law_each_run_takes_one_task(tasks: Seq<TaskSpec>, runs: Seq<RunSpec>)
    requires
        proceeds(tasks, runs),
    ensures
        ({
            let after = after_runs(at_start(tasks), runs);
            &&& after.progress.order.len() == runs.len()
            &&& after.remaining.len() + runs.len() == tasks.len()
        }),
    decreases runs.len(),
{
    if runs.len() > 0 {
        lemma_proceeds_before(tasks, runs);
        law_each_run_takes_one_task(tasks, runs.drop_last());
        let before = after_runs(at_start(tasks), runs.drop_last());
        lemma_first_ready(before.remaining, before.progress.order, 0);
    }
}

/// A task is run after every task that it waits for.
pub proof fn law_dependencies_come_first(tasks: Seq<TaskSpec>, runs: Seq<RunSpec>, k: int)
    requires
        proceeds(tasks, runs),
        0 <= k < runs.len(),
    ensures
        ({
            let order = after_runs(at_start(tasks), runs).progress.order;
            match next_task(after_runs(at_start(tasks), runs.take(k))) {
                Some(task) => order[k] == task.id && is_ready(task, order.take(k)),
                None => false,
            }
        }),
    decreases runs.len(),
{
    law_each_run_takes_one_task(tasks, runs);
    lemma_proceeds_before(tasks, runs);
    let before = after_runs(at_start(tasks), runs.drop_last());
    let order = after_runs(at_start(tasks), runs).progress.order;
    lemma_first_ready(before.remaining, before.progress.order, 0);
    law_each_run_takes_one_task(tasks, runs.drop_last());
    if k < runs.len() - 1 {
        law_dependencies_come_first(tasks, runs.drop_last(), k);
        assert(runs.drop_last().take(k) =~= runs.take(k));
        assert(before.progress.order.take(k) =~= order.take(k));
    } else {
        assert(runs.take(k) =~= runs.drop_last());
        assert(order.take(k) =~= before.progress.order);
    }
}

/// A task that was not run waits for one that was not run before the end.
pub proof fn law_what_is_left_is_not_ready(s: Standing, i: int)
    requires
        next_task(s) is None,
        0 <= i < s.remaining.len(),
    ensures
        !is_ready(s.remaining[i], s.progress.order),
{
    lemma_first_ready(s.remaining, s.progress.order, 0);
}

/// A task was answered.
pub open spec fn is_answered(p: Progress, id: Seq<char>) -> bool {
    p.completed.contains_key(id) || p.failed.contains_key(id)
}

proof fn lemma_given_up_answers(p: Progress, tasks: Seq<TaskSpec>, id: Seq<char>)
    requires
        is_answered(p, id) || exists|i: int| 0 <= i < tasks.len() && #[trigger] tasks[i].id == id,
    ensures
        is_answered(given_up(p, tasks), id),
    decreases tasks.len(),
{
    if tasks.len() > 0 && tasks.last().id != id {
        if !is_answered(p, id) {
            let i = choose|i: int| 0 <= i < tasks.len() && #[trigger] tasks[i].id == id;
            assert(tasks.drop_last()[i].id == id);
        }
        lemma_given_up_answers(p, tasks.drop_last(), id);
    }
}

proof fn lemma_left_or_answered(tasks: Seq<TaskSpec>, runs: Seq<RunSpec>, j: int)
    requires
        0 <= j < tasks.len(),
    ensures
        ({
            let after = after_runs(at_start(tasks), runs);
            is_answered(after.progress, tasks[j].id) || exists|i: int|
                0 <= i < after.remaining.len() && #[trigger] after.remaining[i].id == tasks[j].id
        }),
    decreases runs.len(),
{
    let id = tasks[j].id;
    if runs.len() > 0 {
        lemma_left_or_answered(tasks, runs.drop_last(), j);
        let before = after_runs(at_start(tasks), runs.drop_last());
        let after = after_runs(at_start(tasks), runs);
        lemma_first_ready(before.remaining, before.progress.order, 0);
        match first_ready(before.remaining, before.progress.order, 0) {
            Some(at) => {
                if !is_answered(before.progress, id) && before.remaining[at as int].id != id {
                    let i = choose|i: int|
                        0 <= i < before.remaining.len() && #[trigger] before.remaining[i].id == id;
                    let moved = if i < at {
                        i
                    } else {
                        i - 1
                    };
                    assert(after.remaining[moved].id == id);
                }
            },
            None => {},
        }
    } else {
        assert(after_runs(at_start(tasks), runs).remaining[j].id == id);
    }
}

/// Every task has an answer or a reason why it failed in the end, whatever came of the runs.
pub proof fn law_every_task_is_answered(tasks: Seq<TaskSpec>, runs: Seq<RunSpec>, j: int)
    requires
        0 <= j < tasks.len(),
    ensures
        is_answered(in_the_end(after_runs(at_start(tasks), runs)), tasks[j].id),
{
    lemma_left_or_answered(tasks, runs, j);
    let after = after_runs(at_start(tasks), runs);
    lemma_given_up_answers(after.progress, after.remaining, tasks[j].id);
}

/// No two tasks have the same name.
pub open spec fn distinct_tasks(tasks: Seq<TaskSpec>) -> bool {
    forall|i: int, j: int|
        0 <= i < tasks.len() && 0 <= j < tasks.len() && (#[trigger] tasks[i]).id == (
        #[trigger] tasks[j]).id ==> i == j
}

/// There is a task of that name.
pub open spec fn has_task(tasks: Seq<TaskSpec>, id: Seq<char>) -> bool {
    exists|i: int| 0 <= i < tasks.len() && (#[trigger] tasks[i]).id == id
}

/// What was run was run once, is no longer left, and was either done or failed.
spec fn is_orderly(tasks: Seq<TaskSpec>, s: Standing) -> bool {
    &&& distinct_tasks(s.remaining)
    &&& s.progress.order.no_duplicates()
    &&& forall|id: Seq<char>| #[trigger] has_task(s.remaining, id) ==> has_task(tasks, id)
    &&& forall|id: Seq<char>| #[trigger] s.progress.order.contains(id) ==> has_task(tasks, id)
    &&& forall|id: Seq<char>| #[trigger]
        has_task(s.remaining, id) ==> !s.progress.order.contains(id)
    &&& forall|id: Seq<char>| #[trigger]
        s.progress.order.contains(id) ==> s.progress.completed.contains_key(id)
            != s.progress.failed.contains_key(id)
    &&& forall|id: Seq<char>| #[trigger]
        s.progress.completed.contains_key(id) ==> s.progress.order.contains(id)
    &&& forall|id: Seq<char>| #[trigger]
        s.progress.failed.contains_key(id) ==> s.progress.order.contains(id)
}

proof fn lemma_runs_are_orderly(tasks: Seq<TaskSpec>, runs: Seq<RunSpec>)
    requires
        distinct_tasks(tasks),
    ensures
        is_orderly(tasks, after_runs(at_start(tasks), runs)),
    decreases runs.len(),
{
    if runs.len() > 0 {
        lemma_runs_are_orderly(tasks, runs.drop_last());
        let before = after_runs(at_start(tasks), runs.drop_last());
        let after = after_runs(at_start(tasks), runs);
        lemma_first_ready(before.remaining, before.progress.order, 0);
        match first_ready(before.remaining, before.progress.order, 0) {
            Some(at) => {
                let i = at as int;
                let name = before.remaining[i].id;
                assert(has_task(before.remaining, name));
                let order = after.progress.order;
                assert(order == before.progress.order.push(name));
                assert forall|id: Seq<char>| #[trigger] order.contains(id) == (
                before.progress.order.contains(id) || id == name) by {
                    if id == name {
                        assert(order[order.len() - 1] == name);
                    }
                    if before.progress.order.contains(id) {
                        let k = before.progress.order.index_of(id);
                        assert(order[k] == id);
                    }
                }
                assert forall|id: Seq<char>| #[trigger] has_task(after.remaining, id) implies has_task(
                    before.remaining,
                    id,
                ) && id != name by {
                    let k = choose|k: int|
                        0 <= k < after.remaining.len() && (#[trigger] after.remaining[k]).id == id;
                    let was = if k < i {
                        k
                    } else {
                        k + 1
                    };
                    assert(before.remaining[was].id == id);
                }
                assert forall|a: int, b: int|
                    0 <= a < after.remaining.len() && 0 <= b < after.remaining.len() && (
                    #[trigger] after.remaining[a]).id == (#[trigger] after.remaining[b]).id implies a
                    == b by {
                    let x = if a < i {
                        a
                    } else {
                        a + 1
                    };
                    let y = if b < i {
                        b
                    } else {
                        b + 1
                    };
                    assert(before.remaining[x].id == before.remaining[y].id);
                }
            },
            None => {},
        }
    }
}

proof fn lemma_given_up_fails_what_is_left(p: Progress, tasks: Seq<TaskSpec>)
    ensures
        given_up(p, tasks).order == p.order,
        given_up(p, tasks).completed == p.completed,
        forall|id: Seq<char>| #[trigger]
            given_up(p, tasks).failed.contains_key(id) == (p.failed.contains_key(id) || has_task(
                tasks,
                id,
            )),
    decreases tasks.len(),
{
    if tasks.len() > 0 {
        let front = tasks.drop_last();
        lemma_given_up_fails_what_is_left(p, front);
        assert forall|id: Seq<char>| has_task(tasks, id) == (has_task(front, id)
            || tasks.last().id == id) by {
            if has_task(tasks, id) {
                let k = choose|k: int| 0 <= k < tasks.len() && (#[trigger] tasks[k]).id == id;
                if k < front.len() {
                    assert(front[k].id == id);
                }
            }
            if has_task(front, id) {
                let k = choose|k: int| 0 <= k < front.len() && (#[trigger] front[k]).id == id;
                assert(tasks[k].id == id);
            }
            assert(tasks[tasks.len() - 1] == tasks.last());
        }
        let failed = given_up(p, front).failed;
        assert forall|id: Seq<char>| #[trigger]
            given_up(p, tasks).failed.contains_key(id) == (p.failed.contains_key(id) || has_task(
                tasks,
                id,
            )) by {
            assert(failed.contains_key(id) == (p.failed.contains_key(id) || has_task(front, id)));
            assert(has_task(tasks, id) == (has_task(front, id) || tasks.last().id == id));
        }
    }
}

/// The task that is run next is the first of those that are left for which everything that they wait
/// for was run.
pub proof fn law_first_task_that_can_be_run_is_next(s: Standing, i: int)
    requires
        0 <= i < s.remaining.len(),
        forall|k: int|
            0 <= k < s.remaining[i].depends_on.len() ==> s.progress.order.contains(
                #[trigger] s.remaining[i].depends_on[k],
            ),
        forall|j: int|
            0 <= j < i ==> exists|k: int|
                0 <= k < (#[trigger] s.remaining[j]).depends_on.len() && !s.progress.order.contains(
                    #[trigger] s.remaining[j].depends_on[k],
                ),
    ensures
        next_task(s) == Some(s.remaining[i]),
{
    lemma_first_ready(s.remaining, s.progress.order, 0);
    assert(is_ready(s.remaining[i], s.progress.order));
    lemma_none_ready_before(s.remaining, s.progress.order, 0, i as nat);
}

proof fn lemma_none_ready_before(
    tasks: Seq<TaskSpec>,
    order: Seq<Seq<char>>,
    from: nat,
    i: nat,
)
    requires
        from <= i < tasks.len(),
        is_ready(tasks[i as int], order),
        forall|j: int| from <= j < i ==> !is_ready(#[trigger] tasks[j], order),
    ensures
        first_ready(tasks, order, from) == Some(i),
    decreases i - from,
{
    if from < i {
        assert(!is_ready(tasks[from as int], order));
        lemma_none_ready_before(tasks, order, from + 1, i);
    }
}

proof fn lemma_given_up_keeps(p: Progress, tasks: Seq<TaskSpec>, id: Seq<char>)
    requires
        !has_task(tasks, id),
    ensures
        given_up(p, tasks).failed.contains_key(id) == p.failed.contains_key(id),
        p.failed.contains_key(id) ==> given_up(p, tasks).failed[id] == p.failed[id],
    decreases tasks.len(),
{
    if tasks.len() > 0 {
        let front = tasks.drop_last();
        assert(tasks[tasks.len() - 1].id != id);
        if has_task(front, id) {
            let k = choose|k: int| 0 <= k < front.len() && (#[trigger] front[k]).id == id;
            assert(tasks[k].id == id);
        }
        lemma_given_up_keeps(p, front, id);
    }
}

proof fn lemma_run_is_recorded(tasks: Seq<TaskSpec>, runs: Seq<RunSpec>, k: int)
    requires
        distinct_tasks(tasks),
        proceeds(tasks, runs),
        0 <= k < runs.len(),
    ensures
        ({
            let p = after_runs(at_start(tasks), runs).progress;
            let id = p.order[k];
            match runs[k] {
                RunSpec::Done(response) => p.completed.contains_key(id) && p.completed[id]
                    == response,
                RunSpec::Failed(error) => p.failed.contains_key(id) && p.failed[id] == error,
            }
        }),
    decreases runs.len(),
{
    let front = runs.drop_last();
    lemma_proceeds_before(tasks, runs);
    law_each_run_takes_one_task(tasks, runs);
    law_each_run_takes_one_task(tasks, front);
    lemma_runs_are_orderly(tasks, runs);
    let before = after_runs(at_start(tasks), front);
    let after = after_runs(at_start(tasks), runs);
    lemma_first_ready(before.remaining, before.progress.order, 0);
    if k < runs.len() - 1 {
        lemma_run_is_recorded(tasks, front, k);
        assert(front[k] == runs[k]);
        assert(after.progress.order[k] == before.progress.order[k]);
        assert(after.progress.order[k] != after.progress.order[runs.len() - 1]);
    }
}

/// What came of each run stands in the end under the name of its task: the answer if the task was
/// done, and else why it failed.
pub proof fn law_runs_are_recorded(tasks: Seq<TaskSpec>, runs: Seq<RunSpec>, k: int)
    requires
        distinct_tasks(tasks),
        proceeds(tasks, runs),
        0 <= k < runs.len(),
    ensures
        ({
            let p = in_the_end(after_runs(at_start(tasks), runs));
            let id = p.order[k];
            match runs[k] {
                RunSpec::Done(response) => p.completed.contains_key(id) && p.completed[id]
                    == response && !p.failed.contains_key(id),
                RunSpec::Failed(error) => p.failed.contains_key(id) && p.failed[id] == error
                    && !p.completed.contains_key(id),
            }
        }),
{
    let s = after_runs(at_start(tasks), runs);
    let id = s.progress.order[k];
    law_each_run_takes_one_task(tasks, runs);
    lemma_run_is_recorded(tasks, runs, k);
    lemma_runs_are_orderly(tasks, runs);
    lemma_given_up_fails_what_is_left(s.progress, s.remaining);
    assert(s.progress.order.contains(id));
    lemma_given_up_keeps(s.progress, s.remaining, id);
}

/// What is told, from the start to the end of a run, is told in full: that the task begins and what
/// it asks, what it answers to the others, and what came of it.
pub proof fn law_runs_are_told(p: Progress, task: TaskSpec, run: RunSpec)
    ensures
        ({
            let after = recorded(p, task, run);
            let told = after.messages.skip(p.messages.len() as int);
            &&& p.messages.is_prefix_of(after.messages)
            &&& told[0] == MessageSpec::Started(task.id, task.query)
            &&& match run {
                RunSpec::Done(response) => told =~= seq![
                    told[0],
                    MessageSpec::Broadcast(task.id, response.answer),
                    MessageSpec::Completed(task.id, response),
                ],
                RunSpec::Failed(error) => told =~= seq![
                    told[0],
                    MessageSpec::Failed(task.id, error),
                ],
            }
        }),
{
    assert(p.messages =~= recorded(p, task, run).messages.subrange(0, p.messages.len() as int));
}

/// A task that never can be run fails, and the reason names it.
pub proof fn law_what_cannot_be_run_fails(s: Standing, i: int)
    requires
        distinct_tasks(s.remaining),
        0 <= i < s.remaining.len(),
    ensures
        ({
            let p = in_the_end(s);
            let id = s.remaining[i].id;
            p.failed.contains_key(id) && text::occurs_in(p.failed[id], id)
        }),
{
    lemma_given_up_names(s.progress, s.remaining, i);
}

proof fn lemma_given_up_names(p: Progress, tasks: Seq<TaskSpec>, i: int)
    requires
        distinct_tasks(tasks),
        0 <= i < tasks.len(),
    ensures
        given_up(p, tasks).failed.contains_key(tasks[i].id),
        text::occurs_in(given_up(p, tasks).failed[tasks[i].id], tasks[i].id),
    decreases tasks.len(),
{
    let last = tasks.last();
    assert(tasks[tasks.len() - 1] == last);
    if i == tasks.len() - 1 {
        text::lemma_part_occurs(
            "Unsatisfied dependencies for task '"@,
            last.id,
            "': "@ + debug_list(last.depends_on),
        );
        assert("Unsatisfied dependencies for task '"@ + last.id + ("': "@ + debug_list(
            last.depends_on,
        )) =~= unsatisfied(last));
    } else {
        let front = tasks.drop_last();
        assert forall|a: int, b: int|
            0 <= a < front.len() && 0 <= b < front.len() && (#[trigger] front[a]).id == (
            #[trigger] front[b]).id implies a == b by {
            assert(tasks[a].id == tasks[b].id);
        }
        lemma_given_up_names(p, front, i);
        assert(front[i] == tasks[i]);
    }
}

/// No task is run twice, only tasks are run, and in the end each task is either done or failed, and
/// nothing else is.
pub proof fn law_no_task_is_run_twice(tasks: Seq<TaskSpec>, runs: Seq<RunSpec>)
    requires
        distinct_tasks(tasks),
    ensures
        ({
            let p = in_the_end(after_runs(at_start(tasks), runs));
            &&& p.order.no_duplicates()
            &&& forall|id: Seq<char>| #[trigger] p.order.contains(id) ==> has_task(tasks, id)
            &&& forall|id: Seq<char>| #[trigger]
                has_task(tasks, id) ==> p.completed.contains_key(id) != p.failed.contains_key(id)
            &&& forall|id: Seq<char>| #[trigger]
                p.completed.contains_key(id) ==> has_task(tasks, id)
            &&& forall|id: Seq<char>| #[trigger] p.failed.contains_key(id) ==> has_task(tasks, id)
        }),
{
    let s = after_runs(at_start(tasks), runs);
    lemma_runs_are_orderly(tasks, runs);
    lemma_given_up_fails_what_is_left(s.progress, s.remaining);
    let p = in_the_end(s);
    assert forall|id: Seq<char>| #[trigger] has_task(tasks, id) implies p.completed.contains_key(id)
        != p.failed.contains_key(id) by {
        let j = choose|j: int| 0 <= j < tasks.len() && (#[trigger] tasks[j]).id == id;
        lemma_left_or_answered(tasks, runs, j);
        if exists|i: int| 0 <= i < s.remaining.len() && #[trigger] s.remaining[i].id == id {
            assert(has_task(s.remaining, id));
        } else {
            assert(!has_task(s.remaining, id));
        }
        assert(p.failed.contains_key(id) == (s.progress.failed.contains_key(id) || has_task(
            s.remaining,
            id,
        )));
    }
}

} // verus!
