use std::collections::HashMap;
use std::sync::atomic::{AtomicUsize, Ordering};
use std::sync::{Arc, Mutex};

use atlas::agent::orchestrator::{
    AgentMessage, AgentOrchestrator, AgentTask, OrchestrationResult, SubAgentRunner,
};
use atlas::agent::protocol::{AgentError, AgentResult};
use atlas::agent::response::AgentResponse;
use atlas::agent::types::{AgentConfig, AgentMetrics, AgentStopReason, TokenUsage};

fn synthetic_response(answer: &str) -> AgentResponse {
    AgentResponse {
        answer: answer.to_string(),
        sources: vec![],
        steps: vec![],
        total_token_usage: TokenUsage::default(),
        total_duration_ms: 0,
        total_tool_calls: 0,
        stop_reason: AgentStopReason::Completed,
        metrics: AgentMetrics::default(),
        self_evaluation: None,
    }
}

struct MockRunner {
    answers: HashMap<String, String>,
    call_count: Arc<Mutex<HashMap<String, usize>>>,
}

impl MockRunner {
    fn new<I: IntoIterator<Item = (String, String)>>(iter: I) -> Self {
        Self {
            answers: iter.into_iter().collect(),
            call_count: Arc::new(Mutex::new(HashMap::new())),
        }
    }

    fn calls(&self, id: &str) -> usize {
        self.call_count.lock().unwrap().get(id).copied().unwrap_or(0)
    }
}

impl SubAgentRunner for MockRunner {
    fn run(&self, task: &AgentTask) -> AgentResult<AgentResponse> {
        let mut counts = self.call_count.lock().unwrap();
        *counts.entry(task.id.clone()).or_insert(0) += 1;
        drop(counts);
        match self.answers.get(&task.id) {
            Some(ans) => Ok(synthetic_response(ans)),
            None => Err(AgentError::Internal(format!("no answer for {}", task.id))),
        }
    }
}

#[test]
fn orchestrator_executes_independent_tasks() {
    let runner = MockRunner::new([
        ("a".to_string(), "answerA".to_string()),
        ("b".to_string(), "answerB".to_string()),
    ]);
    let orch = AgentOrchestrator::new(runner)
        .add_task(AgentTask::new("a", "queryA"))
        .add_task(AgentTask::new("b", "queryB"));
    let result = orch.execute();
    assert!(result.is_success());
    assert_eq!(result.completed.len(), 2);
    assert_eq!(result.completed.get("a").unwrap().answer, "answerA");
    assert_eq!(result.completed.get("b").unwrap().answer, "answerB");
    assert_eq!(result.execution_order.len(), 2);
}

#[test]
fn orchestrator_respects_dependencies() {
    let runner = MockRunner::new([
        ("child".to_string(), "childAnswer".to_string()),
        ("parent".to_string(), "parentAnswer".to_string()),
    ]);
    let orch = AgentOrchestrator::new(runner)
        .add_task(AgentTask::new("parent", "queryParent").depends_on("child"))
        .add_task(AgentTask::new("child", "queryChild"));
    let result = orch.execute();
    assert!(result.is_success());
    assert_eq!(result.execution_order, vec!["child", "parent"]);
}

#[test]
fn orchestrator_unsatisfied_dependency_fails() {
    let runner = MockRunner::new([("a".to_string(), "ansA".to_string())]);
    let orch = AgentOrchestrator::new(runner)
        .add_task(AgentTask::new("a", "queryA").depends_on("missing"));
    let result = orch.execute();
    assert!(!result.is_success());
    assert!(result.failed.contains_key("a"));
    assert_eq!(
        result.failed.get("a").unwrap(),
        "Unsatisfied dependencies for task 'a': [\"missing\"]"
    );
    assert!(result.execution_order.is_empty());
}

#[test]
fn orchestrator_records_messages() {
    let runner = MockRunner::new([("a".to_string(), "ansA".to_string())]);
    let orch = AgentOrchestrator::new(runner).add_task(AgentTask::new("a", "q"));
    let result = orch.execute();
    let kinds: Vec<&str> = result
        .messages
        .iter()
        .map(|m| match m {
            AgentMessage::Started { .. } => "started",
            AgentMessage::Completed { .. } => "completed",
            AgentMessage::Broadcast { .. } => "broadcast",
            AgentMessage::Failed { .. } => "failed",
        })
        .collect();
    assert!(kinds.contains(&"started"));
    assert!(kinds.contains(&"broadcast"));
    assert!(kinds.contains(&"completed"));
    assert_eq!(kinds, vec!["started", "broadcast", "completed"]);
}

#[test]
fn orchestrator_run_one_invokes_runner_once() {
    let runner = MockRunner::new([("x".to_string(), "X".to_string())]);
    let orch = AgentOrchestrator::new(runner);
    let resp = orch.run_one(&AgentTask::new("x", "q")).unwrap();
    assert_eq!(resp.answer, "X");
    assert_eq!(orch.runner.calls("x"), 1);
}

#[test]
fn orchestration_result_default_is_empty() {
    let r = OrchestrationResult::default();
    assert!(r.is_success());
    assert_eq!(r.completed.len(), 0);
    assert_eq!(r.failed.len(), 0);
}

#[test]
fn task_builder_methods() {
    let cfg = AgentConfig::default();
    let task = AgentTask::new("id", "q").depends_on("dep").with_config(cfg.clone());
    assert_eq!(task.id, "id");
    assert_eq!(task.depends_on, vec!["dep"]);
    assert!(task.config_override.is_some());
}

#[test]
fn atomic_runner_counter_is_thread_safe() {
    let _ = AtomicUsize::new(0).fetch_add(1, Ordering::SeqCst);
}

#[test]
fn a_task_that_failed_does_not_hold_up_the_others() {
    let runner = MockRunner::new([("after".to_string(), "done".to_string())]);
    let orch = AgentOrchestrator::new(runner).add_tasks(vec![
        AgentTask::new("after", "q").depends_on("bad"),
        AgentTask::new("bad", "q"),
        AgentTask::new("stuck", "q").depends_on("after").depends_on("nobody"),
    ]);
    let result = orch.execute();
    assert_eq!(result.execution_order, vec!["bad", "after"]);
    assert_eq!(result.failed.get("bad").unwrap(), "Internal error: no answer for bad");
    assert_eq!(result.completed.get("after").unwrap().answer, "done");
    assert_eq!(
        result.failed.get("stuck").unwrap(),
        "Unsatisfied dependencies for task 'stuck': [\"after\", \"nobody\"]"
    );
}

#[test]
fn tasks_in_a_circle_all_fail() {
    let orch = AgentOrchestrator::new(MockRunner::new([])).add_tasks(vec![
        AgentTask::new("a", "q").depends_on("b"),
        AgentTask::new("b", "q").depends_on("a"),
    ]);
    let result = orch.execute();
    assert!(result.execution_order.is_empty());
    assert_eq!(result.failed.len(), 2);
    assert_eq!(result.messages.len(), 2);
}

#[test]
fn each_task_is_run_once_and_answered_once() {
    let answers = [("a".to_string(), "A".to_string()), ("c".to_string(), "C".to_string())];
    let orch = AgentOrchestrator::new(MockRunner::new(answers)).add_tasks(vec![
        AgentTask::new("c", "q").depends_on("b"),
        AgentTask::new("a", "q"),
        AgentTask::new("b", "q").depends_on("a"),
        AgentTask::new("d", "q").depends_on("nobody"),
    ]);
    let result = orch.execute();
    assert_eq!(result.execution_order, vec!["a", "b", "c"]);
    for id in ["a", "b", "c", "d"] {
        assert!(result.completed.contains_key(id) != result.failed.contains_key(id), "{id}");
    }
    assert_eq!((result.completed.len(), result.failed.len()), (2, 2));
}
