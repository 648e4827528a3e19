use atlas::agent::json::Json;
use atlas::agent::protocol::{AgentResult, ToolCall, ToolResult};
use atlas::agent::tool::BuiltinTool;
use atlas::agent::tools::run_command::{
    truncate_bytes, CommandOutput, CommandStep, RunCommandTool,
};

fn make_call(command: &str, args: Vec<Json>) -> ToolCall {
    let call = ToolCall::new("run_command").with_argument("command", Json::text(command));
    if args.is_empty() {
        call
    } else {
        call.with_argument("args", Json::Array(args))
    }
}

fn run(tool: &RunCommandTool, call: &ToolCall, output: CommandOutput) -> AgentResult<ToolResult> {
    match tool.execute(call) {
        CommandStep::Done(r) => r,
        CommandStep::Run(line) => tool.finish(&line, Ok(output)),
    }
}

fn output(code: Option<i32>, stdout: &[u8]) -> CommandOutput {
    CommandOutput { exit_code: code, stdout: stdout.to_vec(), stderr: vec![] }
}

#[test]
fn test_run_command_echo() {
    let tool = RunCommandTool::new();
    let call = make_call("cargo", vec![Json::text("--version")]);
    match tool.execute(&call) {
        CommandStep::Run(line) => {
            assert_eq!(line.command, "cargo");
            assert_eq!(line.args, vec!["--version"]);
        }
        CommandStep::Done(_) => panic!("the command was not run"),
    }
    let result = run(&tool, &call, output(Some(0), b"cargo 1.0.0\n")).unwrap();
    assert!(result.success);
    assert_eq!(result.value.field("exit_code").unwrap().as_i64().unwrap(), 0);
    assert!(result.value.field("stdout").unwrap().as_str().unwrap().contains("cargo"));
}

#[test]
fn test_run_command_disallowed() {
    let tool = RunCommandTool::new();
    let call = make_call("rm", vec![Json::text("-rf")]);
    let result = run(&tool, &call, output(Some(0), b"")).unwrap();
    assert!(!result.success);
    assert!(result.value.as_str().unwrap().contains("whitelist"));
}

#[test]
fn test_run_command_custom_whitelist() {
    let tool = RunCommandTool::new().with_whitelist(vec!["echo".into()]);
    assert!(tool.is_allowed("echo"));
    assert!(!tool.is_allowed("git"));
}

#[test]
fn test_run_command_missing_param() {
    let tool = RunCommandTool::new();
    let call = ToolCall::new("run_command");
    assert!(run(&tool, &call, output(Some(0), b"")).is_err());
}

#[test]
fn test_run_command_not_cacheable() {
    let tool = RunCommandTool::new();
    assert!(!tool.is_cacheable());
}

#[test]
fn test_run_command_definition() {
    let def = RunCommandTool::new().definition();
    assert_eq!(def.name, "run_command");
    assert_eq!(def.required_params(), vec!["command"]);
}

#[test]
fn test_truncate_bytes() {
    assert_eq!(truncate_bytes(&b"hello".to_vec(), 100), "hello");
    assert_eq!(truncate_bytes(&b"abcdef".to_vec(), 3), "abc");
}

#[test]
fn bytes_that_are_no_text_are_replaced() {
    assert_eq!(truncate_bytes(&vec![b'a', 0xff, b'b'], 100), "a\u{fffd}b");
}

#[test]
fn output_is_kept_up_to_its_limit() {
    let tool = RunCommandTool::new().with_max_output(4);
    let call = make_call("git", vec![]);
    let result = run(&tool, &call, output(None, b"0123456789")).unwrap();
    assert_eq!(result.value.field("stdout").unwrap().as_str(), Some("0123"));
    assert_eq!(result.value.field("exit_code").unwrap().as_i64(), Some(-1));
}

#[test]
fn a_command_that_does_not_start_is_an_error() {
    let tool = RunCommandTool::new();
    let call = make_call("git", vec![]);
    let line = match tool.execute(&call) {
        CommandStep::Run(line) => line,
        CommandStep::Done(_) => panic!("the command was not run"),
    };
    assert!(tool.finish(&line, Err("no such file".to_string())).is_err());
}

#[test]
fn commands_are_allowed_whatever_their_case() {
    let tool = RunCommandTool::new();
    assert!(tool.is_allowed("git"));
    assert!(tool.is_allowed("GIT"));
}
