//! Running a command.

use vstd::prelude::*;
use vstd::string::*;

use crate::agent::json;
use crate::agent::json::{Fields, Json, JsonValue};
use crate::agent::protocol;
use crate::agent::protocol::{
    AgentError, AgentResult, DefinitionSpec, ErrorSpec, Outcome, ParameterType, ToolCall,
    ToolDefinition, ToolParameter, ToolResult,
};
use crate::agent::tool;
use crate::agent::tool::BuiltinTool;
use crate::text;

verus! {

/// The commands that may be run unless others are named.
pub open spec fn default_whitelist() -> Seq<Seq<char>> {
    seq![
        "ls"@,
        "pwd"@,
        "cat"@,
        "head"@,
        "tail"@,
        "wc"@,
        "find"@,
        "git"@,
        "rg"@,
        "grep"@,
        "cargo"@,
        "rustc"@,
        "echo"@,
        "tree"@,
        "stat"@,
        "file"@,
    ]
}

/// The commands that may be run unless others are named are these, and no others.
pub proof fn law_usual_commands(command: Seq<char>)
    ensures
        default_whitelist().contains(command) <==> (command == "ls"@ || command == "pwd"@ || command
            == "cat"@ || command == "head"@ || command == "tail"@ || command == "wc"@ || command
            == "find"@ || command == "git"@ || command == "rg"@ || command == "grep"@ || command
            == "cargo"@ || command == "rustc"@ || command == "echo"@ || command == "tree"@
            || command == "stat"@ || command == "file"@),
{
    let list = default_whitelist();
    assert(list[0] == "ls"@ && list[1] == "pwd"@ && list[2] == "cat"@ && list[3] == "head"@);
    assert(list[4] == "tail"@ && list[5] == "wc"@ && list[6] == "find"@ && list[7] == "git"@);
    assert(list[8] == "rg"@ && list[9] == "grep"@ && list[10] == "cargo"@ && list[11]
        == "rustc"@);
    assert(list[12] == "echo"@ && list[13] == "tree"@ && list[14] == "stat"@ && list[15]
        == "file"@);
}

/// Runs a command that is on a whitelist.
pub struct RunCommandTool {
    pub whitelist: Vec<String>,
    pub max_output_bytes: usize,
}

/// What the definition of the tool says.
pub open spec fn run_definition() -> DefinitionSpec {
    DefinitionSpec {
        name: "run_command"@,
        description: "Run a whitelisted shell command and capture its stdout/stderr. Only read-only / observation commands are allowed by default (ls, cat, git, cargo, rg, ...). Output is truncated to a safe size."@,
        parameters: seq![
            protocol::parameter(
                "command"@,
                ParameterType::Text,
                "The executable name to run (must be on the whitelist)"@,
                true,
            ),
            protocol::parameter(
                "args"@,
                ParameterType::Array,
                "Arguments to pass to the command"@,
                false,
            ),
        ],
    }
}

/// Place `i` of the whitelist names a command, whatever the case of its letters.
pub open spec fn names_command(whitelist: Seq<Seq<char>>, i: int, command: Seq<char>) -> bool {
    0 <= i < whitelist.len() && text::lowercase(whitelist[i]) == text::lowercase(command)
}

/// A command is on the whitelist.
pub open spec fn allowed(whitelist: Seq<Seq<char>>, command: Seq<char>) -> bool {
    exists|i: int| #[trigger] names_command(whitelist, i, command)
}

/// The arguments that a call hands to its command: the items of `args`, strings as they are and
/// anything else as JSON.
pub open spec fn command_args(call: ToolCall) -> Seq<Seq<char>> {
    match call.argument("args"@) {
        Some(v) => match v.items() {
            Some(items) => Seq::new(items.len(), |i: int| tool::shown(items[i])),
            None => Seq::empty(),
        },
        None => Seq::empty(),
    }
}

/// A command that is to be run.
pub struct CommandLine {
    pub command: String,
    pub args: Vec<String>,
}

/// What is to be done for a call: nothing more, or a command is to be run.
pub enum CommandStep {
    Done(AgentResult<ToolResult>),
    Run(CommandLine),
}

/// What is to be done for a call.
pub enum CommandPlan {
    /// Nothing but to answer.
    Answer(Outcome),
    /// To run a command with arguments.
    Run(Seq<char>, Seq<Seq<char>>),
}

/// The step is this plan.
pub open spec fn is_plan(step: CommandStep, plan: CommandPlan) -> bool {
    match step {
        CommandStep::Done(r) => match plan {
            CommandPlan::Answer(outcome) => protocol::is_outcome(r, outcome),
            CommandPlan::Run(_, _) => false,
        },
        CommandStep::Run(c) => plan == CommandPlan::Run(c.command@, text::views(c.args@)),
    }
}

/// What is to be done for a call: a command that is not on the whitelist is refused.
pub open spec fn command_plan(call: ToolCall, whitelist: Seq<Seq<char>>) -> CommandPlan {
    match protocol::first_missing(run_definition().parameters, call.arguments@.dom()) {
        Some(name) => CommandPlan::Answer(
            Outcome::Fails("run_command"@, protocol::missing_parameter(name)),
        ),
        None => {
            let command = call.text_argument("command"@)->0;
            if allowed(whitelist, command) {
                CommandPlan::Run(command, command_args(call))
            } else {
                CommandPlan::Answer(
                    Outcome::Answers(
                        protocol::failed(
                            "Command '"@ + command + "' is not in the whitelist. Allowed: "@
                                + text::join(whitelist, ", "@),
                        ),
                    ),
                )
            }
        },
    }
}

/// Every command that is run is on the whitelist.
pub proof fn law_only_allowed_commands_run(
    call: ToolCall,
    whitelist: Seq<Seq<char>>,
    command: Seq<char>,
    args: Seq<Seq<char>>,
)
    requires
        command_plan(call, whitelist) == CommandPlan::Run(command, args),
    ensures
        allowed(whitelist, command),
        call.text_argument("command"@) is Some ==> call.text_argument("command"@) == Some(command),
{
}

/// A command that stands on the whitelist, in whatever case, is run with the arguments that the call
/// gives, one by one: a text as it is. A command that does not is refused.
pub proof fn law_allowed_commands_run(call: ToolCall, whitelist: Seq<Seq<char>>, command: Seq<char>)
    requires
        call.text_argument("command"@) == Some(command),
    ensures
        whitelist.contains(command) ==> command_plan(call, whitelist) is Run,
        (exists|i: int|
            0 <= i < whitelist.len() && text::lowercase(#[trigger] whitelist[i]) == text::lowercase(
                command,
            )) <==> command_plan(call, whitelist) is Run,
        command_plan(call, whitelist) matches CommandPlan::Run(name, args) ==> name == command && (
        match call.argument("args"@) {
            Some(JsonValue::Array(items)) => args.len() == items.len() && forall|i: int|
                0 <= i < items.len() ==> (#[trigger] items[i] matches JsonValue::String(s) ==> args[i]
                    == s),
            _ => args.len() == 0,
        }),
        !(command_plan(call, whitelist) is Run) ==> (command_plan(
            call,
            whitelist,
        ) matches CommandPlan::Answer(Outcome::Answers(r)) && !r.success),
{
    let ps = run_definition().parameters;
    let given = call.arguments@.dom();
    assert(given.contains("command"@));
    protocol::law_valid_call_gives_required(ps, given);
    if whitelist.contains(command) {
        let i = choose|i: int| 0 <= i < whitelist.len() && whitelist[i] == command;
        assert(names_command(whitelist, i, command));
    }
    if exists|i: int|
        0 <= i < whitelist.len() && text::lowercase(#[trigger] whitelist[i]) == text::lowercase(
            command,
        ) {
        let i = choose|i: int|
            0 <= i < whitelist.len() && text::lowercase(#[trigger] whitelist[i])
                == text::lowercase(command);
        assert(names_command(whitelist, i, command));
    }
    if allowed(whitelist, command) {
        let i = choose|i: int| #[trigger] names_command(whitelist, i, command);
        assert(text::lowercase(whitelist[i]) == text::lowercase(command));
    }
}

/// What a command left behind.
pub struct CommandOutput {
    /// The exit code, if the command ended by itself.
    pub exit_code: Option<i32>,
    pub stdout: Vec<u8>,
    pub stderr: Vec<u8>,
}

/// The first bytes of an output.
pub open spec fn limited(bytes: Seq<u8>, max: nat) -> Seq<u8> {
    if bytes.len() > max {
        bytes.take(max as int)
    } else {
        bytes
    }
}

/// The first bytes of an output as a text.
pub fn truncate_bytes(bytes: &Vec<u8>, max: usize) -> (r: String)
    ensures
        r@ == text::lossy_text(limited(bytes@, max as nat)),
{
    let n: usize = if bytes.len() > max {
        max
    } else {
        bytes.len()
    };
    let mut first: Vec<u8> = Vec::new();
    let mut i: usize = 0;
    while i < n
        invariant
            i <= n <= bytes@.len(),
            first@ == bytes@.take(i as int),
        decreases n - i,
    {
        first.push(bytes[i]);
        i += 1;
        assert(first@ =~= bytes@.take(i as int));
    }
    assert(bytes@.take(n as int) =~= limited(bytes@, max as nat));
    text::text_from_utf8_lossy(&first)
}

/// The exit code that is reported: -1 for a command that did not end by itself.
pub open spec fn reported_code(code: Option<i32>) -> i64 {
    match code {
        Some(c) => c as i64,
        None => (-1) as i64,
    }
}

/// The fields of what is answered once a command has run.
pub open spec fn command_fields(
    command: Seq<char>,
    args: Seq<Seq<char>>,
    output: CommandOutput,
    max: nat,
) -> Seq<(Seq<char>, JsonValue)> {
    seq![
        ("command"@, JsonValue::String(command)),
        ("args"@, JsonValue::Array(json::text_values(args))),
        ("exit_code"@, json::integer_value(reported_code(output.exit_code))),
        ("stdout"@, JsonValue::String(text::lossy_text(limited(output.stdout@, max)))),
        ("stderr"@, JsonValue::String(text::lossy_text(limited(output.stderr@, max)))),
        ("truncated_stdout"@, JsonValue::Bool(output.stdout@.len() > max)),
        ("truncated_stderr"@, JsonValue::Bool(output.stderr@.len() > max)),
    ]
}

/// What comes of a call once its command was to be run.
pub open spec fn run_outcome(
    command: Seq<char>,
    args: Seq<Seq<char>>,
    ran: Result<CommandOutput, String>,
    max: nat,
) -> Outcome {
    match ran {
        Ok(output) => Outcome::Answers(
            protocol::succeeded(JsonValue::Object(command_fields(command, args, output, max))),
        ),
        Err(reason) => Outcome::Fails(
            "run_command"@,
            "Failed to spawn '"@ + command + "': "@ + reason@,
        ),
    }
}

/// The answer tells the command and its arguments, its exit code or -1, and each of its outputs: all
/// of it, or as many bytes as are kept, with the word that something was cut off.
pub proof fn law_command_answer_tells_its_output(
    command: Seq<char>,
    args: Seq<Seq<char>>,
    output: CommandOutput,
    max: nat,
)
    ensures
        run_outcome(command, args, Ok(output), max) matches Outcome::Answers(r) && r.success && ({
            let out = output.stdout@;
            let err = output.stderr@;
            &&& r.value.field("command"@) == Some(JsonValue::String(command))
            &&& r.value.field("args"@) matches Some(JsonValue::Array(items)) && items.len()
                == args.len() && forall|i: int|
                0 <= i < args.len() ==> #[trigger] items[i] == JsonValue::String(args[i])
            &&& r.value.field("exit_code"@) == Some(
                json::integer_value(
                    match output.exit_code {
                        Some(code) => code as i64,
                        None => -1i64,
                    },
                ),
            )
            &&& r.value.field("stdout"@) == Some(
                JsonValue::String(
                    text::lossy_text(
                        if out.len() <= max {
                            out
                        } else {
                            out.subrange(0, max as int)
                        },
                    ),
                ),
            )
            &&& r.value.field("stderr"@) == Some(
                JsonValue::String(
                    text::lossy_text(
                        if err.len() <= max {
                            err
                        } else {
                            err.subrange(0, max as int)
                        },
                    ),
                ),
            )
            &&& r.value.field("truncated_stdout"@) == Some(JsonValue::Bool(out.len() > max))
            &&& r.value.field("truncated_stderr"@) == Some(JsonValue::Bool(err.len() > max))
        }),
{
    reveal_strlit("command");
    reveal_strlit("args");
    reveal_strlit("exit_code");
    reveal_strlit("stdout");
    reveal_strlit("stderr");
    reveal_strlit("truncated_stdout");
    reveal_strlit("truncated_stderr");
    assert("command"@.len() == 7);
    assert("args"@.len() == 4);
    assert("exit_code"@.len() == 9);
    assert("stdout"@.len() == 6);
    assert("stderr"@.len() == 6);
    assert("truncated_stdout"@.len() == 16);
    assert("truncated_stderr"@.len() == 16);
    assert("stdout"@[3] != "stderr"@[3]);
    assert("truncated_stdout"@[13] != "truncated_stderr"@[13]);
    let fields = command_fields(command, args, output, max);
    json::lemma_field(fields, 0);
    json::lemma_field(fields, 1);
    json::lemma_field(fields, 2);
    json::lemma_field(fields, 3);
    json::lemma_field(fields, 4);
    json::lemma_field(fields, 5);
    json::lemma_field(fields, 6);
    let out = output.stdout@;
    let err = output.stderr@;
    if out.len() > max {
        assert(out.subrange(0, max as int) =~= out.take(max as int));
    }
    if err.len() > max {
        assert(err.subrange(0, max as int) =~= err.take(max as int));
    }
}

/// A summary of an answer.
pub open spec fn run_summary(success: bool, value: JsonValue) -> Seq<char> {
    let code = match value.field("exit_code"@) {
        Some(v) => match v.as_integer() {
            Some(n) => n,
            None => 0,
        },
        None => 0i64,
    };
    if !success {
        "Error: "@ + json::json_text(value)
    } else {
        "`"@ + json::text_of(value, "command"@, "?"@) + "` exited with code "@ + text::decimal_int(
            code as int,
        )
    }
}

/// A summary of a command that ran names it and tells how it ended; one of a failure tells the
/// failure.
pub proof fn law_command_summary_tells_the_end(value: JsonValue, command: Seq<char>, code: i64)
    requires
        value.field("command"@) == Some(JsonValue::String(command)),
        value.field("exit_code"@) == Some(json::integer_value(code)),
    ensures
        run_summary(true, value) == "`"@ + command + "` exited with code "@ + text::decimal_int(
            code as int,
        ),
        run_summary(false, value) == "Error: "@ + json::json_text(value),
{
}

impl BuiltinTool for RunCommandTool {
    open spec fn defined(&self) -> DefinitionSpec {
        run_definition()
    }

    fn definition(&self) -> (r: ToolDefinition) {
        let r = ToolDefinition::new("run_command").description(
            "Run a whitelisted shell command and capture its stdout/stderr. Only read-only / observation commands are allowed by default (ls, cat, git, cargo, rg, ...). Output is truncated to a safe size.",
        ).parameter(
            ToolParameter::string("command").description(
                "The executable name to run (must be on the whitelist)",
            ).required(true),
        ).parameter(
            ToolParameter::array("args").description("Arguments to pass to the command"),
        );
        assert(r.spec().parameters =~= run_definition().parameters);
        r
    }

    open spec fn cacheable(&self) -> bool {
        false
    }

    fn is_cacheable(&self) -> (r: bool) {
        false
    }

    open spec fn key_of(&self, call: ToolCall) -> Seq<char> {
        tool::call_key(call)
    }

    fn cache_key(&self, call: &ToolCall) -> (r: String) {
        tool::cache_key(call)
    }

    open spec fn objection(&self, call: ToolCall) -> Option<ErrorSpec> {
        protocol::parameter_objection(self.defined(), call)
    }

    fn validate_arguments(&self, call: &ToolCall) -> (r: AgentResult<()>) {
        let definition = self.definition();
        protocol::validate_arguments(&definition, call)
    }
}

impl Default for RunCommandTool {
    fn default() -> (r: Self)
        ensures
            text::views(r.whitelist@) == default_whitelist(),
            r.max_output_bytes == 8192,
    {
        RunCommandTool::new()
    }
}

impl RunCommandTool {
    /// A tool with the default whitelist.
    pub fn new() -> (r: Self)
        ensures
            text::views(r.whitelist@) == default_whitelist(),
            r.max_output_bytes == 8192,
    {
        let whitelist = vec![
            "ls".to_owned(),
            "pwd".to_owned(),
            "cat".to_owned(),
            "head".to_owned(),
            "tail".to_owned(),
            "wc".to_owned(),
            "find".to_owned(),
            "git".to_owned(),
            "rg".to_owned(),
            "grep".to_owned(),
            "cargo".to_owned(),
            "rustc".to_owned(),
            "echo".to_owned(),
            "tree".to_owned(),
            "stat".to_owned(),
            "file".to_owned(),
        ];
        assert(text::views(whitelist@) =~= default_whitelist());
        RunCommandTool { whitelist, max_output_bytes: 8192 }
    }

    /// The same tool with another whitelist.
    #[must_use]
    pub fn with_whitelist(self, commands: Vec<String>) -> (r: Self)
        ensures
            r.whitelist == commands,
            r.max_output_bytes == self.max_output_bytes,
    {
        RunCommandTool { whitelist: commands, max_output_bytes: self.max_output_bytes }
    }

    /// The same tool, keeping at most so many bytes of each output.
    #[must_use]
    pub fn with_max_output(self, bytes: usize) -> (r: Self)
        ensures
            r.whitelist == self.whitelist,
            r.max_output_bytes == bytes,
    {
        RunCommandTool { whitelist: self.whitelist, max_output_bytes: bytes }
    }

    /// Tells whether a command is on the whitelist.
    pub fn is_allowed(&self, command: &str) -> (r: bool)
        ensures
            r == allowed(text::views(self.whitelist@), command@),
    {
        let ghost all = text::views(self.whitelist@);
        let lower = text::to_lowercase(command);
        let mut i: usize = 0;
        while i < self.whitelist.len()
            invariant
                i <= self.whitelist@.len(),
                all == text::views(self.whitelist@),
                lower@ == text::lowercase(command@),
                forall|k: int| 0 <= k < i ==> !#[trigger] names_command(all, k, command@),
            decreases self.whitelist@.len() - i,
        {
            let name = text::to_lowercase(self.whitelist[i].as_str());
            assert(all[i as int] == self.whitelist@[i as int]@);
            if text::same_text(name.as_str(), lower.as_str()) {
                assert(names_command(all, i as int, command@));
                return true;
            }
            i += 1;
        }
        false
    }

    /// Finds what is to be done for a call.
    pub fn execute(&self, call: &ToolCall) -> (r: CommandStep)
        requires
            call.arguments@.contains_key("command"@) ==> call.text_argument("command"@) is Some,
        ensures
            is_plan(r, command_plan(*call, text::views(self.whitelist@))),
    {
        let definition = self.definition();
        match protocol::validate_arguments(&definition, call) {
            Ok(_) => {},
            Err(e) => {
                return CommandStep::Done(Err(e));
            },
        }
        proof {
            let ps = run_definition().parameters;
            protocol::law_valid_call_gives_required(ps, call.arguments@.dom());
            assert(ps[0].required);
        }
        let command: &str = call.get_string("command").unwrap();
        if !self.is_allowed(command) {
            let mut m = "Command '".to_owned();
            m.append(command);
            m.append("' is not in the whitelist. Allowed: ");
            let list = text::join_texts(&self.whitelist, ", ");
            m.append(list.as_str());
            return CommandStep::Done(Ok(ToolResult::error(m.as_str())));
        }
        let args = args_of(call);
        CommandStep::Run(CommandLine { command: command.to_owned(), args })
    }

    /// Answers a call once its command was to be run: what it left behind, or why it did not run.
    pub fn finish(&self, line: &CommandLine, ran: Result<CommandOutput, String>) -> (r: AgentResult<
        ToolResult,
    >)
        ensures
            protocol::is_outcome(
                r,
                run_outcome(
                    line.command@,
                    text::views(line.args@),
                    ran,
                    self.max_output_bytes as nat,
                ),
            ),
    {
        match ran {
            Ok(output) => {
                let stdout = truncate_bytes(&output.stdout, self.max_output_bytes);
                let stderr = truncate_bytes(&output.stderr, self.max_output_bytes);
                let code: i64 = match output.exit_code {
                    Some(c) => c as i64,
                    None => -1,
                };
                let fields = Fields::new().with("command", Json::text(line.command.as_str())).with(
                    "args",
                    Json::texts(&line.args),
                ).with("exit_code", Json::integer(code)).with(
                    "stdout",
                    Json::text(stdout.as_str()),
                ).with("stderr", Json::text(stderr.as_str())).with(
                    "truncated_stdout",
                    Json::truth(output.stdout.len() > self.max_output_bytes),
                ).with(
                    "truncated_stderr",
                    Json::truth(output.stderr.len() > self.max_output_bytes),
                );
                assert(fields.model() =~= command_fields(
                    line.command@,
                    text::views(line.args@),
                    output,
                    self.max_output_bytes as nat,
                ));
                Ok(ToolResult::success(fields.object()))
            },
            Err(reason) => {
                let mut m = "Failed to spawn '".to_owned();
                m.append(line.command.as_str());
                m.append("': ");
                m.append(reason.as_str());
                Err(AgentError::tool_error("run_command", m.as_str()))
            },
        }
    }

    /// Sums an answer up.
    pub fn summarize_result(&self, result: &ToolResult) -> (r: String)
        ensures
            r@ == run_summary(result.success, result.value.model()),
    {
        if !result.success {
            let mut r = "Error: ".to_owned();
            let m = json::compact(&result.value);
            r.append(m.as_str());
            return r;
        }
        let command = json::text_field(&result.value, "command", "?");
        let code: i64 = match result.value.field("exit_code") {
            Some(j) => match j.as_i64() {
                Some(n) => n,
                None => 0,
            },
            None => 0,
        };
        let mut r = "`".to_owned();
        r.append(command.as_str());
        r.append("` exited with code ");
        let n = text::decimal_int_text(code);
        r.append(n.as_str());
        r
    }
}

/// The arguments that a call hands to its command.
fn args_of(call: &ToolCall) -> (args: Vec<String>)
    ensures
        text::views(args@) == command_args(*call),
{
    let mut args: Vec<String> = Vec::new();
    assert(text::views(args@) =~= Seq::empty());
    match call.arguments.get("args") {
        Some(j) => match j.as_array() {
            Some(items) => {
                let ghost all = command_args(*call);
                let mut i: usize = 0;
                assert(text::views(args@) =~= all.take(0));
                while i < items.len()
                    invariant
                        i <= items@.len(),
                        all.len() == items@.len(),
                        forall|k: int|
                            0 <= k < items@.len() ==> #[trigger] all[k] == tool::shown(
                                items@[k].model(),
                            ),
                        text::views(args@) == all.take(i as int),
                    decreases items@.len() - i,
                {
                    let ghost before = text::views(args@);
                    let t = tool::value_text(&items[i]);
                    args.push(t);
                    i += 1;
                    assert(text::views(args@) =~= before.push(t@));
                    assert(text::views(args@) =~= all.take(i as int));
                }
                assert(all.take(all.len() as int) =~= all);
            },
            None => {},
        },
        None => {},
    }
    args
}

} // verus!
