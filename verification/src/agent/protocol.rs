//! How tools are described, called and answered.

use vstd::prelude::*;
use vstd::string::*;

use crate::agent::json::{Json, JsonValue};
use crate::paths;
use crate::text;
use crate::text_map;
use crate::text_map::TextMap;

verus! {

/// A failure of the agent.
#[derive(Debug)]
pub enum AgentError {
    /// A tool failed.
    ToolError { tool_name: String, message: String },
    /// A tool took longer than the given number of seconds.
    Timeout(u64),
    /// The agent itself failed.
    Internal(String),
    /// The language model failed.
    LlmError(String),
    /// The agent is set up wrongly.
    ConfigError(String),
}

/// A failure of the agent.
pub enum ErrorSpec {
    Tool(Seq<char>, Seq<char>),
    Timeout(u64),
    Internal(Seq<char>),
    Llm(Seq<char>),
    Config(Seq<char>),
}

/// The result of an operation of the agent.
pub type AgentResult<T> = Result<T, AgentError>;

impl AgentError {
    /// What the error says.
    pub open spec fn spec(self) -> ErrorSpec {
        match self {
            AgentError::ToolError { tool_name, message } => ErrorSpec::Tool(tool_name@, message@),
            AgentError::Timeout(secs) => ErrorSpec::Timeout(secs),
            AgentError::Internal(m) => ErrorSpec::Internal(m@),
            AgentError::LlmError(m) => ErrorSpec::Llm(m@),
            AgentError::ConfigError(m) => ErrorSpec::Config(m@),
        }
    }

    /// The error as a line of text.
    pub open spec fn display(self) -> Seq<char> {
        match self {
            AgentError::ToolError { tool_name, message } => "Tool error ["@ + tool_name@ + "]: "@
                + message@,
            AgentError::Timeout(secs) => "Timeout after "@ + text::decimal(secs as nat) + "s"@,
            AgentError::Internal(m) => "Internal error: "@ + m@,
            AgentError::LlmError(m) => "LLM error: "@ + m@,
            AgentError::ConfigError(m) => "Config error: "@ + m@,
        }
    }

    /// Writes the error as a line of text.
    pub fn to_text(&self) -> (r: String)
        ensures
            r@ == self.display(),
    {
        match self {
            AgentError::ToolError { tool_name, message } => {
                let mut r = "Tool error [".to_owned();
                r.append(tool_name.as_str());
                r.append("]: ");
                r.append(message.as_str());
                r
            },
            AgentError::Timeout(secs) => {
                let mut r = "Timeout after ".to_owned();
                let n = text::decimal_text(*secs);
                r.append(n.as_str());
                r.append("s");
                r
            },
            AgentError::Internal(m) => {
                let mut r = "Internal error: ".to_owned();
                r.append(m.as_str());
                r
            },
            AgentError::LlmError(m) => {
                let mut r = "LLM error: ".to_owned();
                r.append(m.as_str());
                r
            },
            AgentError::ConfigError(m) => {
                let mut r = "Config error: ".to_owned();
                r.append(m.as_str());
                r
            },
        }
    }

    /// The error is a tool error of this tool with this message.
    pub open spec fn is_tool_error(self, tool: Seq<char>, text: Seq<char>) -> bool {
        match self {
            AgentError::ToolError { tool_name, message } => tool_name@ == tool && message@ == text,
            _ => false,
        }
    }

    /// A tool error.
    pub fn tool_error(tool_name: &str, message: &str) -> (r: Self)
        ensures
            r.is_tool_error(tool_name@, message@),
    {
        AgentError::ToolError { tool_name: tool_name.to_owned(), message: message.to_owned() }
    }
}

/// A call of a tool.
pub struct ToolCall {
    pub name: String,
    pub arguments: TextMap<Json>,
    pub id: Option<String>,
}

impl ToolCall {
    /// What an argument says, if it is given.
    pub open spec fn argument(&self, key: Seq<char>) -> Option<JsonValue> {
        if self.arguments@.contains_key(key) {
            Some(self.arguments@[key].model())
        } else {
            None
        }
    }

    /// The text of a string argument.
    pub open spec fn text_argument(&self, key: Seq<char>) -> Option<Seq<char>> {
        match self.argument(key) {
            Some(v) => v.as_text(),
            None => None,
        }
    }

    /// The value of an integer argument.
    pub open spec fn integer_argument(&self, key: Seq<char>) -> Option<i64> {
        match self.argument(key) {
            Some(v) => v.as_integer(),
            None => None,
        }
    }

    /// The value of a truth argument.
    pub open spec fn truth_argument(&self, key: Seq<char>) -> Option<bool> {
        match self.argument(key) {
            Some(v) => v.as_truth(),
            None => None,
        }
    }

    /// A call without arguments.
    pub fn new(name: &str) -> (r: Self)
        ensures
            r.name@ == name@,
            r.arguments@ == Map::<Seq<char>, Json>::empty(),
            r.id is None,
    {
        ToolCall { name: name.to_owned(), arguments: TextMap::new(), id: None }
    }

    /// The same call with one more argument.
    pub fn with_argument(self, key: &str, value: Json) -> (r: Self)
        ensures
            r.name == self.name,
            r.id == self.id,
            r.arguments@ == self.arguments@.insert(key@, value),
    {
        let mut arguments = self.arguments;
        arguments.insert(key.to_owned(), value);
        ToolCall { name: self.name, arguments, id: self.id }
    }

    /// The text of a string argument.
    pub fn get_string(&self, key: &str) -> (r: Option<&str>)
        ensures
            crate::model::opt_str_view(r) == self.text_argument(key@),
    {
        match self.arguments.get(key) {
            Some(j) => j.as_str(),
            None => None,
        }
    }

    /// The text of a string argument, empty if it is not given.
    pub open spec fn text_or_empty(&self, key: Seq<char>) -> Seq<char> {
        match self.text_argument(key) {
            Some(s) => s,
            None => Seq::empty(),
        }
    }

    /// The text of a string argument, empty if it is not given.
    pub fn get_string_or_empty(&self, key: &str) -> (r: &str)
        ensures
            r@ == self.text_or_empty(key@),
    {
        proof {
            reveal_strlit("");
        }
        let r = match self.get_string(key) {
            Some(s) => s,
            None => "",
        };
        assert(r@ =~= self.text_or_empty(key@));
        r
    }

    /// The value of an integer argument.
    pub fn get_i64(&self, key: &str) -> (r: Option<i64>)
        ensures
            r == self.integer_argument(key@),
    {
        match self.arguments.get(key) {
            Some(j) => j.as_i64(),
            None => None,
        }
    }

    /// The value of a truth argument.
    pub fn get_bool(&self, key: &str) -> (r: Option<bool>)
        ensures
            r == self.truth_argument(key@),
    {
        match self.arguments.get(key) {
            Some(j) => j.as_bool(),
            None => None,
        }
    }
}

/// What a call says.
#[verifier::ext_equal]
pub struct CallSpec {
    pub name: Seq<char>,
    pub arguments: Map<Seq<char>, JsonValue>,
    pub id: Option<Seq<char>>,
}

impl ToolCall {
    /// What the call says.
    pub open spec fn spec(&self) -> CallSpec {
        CallSpec {
            name: self.name@,
            arguments: Map::new(
                |k: Seq<char>| self.arguments@.contains_key(k),
                |k: Seq<char>| self.arguments@[k].model(),
            ),
            id: paths::opt_view(self.id),
        }
    }
}

/// What calls say.
pub open spec fn call_specs(v: Seq<ToolCall>) -> Seq<CallSpec> {
    Seq::new(v.len(), |i: int| v[i].spec())
}

impl Clone for ToolCall {
    fn clone(&self) -> (r: Self)
        ensures
            r.spec() == self.spec(),
    {
        let mut arguments: TextMap<Json> = TextMap::new();
        let n: usize = self.arguments.len();
        let ghost all = self.arguments.listed();
        let mut i: usize = 0;
        while i < n
            invariant
                i <= n == all.len(),
                all == self.arguments.listed(),
                text_map::distinct_keys(all),
                self.arguments@ == text_map::map_of(all),
                forall|k: Seq<char>| #[trigger]
                    arguments@.contains_key(k) ==> self.arguments@.contains_key(k)
                        && arguments@[k].model() == self.arguments@[k].model(),
                forall|j: int| 0 <= j < i ==> arguments@.contains_key((#[trigger] all[j]).0@),
            decreases n - i,
        {
            let (key, value) = self.arguments.entry(i);
            proof {
                text_map::lemma_value_at(all, i as int);
            }
            arguments.insert(key.clone(), value.clone());
            i += 1;
        }
        let r = ToolCall { name: self.name.clone(), arguments, id: self.id.clone() };
        proof {
            assert forall|k: Seq<char>| self.arguments@.contains_key(k) implies #[trigger]
                arguments@.contains_key(k) by {
                let j = choose|j: int| #[trigger] text_map::holds_key(all, j, k);
                assert(text_map::holds_key(all, j, k));
                assert(arguments@.contains_key(all[j].0@));
            }
            assert(r.spec().arguments =~= self.spec().arguments);
        }
        r
    }
}

/// The type of a parameter.
#[derive(Debug, Clone, Copy, PartialEq, Eq, Structural)]
pub enum ParameterType {
    Text,
    Integer,
    Truth,
    Array,
}

/// A parameter of a tool.
#[derive(Debug)]
pub struct ToolParameter {
    pub name: String,
    pub param_type: ParameterType,
    pub description: String,
    pub required: bool,
    /// The values that are allowed; any value if empty.
    pub enum_values: Vec<String>,
}

impl ToolParameter {
    /// What the parameter is.
    pub open spec fn spec(self) -> ParameterSpec {
        ParameterSpec {
            name: self.name@,
            param_type: self.param_type,
            description: self.description@,
            required: self.required,
            enum_values: text::views(self.enum_values@),
        }
    }

    fn of_type(name: &str, param_type: ParameterType) -> (r: Self)
        ensures
            r.spec() == plain_parameter(name@, param_type),
    {
        let r = ToolParameter {
            name: name.to_owned(),
            param_type,
            description: String::new(),
            required: false,
            enum_values: Vec::new(),
        };
        assert(text::views(r.enum_values@) =~= Seq::empty());
        r
    }

    /// An optional parameter that takes a text.
    pub fn string(name: &str) -> (r: Self)
        ensures
            r.spec() == plain_parameter(name@, ParameterType::Text),
    {
        Self::of_type(name, ParameterType::Text)
    }

    /// An optional parameter that takes an integer.
    pub fn integer(name: &str) -> (r: Self)
        ensures
            r.spec() == plain_parameter(name@, ParameterType::Integer),
    {
        Self::of_type(name, ParameterType::Integer)
    }

    /// An optional parameter that takes a truth value.
    pub fn boolean(name: &str) -> (r: Self)
        ensures
            r.spec() == plain_parameter(name@, ParameterType::Truth),
    {
        Self::of_type(name, ParameterType::Truth)
    }

    /// An optional parameter that takes an array.
    pub fn array(name: &str) -> (r: Self)
        ensures
            r.spec() == plain_parameter(name@, ParameterType::Array),
    {
        Self::of_type(name, ParameterType::Array)
    }

    /// The same parameter with a description.
    pub fn description(self, description: &str) -> (r: Self)
        ensures
            r.spec() == (ParameterSpec { description: description@, ..self.spec() }),
    {
        ToolParameter { description: description.to_owned(), ..self }
    }

    /// The same parameter, required or not.
    pub fn required(self, required: bool) -> (r: Self)
        ensures
            r.spec() == (ParameterSpec { required, ..self.spec() }),
    {
        ToolParameter { required, ..self }
    }
}

/// What a parameter is.
pub struct ParameterSpec {
    pub name: Seq<char>,
    pub param_type: ParameterType,
    pub description: Seq<char>,
    pub required: bool,
    pub enum_values: Seq<Seq<char>>,
}

/// A parameter need not be given unless it is said that it must, and takes any value unless some are
/// listed.
pub proof fn law_parameters_are_optional_at_first(name: Seq<char>, param_type: ParameterType)
    ensures
        ({
            let p = plain_parameter(name, param_type);
            &&& p.name == name
            &&& p.param_type == param_type
            &&& !p.required
            &&& p.enum_values.len() == 0
            &&& required_names(seq![p]).len() == 0
        }),
{
    let p = plain_parameter(name, param_type);
    reveal_with_fuel(required_names, 2);
    assert(seq![p].drop_last() =~= Seq::empty());
}

/// An optional parameter without a description.
pub open spec fn plain_parameter(name: Seq<char>, param_type: ParameterType) -> ParameterSpec {
    ParameterSpec {
        name,
        param_type,
        description: Seq::empty(),
        required: false,
        enum_values: Seq::empty(),
    }
}

/// A parameter with a description.
pub open spec fn parameter(
    name: Seq<char>,
    param_type: ParameterType,
    description: Seq<char>,
    required: bool,
) -> ParameterSpec {
    ParameterSpec { name, param_type, description, required, enum_values: Seq::empty() }
}

/// What a tool is for and how it is called.
#[derive(Debug)]
pub struct ToolDefinition {
    pub name: String,
    pub description: String,
    pub parameters: Vec<ToolParameter>,
}

/// What a definition says.
pub struct DefinitionSpec {
    pub name: Seq<char>,
    pub description: Seq<char>,
    pub parameters: Seq<ParameterSpec>,
}

/// What parameters say.
pub open spec fn parameter_specs(v: Seq<ToolParameter>) -> Seq<ParameterSpec> {
    Seq::new(v.len(), |i: int| v[i].spec())
}

/// The names of the required ones of parameters.
pub open spec fn required_names(parameters: Seq<ParameterSpec>) -> Seq<Seq<char>>
    decreases parameters.len(),
{
    if parameters.len() == 0 {
        Seq::empty()
    } else {
        let front = required_names(parameters.drop_last());
        if parameters.last().required {
            front.push(parameters.last().name)
        } else {
            front
        }
    }
}

/// Exactly the required parameters are named, in order.
pub proof fn law_required_parameters_are_named(parameters: Seq<ParameterSpec>)
    ensures
        required_names(parameters) == parameters.filter(|p: ParameterSpec| p.required).map_values(
            |p: ParameterSpec| p.name,
        ),
    decreases parameters.len(),
{
    reveal(Seq::filter);
    let wanted = |p: ParameterSpec| p.required;
    let name = |p: ParameterSpec| p.name;
    if parameters.len() > 0 {
        law_required_parameters_are_named(parameters.drop_last());
        let front = parameters.drop_last().filter(wanted);
        assert(front.push(parameters.last()).map_values(name) =~= front.map_values(name).push(
            parameters.last().name,
        ));
    } else {
        assert(parameters.filter(wanted).map_values(name) =~= Seq::empty());
    }
}

impl ToolDefinition {
    /// What the definition says.
    pub open spec fn spec(self) -> DefinitionSpec {
        DefinitionSpec {
            name: self.name@,
            description: self.description@,
            parameters: parameter_specs(self.parameters@),
        }
    }

    /// A tool without parameters.
    pub fn new(name: &str) -> (r: Self)
        ensures
            r.spec() == (DefinitionSpec {
                name: name@,
                description: Seq::empty(),
                parameters: Seq::empty(),
            }),
    {
        let r = ToolDefinition {
            name: name.to_owned(),
            description: String::new(),
            parameters: Vec::new(),
        };
        assert(parameter_specs(r.parameters@) =~= Seq::empty());
        r
    }

    /// The same tool with a description.
    pub fn description(self, description: &str) -> (r: Self)
        ensures
            r.spec() == (DefinitionSpec { description: description@, ..self.spec() }),
    {
        ToolDefinition { description: description.to_owned(), ..self }
    }

    /// The same tool with one more parameter.
    pub fn parameter(self, parameter: ToolParameter) -> (r: Self)
        ensures
            r.spec() == (DefinitionSpec {
                parameters: self.spec().parameters.push(parameter.spec()),
                ..self.spec()
            }),
    {
        let ghost before = parameter_specs(self.parameters@);
        let mut parameters = self.parameters;
        parameters.push(parameter);
        assert(parameter_specs(parameters@) =~= before.push(parameter.spec()));
        ToolDefinition { parameters, ..self }
    }

    /// The names of the required parameters.
    pub fn required_params(&self) -> (r: Vec<String>)
        ensures
            text::views(r@) == required_names(self.spec().parameters),
    {
        let ghost all = parameter_specs(self.parameters@);
        let mut r: Vec<String> = Vec::new();
        let mut i: usize = 0;
        assert(text::views(r@) =~= required_names(all.take(0)));
        while i < self.parameters.len()
            invariant
                i <= self.parameters@.len(),
                all == parameter_specs(self.parameters@),
                text::views(r@) == required_names(all.take(i as int)),
            decreases self.parameters@.len() - i,
        {
            let ghost before = text::views(r@);
            assert(all.take(i + 1).drop_last() =~= all.take(i as int));
            assert(all.take(i + 1).last() == self.parameters@[i as int].spec());
            if self.parameters[i].required {
                r.push(self.parameters[i].name.clone());
                assert(text::views(r@) =~= before.push(self.parameters@[i as int].name@));
            }
            i += 1;
        }
        assert(all.take(all.len() as int) =~= all);
        r
    }
}

/// What a tool answered.
pub struct ToolResult {
    pub value: Json,
    pub success: bool,
    pub call_id: Option<String>,
}

/// What a result says.
pub struct ResultSpec {
    pub value: JsonValue,
    pub success: bool,
    pub call_id: Option<Seq<char>>,
}

impl ToolResult {
    /// What the result says.
    pub open spec fn spec(self) -> ResultSpec {
        ResultSpec {
            value: self.value.model(),
            success: self.success,
            call_id: paths::opt_view(self.call_id),
        }
    }

    /// A success.
    pub fn success(value: Json) -> (r: Self)
        ensures
            r.spec() == succeeded(value.model()),
    {
        ToolResult { value, success: true, call_id: None }
    }

    /// A failure.
    pub fn error(message: &str) -> (r: Self)
        ensures
            r.spec() == failed(message@),
    {
        ToolResult { value: Json::text(message), success: false, call_id: None }
    }

    /// The same result, as the answer to a call.
    pub fn with_call_id(self, id: &str) -> (r: Self)
        ensures
            r.spec() == (ResultSpec { call_id: Some(id@), ..self.spec() }),
    {
        ToolResult { value: self.value, success: self.success, call_id: Some(id.to_owned()) }
    }
}

impl Clone for ToolResult {
    fn clone(&self) -> (r: Self)
        ensures
            r.spec() == self.spec(),
    {
        ToolResult {
            value: self.value.clone(),
            success: self.success,
            call_id: self.call_id.clone(),
        }
    }
}

/// A success with a value.
pub open spec fn succeeded(value: JsonValue) -> ResultSpec {
    ResultSpec { value, success: true, call_id: None }
}

/// A failure with a message.
pub open spec fn failed(message: Seq<char>) -> ResultSpec {
    ResultSpec { value: JsonValue::String(message), success: false, call_id: None }
}

/// What comes of a call: a tool error, or an answer.
pub enum Outcome {
    /// A tool error: the name of the tool and the message.
    Fails(Seq<char>, Seq<char>),
    /// An answer.
    Answers(ResultSpec),
}

/// A result of a call is this outcome.
pub open spec fn is_outcome(r: AgentResult<ToolResult>, outcome: Outcome) -> bool {
    match r {
        Ok(given) => outcome == Outcome::Answers(given.spec()),
        Err(e) => match outcome {
            Outcome::Fails(tool, message) => e.is_tool_error(tool, message),
            Outcome::Answers(_) => false,
        },
    }
}

/// A call succeeds if and only if its outcome is an answer that says so, and then with just that
/// value; a tool error never is a success.
pub proof fn law_outcomes_tell_success(
    r: AgentResult<ToolResult>,
    outcome: Outcome,
    value: JsonValue,
    message: Seq<char>,
)
    requires
        is_outcome(r, outcome),
    ensures
        outcome == Outcome::Answers(succeeded(value)) ==> (r matches Ok(given) && given.success
            && given.value.model() == value),
        outcome == Outcome::Answers(failed(message)) ==> (r matches Ok(given) && !given.success
            && given.value.model() == JsonValue::String(message)),
        outcome is Fails ==> r is Err,
{
}

/// What results say.
pub open spec fn result_specs(v: Seq<ToolResult>) -> Seq<ResultSpec> {
    Seq::new(v.len(), |i: int| v[i].spec())
}

/// The result that an error is reported as: its text, under the identifier of the call.
pub open spec fn error_result(call_id: Option<Seq<char>>, error: AgentError) -> ResultSpec {
    ResultSpec { value: JsonValue::String(error.display()), success: false, call_id }
}

/// Reports an outcome as a result: an error becomes a failed result of the call.
pub fn format_result(call: &ToolCall, outcome: AgentResult<ToolResult>) -> (r: ToolResult)
    ensures
        match outcome {
            Ok(given) => r == given,
            Err(e) => r.spec() == error_result(paths::opt_view(call.id), e),
        },
{
    match outcome {
        Ok(given) => given,
        Err(e) => {
            let m = e.to_text();
            let r = ToolResult::error(m.as_str());
            match &call.id {
                Some(id) => r.with_call_id(id.as_str()),
                None => r,
            }
        },
    }
}

/// The message for a required parameter that is not given.
pub open spec fn missing_parameter(name: Seq<char>) -> Seq<char> {
    "Missing required parameter: "@ + name
}

/// The first required parameter that a call does not give.
pub open spec fn first_missing(parameters: Seq<ParameterSpec>, given: Set<Seq<char>>) -> Option<
    Seq<char>,
>
    decreases parameters.len(),
{
    if parameters.len() == 0 {
        None
    } else {
        match first_missing(parameters.drop_last(), given) {
            Some(name) => Some(name),
            None => if parameters.last().required && !given.contains(parameters.last().name) {
                Some(parameters.last().name)
            } else {
                None
            },
        }
    }
}

proof fn lemma_first_missing_stops(parameters: Seq<ParameterSpec>, given: Set<Seq<char>>, i: int)
    requires
        0 <= i <= parameters.len(),
        first_missing(parameters.take(i), given) is Some,
    ensures
        first_missing(parameters, given) == first_missing(parameters.take(i), given),
    decreases parameters.len(),
{
    if i == parameters.len() {
        assert(parameters.take(i) =~= parameters);
    } else {
        assert(parameters.drop_last().take(i) =~= parameters.take(i));
        lemma_first_missing_stops(parameters.drop_last(), given, i);
    }
}

/// What speaks against a call that does not give every required parameter of a tool.
pub open spec fn parameter_objection(definition: DefinitionSpec, call: ToolCall) -> Option<
    ErrorSpec,
> {
    match first_missing(definition.parameters, call.arguments@.dom()) {
        Some(name) => Some(ErrorSpec::Tool(definition.name, missing_parameter(name))),
        None => None,
    }
}

/// Checks that a call gives every required parameter of a tool.
pub fn validate_arguments(definition: &ToolDefinition, call: &ToolCall) -> (r: AgentResult<()>)
    ensures
        match r {
            Ok(_) => first_missing(definition.spec().parameters, call.arguments@.dom()) is None,
            Err(e) => match first_missing(definition.spec().parameters, call.arguments@.dom()) {
                Some(name) => e.is_tool_error(definition.name@, missing_parameter(name)),
                None => false,
            },
        },
{
    let ghost all = parameter_specs(definition.parameters@);
    let ghost given = call.arguments@.dom();
    let mut i: usize = 0;
    assert(all.take(0) =~= Seq::empty());
    while i < definition.parameters.len()
        invariant
            i <= definition.parameters@.len(),
            all == parameter_specs(definition.parameters@),
            given == call.arguments@.dom(),
            first_missing(all.take(i as int), given) is None,
        decreases definition.parameters@.len() - i,
    {
        let p = &definition.parameters[i];
        assert(all.take(i + 1).drop_last() =~= all.take(i as int));
        assert(all.take(i + 1).last() == p.spec());
        if p.required && !call.arguments.contains_key(p.name.as_str()) {
            proof {
                lemma_first_missing_stops(all, given, i + 1);
            }
            let mut m = "Missing required parameter: ".to_owned();
            m.append(p.name.as_str());
            return Err(AgentError::tool_error(definition.name.as_str(), m.as_str()));
        }
        i += 1;
    }
    assert(all.take(all.len() as int) =~= all);
    Ok(())
}

/// The parameter that a call is refused for is required, is not given, and is the first such.
pub proof fn law_first_missing_is_named(parameters: Seq<ParameterSpec>, given: Set<Seq<char>>)
    requires
        first_missing(parameters, given) is Some,
    ensures
        exists|i: int|
            0 <= i < parameters.len() && first_missing(parameters, given) == Some(
                (#[trigger] parameters[i]).name,
            ) && parameters[i].required && !given.contains(parameters[i].name) && forall|j: int|
                0 <= j < i && (#[trigger] parameters[j]).required ==> given.contains(
                    parameters[j].name,
                ),
    decreases parameters.len(),
{
    let front = parameters.drop_last();
    if first_missing(front, given) is Some {
        law_first_missing_is_named(front, given);
        let i = choose|i: int|
            0 <= i < front.len() && first_missing(front, given) == Some((#[trigger] front[i]).name)
                && front[i].required && !given.contains(front[i].name) && forall|j: int|
                0 <= j < i && (#[trigger] front[j]).required ==> given.contains(front[j].name);
        assert(parameters[i] == front[i]);
        assert forall|j: int| 0 <= j < i && (#[trigger] parameters[j]).required implies given.contains(parameters[j].name) by {
            assert(front[j] == parameters[j]);
        }
    } else {
        law_valid_call_gives_required(front, given);
        let i = parameters.len() - 1;
        assert(parameters[i] == parameters.last());
        assert forall|j: int| 0 <= j < i && (#[trigger] parameters[j]).required implies given.contains(parameters[j].name) by {
            assert(front[j] == parameters[j]);
        }
    }
}

/// Giving every required parameter is what makes a call valid.
pub proof fn law_valid_call_gives_required(
    parameters: Seq<ParameterSpec>,
    given: Set<Seq<char>>,
)
    ensures
        first_missing(parameters, given) is None <==> forall|i: int|
            0 <= i < parameters.len() && (#[trigger] parameters[i]).required ==> given.contains(
                parameters[i].name,
            ),
    decreases parameters.len(),
{
    if parameters.len() > 0 {
        let front = parameters.drop_last();
        law_valid_call_gives_required(front, given);
        assert(parameters[parameters.len() - 1] == parameters.last());
        if first_missing(parameters, given) is None {
            assert forall|i: int|
                0 <= i < parameters.len() && (
                #[trigger] parameters[i]).required implies given.contains(parameters[i].name) by {
                if i < front.len() {
                    assert(front[i] == parameters[i]);
                }
            }
        }
        if forall|i: int|
            0 <= i < parameters.len() && (#[trigger] parameters[i]).required ==> given.contains(
                parameters[i].name,
            ) {
            assert forall|i: int| 0 <= i < front.len() && (#[trigger] front[i]).required implies given.contains(
            front[i].name) by {
                assert(front[i] == parameters[i]);
            }
        }
    }
}

} // verus!
