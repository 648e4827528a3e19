//! Tools whose answers come from elsewhere: from files, from the index or from the services of the
//! agent. What a tool is called and takes stands here, and so does what becomes of a call that does
//! not give what the tool takes.

use vstd::prelude::*;
use vstd::string::*;

use crate::agent::protocol;
use crate::agent::protocol::{
    AgentResult, DefinitionSpec, ErrorSpec, ParameterType, ToolCall, ToolDefinition, ToolParameter,
    ToolResult,
};
use crate::agent::tool;
use crate::agent::tool::BuiltinTool;

verus! {

/// A call gets the answer that was found for it, unless something speaks against its arguments.
pub open spec fn is_served(
    r: AgentResult<ToolResult>,
    objection: Option<ErrorSpec>,
    answer: AgentResult<ToolResult>,
) -> bool {
    match objection {
        Some(e) => r is Err && r->Err_0.spec() == e,
        None => r == answer,
    }
}

/// A call that gives every required parameter gets the answer that was found for it; any other is
/// refused, and the refusal names a parameter that it does not give.
pub proof fn law_complete_calls_are_served(
    r: AgentResult<ToolResult>,
    definition: DefinitionSpec,
    call: ToolCall,
    answer: AgentResult<ToolResult>,
)
    requires
        is_served(r, protocol::parameter_objection(definition, call), answer),
    ensures
        (forall|i: int|
            0 <= i < definition.parameters.len() && (#[trigger] definition.parameters[i]).required
                ==> call.arguments@.contains_key(definition.parameters[i].name)) ==> r == answer,
        (exists|i: int|
            0 <= i < definition.parameters.len() && (#[trigger] definition.parameters[i]).required
                && !call.arguments@.contains_key(definition.parameters[i].name)) ==> r is Err
            && exists|i: int|
            0 <= i < definition.parameters.len() && (#[trigger] definition.parameters[i]).required
                && !call.arguments@.contains_key(definition.parameters[i].name)
                && r->Err_0.spec() == ErrorSpec::Tool(
                definition.name,
                protocol::missing_parameter(definition.parameters[i].name),
            ),
{
    let given = call.arguments@.dom();
    if protocol::first_missing(definition.parameters, given) is Some {
        protocol::law_first_missing_is_named(definition.parameters, given);
    } else {
        lemma_none_missing(definition.parameters, given);
    }
}

proof fn lemma_none_missing(parameters: Seq<protocol::ParameterSpec>, given: Set<Seq<char>>)
    requires
        protocol::first_missing(parameters, given) is None,
    ensures
        forall|i: int|
            0 <= i < parameters.len() && (#[trigger] parameters[i]).required ==> given.contains(
                parameters[i].name,
            ),
    decreases parameters.len(),
{
    if parameters.len() > 0 {
        let front = parameters.drop_last();
        lemma_none_missing(front, given);
        assert forall|i: int|
            0 <= i < parameters.len() && (#[trigger] parameters[i]).required implies given.contains(
            parameters[i].name,
        ) by {
            if i < front.len() {
                assert(front[i] == parameters[i]);
            }
        }
    }
}

/// Gives a call the answer that was found for it, if it gives every required parameter.
fn serve(definition: &ToolDefinition, call: &ToolCall, answer: AgentResult<ToolResult>) -> (r:
    AgentResult<ToolResult>)
    ensures
        is_served(r, protocol::parameter_objection(definition.spec(), *call), answer),
{
    match protocol::validate_arguments(definition, call) {
        Ok(_) => answer,
        Err(e) => Err(e),
    }
}

/// Reads a file, or some of its lines.
pub struct ReadFileTool;

/// What the definition of the tool says.
pub open spec fn read_file_definition() -> DefinitionSpec {
    DefinitionSpec {
        name: "read_file"@,
        description: "Read a file, with an optional line to start at."@,
        parameters: seq![
            protocol::parameter(
                "path"@,
                ParameterType::Text,
                "Path to the file (relative to project root)"@,
                true,
            ),
            protocol::parameter(
                "offset"@,
                ParameterType::Integer,
                "Line to start reading at"@,
                false,
            ),
        ],
    }
}

impl BuiltinTool for ReadFileTool {
    open spec fn defined(&self) -> DefinitionSpec {
        read_file_definition()
    }

    fn definition(&self) -> (r: ToolDefinition) {
        let r = ToolDefinition::new("read_file").description(
            "Read a file, with an optional line to start at.",
        ).parameter(
            ToolParameter::string("path").description(
                "Path to the file (relative to project root)",
            ).required(true),
        ).parameter(
            ToolParameter::integer("offset").description(
                "Line to start reading at",
            ),
        );
        assert(r.spec().parameters =~= read_file_definition().parameters);
        r
    }

    open spec fn cacheable(&self) -> bool {
        true
    }

    fn is_cacheable(&self) -> (r: bool) {
        true
    }

    open spec fn key_of(&self, call: ToolCall) -> Seq<char> {
        tool::call_key(call)
    }

    fn cache_key(&self, call: &ToolCall) -> (r: String) {
        tool::cache_key(call)
    }

    open spec fn objection(&self, call: ToolCall) -> Option<ErrorSpec> {
        protocol::parameter_objection(self.defined(), call)
    }

    fn validate_arguments(&self, call: &ToolCall) -> (r: AgentResult<()>) {
        let definition = self.definition();
        protocol::validate_arguments(&definition, call)
    }
}

impl ReadFileTool {
    /// Answers a call with what was found for it.
    pub fn execute(&self, call: &ToolCall, answer: AgentResult<ToolResult>) -> (r: AgentResult<
        ToolResult,
    >)
        ensures
            is_served(r, self.objection(*call), answer),
    {
        let definition = self.definition();
        serve(&definition, call, answer)
    }
}

/// Lists the files below a directory.
pub struct ListFilesTool;

/// What the definition of the tool says.
pub open spec fn list_files_definition() -> DefinitionSpec {
    DefinitionSpec {
        name: "list_files"@,
        description: "List files recursively."@,
        parameters: seq![
            protocol::parameter(
                "path"@,
                ParameterType::Text,
                "Directory to list (relative to project root)"@,
                false,
            ),
        ],
    }
}

impl BuiltinTool for ListFilesTool {
    open spec fn defined(&self) -> DefinitionSpec {
        list_files_definition()
    }

    fn definition(&self) -> (r: ToolDefinition) {
        let r = ToolDefinition::new("list_files").description(
            "List files recursively.",
        ).parameter(
            ToolParameter::string("path").description(
                "Directory to list (relative to project root)",
            ),
        );
        assert(r.spec().parameters =~= list_files_definition().parameters);
        r
    }

    open spec fn cacheable(&self) -> bool {
        true
    }

    fn is_cacheable(&self) -> (r: bool) {
        true
    }

    open spec fn key_of(&self, call: ToolCall) -> Seq<char> {
        tool::call_key(call)
    }

    fn cache_key(&self, call: &ToolCall) -> (r: String) {
        tool::cache_key(call)
    }

    open spec fn objection(&self, call: ToolCall) -> Option<ErrorSpec> {
        protocol::parameter_objection(self.defined(), call)
    }

    fn validate_arguments(&self, call: &ToolCall) -> (r: AgentResult<()>) {
        let definition = self.definition();
        protocol::validate_arguments(&definition, call)
    }
}

impl ListFilesTool {
    /// Answers a call with what was found for it.
    pub fn execute(&self, call: &ToolCall, answer: AgentResult<ToolResult>) -> (r: AgentResult<
        ToolResult,
    >)
        ensures
            is_served(r, self.objection(*call), answer),
    {
        let definition = self.definition();
        serve(&definition, call, answer)
    }
}

/// Searches files with a regular expression.
pub struct GrepCodeTool;

/// What the definition of the tool says.
pub open spec fn grep_code_definition() -> DefinitionSpec {
    DefinitionSpec {
        name: "grep_code"@,
        description: "Search across files with a regular expression."@,
        parameters: seq![
            protocol::parameter(
                "pattern"@,
                ParameterType::Text,
                "Regular expression to search for"@,
                true,
            ),
            protocol::parameter(
                "path"@,
                ParameterType::Text,
                "Directory or file to search in (relative to project root)"@,
                false,
            ),
        ],
    }
}

impl BuiltinTool for GrepCodeTool {
    open spec fn defined(&self) -> DefinitionSpec {
        grep_code_definition()
    }

    fn definition(&self) -> (r: ToolDefinition) {
        let r = ToolDefinition::new("grep_code").description(
            "Search across files with a regular expression.",
        ).parameter(
            ToolParameter::string("pattern").description(
                "Regular expression to search for",
            ).required(true),
        ).parameter(
            ToolParameter::string("path").description(
                "Directory or file to search in (relative to project root)",
            ),
        );
        assert(r.spec().parameters =~= grep_code_definition().parameters);
        r
    }

    open spec fn cacheable(&self) -> bool {
        true
    }

    fn is_cacheable(&self) -> (r: bool) {
        true
    }

    open spec fn key_of(&self, call: ToolCall) -> Seq<char> {
        tool::call_key(call)
    }

    fn cache_key(&self, call: &ToolCall) -> (r: String) {
        tool::cache_key(call)
    }

    open spec fn objection(&self, call: ToolCall) -> Option<ErrorSpec> {
        protocol::parameter_objection(self.defined(), call)
    }

    fn validate_arguments(&self, call: &ToolCall) -> (r: AgentResult<()>) {
        let definition = self.definition();
        protocol::validate_arguments(&definition, call)
    }
}

impl GrepCodeTool {
    /// Answers a call with what was found for it.
    pub fn execute(&self, call: &ToolCall, answer: AgentResult<ToolResult>) -> (r: AgentResult<
        ToolResult,
    >)
        ensures
            is_served(r, self.objection(*call), answer),
    {
        let definition = self.definition();
        serve(&definition, call, answer)
    }
}

/// Gives an overview of what a source file declares.
pub struct GetFileStructureTool;

/// What the definition of the tool says.
pub open spec fn get_file_structure_definition() -> DefinitionSpec {
    DefinitionSpec {
        name: "get_file_structure"@,
        description: "Give an overview of the structure of a source file, by its syntax."@,
        parameters: seq![
            protocol::parameter(
                "path"@,
                ParameterType::Text,
                "Path to the source file (relative to project root)"@,
                true,
            ),
        ],
    }
}

impl BuiltinTool for GetFileStructureTool {
    open spec fn defined(&self) -> DefinitionSpec {
        get_file_structure_definition()
    }

    fn definition(&self) -> (r: ToolDefinition) {
        let r = ToolDefinition::new("get_file_structure").description(
            "Give an overview of the structure of a source file, by its syntax.",
        ).parameter(
            ToolParameter::string("path").description(
                "Path to the source file (relative to project root)",
            ).required(true),
        );
        assert(r.spec().parameters =~= get_file_structure_definition().parameters);
        r
    }

    open spec fn cacheable(&self) -> bool {
        true
    }

    fn is_cacheable(&self) -> (r: bool) {
        true
    }

    open spec fn key_of(&self, call: ToolCall) -> Seq<char> {
        tool::call_key(call)
    }

    fn cache_key(&self, call: &ToolCall) -> (r: String) {
        tool::cache_key(call)
    }

    open spec fn objection(&self, call: ToolCall) -> Option<ErrorSpec> {
        protocol::parameter_objection(self.defined(), call)
    }

    fn validate_arguments(&self, call: &ToolCall) -> (r: AgentResult<()>) {
        let definition = self.definition();
        protocol::validate_arguments(&definition, call)
    }
}

impl GetFileStructureTool {
    /// Answers a call with what was found for it.
    pub fn execute(&self, call: &ToolCall, answer: AgentResult<ToolResult>) -> (r: AgentResult<
        ToolResult,
    >)
        ensures
            is_served(r, self.objection(*call), answer),
    {
        let definition = self.definition();
        serve(&definition, call, answer)
    }
}

/// Looks symbols up in the index.
pub struct SearchSymbolTool;

/// What the definition of the tool says.
pub open spec fn search_symbol_definition() -> DefinitionSpec {
    DefinitionSpec {
        name: "search_symbol"@,
        description: "Look up symbols (functions, structs, ...) in the index."@,
        parameters: seq![
            protocol::parameter(
                "symbol"@,
                ParameterType::Text,
                "Name of the symbol"@,
                true,
            ),
            protocol::parameter(
                "kind"@,
                ParameterType::Text,
                "Kind of the symbol"@,
                false,
            ),
        ],
    }
}

impl BuiltinTool for SearchSymbolTool {
    open spec fn defined(&self) -> DefinitionSpec {
        search_symbol_definition()
    }

    fn definition(&self) -> (r: ToolDefinition) {
        let r = ToolDefinition::new("search_symbol").description(
            "Look up symbols (functions, structs, ...) in the index.",
        ).parameter(
            ToolParameter::string("symbol").description(
                "Name of the symbol",
            ).required(true),
        ).parameter(
            ToolParameter::string("kind").description(
                "Kind of the symbol",
            ),
        );
        assert(r.spec().parameters =~= search_symbol_definition().parameters);
        r
    }

    open spec fn cacheable(&self) -> bool {
        true
    }

    fn is_cacheable(&self) -> (r: bool) {
        true
    }

    open spec fn key_of(&self, call: ToolCall) -> Seq<char> {
        tool::call_key(call)
    }

    fn cache_key(&self, call: &ToolCall) -> (r: String) {
        tool::cache_key(call)
    }

    open spec fn objection(&self, call: ToolCall) -> Option<ErrorSpec> {
        protocol::parameter_objection(self.defined(), call)
    }

    fn validate_arguments(&self, call: &ToolCall) -> (r: AgentResult<()>) {
        let definition = self.definition();
        protocol::validate_arguments(&definition, call)
    }
}

impl SearchSymbolTool {
    /// Answers a call with what was found for it.
    pub fn execute(&self, call: &ToolCall, answer: AgentResult<ToolResult>) -> (r: AgentResult<
        ToolResult,
    >)
        ensures
            is_served(r, self.objection(*call), answer),
    {
        let definition = self.definition();
        serve(&definition, call, answer)
    }
}

/// Searches the index for code by its meaning.
pub struct SearchCodeTool;

/// What the definition of the tool says.
pub open spec fn search_code_definition() -> DefinitionSpec {
    DefinitionSpec {
        name: "search_code"@,
        description: "Search for code by its meaning. Requires an index."@,
        parameters: seq![
            protocol::parameter(
                "query"@,
                ParameterType::Text,
                "What to search for"@,
                true,
            ),
            protocol::parameter(
                "top_k"@,
                ParameterType::Integer,
                "How many results to return"@,
                false,
            ),
        ],
    }
}

impl BuiltinTool for SearchCodeTool {
    open spec fn defined(&self) -> DefinitionSpec {
        search_code_definition()
    }

    fn definition(&self) -> (r: ToolDefinition) {
        let r = ToolDefinition::new("search_code").description(
            "Search for code by its meaning. Requires an index.",
        ).parameter(
            ToolParameter::string("query").description(
                "What to search for",
            ).required(true),
        ).parameter(
            ToolParameter::integer("top_k").description(
                "How many results to return",
            ),
        );
        assert(r.spec().parameters =~= search_code_definition().parameters);
        r
    }

    open spec fn cacheable(&self) -> bool {
        true
    }

    fn is_cacheable(&self) -> (r: bool) {
        true
    }

    open spec fn key_of(&self, call: ToolCall) -> Seq<char> {
        tool::call_key(call)
    }

    fn cache_key(&self, call: &ToolCall) -> (r: String) {
        tool::cache_key(call)
    }

    open spec fn objection(&self, call: ToolCall) -> Option<ErrorSpec> {
        protocol::parameter_objection(self.defined(), call)
    }

    fn validate_arguments(&self, call: &ToolCall) -> (r: AgentResult<()>) {
        let definition = self.definition();
        protocol::validate_arguments(&definition, call)
    }
}

impl SearchCodeTool {
    /// Answers a call with what was found for it.
    pub fn execute(&self, call: &ToolCall, answer: AgentResult<ToolResult>) -> (r: AgentResult<
        ToolResult,
    >)
        ensures
            is_served(r, self.objection(*call), answer),
    {
        let definition = self.definition();
        serve(&definition, call, answer)
    }
}

} // verus!
