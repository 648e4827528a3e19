//! The tools that come with the agent.

use vstd::prelude::*;
use vstd::string::*;

use crate::agent::protocol;
use crate::agent::protocol::{AgentResult, DefinitionSpec, ErrorSpec, ToolCall, ToolDefinition};
use crate::agent::tool;
use crate::agent::tool::BuiltinTool;
use crate::agent::tools::compare_files::CompareFilesTool;
use crate::agent::tools::edit_file::EditFileTool;
use crate::agent::tools::find_references::FindReferencesTool;
use crate::agent::tools::get_dependencies::GetDependenciesTool;
use crate::agent::tools::get_project_overview::GetProjectOverviewTool;
use crate::agent::tools::run_command::RunCommandTool;
use crate::agent::tools::served::{
    GetFileStructureTool, GrepCodeTool, ListFilesTool, ReadFileTool, SearchCodeTool,
    SearchSymbolTool,
};
use crate::agent::tools::write_file::WriteFileTool;
use crate::text;

pub mod compare_files;
pub mod edit_file;
pub mod files;
pub mod find_references;
pub mod get_dependencies;
pub mod get_project_overview;
pub mod patterns;
pub mod run_command;
pub mod served;
pub mod write_file;

verus! {

/// A tool that comes with the agent.
pub enum AgentTool {
    ReadFile(ReadFileTool),
    ListFiles(ListFilesTool),
    GrepCode(GrepCodeTool),
    GetFileStructure(GetFileStructureTool),
    SearchSymbol(SearchSymbolTool),
    SearchCode(SearchCodeTool),
    FindReferences(FindReferencesTool),
    GetDependencies(GetDependenciesTool),
    CompareFiles(CompareFilesTool),
    GetProjectOverview(GetProjectOverviewTool),
    WriteFile(WriteFileTool),
    EditFile(EditFileTool),
    RunCommand(RunCommandTool),
}

impl BuiltinTool for AgentTool {
    open spec fn defined(&self) -> DefinitionSpec {
        match self {
            AgentTool::ReadFile(t) => t.defined(),
            AgentTool::ListFiles(t) => t.defined(),
            AgentTool::GrepCode(t) => t.defined(),
            AgentTool::GetFileStructure(t) => t.defined(),
            AgentTool::SearchSymbol(t) => t.defined(),
            AgentTool::SearchCode(t) => t.defined(),
            AgentTool::FindReferences(t) => t.defined(),
            AgentTool::GetDependencies(t) => t.defined(),
            AgentTool::CompareFiles(t) => t.defined(),
            AgentTool::GetProjectOverview(t) => t.defined(),
            AgentTool::WriteFile(t) => t.defined(),
            AgentTool::EditFile(t) => t.defined(),
            AgentTool::RunCommand(t) => t.defined(),
        }
    }

    fn definition(&self) -> (r: ToolDefinition) {
        match self {
            AgentTool::ReadFile(t) => t.definition(),
            AgentTool::ListFiles(t) => t.definition(),
            AgentTool::GrepCode(t) => t.definition(),
            AgentTool::GetFileStructure(t) => t.definition(),
            AgentTool::SearchSymbol(t) => t.definition(),
            AgentTool::SearchCode(t) => t.definition(),
            AgentTool::FindReferences(t) => t.definition(),
            AgentTool::GetDependencies(t) => t.definition(),
            AgentTool::CompareFiles(t) => t.definition(),
            AgentTool::GetProjectOverview(t) => t.definition(),
            AgentTool::WriteFile(t) => t.definition(),
            AgentTool::EditFile(t) => t.definition(),
            AgentTool::RunCommand(t) => t.definition(),
        }
    }

    open spec fn cacheable(&self) -> bool {
        match self {
            AgentTool::ReadFile(t) => t.cacheable(),
            AgentTool::ListFiles(t) => t.cacheable(),
            AgentTool::GrepCode(t) => t.cacheable(),
            AgentTool::GetFileStructure(t) => t.cacheable(),
            AgentTool::SearchSymbol(t) => t.cacheable(),
            AgentTool::SearchCode(t) => t.cacheable(),
            AgentTool::FindReferences(t) => t.cacheable(),
            AgentTool::GetDependencies(t) => t.cacheable(),
            AgentTool::CompareFiles(t) => t.cacheable(),
            AgentTool::GetProjectOverview(t) => t.cacheable(),
            AgentTool::WriteFile(t) => t.cacheable(),
            AgentTool::EditFile(t) => t.cacheable(),
            AgentTool::RunCommand(t) => t.cacheable(),
        }
    }

    fn is_cacheable(&self) -> (r: bool) {
        match self {
            AgentTool::ReadFile(t) => t.is_cacheable(),
            AgentTool::ListFiles(t) => t.is_cacheable(),
            AgentTool::GrepCode(t) => t.is_cacheable(),
            AgentTool::GetFileStructure(t) => t.is_cacheable(),
            AgentTool::SearchSymbol(t) => t.is_cacheable(),
            AgentTool::SearchCode(t) => t.is_cacheable(),
            AgentTool::FindReferences(t) => t.is_cacheable(),
            AgentTool::GetDependencies(t) => t.is_cacheable(),
            AgentTool::CompareFiles(t) => t.is_cacheable(),
            AgentTool::GetProjectOverview(t) => t.is_cacheable(),
            AgentTool::WriteFile(t) => t.is_cacheable(),
            AgentTool::EditFile(t) => t.is_cacheable(),
            AgentTool::RunCommand(t) => t.is_cacheable(),
        }
    }

    open spec fn key_of(&self, call: ToolCall) -> Seq<char> {
        tool::call_key(call)
    }

    fn cache_key(&self, call: &ToolCall) -> (r: String) {
        tool::cache_key(call)
    }

    open spec fn objection(&self, call: ToolCall) -> Option<ErrorSpec> {
        protocol::parameter_objection(self.defined(), call)
    }

    fn validate_arguments(&self, call: &ToolCall) -> (r: AgentResult<()>) {
        let definition = self.definition();
        protocol::validate_arguments(&definition, call)
    }
}

/// The names of the tools that only read.
pub open spec fn reading_names() -> Seq<Seq<char>> {
    seq![
        "read_file"@,
        "list_files"@,
        "grep_code"@,
        "get_file_structure"@,
        "search_symbol"@,
        "search_code"@,
        "find_references"@,
        "get_dependencies"@,
        "compare_files"@,
        "get_project_overview"@,
    ]
}

/// The names of all tools.
pub open spec fn all_names() -> Seq<Seq<char>> {
    reading_names() + seq!["write_file"@, "edit_file"@, "run_command"@]
}

/// A tool with the settings that it comes with.
pub open spec fn is_usual(t: AgentTool) -> bool {
    match t {
        AgentTool::RunCommand(c) => text::views(c.whitelist@) == run_command::default_whitelist()
            && c.max_output_bytes == 8192,
        _ => true,
    }
}

/// Among the tools that come with the agent, the one that runs commands runs those of the usual list
/// and shows at most 8192 bytes of what they print.
pub proof fn law_usual_commands_are_run(v: Seq<AgentTool>, i: int, command: Seq<char>)
    requires
        are_defaults(v),
        0 <= i < v.len(),
    ensures
        v.len() == all_names().len(),
        v[i] matches AgentTool::RunCommand(c) ==> c.max_output_bytes == 8192 && (text::views(
            c.whitelist@,
        ).contains(command) <==> run_command::default_whitelist().contains(command)),
{
    assert(is_usual(v[i]));
}

/// All tools, with the settings that they come with.
pub open spec fn are_defaults(v: Seq<AgentTool>) -> bool {
    &&& v.len() == 13
    &&& tool::names_of(v) == all_names()
    &&& forall|i: int| 0 <= i < v.len() ==> is_usual(#[trigger] v[i])
}

/// No two of the tools have the same name, so each is found by its own.
pub proof fn law_names_tell_tools_apart()
    ensures
        all_names().len() == 13,
        all_names().no_duplicates(),
{
    reveal_strlit("read_file");
    reveal_strlit("list_files");
    reveal_strlit("grep_code");
    reveal_strlit("get_file_structure");
    reveal_strlit("search_symbol");
    reveal_strlit("search_code");
    reveal_strlit("find_references");
    reveal_strlit("get_dependencies");
    reveal_strlit("compare_files");
    reveal_strlit("get_project_overview");
    reveal_strlit("write_file");
    reveal_strlit("edit_file");
    reveal_strlit("run_command");
    let names = all_names();
    assert(names[0] == "read_file"@ && names[0].len() == 9 && names[0][0] == 'r');
    assert(names[1] == "list_files"@ && names[1].len() == 10 && names[1][0] == 'l');
    assert(names[2] == "grep_code"@ && names[2].len() == 9 && names[2][0] == 'g');
    assert(names[3] == "get_file_structure"@ && names[3].len() == 18 && names[3][0] == 'g');
    assert(names[4] == "search_symbol"@ && names[4].len() == 13 && names[4][0] == 's');
    assert(names[5] == "search_code"@ && names[5].len() == 11 && names[5][0] == 's');
    assert(names[6] == "find_references"@ && names[6].len() == 15 && names[6][0] == 'f');
    assert(names[7] == "get_dependencies"@ && names[7].len() == 16 && names[7][0] == 'g');
    assert(names[8] == "compare_files"@ && names[8].len() == 13 && names[8][0] == 'c');
    assert(names[9] == "get_project_overview"@ && names[9].len() == 20 && names[9][0] == 'g');
    assert(names[10] == "write_file"@ && names[10].len() == 10 && names[10][0] == 'w');
    assert(names[11] == "edit_file"@ && names[11].len() == 9 && names[11][0] == 'e');
    assert(names[12] == "run_command"@ && names[12].len() == 11 && names[12][0] == 'r');
    assert forall|i: int, j: int| 0 <= i < j < names.len() implies names[i] != names[j] by {
        assert(i == 0 || i == 1 || i == 2 || i == 3 || i == 4 || i == 5 || i == 6 || i == 7 || i == 8 || i
            == 9 || i == 10 || i == 11);
        assert(j == 1 || j == 2 || j == 3 || j == 4 || j == 5 || j == 6 || j == 7 || j == 8 || j == 9 || j
            == 10 || j == 11 || j == 12);
    }
}

/// The tools that only read.
pub fn register_all_tools() -> (r: Vec<AgentTool>)
    ensures
        tool::names_of(r@) == reading_names(),
        forall|i: int| 0 <= i < r@.len() ==> is_usual(#[trigger] r@[i]),
{
    let mut r: Vec<AgentTool> = Vec::new();
    r.push(AgentTool::ReadFile(ReadFileTool));
    r.push(AgentTool::ListFiles(ListFilesTool));
    r.push(AgentTool::GrepCode(GrepCodeTool));
    r.push(AgentTool::GetFileStructure(GetFileStructureTool));
    r.push(AgentTool::SearchSymbol(SearchSymbolTool));
    r.push(AgentTool::SearchCode(SearchCodeTool));
    r.push(AgentTool::FindReferences(FindReferencesTool));
    r.push(AgentTool::GetDependencies(GetDependenciesTool));
    r.push(AgentTool::CompareFiles(CompareFilesTool));
    r.push(AgentTool::GetProjectOverview(GetProjectOverviewTool));
    assert(tool::names_of(r@) =~= reading_names());
    r
}

/// All tools.
pub fn default_tools() -> (r: Vec<AgentTool>)
    ensures
        are_defaults(r@),
{
    let mut r = register_all_tools();
    let ghost before = r@;
    assert(before.len() == tool::names_of(before).len());
    r.push(AgentTool::WriteFile(WriteFileTool));
    r.push(AgentTool::EditFile(EditFileTool));
    r.push(AgentTool::RunCommand(RunCommandTool::new()));
    assert(r@.take(10) =~= before);
    assert(tool::names_of(r@).take(10) =~= tool::names_of(before));
    assert(tool::names_of(r@) =~= all_names());
    assert forall|i: int| 0 <= i < r@.len() implies is_usual(#[trigger] r@[i]) by {
        if i < 10 {
            assert(r@[i] == before[i]);
        }
    }
    r
}

/// The definitions of tools.
pub fn build_tool_definitions<T: BuiltinTool>(tools: &Vec<T>) -> (r: Vec<ToolDefinition>)
    ensures
        r@.len() == tools@.len(),
        forall|i: int| 0 <= i < tools@.len() ==> (#[trigger] r@[i]).spec() == tools@[i].defined(),
{
    let mut r: Vec<ToolDefinition> = Vec::new();
    let mut i: usize = 0;
    while i < tools.len()
        invariant
            i <= tools@.len(),
            r@.len() == i,
            forall|k: int| 0 <= k < i ==> (#[trigger] r@[k]).spec() == tools@[k].defined(),
        decreases tools@.len() - i,
    {
        r.push(tools[i].definition());
        i += 1;
    }
    r
}

/// The first tool of a name.
pub fn find_tool<'a, T: BuiltinTool>(tools: &'a Vec<T>, name: &str) -> (r: Option<&'a T>)
    ensures
        match r {
            Some(t) => {
                let i = tool::first_named(tool::names_of(tools@), name@);
                0 <= i < tools@.len() && *t == tools@[i] && t.defined().name == name@
            },
            None => !tool::names_of(tools@).contains(name@),
        },
{
    let ghost names = tool::names_of(tools@);
    let mut i: usize = 0;
    while i < tools.len()
        invariant
            i <= tools@.len(),
            names == tool::names_of(tools@),
            forall|k: int| 0 <= k < i ==> #[trigger] names[k] != name@,
        decreases tools@.len() - i,
    {
        let definition = tools[i].definition();
        assert(names[i as int] == definition.spec().name);
        if text::same_text(definition.name.as_str(), name) {
            proof {
                tool::lemma_first_named_at(names, name@, i as int);
            }
            return Some(&tools[i]);
        }
        i += 1;
    }
    None
}

} // verus!
