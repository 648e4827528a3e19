//! Sets of tools for other things than code, such as documents.

use vstd::pervasive::arbitrary;
use vstd::prelude::*;
use vstd::string::*;

use crate::agent::json;
use crate::agent::json::{Fields, Json, JsonValue};
use crate::agent::protocol;
use crate::agent::protocol::{
    AgentError, AgentResult, DefinitionSpec, ErrorSpec, Outcome, ParameterType, ToolCall,
    ToolDefinition, ToolParameter, ToolResult,
};
use crate::agent::tool;
use crate::agent::tool::BuiltinTool;
use crate::agent::tools::files;
use crate::agent::tools::files::FileAccess;
use crate::order;
use crate::paths;
use crate::text;

verus! {

/// What tools define.
pub open spec fn definitions_of<T: BuiltinTool>(tools: Seq<T>) -> Seq<DefinitionSpec> {
    Seq::new(tools.len(), |i: int| tools[i].defined())
}

/// What an agent works on, with the tools for it.
pub trait Scenario: Send + Sync {
    /// The tools.
    type Tool: BuiltinTool;

    /// The scenario's name.
    open spec fn title(&self) -> Seq<char> {
        arbitrary()
    }

    /// What the tools define.
    open spec fn tool_list(&self) -> Seq<DefinitionSpec> {
        arbitrary()
    }

    /// The scenario's name.
    fn name(&self) -> (r: &str)
        ensures
            r@ == self.title(),
    ;

    /// What the scenario is, in words.
    fn description(&self) -> (r: &str);

    /// The tools.
    fn build_tools(&self) -> (r: Vec<Self::Tool>)
        ensures
            definitions_of(r@) == self.tool_list(),
    ;

    /// What is added to what the system says.
    fn system_prompt_modifier(&self) -> (r: Option<String>)
        default_ensures
            r is None,
    {
        None
    }
}

/// Reads a document.
pub struct ReadTextFileTool;

/// What the definition of the tool says.
pub open spec fn read_definition() -> DefinitionSpec {
    DefinitionSpec {
        name: "read_text_file"@,
        description: "Read the full text contents of a document file."@,
        parameters: seq![
            protocol::parameter(
                "path"@,
                ParameterType::Text,
                "Path to the document (relative to project root)"@,
                true,
            ),
        ],
    }
}

/// The fields of what is answered for a document.
pub open spec fn document_fields(path: Seq<char>, content: Seq<char>) -> Seq<
    (Seq<char>, JsonValue),
> {
    seq![
        ("path"@, JsonValue::String(path)),
        ("lines"@, json::natural_value(text::lines(content).len())),
        ("content"@, JsonValue::String(content)),
    ]
}

/// What comes of a call that reads a document.
pub open spec fn read_outcome(call: ToolCall, file: FileAccess) -> Outcome {
    match protocol::first_missing(read_definition().parameters, call.arguments@.dom()) {
        Some(name) => Outcome::Fails("read_text_file"@, protocol::missing_parameter(name)),
        None => {
            let path = call.text_argument("path"@)->0;
            match file {
                FileAccess::Outside => Outcome::Fails("path_check"@, files::outside_message(path)),
                FileAccess::NotAFile => Outcome::Answers(
                    protocol::failed(files::not_a_file_message(path)),
                ),
                FileAccess::Unreadable(reason) => Outcome::Fails(
                    "read_text_file"@,
                    files::unreadable_message(path, reason@),
                ),
                FileAccess::Text(content) => Outcome::Answers(
                    protocol::succeeded(JsonValue::Object(document_fields(path, content@))),
                ),
            }
        },
    }
}

/// A document that can be read is answered with its path, the number of its lines and its whole
/// text; one that cannot be read is never answered as a success.
pub proof fn law_documents_are_read_whole(call: ToolCall, path: Seq<char>, content: String)
    requires
        call.text_argument("path"@) == Some(path),
    ensures
        read_outcome(call, FileAccess::Text(content)) matches Outcome::Answers(r) && r.success
            && r.value.field("path"@) == Some(JsonValue::String(path)) && r.value.field("lines"@)
            == Some(json::natural_value(text::lines(content@).len())) && r.value.field("content"@)
            == Some(JsonValue::String(content@)),
        read_outcome(call, FileAccess::Outside) is Fails,
        read_outcome(call, FileAccess::NotAFile) matches Outcome::Answers(r) && !r.success,
{
    let ps = read_definition().parameters;
    let given = call.arguments@.dom();
    assert(given.contains("path"@));
    protocol::law_valid_call_gives_required(ps, given);
    reveal_strlit("path");
    reveal_strlit("lines");
    reveal_strlit("content");
    assert("path"@.len() == 4);
    assert("lines"@.len() == 5);
    assert("content"@.len() == 7);
    let fields = document_fields(path, content@);
    json::lemma_field(fields, 0);
    json::lemma_field(fields, 1);
    json::lemma_field(fields, 2);
}

impl BuiltinTool for ReadTextFileTool {
    open spec fn defined(&self) -> DefinitionSpec {
        read_definition()
    }

    fn definition(&self) -> (r: ToolDefinition) {
        let r = ToolDefinition::new("read_text_file").description(
            "Read the full text contents of a document file.",
        ).parameter(
            ToolParameter::string("path").description(
                "Path to the document (relative to project root)",
            ).required(true),
        );
        assert(r.spec().parameters =~= read_definition().parameters);
        r
    }

    open spec fn cacheable(&self) -> bool {
        true
    }

    fn is_cacheable(&self) -> (r: bool) {
        true
    }

    open spec fn key_of(&self, call: ToolCall) -> Seq<char> {
        tool::call_key(call)
    }

    fn cache_key(&self, call: &ToolCall) -> (r: String) {
        tool::cache_key(call)
    }

    open spec fn objection(&self, call: ToolCall) -> Option<ErrorSpec> {
        protocol::parameter_objection(self.defined(), call)
    }

    fn validate_arguments(&self, call: &ToolCall) -> (r: AgentResult<()>) {
        let definition = self.definition();
        protocol::validate_arguments(&definition, call)
    }
}

impl ReadTextFileTool {
    /// Answers a call, given what came of reading the file that it names.
    pub fn execute(&self, call: &ToolCall, file: &FileAccess) -> (r: AgentResult<ToolResult>)
        requires
            call.arguments@.contains_key("path"@) ==> call.text_argument("path"@) is Some,
        ensures
            protocol::is_outcome(r, read_outcome(*call, *file)),
    {
        let definition = self.definition();
        match protocol::validate_arguments(&definition, call) {
            Ok(_) => {},
            Err(e) => {
                return Err(e);
            },
        }
        proof {
            let ps = read_definition().parameters;
            protocol::law_valid_call_gives_required(ps, call.arguments@.dom());
            assert(ps[0].required);
        }
        let path: &str = call.get_string("path").unwrap();
        match file {
            FileAccess::Outside => Err(files::outside_error(path)),
            FileAccess::NotAFile => {
                let m = files::not_a_file_text(path);
                Ok(ToolResult::error(m.as_str()))
            },
            FileAccess::Unreadable(reason) => {
                let m = files::unreadable_text(path, reason.as_str());
                Err(AgentError::tool_error("read_text_file", m.as_str()))
            },
            FileAccess::Text(content) => {
                let lines: usize = text::line_count(content.as_str());
                let fields = Fields::new().with("path", Json::text(path)).with(
                    "lines",
                    Json::natural(lines as u64),
                ).with("content", Json::text(content.as_str()));
                assert(fields.model() =~= document_fields(path@, content@));
                Ok(ToolResult::success(fields.object()))
            },
        }
    }
}

/// A path as it lies in the project: behind the project's path, or behind the canonical form of
/// that path, if there is one.
pub open spec fn in_project(path: Seq<char>, project: Seq<char>, canonical: Option<Seq<char>>) -> Option<
    Seq<char>,
> {
    if files::lies_in(path, project) {
        Some(files::shown_path(path, project))
    } else {
        match canonical {
            Some(c) => if files::lies_in(path, c) {
                Some(files::shown_path(path, c))
            } else {
                None
            },
            None => None,
        }
    }
}

/// Shows a path as it lies in the project.
pub fn strip_projects(path: &str, project: &str, canonical: &Option<String>) -> (r: Option<String>)
    ensures
        paths::opt_view(r) == in_project(path@, project@, paths::opt_view(*canonical)),
{
    if files::is_within(path, project) {
        return Some(files::show_path(path, project));
    }
    match canonical {
        Some(c) => if files::is_within(path, c.as_str()) {
            Some(files::show_path(path, c.as_str()))
        } else {
            None
        },
        None => None,
    }
}

/// Lists documents.
pub struct ListDocsTool {
    /// The extensions of documents.
    pub extensions: Vec<String>,
}

/// What the definition of the tool says.
pub open spec fn list_definition() -> DefinitionSpec {
    DefinitionSpec {
        name: "list_docs"@,
        description: "List document files in the project, optionally filtered by extension."@,
        parameters: seq![
            protocol::parameter(
                "path"@,
                ParameterType::Text,
                "Directory to list (relative to project root; default: project root)"@,
                false,
            ),
            protocol::parameter(
                "max_depth"@,
                ParameterType::Integer,
                "Maximum recursion depth (default: 10)"@,
                false,
            ),
        ],
    }
}

/// What was found at the directory that a call names.
pub enum DocsTarget {
    /// The path leads out of the project.
    Outside,
    /// There is no directory at the path.
    NotADirectory,
    /// The paths of the files below the directory.
    Files(Vec<String>),
}

/// The extension is one of documents.
pub open spec fn is_listed_extension(extensions: Seq<Seq<char>>, ext: Seq<char>) -> bool {
    exists|i: int| 0 <= i < extensions.len() && text::same_but_case(#[trigger] extensions[i], ext)
}

/// The document that a path leads to, as it lies in the project.
pub open spec fn document_at(
    extensions: Seq<Seq<char>>,
    path: Seq<char>,
    project: Seq<char>,
    canonical: Option<Seq<char>>,
) -> Option<Seq<char>> {
    match paths::extension(path) {
        Some(ext) => if is_listed_extension(extensions, ext) {
            in_project(path, project, canonical)
        } else {
            None
        },
        None => None,
    }
}

/// The documents among files.
pub open spec fn documents(
    extensions: Seq<Seq<char>>,
    found: Seq<Seq<char>>,
    project: Seq<char>,
    canonical: Option<Seq<char>>,
) -> Seq<Seq<char>>
    decreases found.len(),
{
    if found.len() == 0 {
        Seq::empty()
    } else {
        let front = documents(extensions, found.drop_last(), project, canonical);
        match document_at(extensions, found.last(), project, canonical) {
            Some(d) => front.push(d),
            None => front,
        }
    }
}

/// The directory that a call names.
pub open spec fn listed_directory(call: ToolCall) -> Seq<char> {
    match call.text_argument("path"@) {
        Some(p) => p,
        None => "."@,
    }
}

/// The fields of what is answered for a directory.
pub open spec fn listing_fields(path: Seq<char>, list: Seq<Seq<char>>) -> Seq<
    (Seq<char>, JsonValue),
> {
    seq![
        ("path"@, JsonValue::String(path)),
        ("count"@, json::natural_value(list.len())),
        ("files"@, JsonValue::Array(json::text_values(list))),
    ]
}

/// A list holds the documents among files, in order.
pub open spec fn lists_documents(
    list: Seq<Seq<char>>,
    extensions: Seq<Seq<char>>,
    found: Seq<Seq<char>>,
    project: Seq<char>,
    canonical: Option<Seq<char>>,
) -> bool {
    &&& order::sorted(list)
    &&& list.to_multiset() == documents(extensions, found, project, canonical).to_multiset()
}

/// What comes of a call that lists documents, if `list` holds them.
pub open spec fn list_outcome(call: ToolCall, target: DocsTarget, list: Seq<Seq<char>>) -> Outcome {
    let path = listed_directory(call);
    match target {
        DocsTarget::Outside => Outcome::Fails("path_check"@, files::outside_message(path)),
        DocsTarget::NotADirectory => Outcome::Answers(
            protocol::failed("Not a directory: "@ + path),
        ),
        DocsTarget::Files(_) => Outcome::Answers(
            protocol::succeeded(JsonValue::Object(listing_fields(path, list))),
        ),
    }
}

proof fn lemma_documents(
    extensions: Seq<Seq<char>>,
    found: Seq<Seq<char>>,
    project: Seq<char>,
    canonical: Option<Seq<char>>,
    i: int,
)
    requires
        0 <= i < found.len(),
        document_at(extensions, found[i], project, canonical) is Some,
    ensures
        documents(extensions, found, project, canonical).contains(
            document_at(extensions, found[i], project, canonical)->0,
        ),
    decreases found.len(),
{
    let d = document_at(extensions, found[i], project, canonical)->0;
    let front = documents(extensions, found.drop_last(), project, canonical);
    let all = documents(extensions, found, project, canonical);
    if i == found.len() - 1 {
        assert(all.last() == d);
    } else {
        lemma_documents(extensions, found.drop_last(), project, canonical, i);
        let k = choose|k: int| 0 <= k < front.len() && front[k] == d;
        assert(all[k] == d);
    }
}

proof fn lemma_only_documents(
    extensions: Seq<Seq<char>>,
    found: Seq<Seq<char>>,
    project: Seq<char>,
    canonical: Option<Seq<char>>,
    k: int,
)
    requires
        0 <= k < documents(extensions, found, project, canonical).len(),
    ensures
        exists|i: int|
            0 <= i < found.len() && document_at(
                extensions,
                #[trigger] found[i],
                project,
                canonical,
            ) == Some(documents(extensions, found, project, canonical)[k]),
    decreases found.len(),
{
    if found.len() > 0 {
        let front = documents(extensions, found.drop_last(), project, canonical);
        if k < front.len() {
            lemma_only_documents(extensions, found.drop_last(), project, canonical, k);
            let i = choose|i: int|
                0 <= i < found.len() - 1 && document_at(
                    extensions,
                    #[trigger] found.drop_last()[i],
                    project,
                    canonical,
                ) == Some(front[k]);
            assert(found[i] == found.drop_last()[i]);
        } else {
            assert(document_at(extensions, found[found.len() - 1], project, canonical) is Some);
        }
    }
}

/// A file that lies in the project and has one of the extensions, in whatever case, is listed under
/// the path that it has there.
pub proof fn law_documents_are_listed(
    list: Seq<Seq<char>>,
    extensions: Seq<Seq<char>>,
    found: Seq<Seq<char>>,
    project: Seq<char>,
    canonical: Option<Seq<char>>,
    i: int,
    j: int,
    ext: Seq<char>,
)
    requires
        lists_documents(list, extensions, found, project, canonical),
        0 <= i < found.len(),
        paths::extension(found[i]) == Some(ext),
        0 <= j < extensions.len(),
        extensions[j].len() == ext.len(),
        forall|k: int|
            0 <= k < ext.len() ==> text::ascii_lower(#[trigger] extensions[j][k])
                == text::ascii_lower(ext[k]),
        files::lies_in(found[i], project),
    ensures
        list.contains(files::shown_path(found[i], project)),
{
    broadcast use vstd::seq_lib::group_to_multiset_ensures;

    assert(text::same_but_case(extensions[j], ext));
    let d = files::shown_path(found[i], project);
    let all = documents(extensions, found, project, canonical);
    lemma_documents(extensions, found, project, canonical, i);
    assert(all.contains(d));
    assert(all.to_multiset().contains(d));
    assert(list.to_multiset().contains(d));
}

/// Nothing else is listed: every path in the list is that of a file that was found and has one of
/// the extensions.
pub proof fn law_only_documents_are_listed(
    list: Seq<Seq<char>>,
    extensions: Seq<Seq<char>>,
    found: Seq<Seq<char>>,
    project: Seq<char>,
    canonical: Option<Seq<char>>,
    k: int,
)
    requires
        lists_documents(list, extensions, found, project, canonical),
        0 <= k < list.len(),
    ensures
        exists|i: int, j: int|
            #![trigger found[i], extensions[j]]
            0 <= i < found.len() && 0 <= j < extensions.len() && (paths::extension(
                found[i],
            ) matches Some(ext) && text::same_but_case(extensions[j], ext)) && in_project(
                found[i],
                project,
                canonical,
            ) == Some(list[k]),
{
    broadcast use vstd::seq_lib::group_to_multiset_ensures;

    let all = documents(extensions, found, project, canonical);
    assert(list.contains(list[k]));
    assert(list.to_multiset().contains(list[k]));
    assert(all.to_multiset().contains(list[k]));
    assert(all.contains(list[k]));
    let m = choose|m: int| 0 <= m < all.len() && all[m] == list[k];
    lemma_only_documents(extensions, found, project, canonical, m);
    let i = choose|i: int|
        0 <= i < found.len() && document_at(extensions, #[trigger] found[i], project, canonical)
            == Some(all[m]);
    let ext = paths::extension(found[i])->0;
    let j = choose|j: int|
        0 <= j < extensions.len() && text::same_but_case(#[trigger] extensions[j], ext);
    assert(text::same_but_case(extensions[j], ext));
}

/// The answer for a directory names it, `.` unless the call names another, counts the documents and
/// lists them.
pub proof fn law_listing_answer_lists_the_documents(
    call: ToolCall,
    v: Vec<String>,
    list: Seq<Seq<char>>,
)
    ensures
        list_outcome(call, DocsTarget::Files(v), list) matches Outcome::Answers(r) && r.success && ({
            &&& r.value.field("path"@) == Some(
                JsonValue::String(
                    match call.text_argument("path"@) {
                        Some(p) => p,
                        None => "."@,
                    },
                ),
            )
            &&& r.value.field("count"@) == Some(json::natural_value(list.len()))
            &&& r.value.field("files"@) matches Some(JsonValue::Array(items)) && items.len()
                == list.len() && forall|i: int|
                0 <= i < items.len() ==> #[trigger] items[i] == JsonValue::String(list[i])
        }),
        list_outcome(call, DocsTarget::Outside, list) is Fails,
        list_outcome(call, DocsTarget::NotADirectory, list) matches Outcome::Answers(r)
            && !r.success,
{
    reveal_strlit("path");
    reveal_strlit("count");
    reveal_strlit("files");
    assert("path"@.len() == 4);
    assert("count"@.len() == 5);
    assert("files"@.len() == 5);
    assert("count"@[0] != "files"@[0]);
    let fields = listing_fields(listed_directory(call), list);
    json::lemma_field(fields, 0);
    json::lemma_field(fields, 1);
    json::lemma_field(fields, 2);
}

/// The paths that were found.
pub open spec fn found_paths(target: DocsTarget) -> Seq<Seq<char>> {
    match target {
        DocsTarget::Files(v) => text::views(v@),
        _ => Seq::empty(),
    }
}

impl BuiltinTool for ListDocsTool {
    open spec fn defined(&self) -> DefinitionSpec {
        list_definition()
    }

    fn definition(&self) -> (r: ToolDefinition) {
        let r = ToolDefinition::new("list_docs").description(
            "List document files in the project, optionally filtered by extension.",
        ).parameter(
            ToolParameter::string("path").description(
                "Directory to list (relative to project root; default: project root)",
            ),
        ).parameter(
            ToolParameter::integer("max_depth").description(
                "Maximum recursion depth (default: 10)",
            ),
        );
        assert(r.spec().parameters =~= list_definition().parameters);
        r
    }

    open spec fn cacheable(&self) -> bool {
        true
    }

    fn is_cacheable(&self) -> (r: bool) {
        true
    }

    open spec fn key_of(&self, call: ToolCall) -> Seq<char> {
        tool::call_key(call)
    }

    fn cache_key(&self, call: &ToolCall) -> (r: String) {
        tool::cache_key(call)
    }

    open spec fn objection(&self, call: ToolCall) -> Option<ErrorSpec> {
        protocol::parameter_objection(self.defined(), call)
    }

    fn validate_arguments(&self, call: &ToolCall) -> (r: AgentResult<()>) {
        let definition = self.definition();
        protocol::validate_arguments(&definition, call)
    }
}

/// The number that a call gives for `key`, but at least 1; `default` if it gives none.
pub open spec fn at_least_one(call: ToolCall, key: Seq<char>, default: i64) -> usize {
    let n = match call.integer_argument(key) {
        Some(n) => n,
        None => default,
    };
    if n < 1 || n as usize == 0 {
        1
    } else {
        n as usize
    }
}

/// The number is the one that the call gives, or the default, and never below 1.
pub proof fn law_numbers_are_at_least_one(call: ToolCall, key: Seq<char>, default: i64)
    ensures
        at_least_one(call, key, default) >= 1,
        call.integer_argument(key) matches Some(n) ==> 1 <= n <= usize::MAX ==> at_least_one(
            call,
            key,
            default,
        ) == n,
        call.integer_argument(key) matches Some(n) ==> n < 1 ==> at_least_one(call, key, default)
            == 1,
        call.integer_argument(key) is None && 1 <= default <= usize::MAX ==> at_least_one(
            call,
            key,
            default,
        ) == default,
{
}

/// Reads the number that a call gives for `key`.
pub fn number_argument(call: &ToolCall, key: &str, default: i64) -> (r: usize)
    ensures
        r == at_least_one(*call, key@, default),
{
    let n: i64 = match call.get_i64(key) {
        Some(n) => n,
        None => default,
    };
    if n < 1 || n as usize == 0 {
        1
    } else {
        n as usize
    }
}

fn lists_extension(extensions: &Vec<String>, ext: &str) -> (r: bool)
    ensures
        r == is_listed_extension(text::views(extensions@), ext@),
{
    let ghost all = text::views(extensions@);
    let mut i: usize = 0;
    while i < extensions.len()
        invariant
            i <= extensions@.len(),
            all == text::views(extensions@),
            forall|k: int| 0 <= k < i ==> !text::same_but_case(#[trigger] all[k], ext@),
        decreases extensions@.len() - i,
    {
        assert(all[i as int] == extensions@[i as int]@);
        if text::eq_ignoring_case(extensions[i].as_str(), ext) {
            return true;
        }
        i += 1;
    }
    false
}

impl ListDocsTool {
    /// How deep the directory is searched for a call.
    pub fn max_depth(&self, call: &ToolCall) -> (r: usize)
        ensures
            r == at_least_one(*call, "max_depth"@, 10),
    {
        number_argument(call, "max_depth", 10)
    }

    /// Answers a call, given what was found at the directory that it names.
    pub fn execute(
        &self,
        call: &ToolCall,
        project: &str,
        canonical: &Option<String>,
        target: &DocsTarget,
    ) -> (r: AgentResult<ToolResult>)
        ensures
            exists|list: Seq<Seq<char>>| #[trigger]
                lists_documents(
                    list,
                    text::views(self.extensions@),
                    found_paths(*target),
                    project@,
                    paths::opt_view(*canonical),
                ) && protocol::is_outcome(r, list_outcome(*call, *target, list)),
    {
        let path: &str = match call.get_string("path") {
            Some(p) => p,
            None => ".",
        };
        let ghost exts = text::views(self.extensions@);
        let ghost can = paths::opt_view(*canonical);
        let ghost none: Seq<Seq<char>> = Seq::empty();
        match target {
            DocsTarget::Outside => {
                assert(lists_documents(none, exts, found_paths(*target), project@, can));
                Err(files::outside_error(path))
            },
            DocsTarget::NotADirectory => {
                assert(lists_documents(none, exts, found_paths(*target), project@, can));
                let mut m = "Not a directory: ".to_owned();
                m.append(path);
                Ok(ToolResult::error(m.as_str()))
            },
            DocsTarget::Files(found) => {
                let ghost all = text::views(found@);
                let mut list: Vec<String> = Vec::new();
                let mut i: usize = 0;
                assert(all.take(0) =~= Seq::empty());
                assert(text::views(list@) =~= Seq::empty());
                while i < found.len()
                    invariant
                        i <= found@.len(),
                        all == text::views(found@),
                        exts == text::views(self.extensions@),
                        can == paths::opt_view(*canonical),
                        text::views(list@) == documents(exts, all.take(i as int), project@, can),
                    decreases found@.len() - i,
                {
                    let ghost before = text::views(list@);
                    assert(all.take(i + 1).drop_last() =~= all.take(i as int));
                    assert(all.take(i + 1).last() == found@[i as int]@);
                    match paths::extension_of(found[i].as_str()) {
                        Some(ext) => {
                            if lists_extension(&self.extensions, ext.as_str()) {
                                match strip_projects(found[i].as_str(), project, canonical) {
                                    Some(d) => {
                                        list.push(d);
                                        assert(text::views(list@) =~= before.push(d@));
                                    },
                                    None => {},
                                }
                            }
                        },
                        None => {},
                    }
                    i += 1;
                }
                assert(all.take(all.len() as int) =~= all);
                let sorted = order::sort_texts(&list);
                let n: usize = sorted.len();
                let fields = Fields::new().with("path", Json::text(path)).with(
                    "count",
                    Json::natural(n as u64),
                ).with("files", Json::texts(&sorted));
                assert(text::views(sorted@).len() == n);
                assert(fields.model() =~= listing_fields(path@, text::views(sorted@)));
                assert(lists_documents(
                    text::views(sorted@),
                    exts,
                    found_paths(*target),
                    project@,
                    can,
                ));
                Ok(ToolResult::success(fields.object()))
            },
        }
    }
}

/// Searches for a text.
pub struct SearchTextTool;

/// What the definition of the tool says.
pub open spec fn search_definition() -> DefinitionSpec {
    DefinitionSpec {
        name: "search_text"@,
        description: "Search for a literal substring across all files in the project and return file:line matches."@,
        parameters: seq![
            protocol::parameter(
                "needle"@,
                ParameterType::Text,
                "Substring to search for"@,
                true,
            ),
            protocol::parameter(
                "limit"@,
                ParameterType::Integer,
                "Maximum number of matches to return (default: 50)"@,
                false,
            ),
        ],
    }
}

/// A file that is searched.
pub struct TextFile {
    pub path: String,
    /// The text; `None` if it could not be read.
    pub content: Option<String>,
}

/// A file that is searched: its path as it is shown, and its lines.
pub struct SearchedFile {
    pub shown: Seq<char>,
    pub lines: Seq<Seq<char>>,
}

/// The file as it is searched; one that could not be read has no lines.
pub open spec fn searched(f: TextFile, project: Seq<char>, canonical: Option<Seq<char>>) -> SearchedFile {
    SearchedFile {
        shown: match in_project(f.path@, project, canonical) {
            Some(p) => p,
            None => f.path@,
        },
        lines: match f.content {
            Some(c) => text::lines(c@),
            None => Seq::empty(),
        },
    }
}

/// Every file is searched line by line; one that could not be read has no lines, and one that stands
/// nowhere in the project is shown by its own path.
pub proof fn law_files_are_searched_by_their_lines(
    v: Seq<TextFile>,
    project: Seq<char>,
    canonical: Option<Seq<char>>,
    i: int,
)
    requires
        0 <= i < v.len(),
    ensures
        searched_files(v, project, canonical).len() == v.len(),
        ({
            let s = searched_files(v, project, canonical)[i];
            &&& match v[i].content {
                Some(c) => s.lines == text::lines(c@),
                None => s.lines.len() == 0,
            }
            &&& match in_project(v[i].path@, project, canonical) {
                Some(p) => s.shown == p,
                None => s.shown == v[i].path@,
            }
        }),
{
}

/// The files as they are searched.
pub open spec fn searched_files(
    v: Seq<TextFile>,
    project: Seq<char>,
    canonical: Option<Seq<char>>,
) -> Seq<SearchedFile> {
    Seq::new(v.len(), |i: int| searched(v[i], project, canonical))
}

/// The fields of a line that holds the text. Lines are counted from 1.
pub open spec fn hit_fields(shown: Seq<char>, line: nat, content: Seq<char>) -> Seq<
    (Seq<char>, JsonValue),
> {
    seq![
        ("path"@, JsonValue::String(shown)),
        ("line"@, json::natural_value(line)),
        ("text"@, JsonValue::String(text::shortened(content, 200))),
    ]
}

/// The lines among the first `n` lines of a file that hold the text.
pub open spec fn file_hits(f: SearchedFile, needle: Seq<char>, n: nat) -> Seq<JsonValue>
    decreases n,
{
    if n == 0 {
        Seq::empty()
    } else {
        let front = file_hits(f, needle, (n - 1) as nat);
        if text::occurs_in(f.lines[n - 1], needle) {
            front.push(JsonValue::Object(hit_fields(f.shown, n, f.lines[n - 1])))
        } else {
            front
        }
    }
}

/// The lines of the first `n` files that hold the text.
pub open spec fn all_hits(fs: Seq<SearchedFile>, needle: Seq<char>, n: nat) -> Seq<JsonValue>
    decreases n,
{
    if n == 0 {
        Seq::empty()
    } else {
        all_hits(fs, needle, (n - 1) as nat) + file_hits(fs[n - 1], needle, fs[n - 1].lines.len())
    }
}

/// The fields of what is answered: at most `limit` lines, and whether that many were found.
pub open spec fn search_fields(needle: Seq<char>, hits: Seq<JsonValue>, limit: nat) -> Seq<
    (Seq<char>, JsonValue),
> {
    seq![
        ("needle"@, JsonValue::String(needle)),
        (
            "matches"@,
            JsonValue::Array(
                if hits.len() >= limit {
                    hits.take(limit as int)
                } else {
                    hits
                },
            ),
        ),
        ("truncated"@, JsonValue::Bool(hits.len() >= limit)),
    ]
}

/// What comes of a call that searches for a text.
pub open spec fn search_outcome(call: ToolCall, fs: Seq<SearchedFile>) -> Outcome {
    match protocol::first_missing(search_definition().parameters, call.arguments@.dom()) {
        Some(name) => Outcome::Fails("search_text"@, protocol::missing_parameter(name)),
        None => {
            let needle = call.text_argument("needle"@)->0;
            let limit = at_least_one(call, "limit"@, 50) as nat;
            Outcome::Answers(
                protocol::succeeded(
                    JsonValue::Object(
                        search_fields(needle, all_hits(fs, needle, fs.len()), limit),
                    ),
                ),
            )
        },
    }
}

proof fn lemma_file_hits_grow(f: SearchedFile, needle: Seq<char>, n: nat, m: nat)
    requires
        n <= m,
    ensures
        file_hits(f, needle, n).is_prefix_of(file_hits(f, needle, m)),
    decreases m,
{
    if n < m {
        lemma_file_hits_grow(f, needle, n, (m - 1) as nat);
        let a = file_hits(f, needle, n);
        let b = file_hits(f, needle, (m - 1) as nat);
        let c = file_hits(f, needle, m);
        assert(c.subrange(0, a.len() as int) =~= b.subrange(0, a.len() as int));
    } else {
        let a = file_hits(f, needle, n);
        assert(a.subrange(0, a.len() as int) =~= a);
    }
}

proof fn lemma_all_hits_grow(fs: Seq<SearchedFile>, needle: Seq<char>, n: nat, m: nat)
    requires
        n <= m,
    ensures
        all_hits(fs, needle, n).is_prefix_of(all_hits(fs, needle, m)),
    decreases m,
{
    let a = all_hits(fs, needle, n);
    let c = all_hits(fs, needle, m);
    if n < m {
        lemma_all_hits_grow(fs, needle, n, (m - 1) as nat);
        let b = all_hits(fs, needle, (m - 1) as nat);
        assert(c.subrange(0, a.len() as int) =~= b.subrange(0, a.len() as int));
    } else {
        assert(a.subrange(0, a.len() as int) =~= a);
    }
}

/// What was found up to line `l` of file `k` comes first among what is found at all.
proof fn lemma_hits_come_first(fs: Seq<SearchedFile>, needle: Seq<char>, k: nat, l: nat)
    requires
        k < fs.len(),
        l <= fs[k as int].lines.len(),
    ensures
        (all_hits(fs, needle, k) + file_hits(fs[k as int], needle, l)).is_prefix_of(
            all_hits(fs, needle, fs.len()),
        ),
{
    lemma_all_hits_grow(fs, needle, k + 1, fs.len());
    lemma_file_hits_grow(fs[k as int], needle, l, fs[k as int].lines.len());
    let found = all_hits(fs, needle, k) + file_hits(fs[k as int], needle, l);
    let next = all_hits(fs, needle, k + 1);
    let all = all_hits(fs, needle, fs.len());
    let whole = file_hits(fs[k as int], needle, fs[k as int].lines.len());
    let part = file_hits(fs[k as int], needle, l);
    assert(whole.subrange(0, part.len() as int) =~= part);
    assert(next.subrange(0, found.len() as int) =~= found);
    assert(all.subrange(0, next.len() as int) =~= next);
    assert(all.subrange(0, found.len() as int) =~= next.subrange(0, found.len() as int));
}

/// A match in an answer names line `i` of a file: its path as it is shown, the line counted from 1,
/// and the text of that line: whole if it has no more than 200 characters, else the first 200 and
/// three dots.
pub open spec fn names_line(v: JsonValue, f: SearchedFile, i: int) -> bool {
    &&& 0 <= i < f.lines.len()
    &&& v.field("path"@) == Some(JsonValue::String(f.shown))
    &&& v.field("line"@) == Some(json::natural_value((i + 1) as nat))
    &&& v.field("text"@) == Some(
        JsonValue::String(
            if f.lines[i].len() <= 200 {
                f.lines[i]
            } else {
                f.lines[i].subrange(0, 200) + "..."@
            },
        ),
    )
}

proof fn lemma_hit_fields(f: SearchedFile, i: int)
    requires
        0 <= i < f.lines.len(),
    ensures
        names_line(JsonValue::Object(hit_fields(f.shown, (i + 1) as nat, f.lines[i])), f, i),
{
    reveal_strlit("path");
    reveal_strlit("line");
    reveal_strlit("text");
    assert("path"@.len() == 4);
    assert("line"@.len() == 4);
    assert("text"@.len() == 4);
    assert("path"@[0] != "line"@[0]);
    assert("path"@[0] != "text"@[0]);
    assert("line"@[0] != "text"@[0]);
    let fields = hit_fields(f.shown, (i + 1) as nat, f.lines[i]);
    json::lemma_field(fields, 0);
    json::lemma_field(fields, 1);
    json::lemma_field(fields, 2);
    if f.lines[i].len() > 200 {
        assert(f.lines[i].subrange(0, 200) =~= f.lines[i].take(200));
    }
}

proof fn lemma_file_hits(f: SearchedFile, needle: Seq<char>, n: nat)
    requires
        n <= f.lines.len(),
    ensures
        forall|i: int|
            #![trigger f.lines[i]]
            0 <= i < n && text::occurs_in(f.lines[i], needle) ==> exists|k: int|
                0 <= k < file_hits(f, needle, n).len() && names_line(
                    #[trigger] file_hits(f, needle, n)[k],
                    f,
                    i,
                ),
    decreases n,
{
    if n > 0 {
        lemma_file_hits(f, needle, (n - 1) as nat);
        lemma_hit_fields(f, n - 1);
        let front = file_hits(f, needle, (n - 1) as nat);
        let all = file_hits(f, needle, n);
        assert forall|i: int|
            #![trigger f.lines[i]]
            0 <= i < n && text::occurs_in(f.lines[i], needle) implies exists|k: int|
            0 <= k < all.len() && names_line(#[trigger] all[k], f, i) by {
            if i < n - 1 {
                let k = choose|k: int|
                    0 <= k < front.len() && names_line(#[trigger] front[k], f, i);
                assert(names_line(all[k], f, i));
            } else {
                assert(names_line(all[all.len() - 1], f, i));
            }
        }
    }
}

proof fn lemma_only_hits(f: SearchedFile, needle: Seq<char>, n: nat, k: int)
    requires
        n <= f.lines.len(),
        0 <= k < file_hits(f, needle, n).len(),
    ensures
        exists|i: int|
            0 <= i < n && text::occurs_in(f.lines[i], needle) && #[trigger] names_line(
                file_hits(f, needle, n)[k],
                f,
                i,
            ),
    decreases n,
{
    if n > 0 {
        let front = file_hits(f, needle, (n - 1) as nat);
        let all = file_hits(f, needle, n);
        if k < front.len() {
            lemma_only_hits(f, needle, (n - 1) as nat, k);
            assert(all[k] == front[k]);
            let i = choose|i: int|
                0 <= i < n - 1 && text::occurs_in(f.lines[i], needle) && #[trigger] names_line(
                    front[k],
                    f,
                    i,
                );
            assert(names_line(all[k], f, i));
        } else {
            lemma_hit_fields(f, n - 1);
            assert(names_line(all[k], f, n - 1));
        }
    }
}

/// Every line of every file that holds the text is found.
pub proof fn law_every_line_with_the_text_is_found(
    fs: Seq<SearchedFile>,
    needle: Seq<char>,
    n: nat,
    f: int,
    i: int,
)
    requires
        0 <= f < n <= fs.len(),
        0 <= i < fs[f].lines.len(),
        text::occurs_in(fs[f].lines[i], needle),
    ensures
        exists|k: int|
            0 <= k < all_hits(fs, needle, n).len() && names_line(
                #[trigger] all_hits(fs, needle, n)[k],
                fs[f],
                i,
            ),
    decreases n,
{
    let front = all_hits(fs, needle, (n - 1) as nat);
    let last = file_hits(fs[n - 1], needle, fs[n - 1].lines.len());
    let all = all_hits(fs, needle, n);
    if f < n - 1 {
        law_every_line_with_the_text_is_found(fs, needle, (n - 1) as nat, f, i);
        let k = choose|k: int| 0 <= k < front.len() && names_line(#[trigger] front[k], fs[f], i);
        assert(all[k] == front[k]);
    } else {
        lemma_file_hits(fs[f], needle, fs[f].lines.len());
        assert(text::occurs_in(fs[f].lines[i], needle));
        let k = choose|k: int| 0 <= k < last.len() && names_line(#[trigger] last[k], fs[f], i);
        assert(all[front.len() + k] == last[k]);
    }
}

/// Every match names a line that holds the text.
pub proof fn law_matches_hold_the_text(
    fs: Seq<SearchedFile>,
    needle: Seq<char>,
    n: nat,
    k: int,
)
    requires
        n <= fs.len(),
        0 <= k < all_hits(fs, needle, n).len(),
    ensures
        exists|f: int, i: int|
            0 <= f < n && #[trigger] names_line(all_hits(fs, needle, n)[k], fs[f], i)
                && text::occurs_in(fs[f].lines[i], needle),
    decreases n,
{
    if n > 0 {
        let front = all_hits(fs, needle, (n - 1) as nat);
        let last = file_hits(fs[n - 1], needle, fs[n - 1].lines.len());
        let all = all_hits(fs, needle, n);
        if k < front.len() {
            law_matches_hold_the_text(fs, needle, (n - 1) as nat, k);
            assert(all[k] == front[k]);
            let (f, i) = choose|f: int, i: int|
                0 <= f < n - 1 && #[trigger] names_line(front[k], fs[f], i) && text::occurs_in(
                    fs[f].lines[i],
                    needle,
                );
            assert(names_line(all[k], fs[f], i));
        } else {
            lemma_only_hits(fs[n - 1], needle, fs[n - 1].lines.len(), k - front.len());
            assert(all[k] == last[k - front.len()]);
            let i = choose|i: int|
                0 <= i < fs[n - 1].lines.len() && text::occurs_in(fs[n - 1].lines[i], needle)
                    && #[trigger] names_line(last[k - front.len()], fs[n - 1], i);
            assert(names_line(all[k], fs[n - 1], i));
        }
    }
}

/// The answer of a search names the text and shows the first lines that hold it: as many as the call
/// asks for, fifty if it does not say, and at least one; and it says whether that many were found.
pub proof fn law_search_answer_shows_the_first_lines(
    call: ToolCall,
    fs: Seq<SearchedFile>,
    needle: Seq<char>,
    limit: nat,
)
    requires
        call.text_argument("needle"@) == Some(needle),
        match call.integer_argument("limit"@) {
            Some(n) => n <= usize::MAX && if n < 1 {
                limit == 1
            } else {
                limit == n
            },
            None => limit == 50,
        },
    ensures
        search_outcome(call, fs) matches Outcome::Answers(r) && r.success && ({
            let hits = all_hits(fs, needle, fs.len());
            &&& r.value.field("needle"@) == Some(JsonValue::String(needle))
            &&& r.value.field("truncated"@) == Some(JsonValue::Bool(hits.len() >= limit))
            &&& r.value.field("matches"@) matches Some(JsonValue::Array(items))
                && items.is_prefix_of(hits) && (hits.len() <= limit ==> items == hits) && (
            hits.len() >= limit ==> items.len() == limit)
        }),
{
    let ps = search_definition().parameters;
    let given = call.arguments@.dom();
    assert(given.contains("needle"@));
    protocol::law_valid_call_gives_required(ps, given);
    let hits = all_hits(fs, needle, fs.len());
    assert(at_least_one(call, "limit"@, 50) == limit);
    assert(hits.take(hits.len() as int) =~= hits);
    assert(hits.subrange(0, hits.len() as int) =~= hits);
    if hits.len() >= limit {
        assert(hits.take(limit as int) =~= hits.subrange(0, limit as int));
    }
    reveal_strlit("needle");
    reveal_strlit("matches");
    reveal_strlit("truncated");
    assert("needle"@.len() == 6);
    assert("matches"@.len() == 7);
    assert("truncated"@.len() == 9);
    let fields = search_fields(needle, hits, limit);
    json::lemma_field(fields, 0);
    json::lemma_field(fields, 1);
    json::lemma_field(fields, 2);
}

/// A search answers with no more lines than it was asked for.
pub proof fn law_search_keeps_its_limit(needle: Seq<char>, hits: Seq<JsonValue>, limit: nat)
    ensures
        match JsonValue::Object(search_fields(needle, hits, limit)).field("matches"@) {
            Some(m) => match m.items() {
                Some(items) => items.len() <= limit,
                None => false,
            },
            None => false,
        },
{
    let fields = search_fields(needle, hits, limit);
    reveal_strlit("needle");
    reveal_strlit("matches");
    reveal_strlit("truncated");
    assert("truncated"@.len() != "matches"@.len());
    let front = fields.drop_last();
    assert(fields.last().0 == "truncated"@);
    assert(front.last() == fields[1]);
    assert(json::field_of(front, "matches"@) == Some(fields[1].1));
    assert(json::field_of(fields, "matches"@) == json::field_of(front, "matches"@));
}

impl BuiltinTool for SearchTextTool {
    open spec fn defined(&self) -> DefinitionSpec {
        search_definition()
    }

    fn definition(&self) -> (r: ToolDefinition) {
        let r = ToolDefinition::new("search_text").description(
            "Search for a literal substring across all files in the project and return file:line matches.",
        ).parameter(
            ToolParameter::string("needle").description("Substring to search for").required(true),
        ).parameter(
            ToolParameter::integer("limit").description(
                "Maximum number of matches to return (default: 50)",
            ),
        );
        assert(r.spec().parameters =~= search_definition().parameters);
        r
    }

    open spec fn cacheable(&self) -> bool {
        true
    }

    fn is_cacheable(&self) -> (r: bool) {
        true
    }

    open spec fn key_of(&self, call: ToolCall) -> Seq<char> {
        tool::call_key(call)
    }

    fn cache_key(&self, call: &ToolCall) -> (r: String) {
        tool::cache_key(call)
    }

    open spec fn objection(&self, call: ToolCall) -> Option<ErrorSpec> {
        protocol::parameter_objection(self.defined(), call)
    }

    fn validate_arguments(&self, call: &ToolCall) -> (r: AgentResult<()>) {
        let definition = self.definition();
        protocol::validate_arguments(&definition, call)
    }
}

/// Answers with the lines that were found.
fn search_answer(
    needle: &str,
    found: Vec<Json>,
    truncated: bool,
    Ghost(hits): Ghost<Seq<JsonValue>>,
    limit: usize,
) -> (r: ToolResult)
    requires
        truncated == (hits.len() >= limit),
        json::models(found@) == if hits.len() >= limit {
            hits.take(limit as int)
        } else {
            hits
        },
    ensures
        r.spec() == protocol::succeeded(
            JsonValue::Object(search_fields(needle@, hits, limit as nat)),
        ),
{
    let fields = Fields::new().with("needle", Json::text(needle)).with(
        "matches",
        Json::array(found),
    ).with("truncated", Json::truth(truncated));
    assert(fields.model() =~= search_fields(needle@, hits, limit as nat));
    ToolResult::success(fields.object())
}

impl SearchTextTool {
    /// Answers a call, given the files of the project.
    pub fn execute(
        &self,
        call: &ToolCall,
        project: &str,
        canonical: &Option<String>,
        files_found: &Vec<TextFile>,
    ) -> (r: AgentResult<ToolResult>)
        requires
            call.arguments@.contains_key("needle"@) ==> call.text_argument("needle"@) is Some,
        ensures
            protocol::is_outcome(
                r,
                search_outcome(
                    *call,
                    searched_files(files_found@, project@, paths::opt_view(*canonical)),
                ),
            ),
    {
        let definition = self.definition();
        match protocol::validate_arguments(&definition, call) {
            Ok(_) => {},
            Err(e) => {
                return Err(e);
            },
        }
        proof {
            let ps = search_definition().parameters;
            protocol::law_valid_call_gives_required(ps, call.arguments@.dom());
            assert(ps[0].required);
        }
        let needle: &str = call.get_string("needle").unwrap();
        let limit: usize = number_argument(call, "limit", 50);
        let ghost fs = searched_files(files_found@, project@, paths::opt_view(*canonical));
        let ghost all = all_hits(fs, needle@, fs.len());
        let mut found: Vec<Json> = Vec::new();
        assert(json::models(found@) =~= Seq::empty());
        let mut k: usize = 0;
        while k < files_found.len()
            invariant
                k <= files_found@.len(),
                limit >= 1,
                fs == searched_files(files_found@, project@, paths::opt_view(*canonical)),
                all == all_hits(fs, needle@, fs.len()),
                json::models(found@) == all_hits(fs, needle@, k as nat),
                found@.len() < limit,
                limit == at_least_one(*call, "limit"@, 50),
                call.text_argument("needle"@) == Some(needle@),
                protocol::first_missing(
                    search_definition().parameters,
                    call.arguments@.dom(),
                ) is None,
            decreases files_found@.len() - k,
        {
            let file = &files_found[k];
            let ghost f = fs[k as int];
            let ghost done = all_hits(fs, needle@, k as nat);
            match &file.content {
                Some(content) => {
                    let shown = match strip_projects(file.path.as_str(), project, canonical) {
                        Some(p) => p,
                        None => file.path.clone(),
                    };
                    let lines = text::lines_of(content.as_str());
                    assert(text::views(lines@) == f.lines);
                    assert(lines@.len() == f.lines.len());
                    let total: usize = lines.len();
                    assert(done + file_hits(f, needle@, 0) =~= done);
                    let mut l: usize = 0;
                    while l < total
                        invariant
                            l <= total == lines@.len(),
                            k < files_found@.len(),
                            limit >= 1,
                            fs == searched_files(
                                files_found@,
                                project@,
                                paths::opt_view(*canonical),
                            ),
                            all == all_hits(fs, needle@, fs.len()),
                            f == fs[k as int],
                            shown@ == f.shown,
                            text::views(lines@) == f.lines,
                            done == all_hits(fs, needle@, k as nat),
                            json::models(found@) == done + file_hits(f, needle@, l as nat),
                            found@.len() < limit,
                            limit == at_least_one(*call, "limit"@, 50),
                            call.text_argument("needle"@) == Some(needle@),
                            protocol::first_missing(
                                search_definition().parameters,
                                call.arguments@.dom(),
                            ) is None,
                        decreases total - l,
                    {
                        let line = lines[l].as_str();
                        assert(f.lines[l as int] == line@);
                        let ghost before = json::models(found@);
                        if text::contains_text(line, needle) {
                            let cut = text::shorten(line, 200);
                            let fields = Fields::new().with("path", Json::text(shown.as_str())).with(
                                "line",
                                Json::natural(l as u64 + 1),
                            ).with("text", Json::text(cut.as_str()));
                            assert(fields.model() =~= hit_fields(f.shown, (l + 1) as nat, line@));
                            let hit = fields.object();
                            found.push(hit);
                            assert(json::models(found@) =~= before.push(hit.model()));
                            assert(json::models(found@) =~= done + file_hits(
                                f,
                                needle@,
                                (l + 1) as nat,
                            ));
                            if found.len() >= limit {
                                proof {
                                    lemma_hits_come_first(fs, needle@, k as nat, (l + 1) as nat);
                                    let now = json::models(found@);
                                    assert(now =~= all.subrange(0, now.len() as int));
                                    assert(now.len() == found@.len());
                                    assert(all.take(limit as int) =~= now);
                                }
                                return Ok(
                                    search_answer(needle, found, true, Ghost(all), limit),
                                );
                            }
                        }
                        l += 1;
                    }
                },
                None => {
                    assert(done + file_hits(f, needle@, 0) =~= done);
                },
            }
            k += 1;
        }
        assert(json::models(found@).len() == found@.len());
        Ok(search_answer(needle, found, false, Ghost(all), limit))
    }
}

/// A tool for documents.
pub enum DocumentTool {
    ReadTextFile(ReadTextFileTool),
    ListDocs(ListDocsTool),
    SearchText(SearchTextTool),
}

impl BuiltinTool for DocumentTool {
    open spec fn defined(&self) -> DefinitionSpec {
        match self {
            DocumentTool::ReadTextFile(t) => t.defined(),
            DocumentTool::ListDocs(t) => t.defined(),
            DocumentTool::SearchText(t) => t.defined(),
        }
    }

    fn definition(&self) -> (r: ToolDefinition) {
        match self {
            DocumentTool::ReadTextFile(t) => t.definition(),
            DocumentTool::ListDocs(t) => t.definition(),
            DocumentTool::SearchText(t) => t.definition(),
        }
    }

    open spec fn cacheable(&self) -> bool {
        true
    }

    fn is_cacheable(&self) -> (r: bool) {
        true
    }

    open spec fn key_of(&self, call: ToolCall) -> Seq<char> {
        tool::call_key(call)
    }

    fn cache_key(&self, call: &ToolCall) -> (r: String) {
        tool::cache_key(call)
    }

    open spec fn objection(&self, call: ToolCall) -> Option<ErrorSpec> {
        protocol::parameter_objection(self.defined(), call)
    }

    fn validate_arguments(&self, call: &ToolCall) -> (r: AgentResult<()>) {
        let definition = self.definition();
        protocol::validate_arguments(&definition, call)
    }
}

/// Documents, told by their extensions.
pub struct DocumentScenario {
    pub extensions: Vec<String>,
}

impl DocumentScenario {
    /// Documents with these extensions.
    pub fn new(extensions: Vec<String>) -> (r: Self)
        ensures
            r.extensions == extensions,
    {
        DocumentScenario { extensions }
    }

    /// Markdown and text documents.
    pub fn markdown() -> (r: Self)
        ensures
            text::views(r.extensions@) == seq!["md"@, "markdown"@, "txt"@],
    {
        let mut extensions: Vec<String> = Vec::new();
        extensions.push("md".to_owned());
        extensions.push("markdown".to_owned());
        extensions.push("txt".to_owned());
        assert(text::views(extensions@) =~= seq!["md"@, "markdown"@, "txt"@]);
        DocumentScenario { extensions }
    }
}

impl Default for DocumentScenario {
    fn default() -> (r: Self)
        ensures
            text::views(r.extensions@) == seq!["md"@, "markdown"@, "txt"@],
    {
        DocumentScenario::markdown()
    }
}

/// What a library of documents is, in words.
pub open spec fn documents_description() -> Seq<char> {
    "A document library scenario providing tooling for browsing, reading and full-text searching Markdown / text documents."@
}

/// What the system says of a library of documents.
pub open spec fn documents_modifier() -> Seq<char> {
    "You are operating in a document library scenario. Use read_text_file / list_docs / search_text to explore the documents directory."@
}

impl Scenario for DocumentScenario {
    type Tool = DocumentTool;

    open spec fn title(&self) -> Seq<char> {
        "documents"@
    }

    open spec fn tool_list(&self) -> Seq<DefinitionSpec> {
        seq![read_definition(), list_definition(), search_definition()]
    }

    fn name(&self) -> (r: &str) {
        "documents"
    }

    fn description(&self) -> (r: &str)
        ensures
            r@ == documents_description(),
    {
        "A document library scenario providing tooling for browsing, reading and full-text searching Markdown / text documents."
    }

    fn build_tools(&self) -> (r: Vec<DocumentTool>)
        ensures
            r@.len() == 3,
            match r@[1] {
                DocumentTool::ListDocs(t) => text::views(t.extensions@) == text::views(
                    self.extensions@,
                ),
                _ => false,
            },
    {
        let mut r: Vec<DocumentTool> = Vec::new();
        r.push(DocumentTool::ReadTextFile(ReadTextFileTool));
        r.push(
            DocumentTool::ListDocs(ListDocsTool { extensions: text::copy_texts(&self.extensions) }),
        );
        r.push(DocumentTool::SearchText(SearchTextTool));
        assert(definitions_of(r@) =~= self.tool_list());
        r
    }

    fn system_prompt_modifier(&self) -> (r: Option<String>)
        ensures
            paths::opt_view(r) == Some(documents_modifier()),
    {
        Some(
            "You are operating in a document library scenario. Use read_text_file / list_docs / search_text to explore the documents directory.".to_owned(),
        )
    }
}

/// Any texts, which can only be read.
pub struct GenericTextScenario;

/// What any texts are, in words.
pub open spec fn generic_description() -> Seq<char> {
    "A generic text scenario that exposes only read-only file tools."@
}

impl Scenario for GenericTextScenario {
    type Tool = DocumentTool;

    open spec fn title(&self) -> Seq<char> {
        "generic-text"@
    }

    open spec fn tool_list(&self) -> Seq<DefinitionSpec> {
        seq![read_definition(), search_definition()]
    }

    fn name(&self) -> (r: &str) {
        "generic-text"
    }

    fn description(&self) -> (r: &str)
        ensures
            r@ == generic_description(),
    {
        "A generic text scenario that exposes only read-only file tools."
    }

    fn build_tools(&self) -> (r: Vec<DocumentTool>)
        ensures
            r@.len() == 2,
    {
        let mut r: Vec<DocumentTool> = Vec::new();
        r.push(DocumentTool::ReadTextFile(ReadTextFileTool));
        r.push(DocumentTool::SearchText(SearchTextTool));
        assert(definitions_of(r@) =~= self.tool_list());
        r
    }
}

/// A scenario that is there from the start.
pub enum BuiltinScenario {
    Documents(DocumentScenario),
    GenericText(GenericTextScenario),
}

impl Scenario for BuiltinScenario {
    type Tool = DocumentTool;

    open spec fn title(&self) -> Seq<char> {
        match self {
            BuiltinScenario::Documents(s) => s.title(),
            BuiltinScenario::GenericText(s) => s.title(),
        }
    }

    open spec fn tool_list(&self) -> Seq<DefinitionSpec> {
        match self {
            BuiltinScenario::Documents(s) => s.tool_list(),
            BuiltinScenario::GenericText(s) => s.tool_list(),
        }
    }

    fn name(&self) -> (r: &str) {
        match self {
            BuiltinScenario::Documents(s) => s.name(),
            BuiltinScenario::GenericText(s) => s.name(),
        }
    }

    fn description(&self) -> (r: &str)
        ensures
            r@ == match self {
                BuiltinScenario::Documents(_) => documents_description(),
                BuiltinScenario::GenericText(_) => generic_description(),
            },
    {
        match self {
            BuiltinScenario::Documents(s) => s.description(),
            BuiltinScenario::GenericText(s) => s.description(),
        }
    }

    fn build_tools(&self) -> (r: Vec<DocumentTool>)
        ensures
            match self {
                BuiltinScenario::Documents(d) => r@.len() == 3 && match r@[1] {
                    DocumentTool::ListDocs(t) => text::views(t.extensions@) == text::views(
                        d.extensions@,
                    ),
                    _ => false,
                },
                BuiltinScenario::GenericText(_) => r@.len() == 2,
            },
    {
        match self {
            BuiltinScenario::Documents(s) => s.build_tools(),
            BuiltinScenario::GenericText(s) => s.build_tools(),
        }
    }

    fn system_prompt_modifier(&self) -> (r: Option<String>)
        ensures
            paths::opt_view(r) == match self {
                BuiltinScenario::Documents(_) => Some(documents_modifier()),
                BuiltinScenario::GenericText(_) => None,
            },
    {
        match self {
            BuiltinScenario::Documents(s) => s.system_prompt_modifier(),
            BuiltinScenario::GenericText(s) => s.system_prompt_modifier(),
        }
    }
}

/// The names of scenarios.
pub open spec fn titles<S: Scenario>(v: Seq<S>) -> Seq<Seq<char>> {
    Seq::new(v.len(), |i: int| v[i].title())
}

/// Scenarios, found by their names.
pub struct ScenarioRegistry<S: Scenario> {
    pub scenarios: Vec<S>,
}

impl<S: Scenario> ScenarioRegistry<S> {
    /// A registry without scenarios.
    pub fn new() -> (r: Self)
        ensures
            r.scenarios@.len() == 0,
    {
        ScenarioRegistry { scenarios: Vec::new() }
    }

    /// Adds a scenario.
    pub fn register(&mut self, scenario: S)
        ensures
            final(self).scenarios@ == old(self).scenarios@.push(scenario),
    {
        self.scenarios.push(scenario);
    }

    /// The first scenario of a name.
    pub fn get(&self, name: &str) -> (r: Option<&S>)
        ensures
            match r {
                Some(s) => exists|i: int|
                    0 <= i < self.scenarios@.len() && #[trigger] self.scenarios@[i] == *s
                        && s.title() == name@ && forall|k: int|
                        0 <= k < i ==> (#[trigger] self.scenarios@[k]).title() != name@,
                None => !titles(self.scenarios@).contains(name@),
            },
    {
        let mut i: usize = 0;
        while i < self.scenarios.len()
            invariant
                i <= self.scenarios@.len(),
                forall|k: int| 0 <= k < i ==> (#[trigger] self.scenarios@[k]).title() != name@,
            decreases self.scenarios@.len() - i,
        {
            if text::same_text(self.scenarios[i].name(), name) {
                let s = &self.scenarios[i];
                assert(self.scenarios@[i as int] == *s);
                return Some(s);
            }
            i += 1;
        }
        None
    }

    /// The names of the scenarios.
    pub fn names(&self) -> (r: Vec<String>)
        ensures
            text::views(r@) == titles(self.scenarios@),
    {
        let ghost all = titles(self.scenarios@);
        let mut r: Vec<String> = Vec::new();
        let mut i: usize = 0;
        assert(text::views(r@) =~= all.take(0));
        while i < self.scenarios.len()
            invariant
                i <= self.scenarios@.len(),
                all == titles(self.scenarios@),
                text::views(r@) == all.take(i as int),
            decreases self.scenarios@.len() - i,
        {
            let ghost before = text::views(r@);
            r.push(self.scenarios[i].name().to_owned());
            i += 1;
            assert(text::views(r@) =~= before.push(all[i - 1]));
            assert(all.take(i as int) =~= all.take(i - 1).push(all[i - 1]));
        }
        assert(all.take(all.len() as int) =~= all);
        r
    }
}

/// The scenarios that are there from the start: one for Markdown and text documents, and one for any
/// texts.
pub open spec fn are_default_scenarios(v: Seq<BuiltinScenario>) -> bool {
    &&& v.len() == 2
    &&& match v[0] {
        BuiltinScenario::Documents(d) => text::views(d.extensions@) == seq![
            "md"@,
            "markdown"@,
            "txt"@,
        ],
        BuiltinScenario::GenericText(_) => false,
    }
    &&& v[1] is GenericText
}

impl ScenarioRegistry<BuiltinScenario> {
    /// A registry of the scenarios that are there from the start.
    pub fn with_defaults() -> (r: Self)
        ensures
            are_default_scenarios(r.scenarios@),
            titles(r.scenarios@) == seq!["documents"@, "generic-text"@],
    {
        let mut r = ScenarioRegistry::new();
        r.register(BuiltinScenario::Documents(DocumentScenario::markdown()));
        r.register(BuiltinScenario::GenericText(GenericTextScenario));
        assert(titles(r.scenarios@) =~= seq!["documents"@, "generic-text"@]);
        r
    }
}

impl Default for ScenarioRegistry<BuiltinScenario> {
    fn default() -> (r: Self)
        ensures
            are_default_scenarios(r.scenarios@),
            titles(r.scenarios@) == seq!["documents"@, "generic-text"@],
    {
        ScenarioRegistry::with_defaults()
    }
}

/// A scenario that was added is found by its name, unless one of that name was there before.
pub proof fn law_registered_is_found<S: Scenario>(before: Seq<S>, scenario: S)
    requires
        !titles(before).contains(scenario.title()),
    ensures
        titles(before.push(scenario)).contains(scenario.title()),
        forall|k: int| 0 <= k < before.len() ==> (#[trigger] before[k]).title() != scenario.title(),
{
    let after = before.push(scenario);
    assert(titles(after)[before.len() as int] == scenario.title());
    assert forall|k: int| 0 <= k < before.len() implies (#[trigger] before[k]).title()
        != scenario.title() by {
        assert(titles(before)[k] == before[k].title());
    }
}

} // verus!
