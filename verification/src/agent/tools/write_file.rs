//! Writing a file.

use vstd::prelude::*;
use vstd::string::*;

use crate::agent::json;
use crate::agent::json::{Fields, Json, JsonValue};
use crate::agent::protocol;
use crate::agent::protocol::{
    AgentError, AgentResult, DefinitionSpec, ErrorSpec, Outcome, ParameterType, ToolCall,
    ToolDefinition, ToolParameter, ToolResult,
};
use crate::agent::tool;
use crate::agent::tool::BuiltinTool;
use crate::agent::tools::files;
use crate::text;

verus! {

/// Writes a file as a whole.
pub struct WriteFileTool;

/// What the definition of the tool says.
pub open spec fn write_definition() -> DefinitionSpec {
    DefinitionSpec {
        name: "write_file"@,
        description: "Write content to a file, creating the file and parent directories if needed. Overwrites any existing content. Performs an atomic write (write to temp file, then rename)."@,
        parameters: seq![
            protocol::parameter(
                "path"@,
                ParameterType::Text,
                "Path to the file to write (relative to project root)"@,
                true,
            ),
            protocol::parameter(
                "content"@,
                ParameterType::Text,
                "Full content to write to the file"@,
                true,
            ),
            protocol::parameter(
                "create_dirs"@,
                ParameterType::Truth,
                "Create parent directories if they do not exist (default: true)"@,
                false,
            ),
        ],
    }
}

/// Where a call wants to write.
pub enum WritePlace {
    /// Outside of the project.
    Outside,
    /// In a directory that exists.
    InDirectory,
    /// In this directory, which does not exist.
    Missing(String),
}

/// A content that is to be written to a file.
pub struct Writing {
    pub path: String,
    pub content: String,
    /// The directory that is to hold the file must be made first.
    pub create_directory: bool,
}

/// What is to be done for a call: nothing more, or a content is to be written.
pub enum WriteStep {
    Done(AgentResult<ToolResult>),
    Write(Writing),
}

/// What is to be done for a call.
pub enum WritePlan {
    /// Nothing but to answer.
    Answer(Outcome),
    /// To write a content: the path that the call names, the content, and whether the directory
    /// must be made first.
    Write(Seq<char>, Seq<char>, bool),
}

/// The step is this plan.
pub open spec fn is_plan(step: WriteStep, plan: WritePlan) -> bool {
    match step {
        WriteStep::Done(r) => match plan {
            WritePlan::Answer(outcome) => protocol::is_outcome(r, outcome),
            WritePlan::Write(_, _, _) => false,
        },
        WriteStep::Write(w) => plan == WritePlan::Write(w.path@, w.content@, w.create_directory),
    }
}

/// What is to be done for a call.
pub open spec fn write_plan(call: ToolCall, place: WritePlace) -> WritePlan {
    match protocol::first_missing(write_definition().parameters, call.arguments@.dom()) {
        Some(name) => WritePlan::Answer(
            Outcome::Fails("write_file"@, protocol::missing_parameter(name)),
        ),
        None => {
            let path = call.text_argument("path"@)->0;
            let content = call.text_or_empty("content"@);
            match place {
                WritePlace::Outside => WritePlan::Answer(
                    Outcome::Fails("path_check"@, files::outside_message(path)),
                ),
                WritePlace::InDirectory => WritePlan::Write(path, content, false),
                WritePlace::Missing(directory) => if call.truth_argument("create_dirs"@) == Some(
                    false,
                ) {
                    WritePlan::Answer(
                        Outcome::Answers(
                            protocol::failed(
                                "Parent directory does not exist: "@ + directory@
                                    + " (set create_dirs=true to create it)"@,
                            ),
                        ),
                    )
                } else {
                    WritePlan::Write(path, content, true)
                },
            }
        },
    }
}

/// Where a directory is missing and is not to be made, the answer names the directory; where the path
/// leads out of the project, it names the path.
pub proof fn law_refusals_to_write_say_why(
    call: ToolCall,
    path: Seq<char>,
    content: Seq<char>,
    directory: String,
)
    requires
        call.text_argument("path"@) == Some(path),
        call.text_argument("content"@) == Some(content),
    ensures
        call.truth_argument("create_dirs"@) == Some(false) ==> (match write_plan(
            call,
            WritePlace::Missing(directory),
        ) {
            WritePlan::Answer(Outcome::Answers(r)) => !r.success && (match r.value {
                JsonValue::String(m) => text::occurs_in(
                    m,
                    "does not exist: "@ + directory@ + " (set create_dirs=true"@,
                ),
                _ => false,
            }),
            _ => false,
        }),
        (match write_plan(call, WritePlace::Outside) {
            WritePlan::Answer(Outcome::Fails(_, m)) => text::occurs_in(m, path),
            _ => false,
        }),
{
    law_given_content_is_written(call, path, content, directory);
    text::lemma_part_occurs("Path '"@, path, "' is outside the project directory"@);
    let part = "does not exist: "@ + directory@ + " (set create_dirs=true"@;
    let m = "Parent directory does not exist: "@ + directory@
        + " (set create_dirs=true to create it)"@;
    assert("Parent directory does not exist: "@ =~= "Parent directory "@ + "does not exist: "@) by {
        reveal_strlit("Parent directory does not exist: ");
        reveal_strlit("Parent directory ");
        reveal_strlit("does not exist: ");
    }
    assert(" (set create_dirs=true to create it)"@ =~= " (set create_dirs=true"@
        + " to create it)"@) by {
        reveal_strlit(" (set create_dirs=true to create it)");
        reveal_strlit(" (set create_dirs=true");
        reveal_strlit(" to create it)");
    }
    text::lemma_part_occurs("Parent directory "@, part, " to create it)"@);
    assert("Parent directory "@ + part + " to create it)"@ =~= m);
}

/// The content that a call gives is written, whole and as it is, under the path that it gives. A
/// directory that is missing is made unless the call says not to; then, and outside of the project,
/// nothing is written.
pub proof fn law_given_content_is_written(
    call: ToolCall,
    path: Seq<char>,
    content: Seq<char>,
    directory: String,
)
    requires
        call.text_argument("path"@) == Some(path),
        call.text_argument("content"@) == Some(content),
    ensures
        write_plan(call, WritePlace::InDirectory) == WritePlan::Write(path, content, false),
        call.truth_argument("create_dirs"@) != Some(false) ==> write_plan(
            call,
            WritePlace::Missing(directory),
        ) == WritePlan::Write(path, content, true),
        call.truth_argument("create_dirs"@) == Some(false) ==> (write_plan(
            call,
            WritePlace::Missing(directory),
        ) matches WritePlan::Answer(Outcome::Answers(r)) && !r.success),
        write_plan(call, WritePlace::Outside) matches WritePlan::Answer(Outcome::Fails(_, _)),
{
    let ps = write_definition().parameters;
    let given = call.arguments@.dom();
    assert(given.contains("path"@) && given.contains("content"@));
    protocol::law_valid_call_gives_required(ps, given);
}

/// What went wrong while a content was written, with the reason.
pub enum WriteFailure {
    /// The directory could not be made.
    Directory(String),
    /// The temporary file could not be made.
    TempFile(String),
    /// The content could not be written.
    Content(String),
    /// The temporary file could not take the file's place.
    Rename(String),
}

/// The message for a failure.
pub open spec fn failure_message(path: Seq<char>, failure: WriteFailure) -> Seq<char> {
    match failure {
        WriteFailure::Directory(e) => "Failed to create parent directories for '"@ + path + "': "@
            + e@,
        WriteFailure::TempFile(e) => "Failed to create temp file for '"@ + path + "': "@ + e@,
        WriteFailure::Content(e) => "Failed to write content to '"@ + path + "': "@ + e@,
        WriteFailure::Rename(e) => "Failed to atomic-rename temp file to '"@ + path + "': "@ + e@,
    }
}

/// The fields of what is answered once a content is written; `exists` tells whether there is then
/// a file at the path.
pub open spec fn write_fields(path: Seq<char>, content: Seq<char>, exists_now: bool) -> Seq<
    (Seq<char>, JsonValue),
> {
    seq![
        ("path"@, JsonValue::String(path)),
        ("bytes_written"@, json::natural_value(text::utf8_len(content))),
        ("lines_written"@, json::natural_value(text::lines(content).len())),
        ("created"@, JsonValue::Bool(!exists_now)),
    ]
}

/// What comes of a call once its content was to be written.
pub open spec fn written_outcome(
    path: Seq<char>,
    content: Seq<char>,
    written: Result<bool, WriteFailure>,
) -> Outcome {
    match written {
        Ok(exists_now) => Outcome::Answers(
            protocol::succeeded(JsonValue::Object(write_fields(path, content, exists_now))),
        ),
        Err(failure) => Outcome::Fails("write_file"@, failure_message(path, failure)),
    }
}

/// The answer tells the path, how many bytes and lines were written, and whether there is no file
/// at the path; a failure names the path and the reason.
pub proof fn law_write_answer_tells_what_was_written(
    path: Seq<char>,
    content: Seq<char>,
    exists_now: bool,
    failure: WriteFailure,
)
    ensures
        written_outcome(path, content, Ok(exists_now)) matches Outcome::Answers(r) && r.success
            && r.value.field("path"@) == Some(JsonValue::String(path)) && r.value.field(
            "bytes_written"@,
        ) == Some(json::natural_value(text::utf8_len(content))) && r.value.field("lines_written"@)
            == Some(json::natural_value(text::lines(content).len())) && r.value.field("created"@)
            == Some(JsonValue::Bool(!exists_now)),
        written_outcome(path, content, Err(failure)) matches Outcome::Fails(_, message)
            && text::occurs_in(message, "'"@ + path + "': "@ + (match failure {
            WriteFailure::Directory(e) => e@,
            WriteFailure::TempFile(e) => e@,
            WriteFailure::Content(e) => e@,
            WriteFailure::Rename(e) => e@,
        })),
{
    reveal_strlit("path");
    reveal_strlit("bytes_written");
    reveal_strlit("lines_written");
    reveal_strlit("created");
    assert("path"@.len() == 4);
    assert("bytes_written"@.len() == 13);
    assert("lines_written"@.len() == 13);
    assert("created"@.len() == 7);
    assert("bytes_written"@[0] != "lines_written"@[0]);
    let fields = write_fields(path, content, exists_now);
    json::lemma_field(fields, 0);
    json::lemma_field(fields, 1);
    json::lemma_field(fields, 2);
    json::lemma_field(fields, 3);
    let reason = match failure {
        WriteFailure::Directory(e) => e@,
        WriteFailure::TempFile(e) => e@,
        WriteFailure::Content(e) => e@,
        WriteFailure::Rename(e) => e@,
    };
    let tail = "'"@ + path + "': "@ + reason;
    let message = failure_message(path, failure);
    reveal_strlit("'");
    reveal_strlit("Failed to create parent directories for '");
    reveal_strlit("Failed to create temp file for '");
    reveal_strlit("Failed to write content to '");
    reveal_strlit("Failed to atomic-rename temp file to '");
    let n = message.len() - tail.len();
    assert(message.subrange(n, n + tail.len()) =~= tail);
    assert(text::occurs_at(message, tail, n));
}

/// A summary of an answer.
pub open spec fn write_summary(success: bool, value: JsonValue) -> Seq<char> {
    if !success {
        "Error: "@ + json::json_text(value)
    } else {
        "Wrote "@ + text::decimal(json::natural_of(value, "bytes_written"@) as nat) + " bytes ("@
            + text::decimal(json::natural_of(value, "lines_written"@) as nat) + " lines) to "@
            + json::text_of(value, "path"@, "?"@)
    }
}

/// A summary of what was written names the file and tells how much it was; one of a failure tells the
/// failure.
pub proof fn law_write_summary_tells_how_much(
    value: JsonValue,
    path: Seq<char>,
    bytes: u64,
    lines: u64,
)
    requires
        value.field("path"@) == Some(JsonValue::String(path)),
        value.field("bytes_written"@) == Some(json::natural_value(bytes as nat)),
        value.field("lines_written"@) == Some(json::natural_value(lines as nat)),
    ensures
        write_summary(true, value) == "Wrote "@ + text::decimal(bytes as nat) + " bytes ("@
            + text::decimal(lines as nat) + " lines) to "@ + path,
        write_summary(false, value) == "Error: "@ + json::json_text(value),
{
}

impl BuiltinTool for WriteFileTool {
    open spec fn defined(&self) -> DefinitionSpec {
        write_definition()
    }

    fn definition(&self) -> (r: ToolDefinition) {
        let r = ToolDefinition::new("write_file").description(
            "Write content to a file, creating the file and parent directories if needed. Overwrites any existing content. Performs an atomic write (write to temp file, then rename).",
        ).parameter(
            ToolParameter::string("path").description(
                "Path to the file to write (relative to project root)",
            ).required(true),
        ).parameter(
            ToolParameter::string("content").description(
                "Full content to write to the file",
            ).required(true),
        ).parameter(
            ToolParameter::boolean("create_dirs").description(
                "Create parent directories if they do not exist (default: true)",
            ),
        );
        assert(r.spec().parameters =~= write_definition().parameters);
        r
    }

    open spec fn cacheable(&self) -> bool {
        false
    }

    fn is_cacheable(&self) -> (r: bool) {
        false
    }

    open spec fn key_of(&self, call: ToolCall) -> Seq<char> {
        tool::call_key(call)
    }

    fn cache_key(&self, call: &ToolCall) -> (r: String) {
        tool::cache_key(call)
    }

    open spec fn objection(&self, call: ToolCall) -> Option<ErrorSpec> {
        protocol::parameter_objection(self.defined(), call)
    }

    fn validate_arguments(&self, call: &ToolCall) -> (r: AgentResult<()>) {
        let definition = self.definition();
        protocol::validate_arguments(&definition, call)
    }
}

impl WriteFileTool {
    /// Finds what is to be done for a call.
    pub fn execute(&self, call: &ToolCall, place: &WritePlace) -> (r: WriteStep)
        requires
            call.arguments@.contains_key("path"@) ==> call.text_argument("path"@) is Some,
        ensures
            is_plan(r, write_plan(*call, *place)),
    {
        let definition = self.definition();
        match protocol::validate_arguments(&definition, call) {
            Ok(_) => {},
            Err(e) => {
                return WriteStep::Done(Err(e));
            },
        }
        proof {
            let ps = write_definition().parameters;
            protocol::law_valid_call_gives_required(ps, call.arguments@.dom());
            assert(ps[0].required);
        }
        let path: &str = call.get_string("path").unwrap();
        let content: &str = call.get_string_or_empty("content");
        let create_dirs = match call.get_bool("create_dirs") {
            Some(b) => b,
            None => true,
        };
        match place {
            WritePlace::Outside => WriteStep::Done(Err(files::outside_error(path))),
            WritePlace::InDirectory => WriteStep::Write(
                Writing {
                    path: path.to_owned(),
                    content: content.to_owned(),
                    create_directory: false,
                },
            ),
            WritePlace::Missing(directory) => {
                if create_dirs {
                    WriteStep::Write(
                        Writing {
                            path: path.to_owned(),
                            content: content.to_owned(),
                            create_directory: true,
                        },
                    )
                } else {
                    let mut m = "Parent directory does not exist: ".to_owned();
                    m.append(directory.as_str());
                    m.append(" (set create_dirs=true to create it)");
                    WriteStep::Done(Ok(ToolResult::error(m.as_str())))
                }
            },
        }
    }

    /// Answers a call once its content was to be written: `written` tells whether there is then a
    /// file at the path, or what went wrong.
    pub fn finish(&self, writing: &Writing, written: Result<bool, WriteFailure>) -> (r: AgentResult<
        ToolResult,
    >)
        ensures
            protocol::is_outcome(r, written_outcome(writing.path@, writing.content@, written)),
    {
        let path = writing.path.as_str();
        match written {
            Ok(exists_now) => {
                let bytes: usize = text::byte_len(writing.content.as_str());
                let lines: usize = text::line_count(writing.content.as_str());
                let fields = Fields::new().with("path", Json::text(path)).with(
                    "bytes_written",
                    Json::natural(bytes as u64),
                ).with("lines_written", Json::natural(lines as u64)).with(
                    "created",
                    Json::truth(!exists_now),
                );
                assert(fields.model() =~= write_fields(
                    writing.path@,
                    writing.content@,
                    exists_now,
                ));
                Ok(ToolResult::success(fields.object()))
            },
            Err(failure) => {
                let (mut m, reason) = match failure {
                    WriteFailure::Directory(e) => (
                        "Failed to create parent directories for '".to_owned(),
                        e,
                    ),
                    WriteFailure::TempFile(e) => ("Failed to create temp file for '".to_owned(), e),
                    WriteFailure::Content(e) => ("Failed to write content to '".to_owned(), e),
                    WriteFailure::Rename(e) => (
                        "Failed to atomic-rename temp file to '".to_owned(),
                        e,
                    ),
                };
                m.append(path);
                m.append("': ");
                m.append(reason.as_str());
                Err(AgentError::tool_error("write_file", m.as_str()))
            },
        }
    }

    /// Sums an answer up.
    pub fn summarize_result(&self, result: &ToolResult) -> (r: String)
        ensures
            r@ == write_summary(result.success, result.value.model()),
    {
        if !result.success {
            let mut r = "Error: ".to_owned();
            let m = json::compact(&result.value);
            r.append(m.as_str());
            return r;
        }
        let bytes: u64 = json::natural_field(&result.value, "bytes_written");
        let lines: u64 = json::natural_field(&result.value, "lines_written");
        let path = json::text_field(&result.value, "path", "?");
        let mut r = "Wrote ".to_owned();
        let n = text::decimal_text(bytes);
        r.append(n.as_str());
        r.append(" bytes (");
        let n = text::decimal_text(lines);
        r.append(n.as_str());
        r.append(" lines) to ");
        r.append(path.as_str());
        r
    }
}

} // verus!
