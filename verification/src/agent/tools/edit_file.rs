//! Editing a part of a file.

use vstd::prelude::*;
use vstd::string::*;

use crate::agent::json;
use crate::agent::json::{Fields, Json, JsonValue};
use crate::agent::protocol;
use crate::agent::protocol::{
    AgentError, AgentResult, DefinitionSpec, ErrorSpec, Outcome, ParameterType, ToolCall,
    ToolDefinition, ToolParameter, ToolResult,
};
use crate::agent::tool;
use crate::agent::tool::BuiltinTool;
use crate::agent::tools::files;
use crate::agent::tools::files::FileAccess;
use crate::text;

verus! {

/// A text with the first occurrence of another text replaced, if it occurs.
pub open spec fn replaced_first(s: Seq<char>, find: Seq<char>, replace: Seq<char>) -> Option<
    Seq<char>,
> {
    match text::first_place(s, find, 0) {
        Some(i) => Some(s.take(i as int) + replace + s.skip(i as int + find.len())),
        None => None,
    }
}

/// Replacing a text by itself changes nothing.
pub proof fn law_replacing_by_itself_changes_nothing(s: Seq<char>, find: Seq<char>)
    ensures
        match replaced_first(s, find, find) {
            Some(r) => r == s,
            None => !text::occurs_in(s, find),
        },
{
    text::lemma_first_place(s, find, 0);
    match text::first_place(s, find, 0) {
        Some(i) => {
            assert(s.subrange(i as int, i as int + find.len()) =~= find);
            assert(s.take(i as int) + find + s.skip(i as int + find.len()) =~= s);
        },
        None => {
            if text::occurs_in(s, find) {
                let j = choose|j: int| #[trigger] text::occurs_at(s, find, j);
                assert(0 <= j);
            }
        },
    }
}

/// What is put in the place of lines: the content, closed by a line feed unless it is empty.
pub open spec fn closed_line(content: Seq<char>) -> Seq<char> {
    if content.len() == 0 || content.last() == '\n' {
        content
    } else {
        content.push('\n')
    }
}

/// Where the lines that stay start again: behind the lines that are replaced, at most at the end.
pub open spec fn resume_at(lines: nat, offset: nat, limit: nat) -> nat {
    if offset - 1 + limit < lines {
        (offset - 1 + limit) as nat
    } else {
        lines
    }
}

/// A text with the `limit` lines from line `offset` on, counted from 1, replaced by `content`.
pub open spec fn replaced_lines(
    s: Seq<char>,
    offset: nat,
    limit: nat,
    content: Seq<char>,
) -> Seq<char> {
    let lines = text::raw_lines(s);
    text::flat(lines.take(offset - 1)) + closed_line(content) + text::flat(
        lines.skip(resume_at(lines.len(), offset, limit) as int),
    )
}

/// With no lines to replace, the text stays whole around the new content.
pub proof fn law_insertion_keeps_the_text(s: Seq<char>, offset: nat, content: Seq<char>)
    requires
        1 <= offset <= text::raw_lines(s).len() + 1,
    ensures
        ({
            let head = text::flat(text::raw_lines(s).take(offset - 1));
            let tail = text::flat(text::raw_lines(s).skip(offset - 1));
            &&& head + tail == s
            &&& replaced_lines(s, offset, 0, content) == head + closed_line(content) + tail
        }),
{
    let lines = text::raw_lines(s);
    text::law_lines_make_the_text(s);
    text::lemma_flat_concat(lines.take(offset - 1), lines.skip(offset - 1));
    assert(lines.take(offset - 1) + lines.skip(offset - 1) =~= lines);
}

/// The edit that a call asks for: where it names a text to find, the first occurrence is replaced;
/// else, where it names a line, lines are replaced. The new text, or why there is none.
pub open spec fn edited(call: ToolCall, path: Seq<char>, s: Seq<char>) -> Result<
    Seq<char>,
    Seq<char>,
> {
    if call.arguments@.contains_key("find"@) {
        let find = call.text_or_empty("find"@);
        if find.len() == 0 {
            Err("`find` must be a non-empty string"@)
        } else {
            match replaced_first(s, find, call.text_or_empty("replace"@)) {
                Some(r) => Ok(r),
                None => Err("Substring not found in '"@ + path + "'"@),
            }
        }
    } else if call.arguments@.contains_key("offset"@) {
        let offset = offset_of(call);
        let lines = text::raw_lines(s).len();
        if offset > lines + 1 {
            Err(
                "offset "@ + text::decimal(offset) + " is beyond end of file ("@ + text::decimal(
                    lines,
                ) + " lines)"@,
            )
        } else {
            Ok(replaced_lines(s, offset, limit_of(call), call.text_or_empty("content"@)))
        }
    } else {
        Err("Either `find`+`replace` or `offset` (+`limit`) must be provided"@)
    }
}

/// The line that a call starts at, at least 1.
pub open spec fn offset_of(call: ToolCall) -> nat {
    match call.integer_argument("offset"@) {
        Some(n) => if n < 1 {
            1
        } else {
            n as nat
        },
        None => 1,
    }
}

/// The number of lines that a call replaces: 1 unless it says otherwise.
pub open spec fn limit_of(call: ToolCall) -> nat {
    match call.integer_argument("limit"@) {
        Some(n) => if n < 0 {
            0
        } else {
            n as nat
        },
        None => 1,
    }
}

/// A call that names a line and no number of lines replaces just that line: the lines before it and
/// those behind it stay, and between them stands the content, closed by a line feed.
pub proof fn law_one_line_is_replaced(
    call: ToolCall,
    path: Seq<char>,
    s: Seq<char>,
    n: i64,
    content: Seq<char>,
)
    requires
        !call.arguments@.contains_key("find"@),
        call.integer_argument("offset"@) == Some(n),
        !call.arguments@.contains_key("limit"@) || call.integer_argument("limit"@) is None,
        call.text_argument("content"@) == Some(content),
        1 <= n <= text::raw_lines(s).len(),
    ensures
        ({
            let lines = text::raw_lines(s);
            let closed = if content.len() == 0 || content.last() == '\n' {
                content
            } else {
                content + seq!['\n']
            };
            edited(call, path, s) == Ok::<Seq<char>, Seq<char>>(
                text::flat(lines.take(n - 1)) + closed + text::flat(lines.skip(n as int)),
            )
        }),
{
    assert(content.push('\n') =~= content + seq!['\n']);
}

/// A call that names a line and a number of lines replaces as many lines from that line on, as far as
/// there are any, by its content; without content they are taken out. A line before the first counts
/// as the first, and fewer lines than none as none.
pub proof fn law_named_lines_are_replaced(
    call: ToolCall,
    path: Seq<char>,
    s: Seq<char>,
    offset: i64,
    limit: i64,
)
    requires
        !call.arguments@.contains_key("find"@),
        call.integer_argument("offset"@) == Some(offset),
        call.integer_argument("limit"@) == Some(limit),
        offset <= text::raw_lines(s).len() + 1,
    ensures
        ({
            let lines = text::raw_lines(s);
            let first = if offset < 1 {
                0
            } else {
                offset - 1
            };
            let count = if limit < 0 {
                0
            } else {
                limit as int
            };
            let behind = if first + count < lines.len() {
                first + count
            } else {
                lines.len() as int
            };
            let head = text::flat(lines.take(first));
            let tail = text::flat(lines.skip(behind));
            let gone = text::flat(lines.subrange(first, behind));
            &&& s == head + gone + tail
            &&& edited(call, path, s) matches Ok(t) && (match call.text_argument("content"@) {
                Some(content) => t == head + content + tail || t == head + content + seq!['\n']
                    + tail,
                None => t == head + tail,
            })
        }),
{
    let lines = text::raw_lines(s);
    let first = if offset < 1 {
        0
    } else {
        offset - 1
    };
    let count = if limit < 0 {
        0
    } else {
        limit as int
    };
    let behind = if first + count < lines.len() {
        first + count
    } else {
        lines.len() as int
    };
    text::law_lines_make_the_text(s);
    text::lemma_flat_concat(lines.take(first), lines.subrange(first, behind));
    text::lemma_flat_concat(lines.take(behind), lines.skip(behind));
    assert(lines.take(first) + lines.subrange(first, behind) =~= lines.take(behind));
    assert(lines.take(behind) + lines.skip(behind) =~= lines);
    let content = call.text_or_empty("content"@);
    assert(content.push('\n') =~= content + seq!['\n']);
    assert(edited(call, path, s) == Ok::<Seq<char>, Seq<char>>(
        text::flat(lines.take(first)) + closed_line(content) + text::flat(lines.skip(behind)),
    ));
    if call.text_argument("content"@) is None {
        assert(text::flat(lines.take(first)) + closed_line(content) + text::flat(lines.skip(behind))
            =~= text::flat(lines.take(first)) + text::flat(lines.skip(behind)));
    } else {
        assert(text::flat(lines.take(first)) + content.push('\n') =~= text::flat(lines.take(first))
            + content + seq!['\n']);
    }
}

/// A line that lies beyond the one behind the last cannot be replaced.
pub proof fn law_lines_beyond_the_end_are_refused(call: ToolCall, path: Seq<char>, s: Seq<char>)
    requires
        !call.arguments@.contains_key("find"@),
        call.integer_argument("offset"@) matches Some(offset) && offset > text::raw_lines(s).len()
            + 1,
    ensures
        edited(call, path, s) is Err,
{
}

/// A call that names a text to find has the place where it stands first filled with the replacement,
/// whatever else the call names; the rest of the text stays.
pub proof fn law_first_occurrence_is_replaced(
    call: ToolCall,
    path: Seq<char>,
    s: Seq<char>,
    find: Seq<char>,
    i: int,
)
    requires
        call.text_argument("find"@) == Some(find),
        find.len() > 0,
        0 <= i,
        i + find.len() <= s.len(),
        s.subrange(i, i + find.len()) == find,
        forall|j: int|
            0 <= j < i ==> #[trigger] s.subrange(j, j + find.len()) != find,
    ensures
        edited(call, path, s) == Ok::<Seq<char>, Seq<char>>(
            s.subrange(0, i) + (match call.text_argument("replace"@) {
                Some(replace) => replace,
                None => Seq::empty(),
            }) + s.subrange(i + find.len(), s.len() as int),
        ),
{
    text::lemma_first_place(s, find, 0);
    assert(text::occurs_at(s, find, i));
    let k = text::first_place(s, find, 0)->0 as int;
    assert(text::occurs_at(s, find, k));
    if k < i {
        assert(s.subrange(k, k + find.len()) == find);
    }
    assert(s.take(i) =~= s.subrange(0, i));
    assert(s.skip(i + find.len()) =~= s.subrange(i + find.len(), s.len() as int));
}

/// A text that stands nowhere is not replaced, nor is an empty one; and a call must name a text or a
/// line.
pub proof fn law_nothing_to_replace_is_refused(call: ToolCall, path: Seq<char>, s: Seq<char>)
    requires
        match call.text_argument("find"@) {
            Some(find) => find.len() == 0 || forall|j: int|
                0 <= j && j + find.len() <= s.len() ==> #[trigger] s.subrange(j, j + find.len())
                    != find,
            None => call.arguments@.contains_key("find"@) || !call.arguments@.contains_key(
                "offset"@,
            ),
        },
    ensures
        edited(call, path, s) is Err,
{
    if let Some(find) = call.text_argument("find"@) {
        text::lemma_first_place(s, find, 0);
        if find.len() > 0 && text::first_place(s, find, 0) is Some {
            let k = text::first_place(s, find, 0)->0 as int;
            assert(text::occurs_at(s, find, k));
            assert(s.subrange(k, k + find.len()) == find);
        }
    }
}

fn replace_first(s: &str, find: &str, replace: &str) -> (r: Option<String>)
    ensures
        match r {
            Some(t) => replaced_first(s@, find@, replace@) == Some(t@),
            None => replaced_first(s@, find@, replace@) is None,
        },
{
    match text::find_text(s, find) {
        Some(i) => {
            proof {
                text::lemma_first_place(s@, find@, 0);
            }
            let chars = text::chars_of(s);
            let needle = text::chars_of(find);
            let n: usize = chars.len();
            let mut r = text::text_between(&chars, 0, i);
            r.append(replace);
            let tail = text::text_between(&chars, i + needle.len(), n);
            r.append(tail.as_str());
            assert(s@.subrange(0, i as int) =~= s@.take(i as int));
            assert(s@.subrange(i + find@.len(), n as int) =~= s@.skip(i + find@.len()));
            Some(r)
        },
        None => None,
    }
}

fn replace_lines(lines: &Vec<String>, offset: u64, limit: u64, content: &str) -> (r: String)
    requires
        1 <= offset <= lines@.len() + 1,
        offset + limit <= u64::MAX,
    ensures
        r@ == text::flat(text::views(lines@).take(offset - 1)) + closed_line(content@)
            + text::flat(
            text::views(lines@).skip(resume_at(lines@.len(), offset as nat, limit as nat) as int),
        ),
{
    let ghost all = text::views(lines@);
    let n: usize = lines.len();
    let first: usize = (offset - 1) as usize;
    let mut r = String::new();
    text::append_range(&mut r, lines, 0, first);
    assert(all.subrange(0, first as int) =~= all.take(offset - 1));
    assert(r@ =~= text::flat(all.take(offset - 1)));
    let ghost head = r@;
    let chars = text::chars_of(content);
    r.append(content);
    if chars.len() > 0 && chars[chars.len() - 1] != '\n' {
        text::push_char(&mut r, '\n');
    }
    assert(r@ =~= head + closed_line(content@));
    let end: u64 = offset - 1 + limit;
    let resume: usize = if end < n as u64 {
        end as usize
    } else {
        n
    };
    text::append_range(&mut r, lines, resume, n);
    assert(all.subrange(resume as int, n as int) =~= all.skip(resume as int));
    r
}

/// The new text, or why there is none.
pub fn edit_text(call: &ToolCall, path: &str, original: &str) -> (r: Result<String, String>)
    ensures
        match r {
            Ok(t) => edited(*call, path@, original@) == Ok::<Seq<char>, Seq<char>>(t@),
            Err(m) => edited(*call, path@, original@) == Err::<Seq<char>, Seq<char>>(m@),
        },
{
    if call.arguments.contains_key("find") {
        let find = call.get_string_or_empty("find");
        let replace = call.get_string_or_empty("replace");
        let chars = text::chars_of(find);
        if chars.len() == 0 {
            return Err("`find` must be a non-empty string".to_owned());
        }
        match replace_first(original, find, replace) {
            Some(t) => Ok(t),
            None => {
                let mut m = "Substring not found in '".to_owned();
                m.append(path);
                m.append("'");
                Err(m)
            },
        }
    } else if call.arguments.contains_key("offset") {
        let offset: u64 = match call.get_i64("offset") {
            Some(n) => if n < 1 {
                1
            } else {
                n as u64
            },
            None => 1,
        };
        let limit: u64 = match call.get_i64("limit") {
            Some(n) => if n < 0 {
                0
            } else {
                n as u64
            },
            None => 1,
        };
        let content = call.get_string_or_empty("content");
        let lines = text::raw_lines_of(original);
        assert(text::views(lines@).len() == lines@.len());
        let count: usize = lines.len();
        if offset - 1 > count as u64 {
            let mut m = "offset ".to_owned();
            let n = text::decimal_text(offset);
            m.append(n.as_str());
            m.append(" is beyond end of file (");
            let n = text::decimal_text(count as u64);
            m.append(n.as_str());
            m.append(" lines)");
            return Err(m);
        }
        Ok(replace_lines(&lines, offset, limit, content))
    } else {
        Err("Either `find`+`replace` or `offset` (+`limit`) must be provided".to_owned())
    }
}

/// Replaces a text, or lines, in a file.
pub struct EditFileTool;

/// What the definition of the tool says.
pub open spec fn edit_definition() -> DefinitionSpec {
    DefinitionSpec {
        name: "edit_file"@,
        description: "Edit an existing file by either replacing a substring (`find` -> `replace`, first occurrence only) or substituting a line range (`offset`/`limit`) with new `content`. Performs an atomic write and fails if the file does not exist."@,
        parameters: seq![
            protocol::parameter(
                "path"@,
                ParameterType::Text,
                "Path to the file to edit (relative to project root)"@,
                true,
            ),
            protocol::parameter(
                "find"@,
                ParameterType::Text,
                "Substring to search for and replace with `replace`. Mutually exclusive with offset/limit."@,
                false,
            ),
            protocol::parameter(
                "replace"@,
                ParameterType::Text,
                "Replacement string for the `find` match."@,
                false,
            ),
            protocol::parameter(
                "offset"@,
                ParameterType::Integer,
                "Starting line number for a line-range replacement (1-indexed). Mutually exclusive with find/replace."@,
                false,
            ),
            protocol::parameter(
                "limit"@,
                ParameterType::Integer,
                "Number of lines to replace starting at `offset`. Defaults to 1. Use 0 to insert without removing any lines."@,
                false,
            ),
            protocol::parameter(
                "content"@,
                ParameterType::Text,
                "New content to substitute at the edited location. For find/replace mode this is unused (use `replace`)."@,
                false,
            ),
        ],
    }
}

/// A new text that is to be written to a file.
pub struct Edit {
    pub path: String,
    pub original: String,
    pub content: String,
}

/// What is to be done for a call: nothing more, or a new text is to be written.
pub enum EditStep {
    Done(AgentResult<ToolResult>),
    Write(Edit),
}

/// What is to be done for a call.
pub enum EditPlan {
    /// Nothing but to answer.
    Answer(Outcome),
    /// To write a text: the path that the call names, the file's text and the new text.
    Write(Seq<char>, Seq<char>, Seq<char>),
}

/// The step is this plan.
pub open spec fn is_plan(step: EditStep, plan: EditPlan) -> bool {
    match step {
        EditStep::Done(r) => match plan {
            EditPlan::Answer(outcome) => protocol::is_outcome(r, outcome),
            EditPlan::Write(_, _, _) => false,
        },
        EditStep::Write(e) => plan == EditPlan::Write(e.path@, e.original@, e.content@),
    }
}

/// What is to be done for a call, given what came of reading its file.
pub open spec fn edit_plan(call: ToolCall, file: FileAccess) -> EditPlan {
    match protocol::first_missing(edit_definition().parameters, call.arguments@.dom()) {
        Some(name) => EditPlan::Answer(
            Outcome::Fails("edit_file"@, protocol::missing_parameter(name)),
        ),
        None => {
            let path = call.text_argument("path"@)->0;
            match file {
                FileAccess::Outside => EditPlan::Answer(
                    Outcome::Fails("path_check"@, files::outside_message(path)),
                ),
                FileAccess::NotAFile => EditPlan::Answer(
                    Outcome::Answers(protocol::failed("File does not exist: "@ + path)),
                ),
                FileAccess::Unreadable(reason) => EditPlan::Answer(
                    Outcome::Fails("edit_file"@, files::unreadable_message(path, reason@)),
                ),
                FileAccess::Text(original) => match edited(call, path, original@) {
                    Ok(content) => EditPlan::Write(path, original@, content),
                    Err(m) => EditPlan::Answer(Outcome::Answers(protocol::failed(m))),
                },
            }
        },
    }
}

/// What is written is the edited text of the file that the call names; where the edit is refused,
/// nothing is written and the call fails with the reason.
pub proof fn law_only_the_edited_text_is_written(
    call: ToolCall,
    path: Seq<char>,
    original: String,
)
    requires
        call.text_argument("path"@) == Some(path),
    ensures
        ({
            let plan = edit_plan(call, FileAccess::Text(original));
            match edited(call, path, original@) {
                Ok(content) => plan == EditPlan::Write(path, original@, content),
                Err(reason) => plan matches EditPlan::Answer(Outcome::Answers(r)) && !r.success
                    && r.value == JsonValue::String(reason),
            }
        }),
        !(edit_plan(call, FileAccess::NotAFile) is Write),
        !(edit_plan(call, FileAccess::Outside) is Write),
{
    let ps = edit_definition().parameters;
    let given = call.arguments@.dom();
    assert(given.contains("path"@));
    protocol::law_valid_call_gives_required(ps, given);
}

/// The fields of what is answered once a new text is written.
pub open spec fn edit_fields(path: Seq<char>, original: Seq<char>, content: Seq<char>) -> Seq<
    (Seq<char>, JsonValue),
> {
    seq![
        ("path"@, JsonValue::String(path)),
        ("original_bytes"@, json::natural_value(text::utf8_len(original))),
        ("new_bytes"@, json::natural_value(text::utf8_len(content))),
        ("original_lines"@, json::natural_value(text::lines(original).len())),
        ("new_lines"@, json::natural_value(text::lines(content).len())),
    ]
}

/// What comes of a call once a new text was to be written: its sizes and those of the old one, or
/// the reason why it was not written.
pub open spec fn written_outcome(
    path: Seq<char>,
    original: Seq<char>,
    content: Seq<char>,
    failure: Option<Seq<char>>,
) -> Outcome {
    match failure {
        Some(reason) => Outcome::Fails(
            "edit_file"@,
            "Failed to write edited file '"@ + path + "': "@ + reason,
        ),
        None => Outcome::Answers(
            protocol::succeeded(JsonValue::Object(edit_fields(path, original, content))),
        ),
    }
}

/// The answer tells the file, and the bytes and lines of its text before and after.
pub proof fn law_edit_answer_tells_both_sizes(
    path: Seq<char>,
    original: Seq<char>,
    content: Seq<char>,
)
    ensures
        written_outcome(path, original, content, None) matches Outcome::Answers(r) && r.success && ({
            &&& r.value.field("path"@) == Some(JsonValue::String(path))
            &&& r.value.field("original_bytes"@) == Some(
                json::natural_value(text::utf8_len(original)),
            )
            &&& r.value.field("new_bytes"@) == Some(json::natural_value(text::utf8_len(content)))
            &&& r.value.field("original_lines"@) == Some(
                json::natural_value(text::lines(original).len()),
            )
            &&& r.value.field("new_lines"@) == Some(json::natural_value(text::lines(content).len()))
        }),
{
    reveal_strlit("path");
    reveal_strlit("original_bytes");
    reveal_strlit("new_bytes");
    reveal_strlit("original_lines");
    reveal_strlit("new_lines");
    assert("path"@.len() == 4);
    assert("original_bytes"@.len() == 14);
    assert("new_bytes"@.len() == 9);
    assert("original_lines"@.len() == 14);
    assert("new_lines"@.len() == 9);
    assert("original_bytes"@[9] != "original_lines"@[9]);
    assert("new_bytes"@[4] != "new_lines"@[4]);
    let fields = edit_fields(path, original, content);
    json::lemma_field(fields, 0);
    json::lemma_field(fields, 1);
    json::lemma_field(fields, 2);
    json::lemma_field(fields, 3);
    json::lemma_field(fields, 4);
}

/// A summary of an answer.
pub open spec fn edit_summary(success: bool, value: JsonValue) -> Seq<char> {
    if !success {
        "Error: "@ + json::json_text(value)
    } else {
        "Edited "@ + json::text_of(value, "path"@, "?"@) + " ("@ + text::decimal(
            json::natural_of(value, "original_bytes"@) as nat,
        ) + " -> "@ + text::decimal(json::natural_of(value, "new_bytes"@) as nat) + " bytes)"@
    }
}

/// A summary of an edit names the file and tells how large it was and is; one of a failure tells the
/// failure.
pub proof fn law_edit_summary_tells_both_sizes(
    value: JsonValue,
    path: Seq<char>,
    before: u64,
    after: u64,
)
    requires
        value.field("path"@) == Some(JsonValue::String(path)),
        value.field("original_bytes"@) == Some(json::natural_value(before as nat)),
        value.field("new_bytes"@) == Some(json::natural_value(after as nat)),
    ensures
        edit_summary(true, value) == "Edited "@ + path + " ("@ + text::decimal(before as nat)
            + " -> "@ + text::decimal(after as nat) + " bytes)"@,
        edit_summary(false, value) == "Error: "@ + json::json_text(value),
{
}

impl BuiltinTool for EditFileTool {
    open spec fn defined(&self) -> DefinitionSpec {
        edit_definition()
    }

    fn definition(&self) -> (r: ToolDefinition) {
        let r = ToolDefinition::new("edit_file").description(
            "Edit an existing file by either replacing a substring (`find` -> `replace`, first occurrence only) or substituting a line range (`offset`/`limit`) with new `content`. Performs an atomic write and fails if the file does not exist.",
        ).parameter(
            ToolParameter::string("path").description(
                "Path to the file to edit (relative to project root)",
            ).required(true),
        ).parameter(
            ToolParameter::string("find").description(
                "Substring to search for and replace with `replace`. Mutually exclusive with offset/limit.",
            ),
        ).parameter(
            ToolParameter::string("replace").description(
                "Replacement string for the `find` match.",
            ),
        ).parameter(
            ToolParameter::integer("offset").description(
                "Starting line number for a line-range replacement (1-indexed). Mutually exclusive with find/replace.",
            ),
        ).parameter(
            ToolParameter::integer("limit").description(
                "Number of lines to replace starting at `offset`. Defaults to 1. Use 0 to insert without removing any lines.",
            ),
        ).parameter(
            ToolParameter::string("content").description(
                "New content to substitute at the edited location. For find/replace mode this is unused (use `replace`).",
            ),
        );
        assert(r.spec().parameters =~= edit_definition().parameters);
        r
    }

    open spec fn cacheable(&self) -> bool {
        false
    }

    fn is_cacheable(&self) -> (r: bool) {
        false
    }

    open spec fn key_of(&self, call: ToolCall) -> Seq<char> {
        tool::call_key(call)
    }

    fn cache_key(&self, call: &ToolCall) -> (r: String) {
        tool::cache_key(call)
    }

    open spec fn objection(&self, call: ToolCall) -> Option<ErrorSpec> {
        protocol::parameter_objection(self.defined(), call)
    }

    fn validate_arguments(&self, call: &ToolCall) -> (r: AgentResult<()>) {
        let definition = self.definition();
        protocol::validate_arguments(&definition, call)
    }
}

impl EditFileTool {
    /// Finds what is to be done for a call, given what came of reading its file.
    pub fn execute(&self, call: &ToolCall, file: &FileAccess) -> (r: EditStep)
        requires
            call.arguments@.contains_key("path"@) ==> call.text_argument("path"@) is Some,
        ensures
            is_plan(r, edit_plan(*call, *file)),
    {
        let definition = self.definition();
        match protocol::validate_arguments(&definition, call) {
            Ok(_) => {},
            Err(e) => {
                return EditStep::Done(Err(e));
            },
        }
        proof {
            let ps = edit_definition().parameters;
            protocol::law_valid_call_gives_required(ps, call.arguments@.dom());
            assert(ps[0].required);
        }
        let path: &str = call.get_string("path").unwrap();
        match file {
            FileAccess::Outside => EditStep::Done(Err(files::outside_error(path))),
            FileAccess::NotAFile => {
                let mut m = "File does not exist: ".to_owned();
                m.append(path);
                EditStep::Done(Ok(ToolResult::error(m.as_str())))
            },
            FileAccess::Unreadable(reason) => {
                let m = files::unreadable_text(path, reason.as_str());
                EditStep::Done(Err(AgentError::tool_error("edit_file", m.as_str())))
            },
            FileAccess::Text(original) => match edit_text(call, path, original.as_str()) {
                Ok(content) => EditStep::Write(
                    Edit { path: path.to_owned(), original: original.clone(), content },
                ),
                Err(m) => EditStep::Done(Ok(ToolResult::error(m.as_str()))),
            },
        }
    }

    /// Answers a call once its new text was to be written; `failure` says why it was not.
    pub fn finish(&self, edit: &Edit, failure: Option<String>) -> (r: AgentResult<ToolResult>)
        ensures
            protocol::is_outcome(
                r,
                written_outcome(
                    edit.path@,
                    edit.original@,
                    edit.content@,
                    crate::paths::opt_view(failure),
                ),
            ),
    {
        match failure {
            Some(reason) => {
                let mut m = "Failed to write edited file '".to_owned();
                m.append(edit.path.as_str());
                m.append("': ");
                m.append(reason.as_str());
                Err(AgentError::tool_error("edit_file", m.as_str()))
            },
            None => {
                let original_bytes: usize = text::byte_len(edit.original.as_str());
                let new_bytes: usize = text::byte_len(edit.content.as_str());
                let original_lines: usize = text::line_count(edit.original.as_str());
                let new_lines: usize = text::line_count(edit.content.as_str());
                let fields = Fields::new().with("path", Json::text(edit.path.as_str())).with(
                    "original_bytes",
                    Json::natural(original_bytes as u64),
                ).with("new_bytes", Json::natural(new_bytes as u64)).with(
                    "original_lines",
                    Json::natural(original_lines as u64),
                ).with("new_lines", Json::natural(new_lines as u64));
                assert(fields.model() =~= edit_fields(edit.path@, edit.original@, edit.content@));
                Ok(ToolResult::success(fields.object()))
            },
        }
    }

    /// Sums an answer up.
    pub fn summarize_result(&self, result: &ToolResult) -> (r: String)
        ensures
            r@ == edit_summary(result.success, result.value.model()),
    {
        if !result.success {
            let mut r = "Error: ".to_owned();
            let m = json::compact(&result.value);
            r.append(m.as_str());
            return r;
        }
        let path = json::text_field(&result.value, "path", "?");
        let original: u64 = json::natural_field(&result.value, "original_bytes");
        let new: u64 = json::natural_field(&result.value, "new_bytes");
        let mut r = "Edited ".to_owned();
        r.append(path.as_str());
        r.append(" (");
        let n = text::decimal_text(original);
        r.append(n.as_str());
        r.append(" -> ");
        let n = text::decimal_text(new);
        r.append(n.as_str());
        r.append(" bytes)");
        r
    }
}

} // verus!
