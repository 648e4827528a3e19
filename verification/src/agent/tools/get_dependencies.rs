//! Finding what a source file depends on.

use vstd::prelude::*;
use vstd::string::*;

use crate::agent::json;
use crate::agent::json::{Fields, Json, JsonValue};
use crate::agent::protocol;
use crate::agent::protocol::{
    AgentError, AgentResult, DefinitionSpec, ErrorSpec, Outcome, ParameterType, ToolCall,
    ToolDefinition, ToolParameter, ToolResult,
};
use crate::agent::tool;
use crate::agent::tool::BuiltinTool;
use crate::agent::tools::files;
use crate::agent::tools::files::FileAccess;
use crate::agent::tools::patterns;
use crate::paths;
use crate::text;

verus! {

/// The language of a file, by the lower case of its extension.
pub open spec fn language_of(ext: Seq<char>) -> Seq<char> {
    if ext == "rs"@ {
        "rust"@
    } else if ext == "ts"@ || ext == "tsx"@ {
        "typescript"@
    } else if ext == "js"@ || ext == "jsx"@ || ext == "mjs"@ || ext == "cjs"@ {
        "javascript"@
    } else if ext == "py"@ {
        "python"@
    } else if ext == "go"@ {
        "go"@
    } else if ext == "java"@ {
        "java"@
    } else if ext == "kt"@ {
        "kotlin"@
    } else if ext == "c"@ || ext == "h"@ {
        "c"@
    } else if ext == "cpp"@ || ext == "cc"@ || ext == "cxx"@ || ext == "hpp"@ || ext == "hh"@ {
        "cpp"@
    } else {
        "other"@
    }
}

/// The language of a file.
pub open spec fn file_language(path: Seq<char>) -> Seq<char> {
    match paths::extension(path) {
        Some(ext) => language_of(text::lowercase(ext)),
        None => "other"@,
    }
}

fn language_name(e: &str) -> (r: &'static str)
    ensures
        r@ == language_of(e@),
{
    if text::same_text(e, "rs") {
        "rust"
    } else if text::same_text(e, "ts") || text::same_text(e, "tsx") {
        "typescript"
    } else if text::same_text(e, "js") || text::same_text(e, "jsx") || text::same_text(e, "mjs")
        || text::same_text(e, "cjs") {
        "javascript"
    } else if text::same_text(e, "py") {
        "python"
    } else if text::same_text(e, "go") {
        "go"
    } else if text::same_text(e, "java") {
        "java"
    } else if text::same_text(e, "kt") {
        "kotlin"
    } else if text::same_text(e, "c") || text::same_text(e, "h") {
        "c"
    } else if text::same_text(e, "cpp") || text::same_text(e, "cc") || text::same_text(e, "cxx")
        || text::same_text(e, "hpp") || text::same_text(e, "hh") {
        "cpp"
    } else {
        "other"
    }
}

/// Infers the language of a file from its extension.
pub fn detect_language(path: &str) -> (r: &'static str)
    ensures
        r@ == file_language(path@),
{
    match paths::extension_of(path) {
        Some(ext) => {
            let lower = text::to_lowercase(ext.as_str());
            language_name(lower.as_str())
        },
        None => "other",
    }
}

/// A pattern for a dependency: its first group is what the file depends on.
pub struct DependencyPattern {
    pub regex: &'static str,
    pub kind: &'static str,
}

/// A pattern for a dependency.
pub struct PatternSpec {
    pub regex: Seq<char>,
    pub kind: Seq<char>,
}

/// What patterns say.
pub open spec fn pattern_specs(v: Seq<DependencyPattern>) -> Seq<PatternSpec> {
    Seq::new(v.len(), |i: int| PatternSpec { regex: v[i].regex@, kind: v[i].kind@ })
}

/// The patterns for a language.
pub open spec fn language_patterns(language: Seq<char>) -> Seq<PatternSpec> {
    if language == "rust"@ {
        seq![
            PatternSpec { regex: "^\\s*use\\s+([a-zA-Z0-9_:]+)"@, kind: "use"@ },
            PatternSpec { regex: "^\\s*extern\\s+crate\\s+([a-zA-Z0-9_]+)"@, kind: "extern_crate"@ },
        ]
    } else if language == "typescript"@ || language == "javascript"@ {
        seq![
            PatternSpec { regex: "^\\s*import\\s+.*from\\s+['\"]([^'\"]+)['\"]"@, kind: "import"@ },
            PatternSpec { regex: "^\\s*import\\s+['\"]([^'\"]+)['\"]"@, kind: "import"@ },
            PatternSpec { regex: "require\\s*\\(\\s*['\"]([^'\"]+)['\"]\\s*\\)"@, kind: "require"@ },
            PatternSpec { regex: "import\\s*\\(\\s*['\"]([^'\"]+)['\"]\\s*\\)"@, kind: "dynamic_import"@ },
        ]
    } else if language == "python"@ {
        seq![
            PatternSpec { regex: "^\\s*import\\s+([a-zA-Z0-9_.]+)"@, kind: "import"@ },
            PatternSpec { regex: "^\\s*from\\s+([a-zA-Z0-9_.]+)\\s+import"@, kind: "from_import"@ },
        ]
    } else if language == "go"@ {
        seq![
            PatternSpec { regex: "\"([^\"]+)\""@, kind: "import"@ },
        ]
    } else if language == "java"@ || language == "kotlin"@ {
        seq![
            PatternSpec { regex: "^\\s*import\\s+([a-zA-Z0-9_.]+)"@, kind: "import"@ },
        ]
    } else if language == "c"@ || language == "cpp"@ {
        seq![
            PatternSpec { regex: "^\\s*#\\s*include\\s*[<\"]([^>\"]+)[>\"]"@, kind: "include"@ },
        ]
    } else {
        Seq::empty()
    }
}

/// The patterns for a language.
pub fn dependency_patterns_for(language: &str) -> (r: Vec<DependencyPattern>)
    ensures
        pattern_specs(r@) == language_patterns(language@),
{
    let r: Vec<DependencyPattern> = if text::same_text(language, "rust") {
        vec![
            DependencyPattern { regex: "^\\s*use\\s+([a-zA-Z0-9_:]+)", kind: "use" },
            DependencyPattern { regex: "^\\s*extern\\s+crate\\s+([a-zA-Z0-9_]+)", kind: "extern_crate" },
        ]
    } else if text::same_text(language, "typescript") || text::same_text(language, "javascript") {
        vec![
            DependencyPattern { regex: "^\\s*import\\s+.*from\\s+['\"]([^'\"]+)['\"]", kind: "import" },
            DependencyPattern { regex: "^\\s*import\\s+['\"]([^'\"]+)['\"]", kind: "import" },
            DependencyPattern { regex: "require\\s*\\(\\s*['\"]([^'\"]+)['\"]\\s*\\)", kind: "require" },
            DependencyPattern { regex: "import\\s*\\(\\s*['\"]([^'\"]+)['\"]\\s*\\)", kind: "dynamic_import" },
        ]
    } else if text::same_text(language, "python") {
        vec![
            DependencyPattern { regex: "^\\s*import\\s+([a-zA-Z0-9_.]+)", kind: "import" },
            DependencyPattern { regex: "^\\s*from\\s+([a-zA-Z0-9_.]+)\\s+import", kind: "from_import" },
        ]
    } else if text::same_text(language, "go") {
        vec![
            DependencyPattern { regex: "\"([^\"]+)\"", kind: "import" },
        ]
    } else if text::same_text(language, "java") || text::same_text(language, "kotlin") {
        vec![
            DependencyPattern { regex: "^\\s*import\\s+([a-zA-Z0-9_.]+)", kind: "import" },
        ]
    } else if text::same_text(language, "c") || text::same_text(language, "cpp") {
        vec![
            DependencyPattern { regex: "^\\s*#\\s*include\\s*[<\"]([^>\"]+)[>\"]", kind: "include" },
        ]
    } else {
        Vec::new()
    };
    assert(pattern_specs(r@) =~= language_patterns(language@));
    r
}

/// What a file depends on, and where it says so.
pub struct Dependency {
    pub module: String,
    pub kind: &'static str,
    /// The line, counted from 1.
    pub line: usize,
    /// The line's text without white space around it.
    pub statement: String,
}

/// What a file depends on.
pub struct DependencySpec {
    pub module: Seq<char>,
    pub kind: Seq<char>,
    pub line: nat,
    pub statement: Seq<char>,
}

/// What dependencies say.
pub open spec fn dependency_specs(v: Seq<Dependency>) -> Seq<DependencySpec> {
    Seq::new(
        v.len(),
        |i: int|
            DependencySpec {
                module: v[i].module@,
                kind: v[i].kind@,
                line: v[i].line as nat,
                statement: v[i].statement@,
            },
    )
}

/// What the first `m` patterns found in line `n`, counted from 1. `groups` says what the first
/// group of each pattern holds there; an empty group says nothing.
pub open spec fn line_dependencies(
    pats: Seq<PatternSpec>,
    groups: Seq<Option<Seq<char>>>,
    line: Seq<char>,
    n: nat,
    m: nat,
) -> Seq<DependencySpec>
    decreases m,
{
    if m == 0 {
        Seq::empty()
    } else {
        let before = line_dependencies(pats, groups, line, n, (m - 1) as nat);
        match groups[m - 1] {
            Some(module) => if module.len() > 0 {
                before.push(
                    DependencySpec {
                        module,
                        kind: pats[m - 1].kind,
                        line: n,
                        statement: text::trim(line),
                    },
                )
            } else {
                before
            },
            None => before,
        }
    }
}

/// What the patterns found in the first `n` lines.
pub open spec fn dependencies_in(
    pats: Seq<PatternSpec>,
    groups: Seq<Seq<Option<Seq<char>>>>,
    lines: Seq<Seq<char>>,
    n: nat,
) -> Seq<DependencySpec>
    decreases n,
{
    if n == 0 {
        Seq::empty()
    } else {
        dependencies_in(pats, groups, lines, (n - 1) as nat) + line_dependencies(
            pats,
            groups[n - 1],
            lines[n - 1],
            n,
            pats.len(),
        )
    }
}

/// The texts of groups.
pub open spec fn group_views(v: Seq<Option<String>>) -> Seq<Option<Seq<char>>> {
    Seq::new(v.len(), |i: int| paths::opt_view(v[i]))
}

/// The texts of the groups of every line.
pub open spec fn all_group_views(v: Seq<Vec<Option<String>>>) -> Seq<Seq<Option<Seq<char>>>> {
    Seq::new(v.len(), |i: int| group_views(v[i]@))
}

/// The groups that a line has: what the first group of each pattern holds.
pub open spec fn line_groups_of(pats: Seq<PatternSpec>, line: Seq<char>) -> Seq<Option<Seq<char>>> {
    Seq::new(pats.len(), |j: int| patterns::regex_group(pats[j].regex, line))
}

/// The groups that each line has.
pub open spec fn groups_of(pats: Seq<PatternSpec>, lines: Seq<Seq<char>>) -> Seq<
    Seq<Option<Seq<char>>>,
> {
    Seq::new(lines.len(), |i: int| line_groups_of(pats, lines[i]))
}

/// Every pattern is one that a regular expression is made of.
spec fn all_taken(pats: Seq<PatternSpec>) -> bool {
    forall|j: int| 0 <= j < pats.len() ==> patterns::plainly_taken((#[trigger] pats[j]).regex)
}

proof fn lemma_patterns_are_taken(language: Seq<char>)
    ensures
        all_taken(language_patterns(language)),
{
    let pats = language_patterns(language);
    assert forall|j: int| 0 <= j < pats.len() implies patterns::is_dependency_pattern(
        (#[trigger] pats[j]).regex,
    ) by {}
}

fn line_groups(pats: &Vec<DependencyPattern>, line: &str) -> (r: Vec<Option<String>>)
    requires
        all_taken(pattern_specs(pats@)),
    ensures
        group_views(r@) == line_groups_of(pattern_specs(pats@), line@),
{
    let ghost specs = pattern_specs(pats@);
    let ghost goal = line_groups_of(specs, line@);
    let mut r: Vec<Option<String>> = Vec::new();
    let mut j: usize = 0;
    assert(group_views(r@) =~= goal.take(0));
    while j < pats.len()
        invariant
            j <= pats@.len(),
            specs == pattern_specs(pats@),
            all_taken(specs),
            goal == line_groups_of(specs, line@),
            group_views(r@) == goal.take(j as int),
        decreases pats@.len() - j,
    {
        let ghost before = group_views(r@);
        assert(specs[j as int].regex == pats@[j as int].regex@);
        let group = match patterns::first_group(pats[j].regex, line) {
            Ok(g) => g,
            Err(_) => {
                assert(false);
                None
            },
        };
        r.push(group);
        assert(group_views(r@) =~= before.push(paths::opt_view(group)));
        j += 1;
        assert(group_views(r@) =~= goal.take(j as int));
    }
    assert(goal.take(goal.len() as int) =~= goal);
    r
}

/// Takes the groups of every line for every pattern.
fn take_groups(pats: &Vec<DependencyPattern>, lines: &Vec<String>) -> (r: Vec<Vec<Option<String>>>)
    requires
        all_taken(pattern_specs(pats@)),
    ensures
        all_group_views(r@) == groups_of(pattern_specs(pats@), text::views(lines@)),
{
    let ghost specs = pattern_specs(pats@);
    let ghost all = text::views(lines@);
    let ghost goal = groups_of(specs, all);
    let mut r: Vec<Vec<Option<String>>> = Vec::new();
    let mut i: usize = 0;
    assert(all_group_views(r@) =~= goal.take(0));
    while i < lines.len()
        invariant
            i <= lines@.len(),
            specs == pattern_specs(pats@),
            all_taken(specs),
            all == text::views(lines@),
            goal == groups_of(specs, all),
            all_group_views(r@) == goal.take(i as int),
        decreases lines@.len() - i,
    {
        let ghost before = all_group_views(r@);
        let groups = line_groups(pats, lines[i].as_str());
        assert(all[i as int] == lines@[i as int]@);
        r.push(groups);
        assert(all_group_views(r@) =~= before.push(group_views(groups@)));
        i += 1;
        assert(all_group_views(r@) =~= goal.take(i as int));
    }
    assert(goal.take(goal.len() as int) =~= goal);
    r
}

/// Lists what the groups of each line say.
pub fn list_dependencies(
    pats: &Vec<DependencyPattern>,
    groups: &Vec<Vec<Option<String>>>,
    lines: &Vec<String>,
) -> (r: Vec<Dependency>)
    requires
        groups@.len() == lines@.len(),
        forall|i: int| 0 <= i < groups@.len() ==> (#[trigger] groups@[i])@.len() == pats@.len(),
    ensures
        dependency_specs(r@) == dependencies_in(
            pattern_specs(pats@),
            all_group_views(groups@),
            text::views(lines@),
            lines@.len(),
        ),
{
    let ghost specs = pattern_specs(pats@);
    let ghost all = text::views(lines@);
    let ghost taken = all_group_views(groups@);
    let total: usize = lines.len();
    let mut r: Vec<Dependency> = Vec::new();
    let mut i: usize = 0;
    assert(dependency_specs(r@) =~= Seq::empty());
    while i < total
        invariant
            i <= total == lines@.len(),
            groups@.len() == lines@.len(),
            forall|k: int| 0 <= k < groups@.len() ==> (#[trigger] groups@[k])@.len() == pats@.len(),
            specs == pattern_specs(pats@),
            all == text::views(lines@),
            taken == all_group_views(groups@),
            dependency_specs(r@) == dependencies_in(specs, taken, all, i as nat),
        decreases lines@.len() - i,
    {
        let line = lines[i].as_str();
        assert(all[i as int] == line@);
        let row = &groups[i];
        assert(taken[i as int] == group_views(row@));
        let ghost before = dependency_specs(r@);
        let mut j: usize = 0;
        assert(before + Seq::<DependencySpec>::empty() =~= before);
        while j < pats.len()
            invariant
                i < total,
                j <= pats@.len(),
                row@.len() == pats@.len(),
                specs == pattern_specs(pats@),
                taken[i as int] == group_views(row@),
                dependency_specs(r@) == before + line_dependencies(
                    specs,
                    taken[i as int],
                    line@,
                    (i + 1) as nat,
                    j as nat,
                ),
            decreases pats@.len() - j,
        {
            assert(taken[i as int][j as int] == paths::opt_view(row@[j as int]));
            assert(specs[j as int].kind == pats@[j as int].kind@);
            let ghost had = dependency_specs(r@);
            match &row[j] {
                Some(module) => {
                    let chars = text::chars_of(module.as_str());
                    if chars.len() > 0 {
                        let d = Dependency {
                            module: module.clone(),
                            kind: pats[j].kind,
                            line: i + 1,
                            statement: text::trim_text(line),
                        };
                        r.push(d);
                        assert(dependency_specs(r@) =~= had.push(
                            DependencySpec {
                                module: d.module@,
                                kind: d.kind@,
                                line: d.line as nat,
                                statement: d.statement@,
                            },
                        ));
                    }
                },
                None => {},
            }
            j += 1;
            assert(dependency_specs(r@) =~= before + line_dependencies(
                specs,
                taken[i as int],
                line@,
                (i + 1) as nat,
                j as nat,
            ));
        }
        i += 1;
    }
    r
}

/// Finds what a source file depends on.
pub struct GetDependenciesTool;

/// What the definition of the tool says.
pub open spec fn dependencies_definition() -> DefinitionSpec {
    DefinitionSpec {
        name: "get_dependencies"@,
        description: "Analyze a source file and extract its dependencies (imports, requires, use statements). Supports Rust, TypeScript/JavaScript, Python, Go, and Java. Returns a list of dependency modules/packages with their import lines."@,
        parameters: seq![
            protocol::parameter(
                "path"@,
                ParameterType::Text,
                "Path to the source file to analyze (relative to project root)"@,
                true,
            ),
        ],
    }
}

/// The fields of a dependency as a JSON value.
pub open spec fn dependency_fields(d: DependencySpec) -> Seq<(Seq<char>, JsonValue)> {
    seq![
        ("module"@, JsonValue::String(d.module)),
        ("kind"@, JsonValue::String(d.kind)),
        ("line"@, json::natural_value(d.line)),
        ("statement"@, JsonValue::String(d.statement)),
    ]
}

/// Dependencies as JSON values.
pub open spec fn dependency_values(ds: Seq<DependencySpec>) -> Seq<JsonValue> {
    Seq::new(ds.len(), |i: int| JsonValue::Object(dependency_fields(ds[i])))
}

/// The fields of what is answered.
pub open spec fn dependencies_fields(
    path: Seq<char>,
    language: Seq<char>,
    ds: Seq<DependencySpec>,
) -> Seq<(Seq<char>, JsonValue)> {
    seq![
        ("path"@, JsonValue::String(path)),
        ("language"@, JsonValue::String(language)),
        ("dependency_count"@, json::natural_value(ds.len())),
        ("dependencies"@, JsonValue::Array(dependency_values(ds))),
    ]
}

/// What comes of a call, given the groups that the lines of its file have.
pub open spec fn dependencies_outcome(
    call: ToolCall,
    resolved: Seq<char>,
    file: FileAccess,
    groups: Seq<Seq<Option<Seq<char>>>>,
) -> Outcome {
    match protocol::first_missing(dependencies_definition().parameters, call.arguments@.dom()) {
        Some(name) => Outcome::Fails("get_dependencies"@, protocol::missing_parameter(name)),
        None => {
            let path = call.text_argument("path"@)->0;
            match file {
                FileAccess::Outside => Outcome::Fails("path_check"@, files::outside_message(path)),
                FileAccess::NotAFile => Outcome::Answers(
                    protocol::failed(files::not_a_file_message(path)),
                ),
                FileAccess::Unreadable(reason) => Outcome::Fails(
                    "get_dependencies"@,
                    "Failed to read file '"@ + path + "': "@ + reason@,
                ),
                FileAccess::Text(s) => {
                    let language = file_language(resolved);
                    let lines = text::lines(s@);
                    Outcome::Answers(
                        protocol::succeeded(
                            JsonValue::Object(
                                dependencies_fields(
                                    path,
                                    language,
                                    dependencies_in(
                                        language_patterns(language),
                                        groups,
                                        lines,
                                        lines.len(),
                                    ),
                                ),
                            ),
                        ),
                    )
                },
            }
        },
    }
}

proof fn lemma_line_dependencies(
    pats: Seq<PatternSpec>,
    groups: Seq<Option<Seq<char>>>,
    line: Seq<char>,
    n: nat,
    m: nat,
)
    ensures
        ({
            let ds = line_dependencies(pats, groups, line, n, m);
            &&& forall|j: int|
                #![trigger groups[j]]
                0 <= j < m ==> (groups[j] matches Some(module) ==> module.len() > 0 ==> ds.contains(
                    DependencySpec {
                        module,
                        kind: pats[j].kind,
                        line: n,
                        statement: text::trim(line),
                    },
                ))
            &&& forall|k: int|
                #![trigger ds[k]]
                0 <= k < ds.len() ==> ds[k].line == n && ds[k].statement == text::trim(line)
                    && ds[k].module.len() > 0 && exists|j: int|
                    0 <= j < m && #[trigger] groups[j] == Some(ds[k].module) && pats[j].kind
                        == ds[k].kind
        }),
    decreases m,
{
    if m > 0 {
        lemma_line_dependencies(pats, groups, line, n, (m - 1) as nat);
        let before = line_dependencies(pats, groups, line, n, (m - 1) as nat);
        let ds = line_dependencies(pats, groups, line, n, m);
        assert forall|j: int|
            #![trigger groups[j]]
            0 <= j < m implies (groups[j] matches Some(module) ==> module.len() > 0 ==> ds.contains(
            DependencySpec { module, kind: pats[j].kind, line: n, statement: text::trim(line) },
        )) by {
            if let Some(module) = groups[j] {
                if module.len() > 0 {
                    let d = DependencySpec {
                        module,
                        kind: pats[j].kind,
                        line: n,
                        statement: text::trim(line),
                    };
                    if j < m - 1 {
                        assert(before.contains(d));
                        let k = choose|k: int| 0 <= k < before.len() && before[k] == d;
                        assert(ds[k] == d);
                    } else {
                        assert(ds.last() == d);
                    }
                }
            }
        }
        assert forall|k: int|
            #![trigger ds[k]]
            0 <= k < ds.len() implies ds[k].line == n && ds[k].statement == text::trim(line)
            && ds[k].module.len() > 0 && exists|j: int|
            0 <= j < m && #[trigger] groups[j] == Some(ds[k].module) && pats[j].kind
                == ds[k].kind by {
            if k < before.len() {
                assert(ds[k] == before[k]);
                let j = choose|j: int|
                    0 <= j < m - 1 && #[trigger] groups[j] == Some(before[k].module)
                        && pats[j].kind == before[k].kind;
                assert(groups[j] == Some(ds[k].module));
            } else {
                assert(groups[m - 1] == Some(ds[k].module));
            }
        }
    }
}

/// Each language goes by its own extensions.
pub proof fn law_extensions_tell_the_language(ext: Seq<char>)
    ensures
        language_of(ext) == "rust"@ <==> (ext == "rs"@),
        language_of(ext) == "typescript"@ <==> (ext == "ts"@ || ext == "tsx"@),
        language_of(ext) == "javascript"@ <==> (ext == "js"@ || ext == "jsx"@ || ext == "mjs"@ || ext == "cjs"@),
        language_of(ext) == "python"@ <==> (ext == "py"@),
        language_of(ext) == "go"@ <==> (ext == "go"@),
        language_of(ext) == "java"@ <==> (ext == "java"@),
        language_of(ext) == "kotlin"@ <==> (ext == "kt"@),
        language_of(ext) == "c"@ <==> (ext == "c"@ || ext == "h"@),
        language_of(ext) == "cpp"@ <==> (ext == "cpp"@ || ext == "cc"@ || ext == "cxx"@ || ext == "hpp"@ || ext == "hh"@),
{
    reveal_strlit("c");
    reveal_strlit("cc");
    reveal_strlit("cjs");
    reveal_strlit("cpp");
    reveal_strlit("cxx");
    reveal_strlit("go");
    reveal_strlit("h");
    reveal_strlit("hh");
    reveal_strlit("hpp");
    reveal_strlit("java");
    reveal_strlit("javascript");
    reveal_strlit("js");
    reveal_strlit("jsx");
    reveal_strlit("kotlin");
    reveal_strlit("kt");
    reveal_strlit("mjs");
    reveal_strlit("other");
    reveal_strlit("py");
    reveal_strlit("python");
    reveal_strlit("rs");
    reveal_strlit("rust");
    reveal_strlit("ts");
    reveal_strlit("tsx");
    reveal_strlit("typescript");
    assert("c"@.len() == 1);
    assert("cc"@.len() == 2);
    assert("cjs"@.len() == 3);
    assert("cpp"@.len() == 3);
    assert("cxx"@.len() == 3);
    assert("go"@.len() == 2);
    assert("h"@.len() == 1);
    assert("hh"@.len() == 2);
    assert("hpp"@.len() == 3);
    assert("java"@.len() == 4);
    assert("javascript"@.len() == 10);
    assert("js"@.len() == 2);
    assert("jsx"@.len() == 3);
    assert("kotlin"@.len() == 6);
    assert("kt"@.len() == 2);
    assert("mjs"@.len() == 3);
    assert("other"@.len() == 5);
    assert("py"@.len() == 2);
    assert("python"@.len() == 6);
    assert("rs"@.len() == 2);
    assert("rust"@.len() == 4);
    assert("ts"@.len() == 2);
    assert("tsx"@.len() == 3);
    assert("typescript"@.len() == 10);
    assert("c"@[0] == 'c');
    assert("cc"@[0] == 'c' && "cc"@[1] == 'c');
    assert("cjs"@[0] == 'c' && "cjs"@[1] == 'j' && "cjs"@[2] == 's');
    assert("cpp"@[0] == 'c' && "cpp"@[1] == 'p' && "cpp"@[2] == 'p');
    assert("cxx"@[0] == 'c' && "cxx"@[1] == 'x' && "cxx"@[2] == 'x');
    assert("go"@[0] == 'g' && "go"@[1] == 'o');
    assert("h"@[0] == 'h');
    assert("hh"@[0] == 'h' && "hh"@[1] == 'h');
    assert("hpp"@[0] == 'h' && "hpp"@[1] == 'p' && "hpp"@[2] == 'p');
    assert("java"@[0] == 'j' && "java"@[1] == 'a' && "java"@[2] == 'v');
    assert("javascript"@[0] == 'j' && "javascript"@[1] == 'a' && "javascript"@[2] == 'v');
    assert("js"@[0] == 'j' && "js"@[1] == 's');
    assert("jsx"@[0] == 'j' && "jsx"@[1] == 's' && "jsx"@[2] == 'x');
    assert("kotlin"@[0] == 'k' && "kotlin"@[1] == 'o' && "kotlin"@[2] == 't');
    assert("kt"@[0] == 'k' && "kt"@[1] == 't');
    assert("mjs"@[0] == 'm' && "mjs"@[1] == 'j' && "mjs"@[2] == 's');
    assert("other"@[0] == 'o' && "other"@[1] == 't' && "other"@[2] == 'h');
    assert("py"@[0] == 'p' && "py"@[1] == 'y');
    assert("python"@[0] == 'p' && "python"@[1] == 'y' && "python"@[2] == 't');
    assert("rs"@[0] == 'r' && "rs"@[1] == 's');
    assert("rust"@[0] == 'r' && "rust"@[1] == 'u' && "rust"@[2] == 's');
    assert("ts"@[0] == 't' && "ts"@[1] == 's');
    assert("tsx"@[0] == 't' && "tsx"@[1] == 's' && "tsx"@[2] == 'x');
    assert("typescript"@[0] == 't' && "typescript"@[1] == 'y' && "typescript"@[2] == 'p');
}

/// Dependencies are looked for in every language that is known: those of TypeScript as those of
/// JavaScript, those of Kotlin as those of Java, and those of C++ as those of C.
pub proof fn law_known_languages_have_patterns(language: Seq<char>)
    ensures
        language_patterns(language).len() > 0 <==> ({
            ||| language == "rust"@
            ||| language == "typescript"@
            ||| language == "javascript"@
            ||| language == "python"@
            ||| language == "go"@
            ||| language == "java"@
            ||| language == "kotlin"@
            ||| language == "c"@
            ||| language == "cpp"@
        }),
        language_patterns("typescript"@) == language_patterns("javascript"@),
        language_patterns("java"@) == language_patterns("kotlin"@),
        language_patterns("c"@) == language_patterns("cpp"@),
{
    reveal_strlit("rust");
    assert("rust"@.len() == 4);
    assert("rust"@[0] == 'r');
    reveal_strlit("typescript");
    assert("typescript"@.len() == 10);
    assert("typescript"@[0] == 't');
    reveal_strlit("javascript");
    assert("javascript"@.len() == 10);
    assert("javascript"@[0] == 'j');
    reveal_strlit("python");
    assert("python"@.len() == 6);
    assert("python"@[0] == 'p');
    reveal_strlit("go");
    assert("go"@.len() == 2);
    assert("go"@[0] == 'g');
    reveal_strlit("java");
    assert("java"@.len() == 4);
    assert("java"@[0] == 'j');
    reveal_strlit("kotlin");
    assert("kotlin"@.len() == 6);
    assert("kotlin"@[0] == 'k');
    reveal_strlit("c");
    assert("c"@.len() == 1);
    assert("c"@[0] == 'c');
    reveal_strlit("cpp");
    assert("cpp"@.len() == 3);
    assert("cpp"@[0] == 'c');
}

/// Every text that a pattern finds in a line is listed as a dependency: with the kind of the
/// pattern, the number of the line counted from 1, and the line without the white space around it.
pub proof fn law_every_import_is_listed(
    pats: Seq<PatternSpec>,
    groups: Seq<Seq<Option<Seq<char>>>>,
    lines: Seq<Seq<char>>,
    n: nat,
    i: int,
    j: int,
    module: Seq<char>,
)
    requires
        n <= lines.len(),
        n <= groups.len(),
        0 <= i < n,
        0 <= j < pats.len(),
        groups[i][j] == Some(module),
        module.len() > 0,
    ensures
        dependencies_in(pats, groups, lines, n).contains(
            DependencySpec {
                module,
                kind: pats[j].kind,
                line: (i + 1) as nat,
                statement: text::trim(lines[i]),
            },
        ),
    decreases n,
{
    let d = DependencySpec {
        module,
        kind: pats[j].kind,
        line: (i + 1) as nat,
        statement: text::trim(lines[i]),
    };
    let front = dependencies_in(pats, groups, lines, (n - 1) as nat);
    let last = line_dependencies(pats, groups[n - 1], lines[n - 1], n, pats.len());
    let all = dependencies_in(pats, groups, lines, n);
    if i < n - 1 {
        law_every_import_is_listed(pats, groups, lines, (n - 1) as nat, i, j, module);
        let k = choose|k: int| 0 <= k < front.len() && front[k] == d;
        assert(all[k] == d);
    } else {
        lemma_line_dependencies(pats, groups[n - 1], lines[n - 1], n, pats.len());
        assert(groups[n - 1][j] == Some(module));
        assert(last.contains(d));
        let k = choose|k: int| 0 <= k < last.len() && last[k] == d;
        assert(all[front.len() + k] == d);
    }
}

/// Every dependency that is listed was found by a pattern, in the line that it names.
pub proof fn law_only_imports_are_listed(
    pats: Seq<PatternSpec>,
    groups: Seq<Seq<Option<Seq<char>>>>,
    lines: Seq<Seq<char>>,
    n: nat,
    k: int,
)
    requires
        n <= lines.len(),
        n <= groups.len(),
        0 <= k < dependencies_in(pats, groups, lines, n).len(),
    ensures
        ({
            let d = dependencies_in(pats, groups, lines, n)[k];
            &&& 1 <= d.line <= n
            &&& d.statement == text::trim(lines[d.line - 1])
            &&& d.module.len() > 0
            &&& exists|j: int|
                0 <= j < pats.len() && #[trigger] groups[d.line - 1][j] == Some(d.module)
                    && pats[j].kind == d.kind
        }),
    decreases n,
{
    if n > 0 {
        let front = dependencies_in(pats, groups, lines, (n - 1) as nat);
        let last = line_dependencies(pats, groups[n - 1], lines[n - 1], n, pats.len());
        let d = dependencies_in(pats, groups, lines, n)[k];
        if k < front.len() {
            law_only_imports_are_listed(pats, groups, lines, (n - 1) as nat, k);
        } else {
            lemma_line_dependencies(pats, groups[n - 1], lines[n - 1], n, pats.len());
            assert(last[k - front.len()] == d);
            let j = choose|j: int|
                0 <= j < pats.len() && #[trigger] groups[n - 1][j] == Some(d.module)
                    && pats[j].kind == d.kind;
            assert(groups[d.line - 1][j] == Some(d.module));
        }
    }
}

/// The answer for a file names it and its language, counts the dependencies and lists them, each
/// with its module, its kind, its line and its statement.
pub proof fn law_dependencies_answer_lists_them(
    call: ToolCall,
    path: Seq<char>,
    resolved: Seq<char>,
    s: String,
    groups: Seq<Seq<Option<Seq<char>>>>,
)
    requires
        call.text_argument("path"@) == Some(path),
    ensures
        dependencies_outcome(
            call,
            resolved,
            FileAccess::Text(s),
            groups,
        ) matches Outcome::Answers(r) && r.success && ({
            let language = file_language(resolved);
            let ds = dependencies_in(
                language_patterns(language),
                groups,
                text::lines(s@),
                text::lines(s@).len(),
            );
            &&& r.value.field("path"@) == Some(JsonValue::String(path))
            &&& r.value.field("language"@) == Some(JsonValue::String(language))
            &&& r.value.field("dependency_count"@) == Some(json::natural_value(ds.len()))
            &&& r.value.field("dependencies"@) matches Some(JsonValue::Array(items)) && items.len()
                == ds.len() && forall|k: int|
                #![trigger items[k]]
                0 <= k < items.len() ==> items[k].field("module"@) == Some(
                    JsonValue::String(ds[k].module),
                ) && items[k].field("kind"@) == Some(JsonValue::String(ds[k].kind))
                    && items[k].field("line"@) == Some(json::natural_value(ds[k].line))
                    && items[k].field("statement"@) == Some(JsonValue::String(ds[k].statement))
        }),
{
    let ps = dependencies_definition().parameters;
    let given = call.arguments@.dom();
    assert(given.contains("path"@));
    protocol::law_valid_call_gives_required(ps, given);
    let language = file_language(resolved);
    let ds = dependencies_in(
        language_patterns(language),
        groups,
        text::lines(s@),
        text::lines(s@).len(),
    );
    reveal_strlit("path");
    reveal_strlit("language");
    reveal_strlit("dependency_count");
    reveal_strlit("dependencies");
    assert("path"@.len() == 4);
    assert("language"@.len() == 8);
    assert("dependency_count"@.len() == 16);
    assert("dependencies"@.len() == 12);
    let fields = dependencies_fields(path, language, ds);
    json::lemma_field(fields, 0);
    json::lemma_field(fields, 1);
    json::lemma_field(fields, 2);
    json::lemma_field(fields, 3);
    let items = dependency_values(ds);
    assert forall|k: int|
        #![trigger items[k]]
        0 <= k < items.len() implies items[k].field("module"@) == Some(
        JsonValue::String(ds[k].module),
    ) && items[k].field("kind"@) == Some(JsonValue::String(ds[k].kind)) && items[k].field("line"@)
        == Some(json::natural_value(ds[k].line)) && items[k].field("statement"@) == Some(
        JsonValue::String(ds[k].statement),
    ) by {
        lemma_dependency_fields(ds[k]);
    }
}

proof fn lemma_dependency_fields(d: DependencySpec)
    ensures
        ({
            let v = JsonValue::Object(dependency_fields(d));
            &&& v.field("module"@) == Some(JsonValue::String(d.module))
            &&& v.field("kind"@) == Some(JsonValue::String(d.kind))
            &&& v.field("line"@) == Some(json::natural_value(d.line))
            &&& v.field("statement"@) == Some(JsonValue::String(d.statement))
        }),
{
    reveal_strlit("module");
    reveal_strlit("kind");
    reveal_strlit("line");
    reveal_strlit("statement");
    assert("module"@.len() == 6);
    assert("kind"@.len() == 4);
    assert("line"@.len() == 4);
    assert("statement"@.len() == 9);
    assert("kind"@[0] != "line"@[0]);
    let fields = dependency_fields(d);
    json::lemma_field(fields, 0);
    json::lemma_field(fields, 1);
    json::lemma_field(fields, 2);
    json::lemma_field(fields, 3);
}

/// The groups that the lines of a file have.
pub open spec fn file_groups(resolved: Seq<char>, file: FileAccess) -> Seq<
    Seq<Option<Seq<char>>>,
> {
    match file {
        FileAccess::Text(s) => groups_of(
            language_patterns(file_language(resolved)),
            text::lines(s@),
        ),
        _ => Seq::empty(),
    }
}

/// A summary of an answer.
pub open spec fn dependencies_summary(success: bool, value: JsonValue) -> Seq<char> {
    let count = json::natural_of(value, "dependency_count"@);
    if !success {
        "Error: "@ + json::json_text(value)
    } else if count == 0 {
        "No dependencies found"@
    } else {
        "Found "@ + text::decimal(count as nat) + " dependencies ("@ + json::text_of(
            value,
            "language"@,
            "unknown"@,
        ) + ")"@
    }
}

/// A summary tells how many dependencies there are and in which language; one of a failure tells the
/// failure.
pub proof fn law_dependencies_summary_counts_them(value: JsonValue, language: Seq<char>, n: u64)
    requires
        value.field("language"@) == Some(JsonValue::String(language)),
        value.field("dependency_count"@) == Some(json::natural_value(n as nat)),
    ensures
        n > 0 ==> dependencies_summary(true, value) == "Found "@ + text::decimal(n as nat)
            + " dependencies ("@ + language + ")"@,
        n == 0 ==> dependencies_summary(true, value) == "No dependencies found"@,
        dependencies_summary(false, value) == "Error: "@ + json::json_text(value),
{
}

impl BuiltinTool for GetDependenciesTool {
    open spec fn defined(&self) -> DefinitionSpec {
        dependencies_definition()
    }

    fn definition(&self) -> (r: ToolDefinition) {
        let r = ToolDefinition::new("get_dependencies").description(
            "Analyze a source file and extract its dependencies (imports, requires, use statements). Supports Rust, TypeScript/JavaScript, Python, Go, and Java. Returns a list of dependency modules/packages with their import lines.",
        ).parameter(
            ToolParameter::string("path").description(
                "Path to the source file to analyze (relative to project root)",
            ).required(true),
        );
        assert(r.spec().parameters =~= dependencies_definition().parameters);
        r
    }

    open spec fn cacheable(&self) -> bool {
        true
    }

    fn is_cacheable(&self) -> (r: bool) {
        true
    }

    open spec fn key_of(&self, call: ToolCall) -> Seq<char> {
        tool::call_key(call)
    }

    fn cache_key(&self, call: &ToolCall) -> (r: String) {
        tool::cache_key(call)
    }

    open spec fn objection(&self, call: ToolCall) -> Option<ErrorSpec> {
        protocol::parameter_objection(self.defined(), call)
    }

    fn validate_arguments(&self, call: &ToolCall) -> (r: AgentResult<()>) {
        let definition = self.definition();
        protocol::validate_arguments(&definition, call)
    }
}

impl GetDependenciesTool {
    /// Answers a call, given the path that it means and what came of reading the file there.
    pub fn execute(&self, call: &ToolCall, resolved: &str, file: &FileAccess) -> (r: AgentResult<
        ToolResult,
    >)
        requires
            call.arguments@.contains_key("path"@) ==> call.text_argument("path"@) is Some,
        ensures
            protocol::is_outcome(
                r,
                dependencies_outcome(*call, resolved@, *file, file_groups(resolved@, *file)),
            ),
    {
        let definition = self.definition();
        match protocol::validate_arguments(&definition, call) {
            Ok(_) => {},
            Err(e) => {
                return Err(e);
            },
        }
        proof {
            let ps = dependencies_definition().parameters;
            protocol::law_valid_call_gives_required(ps, call.arguments@.dom());
            assert(ps[0].required);
        }
        let path: &str = call.get_string("path").unwrap();
        match file {
            FileAccess::Outside => {
                Err(files::outside_error(path))
            },
            FileAccess::NotAFile => {
                let m = files::not_a_file_text(path);
                Ok(ToolResult::error(m.as_str()))
            },
            FileAccess::Unreadable(reason) => {
                let mut m = "Failed to read file '".to_owned();
                m.append(path);
                m.append("': ");
                m.append(reason.as_str());
                Err(AgentError::tool_error("get_dependencies", m.as_str()))
            },
            FileAccess::Text(s) => {
                let language = detect_language(resolved);
                let pats = dependency_patterns_for(language);
                let lines = text::lines_of(s.as_str());
                proof {
                    lemma_patterns_are_taken(language@);
                }
                let taken = take_groups(&pats, &lines);
                let ghost groups = all_group_views(taken@);
                proof {
                    assert(groups.len() == taken@.len());
                    assert(groups.len() == text::views(lines@).len());
                    assert forall|i: int| 0 <= i < taken@.len() implies (#[trigger] taken@[i])@.len()
                        == pats@.len() by {
                        assert(groups[i] == group_views(taken@[i]@));
                        assert(groups[i] == line_groups_of(
                            pattern_specs(pats@),
                            text::views(lines@)[i],
                        ));
                    }
                }
                let list = list_dependencies(&pats, &taken, &lines);
                let ghost ds = dependency_specs(list@);
                let fields = Fields::new().with("path", Json::text(path)).with(
                    "language",
                    Json::text(language),
                ).with("dependency_count", Json::natural(list.len() as u64)).with(
                    "dependencies",
                    dependencies_json(&list),
                );
                assert(fields.model() =~= dependencies_fields(path@, language@, ds));
                assert(text::views(lines@).len() == lines@.len());
                Ok(ToolResult::success(fields.object()))
            },
        }
    }

    /// Sums an answer up.
    pub fn summarize_result(&self, result: &ToolResult) -> (r: String)
        ensures
            r@ == dependencies_summary(result.success, result.value.model()),
    {
        if !result.success {
            let mut r = "Error: ".to_owned();
            let m = json::compact(&result.value);
            r.append(m.as_str());
            return r;
        }
        let count: u64 = json::natural_field(&result.value, "dependency_count");
        if count == 0 {
            return "No dependencies found".to_owned();
        }
        let language = json::text_field(&result.value, "language", "unknown");
        let mut r = "Found ".to_owned();
        let n = text::decimal_text(count);
        r.append(n.as_str());
        r.append(" dependencies (");
        r.append(language.as_str());
        r.append(")");
        r
    }
}

fn dependencies_json(list: &Vec<Dependency>) -> (r: Json)
    ensures
        r.model() == JsonValue::Array(dependency_values(dependency_specs(list@))),
{
    let ghost values = dependency_values(dependency_specs(list@));
    let mut v: Vec<Json> = Vec::new();
    let mut i: usize = 0;
    assert(json::models(v@) =~= values.take(0));
    while i < list.len()
        invariant
            i <= list@.len(),
            values == dependency_values(dependency_specs(list@)),
            json::models(v@) == values.take(i as int),
        decreases list@.len() - i,
    {
        let ghost before = json::models(v@);
        let d = &list[i];
        let fields = Fields::new().with("module", Json::text(d.module.as_str())).with(
            "kind",
            Json::text(d.kind),
        ).with("line", Json::natural(d.line as u64)).with(
            "statement",
            Json::text(d.statement.as_str()),
        );
        assert(fields.model() =~= dependency_fields(dependency_specs(list@)[i as int]));
        let j = fields.object();
        v.push(j);
        i += 1;
        assert(json::models(v@) =~= before.push(j.model()));
        assert(json::models(v@) =~= values.take(i as int));
    }
    assert(values.take(values.len() as int) =~= values);
    Json::array(v)
}

} // verus!
