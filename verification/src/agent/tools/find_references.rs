//! Finding the places where a symbol is used.

use vstd::prelude::*;
use vstd::string::*;

use crate::agent::json;
use crate::agent::json::{Fields, Json, JsonValue};
use crate::agent::protocol;
use crate::agent::protocol::{
    AgentError, AgentResult, DefinitionSpec, ErrorSpec, Outcome, ParameterType, ToolCall,
    ToolDefinition, ToolParameter, ToolResult,
};
use crate::agent::tool;
use crate::agent::tool::BuiltinTool;
use crate::agent::tools::files;
use crate::agent::tools::patterns;
use crate::paths;
use crate::text;

verus! {

/// A name fits a pattern that may start or end with `*`.
pub open spec fn glob_fits(name: Seq<char>, pattern: Seq<char>) -> bool {
    if pattern.len() > 0 && pattern[0] == '*' {
        pattern.skip(1).is_suffix_of(name)
    } else if pattern.len() > 0 && pattern.last() == '*' {
        pattern.drop_last().is_prefix_of(name)
    } else {
        name == pattern
    }
}

/// Tells whether a name fits a pattern that may start or end with `*`.
pub fn simple_glob_match(name: &str, pattern: &str) -> (r: bool)
    ensures
        r == glob_fits(name@, pattern@),
{
    let chars = text::chars_of(pattern);
    let n: usize = chars.len();
    if n > 0 && chars[0] == '*' {
        let suffix = text::text_between(&chars, 1, n);
        assert(suffix@ =~= pattern@.skip(1));
        return text::ends_with(name, suffix.as_str());
    }
    if n > 0 && chars[n - 1] == '*' {
        let prefix = text::text_between(&chars, 0, n - 1);
        assert(prefix@ =~= pattern@.drop_last());
        return text::starts_with(name, prefix.as_str());
    }
    text::same_text(name, pattern)
}

/// A place where a symbol is used.
#[derive(Debug)]
pub struct Reference {
    pub file: String,
    /// The line, counted from 1.
    pub line: usize,
    /// The line's text without white space around it.
    pub text: String,
}

/// A place where a symbol is used.
pub struct Place {
    pub file: Seq<char>,
    pub line: nat,
    pub text: Seq<char>,
}

impl Reference {
    /// The place.
    pub open spec fn place(&self) -> Place {
        Place { file: self.file@, line: self.line as nat, text: self.text@ }
    }
}

/// The places of references.
pub open spec fn places(v: Seq<Reference>) -> Seq<Place> {
    Seq::new(v.len(), |i: int| v[i].place())
}

/// The texts of lines; a line that could not be read has none.
pub open spec fn line_views(v: Seq<Option<String>>) -> Seq<Option<Seq<char>>> {
    Seq::new(v.len(), |i: int| paths::opt_view(v[i]))
}

/// Place `i` of the hits says that there is one.
pub open spec fn is_hit(hits: Seq<bool>, i: int) -> bool {
    0 <= i < hits.len() && hits[i]
}

/// The places found once the first `n` lines of a file are searched too, as long as there are
/// fewer than `max`. `hits` says which lines match.
pub open spec fn found_in_lines(
    found: Seq<Place>,
    hits: Seq<bool>,
    file: Seq<char>,
    lines: Seq<Option<Seq<char>>>,
    n: nat,
    max: nat,
) -> Seq<Place>
    decreases n,
{
    if n == 0 {
        found
    } else {
        let before = found_in_lines(found, hits, file, lines, (n - 1) as nat, max);
        match lines[n - 1] {
            Some(line) => if before.len() < max && is_hit(hits, n - 1) {
                before.push(Place { file, line: n, text: text::trim(line) })
            } else {
                before
            },
            None => before,
        }
    }
}

/// A file that may be searched.
pub struct ScannedFile {
    pub path: String,
    pub file_name: String,
    /// The lines; one that could not be read is `None`.
    pub lines: Vec<Option<String>>,
}

/// What a file holds.
pub struct FileModel {
    pub path: Seq<char>,
    pub file_name: Seq<char>,
    pub lines: Seq<Option<Seq<char>>>,
}

impl ScannedFile {
    /// What the file holds.
    pub open spec fn model(&self) -> FileModel {
        FileModel {
            path: self.path@,
            file_name: self.file_name@,
            lines: line_views(self.lines@),
        }
    }
}

/// What files hold.
pub open spec fn file_models(v: Seq<ScannedFile>) -> Seq<FileModel> {
    Seq::new(v.len(), |i: int| v[i].model())
}

/// What a search is for.
pub struct Query {
    pub symbol: Seq<char>,
    pub search_path: Seq<char>,
    pub file_pattern: Option<Seq<char>>,
    pub max: nat,
    pub project: Seq<char>,
}

/// The regular expression for a symbol as a whole word.
pub open spec fn symbol_pattern(symbol: Seq<char>) -> Seq<char> {
    patterns::word_pattern(symbol)
}

/// A line uses a symbol. In ASCII text a word of ASCII characters is used where it stands as a whole;
/// otherwise it is used where the regular expression for it matches.
pub open spec fn uses_symbol(symbol: Seq<char>, line: Seq<char>) -> bool {
    if patterns::is_word(symbol) && vstd::utf8::is_ascii_chars(line) {
        patterns::holds_word(line, symbol)
    } else {
        patterns::regex_matches(symbol_pattern(symbol), line)
    }
}

/// Which lines use a symbol.
pub open spec fn line_hits(symbol: Seq<char>, lines: Seq<Option<Seq<char>>>) -> Seq<bool> {
    Seq::new(
        lines.len(),
        |i: int|
            match lines[i] {
                Some(line) => uses_symbol(symbol, line),
                None => false,
            },
    )
}

/// A file is searched: it fits the file pattern by its name or by its path, if there is one.
pub open spec fn wanted(query: Query, path: Seq<char>, file_name: Seq<char>) -> bool {
    match query.file_pattern {
        Some(p) => glob_fits(file_name, p) || glob_fits(
            files::shown_path(path, query.project),
            p,
        ),
        None => true,
    }
}

/// The hits in file `i`.
pub open spec fn hits_in(hits: Seq<Seq<bool>>, i: int) -> Seq<bool> {
    if 0 <= i < hits.len() {
        hits[i]
    } else {
        Seq::empty()
    }
}

/// The places found once a file is searched too.
pub open spec fn found_in_file(
    found: Seq<Place>,
    query: Query,
    file: FileModel,
    hits: Seq<bool>,
) -> Seq<Place> {
    found_in_lines(
        found,
        hits,
        files::shown_path(file.path, query.project),
        file.lines,
        file.lines.len(),
        query.max,
    )
}

/// The places found in the first `n` files of a directory. `hits` says which lines of each match.
pub open spec fn found_in_files(
    query: Query,
    all: Seq<FileModel>,
    hits: Seq<Seq<bool>>,
    n: nat,
) -> Seq<Place>
    decreases n,
{
    if n == 0 {
        Seq::empty()
    } else {
        let before = found_in_files(query, all, hits, (n - 1) as nat);
        if before.len() < query.max && wanted(query, all[n - 1].path, all[n - 1].file_name) {
            found_in_file(before, query, all[n - 1], hits_in(hits, n - 1))
        } else {
            before
        }
    }
}

/// A place is a line of a file that matches.
pub open spec fn is_match_in(
    place: Place,
    hits: Seq<bool>,
    file: FileModel,
    project: Seq<char>,
) -> bool {
    &&& place.file == files::shown_path(file.path, project)
    &&& 1 <= place.line <= file.lines.len()
    &&& is_hit(hits, place.line - 1)
    &&& match file.lines[place.line - 1] {
        Some(line) => place.text == text::trim(line),
        None => false,
    }
}

/// A place is a match in file `f` of those that are searched.
pub open spec fn comes_from(
    query: Query,
    all: Seq<FileModel>,
    hits: Seq<Seq<bool>>,
    place: Place,
    f: int,
) -> bool {
    &&& 0 <= f < all.len()
    &&& wanted(query, all[f].path, all[f].file_name)
    &&& is_match_in(place, hits_in(hits, f), all[f], query.project)
}

proof fn lemma_found_in_lines(
    found: Seq<Place>,
    query: Query,
    file: FileModel,
    hits: Seq<bool>,
    n: nat,
)
    requires
        n <= file.lines.len(),
    ensures
        ({
            let all = found_in_lines(
                found,
                hits,
                files::shown_path(file.path, query.project),
                file.lines,
                n,
                query.max,
            );
            &&& found.len() <= all.len()
            &&& found.len() <= query.max ==> all.len() <= query.max
            &&& all.take(found.len() as int) == found
            &&& forall|k: int|
                found.len() <= k < all.len() ==> is_match_in(
                    #[trigger] all[k],
                    hits,
                    file,
                    query.project,
                ) && all[k].line <= n
            &&& forall|j: int, k: int|
                found.len() <= j < k < all.len() ==> (#[trigger] all[j]).line < (
                #[trigger] all[k]).line
            &&& all.len() < query.max ==> forall|i: int|
                #![trigger file.lines[i]]
                0 <= i < n && is_hit(hits, i) && file.lines[i] is Some ==> exists|k: int|
                    found.len() <= k < all.len() && (#[trigger] all[k]).line == i + 1
        }),
    decreases n,
{
    if n > 0 {
        lemma_found_in_lines(found, query, file, hits, (n - 1) as nat);
        let shown = files::shown_path(file.path, query.project);
        let before = found_in_lines(found, hits, shown, file.lines, (n - 1) as nat, query.max);
        let all = found_in_lines(found, hits, shown, file.lines, n, query.max);
        assert(all.take(found.len() as int) =~= before.take(found.len() as int));
        if all.len() < query.max {
            assert forall|i: int|
                #![trigger file.lines[i]]
                0 <= i < n && is_hit(hits, i) && file.lines[i] is Some implies exists|k: int|
                found.len() <= k < all.len() && (#[trigger] all[k]).line == i + 1 by {
                if i < n - 1 {
                    let k = choose|k: int|
                        found.len() <= k < before.len() && (#[trigger] before[k]).line == i + 1;
                    assert(all[k] == before[k]);
                } else {
                    assert(all[before.len() as int].line == n);
                }
            }
        }
    } else {
        assert(found.take(found.len() as int) =~= found);
    }
}

/// A search never finds more places than it may.
pub proof fn law_search_stops_at_its_limit(
    query: Query,
    all: Seq<FileModel>,
    hits: Seq<Seq<bool>>,
    n: nat,
)
    requires
        n <= all.len(),
    ensures
        found_in_files(query, all, hits, n).len() <= query.max,
    decreases n,
{
    if n > 0 {
        law_search_stops_at_its_limit(query, all, hits, (n - 1) as nat);
        let before = found_in_files(query, all, hits, (n - 1) as nat);
        let file = all[n - 1];
        lemma_found_in_lines(before, query, file, hits_in(hits, n - 1), file.lines.len());
    }
}

/// Every place that a search finds is a line that matches, in a file that fits the file pattern.
pub proof fn law_found_places_match(
    query: Query,
    all: Seq<FileModel>,
    hits: Seq<Seq<bool>>,
    n: nat,
    k: int,
)
    requires
        n <= all.len(),
        0 <= k < found_in_files(query, all, hits, n).len(),
    ensures
        exists|f: int|
            f < n && #[trigger] comes_from(
                query,
                all,
                hits,
                found_in_files(query, all, hits, n)[k],
                f,
            ),
    decreases n,
{
    if n > 0 {
        let before = found_in_files(query, all, hits, (n - 1) as nat);
        let after = found_in_files(query, all, hits, n);
        let file = all[n - 1];
        if before.len() < query.max && wanted(query, file.path, file.file_name) {
            lemma_found_in_lines(before, query, file, hits_in(hits, n - 1), file.lines.len());
            if k < before.len() {
                assert(after.take(before.len() as int)[k] == before[k]);
                law_found_places_match(query, all, hits, (n - 1) as nat, k);
            } else {
                assert(comes_from(query, all, hits, after[k], n - 1));
            }
        } else {
            law_found_places_match(query, all, hits, (n - 1) as nat, k);
        }
    }
}

/// A search that does not reach its limit finds every line that matches, in every file that fits
/// the file pattern.
pub proof fn law_every_match_is_found(
    query: Query,
    all: Seq<FileModel>,
    hits: Seq<Seq<bool>>,
    n: nat,
    f: int,
    i: int,
)
    requires
        n <= all.len(),
        found_in_files(query, all, hits, n).len() < query.max,
        0 <= f < n,
        wanted(query, all[f].path, all[f].file_name),
        0 <= i < all[f].lines.len(),
        all[f].lines[i] is Some,
        is_hit(hits_in(hits, f), i),
    ensures
        found_in_files(query, all, hits, n).contains(
            Place {
                file: files::shown_path(all[f].path, query.project),
                line: (i + 1) as nat,
                text: text::trim(all[f].lines[i]->0),
            },
        ),
    decreases n,
{
    let before = found_in_files(query, all, hits, (n - 1) as nat);
    let after = found_in_files(query, all, hits, n);
    let file = all[n - 1];
    let place = Place {
        file: files::shown_path(all[f].path, query.project),
        line: (i + 1) as nat,
        text: text::trim(all[f].lines[i]->0),
    };
    lemma_found_in_lines(before, query, file, hits_in(hits, n - 1), file.lines.len());
    if f < n - 1 {
        law_every_match_is_found(query, all, hits, (n - 1) as nat, f, i);
        let k = choose|k: int| 0 <= k < before.len() && before[k] == place;
        if before.len() < query.max && wanted(query, file.path, file.file_name) {
            assert(after.take(before.len() as int)[k] == before[k]);
        }
        assert(after[k] == place);
    } else {
        assert(file.lines[i] is Some);
        let k = choose|k: int|
            before.len() <= k < after.len() && (#[trigger] after[k]).line == i + 1;
        assert(is_match_in(after[k], hits_in(hits, n - 1), file, query.project));
        assert(after[k] == place);
    }
}

/// A search of files that are shown under different paths finds no line twice.
pub proof fn law_no_line_is_found_twice(
    query: Query,
    all: Seq<FileModel>,
    hits: Seq<Seq<bool>>,
    n: nat,
    j: int,
    k: int,
)
    requires
        n <= all.len(),
        forall|f: int, g: int|
            0 <= f < g < n ==> files::shown_path((#[trigger] all[f]).path, query.project)
                != files::shown_path((#[trigger] all[g]).path, query.project),
        0 <= j < k < found_in_files(query, all, hits, n).len(),
    ensures
        ({
            let found = found_in_files(query, all, hits, n);
            found[j].file != found[k].file || found[j].line < found[k].line
        }),
    decreases n,
{
    if n > 0 {
        let before = found_in_files(query, all, hits, (n - 1) as nat);
        let after = found_in_files(query, all, hits, n);
        let file = all[n - 1];
        if before.len() < query.max && wanted(query, file.path, file.file_name) {
            lemma_found_in_lines(before, query, file, hits_in(hits, n - 1), file.lines.len());
            if j < before.len() {
                assert(after.take(before.len() as int)[j] == before[j]);
            }
            if k < before.len() {
                assert(after.take(before.len() as int)[k] == before[k]);
                law_no_line_is_found_twice(query, all, hits, (n - 1) as nat, j, k);
            } else if j < before.len() {
                law_found_places_match(query, all, hits, (n - 1) as nat, j);
                let f = choose|f: int|
                    f < n - 1 && #[trigger] comes_from(query, all, hits, before[j], f);
                assert(is_match_in(after[k], hits_in(hits, n - 1), file, query.project));
                assert(files::shown_path(all[f].path, query.project) != files::shown_path(
                    all[n - 1].path,
                    query.project,
                ));
            }
        } else {
            law_no_line_is_found_twice(query, all, hits, (n - 1) as nat, j, k);
        }
    }
}

/// The message for a symbol whose regular expression is not taken.
pub open spec fn invalid_symbol(symbol: Seq<char>, reason: Seq<char>) -> Seq<char> {
    "Invalid symbol pattern '"@ + symbol + "': "@ + reason
}

fn invalid_symbol_error(symbol: &str, reason: &str) -> (e: AgentError)
    ensures
        e.is_tool_error("find_references"@, invalid_symbol(symbol@, reason@)),
{
    let mut m = "Invalid symbol pattern '".to_owned();
    m.append(symbol);
    m.append("': ");
    m.append(reason);
    assert(m@ == invalid_symbol(symbol@, reason@));
    AgentError::tool_error("find_references", m.as_str())
}

/// Some reason why a regular expression is not taken.
pub open spec fn is_invalid_symbol(e: AgentError, symbol: Seq<char>) -> bool {
    exists|reason: Seq<char>|
        e.is_tool_error("find_references"@, #[trigger] invalid_symbol(symbol, reason))
}

/// Why a regular expression is not taken, if it is not.
pub open spec fn refusal(compiled: Result<(), String>) -> Option<Seq<char>> {
    match compiled {
        Ok(_) => None,
        Err(reason) => Some(reason@),
    }
}

/// A search, or why there is none, for a regular expression that is taken or not.
pub open spec fn is_started(
    r: AgentResult<ReferenceSearch>,
    call: ToolCall,
    project: Seq<char>,
    refused: Option<Seq<char>>,
) -> bool {
    match protocol::first_missing(references_definition().parameters, call.arguments@.dom()) {
        Some(name) => match r {
            Ok(_) => false,
            Err(e) => e.is_tool_error("find_references"@, protocol::missing_parameter(name)),
        },
        None => match (r, refused) {
            (Ok(search), None) => {
                &&& search.well_formed()
                &&& search.query() == query_of(call, project)
                &&& search.found@.len() == 0
            },
            (Err(e), Some(reason)) => e.is_tool_error(
                "find_references"@,
                invalid_symbol(query_of(call, project).symbol, reason),
            ),
            _ => false,
        },
    }
}

/// Writes the regular expression for a symbol as a whole word.
fn pattern_for(symbol: &str) -> (r: String)
    ensures
        r@ == symbol_pattern(symbol@),
{
    let mut pattern = "\\b".to_owned();
    let inner = patterns::escape(symbol);
    pattern.append(inner.as_str());
    pattern.append("\\b");
    pattern
}

/// Which lines use a symbol, or why its regular expression is not taken.
fn match_lines(symbol: &str, pattern: &str, lines: &Vec<Option<String>>) -> (r: Result<
    Vec<bool>,
    String,
>)
    requires
        pattern@ == symbol_pattern(symbol@),
    ensures
        match r {
            Ok(v) => v@ == line_hits(symbol@, line_views(lines@)),
            Err(_) => !patterns::plainly_taken(symbol_pattern(symbol@)),
        },
{
    let ghost goal = line_hits(symbol@, line_views(lines@));
    let mut v: Vec<bool> = Vec::new();
    let mut i: usize = 0;
    while i < lines.len()
        invariant
            i <= lines@.len(),
            pattern@ == symbol_pattern(symbol@),
            goal == line_hits(symbol@, line_views(lines@)),
            v@ == goal.take(i as int),
        decreases lines@.len() - i,
    {
        let ghost before = v@;
        assert(line_views(lines@)[i as int] == paths::opt_view(lines@[i as int]));
        let hit = match &lines[i] {
            Some(line) => match patterns::is_match(pattern, line.as_str()) {
                Ok(b) => {
                    assert(patterns::word_pattern(symbol@) == pattern@);
                    assert(b == uses_symbol(symbol@, line@));
                    b
                },
                Err(reason) => {
                    return Err(reason);
                },
            },
            None => false,
        };
        v.push(hit);
        i += 1;
        assert(v@ =~= goal.take(i as int));
    }
    assert(goal.take(goal.len() as int) =~= goal);
    Ok(v)
}

/// A search for a symbol.
pub struct ReferenceSearch {
    pub symbol: String,
    pub search_path: String,
    pub file_pattern: Option<String>,
    pub max_results: usize,
    /// The project's directory, against which paths are shown.
    pub project: String,
    /// The regular expression for the symbol.
    pub pattern: String,
    /// What was found so far.
    pub found: Vec<Reference>,
}

/// What a call asks for.
pub open spec fn query_of(call: ToolCall, project: Seq<char>) -> Query {
    Query {
        symbol: call.text_argument("symbol"@)->0,
        search_path: match call.text_argument("path"@) {
            Some(p) => p,
            None => "."@,
        },
        file_pattern: call.text_argument("file_pattern"@),
        max: match call.integer_argument("max_results"@) {
            Some(n) => if n < 1 {
                1
            } else {
                (n as usize) as nat
            },
            None => 100,
        },
        project,
    }
}

impl ReferenceSearch {
    /// What the search is for.
    pub open spec fn query(&self) -> Query {
        Query {
            symbol: self.symbol@,
            search_path: self.search_path@,
            file_pattern: paths::opt_view(self.file_pattern),
            max: self.max_results as nat,
            project: self.project@,
        }
    }

    /// The pattern is that of the symbol.
    pub open spec fn well_formed(&self) -> bool {
        self.pattern@ == symbol_pattern(self.symbol@)
    }

    /// Begins the search that a call asks for; `compiled` tells whether the regular expression for
    /// its symbol is taken.
    pub fn start(call: &ToolCall, project: &str, compiled: &Result<(), String>) -> (r: AgentResult<
        Self,
    >)
        requires
            call.arguments@.contains_key("symbol"@) ==> call.text_argument("symbol"@) is Some,
        ensures
            is_started(r, *call, project@, refusal(*compiled)),
    {
        let definition = FindReferencesTool.definition();
        match protocol::validate_arguments(&definition, call) {
            Ok(_) => {},
            Err(e) => {
                return Err(e);
            },
        }
        proof {
            let ps = references_definition().parameters;
            protocol::law_valid_call_gives_required(ps, call.arguments@.dom());
            assert(ps[0].required);
        }
        let symbol: &str = call.get_string("symbol").unwrap();
        match compiled {
            Ok(_) => {},
            Err(reason) => {
                return Err(invalid_symbol_error(symbol, reason.as_str()));
            },
        }
        let search_path: &str = match call.get_string("path") {
            Some(p) => p,
            None => ".",
        };
        let file_pattern = match call.get_string("file_pattern") {
            Some(p) => Some(p.to_owned()),
            None => None,
        };
        let max_results: usize = match call.get_i64("max_results") {
            Some(n) => if n < 1 {
                1
            } else {
                n as usize
            },
            None => 100,
        };
        let pattern = pattern_for(symbol);
        Ok(
            ReferenceSearch {
                symbol: symbol.to_owned(),
                search_path: search_path.to_owned(),
                file_pattern,
                max_results,
                project: project.to_owned(),
                pattern,
                found: Vec::new(),
            },
        )
    }

    /// Begins the search that a call asks for. A regular expression that is plainly taken is no
    /// reason to refuse.
    pub fn begin(call: &ToolCall, project: &str) -> (r: AgentResult<Self>)
        requires
            call.arguments@.contains_key("symbol"@) ==> call.text_argument("symbol"@) is Some,
        ensures
            is_started(r, *call, project@, None) || (!patterns::plainly_taken(
                symbol_pattern(query_of(*call, project@).symbol),
            ) && exists|reason: Seq<char>| #[trigger]
                is_started(r, *call, project@, Some(reason))),
    {
        let compiled = compile_call(call);
        assert(refusal(compiled) is Some ==> refusal(compiled) == Some(refusal(compiled)->0));
        Self::start(call, project, &compiled)
    }

    /// Tells whether as much was found as may be.
    pub fn is_full(&self) -> (r: bool)
        ensures
            r == (self.found@.len() >= self.query().max),
    {
        self.found.len() >= self.max_results
    }

    /// Tells whether a file is to be searched.
    pub fn wants(&self, path: &str, file_name: &str) -> (r: bool)
        ensures
            r == wanted(self.query(), path@, file_name@),
    {
        match &self.file_pattern {
            Some(p) => {
                let shown = files::show_path(path, self.project.as_str());
                simple_glob_match(file_name, p.as_str()) || simple_glob_match(
                    shown.as_str(),
                    p.as_str(),
                )
            },
            None => true,
        }
    }

    /// Takes a file in; `hits` says which of its lines use the symbol.
    pub fn add_hits(&mut self, path: &str, lines: &Vec<Option<String>>, hits: &Vec<bool>)
        requires
            old(self).well_formed(),
        ensures
            final(self).well_formed(),
            final(self).query() == old(self).query(),
            places(final(self).found@) == found_in_lines(
                places(old(self).found@),
                hits@,
                files::shown_path(path@, old(self).project@),
                line_views(lines@),
                lines@.len(),
                old(self).max_results as nat,
            ),
    {
        let shown = files::show_path(path, self.project.as_str());
        let ghost before = places(self.found@);
        let ghost all = line_views(lines@);
        let ghost query = self.query();
        let ghost max = self.max_results as nat;
        let mut i: usize = 0;
        while i < lines.len()
            invariant
                i <= lines@.len(),
                all == line_views(lines@),
                self.well_formed(),
                self.query() == query,
                query == old(self).query(),
                max == self.max_results,
                shown@ == files::shown_path(path@, query.project),
                places(self.found@) == found_in_lines(before, hits@, shown@, all, i as nat, max),
            decreases lines@.len() - i,
        {
            assert(all[i as int] == paths::opt_view(lines@[i as int]));
            let ghost found_before = places(self.found@);
            match &lines[i] {
                Some(line) => {
                    if self.found.len() < self.max_results && i < hits.len() && hits[i] {
                        let reference = Reference {
                            file: shown.clone(),
                            line: i + 1,
                            text: text::trim_text(line.as_str()),
                        };
                        self.found.push(reference);
                        assert(places(self.found@) =~= found_before.push(reference.place()));
                    }
                },
                None => {},
            }
            i += 1;
        }
    }

    /// Searches a file. A regular expression that is not taken is an error and finds nothing.
    pub fn add_file(&mut self, path: &str, lines: &Vec<Option<String>>) -> (r: AgentResult<()>)
        requires
            old(self).well_formed(),
        ensures
            final(self).well_formed(),
            final(self).query() == old(self).query(),
            match r {
                Ok(_) => places(final(self).found@) == found_in_lines(
                    places(old(self).found@),
                    line_hits(old(self).symbol@, line_views(lines@)),
                    files::shown_path(path@, old(self).project@),
                    line_views(lines@),
                    lines@.len(),
                    old(self).max_results as nat,
                ),
                Err(e) => {
                    &&& !patterns::plainly_taken(symbol_pattern(old(self).symbol@))
                    &&& is_invalid_symbol(e, old(self).symbol@)
                    &&& *final(self) == *old(self)
                },
            },
    {
        match match_lines(self.symbol.as_str(), self.pattern.as_str(), lines) {
            Ok(hits) => {
                self.add_hits(path, lines, &hits);
                Ok(())
            },
            Err(reason) => Err(invalid_symbol_error(self.symbol.as_str(), reason.as_str())),
        }
    }

    /// Reports what was found.
    pub fn finish(&self) -> (r: ToolResult)
        ensures
            r.spec() == protocol::succeeded(
                JsonValue::Object(references_fields(self.query(), places(self.found@))),
            ),
    {
        let ghost all = places(self.found@);
        let ghost values = place_values(self.symbol@, all);
        let mut list: Vec<Json> = Vec::new();
        let mut i: usize = 0;
        assert(json::models(list@) =~= values.take(0));
        while i < self.found.len()
            invariant
                i <= self.found@.len(),
                all == places(self.found@),
                values == place_values(self.symbol@, all),
                json::models(list@) == values.take(i as int),
            decreases self.found@.len() - i,
        {
            let ghost before = json::models(list@);
            let reference = &self.found[i];
            let fields = Fields::new().with("file", Json::text(reference.file.as_str())).with(
                "line",
                Json::natural(reference.line as u64),
            ).with("symbol", Json::text(self.symbol.as_str())).with(
                "text",
                Json::text(reference.text.as_str()),
            );
            assert(fields.model() =~= place_fields(self.symbol@, all[i as int]));
            let j = fields.object();
            list.push(j);
            i += 1;
            assert(json::models(list@) =~= before.push(j.model()));
            assert(json::models(list@) =~= values.take(i as int));
        }
        assert(values.take(values.len() as int) =~= values);
        let fields = Fields::new().with("symbol", Json::text(self.symbol.as_str())).with(
            "path",
            Json::text(self.search_path.as_str()),
        ).with("reference_count", Json::natural(self.found.len() as u64)).with(
            "truncated",
            Json::truth(self.found.len() >= self.max_results),
        ).with("references", Json::array(list));
        assert(fields.model() =~= references_fields(self.query(), all));
        ToolResult::success(fields.object())
    }
}

/// The fields of a place as a JSON value.
pub open spec fn place_fields(symbol: Seq<char>, place: Place) -> Seq<(Seq<char>, JsonValue)> {
    seq![
        ("file"@, JsonValue::String(place.file)),
        ("line"@, json::natural_value(place.line)),
        ("symbol"@, JsonValue::String(symbol)),
        ("text"@, JsonValue::String(place.text)),
    ]
}

/// Places as JSON values.
pub open spec fn place_values(symbol: Seq<char>, all: Seq<Place>) -> Seq<JsonValue> {
    Seq::new(all.len(), |i: int| JsonValue::Object(place_fields(symbol, all[i])))
}

/// The fields of what is answered.
pub open spec fn references_fields(query: Query, found: Seq<Place>) -> Seq<(Seq<char>, JsonValue)> {
    seq![
        ("symbol"@, JsonValue::String(query.symbol)),
        ("path"@, JsonValue::String(query.search_path)),
        ("reference_count"@, json::natural_value(found.len())),
        ("truncated"@, JsonValue::Bool(found.len() >= query.max)),
        ("references"@, JsonValue::Array(place_values(query.symbol, found))),
    ]
}

/// Where a search looks.
pub enum SearchTarget {
    /// There is nothing at the path.
    Missing,
    /// A file.
    File(ScannedFile),
    /// The files of a directory.
    Directory(Vec<ScannedFile>),
}

/// The places found in a target. `hits` says which lines of each file match.
pub open spec fn found_in_target(
    query: Query,
    target: SearchTarget,
    hits: Seq<Seq<bool>>,
) -> Seq<Place> {
    match target {
        SearchTarget::Missing => Seq::empty(),
        SearchTarget::File(f) => found_in_file(
            Seq::empty(),
            query,
            f.model(),
            hits_in(hits, 0),
        ),
        SearchTarget::Directory(v) => found_in_files(query, file_models(v@), hits, v@.len()),
    }
}

/// Which lines of a file use the symbol; of a file that is not searched, none is looked at.
pub open spec fn file_hits(query: Query, file: FileModel) -> Seq<bool> {
    if wanted(query, file.path, file.file_name) {
        line_hits(query.symbol, file.lines)
    } else {
        Seq::empty()
    }
}

/// Which lines of each file of a target use the symbol.
pub open spec fn target_hits(query: Query, target: SearchTarget) -> Seq<Seq<bool>> {
    match target {
        SearchTarget::Missing => Seq::empty(),
        SearchTarget::File(f) => seq![line_hits(query.symbol, f.model().lines)],
        SearchTarget::Directory(v) => Seq::new(
            v@.len(),
            |i: int| file_hits(query, file_models(v@)[i]),
        ),
    }
}

/// What comes of a call: `refused` says why the regular expression is not taken, if it is not, and
/// `hits` which lines of each file match.
pub open spec fn references_outcome(
    call: ToolCall,
    project: Seq<char>,
    target: SearchTarget,
    refused: Option<Seq<char>>,
    hits: Seq<Seq<bool>>,
) -> Outcome {
    match protocol::first_missing(references_definition().parameters, call.arguments@.dom()) {
        Some(name) => Outcome::Fails("find_references"@, protocol::missing_parameter(name)),
        None => {
            let query = query_of(call, project);
            match refused {
                Some(reason) => Outcome::Fails(
                    "find_references"@,
                    invalid_symbol(query.symbol, reason),
                ),
                None => if target is Missing {
                    Outcome::Answers(
                        protocol::failed("Path does not exist: "@ + query.search_path),
                    )
                } else {
                    Outcome::Answers(
                        protocol::succeeded(
                            JsonValue::Object(
                                references_fields(query, found_in_target(query, target, hits)),
                            ),
                        ),
                    )
                },
            }
        },
    }
}

/// The files that a search may look through.
pub open spec fn target_files(target: SearchTarget) -> Seq<FileModel> {
    match target {
        SearchTarget::Missing => Seq::empty(),
        SearchTarget::File(f) => seq![f.model()],
        SearchTarget::Directory(v) => file_models(v@),
    }
}

/// A reference in an answer names line `i` of a file: its fields hold the path of the file as it is
/// shown, the line counted from 1, the symbol, and the text of that line without the white space
/// around it.
pub open spec fn names_line(
    reference: JsonValue,
    symbol: Seq<char>,
    file: FileModel,
    project: Seq<char>,
    i: int,
) -> bool {
    &&& 0 <= i < file.lines.len()
    &&& file.lines[i] matches Some(line) && reference.field("text"@) == Some(
        JsonValue::String(text::trim(line)),
    )
    &&& reference.field("file"@) == Some(
        JsonValue::String(files::shown_path(file.path, project)),
    )
    &&& reference.field("line"@) == Some(json::natural_value((i + 1) as nat))
    &&& reference.field("symbol"@) == Some(JsonValue::String(symbol))
}

proof fn lemma_place_fields(symbol: Seq<char>, place: Place)
    ensures
        ({
            let reference = JsonValue::Object(place_fields(symbol, place));
            &&& reference.field("file"@) == Some(JsonValue::String(place.file))
            &&& reference.field("line"@) == Some(json::natural_value(place.line))
            &&& reference.field("symbol"@) == Some(JsonValue::String(symbol))
            &&& reference.field("text"@) == Some(JsonValue::String(place.text))
        }),
{
    reveal_strlit("file");
    reveal_strlit("line");
    reveal_strlit("symbol");
    reveal_strlit("text");
    assert("file"@[0] != "line"@[0]);
    assert("file"@[0] != "text"@[0]);
    assert("line"@[0] != "text"@[0]);
    let fields = place_fields(symbol, place);
    json::lemma_field(fields, 0);
    json::lemma_field(fields, 1);
    json::lemma_field(fields, 2);
    json::lemma_field(fields, 3);
}

proof fn lemma_references_fields(query: Query, found: Seq<Place>)
    ensures
        ({
            let value = JsonValue::Object(references_fields(query, found));
            &&& value.field("symbol"@) == Some(JsonValue::String(query.symbol))
            &&& value.field("path"@) == Some(JsonValue::String(query.search_path))
            &&& value.field("reference_count"@) == Some(json::natural_value(found.len()))
            &&& value.field("truncated"@) == Some(JsonValue::Bool(found.len() >= query.max))
            &&& value.field("references"@) == Some(
                JsonValue::Array(place_values(query.symbol, found)),
            )
        }),
{
    reveal_strlit("symbol");
    reveal_strlit("path");
    reveal_strlit("reference_count");
    reveal_strlit("truncated");
    reveal_strlit("references");
    assert("symbol"@.len() == 6);
    assert("path"@.len() == 4);
    assert("reference_count"@.len() == 15);
    assert("truncated"@.len() == 9);
    assert("references"@.len() == 10);
    let fields = references_fields(query, found);
    json::lemma_field(fields, 0);
    json::lemma_field(fields, 1);
    json::lemma_field(fields, 2);
    json::lemma_field(fields, 3);
    json::lemma_field(fields, 4);
}

/// The references that a value lists.
pub open spec fn listed_references(value: JsonValue) -> Seq<JsonValue> {
    match value.field("references"@) {
        Some(JsonValue::Array(items)) => items,
        _ => Seq::empty(),
    }
}

/// Every reference in the answer of the tool shows a line that matches: its field `text` is the text
/// of the line that its fields `file` and `line` name, without the white space around it.
pub proof fn law_references_show_their_lines(
    call: ToolCall,
    project: Seq<char>,
    target: SearchTarget,
    hits: Seq<Seq<bool>>,
    value: JsonValue,
    k: int,
)
    requires
        references_outcome(call, project, target, None, hits) == Outcome::Answers(
            protocol::succeeded(value),
        ),
        0 <= k < listed_references(value).len(),
    ensures
        exists|f: int, i: int|
            0 <= f < target_files(target).len() && #[trigger] names_line(
                listed_references(value)[k],
                call.text_argument("symbol"@)->0,
                target_files(target)[f],
                project,
                i,
            ) && f < hits.len() && i < hits[f].len() && hits[f][i],
{
    let query = query_of(call, project);
    let found = found_in_target(query, target, hits);
    lemma_references_fields(query, found);
    lemma_place_fields(query.symbol, found[k]);
    assert(listed_references(value) == place_values(query.symbol, found));
    match target {
        SearchTarget::Missing => {},
        SearchTarget::File(f) => {
            let model = f.model();
            lemma_found_in_lines(
                Seq::empty(),
                query,
                model,
                hits_in(hits, 0),
                model.lines.len(),
            );
            assert(is_match_in(found[k], hits_in(hits, 0), model, project));
            assert(names_line(
                listed_references(value)[k],
                query.symbol,
                target_files(target)[0],
                project,
                found[k].line - 1,
            ));
        },
        SearchTarget::Directory(v) => {
            let all = file_models(v@);
            law_found_places_match(query, all, hits, all.len(), k);
            let f = choose|f: int|
                f < all.len() && #[trigger] comes_from(query, all, hits, found[k], f);
            assert(names_line(
                listed_references(value)[k],
                query.symbol,
                target_files(target)[f],
                project,
                found[k].line - 1,
            ));
        },
    }
}

/// An answer that lists fewer references than it may lists every line that matches, of each file
/// that is asked for: any file, if no file pattern is given or one file is searched, else those whose
/// name or shown path fits the pattern.
pub proof fn law_every_match_is_listed(
    call: ToolCall,
    project: Seq<char>,
    target: SearchTarget,
    hits: Seq<Seq<bool>>,
    value: JsonValue,
    f: int,
    i: int,
)
    requires
        references_outcome(call, project, target, None, hits) == Outcome::Answers(
            protocol::succeeded(value),
        ),
        listed_references(value).len() < query_of(call, project).max,
        0 <= f < target_files(target).len(),
        f < hits.len(),
        0 <= i < target_files(target)[f].lines.len(),
        i < hits[f].len(),
        hits[f][i],
        target_files(target)[f].lines[i] is Some,
        target is File || (match call.text_argument("file_pattern"@) {
            Some(p) => glob_fits(target_files(target)[f].file_name, p) || glob_fits(
                files::shown_path(target_files(target)[f].path, project),
                p,
            ),
            None => true,
        }),
    ensures
        exists|k: int|
            0 <= k < listed_references(value).len() && #[trigger] names_line(
                listed_references(value)[k],
                call.text_argument("symbol"@)->0,
                target_files(target)[f],
                project,
                i,
            ),
{
    let query = query_of(call, project);
    let found = found_in_target(query, target, hits);
    lemma_references_fields(query, found);
    assert(listed_references(value) == place_values(query.symbol, found));
    let file = target_files(target)[f];
    let place = Place {
        file: files::shown_path(file.path, project),
        line: (i + 1) as nat,
        text: text::trim(file.lines[i]->0),
    };
    match target {
        SearchTarget::Missing => {},
        SearchTarget::File(_) => {
            lemma_found_in_lines(
                Seq::empty(),
                query,
                file,
                hits_in(hits, 0),
                file.lines.len(),
            );
            assert(is_hit(hits_in(hits, 0), i));
            assert(file.lines[i] is Some);
            let k = choose|k: int| 0 <= k < found.len() && (#[trigger] found[k]).line == i + 1;
            assert(is_match_in(found[k], hits_in(hits, 0), file, project));
            assert(found[k] == place);
        },
        SearchTarget::Directory(v) => {
            let all = file_models(v@);
            law_every_match_is_found(query, all, hits, all.len(), f, i);
        },
    }
    assert(found.contains(place));
    let k = choose|k: int| 0 <= k < found.len() && found[k] == place;
    lemma_place_fields(query.symbol, place);
    assert(names_line(listed_references(value)[k], query.symbol, file, project, i));
}

/// The answer tells what was searched for, where, how many references it lists, and whether it lists
/// as many as it may: as many as the call asks for, at least one, or a hundred.
pub proof fn law_answer_counts_its_references(
    call: ToolCall,
    project: Seq<char>,
    target: SearchTarget,
    hits: Seq<Seq<bool>>,
    value: JsonValue,
    max: nat,
)
    requires
        references_outcome(call, project, target, None, hits) == Outcome::Answers(
            protocol::succeeded(value),
        ),
        match call.integer_argument("max_results"@) {
            Some(n) => n <= usize::MAX && if n < 1 {
                max == 1
            } else {
                max == n
            },
            None => max == 100,
        },
    ensures
        value.field("symbol"@) == Some(JsonValue::String(call.text_argument("symbol"@)->0)),
        match call.text_argument("path"@) {
            Some(path) => value.field("path"@) == Some(JsonValue::String(path)),
            None => value.field("path"@) == Some(JsonValue::String("."@)),
        },
        listed_references(value).len() <= max,
        value.field("reference_count"@) == Some(
            json::natural_value(listed_references(value).len()),
        ),
        value.field("truncated"@) == Some(JsonValue::Bool(listed_references(value).len() == max)),
{
    let query = query_of(call, project);
    let found = found_in_target(query, target, hits);
    lemma_references_fields(query, found);
    match target {
        SearchTarget::Missing => {},
        SearchTarget::File(f) => {
            lemma_found_in_lines(
                Seq::empty(),
                query,
                f.model(),
                hits_in(hits, 0),
                f.model().lines.len(),
            );
        },
        SearchTarget::Directory(v) => {
            law_search_stops_at_its_limit(query, file_models(v@), hits, v@.len());
        },
    }
}

/// In ASCII text a line matches a word of ASCII characters where the word stands in it with no
/// letter, digit or underscore on either side, and nowhere else.
pub proof fn law_whole_words_match(symbol: Seq<char>, lines: Seq<Option<Seq<char>>>, i: int)
    requires
        patterns::is_word(symbol),
        0 <= i < lines.len(),
    ensures
        lines[i] matches Some(line) ==> vstd::utf8::is_ascii_chars(line) ==> (line_hits(
            symbol,
            lines,
        )[i] <==> exists|p: int|
            0 <= p && p + symbol.len() <= line.len() && #[trigger] line.subrange(
                p,
                p + symbol.len(),
            ) == symbol && (p > 0 ==> !patterns::is_word_char(line[p - 1])) && (p + symbol.len()
                < line.len() ==> !patterns::is_word_char(line[p + symbol.len()]))),
        lines[i] is None ==> !line_hits(symbol, lines)[i],
{
    if let Some(line) = lines[i] {
        if patterns::holds_word(line, symbol) {
            let p = choose|p: int| patterns::is_word_at(line, symbol, p);
            assert(line.subrange(p, p + symbol.len()) == symbol);
        }
        if exists|p: int|
            0 <= p && p + symbol.len() <= line.len() && #[trigger] line.subrange(
                p,
                p + symbol.len(),
            ) == symbol && (p > 0 ==> !patterns::is_word_char(line[p - 1])) && (p + symbol.len()
                < line.len() ==> !patterns::is_word_char(line[p + symbol.len()])) {
            let p = choose|p: int|
                0 <= p && p + symbol.len() <= line.len() && #[trigger] line.subrange(
                    p,
                    p + symbol.len(),
                ) == symbol && (p > 0 ==> !patterns::is_word_char(line[p - 1])) && (p
                    + symbol.len() < line.len() ==> !patterns::is_word_char(
                    line[p + symbol.len()],
                ));
            assert(patterns::is_word_at(line, symbol, p));
        }
    }
}

/// A pattern that starts with a star fits every name that ends with the rest; one that ends with a
/// star fits every name that starts with what is before it; any other fits itself alone.
pub proof fn law_stars_stand_for_anything(name: Seq<char>, rest: Seq<char>)
    ensures
        glob_fits(name, seq!['*'] + rest) <==> exists|a: Seq<char>| #[trigger] (a + rest) == name,
        rest.len() > 0 && rest[0] != '*' ==> (glob_fits(name, rest + seq!['*']) <==> exists|
            b: Seq<char>,
        | #[trigger] (rest + b) == name),
        rest.len() > 0 && rest[0] != '*' && rest.last() != '*' ==> (glob_fits(name, rest)
            <==> name == rest),
{
    let p = seq!['*'] + rest;
    assert(p.skip(1) =~= rest);
    let q = rest + seq!['*'];
    assert(q.drop_last() =~= rest);
    if rest.is_suffix_of(name) {
        assert(name.take(name.len() - rest.len()) + rest =~= name);
    }
    if exists|a: Seq<char>| #[trigger] (a + rest) == name {
        let a = choose|a: Seq<char>| #[trigger] (a + rest) == name;
        assert(name.subrange(name.len() - rest.len(), name.len() as int) =~= rest);
        assert(rest.is_suffix_of(name));
    }
    if rest.is_prefix_of(name) {
        assert(rest + name.skip(rest.len() as int) =~= name);
    }
    if exists|b: Seq<char>| #[trigger] (rest + b) == name {
        let b = choose|b: Seq<char>| #[trigger] (rest + b) == name;
        assert(name.subrange(0, rest.len() as int) =~= rest);
        assert(rest.is_prefix_of(name));
    }
}

/// The hits in each file.
pub open spec fn hit_views(v: Seq<Vec<bool>>) -> Seq<Seq<bool>> {
    Seq::new(v.len(), |i: int| v[i]@)
}

/// Whether the regular expression for the symbol of a call is taken. A call without a symbol has
/// none.
fn compile_call(call: &ToolCall) -> (r: Result<(), String>)
    ensures
        r is Err ==> call.text_argument("symbol"@) is Some && !patterns::plainly_taken(
            symbol_pattern(call.text_argument("symbol"@)->0),
        ),
{
    match call.get_string("symbol") {
        Some(symbol) => {
            let pattern = pattern_for(symbol);
            match patterns::is_match(pattern.as_str(), "") {
                Ok(_) => Ok(()),
                Err(reason) => Err(reason),
            }
        },
        None => Ok(()),
    }
}

/// Answers a call, given the files that it may search, whether the regular expression for its symbol
/// is taken, and which lines of each file match.
pub fn references(
    call: &ToolCall,
    project: &str,
    target: &SearchTarget,
    compiled: &Result<(), String>,
    hits: &Vec<Vec<bool>>,
) -> (r: AgentResult<ToolResult>)
    requires
        call.arguments@.contains_key("symbol"@) ==> call.text_argument("symbol"@) is Some,
    ensures
        protocol::is_outcome(
            r,
            references_outcome(*call, project@, *target, refusal(*compiled), hit_views(hits@)),
        ),
{
    let ghost all_hits = hit_views(hits@);
    let no_hits: Vec<bool> = Vec::new();
    assert(no_hits@ =~= Seq::empty());
    let mut search = match ReferenceSearch::start(call, project, compiled) {
        Ok(s) => s,
        Err(e) => {
            return Err(e);
        },
    };
    assert(places(search.found@) =~= Seq::empty());
    match target {
        SearchTarget::Missing => {
            let mut m = "Path does not exist: ".to_owned();
            m.append(search.search_path.as_str());
            return Ok(ToolResult::error(m.as_str()));
        },
        SearchTarget::File(f) => {
            if hits.len() > 0 {
                search.add_hits(f.path.as_str(), &f.lines, &hits[0]);
            } else {
                search.add_hits(f.path.as_str(), &f.lines, &no_hits);
            }
        },
        SearchTarget::Directory(v) => {
            let ghost query = search.query();
            let ghost all = file_models(v@);
            let mut i: usize = 0;
            while i < v.len()
                invariant
                    i <= v@.len(),
                    all == file_models(v@),
                    all_hits == hit_views(hits@),
                    no_hits@ == Seq::<bool>::empty(),
                    search.well_formed(),
                    search.query() == query,
                    query == query_of(*call, project@),
                    places(search.found@) == found_in_files(query, all, all_hits, i as nat),
                decreases v@.len() - i,
            {
                let f = &v[i];
                assert(all[i as int] == f.model());
                assert(places(search.found@).len() == search.found@.len());
                if !search.is_full() && search.wants(f.path.as_str(), f.file_name.as_str()) {
                    if i < hits.len() {
                        search.add_hits(f.path.as_str(), &f.lines, &hits[i]);
                    } else {
                        search.add_hits(f.path.as_str(), &f.lines, &no_hits);
                    }
                }
                i += 1;
            }
        },
    }
    Ok(search.finish())
}

/// Which lines of the files of a target use the symbol of a search, or why its regular expression is
/// not taken.
fn match_target(search: &ReferenceSearch, target: &SearchTarget) -> (r: Result<
    Vec<Vec<bool>>,
    String,
>)
    requires
        search.well_formed(),
    ensures
        match r {
            Ok(v) => hit_views(v@) == target_hits(search.query(), *target),
            Err(_) => !patterns::plainly_taken(symbol_pattern(search.symbol@)),
        },
{
    let symbol = search.symbol.as_str();
    let pattern = search.pattern.as_str();
    let ghost goal = target_hits(search.query(), *target);
    let mut all: Vec<Vec<bool>> = Vec::new();
    match target {
        SearchTarget::Missing => {},
        SearchTarget::File(f) => match match_lines(symbol, pattern, &f.lines) {
            Ok(hits) => {
                all.push(hits);
            },
            Err(reason) => {
                return Err(reason);
            },
        },
        SearchTarget::Directory(v) => {
            let mut i: usize = 0;
            assert(hit_views(all@) =~= goal.take(0));
            while i < v.len()
                invariant
                    i <= v@.len(),
                    search.well_formed(),
                    symbol@ == search.symbol@,
                    pattern@ == search.pattern@,
                    goal == target_hits(search.query(), *target),
                    *target == SearchTarget::Directory(*v),
                    hit_views(all@) == goal.take(i as int),
                decreases v@.len() - i,
            {
                let f = &v[i];
                let ghost before = hit_views(all@);
                assert(file_models(v@)[i as int] == f.model());
                let hits: Vec<bool> = if search.wants(f.path.as_str(), f.file_name.as_str()) {
                    match match_lines(symbol, pattern, &f.lines) {
                        Ok(hits) => hits,
                        Err(reason) => {
                            return Err(reason);
                        },
                    }
                } else {
                    Vec::new()
                };
                assert(hits@ =~= goal[i as int]);
                all.push(hits);
                i += 1;
                assert(hit_views(all@) =~= before.push(hits@));
                assert(hit_views(all@) =~= goal.take(i as int));
            }
        },
    }
    assert(hit_views(all@) =~= goal);
    Ok(all)
}

/// Finds the places where a symbol is used.
pub struct FindReferencesTool;

/// What the definition of the tool says.
pub open spec fn references_definition() -> DefinitionSpec {
    DefinitionSpec {
        name: "find_references"@,
        description: "Find references to a symbol (function, variable, type, etc.) across the codebase using word-boundary matching. Returns file paths, line numbers, and the matching line content. Useful for locating usages and call sites."@,
        parameters: seq![
            protocol::parameter(
                "symbol"@,
                ParameterType::Text,
                "Symbol name to find references for (exact word match)"@,
                true,
            ),
            protocol::parameter(
                "path"@,
                ParameterType::Text,
                "Directory or file to search in (relative to project root, default: \".\")"@,
                false,
            ),
            protocol::parameter(
                "file_pattern"@,
                ParameterType::Text,
                "Glob pattern to filter files (e.g., \"*.rs\", \"*.ts\")"@,
                false,
            ),
            protocol::parameter(
                "max_results"@,
                ParameterType::Integer,
                "Maximum number of references to return (default: 100)"@,
                false,
            ),
        ],
    }
}

/// A reference as it is shown in a summary.
pub open spec fn preview_line(v: JsonValue) -> Seq<char> {
    json::text_of(v, "file"@, "?"@) + ":"@ + text::decimal(json::natural_of(v, "line"@) as nat)
}

/// The first references as they are shown in a summary.
pub open spec fn preview_lines(items: Seq<JsonValue>) -> Seq<Seq<char>> {
    Seq::new(
        if items.len() < 5 {
            items.len()
        } else {
            5
        },
        |i: int| preview_line(items[i]),
    )
}

/// A summary of an answer.
pub open spec fn references_summary(success: bool, value: JsonValue) -> Seq<char> {
    let count = json::natural_of(value, "reference_count"@);
    let head = "Found "@ + text::decimal(count as nat) + " references"@;
    if !success {
        "Error: "@ + json::json_text(value)
    } else if count == 0 {
        "No references found"@
    } else {
        match value.field("references"@) {
            Some(v) => match v.items() {
                Some(items) => head + ":\n"@ + text::join(preview_lines(items), "\n"@),
                None => head,
            },
            None => head,
        }
    }
}

/// A summary tells how many references there are and where the first of them stand; one of a failure
/// tells the failure.
pub proof fn law_references_summary_shows_the_first(
    value: JsonValue,
    n: u64,
    items: Seq<JsonValue>,
    i: int,
    file: Seq<char>,
    line: u64,
)
    requires
        value.field("reference_count"@) == Some(json::natural_value(n as nat)),
        value.field("references"@) == Some(JsonValue::Array(items)),
        0 <= i < items.len(),
        i < 5,
        items[i].field("file"@) == Some(JsonValue::String(file)),
        items[i].field("line"@) == Some(json::natural_value(line as nat)),
    ensures
        n == 0 ==> references_summary(true, value) == "No references found"@,
        n > 0 ==> exists|lines: Seq<Seq<char>>|
            references_summary(true, value) == "Found "@ + text::decimal(n as nat)
                + " references"@ + ":\n"@ + #[trigger] text::join(lines, "\n"@) && lines.len() == (
            if items.len() < 5 {
                items.len()
            } else {
                5
            }) && lines[i] == file + ":"@ + text::decimal(line as nat),
        references_summary(false, value) == "Error: "@ + json::json_text(value),
{
    let lines = preview_lines(items);
    assert(lines[i] == preview_line(items[i]));
    if n > 0 {
        assert(references_summary(true, value) == "Found "@ + text::decimal(n as nat)
            + " references"@ + ":\n"@ + text::join(lines, "\n"@));
    }
}

/// An answer that lists fewer references than it may lists every line of ASCII text in which the
/// symbol, a word of ASCII characters, stands with no letter, digit or underscore on either side, of
/// each file that is asked for.
pub proof fn law_every_use_is_listed(
    call: ToolCall,
    project: Seq<char>,
    target: SearchTarget,
    value: JsonValue,
    f: int,
    i: int,
    p: int,
)
    requires
        references_outcome(
            call,
            project,
            target,
            None,
            target_hits(query_of(call, project), target),
        ) == Outcome::Answers(protocol::succeeded(value)),
        listed_references(value).len() < query_of(call, project).max,
        0 <= f < target_files(target).len(),
        0 <= i < target_files(target)[f].lines.len(),
        ({
            let symbol = call.text_argument("symbol"@)->0;
            match target_files(target)[f].lines[i] {
                Some(line) => {
                    &&& patterns::is_word(symbol)
                    &&& vstd::utf8::is_ascii_chars(line)
                    &&& 0 <= p && p + symbol.len() <= line.len()
                    &&& line.subrange(p, p + symbol.len()) == symbol
                    &&& p > 0 ==> !patterns::is_word_char(line[p - 1])
                    &&& p + symbol.len() < line.len() ==> !patterns::is_word_char(
                        line[p + symbol.len()],
                    )
                },
                None => false,
            }
        }),
        target is File || (match call.text_argument("file_pattern"@) {
            Some(g) => glob_fits(target_files(target)[f].file_name, g) || glob_fits(
                files::shown_path(target_files(target)[f].path, project),
                g,
            ),
            None => true,
        }),
    ensures
        exists|k: int|
            0 <= k < listed_references(value).len() && #[trigger] names_line(
                listed_references(value)[k],
                call.text_argument("symbol"@)->0,
                target_files(target)[f],
                project,
                i,
            ),
{
    let symbol = call.text_argument("symbol"@)->0;
    let hits = target_hits(query_of(call, project), target);
    let file = target_files(target)[f];
    law_whole_words_match(symbol, file.lines, i);
    assert(hits[f] == line_hits(symbol, file.lines));
    law_every_match_is_listed(call, project, target, hits, value, f, i);
}

/// A search looks for the symbol of the call, from the project's directory on unless another path is
/// named, in the files that fit the pattern if one is given, and for as many places as are asked for.
pub proof fn law_search_is_for_what_was_asked(
    r: AgentResult<ReferenceSearch>,
    call: ToolCall,
    project: Seq<char>,
)
    requires
        is_started(r, call, project, None),
        call.arguments@.contains_key("symbol"@),
    ensures
        match r {
            Ok(search) => {
                let query = search.query();
                &&& search.found@.len() == 0
                &&& Some(query.symbol) == call.text_argument("symbol"@)
                    || call.text_argument("symbol"@) is None
                &&& match call.text_argument("path"@) {
                    Some(path) => query.search_path == path,
                    None => query.search_path == "."@,
                }
                &&& query.file_pattern == call.text_argument("file_pattern"@)
                &&& query.project == project
                &&& match call.integer_argument("max_results"@) {
                    Some(n) => n <= 1 ==> query.max == 1,
                    None => query.max == 100,
                }
            },
            Err(_) => false,
        },
{
    let parameters = references_definition().parameters;
    let given = call.arguments@.dom();
    if protocol::first_missing(parameters, given) is Some {
        protocol::law_first_missing_is_named(parameters, given);
    }
    assert(parameters[0].name == "symbol"@);
}

impl BuiltinTool for FindReferencesTool {
    open spec fn defined(&self) -> DefinitionSpec {
        references_definition()
    }

    fn definition(&self) -> (r: ToolDefinition) {
        let r = ToolDefinition::new("find_references").description(
            "Find references to a symbol (function, variable, type, etc.) across the codebase using word-boundary matching. Returns file paths, line numbers, and the matching line content. Useful for locating usages and call sites.",
        ).parameter(
            ToolParameter::string("symbol").description(
                "Symbol name to find references for (exact word match)",
            ).required(true),
        ).parameter(
            ToolParameter::string("path").description(
                "Directory or file to search in (relative to project root, default: \".\")",
            ),
        ).parameter(
            ToolParameter::string("file_pattern").description(
                "Glob pattern to filter files (e.g., \"*.rs\", \"*.ts\")",
            ),
        ).parameter(
            ToolParameter::integer("max_results").description(
                "Maximum number of references to return (default: 100)",
            ),
        );
        assert(r.spec().parameters =~= references_definition().parameters);
        r
    }

    open spec fn cacheable(&self) -> bool {
        true
    }

    fn is_cacheable(&self) -> (r: bool) {
        true
    }

    open spec fn key_of(&self, call: ToolCall) -> Seq<char> {
        tool::call_key(call)
    }

    fn cache_key(&self, call: &ToolCall) -> (r: String) {
        tool::cache_key(call)
    }

    open spec fn objection(&self, call: ToolCall) -> Option<ErrorSpec> {
        protocol::parameter_objection(self.defined(), call)
    }

    fn validate_arguments(&self, call: &ToolCall) -> (r: AgentResult<()>) {
        let definition = self.definition();
        protocol::validate_arguments(&definition, call)
    }
}

impl FindReferencesTool {
    /// Answers a call, given the files that it may search. A regular expression that is not taken
    /// is an error, whatever the files; one that is plainly taken never is.
    pub fn execute(&self, call: &ToolCall, project: &str, target: &SearchTarget) -> (r: AgentResult<
        ToolResult,
    >)
        requires
            call.arguments@.contains_key("symbol"@) ==> call.text_argument("symbol"@) is Some,
        ensures
            ({
                let query = query_of(*call, project@);
                let hits = target_hits(query, *target);
                ||| protocol::is_outcome(
                    r,
                    references_outcome(*call, project@, *target, None, hits),
                )
                ||| !patterns::plainly_taken(symbol_pattern(query.symbol))
                    && exists|reason: Seq<char>|
                    protocol::is_outcome(
                        r,
                        #[trigger] references_outcome(*call, project@, *target, Some(reason), hits),
                    )
            }),
    {
        let ghost query = query_of(*call, project@);
        let none: Vec<Vec<bool>> = Vec::new();
        let compiled = compile_call(call);
        let (compiled, hits) = match ReferenceSearch::start(call, project, &compiled) {
            Ok(search) => match match_target(&search, target) {
                Ok(hits) => (compiled, hits),
                Err(reason) => (Err(reason), none),
            },
            Err(_) => (compiled, none),
        };
        let r = references(call, project, target, &compiled, &hits);
        proof {
            let expected = target_hits(query, *target);
            match refusal(compiled) {
                Some(reason) => {
                    assert(references_outcome(
                        *call,
                        project@,
                        *target,
                        Some(reason),
                        hit_views(hits@),
                    ) == references_outcome(*call, project@, *target, Some(reason), expected));
                },
                None => {},
            }
        }
        r
    }

    /// Sums an answer up.
    pub fn summarize_result(&self, result: &ToolResult) -> (r: String)
        ensures
            r@ == references_summary(result.success, result.value.model()),
    {
        if !result.success {
            let mut r = "Error: ".to_owned();
            let m = json::compact(&result.value);
            r.append(m.as_str());
            return r;
        }
        let count: u64 = json::natural_field(&result.value, "reference_count");
        if count == 0 {
            return "No references found".to_owned();
        }
        let mut r = "Found ".to_owned();
        let n = text::decimal_text(count);
        r.append(n.as_str());
        r.append(" references");
        match result.value.field("references") {
            Some(j) => match j.as_array() {
                Some(items) => {
                    let preview = previews(items);
                    let shown = text::join_texts(&preview, "\n");
                    r.append(":\n");
                    r.append(shown.as_str());
                    r
                },
                None => r,
            },
            None => r,
        }
    }
}

fn previews(items: &Vec<Json>) -> (v: Vec<String>)
    ensures
        text::views(v@) == preview_lines(json::models(items@)),
{
    let ghost all = json::models(items@);
    let n: usize = if items.len() < 5 {
        items.len()
    } else {
        5
    };
    let mut v: Vec<String> = Vec::new();
    let mut i: usize = 0;
    assert(text::views(v@) =~= preview_lines(all).take(0));
    while i < n
        invariant
            i <= n <= items@.len(),
            all == json::models(items@),
            preview_lines(all).len() == n,
            text::views(v@) == preview_lines(all).take(i as int),
        decreases n - i,
    {
        let ghost before = text::views(v@);
        let mut line = json::text_field(&items[i], "file", "?");
        line.append(":");
        let number: u64 = json::natural_field(&items[i], "line");
        let t = text::decimal_text(number);
        line.append(t.as_str());
        assert(line@ =~= preview_line(all[i as int]));
        v.push(line);
        i += 1;
        assert(text::views(v@) =~= before.push(preview_line(all[i - 1])));
        assert(text::views(v@) =~= preview_lines(all).take(i as int));
    }
    assert(preview_lines(all).take(n as int) =~= preview_lines(all));
    v
}

} // verus!
