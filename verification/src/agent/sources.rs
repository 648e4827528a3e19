//! The places in the code that results of tools speak of.

use vstd::prelude::*;
use vstd::string::*;

use crate::agent::json;
use crate::agent::json::{Json, JsonNumber, JsonValue, NumberValue};
use crate::agent::protocol;
use crate::agent::protocol::{ResultSpec, ToolResult};
use crate::agent::types;
use crate::agent::types::{AgentStep, SourceReference, StepSpec};
use crate::paths;
use crate::vector_store;

verus! {

/// A place in the code, with the number that says how relevant it is.
pub struct FoundSource {
    pub file_path: String,
    pub line_start: usize,
    pub line_end: usize,
    pub symbol_name: Option<String>,
    pub score: Option<JsonNumber>,
}

/// A place in the code.
pub struct SourceSpec {
    pub file: Seq<char>,
    pub line_start: usize,
    pub line_end: usize,
    pub symbol: Option<Seq<char>>,
    pub score: Option<NumberValue>,
}

impl FoundSource {
    /// What the place is.
    pub open spec fn spec(&self) -> SourceSpec {
        SourceSpec {
            file: self.file_path@,
            line_start: self.line_start,
            line_end: self.line_end,
            symbol: paths::opt_view(self.symbol_name),
            score: match self.score {
                Some(n) => Some(n.model()),
                None => None,
            },
        }
    }
}

/// What places are.
pub open spec fn source_specs(v: Seq<FoundSource>) -> Seq<SourceSpec> {
    Seq::new(v.len(), |i: int| v[i].spec())
}

/// The value of the first of two fields that is there.
pub open spec fn either(v: JsonValue, first: Seq<char>, second: Seq<char>) -> Option<JsonValue> {
    match v.field(first) {
        Some(f) => Some(f),
        None => v.field(second),
    }
}

/// The natural number that an optional value is, as a line.
pub open spec fn line_of(v: Option<JsonValue>, default: usize) -> usize {
    match v {
        Some(f) => match f.as_natural() {
            Some(n) => n as usize,
            None => default,
        },
        None => default,
    }
}

/// The place that an object names, if it names a file. Its last line is not before its first.
pub open spec fn source_of(v: JsonValue) -> Option<SourceSpec> {
    match either(v, "file"@, "file_path"@) {
        Some(f) => match f.as_text() {
            Some(file) => {
                let line_start = line_of(either(v, "start_line"@, "line"@), 0);
                let line_end = line_of(v.field("end_line"@), line_start);
                Some(
                    SourceSpec {
                        file,
                        line_start,
                        line_end: if line_end >= line_start {
                            line_end
                        } else {
                            line_start
                        },
                        symbol: match either(v, "symbol"@, "symbol_name"@) {
                            Some(s) => s.as_text(),
                            None => None,
                        },
                        score: match either(v, "score"@, "relevance"@) {
                            Some(JsonValue::Number(n)) => Some(n),
                            _ => None,
                        },
                    },
                )
            },
            None => None,
        },
        None => None,
    }
}

/// The places that the objects among the first `n` items name.
pub open spec fn item_sources(items: Seq<JsonValue>, n: nat) -> Seq<SourceSpec>
    decreases n,
{
    if n == 0 {
        Seq::empty()
    } else {
        let front = item_sources(items, (n - 1) as nat);
        match items[n - 1] {
            JsonValue::Object(_) => match source_of(items[n - 1]) {
                Some(s) => front.push(s),
                None => front,
            },
            _ => front,
        }
    }
}

/// The places that the items in a field of an object name.
pub open spec fn field_sources(v: JsonValue, key: Seq<char>) -> Seq<SourceSpec> {
    match v.field(key) {
        Some(f) => match f.items() {
            Some(items) => item_sources(items, items.len()),
            None => Seq::empty(),
        },
        None => Seq::empty(),
    }
}

/// The place that an object names itself.
pub open spec fn own_source(v: JsonValue) -> Seq<SourceSpec> {
    match source_of(v) {
        Some(s) => seq![s],
        None => Seq::empty(),
    }
}

/// The places that a value names: an object itself and by its lists of results, matches, files and
/// items; an array by everything in it.
pub open spec fn value_sources(v: JsonValue) -> Seq<SourceSpec>
    decreases v,
{
    match v {
        JsonValue::Object(_) => own_source(v) + field_sources(v, "results"@) + field_sources(
            v,
            "matches"@,
        ) + field_sources(v, "files"@) + field_sources(v, "items"@),
        JsonValue::Array(items) => array_sources(items),
        _ => Seq::empty(),
    }
}

/// The places that values name.
pub open spec fn array_sources(items: Seq<JsonValue>) -> Seq<SourceSpec>
    decreases items,
{
    if items.len() == 0 {
        Seq::empty()
    } else {
        array_sources(items.subrange(0, items.len() - 1)) + value_sources(items[items.len() - 1])
    }
}

/// The places that the successes among the first `n` results name.
pub open spec fn result_sources(results: Seq<ResultSpec>, n: nat) -> Seq<SourceSpec>
    decreases n,
{
    if n == 0 {
        Seq::empty()
    } else {
        let front = result_sources(results, (n - 1) as nat);
        if results[n - 1].success {
            front + value_sources(results[n - 1].value)
        } else {
            front
        }
    }
}

/// The places that the results of the first `n` steps name.
pub open spec fn step_sources(steps: Seq<StepSpec>, n: nat) -> Seq<SourceSpec>
    decreases n,
{
    if n == 0 {
        Seq::empty()
    } else {
        step_sources(steps, (n - 1) as nat) + result_sources(
            steps[n - 1].results,
            steps[n - 1].results.len(),
        )
    }
}

/// An object that names a file by a field `file`, or, without one, by a field `file_path`, names a
/// place in it: from the line in `start_line`, else in `line`, up to the line in `end_line`, but never
/// to one before the first; with the symbol in `symbol`, else in `symbol_name`.
pub proof fn law_object_names_its_place(v: JsonValue, file: Seq<char>)
    requires
        v.field("file"@) == Some(JsonValue::String(file)) || (v.field("file"@) is None && v.field(
            "file_path"@,
        ) == Some(JsonValue::String(file))),
    ensures
        source_of(v) is Some,
        ({
            let s = source_of(v)->0;
            &&& s.file == file
            &&& s.line_start <= s.line_end
            &&& (match (v.field("start_line"@), v.field("line"@)) {
                (Some(JsonValue::Number(NumberValue::Unsigned(n))), _) => s.line_start == n as usize,
                (None, Some(JsonValue::Number(NumberValue::Unsigned(n)))) => s.line_start
                    == n as usize,
                _ => s.line_start == 0,
            })
            &&& (match v.field("end_line"@) {
                Some(JsonValue::Number(NumberValue::Unsigned(n))) => s.line_end == n as usize
                    || s.line_end == s.line_start && (n as usize) < s.line_start,
                _ => s.line_end == s.line_start,
            })
            &&& (match (v.field("symbol"@), v.field("symbol_name"@)) {
                (Some(JsonValue::String(name)), _) => s.symbol == Some(name),
                (None, Some(JsonValue::String(name))) => s.symbol == Some(name),
                _ => s.symbol is None,
            })
            &&& (match (v.field("score"@), v.field("relevance"@)) {
                (Some(JsonValue::Number(n)), _) => s.score == Some(n),
                (None, Some(JsonValue::Number(n))) => s.score == Some(n),
                _ => s.score is None,
            })
        }),
{
}

/// A value names no place unless it names a file by a text.
pub proof fn law_no_place_without_a_file(v: JsonValue)
    requires
        match v.field("file"@) {
            Some(f) => !(f is String),
            None => match v.field("file_path"@) {
                Some(f) => !(f is String),
                None => true,
            },
        },
    ensures
        source_of(v) is None,
{
}

proof fn lemma_item_sources(items: Seq<JsonValue>, n: nat, i: int)
    requires
        0 <= i < n <= items.len(),
        items[i] is Object,
        source_of(items[i]) is Some,
    ensures
        item_sources(items, n).contains(source_of(items[i])->0),
    decreases n,
{
    let s = source_of(items[i])->0;
    let front = item_sources(items, (n - 1) as nat);
    let all = item_sources(items, n);
    if i < n - 1 {
        lemma_item_sources(items, (n - 1) as nat, i);
        let k = choose|k: int| 0 <= k < front.len() && front[k] == s;
        assert(all[k] == s);
    } else {
        assert(all.last() == s);
    }
}

/// An object names its own place, and the places of the objects in its lists of results, matches,
/// files and items.
pub proof fn law_listed_places_are_found(v: JsonValue, key: Seq<char>, items: Seq<JsonValue>, i: int)
    requires
        v is Object,
        key == "results"@ || key == "matches"@ || key == "files"@ || key == "items"@,
        v.field(key) == Some(JsonValue::Array(items)),
        0 <= i < items.len(),
        items[i] is Object,
    ensures
        source_of(items[i]) matches Some(s) ==> value_sources(v).contains(s),
        source_of(v) matches Some(s) ==> value_sources(v).contains(s),
{
    let o = own_source(v);
    let a = field_sources(v, "results"@);
    let b = field_sources(v, "matches"@);
    let c = field_sources(v, "files"@);
    let d = field_sources(v, "items"@);
    let all = value_sources(v);
    assert(all == o + a + b + c + d);
    if let Some(s) = source_of(v) {
        assert(all[0] == s);
    }
    if let Some(s) = source_of(items[i]) {
        lemma_item_sources(items, items.len(), i);
        let part = field_sources(v, key);
        let k = choose|k: int| 0 <= k < part.len() && part[k] == s;
        if key == "results"@ {
            assert(all[o.len() + k] == s);
        } else if key == "matches"@ {
            assert(all[o.len() + a.len() + k] == s);
        } else if key == "files"@ {
            assert(all[o.len() + a.len() + b.len() + k] == s);
        } else {
            assert(all[o.len() + a.len() + b.len() + c.len() + k] == s);
        }
    }
}

/// An array names whatever the values in it name.
pub proof fn law_arrays_name_what_is_in_them(items: Seq<JsonValue>, i: int, s: SourceSpec)
    requires
        0 <= i < items.len(),
        value_sources(items[i]).contains(s),
    ensures
        value_sources(JsonValue::Array(items)).contains(s),
    decreases items.len(),
{
    let front = items.subrange(0, items.len() - 1);
    let last = value_sources(items[items.len() - 1]);
    let all = array_sources(items);
    let before = array_sources(front);
    assert(all == before + last);
    if i == items.len() - 1 {
        let k = choose|k: int| 0 <= k < last.len() && last[k] == s;
        assert(all[before.len() + k] == s);
    } else {
        law_arrays_name_what_is_in_them(front, i, s);
        let k = choose|k: int| 0 <= k < before.len() && before[k] == s;
        assert(all[k] == s);
    }
}

/// Every place that a success of a step names is found.
pub proof fn law_successes_name_their_places(
    steps: Seq<StepSpec>,
    n: nat,
    i: int,
    j: int,
    s: SourceSpec,
)
    requires
        0 <= i < n <= steps.len(),
        0 <= j < steps[i].results.len(),
        steps[i].results[j].success,
        value_sources(steps[i].results[j].value).contains(s),
    ensures
        step_sources(steps, n).contains(s),
    decreases n,
{
    let before = step_sources(steps, (n - 1) as nat);
    let all = step_sources(steps, n);
    let results = steps[n - 1].results;
    let part = result_sources(results, results.len());
    assert(all == before + part);
    if i < n - 1 {
        law_successes_name_their_places(steps, (n - 1) as nat, i, j, s);
        let k = choose|k: int| 0 <= k < before.len() && before[k] == s;
        assert(all[k] == s);
    } else {
        lemma_result_sources(results, results.len(), j, s);
        let k = choose|k: int| 0 <= k < part.len() && part[k] == s;
        assert(all[before.len() + k] == s);
    }
}

proof fn lemma_result_sources(results: Seq<ResultSpec>, n: nat, j: int, s: SourceSpec)
    requires
        0 <= j < n <= results.len(),
        results[j].success,
        value_sources(results[j].value).contains(s),
    ensures
        result_sources(results, n).contains(s),
    decreases n,
{
    let front = result_sources(results, (n - 1) as nat);
    let all = result_sources(results, n);
    if j < n - 1 {
        lemma_result_sources(results, (n - 1) as nat, j, s);
        let k = choose|k: int| 0 <= k < front.len() && front[k] == s;
        assert(all[k] == s);
    } else {
        let last = value_sources(results[j].value);
        let k = choose|k: int| 0 <= k < last.len() && last[k] == s;
        assert(all[front.len() + k] == s);
    }
}

/// Failures name no places.
pub proof fn law_failures_name_nothing(results: Seq<ResultSpec>, n: nat)
    requires
        n <= results.len(),
        forall|i: int| 0 <= i < results.len() ==> !(#[trigger] results[i]).success,
    ensures
        result_sources(results, n).len() == 0,
    decreases n,
{
    if n > 0 {
        law_failures_name_nothing(results, (n - 1) as nat);
        assert(!results[n - 1].success);
    }
}

fn either_field<'a>(v: &'a Json, first: &str, second: &str) -> (r: Option<&'a Json>)
    ensures
        json::opt_model(r) == either(v.model(), first@, second@),
{
    match v.field(first) {
        Some(f) => Some(f),
        None => v.field(second),
    }
}

fn line_in(v: Option<&Json>, default: usize) -> (n: usize)
    ensures
        n == line_of(json::opt_model(v), default),
{
    match v {
        Some(f) => match f.as_u64() {
            Some(n) => n as usize,
            None => default,
        },
        None => default,
    }
}

/// Finds the place that an object names.
pub fn source_from_object(v: &Json) -> (r: Option<FoundSource>)
    ensures
        match r {
            Some(s) => source_of(v.model()) == Some(s.spec()),
            None => source_of(v.model()) is None,
        },
{
    let file_path: String = match either_field(v, "file", "file_path") {
        Some(f) => match f.as_str() {
            Some(s) => s.to_owned(),
            None => {
                return None;
            },
        },
        None => {
            return None;
        },
    };
    let line_start: usize = line_in(either_field(v, "start_line", "line"), 0);
    let line_end: usize = line_in(v.field("end_line"), line_start);
    let symbol_name = match either_field(v, "symbol", "symbol_name") {
        Some(f) => match f.as_str() {
            Some(s) => Some(s.to_owned()),
            None => None,
        },
        None => None,
    };
    let score = match either_field(v, "score", "relevance") {
        Some(Json::Number(n)) => Some(n.clone()),
        _ => None,
    };
    Some(
        FoundSource {
            file_path,
            line_start,
            line_end: if line_end >= line_start {
                line_end
            } else {
                line_start
            },
            symbol_name,
            score,
        },
    )
}

fn push_source(out: &mut Vec<FoundSource>, s: FoundSource)
    ensures
        source_specs(final(out)@) == source_specs(old(out)@).push(s.spec()),
{
    let ghost before = source_specs(out@);
    out.push(s);
    assert(source_specs(out@) =~= before.push(s.spec()));
}

fn collect_items(items: &Vec<Json>, out: &mut Vec<FoundSource>)
    ensures
        source_specs(final(out)@) == source_specs(old(out)@) + item_sources(
            json::models(items@),
            items@.len(),
        ),
{
    let ghost before = source_specs(out@);
    let ghost all = json::models(items@);
    let mut i: usize = 0;
    assert(before + Seq::<SourceSpec>::empty() =~= before);
    while i < items.len()
        invariant
            i <= items@.len(),
            all == json::models(items@),
            source_specs(out@) == before + item_sources(all, i as nat),
        decreases items@.len() - i,
    {
        assert(all[i as int] == items@[i as int].model());
        match &items[i] {
            Json::Object(_) => {
                match source_from_object(&items[i]) {
                    Some(s) => {
                        push_source(out, s);
                    },
                    None => {},
                }
            },
            _ => {},
        }
        i += 1;
        assert(source_specs(out@) =~= before + item_sources(all, i as nat));
    }
}

fn collect_field(v: &Json, key: &str, out: &mut Vec<FoundSource>)
    ensures
        source_specs(final(out)@) == source_specs(old(out)@) + field_sources(v.model(), key@),
{
    let ghost before = source_specs(out@);
    assert(before + Seq::<SourceSpec>::empty() =~= before);
    match v.field(key) {
        Some(f) => match f.as_array() {
            Some(items) => {
                collect_items(items, out);
            },
            None => {},
        },
        None => {},
    }
}

/// Collects the places that a value names.
pub fn collect_source_from_value(value: &Json, out: &mut Vec<FoundSource>)
    ensures
        source_specs(final(out)@) == source_specs(old(out)@) + value_sources(value.model()),
    decreases value,
{
    let ghost before = source_specs(out@);
    assert(before + Seq::<SourceSpec>::empty() =~= before);
    match value {
        Json::Object(_) => {
            let ghost v = value.model();
            match source_from_object(value) {
                Some(s) => {
                    push_source(out, s);
                    assert(source_specs(out@) =~= before + own_source(v));
                },
                None => {
                    assert(source_specs(out@) =~= before + own_source(v));
                },
            }
            collect_field(value, "results", out);
            collect_field(value, "matches", out);
            collect_field(value, "files", out);
            collect_field(value, "items", out);
            assert(source_specs(out@) =~= before + value_sources(v));
        },
        Json::Array(items) => {
            proof {
                Json::lemma_array_model(*items);
            }
            let ghost all = json::models(items@);
            let mut i: usize = 0;
            assert(all.subrange(0, 0) =~= Seq::empty());
            while i < items.len()
                invariant
                    i <= items@.len(),
                    *value == Json::Array(*items),
                    all == json::models(items@),
                    source_specs(out@) == before + array_sources(all.subrange(0, i as int)),
                decreases items@.len() - i,
            {
                proof {
                    assert(decreases_to!(items@ => items@[i as int]));
                    assert(decreases_to!(items => items@));
                    assert(decreases_to!(*value => value->Array_0));
                    let next = all.subrange(0, i + 1);
                    assert(next.subrange(0, next.len() - 1) =~= all.subrange(0, i as int));
                    assert(next[next.len() - 1] == items@[i as int].model());
                }
                collect_source_from_value(&items[i], out);
                i += 1;
                assert(source_specs(out@) =~= before + array_sources(all.subrange(0, i as int)));
            }
            assert(all.subrange(0, all.len() as int) =~= all);
        },
        _ => {},
    }
}

fn collect_results(results: &Vec<ToolResult>, out: &mut Vec<FoundSource>)
    ensures
        source_specs(final(out)@) == source_specs(old(out)@) + result_sources(
            protocol::result_specs(results@),
            results@.len(),
        ),
{
    let ghost before = source_specs(out@);
    let ghost all = protocol::result_specs(results@);
    let mut i: usize = 0;
    assert(before + Seq::<SourceSpec>::empty() =~= before);
    while i < results.len()
        invariant
            i <= results@.len(),
            all == protocol::result_specs(results@),
            source_specs(out@) == before + result_sources(all, i as nat),
        decreases results@.len() - i,
    {
        assert(all[i as int] == results@[i as int].spec());
        if results[i].success {
            collect_source_from_value(&results[i].value, out);
        }
        i += 1;
        assert(source_specs(out@) =~= before + result_sources(all, i as nat));
    }
}

/// Finds the places that the results of steps name, in the order in which they are named.
pub fn find_sources(steps: &Vec<AgentStep>) -> (r: Vec<FoundSource>)
    ensures
        source_specs(r@) == step_sources(types::step_specs(steps@), steps@.len()),
{
    let ghost all = types::step_specs(steps@);
    let mut r: Vec<FoundSource> = Vec::new();
    let mut i: usize = 0;
    assert(source_specs(r@) =~= Seq::empty());
    while i < steps.len()
        invariant
            i <= steps@.len(),
            all == types::step_specs(steps@),
            source_specs(r@) == step_sources(all, i as nat),
        decreases steps@.len() - i,
    {
        assert(all[i as int] == steps@[i as int].spec());
        assert(steps@[i as int].spec().results.len() == steps@[i as int].tool_results@.len());
        collect_results(&steps[i].tool_results, &mut r);
        i += 1;
    }
    r
}

/// A place with its relevance, given by the bits of a floating-point number.
pub struct RankedSource {
    pub file: Seq<char>,
    pub line_start: usize,
    pub line_end: usize,
    pub symbol: Option<Seq<char>>,
    pub relevance: u32,
}

/// What a reference says.
pub open spec fn reference_spec(s: SourceReference) -> RankedSource {
    RankedSource {
        file: s.file_path@,
        line_start: s.line_start,
        line_end: s.line_end,
        symbol: paths::opt_view(s.symbol_name),
        relevance: s.relevance,
    }
}

/// What references say.
pub open spec fn reference_specs(v: Seq<SourceReference>) -> Seq<RankedSource> {
    Seq::new(v.len(), |i: int| reference_spec(v[i]))
}

/// Copies references.
pub fn copy_references(v: &Vec<SourceReference>) -> (r: Vec<SourceReference>)
    ensures
        reference_specs(r@) == reference_specs(v@),
{
    let ghost all = reference_specs(v@);
    let mut r: Vec<SourceReference> = Vec::new();
    let mut i: usize = 0;
    assert(reference_specs(r@) =~= all.take(0));
    while i < v.len()
        invariant
            i <= v@.len(),
            all == reference_specs(v@),
            reference_specs(r@) == all.take(i as int),
        decreases v@.len() - i,
    {
        let s = &v[i];
        let ghost before = reference_specs(r@);
        let copy = SourceReference {
            file_path: s.file_path.clone(),
            line_start: s.line_start,
            line_end: s.line_end,
            symbol_name: s.symbol_name.clone(),
            relevance: s.relevance,
        };
        r.push(copy);
        i += 1;
        assert(reference_specs(r@) =~= before.push(reference_spec(copy)));
        assert(all.take(i as int) =~= all.take(i - 1).push(all[i - 1]));
    }
    assert(all.take(all.len() as int) =~= all);
    r
}

/// A place with a relevance.
pub open spec fn with_relevance(s: SourceSpec, relevance: u32) -> RankedSource {
    RankedSource {
        file: s.file,
        line_start: s.line_start,
        line_end: s.line_end,
        symbol: s.symbol,
        relevance,
    }
}

/// The places with one more behind every place that is at least as relevant.
pub open spec fn placed(list: Seq<RankedSource>, s: RankedSource) -> Seq<RankedSource>
    decreases list.len(),
{
    if list.len() == 0 || vector_store::rank(list.last().relevance) >= vector_store::rank(
        s.relevance,
    ) {
        list.push(s)
    } else {
        placed(list.drop_last(), s).push(list.last())
    }
}

/// The first `n` places by falling relevance; places of the same relevance stay in order.
pub open spec fn by_relevance(found: Seq<SourceSpec>, relevances: Seq<u32>, n: nat) -> Seq<
    RankedSource,
>
    decreases n,
{
    if n == 0 {
        Seq::empty()
    } else {
        placed(
            by_relevance(found, relevances, (n - 1) as nat),
            with_relevance(found[n - 1], relevances[n - 1]),
        )
    }
}

/// No place is followed by a more relevant one.
pub open spec fn falling(list: Seq<RankedSource>) -> bool {
    forall|i: int, j: int|
        0 <= i < j < list.len() ==> vector_store::rank((#[trigger] list[i]).relevance)
            >= vector_store::rank((#[trigger] list[j]).relevance)
}

proof fn lemma_placed(list: Seq<RankedSource>, s: RankedSource)
    requires
        falling(list),
    ensures
        falling(placed(list, s)),
        placed(list, s).len() == list.len() + 1,
        placed(list, s).to_multiset() == list.to_multiset().insert(s),
        forall|i: int|
            0 <= i < placed(list, s).len() ==> vector_store::rank(
                (#[trigger] placed(list, s)[i]).relevance,
            ) >= vector_store::rank(s.relevance) || vector_store::rank(placed(list, s)[i].relevance)
                >= vector_store::rank(list.last().relevance),
    decreases list.len(),
{
    broadcast use vstd::seq_lib::group_to_multiset_ensures;

    if list.len() > 0 && vector_store::rank(list.last().relevance) < vector_store::rank(
        s.relevance,
    ) {
        let front = list.drop_last();
        lemma_placed(front, s);
        let f = placed(front, s);
        assert(list =~= front.push(list.last()));
        assert(placed(list, s).to_multiset() =~= list.to_multiset().insert(s));
        assert forall|i: int, j: int|
            0 <= i < j < placed(list, s).len() implies vector_store::rank(
            (#[trigger] placed(list, s)[i]).relevance,
        ) >= vector_store::rank((#[trigger] placed(list, s)[j]).relevance) by {
            if j == f.len() {
                assert(placed(list, s)[i] == f[i]);
                if front.len() > 0 {
                    assert(list[front.len() - 1] == front.last());
                    assert(list[front.len() as int] == list.last());
                }
            }
        }
    }
}

/// The places come by falling relevance, as many as were found.
pub proof fn law_sources_come_by_relevance(found: Seq<SourceSpec>, relevances: Seq<u32>, n: nat)
    requires
        n <= found.len(),
        n <= relevances.len(),
    ensures
        falling(by_relevance(found, relevances, n)),
        by_relevance(found, relevances, n).len() == n,
    decreases n,
{
    if n > 0 {
        law_sources_come_by_relevance(found, relevances, (n - 1) as nat);
        lemma_placed(
            by_relevance(found, relevances, (n - 1) as nat),
            with_relevance(found[n - 1], relevances[n - 1]),
        );
    }
}

/// Ordering places loses none and changes none: each is there with its file, its lines, its symbol
/// and its own relevance, as often as it was found.
pub proof fn law_every_place_is_kept(found: Seq<SourceSpec>, relevances: Seq<u32>, n: nat)
    requires
        n <= found.len(),
        n <= relevances.len(),
    ensures
        by_relevance(found, relevances, n).to_multiset() == Seq::new(
            n,
            |i: int|
                RankedSource {
                    file: found[i].file,
                    line_start: found[i].line_start,
                    line_end: found[i].line_end,
                    symbol: found[i].symbol,
                    relevance: relevances[i],
                },
        ).to_multiset(),
    decreases n,
{
    broadcast use vstd::seq_lib::group_to_multiset_ensures;

    let plain = |m: nat|
        Seq::new(
            m,
            |i: int|
                RankedSource {
                    file: found[i].file,
                    line_start: found[i].line_start,
                    line_end: found[i].line_end,
                    symbol: found[i].symbol,
                    relevance: relevances[i],
                },
        );
    if n > 0 {
        let m = (n - 1) as nat;
        law_every_place_is_kept(found, relevances, m);
        law_sources_come_by_relevance(found, relevances, m);
        lemma_placed(
            by_relevance(found, relevances, m),
            with_relevance(found[n - 1], relevances[n - 1]),
        );
        assert(plain(n) =~= plain(m).push(with_relevance(found[n - 1], relevances[n - 1])));
    } else {
        assert(plain(0) =~= by_relevance(found, relevances, 0));
    }
}

/// The more relevant of two places comes first, as floating-point numbers go.
pub proof fn law_relevant_places_come_first(
    found: Seq<SourceSpec>,
    relevances: Seq<u32>,
    n: nat,
    i: int,
    j: int,
)
    requires
        n <= found.len(),
        n <= relevances.len(),
        0 <= i < j < n,
    ensures
        by_relevance(found, relevances, n).len() == n,
        vector_store::is_no_smaller(
            by_relevance(found, relevances, n)[i].relevance,
            by_relevance(found, relevances, n)[j].relevance,
        ),
{
    law_sources_come_by_relevance(found, relevances, n);
    let list = by_relevance(found, relevances, n);
    assert(vector_store::rank(list[i].relevance) >= vector_store::rank(list[j].relevance));
}

fn place_source(list: &mut Vec<SourceReference>, s: SourceReference)
    ensures
        reference_specs(final(list)@) == placed(reference_specs(old(list)@), reference_spec(s)),
{
    let ghost before = reference_specs(list@);
    let ghost h = reference_spec(s);
    let mut i: usize = list.len();
    assert(before.take(before.len() as int) =~= before);
    assert(before.skip(before.len() as int) =~= Seq::empty());
    assert(placed(before, h) =~= placed(before.take(i as int), h) + before.skip(i as int));
    while i > 0 && vector_store::rank_of(list[i - 1].relevance) < vector_store::rank_of(s.relevance)
        invariant
            i <= list@.len(),
            reference_specs(list@) == before,
            h == reference_spec(s),
            placed(before, h) == placed(before.take(i as int), h) + before.skip(i as int),
        decreases i,
    {
        assert(before[i - 1].relevance == list@[i - 1].relevance);
        assert(before.take(i as int).drop_last() =~= before.take(i - 1));
        assert(before.take(i as int).last() == before[i - 1]);
        assert(placed(before.take(i as int), h) =~= placed(before.take(i - 1), h).push(
            before[i - 1],
        ));
        assert(placed(before.take(i - 1), h).push(before[i - 1]) + before.skip(i as int)
            =~= placed(before.take(i - 1), h) + before.skip(i - 1));
        i -= 1;
    }
    proof {
        if i > 0 {
            assert(before[i - 1].relevance == list@[i - 1].relevance);
            assert(before.take(i as int).last() == before[i - 1]);
        }
        assert(placed(before.take(i as int), h) =~= before.take(i as int).push(h));
    }
    list.insert(i, s);
    assert(reference_specs(list@) =~= before.take(i as int).push(h) + before.skip(i as int));
}

/// Orders places by falling relevance. Each relevance is a number.
pub fn order_sources(found: &Vec<FoundSource>, relevances: &Vec<u32>) -> (r: Vec<SourceReference>)
    requires
        found@.len() == relevances@.len(),
        forall|i: int| 0 <= i < relevances@.len() ==> !vector_store::is_nan(#[trigger] relevances@[i]),
    ensures
        reference_specs(r@) == by_relevance(source_specs(found@), relevances@, found@.len()),
{
    let ghost all = source_specs(found@);
    let mut r: Vec<SourceReference> = Vec::new();
    let mut i: usize = 0;
    assert(reference_specs(r@) =~= Seq::empty());
    while i < found.len()
        invariant
            i <= found@.len() == relevances@.len(),
            all == source_specs(found@),
            reference_specs(r@) == by_relevance(all, relevances@, i as nat),
        decreases found@.len() - i,
    {
        let f = &found[i];
        assert(all[i as int] == f.spec());
        let s = SourceReference {
            file_path: f.file_path.clone(),
            line_start: f.line_start,
            line_end: f.line_end,
            symbol_name: f.symbol_name.clone(),
            relevance: relevances[i],
        };
        assert(reference_spec(s) == with_relevance(all[i as int], relevances@[i as int]));
        place_source(&mut r, s);
        i += 1;
    }
    r
}

} // verus!
