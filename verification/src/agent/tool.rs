//! What all tools have in common, and the tables that hold them.

use vstd::pervasive::arbitrary;
use vstd::prelude::*;
use vstd::string::*;

use crate::agent::json;
use crate::agent::json::{Json, JsonValue};
use crate::agent::protocol::{
    AgentResult, DefinitionSpec, ErrorSpec, ParameterSpec, ToolCall, ToolDefinition, ToolResult,
};
use crate::order;
use crate::text;

verus! {

/// A tool that the agent can call.
pub trait BuiltinTool: Send + Sync {
    /// What the tool's definition says.
    open spec fn defined(&self) -> DefinitionSpec {
        arbitrary()
    }

    /// The tool's definition.
    fn definition(&self) -> (r: ToolDefinition)
        ensures
            r.spec() == self.defined(),
    ;

    /// Whether the tool's results may be kept and given again.
    open spec fn cacheable(&self) -> bool {
        arbitrary()
    }

    /// Whether the tool's results may be kept and given again.
    fn is_cacheable(&self) -> (r: bool)
        ensures
            r == self.cacheable(),
    ;

    /// The key under which the tool's answer to a call is kept.
    open spec fn key_of(&self, call: ToolCall) -> Seq<char> {
        arbitrary()
    }

    /// The key under which the tool's answer to a call is kept; [`cache_key`], unless the tool has
    /// one of its own.
    fn cache_key(&self, call: &ToolCall) -> (r: String)
        ensures
            r@ == self.key_of(*call),
    ;

    /// What speaks against the arguments of a call.
    open spec fn objection(&self, call: ToolCall) -> Option<ErrorSpec> {
        arbitrary()
    }

    /// Checks the arguments of a call; as [`protocol::validate_arguments`] does, unless the tool
    /// has a check of its own.
    fn validate_arguments(&self, call: &ToolCall) -> (r: AgentResult<()>)
        ensures
            match r {
                Ok(_) => self.objection(*call) is None,
                Err(e) => self.objection(*call) == Some(e.spec()),
            },
    ;
}

/// A value as text: a string as it is, anything else as JSON.
pub open spec fn shown(v: JsonValue) -> Seq<char> {
    match v {
        JsonValue::String(s) => s,
        _ => json::json_text(v),
    }
}

/// Writes a value as text.
pub fn value_text(j: &Json) -> (r: String)
    ensures
        r@ == shown(j.model()),
{
    match j {
        Json::String(s) => s.clone(),
        _ => json::compact(j),
    }
}

/// The text of a value can be cut to 500 bytes: it is no longer, or a character starts there.
pub open spec fn summarizable(v: JsonValue) -> bool {
    text::utf8_len(shown(v)) <= 500 || text::sliceable(shown(v), 0, 500)
}

/// A short text of a result: the error, or the first 500 bytes of the value.
pub open spec fn is_summary(summary: Seq<char>, success: bool, v: JsonValue) -> bool {
    if !success {
        summary == "Error: "@ + shown(v)
    } else if text::utf8_len(shown(v)) > 500 {
        exists|head: Seq<char>|
            vstd::utf8::encode_utf8(head) == vstd::utf8::encode_utf8(shown(v)).subrange(0, 500)
                && summary == #[trigger] (head + "... (truncated)"@)
    } else {
        summary == shown(v)
    }
}

/// A failure is summed up as an error with its text; a success as its text, cut behind 500 bytes if
/// it has more. A text stands as it is.
pub proof fn law_summary_starts_with_the_text(summary: Seq<char>, success: bool, s: Seq<char>)
    requires
        is_summary(summary, success, JsonValue::String(s)),
    ensures
        !success ==> summary == "Error: "@ + s,
        success && text::utf8_len(s) <= 500 ==> summary == s,
        success && text::utf8_len(s) > 500 ==> exists|head: Seq<char>|
            #![trigger text::utf8_len(head)]
            text::utf8_len(head) == 500 && vstd::utf8::encode_utf8(head).is_prefix_of(
                vstd::utf8::encode_utf8(s),
            ) && summary == head + "... (truncated)"@,
{
    if success && text::utf8_len(s) > 500 {
        let head = choose|head: Seq<char>|
            vstd::utf8::encode_utf8(head) == vstd::utf8::encode_utf8(s).subrange(0, 500) && summary
                == #[trigger] (head + "... (truncated)"@);
        assert(text::utf8_len(head) == 500);
        assert(vstd::utf8::encode_utf8(head) =~= vstd::utf8::encode_utf8(s).subrange(
            0,
            vstd::utf8::encode_utf8(head).len() as int,
        ));
    }
}

/// Sums up a text that a value was turned into.
pub fn summarize_text(shown_value: &str, success: bool) -> (r: String)
    requires
        success && text::utf8_len(shown_value@) > 500 ==> text::sliceable(shown_value@, 0, 500),
    ensures
        !success ==> r@ == "Error: "@ + shown_value@,
        success && text::utf8_len(shown_value@) <= 500 ==> r@ == shown_value@,
        success && text::utf8_len(shown_value@) > 500 ==> exists|head: Seq<char>|
            vstd::utf8::encode_utf8(head) == vstd::utf8::encode_utf8(shown_value@).subrange(0, 500)
                && r@ == #[trigger] (head + "... (truncated)"@),
{
    if !success {
        let mut r = "Error: ".to_owned();
        r.append(shown_value);
        return r;
    }
    if text::byte_len(shown_value) > 500 {
        match text::slice_bytes(shown_value, 0, 500) {
            Some(head) => {
                let mut r = head.clone();
                r.append("... (truncated)");
                assert(r@ == head@ + "... (truncated)"@);
                r
            },
            None => String::new(),
        }
    } else {
        shown_value.to_owned()
    }
}

/// Sums up a result, for a tool that has no way of its own to do so. `None` if the value is too
/// long and cannot be cut after 500 bytes without cutting a character.
pub fn summarize_result(result: &ToolResult) -> (r: Option<String>)
    ensures
        match r {
            Some(s) => is_summary(s@, result.success, result.value.model()),
            None => result.success && !summarizable(result.value.model()),
        },
{
    let shown_value = value_text(&result.value);
    if result.success && text::byte_len(shown_value.as_str()) > 500 {
        match text::slice_bytes(shown_value.as_str(), 0, 500) {
            Some(_) => {},
            None => {
                return None;
            },
        }
    }
    Some(summarize_text(shown_value.as_str(), result.success))
}

/// One argument of a call as text.
pub open spec fn argument_text(call: ToolCall, key: Seq<char>) -> Seq<char> {
    key + "="@ + json::json_text(call.arguments@[key].model())
}

/// The arguments of a call as texts, under the keys given.
pub open spec fn argument_texts(call: ToolCall, keys: Seq<Seq<char>>) -> Seq<Seq<char>> {
    keys.map_values(|k: Seq<char>| argument_text(call, k))
}

/// The key under which the result of a call is kept: the tool and its arguments in order.
pub open spec fn key_text(call: ToolCall, keys: Seq<Seq<char>>) -> Seq<char> {
    call.name@ + ":"@ + text::join(argument_texts(call, keys), ","@)
}

/// The key under which the result of a call is kept.
pub open spec fn call_key(call: ToolCall) -> Seq<char> {
    key_text(call, argument_names(call))
}

proof fn lemma_join_holds(parts: Seq<Seq<char>>, sep: Seq<char>, i: int)
    requires
        0 <= i < parts.len(),
    ensures
        text::occurs_in(text::join(parts, sep), parts[i]),
    decreases parts.len(),
{
    let none = Seq::<char>::empty();
    if parts.len() == 1 {
        text::lemma_part_occurs(none, parts[0], none);
        assert(none + parts[0] + none =~= parts[0]);
    } else if i == parts.len() - 1 {
        let front = text::join(parts.drop_last(), sep) + sep;
        text::lemma_part_occurs(front, parts[i], none);
        assert(front + parts[i] + none =~= text::join(parts, sep));
    } else {
        let front = text::join(parts.drop_last(), sep);
        lemma_join_holds(parts.drop_last(), sep, i);
        text::lemma_part_occurs(none, front, sep + parts.last());
        assert(none + front + (sep + parts.last()) =~= text::join(parts, sep));
        text::lemma_occurs_through(text::join(parts, sep), front, parts[i]);
    }
}

/// The key of a call names its tool first and then every argument with its value, so calls of tools
/// whose names hold no colon have different keys if the tools have different names.
pub proof fn law_key_names_tool_and_arguments(call: ToolCall, other: ToolCall, k: Seq<char>)
    requires
        call.arguments@.contains_key(k),
        order::enumerates(argument_names(call), call.arguments@.dom()),
    ensures
        (call.name@ + ":"@).is_prefix_of(call_key(call)),
        text::occurs_in(call_key(call), k + "="@ + json::json_text(call.arguments@[k].model())),
        !call.name@.contains(':') && !other.name@.contains(':') && call_key(call) == call_key(other)
            ==> call.name@ == other.name@,
{
    let names = argument_names(call);
    let texts = argument_texts(call, names);
    assert(call.arguments@.dom().contains(k));
    assert(names.contains(k));
    let i = choose|i: int| 0 <= i < names.len() && names[i] == k;
    assert(texts[i] == argument_text(call, k));
    lemma_join_holds(texts, ","@, i);
    let head = call.name@ + ":"@;
    let joined = text::join(texts, ","@);
    let none = Seq::<char>::empty();
    text::lemma_part_occurs(head, joined, none);
    assert(head + joined + none =~= call_key(call));
    text::lemma_occurs_through(call_key(call), joined, texts[i]);
    assert(call_key(call).subrange(0, head.len() as int) =~= head);
    if !call.name@.contains(':') && !other.name@.contains(':') && call_key(call) == call_key(
        other,
    ) {
        reveal_strlit(":");
        assert(":"@ =~= seq![':']);
        text::lemma_same_before_first(
            call.name@,
            joined,
            other.name@,
            text::join(argument_texts(other, argument_names(other)), ","@),
            ':',
        );
    }
}

proof fn lemma_sorted_keys<V>(
    entries: Seq<(String, V)>,
    keys: Seq<Seq<char>>,
    listed: Seq<Seq<char>>,
)
    requires
        crate::text_map::distinct_keys(entries),
        listed == entries.map_values(|e: (String, V)| e.0@),
        order::sorted(keys),
        keys.to_multiset() == listed.to_multiset(),
    ensures
        order::enumerates(keys, crate::text_map::map_of(entries).dom()),
{
    broadcast use vstd::seq_lib::group_to_multiset_ensures;

    let dom = crate::text_map::map_of(entries).dom();
    assert forall|k: Seq<char>| #[trigger] dom.contains(k) <==> keys.contains(k) by {
        if dom.contains(k) {
            let i = choose|i: int| #[trigger] crate::text_map::holds_key(entries, i, k);
            assert(listed[i] == k);
            assert(listed.contains(k));
            assert(listed.to_multiset().count(k) > 0);
            assert(keys.to_multiset().count(k) > 0);
        }
        if keys.contains(k) {
            assert(keys.to_multiset().count(k) > 0);
            assert(listed.to_multiset().count(k) > 0);
            assert(listed.contains(k));
            let i = listed.index_of(k);
            assert(crate::text_map::holds_key(entries, i, k));
        }
    }
    assert(listed.no_duplicates()) by {
        assert forall|i: int, j: int|
            0 <= i < listed.len() && 0 <= j < listed.len() && i != j implies listed[i] != listed[j] by {
            assert(entries[i].0@ == listed[i]);
            assert(entries[j].0@ == listed[j]);
        }
    }
    vstd::seq_lib::seq_to_set_is_finite(listed);
    listed.lemma_multiset_has_no_duplicates();
    keys.lemma_multiset_has_no_duplicates_conv();
    assert forall|i: int, j: int| 0 <= i < j < keys.len() implies order::before(
        #[trigger] keys[i],
        #[trigger] keys[j],
    ) by {
        order::law_before_total(keys[i], keys[j]);
        assert(!order::before(keys[j], keys[i]));
        assert(keys[i] != keys[j]);
    }
}

/// The names of the arguments of a call, in order.
pub open spec fn argument_names(call: ToolCall) -> Seq<Seq<char>> {
    choose|keys: Seq<Seq<char>>| order::enumerates(keys, call.arguments@.dom())
}

/// Lists the names of the arguments of a call in order.
pub fn sorted_names(call: &ToolCall) -> (r: Vec<String>)
    ensures
        order::enumerates(text::views(r@), call.arguments@.dom()),
        text::views(r@) == argument_names(*call),
{
    let n: usize = call.arguments.len();
    let ghost entries = call.arguments.listed();
    let ghost listed = entries.map_values(|e: (String, Json)| e.0@);
    let mut keys: Vec<String> = Vec::new();
    let mut i: usize = 0;
    while i < n
        invariant
            i <= n == entries.len(),
            entries == call.arguments.listed(),
            listed == entries.map_values(|e: (String, Json)| e.0@),
            text::views(keys@) == listed.take(i as int),
        decreases n - i,
    {
        let ghost had = text::views(keys@);
        let (k, _) = call.arguments.entry(i);
        keys.push(k.clone());
        i += 1;
        assert(text::views(keys@) =~= had.push(listed[i - 1]));
        assert(text::views(keys@) =~= listed.take(i as int));
    }
    assert(listed.take(n as int) =~= listed);
    let in_order = order::sort_texts(&keys);
    proof {
        let names = text::views(in_order@);
        lemma_sorted_keys(entries, names, listed);
        order::law_enumeration_is_unique(names, argument_names(*call), call.arguments@.dom());
    }
    in_order
}

/// The key under which the result of a call is kept.
pub fn cache_key(call: &ToolCall) -> (r: String)
    ensures
        r@ == call_key(*call),
        exists|keys: Seq<Seq<char>>| #[trigger]
            order::enumerates(keys, call.arguments@.dom()) && r@ == key_text(*call, keys),
{
    let in_order = sorted_names(call);
    let ghost names = text::views(in_order@);
    let mut parts: Vec<String> = Vec::new();
    let mut j: usize = 0;
    assert(text::views(parts@) =~= argument_texts(*call, names).take(0));
    while j < in_order.len()
        invariant
            j <= in_order@.len(),
            names == text::views(in_order@),
            order::enumerates(names, call.arguments@.dom()),
            text::views(parts@) == argument_texts(*call, names).take(j as int),
        decreases in_order@.len() - j,
    {
        let ghost had = text::views(parts@);
        let key = &in_order[j];
        assert(names[j as int] == key@);
        assert(names.contains(key@));
        assert(call.arguments@.dom().contains(key@));
        match call.arguments.get(key.as_str()) {
            Some(v) => {
                let mut part = key.clone();
                part.append("=");
                let t = json::compact(v);
                part.append(t.as_str());
                assert(part@ == argument_text(*call, key@));
                parts.push(part);
                assert(text::views(parts@) =~= had.push(argument_text(*call, key@)));
            },
            None => {},
        }
        j += 1;
        assert(text::views(parts@) =~= argument_texts(*call, names).take(j as int));
    }
    assert(argument_texts(*call, names).take(names.len() as int) =~= argument_texts(*call, names));
    let mut r = call.name.clone();
    r.append(":");
    let joined = text::join_texts(&parts, ",");
    r.append(joined.as_str());
    r
}

/// The arguments of a call as fields, in order.
pub open spec fn argument_fields(call: ToolCall) -> Seq<(Seq<char>, JsonValue)> {
    argument_names(call).map_values(|k: Seq<char>| (k, call.arguments@[k].model()))
}

/// The arguments of a call as an object.
pub fn arguments_object(call: &ToolCall) -> (r: Json)
    ensures
        r.model() == JsonValue::Object(argument_fields(*call)),
{
    let in_order = sorted_names(call);
    let ghost names = text::views(in_order@);
    let ghost all = argument_fields(*call);
    let mut fields = json::Fields::new();
    let mut j: usize = 0;
    assert(fields.model() =~= all.take(0));
    while j < in_order.len()
        invariant
            j <= in_order@.len(),
            names == text::views(in_order@),
            names == argument_names(*call),
            all == argument_fields(*call),
            order::enumerates(names, call.arguments@.dom()),
            fields.model() == all.take(j as int),
        decreases in_order@.len() - j,
    {
        let ghost had = fields.model();
        let key = &in_order[j];
        assert(names[j as int] == key@);
        assert(names.contains(key@));
        assert(call.arguments@.dom().contains(key@));
        match call.arguments.get(key.as_str()) {
            Some(v) => {
                let copy = v.clone();
                fields = fields.with(key.as_str(), copy);
                assert(fields.model() =~= had.push(all[j as int]));
            },
            None => {},
        }
        j += 1;
        assert(fields.model() =~= all.take(j as int));
    }
    assert(all.take(all.len() as int) =~= all);
    fields.object()
}

/// Two calls of one tool with the same arguments have the same key, in whatever order their
/// arguments were given.
pub proof fn law_cache_key_is_determined(
    a: ToolCall,
    b: ToolCall,
    a_keys: Seq<Seq<char>>,
    b_keys: Seq<Seq<char>>,
)
    requires
        a.name@ == b.name@,
        a.arguments@.dom() == b.arguments@.dom(),
        forall|k: Seq<char>| #[trigger]
            a.arguments@.contains_key(k) ==> a.arguments@[k].model() == b.arguments@[k].model(),
        order::enumerates(a_keys, a.arguments@.dom()),
        order::enumerates(b_keys, b.arguments@.dom()),
    ensures
        key_text(a, a_keys) == key_text(b, b_keys),
{
    order::law_enumeration_is_unique(a_keys, b_keys, a.arguments@.dom());
    assert(argument_texts(a, a_keys) =~= argument_texts(b, b_keys)) by {
        assert forall|i: int| 0 <= i < a_keys.len() implies argument_texts(a, a_keys)[i]
            == argument_texts(b, b_keys)[i] by {
            assert(a_keys.contains(a_keys[i]));
            assert(a.arguments@.dom().contains(a_keys[i]));
        }
    }
}

/// The line of a prompt for a parameter, and a second one for the values that it allows.
pub open spec fn parameter_lines(p: ParameterSpec, with_values: bool) -> Seq<char> {
    let line = "- "@ + p.name + ": "@ + p.description + (if p.required {
        " (required)"@
    } else {
        ""@
    }) + "\n"@;
    if with_values && p.enum_values.len() > 0 {
        line + ("  Allowed values: "@ + text::join(p.enum_values, ", "@) + "\n"@)
    } else {
        line
    }
}

/// The lines of a prompt for the first `n` parameters.
pub open spec fn parameters_lines(ps: Seq<ParameterSpec>, n: nat, with_values: bool) -> Seq<char>
    decreases n,
{
    if n == 0 {
        Seq::empty()
    } else {
        parameters_lines(ps, (n - 1) as nat, with_values) + parameter_lines(ps[n - 1], with_values)
    }
}

/// The part of a prompt for a tool.
pub open spec fn tool_lines(d: DefinitionSpec, with_values: bool) -> Seq<char> {
    let head = "## "@ + d.name + "\n"@ + d.description + "\n\n"@;
    if d.parameters.len() > 0 {
        head + "Parameters:\n"@ + parameters_lines(d.parameters, d.parameters.len(), with_values)
            + "\n"@
    } else {
        head
    }
}

/// The parts of a prompt for the first `n` tools.
pub open spec fn tools_lines(ds: Seq<DefinitionSpec>, n: nat, with_values: bool) -> Seq<char>
    decreases n,
{
    if n == 0 {
        Seq::empty()
    } else {
        tools_lines(ds, (n - 1) as nat, with_values) + tool_lines(ds[n - 1], with_values)
    }
}

/// How a prompt that offers tools starts.
pub open spec fn prompt_head() -> Seq<char> {
    "You have access to the following tools. To use a tool, respond with a JSON object in this format:\n{\"name\": \"tool_name\", \"arguments\": {\"param1\": \"value1\"}}\n\nAvailable tools:\n\n"@
}

/// The prompt that offers tools; nothing if there are none.
pub open spec fn tool_prompt(ds: Seq<DefinitionSpec>, with_values: bool) -> Seq<char> {
    if ds.len() == 0 {
        Seq::empty()
    } else {
        prompt_head() + tools_lines(ds, ds.len(), with_values)
    }
}

proof fn lemma_parameters_lines(ps: Seq<ParameterSpec>, n: nat, with_values: bool, i: int)
    requires
        0 <= i < n <= ps.len(),
    ensures
        text::occurs_in(parameters_lines(ps, n, with_values), parameter_lines(ps[i], with_values)),
    decreases n,
{
    let none = Seq::<char>::empty();
    let front = parameters_lines(ps, (n - 1) as nat, with_values);
    let last = parameter_lines(ps[n - 1], with_values);
    let all = parameters_lines(ps, n, with_values);
    if i == n - 1 {
        text::lemma_part_occurs(front, last, none);
        assert(front + last + none =~= all);
    } else {
        lemma_parameters_lines(ps, (n - 1) as nat, with_values, i);
        text::lemma_part_occurs(none, front, last);
        assert(none + front + last =~= all);
        text::lemma_occurs_through(all, front, parameter_lines(ps[i], with_values));
    }
}

proof fn lemma_tools_lines(ds: Seq<DefinitionSpec>, n: nat, with_values: bool, i: int)
    requires
        0 <= i < n <= ds.len(),
    ensures
        text::occurs_in(tools_lines(ds, n, with_values), tool_lines(ds[i], with_values)),
    decreases n,
{
    let none = Seq::<char>::empty();
    let front = tools_lines(ds, (n - 1) as nat, with_values);
    let last = tool_lines(ds[n - 1], with_values);
    let all = tools_lines(ds, n, with_values);
    if i == n - 1 {
        text::lemma_part_occurs(front, last, none);
        assert(front + last + none =~= all);
    } else {
        lemma_tools_lines(ds, (n - 1) as nat, with_values, i);
        text::lemma_part_occurs(none, front, last);
        assert(none + front + last =~= all);
        text::lemma_occurs_through(all, front, tool_lines(ds[i], with_values));
    }
}

proof fn lemma_parameter_line(p: ParameterSpec, with_values: bool)
    ensures
        text::occurs_in(
            parameter_lines(p, with_values),
            if p.required {
                "- "@ + p.name + ": "@ + p.description + " (required)"@
            } else {
                "- "@ + p.name + ": "@ + p.description
            },
        ),
        with_values && p.enum_values.len() > 0 ==> text::occurs_in(
            parameter_lines(p, with_values),
            "  Allowed values: "@ + text::join(p.enum_values, ", "@),
        ),
{
    let none = Seq::<char>::empty();
    let lines = parameter_lines(p, with_values);
    let plain = "- "@ + p.name + ": "@ + p.description;
    let line = if p.required {
        plain + " (required)"@
    } else {
        plain
    };
    reveal_strlit("");
    assert(plain + ""@ =~= plain);
    let values = "  Allowed values: "@ + text::join(p.enum_values, ", "@);
    if with_values && p.enum_values.len() > 0 {
        let rest = "\n"@ + values + "\n"@;
        text::lemma_part_occurs(none, line, rest);
        assert(none + line + rest =~= lines);
        text::lemma_part_occurs(line + "\n"@, values, "\n"@);
        assert(line + "\n"@ + values + "\n"@ =~= lines);
    } else {
        text::lemma_part_occurs(none, line, "\n"@);
        assert(none + line + "\n"@ =~= lines);
    }
}

proof fn lemma_tool_lines(d: DefinitionSpec, with_values: bool)
    ensures
        text::occurs_in(
            tool_lines(d, with_values),
            "## "@ + d.name + "\n"@ + d.description + "\n\n"@,
        ),
        d.parameters.len() > 0 ==> text::occurs_in(
            tool_lines(d, with_values),
            parameters_lines(d.parameters, d.parameters.len(), with_values),
        ),
{
    let none = Seq::<char>::empty();
    let part = tool_lines(d, with_values);
    let head = "## "@ + d.name + "\n"@ + d.description + "\n\n"@;
    if d.parameters.len() > 0 {
        let ps = parameters_lines(d.parameters, d.parameters.len(), with_values);
        let rest = "Parameters:\n"@ + ps + "\n"@;
        text::lemma_part_occurs(none, head, rest);
        assert(none + head + rest =~= part);
        text::lemma_part_occurs(head + "Parameters:\n"@, ps, "\n"@);
        assert(head + "Parameters:\n"@ + ps + "\n"@ =~= part);
    } else {
        text::lemma_part_occurs(none, head, none);
        assert(none + head + none =~= part);
    }
}

proof fn lemma_prompt_holds(ds: Seq<DefinitionSpec>, with_values: bool, i: int)
    requires
        0 <= i < ds.len(),
    ensures
        text::occurs_in(tool_prompt(ds, with_values), tool_lines(ds[i], with_values)),
{
    let none = Seq::<char>::empty();
    let all = tools_lines(ds, ds.len(), with_values);
    text::lemma_part_occurs(prompt_head(), all, none);
    assert(prompt_head() + all + none =~= tool_prompt(ds, with_values));
    lemma_tools_lines(ds, ds.len(), with_values, i);
    text::lemma_occurs_through(
        tool_prompt(ds, with_values),
        all,
        tool_lines(ds[i], with_values),
    );
}

/// The prompt that offers tools names every tool with its description.
pub proof fn law_prompt_offers_every_tool(ds: Seq<DefinitionSpec>, with_values: bool, i: int)
    requires
        0 <= i < ds.len(),
    ensures
        text::occurs_in(
            tool_prompt(ds, with_values),
            "## "@ + ds[i].name + "\n"@ + ds[i].description + "\n\n"@,
        ),
        tool_prompt(Seq::empty(), with_values).len() == 0,
{
    lemma_prompt_holds(ds, with_values, i);
    lemma_tool_lines(ds[i], with_values);
    text::lemma_occurs_through(
        tool_prompt(ds, with_values),
        tool_lines(ds[i], with_values),
        "## "@ + ds[i].name + "\n"@ + ds[i].description + "\n\n"@,
    );
}

/// The prompt that offers tools names every parameter with its description and whether it is
/// required, and, where they are asked for, the values that it allows.
pub proof fn law_prompt_explains_every_parameter(
    ds: Seq<DefinitionSpec>,
    with_values: bool,
    i: int,
    j: int,
)
    requires
        0 <= i < ds.len(),
        0 <= j < ds[i].parameters.len(),
    ensures
        ({
            let p = ds[i].parameters[j];
            &&& text::occurs_in(
                tool_prompt(ds, with_values),
                if p.required {
                    "- "@ + p.name + ": "@ + p.description + " (required)"@
                } else {
                    "- "@ + p.name + ": "@ + p.description
                },
            )
            &&& with_values && p.enum_values.len() > 0 ==> text::occurs_in(
                tool_prompt(ds, with_values),
                "  Allowed values: "@ + text::join(p.enum_values, ", "@),
            )
        }),
{
    let d = ds[i];
    let p = d.parameters[j];
    let prompt = tool_prompt(ds, with_values);
    let part = tool_lines(d, with_values);
    let ps = parameters_lines(d.parameters, d.parameters.len(), with_values);
    let lines = parameter_lines(p, with_values);
    lemma_prompt_holds(ds, with_values, i);
    lemma_tool_lines(d, with_values);
    text::lemma_occurs_through(prompt, part, ps);
    lemma_parameters_lines(d.parameters, d.parameters.len(), with_values, j);
    text::lemma_occurs_through(prompt, ps, lines);
    lemma_parameter_line(p, with_values);
    if with_values && p.enum_values.len() > 0 {
        text::lemma_occurs_through(
            prompt,
            lines,
            "  Allowed values: "@ + text::join(p.enum_values, ", "@),
        );
    }
    text::lemma_occurs_through(
        prompt,
        lines,
        if p.required {
            "- "@ + p.name + ": "@ + p.description + " (required)"@
        } else {
            "- "@ + p.name + ": "@ + p.description
        },
    );
}

/// What definitions say.
pub open spec fn definition_specs(v: Seq<ToolDefinition>) -> Seq<DefinitionSpec> {
    Seq::new(v.len(), |i: int| v[i].spec())
}

/// Adds the part of a prompt for a tool.
fn append_tool(prompt: &mut String, d: &ToolDefinition, with_values: bool)
    ensures
        final(prompt)@ == old(prompt)@ + tool_lines(d.spec(), with_values),
{
    let ghost start = prompt@;
    let ghost ps = d.spec().parameters;
    prompt.append("## ");
    prompt.append(d.name.as_str());
    prompt.append("\n");
    prompt.append(d.description.as_str());
    prompt.append("\n\n");
    let ghost head = "## "@ + d.name@ + "\n"@ + d.description@ + "\n\n"@;
    assert(prompt@ =~= start + head);
    if d.parameters.len() > 0 {
        prompt.append("Parameters:\n");
        let ghost base = prompt@;
        assert(base =~= start + (head + "Parameters:\n"@));
        let mut i: usize = 0;
        assert(prompt@ =~= base + parameters_lines(ps, 0, with_values));
        while i < d.parameters.len()
            invariant
                i <= d.parameters@.len(),
                ps == d.spec().parameters,
                prompt@ == base + parameters_lines(ps, i as nat, with_values),
            decreases d.parameters@.len() - i,
        {
            let ghost before = prompt@;
            let p = &d.parameters[i];
            assert(ps[i as int] == p.spec());
            prompt.append("- ");
            prompt.append(p.name.as_str());
            prompt.append(": ");
            prompt.append(p.description.as_str());
            if p.required {
                prompt.append(" (required)");
            } else {
                prompt.append("");
            }
            prompt.append("\n");
            let ghost line = "- "@ + p.name@ + ": "@ + p.description@ + (if p.required {
                " (required)"@
            } else {
                ""@
            }) + "\n"@;
            assert(prompt@ =~= before + line);
            if with_values && p.enum_values.len() > 0 {
                prompt.append("  Allowed values: ");
                let values = text::join_texts(&p.enum_values, ", ");
                prompt.append(values.as_str());
                prompt.append("\n");
                assert(prompt@ =~= before + (line + ("  Allowed values: "@ + values@ + "\n"@)));
            }
            assert(prompt@ =~= before + parameter_lines(p.spec(), with_values));
            i += 1;
            assert(prompt@ =~= base + parameters_lines(ps, i as nat, with_values));
        }
        prompt.append("\n");
        assert(prompt@ =~= start + tool_lines(d.spec(), with_values));
    }
}

/// Writes the prompt that offers tools, with or without the values that parameters allow.
pub fn format_prompt(definitions: &Vec<ToolDefinition>, with_values: bool) -> (r: String)
    ensures
        r@ == tool_prompt(definition_specs(definitions@), with_values),
{
    let ghost ds = definition_specs(definitions@);
    if definitions.len() == 0 {
        return String::new();
    }
    let mut prompt = "You have access to the following tools. To use a tool, respond with a JSON object in this format:\n{\"name\": \"tool_name\", \"arguments\": {\"param1\": \"value1\"}}\n\nAvailable tools:\n\n".to_owned();
    let ghost head = prompt@;
    let mut i: usize = 0;
    assert(prompt@ =~= head + tools_lines(ds, 0, with_values));
    while i < definitions.len()
        invariant
            i <= definitions@.len(),
            ds == definition_specs(definitions@),
            prompt@ == head + tools_lines(ds, i as nat, with_values),
        decreases definitions@.len() - i,
    {
        let ghost before = prompt@;
        append_tool(&mut prompt, &definitions[i], with_values);
        assert(ds[i as int] == definitions@[i as int].spec());
        i += 1;
        assert(prompt@ =~= head + tools_lines(ds, i as nat, with_values));
    }
    prompt
}

/// The names of tools.
pub open spec fn names_of<T: BuiltinTool>(tools: Seq<T>) -> Seq<Seq<char>> {
    Seq::new(tools.len(), |i: int| tools[i].defined().name)
}

/// The first place of a name, or the number of names.
pub open spec fn first_named(names: Seq<Seq<char>>, name: Seq<char>) -> int
    decreases names.len(),
{
    if names.len() == 0 {
        0
    } else if first_named(names.drop_last(), name) < names.len() - 1 {
        first_named(names.drop_last(), name)
    } else if names.last() == name {
        names.len() - 1
    } else {
        names.len() as int
    }
}

/// The first place of a name holds the name, and no place before it does.
pub proof fn lemma_first_named(names: Seq<Seq<char>>, name: Seq<char>)
    ensures
        ({
            let i = first_named(names, name);
            &&& 0 <= i <= names.len()
            &&& i < names.len() ==> names[i] == name
            &&& forall|j: int| 0 <= j < i ==> #[trigger] names[j] != name
        }),
    decreases names.len(),
{
    if names.len() > 0 {
        let front = names.drop_last();
        lemma_first_named(front, name);
        assert forall|j: int| 0 <= j < first_named(names, name) implies #[trigger] names[j]
            != name by {
            if j < front.len() {
                assert(front[j] == names[j]);
            }
        }
    }
}

/// A place that holds a name, with none before it, is the first place of the name.
pub proof fn lemma_first_named_at(names: Seq<Seq<char>>, name: Seq<char>, i: int)
    requires
        0 <= i <= names.len(),
        i < names.len() ==> names[i] == name,
        forall|j: int| 0 <= j < i ==> #[trigger] names[j] != name,
    ensures
        first_named(names, name) == i,
{
    lemma_first_named(names, name);
    let k = first_named(names, name);
    if k < i {
        assert(names[k] != name);
    } else if i < k {
        assert(names[i] != name);
    }
}

/// The tools that do not have a name.
pub open spec fn without<T: BuiltinTool>(tools: Seq<T>, name: Seq<char>) -> Seq<T>
    decreases tools.len(),
{
    if tools.len() == 0 {
        Seq::empty()
    } else {
        let front = without(tools.drop_last(), name);
        if tools.last().defined().name == name {
            front
        } else {
            front.push(tools.last())
        }
    }
}

/// Exactly the tools that have another name stay, in order.
pub proof fn law_other_tools_stay<T: BuiltinTool>(tools: Seq<T>, name: Seq<char>)
    ensures
        without(tools, name) == tools.filter(|t: T| t.defined().name != name),
    decreases tools.len(),
{
    reveal(Seq::filter);
    if tools.len() > 0 {
        law_other_tools_stay(tools.drop_last(), name);
    } else {
        assert(tools.filter(|t: T| t.defined().name != name) =~= Seq::empty());
    }
}

/// A table of tools.
pub struct ToolTable<T: BuiltinTool> {
    pub tools: Vec<T>,
}

impl<T: BuiltinTool> ToolTable<T> {
    /// An empty table.
    pub fn new() -> (r: Self)
        ensures
            r.tools@.len() == 0,
    {
        ToolTable { tools: Vec::new() }
    }

    /// Adds a tool at the end.
    pub fn push(&mut self, tool: T)
        ensures
            final(self).tools@ == old(self).tools@.push(tool),
    {
        self.tools.push(tool);
    }

    /// Where the first tool of a name stands.
    pub fn find(&self, name: &str) -> (r: Option<usize>)
        ensures
            match r {
                Some(i) => i < self.tools@.len() && i == first_named(names_of(self.tools@), name@),
                None => first_named(names_of(self.tools@), name@) == self.tools@.len(),
            },
    {
        let ghost names = names_of(self.tools@);
        let mut i: usize = 0;
        while i < self.tools.len()
            invariant
                i <= self.tools@.len(),
                names == names_of(self.tools@),
                forall|j: int| 0 <= j < i ==> #[trigger] names[j] != name@,
            decreases self.tools@.len() - i,
        {
            let d = self.tools[i].definition();
            assert(names[i as int] == d.name@);
            if text::same_text(d.name.as_str(), name) {
                proof {
                    lemma_first_named_at(names, name@, i as int);
                }
                return Some(i);
            }
            i += 1;
        }
        proof {
            lemma_first_named_at(names, name@, i as int);
        }
        None
    }

    /// Whether there is a tool of a name.
    pub fn has_tool(&self, name: &str) -> (r: bool)
        ensures
            r == names_of(self.tools@).contains(name@),
    {
        proof {
            let names = names_of(self.tools@);
            lemma_first_named(names, name@);
            let i = first_named(names, name@);
            if i < names.len() {
                assert(names[i] == name@);
            } else if names.contains(name@) {
                let j = names.index_of(name@);
                assert(names[j] != name@);
            }
        }
        match self.find(name) {
            Some(_) => true,
            None => false,
        }
    }

    /// Puts a tool in the place of the first one of its name, or at the end.
    pub fn register(&mut self, tool: T)
        ensures
            ({
                let i = first_named(names_of(old(self).tools@), tool.defined().name);
                final(self).tools@ == if i < old(self).tools@.len() {
                    old(self).tools@.update(i, tool)
                } else {
                    old(self).tools@.push(tool)
                }
            }),
    {
        let d = tool.definition();
        match self.find(d.name.as_str()) {
            Some(i) => {
                self.tools.set(i, tool);
            },
            None => {
                self.tools.push(tool);
            },
        }
    }

    /// Takes out every tool of a name, and says whether there was one.
    pub fn deregister(&mut self, name: &str) -> (r: bool)
        ensures
            final(self).tools@ == without(old(self).tools@, name@),
            r == names_of(old(self).tools@).contains(name@),
    {
        let found = self.has_tool(name);
        let mut given: Vec<T> = Vec::new();
        std::mem::swap(&mut given, &mut self.tools);
        let ghost all = given@;
        let mut kept: Vec<T> = Vec::new();
        assert(all.take(0) =~= Seq::empty());
        for tool in it: given
            invariant
                it.seq() == all,
                kept@ == without(all.take(it.index() as int), name@),
        {
            let ghost i = it.index() as int;
            assert(all.take(i + 1).drop_last() =~= all.take(i));
            assert(all.take(i + 1).last() == tool);
            let d = tool.definition();
            if !text::same_text(d.name.as_str(), name) {
                kept.push(tool);
            }
        }
        assert(all.take(all.len() as int) =~= all);
        self.tools = kept;
        found
    }

    /// The definitions of the tools.
    pub fn list_tools(&self) -> (r: Vec<ToolDefinition>)
        ensures
            definition_specs(r@) == self.tools@.map_values(|t: T| t.defined()),
    {
        let ghost all = self.tools@.map_values(|t: T| t.defined());
        let mut r: Vec<ToolDefinition> = Vec::new();
        let mut i: usize = 0;
        while i < self.tools.len()
            invariant
                i <= self.tools@.len(),
                all == self.tools@.map_values(|t: T| t.defined()),
                definition_specs(r@) == all.take(i as int),
            decreases self.tools@.len() - i,
        {
            let ghost had = definition_specs(r@);
            r.push(self.tools[i].definition());
            i += 1;
            assert(definition_specs(r@) =~= had.push(all[i - 1]));
            assert(definition_specs(r@) =~= all.take(i as int));
        }
        assert(all.take(all.len() as int) =~= all);
        r
    }

    /// The names of the tools.
    pub fn tool_names(&self) -> (r: Vec<String>)
        ensures
            text::views(r@) == names_of(self.tools@),
    {
        let ghost all = names_of(self.tools@);
        let mut r: Vec<String> = Vec::new();
        let mut i: usize = 0;
        while i < self.tools.len()
            invariant
                i <= self.tools@.len(),
                all == names_of(self.tools@),
                text::views(r@) == all.take(i as int),
            decreases self.tools@.len() - i,
        {
            let ghost had = text::views(r@);
            let d = self.tools[i].definition();
            r.push(d.name);
            i += 1;
            assert(text::views(r@) =~= had.push(all[i - 1]));
            assert(text::views(r@) =~= all.take(i as int));
        }
        assert(all.take(all.len() as int) =~= all);
        r
    }

    /// The prompt that offers the tools, with the values that parameters allow.
    pub fn format_tool_prompt(&self) -> (r: String)
        ensures
            r@ == tool_prompt(self.tools@.map_values(|t: T| t.defined()), true),
    {
        let definitions = self.list_tools();
        format_prompt(&definitions, true)
    }

    /// The prompt that offers the tools, without the values that parameters allow.
    pub fn format_short_prompt(&self) -> (r: String)
        ensures
            r@ == tool_prompt(self.tools@.map_values(|t: T| t.defined()), false),
    {
        let definitions = self.list_tools();
        format_prompt(&definitions, false)
    }
}

/// No two tools have the same name.
pub open spec fn distinct_names<T: BuiltinTool>(tools: Seq<T>) -> bool {
    names_of(tools).no_duplicates()
}

/// Registering keeps the names of tools distinct, and makes the tool the one that is found under
/// its name.
pub proof fn law_register_keeps_names_distinct<T: BuiltinTool>(before: Seq<T>, tool: T, after: Seq<T>)
    requires
        distinct_names(before),
        ({
            let i = first_named(names_of(before), tool.defined().name);
            after == if i < before.len() {
                before.update(i, tool)
            } else {
                before.push(tool)
            }
        }),
    ensures
        distinct_names(after),
        ({
            let i = first_named(names_of(after), tool.defined().name);
            i < after.len() && after[i] == tool
        }),
{
    let name = tool.defined().name;
    let names = names_of(before);
    let new_names = names_of(after);
    let i = first_named(names, name);
    lemma_first_named(names, name);
    if i < before.len() {
        assert(new_names =~= names);
        lemma_first_named_at(new_names, name, i);
    } else {
        assert(new_names =~= names.push(name));
        assert forall|a: int, b: int|
            0 <= a < new_names.len() && 0 <= b < new_names.len() && a != b implies new_names[a]
            != new_names[b] by {
            if a < names.len() {
                assert(names[a] == new_names[a]);
            }
            if b < names.len() {
                assert(names[b] == new_names[b]);
            }
        }
        assert forall|j: int| 0 <= j < before.len() implies #[trigger] new_names[j] != name by {
            assert(names[j] == new_names[j]);
        }
        lemma_first_named_at(new_names, name, before.len() as int);
    }
}

/// A tool that was taken out is not found again, and the other tools stay in order.
pub proof fn law_deregistered_is_gone<T: BuiltinTool>(tools: Seq<T>, name: Seq<char>)
    ensures
        !names_of(without(tools, name)).contains(name),
        without(tools, name) == tools.filter(|t: T| t.defined().name != name),
    decreases tools.len(),
{
    reveal(Seq::filter);
    if tools.len() > 0 {
        law_deregistered_is_gone(tools.drop_last(), name);
        let front = without(tools.drop_last(), name);
        let all = names_of(without(tools, name));
        if all.contains(name) {
            let i = all.index_of(name);
            if i < front.len() {
                assert(names_of(front)[i] == name);
            }
        }
    }
}

/// Registering a tool under a new name and taking it out again gives back the table.
pub proof fn law_deregister_undoes_register<T: BuiltinTool>(tools: Seq<T>, tool: T)
    requires
        !names_of(tools).contains(tool.defined().name),
    ensures
        without(tools.push(tool), tool.defined().name) == tools,
{
    let name = tool.defined().name;
    assert(tools.push(tool).drop_last() =~= tools);
    lemma_without_absent(tools, name);
}

proof fn lemma_without_absent<T: BuiltinTool>(tools: Seq<T>, name: Seq<char>)
    requires
        !names_of(tools).contains(name),
    ensures
        without(tools, name) == tools,
    decreases tools.len(),
{
    if tools.len() > 0 {
        let front = tools.drop_last();
        if names_of(front).contains(name) {
            let i = names_of(front).index_of(name);
            assert(names_of(tools)[i] == name);
        }
        lemma_without_absent(front, name);
        assert(names_of(tools)[tools.len() - 1] == tools.last().defined().name);
        assert(without(tools, name) =~= tools);
    } else {
        assert(without(tools, name) =~= tools);
    }
}

} // verus!
