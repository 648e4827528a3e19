//! How many tokens a conversation takes, and how many are left.

use vstd::pervasive::arbitrary;
use vstd::prelude::*;
use vstd::string::*;

use crate::agent::types::TokenBudgetConfig;
use crate::text;

verus! {

/// Who says a message.
#[derive(Debug, Clone, Copy, PartialEq, Eq, Structural)]
pub enum Role {
    System,
    User,
    Assistant,
}

/// A message of a conversation.
#[derive(Debug)]
pub struct ChatMessage {
    pub role: Role,
    pub content: String,
}

impl ChatMessage {
    /// A message of the system.
    pub fn system(content: &str) -> (r: Self)
        ensures
            r.role == Role::System,
            r.content@ == content@,
    {
        ChatMessage { role: Role::System, content: content.to_owned() }
    }

    /// A message of the user.
    pub fn user(content: &str) -> (r: Self)
        ensures
            r.role == Role::User,
            r.content@ == content@,
    {
        ChatMessage { role: Role::User, content: content.to_owned() }
    }

    /// A message of the assistant.
    pub fn assistant(content: &str) -> (r: Self)
        ensures
            r.role == Role::Assistant,
            r.content@ == content@,
    {
        ChatMessage { role: Role::Assistant, content: content.to_owned() }
    }
}

/// The texts of messages.
pub open spec fn contents(v: Seq<ChatMessage>) -> Seq<Seq<char>> {
    Seq::new(v.len(), |i: int| v[i].content@)
}

/// Estimates how many tokens texts take.
pub trait TokenEstimator: Send + Sync {
    /// The tokens that a text takes.
    open spec fn text_tokens(&self, s: Seq<char>) -> nat {
        arbitrary()
    }

    /// Estimates the tokens that a text takes.
    fn estimate_text(&self, text: &str) -> (n: usize)
        ensures
            n == self.text_tokens(text@),
    ;

    /// The tokens that messages with these texts take.
    open spec fn message_tokens(&self, texts: Seq<Seq<char>>) -> nat {
        arbitrary()
    }

    /// Estimates the tokens that messages take.
    fn estimate_messages(&self, messages: &Vec<ChatMessage>) -> (n: usize)
        requires
            self.message_tokens(contents(messages@)) <= usize::MAX,
        ensures
            n == self.message_tokens(contents(messages@)),
    ;
}

/// A token for every four bytes begun.
pub open spec fn simple_tokens(s: Seq<char>) -> nat {
    (text::utf8_len(s) + 3) / 4
}

/// The tokens of messages: those of their texts, and four for each message.
pub open spec fn simple_message_tokens(texts: Seq<Seq<char>>) -> nat
    decreases texts.len(),
{
    if texts.len() == 0 {
        0
    } else {
        simple_message_tokens(texts.drop_last()) + simple_tokens(texts.last()) + 4
    }
}

/// Estimates one token for every four bytes.
#[derive(Debug, Clone, Copy, PartialEq, Eq, Structural)]
pub struct SimpleTokenEstimator;

impl SimpleTokenEstimator {
    /// The estimator.
    pub fn new() -> (r: Self)
        ensures
            r == SimpleTokenEstimator,
    {
        SimpleTokenEstimator
    }
}

impl Default for SimpleTokenEstimator {
    fn default() -> (r: Self)
        ensures
            r == SimpleTokenEstimator,
    {
        SimpleTokenEstimator::new()
    }
}

proof fn lemma_message_tokens_prefix(texts: Seq<Seq<char>>, n: int)
    requires
        0 <= n <= texts.len(),
    ensures
        simple_message_tokens(texts.take(n)) <= simple_message_tokens(texts),
    decreases texts.len(),
{
    if n == texts.len() {
        assert(texts.take(n) =~= texts);
    } else {
        lemma_message_tokens_prefix(texts.drop_last(), n);
        assert(texts.drop_last().take(n) =~= texts.take(n));
    }
}

impl TokenEstimator for SimpleTokenEstimator {
    open spec fn text_tokens(&self, s: Seq<char>) -> nat {
        simple_tokens(s)
    }

    fn estimate_text(&self, text: &str) -> (n: usize) {
        let bytes: usize = text::byte_len(text);
        if bytes % 4 == 0 {
            bytes / 4
        } else {
            bytes / 4 + 1
        }
    }

    open spec fn message_tokens(&self, texts: Seq<Seq<char>>) -> nat {
        simple_message_tokens(texts)
    }

    fn estimate_messages(&self, messages: &Vec<ChatMessage>) -> (n: usize) {
        let ghost all = contents(messages@);
        let mut n: usize = 0;
        let mut i: usize = 0;
        assert(all.take(0) =~= Seq::empty());
        while i < messages.len()
            invariant
                i <= messages@.len(),
                all == contents(messages@),
                simple_message_tokens(all) <= usize::MAX,
                n == simple_message_tokens(all.take(i as int)),
            decreases messages@.len() - i,
        {
            proof {
                assert(all.take(i + 1).drop_last() =~= all.take(i as int));
                assert(all.take(i + 1).last() == messages@[i as int].content@);
                lemma_message_tokens_prefix(all, i + 1);
            }
            let t: usize = self.estimate_text(messages[i].content.as_str());
            n = n + t + 4;
            i += 1;
        }
        assert(all.take(all.len() as int) =~= all);
        n
    }
}

/// A conversation: what the system says, and the messages.
pub struct SessionContext<'a> {
    pub system_prompt: &'a str,
    pub messages: &'a Vec<ChatMessage>,
}

/// The tokens that a conversation takes.
pub open spec fn used<E: TokenEstimator>(
    estimator: E,
    system: Seq<char>,
    texts: Seq<Seq<char>>,
) -> nat {
    estimator.text_tokens(system) + estimator.message_tokens(texts)
}

/// `a` less `b`, but not below 0.
pub open spec fn less(a: nat, b: nat) -> nat {
    if a >= b {
        (a - b) as nat
    } else {
        0
    }
}

/// The tokens that are left once those used and those for the answer are taken off.
pub open spec fn left(config: TokenBudgetConfig, used: nat) -> nat {
    less(less(config.total_budget as nat, used), config.response_reserve as nat)
}

/// The more tokens are used, the fewer are left.
pub proof fn law_using_more_leaves_less(config: TokenBudgetConfig, used: nat, more: nat)
    requires
        used <= more,
    ensures
        left(config, more) <= left(config, used),
        left(config, used) > 0 ==> left(config, used) == config.total_budget - used
            - config.response_reserve,
{
}

/// A budget is low once what is used and twice what an answer may take are more than there is: then
/// less is left, besides the answer, than another answer may take.
pub open spec fn is_low(config: TokenBudgetConfig, used: nat) -> bool {
    left(config, used) < config.response_reserve
}

/// A message fits if what is used, what an answer may take and the message are no more than there
/// is; an empty message fits always.
pub open spec fn takes(config: TokenBudgetConfig, used: nat, tokens: nat) -> bool {
    left(config, used) >= tokens
}

/// What is left, whether it is low and what still fits go by the sum of what is used and what an
/// answer may take.
pub proof fn law_budget_adds_up(config: TokenBudgetConfig, used: nat, tokens: nat)
    ensures
        used + config.response_reserve <= config.total_budget ==> used + config.response_reserve
            + left(config, used) == config.total_budget,
        used + config.response_reserve >= config.total_budget ==> left(config, used) == 0,
        is_low(config, used) <==> config.response_reserve > 0 && used + 2
            * config.response_reserve > config.total_budget,
        takes(config, used, tokens) <==> tokens == 0 || used + config.response_reserve + tokens
            <= config.total_budget,
{
}

/// A text takes one token for every four bytes, and one more for what is left over.
pub proof fn law_four_bytes_take_a_token(s: Seq<char>)
    ensures
        4 * simple_tokens(s) >= text::utf8_len(s),
        4 * simple_tokens(s) < text::utf8_len(s) + 4,
{
}

/// A result that takes no more tokens than it may stays as it is; one that takes more is cut: it
/// starts with as many bytes of the result as four for each token, and a note says how many tokens
/// are left out.
pub proof fn law_only_large_results_are_cut(
    config: TokenBudgetConfig,
    result: Seq<char>,
    t: Seq<char>,
)
    requires
        is_truncated(SimpleTokenEstimator, config, result, t),
    ensures
        text::utf8_len(result) <= 4 * config.tool_result_max ==> t == result,
        text::utf8_len(result) > 4 * config.tool_result_max ==> exists|head: Seq<char>|
            vstd::utf8::encode_utf8(head) == vstd::utf8::encode_utf8(result).take(
                4 * config.tool_result_max,
            ) && t == #[trigger] (head + ("...\n[Result truncated, "@ + text::decimal(
                (simple_tokens(result) - config.tool_result_max) as nat,
            ) + " tokens omitted]"@)),
{
    if text::utf8_len(result) > 4 * config.tool_result_max {
        let max = config.tool_result_max as nat;
        let omitted = (simple_tokens(result) - max) as nat;
        let head = choose|head: Seq<char>|
            is_head(result, cut_at(result, max), head) && t == #[trigger] (head + cut_note(
                omitted,
            ));
        assert(t == head + ("...\n[Result truncated, "@ + text::decimal(omitted)
            + " tokens omitted]"@));
        let bytes = vstd::utf8::encode_utf8(result);
        assert(bytes.subrange(0, 4 * max as int) =~= bytes.take(4 * max as int));
    }
}

/// Every message of a conversation takes tokens.
pub proof fn law_every_message_takes_tokens(system: Seq<char>, texts: Seq<Seq<char>>, s: Seq<char>)
    ensures
        used(SimpleTokenEstimator, system, texts.push(s)) == used(
            SimpleTokenEstimator,
            system,
            texts,
        ) + simple_tokens(s) + 4,
{
    assert(texts.push(s).drop_last() =~= texts);
}

/// A budget and what is known of it.
#[derive(Debug, Clone, Copy, PartialEq, Eq, Structural)]
pub struct BudgetReport {
    pub total: usize,
    pub used: usize,
    pub remaining: usize,
    pub history_tokens: usize,
    pub system_tokens: usize,
    pub is_low: bool,
}

/// Where a result is cut: at four bytes for each token that it may take, at most at its end.
pub open spec fn cut_at(result: Seq<char>, max: nat) -> nat {
    if max * 4 < text::utf8_len(result) {
        max * 4
    } else {
        text::utf8_len(result)
    }
}

/// What is put behind a result that was cut.
pub open spec fn cut_note(omitted: nat) -> Seq<char> {
    "...\n[Result truncated, "@ + text::decimal(omitted) + " tokens omitted]"@
}

/// A result that takes too many tokens can be cut: a character starts where it is cut.
pub open spec fn can_truncate<E: TokenEstimator>(
    estimator: E,
    config: TokenBudgetConfig,
    result: Seq<char>,
) -> bool {
    estimator.text_tokens(result) <= config.tool_result_max || (config.tool_result_max * 4
        <= usize::MAX && text::sliceable(
        result,
        0,
        cut_at(result, config.tool_result_max as nat) as int,
    ))
}

/// `t` is the result, cut if it takes too many tokens.
pub open spec fn is_truncated<E: TokenEstimator>(
    estimator: E,
    config: TokenBudgetConfig,
    result: Seq<char>,
    t: Seq<char>,
) -> bool {
    let max = config.tool_result_max as nat;
    let tokens = estimator.text_tokens(result);
    if tokens <= max {
        t == result
    } else {
        exists|head: Seq<char>|
            is_head(result, cut_at(result, max), head) && t == #[trigger] (head + cut_note(
                (tokens - max) as nat,
            ))
    }
}

/// `head` is the first `n` bytes of a text.
pub open spec fn is_head(s: Seq<char>, n: nat, head: Seq<char>) -> bool {
    vstd::utf8::encode_utf8(head) == vstd::utf8::encode_utf8(s).subrange(0, n as int)
}

/// Keeps track of a budget.
#[derive(Debug)]
pub struct TokenBudgetManager<E: TokenEstimator> {
    pub config: TokenBudgetConfig,
    pub estimator: E,
}

impl TokenBudgetManager<SimpleTokenEstimator> {
    /// A manager that estimates one token for every four bytes.
    pub fn new(config: TokenBudgetConfig) -> (r: Self)
        ensures
            r.config == config,
            r.estimator == SimpleTokenEstimator,
    {
        TokenBudgetManager { config, estimator: SimpleTokenEstimator::new() }
    }
}

impl<E: TokenEstimator> TokenBudgetManager<E> {
    /// A manager with an estimator.
    pub fn with_estimator(config: TokenBudgetConfig, estimator: E) -> (r: Self)
        ensures
            r.config == config,
            r.estimator == estimator,
    {
        TokenBudgetManager { config, estimator }
    }

    /// The budget.
    pub fn config(&self) -> (r: &TokenBudgetConfig)
        ensures
            *r == self.config,
    {
        &self.config
    }

    /// The tokens that a conversation takes.
    pub open spec fn used(&self, session: SessionContext) -> nat {
        used(self.estimator, session.system_prompt@, contents(session.messages@))
    }

    /// The tokens that a conversation takes.
    pub fn used_tokens(&self, session: &SessionContext) -> (n: usize)
        requires
            self.used(*session) <= usize::MAX,
        ensures
            n == self.used(*session),
    {
        let system: usize = self.estimator.estimate_text(session.system_prompt);
        let history: usize = self.estimator.estimate_messages(session.messages);
        system + history
    }

    /// The tokens that are left.
    pub fn remaining_tokens(&self, session: &SessionContext) -> (n: usize)
        requires
            self.used(*session) <= usize::MAX,
        ensures
            n == left(self.config, self.used(*session)),
    {
        let used: usize = self.used_tokens(session);
        let after_use: usize = if self.config.total_budget >= used {
            self.config.total_budget - used
        } else {
            0
        };
        if after_use >= self.config.response_reserve {
            after_use - self.config.response_reserve
        } else {
            0
        }
    }

    /// Tells whether a message fits into what is left.
    pub fn can_add_message(&self, session: &SessionContext, message: &str) -> (r: bool)
        requires
            self.used(*session) <= usize::MAX,
        ensures
            r == takes(
                self.config,
                self.used(*session),
                self.estimator.text_tokens(message@),
            ),
    {
        let tokens: usize = self.estimator.estimate_text(message);
        let remaining: usize = self.remaining_tokens(session);
        remaining >= tokens
    }

    /// Tells whether a result can be cut.
    pub fn can_truncate_result(&self, result: &str) -> (r: bool)
        ensures
            r == can_truncate(self.estimator, self.config, result@),
    {
        let tokens: usize = self.estimator.estimate_text(result);
        if tokens <= self.config.tool_result_max {
            return true;
        }
        let max: usize = self.config.tool_result_max;
        if max > usize::MAX / 4 {
            return false;
        }
        let wanted: usize = max * 4;
        let bytes: usize = text::byte_len(result);
        let end: usize = if wanted < bytes {
            wanted
        } else {
            bytes
        };
        assert(end == cut_at(result@, max as nat));
        match text::slice_bytes(result, 0, end) {
            Some(_) => true,
            None => false,
        }
    }

    /// Cuts a result that takes too many tokens.
    pub fn truncate_tool_result(&self, result: &str) -> (r: String)
        requires
            can_truncate(self.estimator, self.config, result@),
        ensures
            is_truncated(self.estimator, self.config, result@, r@),
    {
        let tokens: usize = self.estimator.estimate_text(result);
        if tokens <= self.config.tool_result_max {
            return result.to_owned();
        }
        let max: usize = self.config.tool_result_max;
        let wanted: usize = max * 4;
        let bytes: usize = text::byte_len(result);
        let end: usize = if wanted < bytes {
            wanted
        } else {
            bytes
        };
        let ghost max_tokens = max as nat;
        assert(end == cut_at(result@, max_tokens));
        match text::slice_bytes(result, 0, end) {
            Some(head) => {
                let ghost head_text = head@;
                let mut r = head;
                r.append("...\n[Result truncated, ");
                let n = text::decimal_text((tokens - max) as u64);
                r.append(n.as_str());
                r.append(" tokens omitted]");
                assert(r@ =~= head_text + cut_note((tokens - max) as nat));
                assert(is_head(result@, cut_at(result@, max_tokens), head_text));
                r
            },
            None => result.to_owned(),
        }
    }

    /// Tells whether less is left than an answer may take.
    pub fn is_budget_low(&self, session: &SessionContext) -> (r: bool)
        requires
            self.used(*session) <= usize::MAX,
        ensures
            r == is_low(self.config, self.used(*session)),
    {
        let remaining: usize = self.remaining_tokens(session);
        remaining < self.config.response_reserve
    }

    /// Reports on the budget.
    pub fn budget_report(&self, session: &SessionContext) -> (r: BudgetReport)
        requires
            self.used(*session) <= usize::MAX,
        ensures
            r.total == self.config.total_budget,
            r.used == self.used(*session),
            r.remaining == left(self.config, self.used(*session)),
            r.history_tokens == self.estimator.message_tokens(contents(session.messages@)),
            r.system_tokens == self.estimator.text_tokens(session.system_prompt@),
            r.is_low == is_low(self.config, self.used(*session)),
    {
        let used: usize = self.used_tokens(session);
        let remaining: usize = self.remaining_tokens(session);
        let system_tokens: usize = self.estimator.estimate_text(session.system_prompt);
        let history_tokens: usize = self.estimator.estimate_messages(session.messages);
        BudgetReport {
            total: self.config.total_budget,
            used,
            remaining,
            history_tokens,
            system_tokens,
            is_low: remaining < self.config.response_reserve,
        }
    }
}

} // verus!
