//! Regular expressions, by the `regex` crate.

use regex::Regex;
use vstd::prelude::*;
use vstd::string::*;

use crate::paths;

verus! {

/// The characters that have a meaning of their own in a regular expression.
pub open spec fn is_meta(c: char) -> bool {
    c == '\\' || c == '.' || c == '+' || c == '*' || c == '?' || c == '(' || c == ')' || c == '|' || c
        == '[' || c == ']' || c == '{' || c == '}' || c == '^' || c == '$' || c == '#' || c == '&'
        || c == '-' || c == '~'
}

/// A text with a backslash before every character that has a meaning of its own.
pub open spec fn escaped(s: Seq<char>) -> Seq<char>
    decreases s.len(),
{
    if s.len() == 0 {
        Seq::empty()
    } else {
        let front = escaped(s.drop_last());
        if is_meta(s.last()) {
            front.push('\\').push(s.last())
        } else {
            front.push(s.last())
        }
    }
}

/// `regex::escape` puts a backslash before every character that has a meaning of its own in a
/// regular expression, and keeps everything else.
#[verifier::external_body]
pub(crate) fn escape(s: &str) -> (r: String)
    ensures
        r@ == escaped(s@),
{
    regex::escape(s)
}

/// The regular expression for a text as a whole word.
pub open spec fn word_pattern(s: Seq<char>) -> Seq<char> {
    "\\b"@ + escaped(s) + "\\b"@
}

/// A regular expression that finds what a source file depends on.
pub open spec fn is_dependency_pattern(p: Seq<char>) -> bool {
    ||| p == "^\\s*use\\s+([a-zA-Z0-9_:]+)"@
    ||| p == "^\\s*extern\\s+crate\\s+([a-zA-Z0-9_]+)"@
    ||| p == "^\\s*import\\s+.*from\\s+['\"]([^'\"]+)['\"]"@
    ||| p == "^\\s*import\\s+['\"]([^'\"]+)['\"]"@
    ||| p == "require\\s*\\(\\s*['\"]([^'\"]+)['\"]\\s*\\)"@
    ||| p == "import\\s*\\(\\s*['\"]([^'\"]+)['\"]\\s*\\)"@
    ||| p == "^\\s*import\\s+([a-zA-Z0-9_.]+)"@
    ||| p == "^\\s*from\\s+([a-zA-Z0-9_.]+)\\s+import"@
    ||| p == "\"([^\"]+)\""@
    ||| p == "^\\s*#\\s*include\\s*[<\"]([^>\"]+)[>\"]"@
}

/// A pattern that is well-formed and stays far below the size that `Regex::new` takes: a word of at
/// most 10000 characters, or a pattern for a dependency.
pub open spec fn plainly_taken(pattern: Seq<char>) -> bool {
    ||| exists|s: Seq<char>| s.len() <= 10_000 && #[trigger] word_pattern(s) == pattern
    ||| is_dependency_pattern(pattern)
}

/// The ASCII characters that words are made of.
pub open spec fn is_word_char(c: char) -> bool {
    'a' <= c <= 'z' || 'A' <= c <= 'Z' || '0' <= c <= '9' || c == '_'
}

/// A text that is one word of ASCII characters.
pub open spec fn is_word(s: Seq<char>) -> bool {
    s.len() > 0 && forall|i: int| 0 <= i < s.len() ==> is_word_char(#[trigger] s[i])
}

/// The word stands at place `i`, with no character of a word next to it.
pub open spec fn is_word_at(text: Seq<char>, word: Seq<char>, i: int) -> bool {
    &&& 0 <= i
    &&& i + word.len() <= text.len()
    &&& text.subrange(i, i + word.len()) == word
    &&& i == 0 || !is_word_char(text[i - 1])
    &&& i + word.len() == text.len() || !is_word_char(text[i + word.len()])
}

/// The text holds the word as a whole.
pub open spec fn holds_word(text: Seq<char>, word: Seq<char>) -> bool {
    exists|i: int| is_word_at(text, word, i)
}

/// What `Regex::is_match` says of a text, for a pattern that `Regex::new` takes.
pub uninterp spec fn regex_matches(pattern: Seq<char>, text: Seq<char>) -> bool;

/// `Regex::new` and `Regex::is_match`: whether the pattern matches anywhere in the text, or why the
/// pattern is not taken. In ASCII text, a pattern for a word of ASCII characters matches where the
/// word stands as a whole. Plain patterns are taken; which others are is not stated, since it also
/// hangs on how much memory one takes.
#[verifier::external_body]
pub(crate) fn is_match(pattern: &str, text: &str) -> (r: Result<bool, String>)
    ensures
        match r {
            Ok(b) => {
                &&& b == regex_matches(pattern@, text@)
                &&& forall|word: Seq<char>|
                    is_word(word) && #[trigger] word_pattern(word) == pattern@
                        && vstd::utf8::is_ascii_chars(text@) ==> b == holds_word(text@, word)
            },
            Err(_) => !plainly_taken(pattern@),
        },
{
    match Regex::new(pattern) {
        Ok(regex) => Ok(regex.is_match(text)),
        Err(e) => Err(e.to_string()),
    }
}

/// What the first group of the first match holds, for a pattern that `Regex::new` takes.
pub uninterp spec fn regex_group(pattern: Seq<char>, text: Seq<char>) -> Option<Seq<char>>;

/// `Regex::new` and `Regex::captures`: what the first group of the first match in the text holds,
/// if there is a match and the group takes part in it, or why the pattern is not taken. Plain
/// patterns are taken; which others are is not stated, since it also hangs on how much memory one
/// takes.
#[verifier::external_body]
pub(crate) fn first_group(pattern: &str, text: &str) -> (r: Result<Option<String>, String>)
    ensures
        match r {
            Ok(o) => paths::opt_view(o) == regex_group(pattern@, text@),
            Err(_) => !plainly_taken(pattern@),
        },
{
    match Regex::new(pattern) {
        Ok(regex) => Ok(
            regex.captures(text).and_then(|c| c.get(1)).map(|m| m.as_str().to_string()),
        ),
        Err(e) => Err(e.to_string()),
    }
}

} // verus!
