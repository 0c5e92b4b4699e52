//! Expansion of magic values: every `<command>` of a text is replaced by
//! what its command gives, from the right to the left, so that the places
//! found before the first replacement stay valid.
//!
//! Commands that need a file or the execution of an operation cannot be
//! resolved here. The expander says what it needs and goes on when it is
//! given the result.

use crate::json::{json_of_text, Json};
use crate::json_path::{extraction, path_of, JsonPathError, JsonPathResult, JsonPathRoot};
use crate::magic_command::{command_of, MagicCommand, MagicCommandError, MagicCommandView};
use crate::numbers::{i64_to_decimal, signed_decimal_text};
use crate::strings::{
    lemma_boundary_after_ascii, lemma_boundary_at, lemma_encode_concat, replace_ascii,
    replaced_all, slice_string, splice, spliced,
};
use crate::util::{is_lowercase_letter, random_integer, random_string, random_word};
use vstd::prelude::*;
use vstd::string::*;
use vstd::utf8::*;

verus! {

/// Why an expansion failed.
#[derive(Debug, Clone, Copy, PartialEq, Eq)]
pub enum MagicError {
    /// The pattern of magic values is no regular expression.
    Pattern,
    /// The places found are not those of magic values of the text.
    Matches,
    /// What stands between the angle brackets is no command.
    Command(MagicCommandError),
    /// The bounds of `random_integer` leave no integer between them.
    EmptyRange,
    /// The dictionary has no words.
    NoWords,
    /// No variables are configured.
    NoVariables,
    /// The path cannot be read or followed.
    Path(JsonPathError),
    /// The response is no JSON.
    Response,
    /// The expander was given what it did not ask for.
    OutOfTurn,
}

/// What the expander waits for.
#[derive(Debug, PartialEq)]
pub enum Waiting {
    Nothing,
    /// The content of the file of a `query` command.
    File { json_path: String },
    /// The response to the operation of a `query` command.
    Response { json_path: String },
    /// The words of the dictionary.
    Words,
}

/// What the expander did, or what it needs to go on.
#[derive(Debug, PartialEq)]
pub enum MagicStep {
    /// No magic value is left: the expanded text.
    Finished(String),
    /// The expansion failed; the text is as it was before the step.
    Failed(MagicError),
    /// The rightmost magic value was replaced.
    Replaced,
    /// The content of the file is needed.
    ReadFile { path: String },
    /// The response to the operation is needed.
    Execute { operation: String },
    /// The words of the dictionary are needed.
    ReadWords,
}

/// The places at which the pattern matches the text, from left to right,
/// where the pattern is a regular expression.
pub uninterp spec fn regex_matches(pattern: Seq<char>, text: Seq<char>) -> Option<
    Seq<(usize, usize)>,
>;

/// Calls `regex::Regex::new` and `Regex::find_iter`, which yields the
/// successive non-overlapping matches of the pattern in the text, and takes
/// `Match::start` and `Match::end` of each. `None` stands for the error of
/// `Regex::new`. The contract only names the result: it is a function of
/// the pattern and the text alone.
#[verifier::external_body]
fn find_matches(pattern: &str, text: &str) -> (r: Option<Vec<(usize, usize)>>)
    ensures
        match r {
            Some(spans) => regex_matches(pattern@, text@) == Some(spans@),
            None => regex_matches(pattern@, text@) is None,
        },
{
    match regex::Regex::new(pattern) {
        Ok(re) => Some(re.find_iter(text).map(|m| (m.start(), m.end())).collect()),
        Err(_) => None,
    }
}

/// Whether the place is that of a magic value: `<`, at least nothing, `>`.
pub open spec fn site_in(b: Seq<u8>, span: (usize, usize)) -> bool {
    &&& span.0 + 2 <= span.1 <= b.len()
    &&& b[span.0 as int] == 0x3c
    &&& b[span.1 - 1] == 0x3e
}

/// Whether the places are those of magic values of the text, from left to
/// right and without overlap.
pub open spec fn usable(b: Seq<u8>, spans: Seq<(usize, usize)>) -> bool {
    &&& forall|i: int| 0 <= i < spans.len() ==> site_in(b, #[trigger] spans[i])
    &&& forall|i: int, j: int|
        0 <= i < j < spans.len() ==> (#[trigger] spans[i]).1 <= (#[trigger] spans[j]).0
}

/// The command text of the magic value at the place.
pub open spec fn site_command(b: Seq<u8>, span: (usize, usize)) -> Seq<u8> {
    b.subrange(span.0 + 1, span.1 - 1)
}

/// The text between escaped quotes, as it stands inside the string of a
/// request body.
pub open spec fn quoted(text: Seq<char>) -> Seq<char> {
    "\\\""@ + text + "\\\""@
}

/// The text that stands for what a path led to: an integer in decimal, a
/// string between escaped quotes.
pub open spec fn snippet(result: JsonPathResult) -> Seq<char> {
    match result {
        JsonPathResult::Integer(i) => signed_decimal_text(i as int),
        JsonPathResult::String(s) => quoted(s@),
    }
}

/// What a `variable` command gives.
pub open spec fn variable_snippet(variables: Option<Json>, nest: Seq<crate::json_path::JsonNestView>)
    -> Result<Seq<char>, MagicError> {
    match variables {
        None => Err(MagicError::NoVariables),
        Some(json) => match extraction(json, nest) {
            Ok(result) => Ok(snippet(result)),
            Err(e) => Err(MagicError::Path(e)),
        },
    }
}

/// What a `query` command gives for the value of a response.
pub open spec fn response_snippet(json_path: Seq<char>, response: Json) -> Result<
    Seq<char>,
    MagicError,
> {
    match path_of(encode_utf8(json_path)) {
        Err(e) => Err(MagicError::Path(e)),
        Ok(nest) => match extraction(response, nest) {
            Ok(result) => Ok(snippet(result)),
            Err(e) => Err(MagicError::Path(e)),
        },
    }
}

/// What a `query` command gives for the text of a response.
pub open spec fn query_snippet(json_path: Seq<char>, response: Seq<char>) -> Result<
    Seq<char>,
    MagicError,
> {
    match json_of_text(response) {
        None => Err(MagicError::Response),
        Some(json) => response_snippet(json_path, json),
    }
}

/// What a step or a replacement gave, as text.
pub open spec fn text_outcome(r: Result<String, MagicError>) -> Result<Seq<char>, MagicError> {
    match r {
        Ok(text) => Ok(text@),
        Err(e) => Err(e),
    }
}

/// The text between escaped quotes.
pub fn quote(text: &str) -> (r: String)
    ensures
        r@ == quoted(text@),
{
    "\\\"".to_owned().concat(text).concat("\\\"")
}

/// The text that stands for what a path led to.
pub fn insertable_snippet_from_json_path_result(json_path_result: JsonPathResult) -> (r: String)
    ensures
        r@ == snippet(json_path_result),
{
    match json_path_result {
        JsonPathResult::Integer(int_value) => i64_to_decimal(int_value),
        JsonPathResult::String(str_value) => quote(str_value.as_str()),
    }
}

/// What a `query` command gives for the value of a response: what its path
/// leads to.
pub fn response_replacement(json_path: &str, response: &Json) -> (r: Result<String, MagicError>)
    ensures
        text_outcome(r) == response_snippet(json_path@, *response),
{
    let path = match JsonPathRoot::from(json_path) {
        Ok(path) => path,
        Err(e) => {
            return Err(MagicError::Path(e));
        },
    };
    match path.extract(response) {
        Ok(result) => Ok(insertable_snippet_from_json_path_result(result)),
        Err(e) => Err(MagicError::Path(e)),
    }
}

/// What a `query` command gives for the text of a response.
pub fn query_replacement(json_path: &str, response: &str) -> (r: Result<String, MagicError>)
    ensures
        text_outcome(r) == query_snippet(json_path@, response@),
{
    match Json::parse(response) {
        Some(json) => response_replacement(json_path, &json),
        None => Err(MagicError::Response),
    }
}

/// What a `variable` command gives.
pub fn variable_replacement(variables: &Option<Json>, path: &JsonPathRoot) -> (r: Result<
    String,
    MagicError,
>)
    ensures
        text_outcome(r) == variable_snippet(*variables, path@),
{
    match variables {
        None => Err(MagicError::NoVariables),
        Some(json) => match path.extract(json) {
            Ok(result) => Ok(insertable_snippet_from_json_path_result(result)),
            Err(e) => Err(MagicError::Path(e)),
        },
    }
}

/// The operation that the content of a file holds: the content without its
/// line breaks.
pub fn operation_of_file(content: &str) -> (r: String)
    ensures
        encode_utf8(r@) == replaced_all(content.spec_bytes(), 0x0a, Seq::empty()),
{
    proof {
        reveal_strlit("");
        assert(""@ =~= Seq::<char>::empty());
        assert(encode_utf8(Seq::<char>::empty()) =~= Seq::<u8>::empty());
    }
    replace_ascii(content, 0x0a, "")
}

/// The text with a backslash before each quote, as it stands inside the
/// string of a request body.
pub fn escape_quotes(text: &str) -> (r: String)
    ensures
        encode_utf8(r@) == replaced_all(text.spec_bytes(), 0x22, encode_utf8("\\\""@)),
{
    replace_ascii(text, 0x22, "\\\"")
}

/// The body of the request that executes the operation.
pub fn request_body(query: &str) -> (r: String)
    ensures
        r@ == "{ \"query\": \""@ + query@ + "\" }"@,
{
    "{ \"query\": \"".to_owned().concat(query).concat("\" }")
}

/// Whether the places are those of magic values of the text.
pub fn check_spans(text: &str, spans: &Vec<(usize, usize)>) -> (r: bool)
    ensures
        r == usable(text.spec_bytes(), spans@),
{
    let bytes = text.as_bytes();
    let mut previous_end: usize = 0;
    let mut i: usize = 0;
    while i < spans.len()
        invariant
            i <= spans.len(),
            bytes@ == text.spec_bytes(),
            usable(bytes@, spans@.subrange(0, i as int)),
            forall|j: int| 0 <= j < i ==> (#[trigger] spans[j]).1 <= previous_end,
            i > 0 ==> previous_end == spans[i - 1].1,
            i == 0 ==> previous_end == 0,
        decreases spans.len() - i,
    {
        let (start, end) = spans[i];
        let ghost upto = spans@.subrange(0, i + 1);
        assert(spans@[i as int] == (start, end));
        if start < previous_end || end > bytes.len() || end < 2 || start > end - 2 {
            assert(!site_in(bytes@, spans@[i as int]) || (i > 0 && spans@[i - 1].1
                > spans@[i as int].0));
            return false;
        }
        if bytes[start] != 0x3c || bytes[end - 1] != 0x3e {
            assert(!site_in(bytes@, spans@[i as int]));
            return false;
        }
        assert forall|j: int| 0 <= j < upto.len() implies site_in(bytes@, #[trigger] upto[j]) by {
            if j < i {
                assert(upto[j] == spans@.subrange(0, i as int)[j]);
            }
        }
        assert forall|j: int, k: int| 0 <= j < k < upto.len() implies (#[trigger] upto[j]).1 <= (
        #[trigger] upto[k]).0 by {
            if k < i {
                assert(upto[j] == spans@.subrange(0, i as int)[j]);
                assert(upto[k] == spans@.subrange(0, i as int)[k]);
            } else {
                assert(upto[j] == spans[j]);
            }
        }
        previous_end = end;
        i += 1;
    }
    assert(spans@.subrange(0, i as int) =~= spans@);
    true
}

/// The expander of the magic values of a text.
pub struct MagicExpander {
    text: String,
    spans: Vec<(usize, usize)>,
    remaining: usize,
    variables: Option<Json>,
    waiting: Waiting,
}

/// The state of the expander did not change.
pub open spec fn unchanged(old: &MagicExpander, new: &MagicExpander) -> bool {
    &&& new.text() == old.text()
    &&& new.sites() == old.sites()
    &&& new.waiting() == old.waiting()
    &&& new.variables() == old.variables()
}

/// The expander waits, and nothing else changed.
pub open spec fn only_waiting_changed(old: &MagicExpander, new: &MagicExpander) -> bool {
    &&& new.text() == old.text()
    &&& new.sites() == old.sites()
    &&& new.variables() == old.variables()
}

/// The rightmost magic value was replaced by the given text, and the
/// expander waits for nothing.
pub open spec fn replaced_last(old: &MagicExpander, new: &MagicExpander, replacement: Seq<char>)
    -> bool {
    &&& old.sites().len() > 0
    &&& new.sites() == old.sites().drop_last()
    &&& new.text() == spliced(
        old.text(),
        old.sites().last().0 as int,
        old.sites().last().1 as int,
        encode_utf8(replacement),
    )
    &&& new.waiting() is Nothing
    &&& new.variables() == old.variables()
}

/// Whether every character is a lowercase letter.
pub open spec fn all_lowercase(letters: Seq<char>) -> bool {
    forall|i: int| 0 <= i < letters.len() ==> is_lowercase_letter(#[trigger] letters[i])
}

/// What [`MagicExpander::next`] may do: it looks at the rightmost magic
/// value that is left and replaces it, or says what its command needs.
pub open spec fn next_allowed(old: &MagicExpander, new: &MagicExpander, step: MagicStep) -> bool {
    if old.waiting() !is Nothing {
        step == MagicStep::Failed(MagicError::OutOfTurn) && unchanged(old, new)
    } else if old.sites().len() == 0 {
        &&& step matches MagicStep::Finished(text)
        &&& encode_utf8(text@) == old.text()
        &&& unchanged(old, new)
    } else {
        match command_of(site_command(old.text(), old.sites().last())) {
            Err(e) => step == MagicStep::Failed(MagicError::Command(e)) && unchanged(old, new),
            Ok(MagicCommandView::Query { file, json_path }) => {
                &&& step matches MagicStep::ReadFile { path }
                &&& path@ == file
                &&& new.waiting() matches Waiting::File { json_path: path_text }
                &&& path_text@ == json_path
                &&& only_waiting_changed(old, new)
            },
            Ok(MagicCommandView::RandomWord) => {
                &&& step == MagicStep::ReadWords
                &&& new.waiting() is Words
                &&& only_waiting_changed(old, new)
            },
            Ok(MagicCommandView::RandomInteger((min, max))) => if min < max {
                &&& step == MagicStep::Replaced
                &&& exists|n: int|
                    min <= n < max && replaced_last(old, new, #[trigger] signed_decimal_text(n))
            } else {
                step == MagicStep::Failed(MagicError::EmptyRange) && unchanged(old, new)
            },
            Ok(MagicCommandView::RandomString(len)) => {
                &&& step == MagicStep::Replaced
                &&& exists|letters: Seq<char>|
                    letters.len() == len && all_lowercase(letters) && replaced_last(
                        old,
                        new,
                        #[trigger] quoted(letters),
                    )
            },
            Ok(MagicCommandView::Variable(nest)) => match variable_snippet(
                old.variables(),
                nest,
            ) {
                Ok(text) => step == MagicStep::Replaced && replaced_last(old, new, text),
                Err(e) => step == MagicStep::Failed(e) && unchanged(old, new),
            },
        }
    }
}

/// What [`MagicExpander::file_read`] does: it asks for the execution of the
/// operation that the file holds.
pub open spec fn file_read_allowed(
    old: &MagicExpander,
    new: &MagicExpander,
    content: Seq<u8>,
    step: MagicStep,
) -> bool {
    match old.waiting() {
        Waiting::File { json_path } => {
            &&& step matches MagicStep::Execute { operation }
            &&& encode_utf8(operation@) == replaced_all(content, 0x0a, Seq::empty())
            &&& new.waiting() == (Waiting::Response { json_path })
            &&& only_waiting_changed(old, new)
        },
        _ => step == MagicStep::Failed(MagicError::OutOfTurn) && unchanged(old, new),
    }
}

/// What [`MagicExpander::executed`] does: it replaces the magic value by
/// what its path leads to in the response.
pub open spec fn executed_allowed(
    old: &MagicExpander,
    new: &MagicExpander,
    response: Seq<char>,
    step: MagicStep,
) -> bool {
    match old.waiting() {
        Waiting::Response { json_path } => match query_snippet(json_path@, response) {
            Ok(text) => step == MagicStep::Replaced && replaced_last(old, new, text),
            Err(e) => step == MagicStep::Failed(e) && unchanged(old, new),
        },
        _ => step == MagicStep::Failed(MagicError::OutOfTurn) && unchanged(old, new),
    }
}

/// What [`MagicExpander::words_read`] may do: it replaces the magic value
/// by one of the words.
pub open spec fn words_read_allowed(
    old: &MagicExpander,
    new: &MagicExpander,
    words: Seq<String>,
    step: MagicStep,
) -> bool {
    match old.waiting() {
        Waiting::Words => if words.len() == 0 {
            step == MagicStep::Failed(MagicError::NoWords) && unchanged(old, new)
        } else {
            &&& step == MagicStep::Replaced
            &&& exists|i: int|
                0 <= i < words.len() && replaced_last(old, new, quoted((#[trigger] words[i])@))
        },
        _ => step == MagicStep::Failed(MagicError::OutOfTurn) && unchanged(old, new),
    }
}

impl MagicExpander {
    /// The bytes of the text as it stands.
    pub closed spec fn text(&self) -> Seq<u8> {
        encode_utf8(self.text@)
    }

    /// The places of the magic values that are left, from left to right.
    pub closed spec fn sites(&self) -> Seq<(usize, usize)> {
        self.spans@.subrange(0, self.remaining as int)
    }

    /// What the expander waits for.
    pub closed spec fn waiting(&self) -> Waiting {
        self.waiting
    }

    /// The configured variables.
    pub closed spec fn variables(&self) -> Option<Json> {
        self.variables
    }

    /// The expander's invariant: the places that are left are those of
    /// magic values of the text, and it waits only for what the rightmost
    /// of them needs.
    pub closed spec fn well_formed(&self) -> bool {
        &&& self.remaining <= self.spans.len()
        &&& usable(self.text(), self.sites())
        &&& (self.waiting !is Nothing ==> self.remaining > 0)
    }

    /// An expander for the text and the places of its magic values;
    /// `Matches` where the places are not those of magic values.
    pub fn with_spans(text: &str, spans: Vec<(usize, usize)>, variables: Option<Json>) -> (r:
        Result<MagicExpander, MagicError>)
        ensures
            match r {
                Ok(expander) => {
                    &&& usable(text.spec_bytes(), spans@)
                    &&& expander.well_formed()
                    &&& expander.text() == text.spec_bytes()
                    &&& expander.sites() == spans@
                    &&& expander.waiting() is Nothing
                    &&& expander.variables() == variables
                },
                Err(e) => e == MagicError::Matches && !usable(text.spec_bytes(), spans@),
            },
    {
        if !check_spans(text, &spans) {
            return Err(MagicError::Matches);
        }
        let remaining = spans.len();
        assert(spans@.subrange(0, remaining as int) =~= spans@);
        Ok(
            MagicExpander {
                text: text.to_owned(),
                spans,
                remaining,
                variables,
                waiting: Waiting::Nothing,
            },
        )
    }

    /// An expander for the magic values of the text: what matches
    /// `<([^>]+)>`.
    pub fn new(text: &str, variables: Option<Json>) -> (r: Result<MagicExpander, MagicError>)
        ensures
            match r {
                Ok(expander) => {
                    &&& regex_matches("<([^>]+)>"@, text@) == Some(expander.sites())
                    &&& expander.well_formed()
                    &&& expander.text() == text.spec_bytes()
                    &&& expander.waiting() is Nothing
                    &&& expander.variables() == variables
                },
                Err(e) => match regex_matches("<([^>]+)>"@, text@) {
                    None => e == MagicError::Pattern,
                    Some(spans) => e == MagicError::Matches && !usable(text.spec_bytes(), spans),
                },
            },
    {
        match find_matches("<([^>]+)>", text) {
            Some(spans) => MagicExpander::with_spans(text, spans, variables),
            None => Err(MagicError::Pattern),
        }
    }

    /// Replaces the rightmost magic value that is left.
    fn replace(&mut self, replacement: &str)
        requires
            old(self).well_formed(),
            old(self).remaining > 0,
        ensures
            final(self).well_formed(),
            replaced_last(old(self), final(self), replacement@),
    {
        let ghost b = self.text();
        let ghost sites = self.sites();
        let (start, end) = self.spans[self.remaining - 1];
        proof {
            assert(sites[self.remaining - 1] == (start, end));
            assert(site_in(b, sites[self.remaining - 1]));
            encode_utf8_valid_utf8(self.text@);
            lemma_boundary_at(b, start as int);
            lemma_boundary_at(b, end - 1);
            lemma_boundary_after_ascii(b, end - 1);
        }
        let text = splice(self.text.as_str(), start, end, replacement);
        self.text = text;
        self.remaining = self.remaining - 1;
        self.waiting = Waiting::Nothing;
        proof {
            let rest = self.sites();
            let now = self.text();
            assert(rest =~= sites.drop_last());
            assert forall|i: int| 0 <= i < rest.len() implies site_in(now, #[trigger] rest[i]) by {
                assert(rest[i] == sites[i]);
                assert(site_in(b, sites[i]));
                assert(sites[i].1 <= sites[sites.len() - 1].0);
                assert(now[rest[i].0 as int] == b[rest[i].0 as int]);
                assert(now[rest[i].1 - 1] == b[rest[i].1 - 1]);
            }
            assert forall|i: int, j: int| 0 <= i < j < rest.len() implies (#[trigger] rest[i]).1
                <= (#[trigger] rest[j]).0 by {
                assert(rest[i] == sites[i]);
                assert(rest[j] == sites[j]);
            }
        }
    }

    /// Looks at the rightmost magic value that is left: replaces it where
    /// its command needs nothing from outside, else says what it needs.
    pub fn next(&mut self) -> (step: MagicStep)
        requires
            old(self).well_formed(),
        ensures
            final(self).well_formed(),
            next_allowed(old(self), final(self), step),
    {
        match &self.waiting {
            Waiting::Nothing => {},
            _ => {
                return MagicStep::Failed(MagicError::OutOfTurn);
            },
        }
        if self.remaining == 0 {
            return MagicStep::Finished(self.text.clone());
        }
        let ghost b = self.text();
        let ghost sites = self.sites();
        let (start, end) = self.spans[self.remaining - 1];
        proof {
            assert(sites[self.remaining - 1] == (start, end));
            assert(sites.last() == (start, end));
            assert(site_in(b, sites[self.remaining - 1]));
            encode_utf8_valid_utf8(self.text@);
            lemma_boundary_at(b, start as int);
            lemma_boundary_after_ascii(b, start as int);
            lemma_boundary_at(b, end - 1);
        }
        let content = slice_string(self.text.as_str(), start + 1, end - 1);
        let command = match MagicCommand::from(content.as_str()) {
            Ok(command) => command,
            Err(e) => {
                return MagicStep::Failed(MagicError::Command(e));
            },
        };
        match command {
            MagicCommand::Query(query) => {
                self.waiting = Waiting::File { json_path: query.json_path };
                MagicStep::ReadFile { path: query.file }
            },
            MagicCommand::RandomWord => {
                self.waiting = Waiting::Words;
                MagicStep::ReadWords
            },
            MagicCommand::RandomInteger((min, max)) => {
                if min >= max {
                    return MagicStep::Failed(MagicError::EmptyRange);
                }
                let n = random_integer(min, max);
                let replacement = i64_to_decimal(n as i64);
                self.replace(replacement.as_str());
                assert(replaced_last(old(self), self, signed_decimal_text(n as int)));
                MagicStep::Replaced
            },
            MagicCommand::RandomString(len) => {
                let letters = random_string(len);
                let replacement = quote(letters.as_str());
                self.replace(replacement.as_str());
                assert(all_lowercase(letters@));
                assert(replaced_last(old(self), self, quoted(letters@)));
                MagicStep::Replaced
            },
            MagicCommand::Variable(path) => {
                match variable_replacement(&self.variables, &path) {
                    Ok(replacement) => {
                        self.replace(replacement.as_str());
                        MagicStep::Replaced
                    },
                    Err(e) => MagicStep::Failed(e),
                }
            },
        }
    }

    /// Takes the content of the file that was asked for and asks for the
    /// execution of the operation in it.
    pub fn file_read(&mut self, content: &str) -> (step: MagicStep)
        requires
            old(self).well_formed(),
        ensures
            final(self).well_formed(),
            file_read_allowed(old(self), final(self), content.spec_bytes(), step),
    {
        let json_path = match &self.waiting {
            Waiting::File { json_path } => json_path.clone(),
            _ => {
                return MagicStep::Failed(MagicError::OutOfTurn);
            },
        };
        self.waiting = Waiting::Response { json_path };
        MagicStep::Execute { operation: operation_of_file(content) }
    }

    /// Takes the response to the operation that was executed and replaces
    /// the magic value by what its path leads to.
    pub fn executed(&mut self, response: &str) -> (step: MagicStep)
        requires
            old(self).well_formed(),
        ensures
            final(self).well_formed(),
            executed_allowed(old(self), final(self), response@, step),
    {
        let replacement = match &self.waiting {
            Waiting::Response { json_path } => query_replacement(json_path.as_str(), response),
            _ => {
                return MagicStep::Failed(MagicError::OutOfTurn);
            },
        };
        match replacement {
            Ok(replacement) => {
                self.replace(replacement.as_str());
                MagicStep::Replaced
            },
            Err(e) => MagicStep::Failed(e),
        }
    }

    /// Takes the words of the dictionary and replaces the magic value by a
    /// random one of them.
    pub fn words_read(&mut self, words: &Vec<String>) -> (step: MagicStep)
        requires
            old(self).well_formed(),
        ensures
            final(self).well_formed(),
            words_read_allowed(old(self), final(self), words@, step),
    {
        match &self.waiting {
            Waiting::Words => {},
            _ => {
                return MagicStep::Failed(MagicError::OutOfTurn);
            },
        }
        match random_word(words) {
            Some(word) => {
                let replacement = quote(word.as_str());
                self.replace(replacement.as_str());
                MagicStep::Replaced
            },
            None => MagicStep::Failed(MagicError::NoWords),
        }
    }
}

} // verus!
