//! The editor's decisions: what a key press does to the buffer, and what
//! is to be shown for the buffer as it stands. Reading keys, writing files
//! and drawing are left to the caller.

use crate::analyzer::{
    analysis_of, matching, Analyzer, AnalyzerError, AnalyzerErrorView, Suggestion, SuggestionView,
};
use crate::grammar::{root_of, ParseErrorView};
use crate::parser::{tokens_fit, ParseError, Parser};
use crate::schema::{field_candidates, SchemaView, Type, TypeView};
use crate::stdin_reader::KeyboardInput;
use crate::text::{is_visible, SourceFile, Text, TextView};
use crate::tokenizer::{is_noise, join_lines, token_views, tokens_of, Token, TokenView, Tokenizer};
use crate::tokenizer_laws::without_noise;
use crate::util::CoordUsize;
use vstd::prelude::*;
use vstd::string::*;
use vstd::utf8::*;

verus! {

/// Whether the next digit picks a suggestion.
#[derive(Debug, Clone, Copy, PartialEq, Eq, Structural)]
pub enum State {
    Edit,
    SuggestionSelect,
}

/// What the caller is to do after a key press, before the screen is
/// refreshed.
#[derive(Debug, Clone, Copy, PartialEq, Eq, Structural)]
pub enum EditorRequest {
    Nothing,
    /// Write the buffer to its file, then call [`Editor::saved`].
    Save,
    /// Ask the terminal for its size again.
    ReloadTerminalSize,
}

/// What is to be shown.
pub struct Frame {
    /// The tokens of the buffer, whitespace included.
    pub tokens: Vec<Token>,
    pub cursor: CoordUsize,
    pub suggestions: Option<Suggestion>,
    pub parse_error: Option<ParseError>,
    pub definition_error: Option<AnalyzerError>,
    pub suggestion_selection_mode: bool,
    pub file_name: Option<String>,
    pub is_file_saved: bool,
}

/// What the analysis of a buffer gives.
pub enum Completion {
    Suggestions(Option<SuggestionView>),
    ParseError(ParseErrorView),
    DefinitionError(AnalyzerErrorView),
}

/// What is offered in a buffer without tokens: the fields of the query
/// root, if the schema defines it with fields.
pub open spec fn root_fields(schema: SchemaView) -> Option<SuggestionView> {
    match schema.type_definition(schema.query_root_name@) {
        Some(TypeView::Object(t)) | Some(TypeView::Interface(t)) => Some(
            SuggestionView { elems: matching(field_candidates(t.fields), Seq::empty()), token: None },
        ),
        _ => None,
    }
}

/// What the analysis gives for tokens without whitespace and a cursor
/// position. Without tokens, the fields of the query root are offered.
pub open spec fn completion_of_tokens(schema: SchemaView, t: Seq<TokenView>, cursor: nat)
    -> Completion {
    if t.len() == 0 {
        Completion::Suggestions(root_fields(schema))
    } else {
        match root_of(t) {
            Err(e) => Completion::ParseError(e),
            Ok(root) => match analysis_of(schema, root, cursor) {
                Ok(suggestion) => Completion::Suggestions(suggestion),
                Err(e) => Completion::DefinitionError(e),
            },
        }
    }
}

/// What the analysis gives for a text and a cursor position: the text is
/// tokenized, whitespace, line breaks and comments are dropped, the rest is
/// parsed, and the tree is analyzed.
pub open spec fn completion_of(schema: SchemaView, b: Seq<u8>, cursor: nat) -> Completion {
    completion_of_tokens(schema, without_noise(tokens_of(b, true)), cursor)
}

/// The completion that a frame shows.
pub open spec fn frame_completion(frame: &Frame) -> Completion {
    match (frame.parse_error, frame.definition_error) {
        (Some(e), _) => Completion::ParseError(e@),
        (None, Some(e)) => Completion::DefinitionError(e@),
        (None, None) => Completion::Suggestions(
            match frame.suggestions {
                Some(suggestion) => Some(suggestion@),
                None => None,
            },
        ),
    }
}

/// Dropping a token that is noise from the end, or keeping one that is not.
pub proof fn lemma_without_noise_push(tokens: Seq<TokenView>, token: TokenView)
    ensures
        without_noise(tokens.push(token)) == (if is_noise(token.kind) {
            without_noise(tokens)
        } else {
            without_noise(tokens).push(token)
        }),
    decreases tokens.len(),
{
    let all = tokens.push(token);
    if tokens.len() == 0 {
        assert(all.drop_first() =~= Seq::<TokenView>::empty());
        assert(without_noise(all.drop_first()) =~= Seq::<TokenView>::empty());
        assert(without_noise(tokens) =~= Seq::<TokenView>::empty());
        if !is_noise(token.kind) {
            assert(without_noise(all) =~= seq![token]);
            assert(without_noise(tokens).push(token) =~= seq![token]);
        }
    } else {
        lemma_without_noise_push(tokens.drop_first(), token);
        assert(all.drop_first() =~= tokens.drop_first().push(token));
        assert(all[0] == tokens[0]);
        if is_noise(tokens[0].kind) {
        } else {
            if is_noise(token.kind) {
            } else {
                assert(seq![tokens[0]] + without_noise(tokens.drop_first()).push(token) =~= (
                seq![tokens[0]] + without_noise(tokens.drop_first())).push(token));
            }
        }
    }
}

/// The tokens that are no whitespace, line break or comment.
pub fn strip_noise(tokens: &Vec<Token>) -> (kept: Vec<Token>)
    requires
        tokens_fit(tokens@),
    ensures
        token_views(kept@) == without_noise(token_views(tokens@)),
        tokens_fit(kept@),
{
    let mut kept: Vec<Token> = Vec::new();
    let mut i: usize = 0;
    let ghost all = token_views(tokens@);
    assert(all.subrange(0, 0) =~= Seq::<TokenView>::empty());
    assert(token_views(kept@) =~= Seq::<TokenView>::empty());
    while i < tokens.len()
        invariant
            i <= tokens.len(),
            all == token_views(tokens@),
            tokens_fit(tokens@),
            tokens_fit(kept@),
            token_views(kept@) == without_noise(all.subrange(0, i as int)),
        decreases tokens.len() - i,
    {
        let ghost before = token_views(kept@);
        proof {
            lemma_without_noise_push(all.subrange(0, i as int), all[i as int]);
            assert(all.subrange(0, i + 1) =~= all.subrange(0, i as int).push(all[i as int]));
        }
        if !tokens[i].kind.is_noise() {
            let token = tokens[i].duplicate();
            kept.push(token);
            assert(token_views(kept@) =~= before.push(token@));
        }
        i += 1;
    }
    assert(all.subrange(0, i as int) =~= all);
    kept
}

/// The editor: a buffer, the analyzer of its text, and the suggestion
/// that was shown last.
pub struct Editor {
    content: Text,
    analyzer: Analyzer,
    state: State,
    previous_suggestion: Option<Suggestion>,
}

/// The text after a key press in the given state.
pub open spec fn text_after_key(
    text: TextView,
    line_count_fits: bool,
    state: State,
    previous: Option<Suggestion>,
    input: KeyboardInput,
) -> TextView {
    match input {
        KeyboardInput::VisibleChar(code) => if state == State::SuggestionSelect {
            if 0x30 <= code <= 0x39 {
                text_with_suggestion(text, previous, (code - 0x30) as int)
            } else {
                text
            }
        } else {
            if is_visible(code as int) {
                text.typed(code)
            } else {
                text
            }
        },
        KeyboardInput::Left => text.moved_left(),
        KeyboardInput::Right => text.moved_right(),
        KeyboardInput::Up => text.moved_up(),
        KeyboardInput::Down => text.moved_down(),
        KeyboardInput::Delete => text.deleted(),
        KeyboardInput::Home => TextView { x: 0, ..text },
        KeyboardInput::End => TextView { x: text.line().len() as int, ..text },
        KeyboardInput::Enter => if line_count_fits {
            text.broken()
        } else {
            text
        },
        KeyboardInput::Backspace => text.backspaced(),
        KeyboardInput::Tab => text.tabbed(),
        KeyboardInput::CtrlSlash => text.comment_toggled(),
        KeyboardInput::AltDigit(digit) => text_with_suggestion(text, previous, digit as int),
        KeyboardInput::CtrlW => text.word_deleted(),
        _ => text,
    }
}

/// The text after the element of the given index of the suggestion shown
/// last was applied.
pub open spec fn text_with_suggestion(text: TextView, previous: Option<Suggestion>, index: int)
    -> TextView {
    match previous {
        Some(suggestion) => if 0 <= index < suggestion.elems.len() {
            match suggestion.token {
                Some(token) => text.with_token_replaced(
                    token.pos as int,
                    token.len as int,
                    encode_utf8(suggestion.elems[index].name@),
                ),
                None => text.with_name_inserted(encode_utf8(suggestion.elems[index].name@)),
            }
        } else {
            text
        },
        None => text,
    }
}

/// The state after a key press: `Ctrl-O` makes the next digit pick a
/// suggestion, and any visible character ends that.
pub open spec fn state_after_key(state: State, input: KeyboardInput) -> State {
    match input {
        KeyboardInput::CtrlO => State::SuggestionSelect,
        KeyboardInput::VisibleChar(_) => State::Edit,
        _ => state,
    }
}

/// What a key press asks of the caller.
pub open spec fn request_of_key(input: KeyboardInput) -> EditorRequest {
    match input {
        KeyboardInput::CtrlR => EditorRequest::ReloadTerminalSize,
        KeyboardInput::AltS | KeyboardInput::CtrlS => EditorRequest::Save,
        _ => EditorRequest::Nothing,
    }
}

impl Editor {
    /// The buffer.
    pub closed spec fn text(&self) -> TextView {
        self.content@
    }

    /// The text of the buffer: its lines with a line break between each two.
    pub closed spec fn source(&self) -> Seq<char> {
        join_lines(self.content.lines.deep_view())
    }

    /// The number of lines of the buffer.
    pub closed spec fn line_count(&self) -> nat {
        self.content.lines.len() as nat
    }

    /// Whether the next digit picks a suggestion.
    pub closed spec fn state(&self) -> State {
        self.state
    }

    /// The suggestion that was shown last.
    pub closed spec fn previous_suggestion(&self) -> Option<Suggestion> {
        self.previous_suggestion
    }

    /// The schema that completions are proposed from.
    pub closed spec fn schema(&self) -> SchemaView {
        self.analyzer.schema()
    }

    /// The editor's invariant: that of its buffer.
    pub closed spec fn well_formed(&self) -> bool {
        self.content.well_formed()
    }

    /// An editor for the buffer.
    pub fn new(content: Text, analyzer: Analyzer) -> (editor: Editor)
        requires
            content.well_formed(),
        ensures
            editor.well_formed(),
            editor.text() == content@,
            editor.source() == join_lines(content.lines.deep_view()),
            editor.state() == State::Edit,
            editor.previous_suggestion() is None,
            editor.schema() == analyzer.schema(),
    {
        Editor { content, analyzer, state: State::Edit, previous_suggestion: None }
    }

    /// The buffer, to read.
    pub fn content(&self) -> (content: &Text)
        requires
            self.well_formed(),
        ensures
            content.well_formed(),
            content@ == self.text(),
            join_lines(content.lines.deep_view()) == self.source(),
    {
        &self.content
    }

    /// Takes the content of a file in the place of the buffer.
    pub fn reload_from_file(&mut self, file: SourceFile)
        ensures
            final(self).well_formed(),
            final(self).state() == old(self).state(),
            final(self).previous_suggestion() == old(self).previous_suggestion(),
            final(self).schema() == old(self).schema(),
            final(self).text() == (TextView {
                lines: crate::text::buffer_lines(encode_utf8(file.content@)),
                x: 0,
                y: 0,
                saved: true,
            }),
    {
        self.content.reload_from_file(file);
    }

    /// Notes that the buffer was written to its file.
    pub fn saved(&mut self)
        requires
            old(self).well_formed(),
        ensures
            final(self).well_formed(),
            final(self).text() == (TextView { saved: true, ..old(self).text() }),
            final(self).state() == old(self).state(),
            final(self).previous_suggestion() == old(self).previous_suggestion(),
            final(self).schema() == old(self).schema(),
    {
        self.content.mark_saved();
    }

    /// Applies the element of the suggestion shown last.
    fn apply_previous_suggestion(&mut self, index: usize)
        requires
            old(self).well_formed(),
        ensures
            final(self).well_formed(),
            final(self).text() == text_with_suggestion(
                old(self).text(),
                old(self).previous_suggestion(),
                index as int,
            ),
            final(self).state() == old(self).state(),
            final(self).previous_suggestion() == old(self).previous_suggestion(),
            final(self).schema() == old(self).schema(),
    {
        match &self.previous_suggestion {
            Some(suggestion) => {
                self.content.apply_suggestion(suggestion, index);
            },
            None => {},
        }
    }

    /// Does what the key stands for and says what is left for the caller to
    /// do. The screen is to be refreshed after every key.
    pub fn update(&mut self, input: KeyboardInput) -> (request: EditorRequest)
        requires
            old(self).well_formed(),
        ensures
            final(self).well_formed(),
            request == request_of_key(input),
            final(self).state() == state_after_key(old(self).state(), input),
            final(self).text() == text_after_key(
                old(self).text(),
                old(self).line_count() < usize::MAX,
                old(self).state(),
                old(self).previous_suggestion(),
                input,
            ),
            final(self).previous_suggestion() == old(self).previous_suggestion(),
            final(self).schema() == old(self).schema(),
    {
        match input {
            KeyboardInput::CtrlO => {
                self.state = State::SuggestionSelect;
                EditorRequest::Nothing
            },
            KeyboardInput::CtrlR => EditorRequest::ReloadTerminalSize,
            KeyboardInput::VisibleChar(code) => {
                if self.state == State::SuggestionSelect {
                    if code >= 0x30 && code <= 0x39 {
                        self.apply_previous_suggestion((code - 0x30) as usize);
                    }
                    self.state = State::Edit;
                } else {
                    self.content.insert_visible_char(code as char);
                }
                EditorRequest::Nothing
            },
            KeyboardInput::Left => {
                self.content.move_cursor_left();
                EditorRequest::Nothing
            },
            KeyboardInput::Right => {
                self.content.move_cursor_right();
                EditorRequest::Nothing
            },
            KeyboardInput::Up => {
                self.content.move_cursor_up();
                EditorRequest::Nothing
            },
            KeyboardInput::Down => {
                self.content.move_cursor_down();
                EditorRequest::Nothing
            },
            KeyboardInput::Delete => {
                self.content.delete();
                EditorRequest::Nothing
            },
            KeyboardInput::Home => {
                self.content.move_cursor_to_home();
                EditorRequest::Nothing
            },
            KeyboardInput::End => {
                self.content.move_cursor_to_end();
                EditorRequest::Nothing
            },
            KeyboardInput::AltS | KeyboardInput::CtrlS => EditorRequest::Save,
            KeyboardInput::Enter => {
                if self.content.lines.len() < usize::MAX {
                    self.content.insert_new_line();
                }
                EditorRequest::Nothing
            },
            KeyboardInput::Backspace => {
                self.content.backspace();
                EditorRequest::Nothing
            },
            KeyboardInput::Tab => {
                self.content.insert_tab();
                EditorRequest::Nothing
            },
            KeyboardInput::CtrlSlash => {
                self.content.toggle_comment();
                EditorRequest::Nothing
            },
            KeyboardInput::AltDigit(digit) => {
                self.apply_previous_suggestion(digit as usize);
                EditorRequest::Nothing
            },
            KeyboardInput::CtrlW => {
                self.content.delete_word();
                EditorRequest::Nothing
            },
            _ => EditorRequest::Nothing,
        }
    }

    /// Analyzes the buffer as it stands and says what is to be shown. The
    /// suggestion of the frame is the one that digits pick from next.
    pub fn refresh_screen(&mut self) -> (frame: Frame)
        requires
            old(self).well_formed(),
        ensures
            final(self).well_formed(),
            final(self).text() == old(self).text(),
            final(self).state() == old(self).state(),
            final(self).schema() == old(self).schema(),
            token_views(frame.tokens@) == tokens_of(
                encode_utf8(old(self).source()),
                true,
            ),
            frame_completion(&frame) == completion_of(
                old(self).schema(),
                encode_utf8(old(self).source()),
                (if old(self).text().cursor_position() <= usize::MAX {
                    old(self).text().cursor_position()
                } else {
                    usize::MAX as int
                }) as nat,
            ),
            frame.cursor == (CoordUsize {
                x: old(self).text().x as usize,
                y: old(self).text().y as usize,
            }),
            frame.suggestion_selection_mode == (old(self).state() == State::SuggestionSelect),
            frame.is_file_saved == old(self).text().saved,
            frame_completion(&frame) is Suggestions ==> (match (
                final(self).previous_suggestion(),
                frame.suggestions,
            ) {
                (Some(kept), Some(shown)) => kept@ == shown@,
                (None, None) => true,
                _ => false,
            }),
            !(frame_completion(&frame) is Suggestions) ==> final(self).previous_suggestion()
                == old(self).previous_suggestion(),
    {
        let tokens = self.build_tokens();
        let tokens_without_whitespace = strip_noise(&tokens);
        let cursor_position = self.content.new_line_adjusted_cursor_position();
        let mut parse_error = None;
        let mut suggestions = None;
        let mut definition_error = None;
        match Editor::analyze_tokens(&self.analyzer, tokens_without_whitespace, cursor_position) {
            Ok(Ok(ok)) => {
                self.previous_suggestion = match &ok {
                    Some(suggestion) => Some(suggestion.duplicate()),
                    None => None,
                };
                suggestions = ok;
            },
            Ok(Err(err)) => {
                definition_error = Some(err);
            },
            Err(err) => {
                parse_error = Some(err);
            },
        }
        Frame {
            tokens,
            cursor: CoordUsize { x: self.content.cursor.x, y: self.content.cursor.y },
            suggestions,
            parse_error,
            definition_error,
            suggestion_selection_mode: self.state == State::SuggestionSelect,
            file_name: match &self.content.file_path {
                Some(path) => Some(path.clone()),
                None => None,
            },
            is_file_saved: self.content.is_file_saved,
        }
    }

    /// Parses the tokens and analyzes the tree at the cursor position.
    /// Without tokens, the fields of the query root are offered.
    pub fn analyze_tokens(analyzer: &Analyzer, tokens: Vec<Token>, cursor: usize) -> (r: Result<
        Result<Option<Suggestion>, AnalyzerError>,
        ParseError,
    >)
        requires
            tokens_fit(tokens@),
        ensures
            completion_of_tokens(analyzer.schema(), token_views(tokens@), cursor as nat) == (match r {
                Ok(Ok(Some(suggestion))) => Completion::Suggestions(Some(suggestion@)),
                Ok(Ok(None)) => Completion::Suggestions(None),
                Ok(Err(e)) => Completion::DefinitionError(e@),
                Err(e) => Completion::ParseError(e@),
            }),
    {
        if tokens.len() == 0 {
            return Ok(Ok(analyzer.root_fields()));
        }
        match Parser::new(tokens).parse() {
            Ok(root) => Ok(analyzer.analyze(root, cursor)),
            Err(e) => Err(e),
        }
    }

    fn build_tokens(&self) -> (tokens: Vec<Token>)
        ensures
            token_views(tokens@) == tokens_of(
                encode_utf8(join_lines(self.content.lines.deep_view())),
                true,
            ),
            tokens_fit(tokens@),
    {
        Tokenizer::tokenize_lines(&self.content.lines, true)
    }
}

} // verus!
