//! Error-tolerant tokenizer: a linear scan of the source bytes that accounts
//! for every byte with exactly one token and never fails.

use crate::scan::{byte_in_class, in_class, is_digit, is_letter, lemma_scan, scan, scan_run, ByteClass};
use crate::strings::{
    is_ascii_byte, lemma_boundary_after_ascii, lemma_boundary_after_ascii_run, lemma_boundary_at,
    slice_string, text,
};
use std::ops::RangeInclusive;
use vstd::prelude::*;
use vstd::string::*;
use vstd::utf8::*;

verus! {

/// Terminal colour of tokens that could not be read.
pub const COLOR_INVALID: u8 = 91;

/// The kinds of tokens, with the text of those that have one.
#[derive(PartialEq, Eq, Debug, Clone)]
pub enum TokenKind {
    OpenBrace,
    CloseBrace,
    OpenParen,
    CloseParen,
    OpenBracket,
    CloseBracket,
    Colon,
    Comma,
    Ellipsis,
    LineBreak,
    Number(String),
    Keyword(String),
    Str(String),
    Whitespace(String),
    Invalid(String),
    MagicValue(String),
    Comment,
}

/// Mathematical model of a [`TokenKind`]: texts are character sequences.
pub enum TokenKindView {
    OpenBrace,
    CloseBrace,
    OpenParen,
    CloseParen,
    OpenBracket,
    CloseBracket,
    Colon,
    Comma,
    Ellipsis,
    LineBreak,
    Number(Seq<char>),
    Keyword(Seq<char>),
    Str(Seq<char>),
    Whitespace(Seq<char>),
    Invalid(Seq<char>),
    MagicValue(Seq<char>),
    Comment,
}

impl View for TokenKind {
    type V = TokenKindView;

    open spec fn view(&self) -> TokenKindView {
        match self {
            TokenKind::OpenBrace => TokenKindView::OpenBrace,
            TokenKind::CloseBrace => TokenKindView::CloseBrace,
            TokenKind::OpenParen => TokenKindView::OpenParen,
            TokenKind::CloseParen => TokenKindView::CloseParen,
            TokenKind::OpenBracket => TokenKindView::OpenBracket,
            TokenKind::CloseBracket => TokenKindView::CloseBracket,
            TokenKind::Colon => TokenKindView::Colon,
            TokenKind::Comma => TokenKindView::Comma,
            TokenKind::Ellipsis => TokenKindView::Ellipsis,
            TokenKind::LineBreak => TokenKindView::LineBreak,
            TokenKind::Number(s) => TokenKindView::Number(s@),
            TokenKind::Keyword(s) => TokenKindView::Keyword(s@),
            TokenKind::Str(s) => TokenKindView::Str(s@),
            TokenKind::Whitespace(s) => TokenKindView::Whitespace(s@),
            TokenKind::Invalid(s) => TokenKindView::Invalid(s@),
            TokenKind::MagicValue(s) => TokenKindView::MagicValue(s@),
            TokenKind::Comment => TokenKindView::Comment,
        }
    }
}

/// The colour code of each kind of token.
pub open spec fn color_code(kind: TokenKindView) -> u8 {
    match kind {
        TokenKindView::CloseBrace | TokenKindView::OpenBrace => 92,
        TokenKindView::CloseParen | TokenKindView::OpenParen => 96,
        TokenKindView::Colon | TokenKindView::Comma => 97,
        TokenKindView::Keyword(_) => 93,
        TokenKindView::Number(_) => 95,
        TokenKindView::Str(_) => 94,
        TokenKindView::Invalid(_) => COLOR_INVALID,
        TokenKindView::MagicValue(_) => 44,
        TokenKindView::Comment => 90,
        _ => 0,
    }
}

/// Whitespace, line breaks and comments: what the parser never sees.
pub open spec fn is_noise(kind: TokenKindView) -> bool {
    kind is Whitespace || kind is LineBreak || kind is Comment
}

impl TokenKind {
    /// The colour code of the kind.
    pub fn vt100_color_code(&self) -> (code: u8)
        ensures
            code == color_code(self@),
    {
        match self {
            TokenKind::CloseBrace | TokenKind::OpenBrace => 92,
            TokenKind::CloseParen | TokenKind::OpenParen => 96,
            TokenKind::Colon | TokenKind::Comma => 97,
            TokenKind::Keyword(_) => 93,
            TokenKind::Number(_) => 95,
            TokenKind::Str(_) => 94,
            TokenKind::Invalid(_) => COLOR_INVALID,
            TokenKind::MagicValue(_) => 44,
            TokenKind::Comment => 90,
            _ => 0,
        }
    }

    /// Whether the renderer keeps a token of this kind and the parser drops it.
    pub fn is_noise(&self) -> (r: bool)
        ensures
            r == is_noise(self@),
    {
        match self {
            TokenKind::Whitespace(_) | TokenKind::LineBreak | TokenKind::Comment => true,
            _ => false,
        }
    }

    /// Whether two kinds are the same, texts included.
    pub fn same_as(&self, other: &TokenKind) -> (r: bool)
        ensures
            r == (self@ == other@),
    {
        match (self, other) {
            (TokenKind::OpenBrace, TokenKind::OpenBrace) => true,
            (TokenKind::CloseBrace, TokenKind::CloseBrace) => true,
            (TokenKind::OpenParen, TokenKind::OpenParen) => true,
            (TokenKind::CloseParen, TokenKind::CloseParen) => true,
            (TokenKind::OpenBracket, TokenKind::OpenBracket) => true,
            (TokenKind::CloseBracket, TokenKind::CloseBracket) => true,
            (TokenKind::Colon, TokenKind::Colon) => true,
            (TokenKind::Comma, TokenKind::Comma) => true,
            (TokenKind::Ellipsis, TokenKind::Ellipsis) => true,
            (TokenKind::LineBreak, TokenKind::LineBreak) => true,
            (TokenKind::Number(a), TokenKind::Number(b)) => *a == *b,
            (TokenKind::Keyword(a), TokenKind::Keyword(b)) => *a == *b,
            (TokenKind::Str(a), TokenKind::Str(b)) => *a == *b,
            (TokenKind::Whitespace(a), TokenKind::Whitespace(b)) => *a == *b,
            (TokenKind::Invalid(a), TokenKind::Invalid(b)) => *a == *b,
            (TokenKind::MagicValue(a), TokenKind::MagicValue(b)) => *a == *b,
            (TokenKind::Comment, TokenKind::Comment) => true,
            _ => false,
        }
    }

    /// A copy of this kind, equal to it in every field.
    pub fn duplicate(&self) -> (r: TokenKind)
        ensures
            r == *self,
    {
        match self {
            TokenKind::OpenBrace => TokenKind::OpenBrace,
            TokenKind::CloseBrace => TokenKind::CloseBrace,
            TokenKind::OpenParen => TokenKind::OpenParen,
            TokenKind::CloseParen => TokenKind::CloseParen,
            TokenKind::OpenBracket => TokenKind::OpenBracket,
            TokenKind::CloseBracket => TokenKind::CloseBracket,
            TokenKind::Colon => TokenKind::Colon,
            TokenKind::Comma => TokenKind::Comma,
            TokenKind::Ellipsis => TokenKind::Ellipsis,
            TokenKind::LineBreak => TokenKind::LineBreak,
            TokenKind::Number(s) => TokenKind::Number(s.clone()),
            TokenKind::Keyword(s) => TokenKind::Keyword(s.clone()),
            TokenKind::Str(s) => TokenKind::Str(s.clone()),
            TokenKind::Whitespace(s) => TokenKind::Whitespace(s.clone()),
            TokenKind::Invalid(s) => TokenKind::Invalid(s.clone()),
            TokenKind::MagicValue(s) => TokenKind::MagicValue(s.clone()),
            TokenKind::Comment => TokenKind::Comment,
        }
    }
}

/// A token: its kind, the byte range `[pos, pos + len)` of the source that
/// it was read from, and the text of that range.
#[derive(Debug, PartialEq, Eq, Clone)]
pub struct Token {
    pub kind: TokenKind,
    pub pos: usize,
    pub len: usize,
    pub original: String,
}

/// Mathematical model of a [`Token`].
pub struct TokenView {
    pub kind: TokenKindView,
    pub pos: nat,
    pub len: nat,
    pub original: Seq<char>,
}

impl View for Token {
    type V = TokenView;

    open spec fn view(&self) -> TokenView {
        TokenView {
            kind: self.kind@,
            pos: self.pos as nat,
            len: self.len as nat,
            original: self.original@,
        }
    }
}

impl TokenView {
    /// The position after the token.
    pub open spec fn end_pos(self) -> nat {
        self.pos + self.len
    }

    /// Membership in the closed range `[pos, end_pos]`: a cursor just after
    /// the token's last byte is still on the token.
    pub open spec fn touches(self, cursor: nat) -> bool {
        self.pos <= cursor <= self.end_pos()
    }
}

/// The models of a sequence of tokens, one for one.
pub open spec fn token_views(tokens: Seq<Token>) -> Seq<TokenView> {
    tokens.map_values(|t: Token| t@)
}

impl Token {
    /// A token of the given parts.
    pub fn new(kind: TokenKind, pos: usize, len: usize, original: String) -> (token: Token)
        ensures
            token == (Token { kind, pos, len, original }),
    {
        Token { kind, pos, len, original }
    }

    /// Whether the token's end can be computed: `pos + len` fits the machine word.
    pub open spec fn well_formed(&self) -> bool {
        self.pos + self.len <= usize::MAX
    }

    /// The position after the token (exclusive end).
    pub fn end_pos(&self) -> (end: usize)
        requires
            self.well_formed(),
        ensures
            end == self@.end_pos(),
    {
        self.pos + self.len
    }

    /// The closed range `[pos, pos + len]`.
    pub fn range_inclusive(&self) -> (range: RangeInclusive<usize>)
        requires
            self.well_formed(),
        ensures
            range@.start == self.pos,
            range@.end == self@.end_pos(),
            !range@.exhausted,
    {
        RangeInclusive::new(self.pos, self.pos + self.len)
    }

    /// Whether the cursor is on the token: inside the closed range
    /// `[pos, pos + len]`.
    pub fn touches(&self, cursor: usize) -> (on: bool)
        ensures
            on == self@.touches(cursor as nat),
    {
        self.pos <= cursor && cursor - self.pos <= self.len
    }

    /// Whether two tokens are the same: kind, place and text.
    pub fn same_as(&self, other: &Token) -> (r: bool)
        ensures
            r == (self@ == other@),
    {
        self.kind.same_as(&other.kind) && self.pos == other.pos && self.len == other.len
            && self.original == other.original
    }

    /// A copy of this token, equal to it in every field.
    pub fn duplicate(&self) -> (r: Token)
        ensures
            r == *self,
    {
        Token {
            kind: self.kind.duplicate(),
            pos: self.pos,
            len: self.len,
            original: self.original.clone(),
        }
    }
}

/// The kind of the token that a punctuation byte makes on its own.
pub open spec fn punctuation(c: u8) -> Option<TokenKindView> {
    if c == 0x7b {
        Some(TokenKindView::OpenBrace)
    } else if c == 0x7d {
        Some(TokenKindView::CloseBrace)
    } else if c == 0x28 {
        Some(TokenKindView::OpenParen)
    } else if c == 0x29 {
        Some(TokenKindView::CloseParen)
    } else if c == 0x5b {
        Some(TokenKindView::OpenBracket)
    } else if c == 0x5d {
        Some(TokenKindView::CloseBracket)
    } else if c == 0x3a {
        Some(TokenKindView::Colon)
    } else if c == 0x2c {
        Some(TokenKindView::Comma)
    } else {
        None
    }
}

/// Whether the three bytes at `pos` are `...`.
pub open spec fn ellipsis_at(b: Seq<u8>, pos: int) -> bool {
    pos + 3 <= b.len() && b[pos] == 0x2e && b[pos + 1] == 0x2e && b[pos + 2] == 0x2e
}

/// Whether the two bytes at `pos` are `//`.
pub open spec fn comment_at(b: Seq<u8>, pos: int) -> bool {
    pos + 2 <= b.len() && b[pos] == 0x2f && b[pos + 1] == 0x2f
}

/// Whether the literal opened at `pos` is closed by `closer` on the same line.
pub open spec fn closed_at(b: Seq<u8>, pos: int, body: ByteClass, closer: u8) -> bool {
    let q = scan(b, pos + 1, body);
    q < b.len() && b[q] == closer
}

/// The end of a literal opened at `pos`: after its closer, or where the line
/// or the text ends without one.
pub open spec fn literal_end(b: Seq<u8>, pos: int, body: ByteClass, closer: u8) -> int {
    let q = scan(b, pos + 1, body);
    if closed_at(b, pos, body, closer) {
        q + 1
    } else {
        q
    }
}

/// The position after the token that starts at `pos`.
pub open spec fn lexeme_end(b: Seq<u8>, pos: int) -> int {
    let c = b[pos];
    if punctuation(c) is Some || c == 0x0a {
        pos + 1
    } else if in_class(ByteClass::Blank, c) {
        scan(b, pos, ByteClass::Blank)
    } else if is_letter(c) || c == 0x5f {
        scan(b, pos, ByteClass::Word)
    } else if is_digit(c) || c == 0x2d {
        scan(b, pos, ByteClass::Number)
    } else if c == 0x22 {
        literal_end(b, pos, ByteClass::StringBody, 0x22)
    } else if c == 0x3c {
        literal_end(b, pos, ByteClass::MagicBody, 0x3e)
    } else if c == 0x2e {
        if ellipsis_at(b, pos) {
            pos + 3
        } else {
            pos + 1
        }
    } else if c == 0x2f {
        if comment_at(b, pos) {
            scan(b, pos, ByteClass::LineBody)
        } else {
            pos + 1
        }
    } else if is_ascii_byte(c) {
        pos + 1
    } else {
        scan(b, pos + 1, ByteClass::Continuation)
    }
}

/// The kind of the token that starts at `pos`.
pub open spec fn lexeme_kind(b: Seq<u8>, pos: int) -> TokenKindView {
    let c = b[pos];
    let end = lexeme_end(b, pos);
    if punctuation(c) is Some {
        punctuation(c)->0
    } else if c == 0x0a {
        TokenKindView::LineBreak
    } else if in_class(ByteClass::Blank, c) {
        TokenKindView::Whitespace(text(b, pos, end))
    } else if is_letter(c) || c == 0x5f {
        TokenKindView::Keyword(text(b, pos, end))
    } else if is_digit(c) || c == 0x2d {
        TokenKindView::Number(text(b, pos, end))
    } else if c == 0x22 {
        if closed_at(b, pos, ByteClass::StringBody, 0x22) {
            TokenKindView::Str(text(b, pos + 1, end - 1))
        } else {
            TokenKindView::Invalid("Invalid string token"@)
        }
    } else if c == 0x3c {
        if closed_at(b, pos, ByteClass::MagicBody, 0x3e) {
            TokenKindView::MagicValue(text(b, pos + 1, end - 1))
        } else {
            TokenKindView::Invalid("Invalid magic value token"@)
        }
    } else if c == 0x2e {
        if ellipsis_at(b, pos) {
            TokenKindView::Ellipsis
        } else if pos + 3 > b.len() {
            TokenKindView::Invalid("Invalid ellipsis length"@)
        } else {
            TokenKindView::Invalid("Invalid ellipsis chars"@)
        }
    } else if c == 0x2f {
        if comment_at(b, pos) {
            TokenKindView::Comment
        } else {
            TokenKindView::Invalid("Invalid comment start"@)
        }
    } else {
        TokenKindView::Invalid("Invalid character"@)
    }
}

/// The token that starts at `pos`.
pub open spec fn lexeme(b: Seq<u8>, pos: int) -> TokenView {
    let end = lexeme_end(b, pos);
    TokenView {
        kind: lexeme_kind(b, pos),
        pos: pos as nat,
        len: (end - pos) as nat,
        original: text(b, pos, end),
    }
}

/// Every token is at least one byte long and ends inside the text.
pub proof fn lemma_lexeme_bounds(b: Seq<u8>, pos: int)
    requires
        0 <= pos < b.len(),
    ensures
        pos < lexeme_end(b, pos) <= b.len(),
{
    lemma_scan(b, pos, ByteClass::Blank);
    lemma_scan(b, pos, ByteClass::Word);
    lemma_scan(b, pos, ByteClass::Number);
    lemma_scan(b, pos, ByteClass::LineBody);
    lemma_scan(b, pos + 1, ByteClass::StringBody);
    lemma_scan(b, pos + 1, ByteClass::MagicBody);
    lemma_scan(b, pos + 1, ByteClass::Continuation);
}

/// A token that starts where a character starts ends where one ends.
pub proof fn lemma_lexeme_end(b: Seq<u8>, pos: int)
    requires
        valid_utf8(b),
        0 <= pos < b.len(),
        is_char_boundary(b, pos),
    ensures
        pos < lexeme_end(b, pos) <= b.len(),
        is_char_boundary(b, lexeme_end(b, pos)),
{
    let c = b[pos];
    let end = lexeme_end(b, pos);
    lemma_lexeme_bounds(b, pos);
    if punctuation(c) is Some || c == 0x0a {
        lemma_boundary_after_ascii(b, pos);
    } else if in_class(ByteClass::Blank, c) {
        lemma_scan(b, pos, ByteClass::Blank);
        lemma_boundary_after_ascii_run(b, pos, end);
    } else if is_letter(c) || c == 0x5f {
        lemma_scan(b, pos, ByteClass::Word);
        lemma_boundary_after_ascii_run(b, pos, end);
    } else if is_digit(c) || c == 0x2d {
        lemma_scan(b, pos, ByteClass::Number);
        lemma_boundary_after_ascii_run(b, pos, end);
    } else if c == 0x22 {
        lemma_literal_end(b, pos, ByteClass::StringBody, 0x22);
    } else if c == 0x3c {
        lemma_literal_end(b, pos, ByteClass::MagicBody, 0x3e);
    } else if c == 0x2e {
        if ellipsis_at(b, pos) {
            lemma_boundary_after_ascii_run(b, pos, pos + 3);
        } else {
            lemma_boundary_after_ascii(b, pos);
        }
    } else if c == 0x2f {
        if comment_at(b, pos) {
            lemma_scan(b, pos, ByteClass::LineBody);
            lemma_boundary_at(b, end);
        } else {
            lemma_boundary_after_ascii(b, pos);
        }
    } else if is_ascii_byte(c) {
        lemma_boundary_after_ascii(b, pos);
    } else {
        lemma_scan(b, pos + 1, ByteClass::Continuation);
        lemma_boundary_at(b, end);
    }
}

/// Where a literal ends, and that its body lies between character boundaries.
pub proof fn lemma_literal_end(b: Seq<u8>, pos: int, body: ByteClass, closer: u8)
    requires
        valid_utf8(b),
        0 <= pos < b.len(),
        is_char_boundary(b, pos),
        is_ascii_byte(b[pos]),
        is_ascii_byte(closer),
        body == ByteClass::StringBody || body == ByteClass::MagicBody,
    ensures
        pos < scan(b, pos + 1, body) <= literal_end(b, pos, body, closer) <= b.len(),
        is_char_boundary(b, pos + 1),
        is_char_boundary(b, scan(b, pos + 1, body)),
        is_char_boundary(b, literal_end(b, pos, body, closer)),
{
    let q = scan(b, pos + 1, body);
    lemma_scan(b, pos + 1, body);
    lemma_boundary_after_ascii(b, pos);
    lemma_boundary_at(b, q);
    if closed_at(b, pos, body, closer) {
        lemma_boundary_after_ascii(b, q);
    }
}

/// The tokens of the text from `pos` on. With `record_whitespace` off,
/// whitespace, line breaks and comments leave no token but keep their place:
/// the positions of the other tokens are the same in both modes.
pub open spec fn tokens_from(b: Seq<u8>, pos: int, record_whitespace: bool) -> Seq<TokenView>
    decreases b.len() - pos,
{
    if 0 <= pos < b.len() {
        let token = lexeme(b, pos);
        let end = lexeme_end(b, pos);
        proof {
            lemma_lexeme_bounds(b, pos);
        }
        if record_whitespace || !is_noise(token.kind) {
            seq![token] + tokens_from(b, end, record_whitespace)
        } else {
            tokens_from(b, end, record_whitespace)
        }
    } else {
        Seq::empty()
    }
}

/// The tokens of a whole text.
pub open spec fn tokens_of(b: Seq<u8>, record_whitespace: bool) -> Seq<TokenView> {
    tokens_from(b, 0, record_whitespace)
}

fn punctuation_kind(c: u8) -> (r: Option<TokenKind>)
    ensures
        r is Some == punctuation(c) is Some,
        r matches Some(kind) ==> kind@ == punctuation(c)->0,
{
    if c == 0x7b {
        Some(TokenKind::OpenBrace)
    } else if c == 0x7d {
        Some(TokenKind::CloseBrace)
    } else if c == 0x28 {
        Some(TokenKind::OpenParen)
    } else if c == 0x29 {
        Some(TokenKind::CloseParen)
    } else if c == 0x5b {
        Some(TokenKind::OpenBracket)
    } else if c == 0x5d {
        Some(TokenKind::CloseBracket)
    } else if c == 0x3a {
        Some(TokenKind::Colon)
    } else if c == 0x2c {
        Some(TokenKind::Comma)
    } else {
        None
    }
}

/// What the functions that read one token ask of their input: `pos` is
/// inside the text and starts a character.
pub open spec fn at_token_start(source: &str, pos: usize) -> bool {
    &&& pos < source.spec_bytes().len()
    &&& is_char_boundary(source.spec_bytes(), pos as int)
}

/// The tokenizer.
pub struct Tokenizer;

impl Tokenizer {
    /// Tokenizes the lines as one text in which a line break follows each
    /// line but the last.
    pub fn tokenize_lines(source: &Vec<String>, record_whitespace: bool) -> (tokens: Vec<Token>)
        ensures
            token_views(tokens@) == tokens_of(
                encode_utf8(join_lines(source.deep_view())),
                record_whitespace,
            ),
            forall|i: int| 0 <= i < tokens.len() ==> (#[trigger] tokens[i]).well_formed(),
    {
        let joined = join(source);
        Tokenizer::tokenize(joined.as_str(), record_whitespace)
    }

    /// Splits the text into tokens. Every byte belongs to exactly one token;
    /// what cannot be read becomes an `Invalid` token.
    pub fn tokenize(source: &str, record_whitespace: bool) -> (tokens: Vec<Token>)
        ensures
            token_views(tokens@) == tokens_of(source.spec_bytes(), record_whitespace),
            forall|i: int| 0 <= i < tokens.len() ==> (#[trigger] tokens[i]).well_formed(),
    {
        let bytes = source.as_bytes();
        let mut tokens: Vec<Token> = Vec::new();
        let mut pos: usize = 0;
        proof {
            encode_utf8_valid_utf8(source@);
        }
        assert(token_views(tokens@) + tokens_from(bytes@, 0, record_whitespace) =~= tokens_of(
            bytes@,
            record_whitespace,
        ));
        while pos < bytes.len()
            invariant
                bytes@ == source.spec_bytes(),
                valid_utf8(bytes@),
                pos <= bytes.len(),
                is_char_boundary(bytes@, pos as int),
                token_views(tokens@) + tokens_from(bytes@, pos as int, record_whitespace)
                    == tokens_of(bytes@, record_whitespace),
                forall|i: int| 0 <= i < tokens.len() ==> (#[trigger] tokens[i]).well_formed(),
            decreases bytes.len() - pos,
        {
            let token = Tokenizer::next_token(source, pos);
            proof {
                lemma_lexeme_end(bytes@, pos as int);
            }
            let ghost before = tokens@;
            let ghost rest = tokens_from(bytes@, lexeme_end(bytes@, pos as int), record_whitespace);
            pos = pos + token.len;
            if record_whitespace || !token.kind.is_noise() {
                tokens.push(token);
                assert(token_views(tokens@) =~= token_views(before).push(token@));
                assert(token_views(before).push(token@) + rest =~= token_views(before) + (
                seq![token@] + rest));
            }
        }
        assert(token_views(tokens@) + Seq::<TokenView>::empty() =~= token_views(tokens@));
        tokens
    }

    /// Reads the token that starts at `pos`.
    fn next_token(source: &str, pos: usize) -> (token: Token)
        requires
            at_token_start(source, pos),
        ensures
            token@ == lexeme(source.spec_bytes(), pos as int),
            token.pos == pos,
    {
        let bytes = source.as_bytes();
        let c = bytes[pos];
        proof {
            encode_utf8_valid_utf8(source@);
            lemma_lexeme_end(bytes@, pos as int);
        }
        match punctuation_kind(c) {
            Some(kind) => {
                return Tokenizer::cut(source, kind, pos, pos + 1);
            },
            None => {},
        }
        if c == 0x0a {
            Tokenizer::cut(source, TokenKind::LineBreak, pos, pos + 1)
        } else if byte_in_class(ByteClass::Blank, c) {
            Tokenizer::consume_whitespace(source, pos)
        } else if (0x61 <= c && c <= 0x7a) || (0x41 <= c && c <= 0x5a) || c == 0x5f {
            Tokenizer::consume_keyword(source, pos)
        } else if (0x30 <= c && c <= 0x39) || c == 0x2d {
            Tokenizer::consume_number(source, pos)
        } else if c == 0x22 {
            Tokenizer::consume_string(source, pos)
        } else if c == 0x3c {
            Tokenizer::consume_magic_value(source, pos)
        } else if c == 0x2e {
            Tokenizer::consume_ellipsis(source, pos)
        } else if c == 0x2f {
            Tokenizer::consume_comment(source, pos)
        } else {
            let end = if c < 0x80 {
                pos + 1
            } else {
                scan_run(bytes, pos + 1, ByteClass::Continuation)
            };
            Tokenizer::cut(
                source,
                TokenKind::Invalid("Invalid character".to_owned()),
                pos,
                end,
            )
        }
    }

    /// The token of the given kind that holds the bytes `pos..end`.
    fn cut(source: &str, kind: TokenKind, pos: usize, end: usize) -> (token: Token)
        requires
            pos <= end <= source.spec_bytes().len(),
            is_char_boundary(source.spec_bytes(), pos as int),
            is_char_boundary(source.spec_bytes(), end as int),
        ensures
            token@ == (TokenView {
                kind: kind@,
                pos: pos as nat,
                len: (end - pos) as nat,
                original: text(source.spec_bytes(), pos as int, end as int),
            }),
            token.pos == pos,
    {
        Token::new(kind, pos, end - pos, slice_string(source, pos, end))
    }

    fn consume_ellipsis(source: &str, pos: usize) -> (token: Token)
        requires
            at_token_start(source, pos),
            source.spec_bytes()[pos as int] == 0x2e,
        ensures
            token@ == lexeme(source.spec_bytes(), pos as int),
            token.pos == pos,
    {
        let bytes = source.as_bytes();
        proof {
            encode_utf8_valid_utf8(source@);
            lemma_lexeme_end(bytes@, pos as int);
        }
        if bytes.len() - pos < 3 {
            return Tokenizer::cut(
                source,
                TokenKind::Invalid("Invalid ellipsis length".to_owned()),
                pos,
                pos + 1,
            );
        }
        if bytes[pos + 1] != 0x2e || bytes[pos + 2] != 0x2e {
            return Tokenizer::cut(
                source,
                TokenKind::Invalid("Invalid ellipsis chars".to_owned()),
                pos,
                pos + 1,
            );
        }
        Tokenizer::cut(source, TokenKind::Ellipsis, pos, pos + 3)
    }

    fn consume_comment(source: &str, pos: usize) -> (token: Token)
        requires
            at_token_start(source, pos),
            source.spec_bytes()[pos as int] == 0x2f,
        ensures
            token@ == lexeme(source.spec_bytes(), pos as int),
            token.pos == pos,
    {
        let bytes = source.as_bytes();
        proof {
            encode_utf8_valid_utf8(source@);
            lemma_lexeme_end(bytes@, pos as int);
        }
        if bytes.len() - pos < 2 || bytes[pos + 1] != 0x2f {
            return Tokenizer::cut(
                source,
                TokenKind::Invalid("Invalid comment start".to_owned()),
                pos,
                pos + 1,
            );
        }
        let end = scan_run(bytes, pos, ByteClass::LineBody);
        Tokenizer::cut(source, TokenKind::Comment, pos, end)
    }

    fn consume_keyword(source: &str, pos: usize) -> (token: Token)
        requires
            at_token_start(source, pos),
            is_letter(source.spec_bytes()[pos as int]) || source.spec_bytes()[pos as int] == 0x5f,
        ensures
            token@ == lexeme(source.spec_bytes(), pos as int),
            token.pos == pos,
    {
        let bytes = source.as_bytes();
        proof {
            encode_utf8_valid_utf8(source@);
            lemma_lexeme_end(bytes@, pos as int);
        }
        let end = scan_run(bytes, pos, ByteClass::Word);
        let fragment = slice_string(source, pos, end);
        Tokenizer::cut(source, TokenKind::Keyword(fragment), pos, end)
    }

    fn consume_whitespace(source: &str, pos: usize) -> (token: Token)
        requires
            at_token_start(source, pos),
            in_class(ByteClass::Blank, source.spec_bytes()[pos as int]),
        ensures
            token@ == lexeme(source.spec_bytes(), pos as int),
            token.pos == pos,
    {
        let bytes = source.as_bytes();
        proof {
            encode_utf8_valid_utf8(source@);
            lemma_lexeme_end(bytes@, pos as int);
        }
        let end = scan_run(bytes, pos, ByteClass::Blank);
        let fragment = slice_string(source, pos, end);
        Tokenizer::cut(source, TokenKind::Whitespace(fragment), pos, end)
    }

    fn consume_number(source: &str, pos: usize) -> (token: Token)
        requires
            at_token_start(source, pos),
            is_digit(source.spec_bytes()[pos as int]) || source.spec_bytes()[pos as int] == 0x2d,
        ensures
            token@ == lexeme(source.spec_bytes(), pos as int),
            token.pos == pos,
    {
        let bytes = source.as_bytes();
        proof {
            encode_utf8_valid_utf8(source@);
            lemma_lexeme_end(bytes@, pos as int);
        }
        let end = scan_run(bytes, pos, ByteClass::Number);
        let fragment = slice_string(source, pos, end);
        Tokenizer::cut(source, TokenKind::Number(fragment), pos, end)
    }

    fn consume_string(source: &str, pos: usize) -> (token: Token)
        requires
            at_token_start(source, pos),
            source.spec_bytes()[pos as int] == 0x22,
        ensures
            token@ == lexeme(source.spec_bytes(), pos as int),
            token.pos == pos,
    {
        let bytes = source.as_bytes();
        proof {
            encode_utf8_valid_utf8(source@);
            lemma_literal_end(bytes@, pos as int, ByteClass::StringBody, 0x22);
        }
        assert(pos < bytes.len());
        let body_end = scan_run(bytes, pos + 1, ByteClass::StringBody);
        if body_end < bytes.len() && bytes[body_end] == 0x22 {
            let fragment = slice_string(source, pos + 1, body_end);
            Tokenizer::cut(source, TokenKind::Str(fragment), pos, body_end + 1)
        } else {
            Tokenizer::cut(
                source,
                TokenKind::Invalid("Invalid string token".to_owned()),
                pos,
                body_end,
            )
        }
    }

    fn consume_magic_value(source: &str, pos: usize) -> (token: Token)
        requires
            at_token_start(source, pos),
            source.spec_bytes()[pos as int] == 0x3c,
        ensures
            token@ == lexeme(source.spec_bytes(), pos as int),
            token.pos == pos,
    {
        let bytes = source.as_bytes();
        proof {
            encode_utf8_valid_utf8(source@);
            lemma_literal_end(bytes@, pos as int, ByteClass::MagicBody, 0x3e);
        }
        assert(pos < bytes.len());
        let body_end = scan_run(bytes, pos + 1, ByteClass::MagicBody);
        if body_end < bytes.len() && bytes[body_end] == 0x3e {
            let fragment = slice_string(source, pos + 1, body_end);
            Tokenizer::cut(source, TokenKind::MagicValue(fragment), pos, body_end + 1)
        } else {
            Tokenizer::cut(
                source,
                TokenKind::Invalid("Invalid magic value token".to_owned()),
                pos,
                body_end,
            )
        }
    }
}

/// Joins the lines into one text, with a line break between each two.
pub fn join(lines: &Vec<String>) -> (joined: String)
    ensures
        joined@ == join_lines(lines.deep_view()),
{
    let mut joined = String::new();
    let mut i: usize = 0;
    while i < lines.len()
        invariant
            i <= lines.len(),
            joined@ == join_lines(lines.deep_view().subrange(0, i as int)),
        decreases lines.len() - i,
    {
        proof {
            reveal_strlit("\n");
            let done = lines.deep_view().subrange(0, i as int);
            let next = lines.deep_view().subrange(0, i + 1);
            assert(next.drop_last() =~= done);
            assert(next.last() == lines[i as int]@);
            assert("\n"@ =~= seq!['\n']);
        }
        if i > 0 {
            joined.append("\n");
        }
        joined.append(lines[i].as_str());
        i += 1;
    }
    assert(lines.deep_view().subrange(0, i as int) =~= lines.deep_view());
    joined
}

/// The lines joined into one text, with a line break between each two.
pub open spec fn join_lines(lines: Seq<Seq<char>>) -> Seq<char>
    decreases lines.len(),
{
    if lines.len() == 0 {
        Seq::empty()
    } else if lines.len() == 1 {
        lines[0]
    } else {
        join_lines(lines.drop_last()) + seq!['\n'] + lines.last()
    }
}

} // verus!
