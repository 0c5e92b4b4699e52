//! What holds of the tokens of a text in which a keyword was replaced by a
//! name: the tokens before it stay, the keyword becomes the name, and the
//! tokens after it only move.

use crate::ast::{FieldView, ParamKeyValuePairView, ParamValueView};
use crate::grammar::{
    arg_list_at, concrete_field_at, field_at, field_list_at, fields_at, keyword_at, kind_at,
    list_at, list_elems_at, optional_arg_list_at, optional_field_list_at, param_at, params_at,
    peek, root_of, union_field_at, unread, value_at, Parse,
};
use crate::scan::{in_class, is_letter, lemma_scan, scan, ByteClass};
use crate::strings::{spliced, text};
use crate::tokenizer_laws::lemma_tokens_ordered_from;
use crate::tokenizer::{
    closed_at, comment_at, ellipsis_at, is_noise, lemma_lexeme_bounds, lexeme, lexeme_end,
    lexeme_kind, literal_end, punctuation, tokens_from, tokens_of, TokenKindView, TokenView,
};
use vstd::prelude::*;
use vstd::utf8::*;

verus! {

/// Whether a keyword can start with the byte.
pub open spec fn is_word_start(c: u8) -> bool {
    is_letter(c) || c == 0x5f
}

/// Whether the bytes are those of one keyword.
pub open spec fn is_word(name: Seq<u8>) -> bool {
    &&& name.len() > 0
    &&& is_word_start(name[0])
    &&& forall|i: int| 0 <= i < name.len() ==> in_class(ByteClass::Word, #[trigger] name[i])
}

/// Whether a token starts at `p`, for the tokens from `from` on.
pub open spec fn token_starts_at(b: Seq<u8>, from: int, p: int) -> bool
    decreases b.len() - from,
{
    if from == p {
        true
    } else if from < 0 || from > p || from >= b.len() {
        false
    } else {
        proof {
            lemma_lexeme_bounds(b, from);
        }
        token_starts_at(b, lexeme_end(b, from), p)
    }
}

/// The tokens that start at `from` or after it and before `p`.
pub open spec fn tokens_until(b: Seq<u8>, from: int, p: int, record_whitespace: bool) -> Seq<
    TokenView,
>
    decreases b.len() - from,
{
    if 0 <= from < p && from < b.len() {
        let token = lexeme(b, from);
        let end = lexeme_end(b, from);
        proof {
            lemma_lexeme_bounds(b, from);
        }
        if record_whitespace || !is_noise(token.kind) {
            seq![token] + tokens_until(b, end, p, record_whitespace)
        } else {
            tokens_until(b, end, p, record_whitespace)
        }
    } else {
        Seq::empty()
    }
}

/// The tokens, each `d` bytes further on.
pub open spec fn shifted(tokens: Seq<TokenView>, d: int) -> Seq<TokenView> {
    Seq::new(
        tokens.len(),
        |i: int| TokenView { pos: (tokens[i].pos + d) as nat, ..tokens[i] },
    )
}

/// The keyword token for the bytes of a name at `p`.
pub open spec fn keyword_token(name: Seq<u8>, p: int) -> TokenView {
    TokenView {
        kind: TokenKindView::Keyword(decode_utf8(name)),
        pos: p as nat,
        len: name.len(),
        original: decode_utf8(name),
    }
}

proof fn lemma_scan_is(b: Seq<u8>, from: int, to: int, class: ByteClass)
    requires
        0 <= from <= to <= b.len(),
        forall|i: int| from <= i < to ==> in_class(class, #[trigger] b[i]),
        to < b.len() ==> !in_class(class, b[to]),
    ensures
        scan(b, from, class) == to,
    decreases to - from,
{
    if from < to {
        lemma_scan_is(b, from + 1, to, class);
    }
}

/// Two texts that are the same before `p`.
pub open spec fn agree_before(b: Seq<u8>, c: Seq<u8>, p: int) -> bool {
    &&& 0 <= p < b.len()
    &&& p < c.len()
    &&& forall|i: int| 0 <= i < p ==> b[i] == c[i]
}

proof fn lemma_scan_agree(b: Seq<u8>, c: Seq<u8>, from: int, class: ByteClass, p: int)
    requires
        agree_before(b, c, p),
        0 <= from <= p,
        in_class(class, b[p]) == in_class(class, c[p]),
        scan(b, from, class) <= p,
    ensures
        scan(c, from, class) == scan(b, from, class),
{
    let s = scan(b, from, class);
    lemma_scan(b, from, class);
    assert forall|i: int| from <= i < s implies in_class(class, #[trigger] c[i]) by {
        assert(c[i] == b[i]);
    }
    lemma_scan_is(c, from, s, class);
}

/// The text `c` holds from `from + d` on what `b` holds from `from` on.
pub open spec fn same_from(b: Seq<u8>, c: Seq<u8>, from: int, d: int) -> bool {
    &&& 0 <= from <= b.len()
    &&& 0 <= from + d
    &&& c.len() == b.len() + d
    &&& forall|i: int| from <= i < b.len() ==> b[i] == c[i + d]
}

proof fn lemma_scan_shift(b: Seq<u8>, c: Seq<u8>, from: int, d: int, class: ByteClass, at: int)
    requires
        same_from(b, c, from, d),
        from <= at <= b.len(),
    ensures
        scan(c, at + d, class) == scan(b, at, class) + d,
{
    let s = scan(b, at, class);
    lemma_scan(b, at, class);
    assert forall|i: int| at + d <= i < s + d implies in_class(class, #[trigger] c[i]) by {
        assert(c[i] == b[i - d]);
    }
    if s < b.len() {
        assert(c[s + d] == b[s]);
    }
    lemma_scan_is(c, at + d, s + d, class);
}

proof fn lemma_text_shift(b: Seq<u8>, c: Seq<u8>, from: int, d: int, start: int, end: int)
    requires
        same_from(b, c, from, d),
        from <= start <= end <= b.len(),
    ensures
        text(c, start + d, end + d) == text(b, start, end),
{
    assert(c.subrange(start + d, end + d) =~= b.subrange(start, end));
}

/// A token of `b` that starts where `b` and `c` hold the same from there on
/// is a token of `c`, `d` bytes further on.
proof fn lemma_lexeme_shift(b: Seq<u8>, c: Seq<u8>, pos: int, d: int)
    requires
        same_from(b, c, pos, d),
        pos < b.len(),
    ensures
        lexeme_end(c, pos + d) == lexeme_end(b, pos) + d,
        lexeme(c, pos + d) == (TokenView { pos: (pos + d) as nat, ..lexeme(b, pos) }),
{
    let x = b[pos];
    assert(c[pos + d] == x);
    lemma_lexeme_bounds(b, pos);
    let end = lexeme_end(b, pos);
    lemma_scan_shift(b, c, pos, d, ByteClass::Blank, pos);
    lemma_scan_shift(b, c, pos, d, ByteClass::Word, pos);
    lemma_scan_shift(b, c, pos, d, ByteClass::Number, pos);
    lemma_scan_shift(b, c, pos, d, ByteClass::LineBody, pos);
    lemma_scan_shift(b, c, pos, d, ByteClass::StringBody, pos + 1);
    lemma_scan_shift(b, c, pos, d, ByteClass::MagicBody, pos + 1);
    lemma_scan_shift(b, c, pos, d, ByteClass::Continuation, pos + 1);
    lemma_scan(b, pos + 1, ByteClass::StringBody);
    lemma_scan(b, pos + 1, ByteClass::MagicBody);
    let qs = scan(b, pos + 1, ByteClass::StringBody);
    let qm = scan(b, pos + 1, ByteClass::MagicBody);
    if qs < b.len() {
        assert(c[qs + d] == b[qs]);
    }
    if qm < b.len() {
        assert(c[qm + d] == b[qm]);
    }
    if pos + 1 < b.len() {
        assert(c[pos + 1 + d] == b[pos + 1]);
    }
    if pos + 2 < b.len() {
        assert(c[pos + 2 + d] == b[pos + 2]);
    }
    assert(closed_at(c, pos + d, ByteClass::StringBody, 0x22) == closed_at(
        b,
        pos,
        ByteClass::StringBody,
        0x22,
    ));
    assert(closed_at(c, pos + d, ByteClass::MagicBody, 0x3e) == closed_at(
        b,
        pos,
        ByteClass::MagicBody,
        0x3e,
    ));
    assert(ellipsis_at(c, pos + d) == ellipsis_at(b, pos));
    assert(comment_at(c, pos + d) == comment_at(b, pos));
    assert(lexeme_end(c, pos + d) == end + d);
    lemma_text_shift(b, c, pos, d, pos, end);
    if pos + 1 <= end - 1 {
        lemma_text_shift(b, c, pos, d, pos + 1, end - 1);
    }
    assert(lexeme_kind(c, pos + d) == lexeme_kind(b, pos));
}

/// The tokens of `b` from a place on where `b` and `c` hold the same are
/// the tokens of `c` from that place on, `d` bytes further on.
pub proof fn lemma_tokens_shift(
    b: Seq<u8>,
    c: Seq<u8>,
    from: int,
    d: int,
    record_whitespace: bool,
)
    requires
        same_from(b, c, from, d),
    ensures
        tokens_from(c, from + d, record_whitespace) == shifted(
            tokens_from(b, from, record_whitespace),
            d,
        ),
    decreases b.len() - from,
{
    let left = tokens_from(c, from + d, record_whitespace);
    let right = tokens_from(b, from, record_whitespace);
    if from < b.len() {
        lemma_lexeme_bounds(b, from);
        lemma_lexeme_shift(b, c, from, d);
        let end = lexeme_end(b, from);
        lemma_tokens_shift(b, c, end, d, record_whitespace);
        assert(left =~= shifted(right, d));
    } else {
        assert(left =~= shifted(right, d));
    }
}

/// A byte that a keyword can start with is in the same classes as every
/// other such byte.
proof fn lemma_word_start_classes(x: u8, y: u8, class: ByteClass)
    requires
        is_word_start(x),
        is_word_start(y),
        class == ByteClass::Blank || class == ByteClass::Word || class == ByteClass::Number
            || class == ByteClass::StringBody || class == ByteClass::MagicBody || class
            == ByteClass::LineBody || class == ByteClass::Continuation,
    ensures
        in_class(class, x) == in_class(class, y),
        punctuation(x) is None,
        x != 0x0a && x != 0x2e && x != 0x2f && x != 0x22 && x != 0x3c && x != 0x3e,
{
}

/// A token of `b` that ends at `p` or before it is a token of every text
/// that is the same before `p` and holds the start of a keyword at `p`, as
/// `b` does. A dot just before `p` is left out: what is wrong with it
/// depends on the length of the text.
proof fn lemma_lexeme_agree(b: Seq<u8>, c: Seq<u8>, from: int, p: int)
    requires
        agree_before(b, c, p),
        is_word_start(b[p]),
        is_word_start(c[p]),
        0 <= from < p,
        lexeme_end(b, from) <= p,
        !(from + 1 == p && b[from] == 0x2e),
    ensures
        lexeme_end(c, from) == lexeme_end(b, from),
        lexeme(c, from) == lexeme(b, from),
{
    let x = b[from];
    assert(c[from] == x);
    lemma_lexeme_bounds(b, from);
    let end = lexeme_end(b, from);
    lemma_word_start_classes(b[p], c[p], ByteClass::Blank);
    lemma_word_start_classes(b[p], c[p], ByteClass::Word);
    lemma_word_start_classes(b[p], c[p], ByteClass::Number);
    lemma_word_start_classes(b[p], c[p], ByteClass::LineBody);
    lemma_word_start_classes(b[p], c[p], ByteClass::StringBody);
    lemma_word_start_classes(b[p], c[p], ByteClass::MagicBody);
    lemma_word_start_classes(b[p], c[p], ByteClass::Continuation);
    if from + 1 < p {
        assert(c[from + 1] == b[from + 1]);
    }
    if from + 2 < p {
        assert(c[from + 2] == b[from + 2]);
    }
    if punctuation(x) is Some || x == 0x0a {
    } else if in_class(ByteClass::Blank, x) {
        lemma_scan_agree(b, c, from, ByteClass::Blank, p);
    } else if is_letter(x) || x == 0x5f {
        lemma_scan_agree(b, c, from, ByteClass::Word, p);
    } else if crate::scan::is_digit(x) || x == 0x2d {
        lemma_scan_agree(b, c, from, ByteClass::Number, p);
    } else if x == 0x22 {
        lemma_literal_agree(b, c, from, p, ByteClass::StringBody, 0x22);
    } else if x == 0x3c {
        lemma_literal_agree(b, c, from, p, ByteClass::MagicBody, 0x3e);
    } else if x == 0x2e {
        assert(ellipsis_at(c, from) == ellipsis_at(b, from));
        assert((from + 3 > c.len()) == (from + 3 > b.len()));
    } else if x == 0x2f {
        assert(comment_at(c, from) == comment_at(b, from));
        if comment_at(b, from) {
            lemma_scan_agree(b, c, from, ByteClass::LineBody, p);
        }
    } else if crate::strings::is_ascii_byte(x) {
    } else {
        lemma_scan_agree(b, c, from + 1, ByteClass::Continuation, p);
    }
    assert(lexeme_end(c, from) == end);
    assert(c.subrange(from, end) =~= b.subrange(from, end));
    if from + 1 <= end - 1 {
        assert(c.subrange(from + 1, end - 1) =~= b.subrange(from + 1, end - 1));
    }
    assert(text(c, from, end) == text(b, from, end));
    if from + 1 <= end - 1 {
        assert(text(c, from + 1, end - 1) == text(b, from + 1, end - 1));
    }
    if x == 0x22 {
        assert(lexeme_kind(c, from) == lexeme_kind(b, from));
    } else if x == 0x3c {
        assert(lexeme_kind(c, from) == lexeme_kind(b, from));
    } else if x == 0x2e {
        assert(lexeme_kind(c, from) == lexeme_kind(b, from));
    } else if x == 0x2f {
        assert(lexeme_kind(c, from) == lexeme_kind(b, from));
    } else {
        assert(lexeme_kind(c, from) == lexeme_kind(b, from));
    }
}

proof fn lemma_literal_agree(
    b: Seq<u8>,
    c: Seq<u8>,
    from: int,
    p: int,
    body: ByteClass,
    closer: u8,
)
    requires
        agree_before(b, c, p),
        is_word_start(b[p]),
        is_word_start(c[p]),
        0 <= from < p,
        literal_end(b, from, body, closer) <= p,
        body == ByteClass::StringBody || body == ByteClass::MagicBody,
        closer == 0x22 || closer == 0x3e,
    ensures
        literal_end(c, from, body, closer) == literal_end(b, from, body, closer),
        closed_at(c, from, body, closer) == closed_at(b, from, body, closer),
        scan(c, from + 1, body) == scan(b, from + 1, body),
        from + 1 <= scan(b, from + 1, body),
{
    let q = scan(b, from + 1, body);
    lemma_scan(b, from + 1, body);
    lemma_word_start_classes(b[p], c[p], body);
    lemma_scan_agree(b, c, from + 1, body, p);
    if q < p {
        assert(c[q] == b[q]);
    }
}

/// A name that stands at `p`, before a byte that no keyword goes on with,
/// is a keyword token.
proof fn lemma_lexeme_word(c: Seq<u8>, p: int, name: Seq<u8>)
    requires
        is_word(name),
        0 <= p,
        p + name.len() <= c.len(),
        c.subrange(p, p + name.len()) == name,
        p + name.len() < c.len() ==> !in_class(ByteClass::Word, c[p + name.len()]),
    ensures
        lexeme_end(c, p) == p + name.len(),
        lexeme(c, p) == keyword_token(name, p),
{
    assert forall|i: int| p <= i < p + name.len() implies in_class(
        ByteClass::Word,
        #[trigger] c[i],
    ) by {
        assert(c[i] == name[i - p]);
    }
    lemma_scan_is(c, p, p + name.len(), ByteClass::Word);
    assert(c[p] == name[0]);
    lemma_word_start_classes(c[p], c[p], ByteClass::Blank);
}

/// A token starts at `p` wherever the tokens from `from` on are told apart
/// from those before `p`.
proof fn lemma_tokens_split(b: Seq<u8>, from: int, p: int, record_whitespace: bool)
    requires
        token_starts_at(b, from, p),
        0 <= from <= p <= b.len(),
    ensures
        tokens_from(b, from, record_whitespace) == tokens_until(b, from, p, record_whitespace)
            + tokens_from(b, p, record_whitespace),
    decreases b.len() - from,
{
    let all = tokens_from(b, from, record_whitespace);
    let head = tokens_until(b, from, p, record_whitespace);
    let tail = tokens_from(b, p, record_whitespace);
    if from < p {
        lemma_lexeme_bounds(b, from);
        let end = lexeme_end(b, from);
        lemma_token_start_bounds(b, end, p);
        lemma_tokens_split(b, end, p, record_whitespace);
        assert(all =~= head + tail);
    } else {
        assert(all =~= head + tail);
    }
}

proof fn lemma_token_start_bounds(b: Seq<u8>, from: int, p: int)
    requires
        token_starts_at(b, from, p),
    ensures
        from <= p,
    decreases b.len() - from,
{
    if from != p {
        lemma_lexeme_bounds(b, from);
        lemma_token_start_bounds(b, lexeme_end(b, from), p);
    }
}

/// The tokens before `p` are those of every text that is the same before
/// `p` and holds the start of a keyword at `p`, as `b` does.
proof fn lemma_tokens_until_agree(
    b: Seq<u8>,
    c: Seq<u8>,
    from: int,
    p: int,
    record_whitespace: bool,
)
    requires
        agree_before(b, c, p),
        is_word_start(b[p]),
        is_word_start(c[p]),
        token_starts_at(b, from, p),
        0 <= from,
        p == 0 || b[p - 1] != 0x2e,
    ensures
        token_starts_at(c, from, p),
        tokens_until(c, from, p, record_whitespace) == tokens_until(
            b,
            from,
            p,
            record_whitespace,
        ),
    decreases b.len() - from,
{
    lemma_token_start_bounds(b, from, p);
    if from < p {
        lemma_lexeme_bounds(b, from);
        let end = lexeme_end(b, from);
        lemma_token_start_bounds(b, end, p);
        lemma_lexeme_agree(b, c, from, p);
        lemma_tokens_until_agree(b, c, end, p, record_whitespace);
    }
}

/// Replacing the keyword that starts at `p` by a name leaves the tokens
/// before it as they are, makes the keyword the name, and moves the tokens
/// after it by the difference of the lengths. This holds with and without
/// whitespace recorded, where no dot stands just before the keyword.
pub proof fn lemma_keyword_replaced(b: Seq<u8>, p: int, name: Seq<u8>, record_whitespace: bool)
    requires
        0 <= p < b.len(),
        token_starts_at(b, 0, p),
        is_word_start(b[p]),
        is_word(name),
        p == 0 || b[p - 1] != 0x2e,
    ensures
        p < lexeme_end(b, p) <= b.len(),
        lexeme(b, p).kind is Keyword,
        tokens_of(b, record_whitespace) == tokens_until(b, 0, p, record_whitespace) + seq![
            lexeme(b, p),
        ] + tokens_from(b, lexeme_end(b, p), record_whitespace),
        tokens_of(spliced(b, p, lexeme_end(b, p), name), record_whitespace) == tokens_until(
            b,
            0,
            p,
            record_whitespace,
        ) + seq![keyword_token(name, p)] + shifted(
            tokens_from(b, lexeme_end(b, p), record_whitespace),
            name.len() - (lexeme_end(b, p) - p),
        ),
{
    let e = lexeme_end(b, p);
    let c = spliced(b, p, e, name);
    let d = name.len() - (e - p);
    lemma_lexeme_bounds(b, p);
    lemma_scan(b, p, ByteClass::Word);
    lemma_word_start_classes(b[p], b[p], ByteClass::Blank);
    assert(e == scan(b, p, ByteClass::Word));
    // The text before the keyword.
    assert(c[p] == name[0]);
    assert forall|i: int| 0 <= i < p implies b[i] == c[i] by {}
    lemma_tokens_until_agree(b, c, 0, p, record_whitespace);
    lemma_tokens_split(b, 0, p, record_whitespace);
    lemma_tokens_split(c, 0, p, record_whitespace);
    // The keyword.
    assert(c.subrange(p, p + name.len()) =~= name);
    if e < b.len() {
        assert(c[p + name.len()] == b[e]);
    }
    lemma_lexeme_word(c, p, name);
    // The text after the keyword.
    assert forall|i: int| e <= i < b.len() implies b[i] == c[i + d] by {}
    lemma_tokens_shift(b, c, e, d, record_whitespace);
    let after_b = tokens_from(b, e, record_whitespace);
    let after_c = tokens_from(c, p + name.len(), record_whitespace);
    assert(tokens_from(b, p, record_whitespace) =~= seq![lexeme(b, p)] + after_b);
    assert(tokens_from(c, p, record_whitespace) =~= seq![keyword_token(name, p)] + after_c);
    assert(tokens_of(b, record_whitespace) =~= tokens_until(b, 0, p, record_whitespace) + seq![
        lexeme(b, p),
    ] + after_b);
    assert(tokens_of(c, record_whitespace) =~= tokens_until(b, 0, p, record_whitespace) + seq![
        keyword_token(name, p),
    ] + shifted(after_b, d));
}

/// Two token sequences that differ in the text and the length of the
/// keyword of number `k` and in the places of the tokens: each token is of
/// the kind of its counterpart, and leaves a gap to the next one where its
/// counterpart does. The keyword is not the first token and follows no
/// ellipsis, so it is none of `query`, `mutation` and `on`.
pub open spec fn similar(t: Seq<TokenView>, u: Seq<TokenView>, k: int) -> bool {
    &&& t.len() == u.len()
    &&& 0 < k < t.len()
    &&& t[k].kind is Keyword
    &&& u[k].kind is Keyword
    &&& !(t[k - 1].kind is Ellipsis)
    &&& forall|i: int| 0 <= i < t.len() && i != k ==> (#[trigger] t[i]).kind == u[i].kind
    &&& forall|i: int|
        0 <= i && i + 1 < t.len() ==> ((#[trigger] t[i + 1]).pos > t[i].end_pos()) == (u[i
            + 1].pos > u[i].end_pos())
}

/// Two results that are both errors or both read from as many tokens.
pub open spec fn alike<A, B>(x: Parse<A>, y: Parse<B>) -> bool {
    match (x, y) {
        (Ok(p), Ok(q)) => p.used == q.used,
        (Err(_), Err(_)) => true,
        _ => false,
    }
}

proof fn lemma_similar_at(t: Seq<TokenView>, u: Seq<TokenView>, k: int, ptr: nat)
    requires
        similar(t, u, k),
    ensures
        (peek(t, ptr) is Some) == (peek(u, ptr) is Some),
        keyword_at(t, ptr) == keyword_at(u, ptr),
        ptr != k ==> forall|kind: TokenKindView| kind_at(t, ptr, kind) == kind_at(u, ptr, kind),
        forall|kind: TokenKindView| !(kind is Keyword) ==> kind_at(t, ptr, kind) == kind_at(u, ptr, kind),
        ptr < t.len() ==> {
            &&& (t[ptr as int].kind is Number) == (u[ptr as int].kind is Number)
            &&& (t[ptr as int].kind is Str) == (u[ptr as int].kind is Str)
            &&& (t[ptr as int].kind is Keyword) == (u[ptr as int].kind is Keyword)
            &&& (t[ptr as int].kind is MagicValue) == (u[ptr as int].kind is MagicValue)
            &&& (t[ptr as int].kind is OpenBracket) == (u[ptr as int].kind is OpenBracket)
            &&& (t[ptr as int].kind is OpenBrace) == (u[ptr as int].kind is OpenBrace)
            &&& (t[ptr as int].kind is CloseParen) == (u[ptr as int].kind is CloseParen)
            &&& (t[ptr as int].kind is CloseBrace) == (u[ptr as int].kind is CloseBrace)
            &&& (t[ptr as int].kind is CloseBracket) == (u[ptr as int].kind is CloseBracket)
            &&& (t[ptr as int].kind is Comma) == (u[ptr as int].kind is Comma)
            &&& (t[ptr as int].kind is Ellipsis) == (u[ptr as int].kind is Ellipsis)
        },
{
    if ptr < t.len() && ptr != k {
        assert(t[ptr as int].kind == u[ptr as int].kind);
    }
}

proof fn lemma_value_alike(t: Seq<TokenView>, u: Seq<TokenView>, k: int, ptr: nat)
    requires
        similar(t, u, k),
    ensures
        alike(value_at(t, ptr), value_at(u, ptr)),
    decreases unread(t, ptr), 2nat,
{
    lemma_similar_at(t, u, k, ptr);
    if ptr < t.len() {
        if t[ptr as int].kind is OpenBracket {
            lemma_list_alike(t, u, k, ptr);
        } else if t[ptr as int].kind is OpenBrace {
            lemma_arg_list_alike(
                t,
                u,
                k,
                ptr,
                TokenKindView::OpenBrace,
                TokenKindView::CloseBrace,
            );
        }
    }
}

proof fn lemma_list_alike(t: Seq<TokenView>, u: Seq<TokenView>, k: int, ptr: nat)
    requires
        similar(t, u, k),
    ensures
        alike(list_at(t, ptr), list_at(u, ptr)),
    decreases unread(t, ptr), 1nat,
{
    lemma_similar_at(t, u, k, ptr);
    if kind_at(t, ptr, TokenKindView::OpenBracket) {
        lemma_list_elems_alike(t, u, k, ptr + 1, Seq::empty(), Seq::empty());
        match list_elems_at(t, ptr + 1, Seq::empty()) {
            Ok(p) => {
                lemma_similar_at(t, u, k, ptr + 1 + p.used);
            },
            Err(_) => {},
        }
    }
}

proof fn lemma_list_elems_alike(
    t: Seq<TokenView>,
    u: Seq<TokenView>,
    k: int,
    ptr: nat,
    acc: Seq<ParamValueView>,
    acc2: Seq<ParamValueView>,
)
    requires
        similar(t, u, k),
    ensures
        alike(list_elems_at(t, ptr, acc), list_elems_at(u, ptr, acc2)),
    decreases unread(t, ptr), 3nat,
{
    lemma_similar_at(t, u, k, ptr);
    if !kind_at(t, ptr, TokenKindView::CloseBracket) {
        lemma_value_alike(t, u, k, ptr);
        match (value_at(t, ptr), value_at(u, ptr)) {
            (Ok(v), Ok(w)) => {
                let next = ptr + v.used;
                lemma_similar_at(t, u, k, next);
                if kind_at(t, next, TokenKindView::Comma) {
                    lemma_list_elems_alike(
                        t,
                        u,
                        k,
                        next + 1,
                        acc.push(v.node),
                        acc2.push(w.node),
                    );
                }
            },
            _ => {},
        }
    }
}

proof fn lemma_arg_list_alike(
    t: Seq<TokenView>,
    u: Seq<TokenView>,
    k: int,
    ptr: nat,
    open: TokenKindView,
    close: TokenKindView,
)
    requires
        similar(t, u, k),
        !(open is Keyword),
        !(close is Keyword),
    ensures
        alike(arg_list_at(t, ptr, open, close), arg_list_at(u, ptr, open, close)),
    decreases unread(t, ptr), 1nat,
{
    lemma_similar_at(t, u, k, ptr);
    if kind_at(t, ptr, open) {
        lemma_params_alike(t, u, k, ptr + 1, close, Seq::empty(), Seq::empty());
        match params_at(t, ptr + 1, close, Seq::empty()) {
            Ok(p) => {
                lemma_similar_at(t, u, k, ptr + 1 + p.used);
            },
            Err(_) => {},
        }
    }
}

proof fn lemma_params_alike(
    t: Seq<TokenView>,
    u: Seq<TokenView>,
    k: int,
    ptr: nat,
    close: TokenKindView,
    acc: Seq<ParamKeyValuePairView>,
    acc2: Seq<ParamKeyValuePairView>,
)
    requires
        similar(t, u, k),
        !(close is Keyword),
    ensures
        alike(params_at(t, ptr, close, acc), params_at(u, ptr, close, acc2)),
    decreases unread(t, ptr), 4nat,
{
    lemma_similar_at(t, u, k, ptr);
    if !kind_at(t, ptr, close) {
        lemma_param_alike(t, u, k, ptr);
        match (param_at(t, ptr), param_at(u, ptr)) {
            (Ok(p), Ok(q)) => {
                let used = 1 + p.used;
                let next = ptr + used;
                lemma_similar_at(t, u, k, next);
                if kind_at(t, next, TokenKindView::Comma) {
                    lemma_params_alike(
                        t,
                        u,
                        k,
                        next + 1,
                        close,
                        acc.push(p.node),
                        acc2.push(q.node),
                    );
                } else if keyword_at(t, next) {
                    lemma_params_alike(t, u, k, next, close, acc.push(p.node), acc2.push(q.node));
                }
            },
            _ => {},
        }
    }
}

proof fn lemma_param_alike(t: Seq<TokenView>, u: Seq<TokenView>, k: int, ptr: nat)
    requires
        similar(t, u, k),
    ensures
        alike(param_at(t, ptr), param_at(u, ptr)),
    decreases unread(t, ptr), 3nat,
{
    lemma_similar_at(t, u, k, ptr);
    lemma_similar_at(t, u, k, ptr + 1);
    if keyword_at(t, ptr) {
        let colon: nat = if kind_at(t, ptr + 1, TokenKindView::Colon) {
            1
        } else {
            0
        };
        lemma_value_alike(t, u, k, ptr + 1 + colon);
    }
}

proof fn lemma_field_list_alike(t: Seq<TokenView>, u: Seq<TokenView>, k: int, ptr: nat)
    requires
        similar(t, u, k),
    ensures
        alike(field_list_at(t, ptr), field_list_at(u, ptr)),
    decreases unread(t, ptr), 1nat,
{
    lemma_similar_at(t, u, k, ptr);
    if kind_at(t, ptr, TokenKindView::OpenBrace) {
        lemma_fields_alike(t, u, k, ptr + 1, Seq::empty(), Seq::empty());
    }
}

proof fn lemma_fields_alike(
    t: Seq<TokenView>,
    u: Seq<TokenView>,
    k: int,
    ptr: nat,
    acc: Seq<FieldView>,
    acc2: Seq<FieldView>,
)
    requires
        similar(t, u, k),
    ensures
        alike(fields_at(t, ptr, acc), fields_at(u, ptr, acc2)),
    decreases unread(t, ptr), 5nat,
{
    lemma_similar_at(t, u, k, ptr);
    if ptr < t.len() && !kind_at(t, ptr, TokenKindView::CloseBrace) {
        lemma_field_alike(t, u, k, ptr);
        match (field_at(t, ptr), field_at(u, ptr)) {
            (Ok(f), Ok(g)) => {
                lemma_fields_alike(
                    t,
                    u,
                    k,
                    ptr + 1 + f.used,
                    acc.push(f.node),
                    acc2.push(g.node),
                );
            },
            _ => {},
        }
    }
}

proof fn lemma_field_alike(t: Seq<TokenView>, u: Seq<TokenView>, k: int, ptr: nat)
    requires
        similar(t, u, k),
    ensures
        alike(field_at(t, ptr), field_at(u, ptr)),
    decreases unread(t, ptr), 4nat,
{
    lemma_similar_at(t, u, k, ptr);
    if keyword_at(t, ptr) {
        lemma_concrete_field_alike(t, u, k, ptr);
    } else if kind_at(t, ptr, TokenKindView::Ellipsis) {
        lemma_union_field_alike(t, u, k, ptr);
    }
}

proof fn lemma_optional_arg_list_alike(t: Seq<TokenView>, u: Seq<TokenView>, k: int, ptr: nat)
    requires
        similar(t, u, k),
    ensures
        alike(optional_arg_list_at(t, ptr), optional_arg_list_at(u, ptr)),
    decreases unread(t, ptr), 2nat,
{
    lemma_similar_at(t, u, k, ptr);
    if kind_at(t, ptr, TokenKindView::OpenParen) {
        lemma_arg_list_alike(t, u, k, ptr, TokenKindView::OpenParen, TokenKindView::CloseParen);
    }
}

proof fn lemma_optional_field_list_alike(t: Seq<TokenView>, u: Seq<TokenView>, k: int, ptr: nat)
    requires
        similar(t, u, k),
    ensures
        alike(optional_field_list_at(t, ptr), optional_field_list_at(u, ptr)),
    decreases unread(t, ptr), 2nat,
{
    lemma_similar_at(t, u, k, ptr);
    if kind_at(t, ptr, TokenKindView::OpenBrace) {
        lemma_field_list_alike(t, u, k, ptr);
    }
}

proof fn lemma_concrete_field_alike(t: Seq<TokenView>, u: Seq<TokenView>, k: int, ptr: nat)
    requires
        similar(t, u, k),
    ensures
        alike(concrete_field_at(t, ptr), concrete_field_at(u, ptr)),
    decreases unread(t, ptr), 3nat,
{
    lemma_similar_at(t, u, k, ptr);
    if keyword_at(t, ptr) {
        lemma_optional_arg_list_alike(t, u, k, ptr + 1);
        match optional_arg_list_at(t, ptr + 1) {
            Ok(a) => {
                lemma_optional_field_list_alike(t, u, k, ptr + 1 + a.used);
            },
            Err(_) => {},
        }
    }
}

proof fn lemma_union_field_alike(t: Seq<TokenView>, u: Seq<TokenView>, k: int, ptr: nat)
    requires
        similar(t, u, k),
    ensures
        alike(union_field_at(t, ptr), union_field_at(u, ptr)),
    decreases unread(t, ptr), 3nat,
{
    lemma_similar_at(t, u, k, ptr);
    lemma_similar_at(t, u, k, ptr + 1);
    lemma_similar_at(t, u, k, ptr + 2);
    if kind_at(t, ptr, TokenKindView::Ellipsis) {
        // The token after the ellipsis is not the keyword that differs.
        assert(ptr + 1 != k);
        if kind_at(t, ptr + 1, TokenKindView::Keyword("on"@)) {
            if ptr + 2 < t.len() {
                let i = ptr + 1 as int;
                assert((t[i + 1].pos > t[i].end_pos()) == (u[i + 1].pos > u[i].end_pos()));
            }
            let named: nat = if keyword_at(t, ptr + 2) {
                1
            } else {
                0
            };
            let next = ptr + 2 + named;
            lemma_similar_at(t, u, k, next);
            if kind_at(t, next, TokenKindView::OpenBrace) {
                lemma_field_list_alike(t, u, k, next);
            }
        }
    }
}

/// Token sequences that differ in one keyword, which is none of `query`,
/// `mutation` and `on`, and in the places of their tokens, both parse or
/// both do not.
pub proof fn lemma_similar_tokens_parse_alike(t: Seq<TokenView>, u: Seq<TokenView>, k: int)
    requires
        similar(t, u, k),
    ensures
        root_of(t) is Ok <==> root_of(u) is Ok,
{
    lemma_similar_at(t, u, k, 0);
    assert(t[0].kind == u[0].kind);
    lemma_field_list_alike(t, u, k, 0);
    lemma_field_list_alike(t, u, k, 1);
}

/// Replacing the keyword that starts at `p` by a name makes no parse error
/// and mends none: the text parses after the replacement if, and only if,
/// it did before. The keyword is not the first token, follows no ellipsis
/// and no dot, and the name is one keyword.
pub proof fn lemma_keyword_replacement_parses(b: Seq<u8>, p: int, name: Seq<u8>)
    requires
        0 <= p < b.len(),
        token_starts_at(b, 0, p),
        is_word_start(b[p]),
        is_word(name),
        b[p - 1] != 0x2e,
        tokens_until(b, 0, p, false).len() > 0,
        !(tokens_until(b, 0, p, false).last().kind is Ellipsis),
    ensures
        root_of(tokens_of(b, false)) is Ok <==> root_of(
            tokens_of(spliced(b, p, lexeme_end(b, p), name), false),
        ) is Ok,
{
    let e = lexeme_end(b, p);
    let d = name.len() - (e - p);
    let head = tokens_until(b, 0, p, false);
    let after = tokens_from(b, e, false);
    let t = tokens_of(b, false);
    let u = tokens_of(spliced(b, p, e, name), false);
    let k = head.len() as int;
    lemma_keyword_replaced(b, p, name, false);
    lemma_tokens_ordered_from(b, e, false);
    assert(t[k] == lexeme(b, p));
    assert(u[k] == keyword_token(name, p));
    assert(t[k - 1] == head.last());
    assert forall|i: int| 0 <= i < t.len() && i != k implies (#[trigger] t[i]).kind
        == u[i].kind by {
        if i < k {
            assert(t[i] == head[i]);
            assert(u[i] == head[i]);
        } else {
            assert(t[i] == after[i - k - 1]);
            assert(u[i] == shifted(after, d)[i - k - 1]);
        }
    }
    assert forall|i: int| 0 <= i && i + 1 < t.len() implies ((#[trigger] t[i + 1]).pos
        > t[i].end_pos()) == (u[i + 1].pos > u[i].end_pos()) by {
        if i + 1 < k {
            assert(t[i] == head[i] && u[i] == head[i]);
            assert(t[i + 1] == head[i + 1] && u[i + 1] == head[i + 1]);
        } else if i + 1 == k {
            assert(t[i] == head[i] && u[i] == head[i]);
        } else if i == k {
            assert(t[i + 1] == after[0]);
            assert(u[i + 1] == shifted(after, d)[0]);
            assert(after[0].pos >= e);
        } else {
            assert(t[i] == after[i - k - 1]);
            assert(u[i] == shifted(after, d)[i - k - 1]);
            assert(t[i + 1] == after[i - k]);
            assert(u[i + 1] == shifted(after, d)[i - k]);
            assert(after[i - k - 1].pos >= e);
            assert(after[i - k].pos >= e);
        }
    }
    lemma_similar_tokens_parse_alike(t, u, k);
}

} // verus!
