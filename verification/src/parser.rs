//! Recursive-descent parser with error recovery. It reads one token ahead
//! and returns what the grammar functions say for its input.

use crate::ast::{
    field_views, lemma_arg_list_view, lemma_field_list_view, lemma_field_view,
    lemma_list_value_view, lemma_object_value_view, lemma_param_view, param_views, value_views,
    ArgList, ConcreteField, Field, FieldList, ListParamValue, Mutation, ParamKeyValuePair,
    ParamValue, Query, Root, RootView, UnionField,
};
use crate::grammar::{
    after, arg_list_at, concrete_field_at, ends_missing_value, failure, field_at, field_list_at,
    fields_at, keyword_at, kind_at, list_at, list_elems_at, optional_arg_list_at,
    optional_field_list_at, param_at, params_at, peek, placeholder_keyword,
    previous_end, root_of, starts_simple_value, union_field_at, unread, value_at, Parse,
    ParseErrorScope, ParseErrorView, Parsed,
};
use crate::strings::str_eq;
use crate::tokenizer::{token_views, Token, TokenKind, TokenKindView, TokenView};
use vstd::prelude::*;
use vstd::string::*;

verus! {

/// Why tokens are no operation: the token at which reading stopped, the
/// part of the grammar that was read, and a message.
#[derive(Debug)]
pub struct ParseError {
    pub token: Option<Token>,
    pub scope: ParseErrorScope,
    pub message: String,
}

impl View for ParseError {
    type V = ParseErrorView;

    open spec fn view(&self) -> ParseErrorView {
        ParseErrorView {
            token: match self.token {
                Some(token) => Some(token@),
                None => None,
            },
            scope: self.scope,
            message: self.message@,
        }
    }
}

/// What a step of the parser returned, as the grammar states it: the model
/// of the node and the number of tokens read, or the model of the error.
pub open spec fn outcome<T: View>(r: Result<T, ParseError>, used: int) -> Parse<T::V> {
    match r {
        Ok(node) => Ok(Parsed { node: node@, used: used as nat }),
        Err(e) => Err(e@),
    }
}

/// What the parser returned, as the grammar states it.
pub open spec fn root_outcome(r: Result<Root, ParseError>) -> Result<RootView, ParseErrorView> {
    match r {
        Ok(root) => Ok(root@),
        Err(e) => Err(e@),
    }
}

/// Whether the end of every token can be computed.
pub open spec fn tokens_fit(tokens: Seq<Token>) -> bool {
    forall|i: int| 0 <= i < tokens.len() ==> (#[trigger] tokens[i]).well_formed()
}

/// The parser of a sequence of tokens.
pub struct Parser {
    tokens: Vec<Token>,
    ptr: usize,
}

impl Parser {
    /// The tokens that the parser reads.
    pub closed spec fn input(&self) -> Seq<TokenView> {
        token_views(self.tokens@)
    }

    /// The index of the token that the parser reads next.
    pub closed spec fn position(&self) -> nat {
        self.ptr as nat
    }

    /// The parser's invariant: it points into its tokens or just after them,
    /// and the end of every token can be computed.
    pub closed spec fn well_formed(&self) -> bool {
        &&& self.ptr <= self.tokens.len()
        &&& tokens_fit(self.tokens@)
    }

    /// A parser at the first of the tokens.
    pub fn new(tokens: Vec<Token>) -> (parser: Parser)
        requires
            tokens_fit(tokens@),
        ensures
            parser.well_formed(),
            parser.position() == 0,
            parser.input() == token_views(tokens@),
    {
        Parser { tokens, ptr: 0 }
    }

    /// Parses the operation that the tokens spell.
    pub fn parse(self) -> (r: Result<Root, ParseError>)
        requires
            self.well_formed(),
            self.position() == 0,
        ensures
            root_outcome(r) == root_of(self.input()),
    {
        let mut parser = self;
        if parser.is_next_keyword("mutation") {
            match parser.parse_mutation() {
                Ok(mutation) => Ok(Root::Mutation(mutation)),
                Err(e) => Err(e),
            }
        } else {
            match parser.parse_query() {
                Ok(query) => Ok(Root::Query(query)),
                Err(e) => Err(e),
            }
        }
    }

    fn parse_query(&mut self) -> (r: Result<Query, ParseError>)
        requires
            old(self).well_formed(),
            old(self).ptr == 0,
            !kind_at(old(self).input(), 0, TokenKindView::Keyword("mutation"@)),
        ensures
            root_outcome(
                match r {
                    Ok(query) => Ok(Root::Query(query)),
                    Err(e) => Err(e),
                },
            ) == root_of(old(self).input()),
    {
        let start_pos = match self.peek_token() {
            Some(token) => token.pos,
            None => {
                return Err(self.parse_error(ParseErrorScope::Query, "Empty query"));
            },
        };
        if self.is_next_keyword("query") {
            self.ptr += 1;
        }
        match self.parse_fields_subobject() {
            Ok(field_list) => Ok(Query { start_pos, end_pos: field_list.end_pos, field_list }),
            Err(e) => Err(e),
        }
    }

    fn parse_mutation(&mut self) -> (r: Result<Mutation, ParseError>)
        requires
            old(self).well_formed(),
            old(self).ptr == 0,
            kind_at(old(self).input(), 0, TokenKindView::Keyword("mutation"@)),
        ensures
            root_outcome(
                match r {
                    Ok(mutation) => Ok(Root::Mutation(mutation)),
                    Err(e) => Err(e),
                },
            ) == root_of(old(self).input()),
    {
        let start_pos = self.tokens[self.ptr].pos;
        self.ptr += 1;
        match self.parse_fields_subobject() {
            Ok(field_list) => Ok(Mutation { start_pos, end_pos: field_list.end_pos, field_list }),
            Err(e) => Err(e),
        }
    }

    /// Parses the field whose first token is the next one.
    fn parse_field(&mut self) -> (r: Result<Field, ParseError>)
        requires
            old(self).well_formed(),
        ensures
            final(self).well_formed(),
            final(self).tokens == old(self).tokens,
            r is Ok ==> old(self).ptr < final(self).ptr,
            outcome(r, final(self).ptr - old(self).ptr - 1) == field_at(
                old(self).input(),
                old(self).ptr as nat,
            ),
        decreases unread(old(self).input(), old(self).ptr as nat), 4nat,
    {
        if self.is_keyword_next() {
            self.parse_concrete_field()
        } else if self.is_next_token_kind(&TokenKind::Ellipsis) {
            self.parse_union_field()
        } else {
            Err(self.parse_error(ParseErrorScope::Field, "Missing field name"))
        }
    }

    fn parse_concrete_field(&mut self) -> (r: Result<Field, ParseError>)
        requires
            old(self).well_formed(),
            keyword_at(old(self).input(), old(self).ptr as nat),
        ensures
            final(self).well_formed(),
            final(self).tokens == old(self).tokens,
            r is Ok ==> old(self).ptr < final(self).ptr,
            outcome(r, final(self).ptr - old(self).ptr - 1) == concrete_field_at(
                old(self).input(),
                old(self).ptr as nat,
            ),
        decreases unread(old(self).input(), old(self).ptr as nat), 3nat,
    {
        let name_token = self.tokens[self.ptr].duplicate();
        self.ptr += 1;
        let arglist = match self.parse_optional_arglist() {
            Ok(arglist) => arglist,
            Err(e) => {
                return Err(e);
            },
        };
        let field_list = match self.parse_optional_field_list() {
            Ok(field_list) => field_list,
            Err(e) => {
                return Err(e);
            },
        };
        let end_pos = match &field_list {
            Some(fields) => fields.end_pos,
            None => match &arglist {
                Some(args) => args.end_pos,
                None => name_token.end_pos(),
            },
        };
        let field = Field::Concrete(
            ConcreteField {
                start_pos: name_token.pos,
                end_pos,
                name: name_token,
                arglist,
                field_list,
            },
        );
        proof {
            lemma_field_view(&field);
        }
        Ok(field)
    }

    /// Parses the argument list of a field, if the next token opens one.
    fn parse_optional_arglist(&mut self) -> (r: Result<Option<ArgList>, ParseError>)
        requires
            old(self).well_formed(),
        ensures
            final(self).well_formed(),
            final(self).tokens == old(self).tokens,
            r is Ok ==> old(self).ptr <= final(self).ptr,
            optional_arg_list_at(old(self).input(), old(self).ptr as nat) == (match r {
                Ok(Some(args)) => Ok(
                    Parsed { node: Some(args@), used: (final(self).ptr - old(self).ptr) as nat },
                ),
                Ok(None) => Ok(
                    Parsed { node: None, used: (final(self).ptr - old(self).ptr) as nat },
                ),
                Err(e) => Err(e@),
            }),
        decreases unread(old(self).input(), old(self).ptr as nat), 2nat,
    {
        if self.is_next_token_kind(&TokenKind::OpenParen) {
            match self.parse_arglist(&TokenKind::OpenParen, &TokenKind::CloseParen) {
                Ok(arglist) => Ok(Some(arglist)),
                Err(e) => Err(e),
            }
        } else {
            Ok(None)
        }
    }

    /// Parses the field list of a field, if the next token opens one.
    fn parse_optional_field_list(&mut self) -> (r: Result<Option<FieldList>, ParseError>)
        requires
            old(self).well_formed(),
        ensures
            final(self).well_formed(),
            final(self).tokens == old(self).tokens,
            r is Ok ==> old(self).ptr <= final(self).ptr,
            optional_field_list_at(old(self).input(), old(self).ptr as nat) == (match r {
                Ok(Some(list)) => Ok(
                    Parsed { node: Some(list@), used: (final(self).ptr - old(self).ptr) as nat },
                ),
                Ok(None) => Ok(
                    Parsed { node: None, used: (final(self).ptr - old(self).ptr) as nat },
                ),
                Err(e) => Err(e@),
            }),
        decreases unread(old(self).input(), old(self).ptr as nat), 2nat,
    {
        if self.is_next_token_kind(&TokenKind::OpenBrace) {
            match self.parse_fields_subobject() {
                Ok(field_list) => Ok(Some(field_list)),
                Err(e) => Err(e),
            }
        } else {
            Ok(None)
        }
    }

    fn parse_union_field(&mut self) -> (r: Result<Field, ParseError>)
        requires
            old(self).well_formed(),
            kind_at(old(self).input(), old(self).ptr as nat, TokenKindView::Ellipsis),
        ensures
            final(self).well_formed(),
            final(self).tokens == old(self).tokens,
            r is Ok ==> old(self).ptr < final(self).ptr,
            outcome(r, final(self).ptr - old(self).ptr - 1) == union_field_at(
                old(self).input(),
                old(self).ptr as nat,
            ),
        decreases unread(old(self).input(), old(self).ptr as nat), 3nat,
    {
        let start_pos = self.tokens[self.ptr].pos;
        self.ptr += 1;
        if !self.is_next_keyword("on") {
            return Err(
                self.parse_error(ParseErrorScope::Field, "Missing `on` of the union field"),
            );
        }
        let on_end = self.tokens[self.ptr].end_pos();
        self.ptr += 1;
        let named_type = if self.is_keyword_next() {
            let token = self.tokens[self.ptr].duplicate();
            self.ptr += 1;
            token
        } else if self.ptr < self.tokens.len() && self.tokens[self.ptr].pos > on_end {
            Token::new(TokenKind::Keyword(String::new()), on_end + 1, 0, String::new())
        } else {
            return Err(self.parse_error(ParseErrorScope::Field, "Missing union type name"));
        };
        let field_list = if self.is_next_token_kind(&TokenKind::OpenBrace) {
            match self.parse_fields_subobject() {
                Ok(field_list) => field_list,
                Err(e) => {
                    return Err(e);
                },
            }
        } else {
            FieldList::new_empty(named_type.end_pos())
        };
        let field = Field::Union(
            UnionField { start_pos, end_pos: field_list.end_pos, named_type, field_list },
        );
        proof {
            lemma_field_view(&field);
        }
        Ok(field)
    }

    /// Parses a list of parameters between the tokens `open` and `close`.
    fn parse_arglist(&mut self, open: &TokenKind, close: &TokenKind) -> (r: Result<
        ArgList,
        ParseError,
    >)
        requires
            old(self).well_formed(),
        ensures
            final(self).well_formed(),
            final(self).tokens == old(self).tokens,
            r is Ok ==> old(self).ptr < final(self).ptr,
            outcome(r, final(self).ptr - old(self).ptr) == arg_list_at(
                old(self).input(),
                old(self).ptr as nat,
                open@,
                close@,
            ),
        decreases unread(old(self).input(), old(self).ptr as nat), 1nat,
    {
        if !self.is_next_token_kind(open) {
            return Err(self.parse_error(ParseErrorScope::ArgList, "Missing open paren"));
        }
        let start_pos = self.tokens[self.ptr].pos;
        self.ptr += 1;
        let ghost t = self.input();
        let ghost first = self.ptr as nat;
        let mut params: Vec<ParamKeyValuePair> = Vec::new();
        assert(param_views(params@) =~= Seq::empty());
        loop
            invariant_except_break
                params_at(t, first, close@, Seq::empty()) == after(
                    (self.ptr - first) as nat,
                    params_at(t, self.ptr as nat, close@, param_views(params@)),
                ),
            invariant
                self.well_formed(),
                self.tokens == old(self).tokens,
                t == old(self).input(),
                first == old(self).ptr + 1,
                first <= self.ptr,
                kind_at(t, old(self).ptr as nat, open@),
            ensures
                params_at(t, first, close@, Seq::empty()) == Ok::<
                    Parsed<Seq<crate::ast::ParamKeyValuePairView>>,
                    ParseErrorView,
                >(Parsed { node: param_views(params@), used: (self.ptr - first) as nat }),
            decreases unread(t, self.ptr as nat),
        {
            if self.is_next_token_kind(close) {
                break ;
            }
            let ghost before = param_views(params@);
            let param = match self.parse_param() {
                Ok(param) => param,
                Err(e) => {
                    return Err(e);
                },
            };
            params.push(param);
            assert(param_views(params@) =~= before.push(param@));
            if self.is_next_token_kind(&TokenKind::Comma) {
                self.ptr += 1;
            } else if self.is_keyword_next() {
            } else {
                break ;
            }
        }
        if !self.is_next_token_kind(close) {
            return Err(self.parse_error(ParseErrorScope::ArgList, "Missing close paren"));
        }
        let end_pos = self.tokens[self.ptr].end_pos();
        self.ptr += 1;
        let args = ArgList { start_pos, end_pos, params };
        proof {
            lemma_arg_list_view(&args);
        }
        Ok(args)
    }

    /// Parses the parameter whose key is the next token.
    fn parse_param(&mut self) -> (r: Result<ParamKeyValuePair, ParseError>)
        requires
            old(self).well_formed(),
        ensures
            final(self).well_formed(),
            final(self).tokens == old(self).tokens,
            r is Ok ==> old(self).ptr < final(self).ptr,
            outcome(r, final(self).ptr - old(self).ptr - 1) == param_at(
                old(self).input(),
                old(self).ptr as nat,
            ),
        decreases unread(old(self).input(), old(self).ptr as nat), 3nat,
    {
        if !self.is_keyword_next() {
            return Err(self.parse_error(ParseErrorScope::ArgList, "Missing keyword"));
        }
        let key = self.tokens[self.ptr].duplicate();
        self.ptr += 1;
        if self.is_next_token_kind(&TokenKind::Colon) {
            self.ptr += 1;
        }
        let value = match self.parse_arglist_value() {
            Ok(value) => value,
            Err(e) => {
                return Err(e);
            },
        };
        let param = ParamKeyValuePair { start_pos: key.pos, end_pos: value.end_pos(), key, value };
        proof {
            lemma_param_view(&param);
        }
        Ok(param)
    }

    /// Parses the value of a parameter or an element of a list.
    fn parse_arglist_value(&mut self) -> (r: Result<ParamValue, ParseError>)
        requires
            old(self).well_formed(),
        ensures
            final(self).well_formed(),
            final(self).tokens == old(self).tokens,
            r is Ok ==> old(self).ptr <= final(self).ptr,
            r matches Ok(value) ==> value.well_formed(),
            outcome(r, final(self).ptr - old(self).ptr) == value_at(
                old(self).input(),
                old(self).ptr as nat,
            ),
        decreases unread(old(self).input(), old(self).ptr as nat), 2nat,
    {
        let start_pos = self.previous_end();
        if self.ptr >= self.tokens.len() {
            return Ok(ParamValue::Missing((start_pos, start_pos)));
        }
        let pos = self.tokens[self.ptr].pos;
        if self.starts_simple_value() {
            let token = self.tokens[self.ptr].duplicate();
            self.ptr += 1;
            Ok(ParamValue::Simple(token))
        } else if self.is_next_token_kind(&TokenKind::OpenBracket) {
            match self.parse_arglist_value_list_type() {
                Ok(list) => {
                    proof {
                        lemma_list_value_view(&list);
                    }
                    Ok(ParamValue::List(list))
                },
                Err(e) => Err(e),
            }
        } else if self.is_next_token_kind(&TokenKind::OpenBrace) {
            match self.parse_arglist(&TokenKind::OpenBrace, &TokenKind::CloseBrace) {
                Ok(object) => {
                    proof {
                        lemma_object_value_view(&object);
                    }
                    Ok(ParamValue::Object(object))
                },
                Err(e) => Err(e),
            }
        } else if self.ends_missing_value() {
            Ok(ParamValue::Missing((start_pos, pos)))
        } else {
            Err(self.parse_error(ParseErrorScope::ArgListValue, "Unexpected arglist value type"))
        }
    }

    /// Parses a bracketed list of values.
    fn parse_arglist_value_list_type(&mut self) -> (r: Result<ListParamValue, ParseError>)
        requires
            old(self).well_formed(),
        ensures
            final(self).well_formed(),
            final(self).tokens == old(self).tokens,
            r is Ok ==> old(self).ptr < final(self).ptr,
            outcome(r, final(self).ptr - old(self).ptr) == list_at(
                old(self).input(),
                old(self).ptr as nat,
            ),
        decreases unread(old(self).input(), old(self).ptr as nat), 1nat,
    {
        if !self.is_next_token_kind(&TokenKind::OpenBracket) {
            return Err(
                self.parse_error(
                    ParseErrorScope::ArgListValueListType,
                    "Expected list opening backet for list param value",
                ),
            );
        }
        let start_pos = self.tokens[self.ptr].pos;
        self.ptr += 1;
        let ghost t = self.input();
        let ghost first = self.ptr as nat;
        let mut elems: Vec<ParamValue> = Vec::new();
        assert(value_views(elems@) =~= Seq::empty());
        loop
            invariant_except_break
                list_elems_at(t, first, Seq::empty()) == after(
                    (self.ptr - first) as nat,
                    list_elems_at(t, self.ptr as nat, value_views(elems@)),
                ),
            invariant
                self.well_formed(),
                self.tokens == old(self).tokens,
                t == old(self).input(),
                first == old(self).ptr + 1,
                first <= self.ptr,
                kind_at(t, old(self).ptr as nat, TokenKindView::OpenBracket),
            ensures
                list_elems_at(t, first, Seq::empty()) == Ok::<
                    Parsed<Seq<crate::ast::ParamValueView>>,
                    ParseErrorView,
                >(Parsed { node: value_views(elems@), used: (self.ptr - first) as nat }),
            decreases unread(t, self.ptr as nat),
        {
            if self.is_next_token_kind(&TokenKind::CloseBracket) {
                break ;
            }
            let ghost before = value_views(elems@);
            let value = match self.parse_arglist_value() {
                Ok(value) => value,
                Err(e) => {
                    return Err(e);
                },
            };
            elems.push(value);
            assert(value_views(elems@) =~= before.push(value@));
            if !self.is_next_token_kind(&TokenKind::Comma) {
                break ;
            }
            self.ptr += 1;
        }
        if !self.is_next_token_kind(&TokenKind::CloseBracket) {
            return Err(
                self.parse_error(
                    ParseErrorScope::ArgListValueListType,
                    "Expected list closing backet for list param value",
                ),
            );
        }
        let end_pos = self.tokens[self.ptr].pos;
        self.ptr += 1;
        let list = ListParamValue { start_pos, end_pos, elems };
        proof {
            lemma_list_value_view(&list);
        }
        Ok(list)
    }

    /// Parses a braced list of fields.
    fn parse_fields_subobject(&mut self) -> (r: Result<FieldList, ParseError>)
        requires
            old(self).well_formed(),
        ensures
            final(self).well_formed(),
            final(self).tokens == old(self).tokens,
            r is Ok ==> old(self).ptr < final(self).ptr,
            outcome(r, final(self).ptr - old(self).ptr) == field_list_at(
                old(self).input(),
                old(self).ptr as nat,
            ),
        decreases unread(old(self).input(), old(self).ptr as nat), 1nat,
    {
        if !self.is_next_token_kind(&TokenKind::OpenBrace) {
            return Err(self.parse_error(ParseErrorScope::Query, "Missing opening brace"));
        }
        let start_pos = self.tokens[self.ptr].pos;
        self.ptr += 1;
        let ghost t = self.input();
        let ghost first = self.ptr as nat;
        let mut fields: Vec<Field> = Vec::new();
        assert(field_views(fields@) =~= Seq::empty());
        loop
            invariant
                self.well_formed(),
                self.tokens == old(self).tokens,
                t == old(self).input(),
                first == old(self).ptr + 1,
                first <= self.ptr,
                start_pos == t[old(self).ptr as int].pos,
                kind_at(t, old(self).ptr as nat, TokenKindView::OpenBrace),
                fields_at(t, first, Seq::empty()) == after(
                    (self.ptr - first) as nat,
                    fields_at(t, self.ptr as nat, field_views(fields@)),
                ),
            decreases unread(t, self.ptr as nat),
        {
            if self.ptr >= self.tokens.len() {
                return Err(self.parse_error(ParseErrorScope::Query, "Missing closing brace"));
            }
            if self.is_next_token_kind(&TokenKind::CloseBrace) {
                let end_pos = self.tokens[self.ptr].end_pos();
                self.ptr += 1;
                let list = FieldList { start_pos, end_pos, fields };
                proof {
                    lemma_field_list_view(&list);
                }
                return Ok(list);
            }
            let ghost before = field_views(fields@);
            let field = match self.parse_field() {
                Ok(field) => field,
                Err(e) => {
                    return Err(e);
                },
            };
            fields.push(field);
            assert(field_views(fields@) =~= before.push(field@));
        }
    }

    /// The error that refers to the next token.
    fn parse_error(&self, scope: ParseErrorScope, message: &str) -> (e: ParseError)
        requires
            self.well_formed(),
        ensures
            e@ == failure(self.input(), self.ptr as nat, scope, message@),
    {
        ParseError { token: self.peek_token_cloned(), scope, message: message.to_owned() }
    }

    fn is_next_token_kind(&self, expected: &TokenKind) -> (r: bool)
        requires
            self.well_formed(),
        ensures
            r == kind_at(self.input(), self.ptr as nat, expected@),
    {
        match self.peek_token() {
            Some(token) => token.kind.same_as(expected),
            None => false,
        }
    }

    /// Whether the next token is a keyword.
    fn is_keyword_next(&self) -> (r: bool)
        requires
            self.well_formed(),
        ensures
            r == keyword_at(self.input(), self.ptr as nat),
    {
        self.peek_keyword().is_some()
    }

    /// Whether a value can start with the next token.
    fn starts_simple_value(&self) -> (r: bool)
        requires
            self.well_formed(),
        ensures
            r == (self.ptr < self.tokens.len() && starts_simple_value(
                self.input()[self.ptr as int].kind,
            )),
    {
        match self.peek_token() {
            Some(token) => match &token.kind {
                TokenKind::Number(_) | TokenKind::Str(_) | TokenKind::Keyword(_)
                | TokenKind::MagicValue(_) => true,
                _ => false,
            },
            None => false,
        }
    }

    /// Whether the next token ends a value that was left out.
    fn ends_missing_value(&self) -> (r: bool)
        requires
            self.well_formed(),
        ensures
            r == (self.ptr < self.tokens.len() && ends_missing_value(
                self.input()[self.ptr as int].kind,
            )),
    {
        match self.peek_token() {
            Some(token) => match &token.kind {
                TokenKind::CloseParen | TokenKind::CloseBrace | TokenKind::CloseBracket
                | TokenKind::Comma => true,
                _ => false,
            },
            None => false,
        }
    }

    fn peek_previous_token(&self) -> (r: Option<&Token>)
        requires
            self.well_formed(),
        ensures
            r == (if self.ptr > 0 {
                Some(&self.tokens[self.ptr - 1])
            } else {
                None
            }),
    {
        if self.ptr == 0 {
            None
        } else {
            Some(&self.tokens[self.ptr - 1])
        }
    }

    /// The end of the token before the next one, or 0.
    fn previous_end(&self) -> (end: usize)
        requires
            self.well_formed(),
        ensures
            end == previous_end(self.input(), self.ptr as nat),
    {
        match self.peek_previous_token() {
            Some(token) => token.end_pos(),
            None => 0,
        }
    }

    fn peek_token(&self) -> (r: Option<&Token>)
        requires
            self.well_formed(),
        ensures
            r == (if self.ptr < self.tokens.len() {
                Some(&self.tokens[self.ptr as int])
            } else {
                None
            }),
            r matches Some(token) ==> token.well_formed() && peek(self.input(), self.ptr as nat)
                == Some(token@),
            r is None ==> peek(self.input(), self.ptr as nat) is None,
    {
        if self.ptr < self.tokens.len() {
            Some(&self.tokens[self.ptr])
        } else {
            None
        }
    }

    fn peek_token_cloned(&self) -> (r: Option<Token>)
        requires
            self.well_formed(),
        ensures
            r == (if self.ptr < self.tokens.len() {
                Some(self.tokens[self.ptr as int])
            } else {
                None
            }),
    {
        match self.peek_token() {
            Some(token) => Some(token.duplicate()),
            None => None,
        }
    }

    fn is_next_keyword(&self, value: &str) -> (r: bool)
        requires
            self.well_formed(),
        ensures
            r == kind_at(self.input(), self.ptr as nat, TokenKindView::Keyword(value@)),
    {
        match self.peek_keyword() {
            Some(keyword) => str_eq(keyword.as_str(), value),
            None => false,
        }
    }

    fn peek_keyword(&self) -> (r: Option<&String>)
        requires
            self.well_formed(),
        ensures
            r is Some == keyword_at(self.input(), self.ptr as nat),
            r matches Some(keyword) ==> self.input()[self.ptr as int].kind
                == TokenKindView::Keyword(keyword@),
    {
        match self.peek_token() {
            Some(token) => match &token.kind {
                TokenKind::Keyword(keyword) => Some(keyword),
                _ => None,
            },
            None => None,
        }
    }
}

} // verus!
