//! The grammar of operations as functions on token sequences: what the
//! parser returns for every input, recovery from incomplete input included.
//!
//! ```text
//! Root          := [ "query" | "mutation" ] FieldList
//! FieldList     := "{" Field* "}"
//! Field         := ConcreteField | UnionField
//! ConcreteField := Keyword [ArgList] [FieldList]
//! UnionField    := "..." "on" Keyword [FieldList]
//! ArgList       := "(" (Param ("," Param)*)? ")"
//! Object        := "{" (Param ("," Param)*)? "}"
//! Param         := Keyword ":" ParamValue
//! ParamValue    := Simple | ListValue | Object | Missing
//! ListValue     := "[" (ParamValue ("," ParamValue)*)? "]"
//! Simple        := Number | String | Keyword | MagicValue
//! ```

use crate::ast::{
    ArgListView, ConcreteFieldView, FieldListView, FieldView, ListParamValueView, MutationView,
    ParamKeyValuePairView, ParamValueView, QueryView, RootView, UnionFieldView,
};
use crate::tokenizer::{TokenKindView, TokenView};
use vstd::prelude::*;

verus! {

/// The part of the grammar in which a parse error arose.
#[derive(Debug, Clone, Copy, PartialEq, Eq)]
pub enum ParseErrorScope {
    Query,
    Field,
    ArgList,
    ArgListValue,
    ArgListValueListType,
}

/// Mathematical model of a parse error.
pub struct ParseErrorView {
    pub token: Option<TokenView>,
    pub scope: ParseErrorScope,
    pub message: Seq<char>,
}

/// A node together with the number of tokens it was read from.
pub struct Parsed<T> {
    pub node: T,
    pub used: nat,
}

/// What reading a node gives: the node, or the error.
pub type Parse<T> = Result<Parsed<T>, ParseErrorView>;

/// The token at `ptr`, if there is one.
pub open spec fn peek(t: Seq<TokenView>, ptr: nat) -> Option<TokenView> {
    if ptr < t.len() {
        Some(t[ptr as int])
    } else {
        None
    }
}

/// Whether the token at `ptr` is of the given kind.
pub open spec fn kind_at(t: Seq<TokenView>, ptr: nat, kind: TokenKindView) -> bool {
    ptr < t.len() && t[ptr as int].kind == kind
}

/// Whether the token at `ptr` is a keyword.
pub open spec fn keyword_at(t: Seq<TokenView>, ptr: nat) -> bool {
    ptr < t.len() && t[ptr as int].kind is Keyword
}

/// The number of tokens from `ptr` on.
pub open spec fn unread(t: Seq<TokenView>, ptr: nat) -> nat {
    if ptr <= t.len() {
        (t.len() - ptr) as nat
    } else {
        0
    }
}

/// The end of the token before `ptr`, or 0 where none precedes.
pub open spec fn previous_end(t: Seq<TokenView>, ptr: nat) -> nat {
    if 0 < ptr <= t.len() {
        t[ptr - 1].end_pos()
    } else {
        0
    }
}

/// The error raised at `ptr`: it refers to the token there.
pub open spec fn failure(
    t: Seq<TokenView>,
    ptr: nat,
    scope: ParseErrorScope,
    message: Seq<char>,
) -> ParseErrorView {
    ParseErrorView { token: peek(t, ptr), scope, message }
}

/// The same result, read from `n` more tokens.
pub open spec fn after<T>(n: nat, parse: Parse<T>) -> Parse<T> {
    match parse {
        Ok(p) => Ok(Parsed { node: p.node, used: n + p.used }),
        Err(e) => Err(e),
    }
}

/// Whether a value can start with a token of this kind.
pub open spec fn starts_simple_value(kind: TokenKindView) -> bool {
    kind is Number || kind is Str || kind is Keyword || kind is MagicValue
}

/// Whether a token of this kind ends a value that was left out.
pub open spec fn ends_missing_value(kind: TokenKindView) -> bool {
    kind is CloseParen || kind is CloseBrace || kind is CloseBracket || kind is Comma
}

/// The value at `ptr`. Where a closer, a comma or the end of the input
/// stands in its place, the value is `Missing`, from the end of the token
/// before to the start of the token found.
pub open spec fn value_at(t: Seq<TokenView>, ptr: nat) -> Parse<ParamValueView>
    decreases unread(t, ptr), 2nat,
{
    match peek(t, ptr) {
        None => Ok(
            Parsed {
                node: ParamValueView::Missing((previous_end(t, ptr), previous_end(t, ptr))),
                used: 0,
            },
        ),
        Some(token) => {
            if starts_simple_value(token.kind) {
                Ok(Parsed { node: ParamValueView::Simple(token), used: 1 })
            } else if token.kind is OpenBracket {
                match list_at(t, ptr) {
                    Ok(p) => Ok(Parsed { node: ParamValueView::List(p.node), used: p.used }),
                    Err(e) => Err(e),
                }
            } else if token.kind is OpenBrace {
                match arg_list_at(t, ptr, TokenKindView::OpenBrace, TokenKindView::CloseBrace) {
                    Ok(p) => Ok(Parsed { node: ParamValueView::Object(p.node), used: p.used }),
                    Err(e) => Err(e),
                }
            } else if ends_missing_value(token.kind) {
                Ok(
                    Parsed {
                        node: ParamValueView::Missing((previous_end(t, ptr), token.pos)),
                        used: 0,
                    },
                )
            } else {
                Err(
                    failure(
                        t,
                        ptr,
                        ParseErrorScope::ArgListValue,
                        "Unexpected arglist value type"@,
                    ),
                )
            }
        },
    }
}

/// The bracketed list of values at `ptr`. Its range ends where the closing
/// bracket starts.
pub open spec fn list_at(t: Seq<TokenView>, ptr: nat) -> Parse<ListParamValueView>
    decreases unread(t, ptr), 1nat,
{
    if !kind_at(t, ptr, TokenKindView::OpenBracket) {
        Err(
            failure(
                t,
                ptr,
                ParseErrorScope::ArgListValueListType,
                "Expected list opening backet for list param value"@,
            ),
        )
    } else {
        match list_elems_at(t, ptr + 1, Seq::empty()) {
            Err(e) => Err(e),
            Ok(p) => {
                let close = ptr + 1 + p.used;
                if !kind_at(t, close, TokenKindView::CloseBracket) {
                    Err(
                        failure(
                            t,
                            close,
                            ParseErrorScope::ArgListValueListType,
                            "Expected list closing backet for list param value"@,
                        ),
                    )
                } else {
                    Ok(
                        Parsed {
                            node: ListParamValueView {
                                start_pos: t[ptr as int].pos,
                                end_pos: t[close as int].pos,
                                elems: p.node,
                            },
                            used: p.used + 2,
                        },
                    )
                }
            },
        }
    }
}

/// The values of a list from `ptr` on, after the values `acc` read so far,
/// up to the token that ends them.
pub open spec fn list_elems_at(t: Seq<TokenView>, ptr: nat, acc: Seq<ParamValueView>) -> Parse<
    Seq<ParamValueView>,
>
    decreases unread(t, ptr), 3nat,
{
    if kind_at(t, ptr, TokenKindView::CloseBracket) {
        Ok(Parsed { node: acc, used: 0 })
    } else {
        match value_at(t, ptr) {
            Err(e) => Err(e),
            Ok(v) => {
                let next = ptr + v.used;
                if kind_at(t, next, TokenKindView::Comma) {
                    after(v.used + 1, list_elems_at(t, next + 1, acc.push(v.node)))
                } else {
                    Ok(Parsed { node: acc.push(v.node), used: v.used })
                }
            },
        }
    }
}

/// The list of parameters at `ptr` between the tokens `open` and `close`:
/// parentheses after a field, braces for an object value.
pub open spec fn arg_list_at(
    t: Seq<TokenView>,
    ptr: nat,
    open: TokenKindView,
    close: TokenKindView,
) -> Parse<ArgListView>
    decreases unread(t, ptr), 1nat,
{
    if !kind_at(t, ptr, open) {
        Err(failure(t, ptr, ParseErrorScope::ArgList, "Missing open paren"@))
    } else {
        match params_at(t, ptr + 1, close, Seq::empty()) {
            Err(e) => Err(e),
            Ok(p) => {
                let end = ptr + 1 + p.used;
                if !kind_at(t, end, close) {
                    Err(failure(t, end, ParseErrorScope::ArgList, "Missing close paren"@))
                } else {
                    Ok(
                        Parsed {
                            node: ArgListView {
                                start_pos: t[ptr as int].pos,
                                end_pos: t[end as int].end_pos(),
                                params: p.node,
                            },
                            used: p.used + 2,
                        },
                    )
                }
            },
        }
    }
}

/// The parameters from `ptr` on, after the parameters `acc` read so far.
/// The comma before a key may be left out.
pub open spec fn params_at(
    t: Seq<TokenView>,
    ptr: nat,
    close: TokenKindView,
    acc: Seq<ParamKeyValuePairView>,
) -> Parse<Seq<ParamKeyValuePairView>>
    decreases unread(t, ptr), 4nat,
{
    if kind_at(t, ptr, close) {
        Ok(Parsed { node: acc, used: 0 })
    } else {
        match param_at(t, ptr) {
            Err(e) => Err(e),
            Ok(p) => {
                let used = 1 + p.used;
                let next = ptr + used;
                if kind_at(t, next, TokenKindView::Comma) {
                    after(used + 1, params_at(t, next + 1, close, acc.push(p.node)))
                } else if keyword_at(t, next) {
                    after(used, params_at(t, next, close, acc.push(p.node)))
                } else {
                    Ok(Parsed { node: acc.push(p.node), used })
                }
            },
        }
    }
}

/// The parameter whose key is at `ptr`. The colon may be left out. `used`
/// counts the tokens after the key.
pub open spec fn param_at(t: Seq<TokenView>, ptr: nat) -> Parse<ParamKeyValuePairView>
    decreases unread(t, ptr), 3nat,
{
    if !keyword_at(t, ptr) {
        Err(failure(t, ptr, ParseErrorScope::ArgList, "Missing keyword"@))
    } else {
        let key = t[ptr as int];
        let colon: nat = if kind_at(t, ptr + 1, TokenKindView::Colon) {
            1
        } else {
            0
        };
        match value_at(t, ptr + 1 + colon) {
            Err(e) => Err(e),
            Ok(v) => Ok(
                Parsed {
                    node: ParamKeyValuePairView {
                        start_pos: key.pos,
                        end_pos: v.node.end_pos(),
                        key,
                        value: v.node,
                    },
                    used: colon + v.used,
                },
            ),
        }
    }
}

/// The braced list of fields at `ptr`.
pub open spec fn field_list_at(t: Seq<TokenView>, ptr: nat) -> Parse<FieldListView>
    decreases unread(t, ptr), 1nat,
{
    if !kind_at(t, ptr, TokenKindView::OpenBrace) {
        Err(failure(t, ptr, ParseErrorScope::Query, "Missing opening brace"@))
    } else {
        match fields_at(t, ptr + 1, Seq::empty()) {
            Err(e) => Err(e),
            Ok(p) => {
                let close = ptr + 1 + p.used;
                Ok(
                    Parsed {
                        node: FieldListView {
                            start_pos: t[ptr as int].pos,
                            end_pos: t[close as int].end_pos(),
                            fields: p.node,
                        },
                        used: p.used + 2,
                    },
                )
            },
        }
    }
}

/// The fields from `ptr` on, after the fields `acc` read so far, up to the
/// closing brace.
pub open spec fn fields_at(t: Seq<TokenView>, ptr: nat, acc: Seq<FieldView>) -> Parse<
    Seq<FieldView>,
>
    decreases unread(t, ptr), 5nat,
{
    if ptr >= t.len() {
        Err(failure(t, ptr, ParseErrorScope::Query, "Missing closing brace"@))
    } else if kind_at(t, ptr, TokenKindView::CloseBrace) {
        Ok(Parsed { node: acc, used: 0 })
    } else {
        match field_at(t, ptr) {
            Err(e) => Err(e),
            Ok(f) => after(1 + f.used, fields_at(t, ptr + 1 + f.used, acc.push(f.node))),
        }
    }
}

/// The field whose first token is at `ptr`: a name, or the ellipsis of an
/// inline fragment. `used` counts the tokens after the first.
pub open spec fn field_at(t: Seq<TokenView>, ptr: nat) -> Parse<FieldView>
    decreases unread(t, ptr), 4nat,
{
    if keyword_at(t, ptr) {
        concrete_field_at(t, ptr)
    } else if kind_at(t, ptr, TokenKindView::Ellipsis) {
        union_field_at(t, ptr)
    } else {
        Err(failure(t, ptr, ParseErrorScope::Field, "Missing field name"@))
    }
}

/// The parenthesised argument list at `ptr`, if one starts there.
pub open spec fn optional_arg_list_at(t: Seq<TokenView>, ptr: nat) -> Parse<Option<ArgListView>>
    decreases unread(t, ptr), 2nat,
{
    if kind_at(t, ptr, TokenKindView::OpenParen) {
        match arg_list_at(t, ptr, TokenKindView::OpenParen, TokenKindView::CloseParen) {
            Ok(p) => Ok(Parsed { node: Some(p.node), used: p.used }),
            Err(e) => Err(e),
        }
    } else {
        Ok(Parsed { node: None, used: 0 })
    }
}

/// The field list at `ptr`, if one starts there.
pub open spec fn optional_field_list_at(t: Seq<TokenView>, ptr: nat) -> Parse<
    Option<FieldListView>,
>
    decreases unread(t, ptr), 2nat,
{
    if kind_at(t, ptr, TokenKindView::OpenBrace) {
        match field_list_at(t, ptr) {
            Ok(p) => Ok(Parsed { node: Some(p.node), used: p.used }),
            Err(e) => Err(e),
        }
    } else {
        Ok(Parsed { node: None, used: 0 })
    }
}

/// Where a named field ends: with its field list, else with its argument
/// list, else with its name.
pub open spec fn concrete_field_end(
    name: TokenView,
    arglist: Option<ArgListView>,
    field_list: Option<FieldListView>,
) -> nat {
    match field_list {
        Some(fields) => fields.end_pos,
        None => match arglist {
            Some(args) => args.end_pos,
            None => name.end_pos(),
        },
    }
}

/// The named field at `ptr`, with the argument list and the field list that
/// may follow the name. `used` counts the tokens after the name.
pub open spec fn concrete_field_at(t: Seq<TokenView>, ptr: nat) -> Parse<FieldView>
    decreases unread(t, ptr), 3nat,
{
    if !keyword_at(t, ptr) {
        Err(failure(t, ptr, ParseErrorScope::Field, "Missing field name"@))
    } else {
        let name = t[ptr as int];
        match optional_arg_list_at(t, ptr + 1) {
            Err(e) => Err(e),
            Ok(a) => match optional_field_list_at(t, ptr + 1 + a.used) {
                Err(e) => Err(e),
                Ok(l) => Ok(
                    Parsed {
                        node: FieldView::Concrete(
                            ConcreteFieldView {
                                start_pos: name.pos,
                                end_pos: concrete_field_end(name, a.node, l.node),
                                name,
                                arglist: a.node,
                                field_list: l.node,
                            },
                        ),
                        used: a.used + l.used,
                    },
                ),
            },
        }
    }
}

/// The keyword without text that stands for a type name still to be typed.
pub open spec fn placeholder_keyword(pos: nat) -> TokenView {
    TokenView { kind: TokenKindView::Keyword(Seq::empty()), pos, len: 0, original: Seq::empty() }
}

/// The inline fragment `... on Type { .. }` at `ptr`. Where the type name
/// is missing and the next token leaves room after `on`, an empty keyword
/// one byte after `on` stands for it; where the braces are missing, an
/// empty field list at the end of the type name.
pub open spec fn union_field_at(t: Seq<TokenView>, ptr: nat) -> Parse<FieldView>
    decreases unread(t, ptr), 3nat,
{
    if !kind_at(t, ptr, TokenKindView::Ellipsis) {
        Err(failure(t, ptr, ParseErrorScope::Field, "Missing field name"@))
    } else if !kind_at(t, ptr + 1, TokenKindView::Keyword("on"@)) {
        Err(failure(t, ptr + 1, ParseErrorScope::Field, "Missing `on` of the union field"@))
    } else {
        let on = t[ptr + 1 as int];
        if !keyword_at(t, ptr + 2) && !(ptr + 2 < t.len() && t[ptr + 2 as int].pos > on.end_pos()) {
            Err(failure(t, ptr + 2, ParseErrorScope::Field, "Missing union type name"@))
        } else {
            let named: nat = if keyword_at(t, ptr + 2) {
                1
            } else {
                0
            };
            let name = if keyword_at(t, ptr + 2) {
                t[ptr + 2 as int]
            } else {
                placeholder_keyword(on.end_pos() + 1)
            };
            let next = ptr + 2 + named;
            let list: Parse<FieldListView> = if kind_at(t, next, TokenKindView::OpenBrace) {
                field_list_at(t, next)
            } else {
                Ok(
                    Parsed {
                        node: FieldListView {
                            start_pos: name.end_pos(),
                            end_pos: name.end_pos(),
                            fields: Seq::empty(),
                        },
                        used: 0,
                    },
                )
            };
            match list {
                Err(e) => Err(e),
                Ok(l) => Ok(
                    Parsed {
                        node: FieldView::Union(
                            UnionFieldView {
                                start_pos: t[ptr as int].pos,
                                end_pos: l.node.end_pos,
                                named_type: name,
                                field_list: l.node,
                            },
                        ),
                        used: 1 + named + l.used,
                    },
                ),
            }
        }
    }
}

/// The operation that the tokens spell: a mutation where they start with
/// the keyword `mutation`, else a query, whose keyword may be left out.
/// Tokens after the closing brace are not looked at.
pub open spec fn root_of(t: Seq<TokenView>) -> Result<RootView, ParseErrorView> {
    if kind_at(t, 0, TokenKindView::Keyword("mutation"@)) {
        match field_list_at(t, 1) {
            Err(e) => Err(e),
            Ok(p) => Ok(
                RootView::Mutation(
                    MutationView {
                        start_pos: t[0].pos,
                        end_pos: p.node.end_pos,
                        field_list: p.node,
                    },
                ),
            ),
        }
    } else if t.len() == 0 {
        Err(failure(t, 0, ParseErrorScope::Query, "Empty query"@))
    } else {
        let skip: nat = if kind_at(t, 0, TokenKindView::Keyword("query"@)) {
            1
        } else {
            0
        };
        match field_list_at(t, skip) {
            Err(e) => Err(e),
            Ok(p) => Ok(
                RootView::Query(
                    QueryView { start_pos: t[0].pos, end_pos: p.node.end_pos, field_list: p.node },
                ),
            ),
        }
    }
}

} // verus!
