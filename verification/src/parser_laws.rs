//! What holds of every tree that the parser returns for tokens in the
//! order of the source: ranges are well formed, children lie inside their
//! parents, and siblings follow each other without overlap.

use crate::ast::{
    ArgListView, ConcreteFieldView, FieldListView, FieldView, ListParamValueView,
    ParamKeyValuePairView, ParamValueView, RootView, UnionFieldView,
};
use crate::grammar::{
    after, arg_list_at, concrete_field_at, field_at, field_list_at, fields_at, keyword_at,
    kind_at, list_at, list_elems_at, optional_arg_list_at, optional_field_list_at, param_at,
    params_at, peek, previous_end, root_of, union_field_at, unread, value_at,
};
use crate::tokenizer::{TokenKindView, TokenView};
use vstd::prelude::*;

verus! {

/// The tokens stand in the order of the source and do not overlap.
pub open spec fn ordered(t: Seq<TokenView>) -> bool {
    forall|i: int, j: int| 0 <= i < j < t.len() ==> (#[trigger] t[i]).end_pos() <= (#[trigger] t[j]).pos
}

/// Where the token at `ptr` starts, or where the last token ends if there
/// is none at `ptr`: no node read before `ptr` ends after it.
pub open spec fn upper(t: Seq<TokenView>, ptr: nat) -> nat {
    if ptr < t.len() {
        t[ptr as int].pos
    } else {
        previous_end(t, t.len())
    }
}

/// The ranges lie between `lo` and `hi`, each starts no later than it ends,
/// and each ends no later than the next one starts.
pub open spec fn in_order(ranges: Seq<(nat, nat)>, lo: nat, hi: nat) -> bool {
    &&& forall|i: int|
        0 <= i < ranges.len() ==> lo <= (#[trigger] ranges[i]).0 <= ranges[i].1 <= hi
    &&& forall|i: int, j: int|
        0 <= i < j < ranges.len() ==> (#[trigger] ranges[i]).1 <= (#[trigger] ranges[j]).0
}

/// The ranges of the fields, one for one.
pub open spec fn field_ranges(fields: Seq<FieldView>) -> Seq<(nat, nat)> {
    Seq::new(fields.len(), |i: int| (fields[i].start_pos(), fields[i].end_pos()))
}

/// The ranges of the parameters, one for one.
pub open spec fn param_ranges(params: Seq<ParamKeyValuePairView>) -> Seq<(nat, nat)> {
    Seq::new(params.len(), |i: int| (params[i].start_pos, params[i].end_pos))
}

/// The ranges of the values, one for one.
pub open spec fn value_ranges(values: Seq<ParamValueView>) -> Seq<(nat, nat)> {
    Seq::new(values.len(), |i: int| (values[i].start_pos(), values[i].end_pos()))
}

/// A value whose range is well formed, with whatever it holds inside it and
/// in order.
pub open spec fn value_wf(value: ParamValueView) -> bool
    decreases value,
{
    match value {
        ParamValueView::Simple(_) => true,
        ParamValueView::Missing((start, end)) => start <= end,
        ParamValueView::List(list) => {
            &&& list.start_pos <= list.end_pos
            &&& in_order(value_ranges(list.elems), list.start_pos, list.end_pos)
            &&& forall|i: int| 0 <= i < list.elems.len() ==> value_wf(#[trigger] list.elems[i])
        },
        ParamValueView::Object(args) => arg_list_wf(args),
    }
}

/// An argument list whose range is well formed, with its parameters inside
/// it and in order.
pub open spec fn arg_list_wf(args: ArgListView) -> bool
    decreases args,
{
    &&& args.start_pos <= args.end_pos
    &&& in_order(param_ranges(args.params), args.start_pos, args.end_pos)
    &&& forall|i: int| 0 <= i < args.params.len() ==> param_wf(#[trigger] args.params[i])
}

/// A parameter that starts with its key and ends with its value.
pub open spec fn param_wf(param: ParamKeyValuePairView) -> bool
    decreases param,
{
    &&& param.start_pos <= param.key.pos
    &&& param.key.end_pos() <= param.value.start_pos()
    &&& param.value.start_pos() <= param.value.end_pos()
    &&& param.value.end_pos() <= param.end_pos
    &&& value_wf(param.value)
}

/// A field list whose range is well formed, with its fields inside it and
/// in order.
pub open spec fn field_list_wf(list: FieldListView) -> bool
    decreases list,
{
    &&& list.start_pos <= list.end_pos
    &&& in_order(field_ranges(list.fields), list.start_pos, list.end_pos)
    &&& forall|i: int| 0 <= i < list.fields.len() ==> field_wf(#[trigger] list.fields[i])
}

/// A field with its name, its arguments and its field list inside it, in
/// this order.
pub open spec fn field_wf(field: FieldView) -> bool
    decreases field,
{
    match field {
        FieldView::Concrete(f) => {
            &&& f.start_pos <= f.name.pos
            &&& f.name.end_pos() <= f.end_pos
            &&& f.arglist matches Some(args) ==> {
                &&& arg_list_wf(args)
                &&& f.name.end_pos() <= args.start_pos
                &&& args.end_pos <= f.end_pos
            }
            &&& f.field_list matches Some(list) ==> {
                &&& field_list_wf(list)
                &&& f.name.end_pos() <= list.start_pos
                &&& (f.arglist matches Some(args) ==> args.end_pos <= list.start_pos)
                &&& list.end_pos <= f.end_pos
            }
        },
        FieldView::Union(f) => {
            &&& f.start_pos <= f.named_type.pos
            &&& f.named_type.end_pos() <= f.field_list.start_pos
            &&& field_list_wf(f.field_list)
            &&& f.field_list.end_pos <= f.end_pos
        },
    }
}

/// An operation with its field list inside it.
pub open spec fn root_wf(root: RootView) -> bool {
    match root {
        RootView::Query(q) => {
            &&& q.start_pos <= q.field_list.start_pos
            &&& field_list_wf(q.field_list)
            &&& q.field_list.end_pos <= q.end_pos
        },
        RootView::Mutation(m) => {
            &&& m.start_pos <= m.field_list.start_pos
            &&& field_list_wf(m.field_list)
            &&& m.field_list.end_pos <= m.end_pos
        },
    }
}

proof fn lemma_upper(t: Seq<TokenView>, a: nat, b: nat)
    requires
        ordered(t),
        a <= b,
    ensures
        upper(t, a) <= upper(t, b),
        previous_end(t, a) <= upper(t, a),
        a < b <= t.len() ==> upper(t, a) <= previous_end(t, b),
        a < b <= t.len() ==> t[a as int].end_pos() <= previous_end(t, b),
        a <= b <= t.len() ==> previous_end(t, a) <= previous_end(t, b),
        a < t.len() ==> upper(t, a) <= t[a as int].end_pos() <= upper(t, a + 1),
{
    if a < t.len() {
        if b < t.len() {
            if a < b {
                assert(t[a as int].end_pos() <= t[b as int].pos);
            }
        } else {
            if a < t.len() - 1 {
                assert(t[a as int].end_pos() <= t[t.len() - 1].pos);
            }
        }
        if a > 0 {
            assert(t[a - 1].end_pos() <= t[a as int].pos);
        }
        if a < b <= t.len() {
            if a < b - 1 {
                assert(t[a as int].end_pos() <= t[b - 1].pos);
            }
        }
        if a + 1 < t.len() {
            assert(t[a as int].end_pos() <= t[a + 1 as int].pos);
        }
    }
    if 0 < a < b <= t.len() {
        assert(t[a - 1].end_pos() <= t[b - 1].pos);
    }
}

proof fn lemma_in_order_push(ranges: Seq<(nat, nat)>, lo: nat, hi: nat, range: (nat, nat), hi2: nat)
    requires
        in_order(ranges, lo, hi),
        lo <= range.0 <= range.1 <= hi2,
        hi <= range.0,
    ensures
        in_order(ranges.push(range), lo, hi2),
{
    let next = ranges.push(range);
    assert forall|i: int| 0 <= i < next.len() implies lo <= (#[trigger] next[i]).0 <= next[i].1
        <= hi2 by {
        if i < ranges.len() {
            assert(next[i] == ranges[i]);
        }
    }
    assert forall|i: int, j: int| 0 <= i < j < next.len() implies (#[trigger] next[i]).1 <= (
    #[trigger] next[j]).0 by {
        assert(next[i] == ranges[i]);
        if j < ranges.len() {
            assert(next[j] == ranges[j]);
        }
    }
}

/// What holds of a value that the grammar reads from `used` tokens at `ptr`.
pub open spec fn value_fits(t: Seq<TokenView>, ptr: nat, value: ParamValueView, used: nat) -> bool {
    &&& ptr + used <= t.len()
    &&& value_wf(value)
    &&& previous_end(t, ptr) <= value.start_pos()
    &&& value.start_pos() <= value.end_pos()
    &&& value.end_pos() <= upper(t, ptr + used)
}

/// What holds of an argument list that the grammar reads at `ptr`.
pub open spec fn arg_list_fits(t: Seq<TokenView>, ptr: nat, args: ArgListView, used: nat) -> bool {
    &&& ptr < t.len()
    &&& ptr + used <= t.len()
    &&& arg_list_wf(args)
    &&& args.start_pos == t[ptr as int].pos
    &&& args.end_pos <= upper(t, ptr + used)
}

/// What holds of a field list that the grammar reads at `ptr`.
pub open spec fn field_list_fits(t: Seq<TokenView>, ptr: nat, list: FieldListView, used: nat)
    -> bool {
    &&& ptr < t.len()
    &&& ptr + used <= t.len()
    &&& field_list_wf(list)
    &&& list.start_pos == t[ptr as int].pos
    &&& list.end_pos <= upper(t, ptr + used)
}

/// What holds of a field that the grammar reads at `ptr`, from its first
/// token and `used` more.
pub open spec fn field_fits(t: Seq<TokenView>, ptr: nat, field: FieldView, used: nat) -> bool {
    &&& ptr < t.len()
    &&& ptr + 1 + used <= t.len()
    &&& field_wf(field)
    &&& field.start_pos() == t[ptr as int].pos
    &&& field.start_pos() <= field.end_pos()
    &&& field.end_pos() <= upper(t, ptr + 1 + used)
}

/// What holds of a parameter that the grammar reads at `ptr`, from its key
/// and `used` more tokens.
pub open spec fn param_fits(
    t: Seq<TokenView>,
    ptr: nat,
    param: ParamKeyValuePairView,
    used: nat,
) -> bool {
    &&& ptr < t.len()
    &&& ptr + 1 + used <= t.len()
    &&& param_wf(param)
    &&& param.start_pos == t[ptr as int].pos
    &&& param.start_pos <= param.end_pos
    &&& param.end_pos <= upper(t, ptr + 1 + used)
}

proof fn lemma_value(t: Seq<TokenView>, ptr: nat)
    requires
        ordered(t),
        ptr <= t.len(),
    ensures
        value_at(t, ptr) matches Ok(p) ==> value_fits(t, ptr, p.node, p.used),
    decreases unread(t, ptr), 2nat,
{
    lemma_upper(t, ptr, ptr);
    match peek(t, ptr) {
        None => {},
        Some(token) => {
            lemma_upper(t, ptr, ptr + 1);
            if token.kind is OpenBracket {
                lemma_list(t, ptr);
            } else if token.kind is OpenBrace {
                lemma_arg_list(t, ptr, TokenKindView::OpenBrace, TokenKindView::CloseBrace);
            }
        },
    }
}

proof fn lemma_list(t: Seq<TokenView>, ptr: nat)
    requires
        ordered(t),
        ptr <= t.len(),
    ensures
        list_at(t, ptr) matches Ok(p) ==> value_fits(
            t,
            ptr,
            ParamValueView::List(p.node),
            p.used,
        ),
    decreases unread(t, ptr), 1nat,
{
    if kind_at(t, ptr, TokenKindView::OpenBracket) {
        let lo = t[ptr as int].pos;
        lemma_upper(t, ptr, ptr + 1);
        lemma_upper(t, ptr, ptr);
        assert(value_ranges(Seq::<ParamValueView>::empty()) =~= Seq::<(nat, nat)>::empty());
        lemma_list_elems(t, ptr + 1, Seq::empty(), lo);
        match list_elems_at(t, ptr + 1, Seq::empty()) {
            Ok(p) => {
                let close = ptr + 1 + p.used;
                if kind_at(t, close, TokenKindView::CloseBracket) {
                    lemma_upper(t, ptr, close);
                    lemma_upper(t, close, close + 1);
                }
            },
            Err(_) => {},
        }
    }
}

proof fn lemma_list_elems(t: Seq<TokenView>, ptr: nat, acc: Seq<ParamValueView>, lo: nat)
    requires
        ordered(t),
        ptr <= t.len(),
        lo <= previous_end(t, ptr),
        in_order(value_ranges(acc), lo, previous_end(t, ptr)),
        forall|i: int| 0 <= i < acc.len() ==> value_wf(#[trigger] acc[i]),
    ensures
        list_elems_at(t, ptr, acc) matches Ok(p) ==> {
            &&& ptr + p.used <= t.len()
            &&& in_order(value_ranges(p.node), lo, upper(t, ptr + p.used))
            &&& forall|i: int| 0 <= i < p.node.len() ==> value_wf(#[trigger] p.node[i])
        },
    decreases unread(t, ptr), 3nat,
{
    lemma_upper(t, ptr, ptr);
    if !kind_at(t, ptr, TokenKindView::CloseBracket) {
        lemma_value(t, ptr);
        match value_at(t, ptr) {
            Err(_) => {},
            Ok(v) => {
                let next = ptr + v.used;
                let acc2 = acc.push(v.node);
                let range = (v.node.start_pos(), v.node.end_pos());
                lemma_upper(t, ptr, next);
                assert(value_ranges(acc2) =~= value_ranges(acc).push(range));
                assert forall|i: int| 0 <= i < acc2.len() implies value_wf(#[trigger] acc2[i]) by {
                    if i < acc.len() {
                        assert(acc2[i] == acc[i]);
                    }
                }
                if kind_at(t, next, TokenKindView::Comma) {
                    lemma_upper(t, next, next + 1);
                    lemma_in_order_push(
                        value_ranges(acc),
                        lo,
                        previous_end(t, ptr),
                        range,
                        previous_end(t, next + 1),
                    );
                    lemma_list_elems(t, next + 1, acc2, lo);
                } else {
                    lemma_in_order_push(
                        value_ranges(acc),
                        lo,
                        previous_end(t, ptr),
                        range,
                        upper(t, next),
                    );
                }
            },
        }
    }
}

proof fn lemma_arg_list(t: Seq<TokenView>, ptr: nat, open: TokenKindView, close: TokenKindView)
    requires
        ordered(t),
        ptr <= t.len(),
    ensures
        arg_list_at(t, ptr, open, close) matches Ok(p) ==> arg_list_fits(t, ptr, p.node, p.used),
    decreases unread(t, ptr), 1nat,
{
    if kind_at(t, ptr, open) {
        let lo = t[ptr as int].pos;
        lemma_upper(t, ptr, ptr + 1);
        assert(param_ranges(Seq::<ParamKeyValuePairView>::empty()) =~= Seq::<(nat, nat)>::empty());
        lemma_params(t, ptr + 1, close, Seq::empty(), lo);
        match params_at(t, ptr + 1, close, Seq::empty()) {
            Ok(p) => {
                let end = ptr + 1 + p.used;
                if kind_at(t, end, close) {
                    lemma_upper(t, ptr, end);
                    lemma_upper(t, end, end + 1);
                }
            },
            Err(_) => {},
        }
    }
}

proof fn lemma_params(
    t: Seq<TokenView>,
    ptr: nat,
    close: TokenKindView,
    acc: Seq<ParamKeyValuePairView>,
    lo: nat,
)
    requires
        ordered(t),
        ptr <= t.len(),
        lo <= upper(t, ptr),
        in_order(param_ranges(acc), lo, upper(t, ptr)),
        forall|i: int| 0 <= i < acc.len() ==> param_wf(#[trigger] acc[i]),
    ensures
        params_at(t, ptr, close, acc) matches Ok(p) ==> {
            &&& ptr + p.used <= t.len()
            &&& in_order(param_ranges(p.node), lo, upper(t, ptr + p.used))
            &&& forall|i: int| 0 <= i < p.node.len() ==> param_wf(#[trigger] p.node[i])
        },
    decreases unread(t, ptr), 4nat,
{
    if !kind_at(t, ptr, close) {
        lemma_param(t, ptr);
        match param_at(t, ptr) {
            Err(_) => {},
            Ok(p) => {
                let used = 1 + p.used;
                let next = ptr + used;
                let acc2 = acc.push(p.node);
                let range = (p.node.start_pos, p.node.end_pos);
                assert(param_ranges(acc2) =~= param_ranges(acc).push(range));
                assert forall|i: int| 0 <= i < acc2.len() implies param_wf(#[trigger] acc2[i]) by {
                    if i < acc.len() {
                        assert(acc2[i] == acc[i]);
                    }
                }
                if kind_at(t, next, TokenKindView::Comma) {
                    lemma_upper(t, next, next + 1);
                    lemma_upper(t, ptr, next + 1);
                    lemma_in_order_push(
                        param_ranges(acc),
                        lo,
                        upper(t, ptr),
                        range,
                        upper(t, next + 1),
                    );
                    lemma_params(t, next + 1, close, acc2, lo);
                } else {
                    lemma_upper(t, ptr, next);
                    lemma_in_order_push(param_ranges(acc), lo, upper(t, ptr), range, upper(t, next));
                    if keyword_at(t, next) {
                        lemma_params(t, next, close, acc2, lo);
                    }
                }
            },
        }
    }
}

proof fn lemma_param(t: Seq<TokenView>, ptr: nat)
    requires
        ordered(t),
        ptr <= t.len(),
    ensures
        param_at(t, ptr) matches Ok(p) ==> param_fits(t, ptr, p.node, p.used),
    decreases unread(t, ptr), 3nat,
{
    if keyword_at(t, ptr) {
        let colon: nat = if kind_at(t, ptr + 1, TokenKindView::Colon) {
            1
        } else {
            0
        };
        let at = ptr + 1 + colon;
        lemma_value(t, at);
        lemma_upper(t, ptr, at);
    }
}

proof fn lemma_field_list(t: Seq<TokenView>, ptr: nat)
    requires
        ordered(t),
        ptr <= t.len(),
    ensures
        field_list_at(t, ptr) matches Ok(p) ==> field_list_fits(t, ptr, p.node, p.used),
    decreases unread(t, ptr), 1nat,
{
    if kind_at(t, ptr, TokenKindView::OpenBrace) {
        let lo = t[ptr as int].pos;
        lemma_upper(t, ptr, ptr + 1);
        assert(field_ranges(Seq::<FieldView>::empty()) =~= Seq::<(nat, nat)>::empty());
        lemma_fields(t, ptr + 1, Seq::empty(), lo);
        match fields_at(t, ptr + 1, Seq::empty()) {
            Ok(p) => {
                let close = ptr + 1 + p.used;
                lemma_upper(t, ptr, close);
                lemma_upper(t, close, close + 1);
            },
            Err(_) => {},
        }
    }
}

proof fn lemma_fields(t: Seq<TokenView>, ptr: nat, acc: Seq<FieldView>, lo: nat)
    requires
        ordered(t),
        ptr <= t.len(),
        lo <= upper(t, ptr),
        in_order(field_ranges(acc), lo, upper(t, ptr)),
        forall|i: int| 0 <= i < acc.len() ==> field_wf(#[trigger] acc[i]),
    ensures
        fields_at(t, ptr, acc) matches Ok(p) ==> {
            &&& ptr + p.used < t.len()
            &&& kind_at(t, ptr + p.used, TokenKindView::CloseBrace)
            &&& in_order(field_ranges(p.node), lo, upper(t, ptr + p.used))
            &&& forall|i: int| 0 <= i < p.node.len() ==> field_wf(#[trigger] p.node[i])
        },
    decreases unread(t, ptr), 5nat,
{
    if ptr < t.len() && !kind_at(t, ptr, TokenKindView::CloseBrace) {
        lemma_field(t, ptr);
        match field_at(t, ptr) {
            Err(_) => {},
            Ok(f) => {
                let next = ptr + 1 + f.used;
                let acc2 = acc.push(f.node);
                let range = (f.node.start_pos(), f.node.end_pos());
                assert(field_ranges(acc2) =~= field_ranges(acc).push(range));
                assert forall|i: int| 0 <= i < acc2.len() implies field_wf(#[trigger] acc2[i]) by {
                    if i < acc.len() {
                        assert(acc2[i] == acc[i]);
                    }
                }
                lemma_upper(t, ptr, next);
                lemma_in_order_push(field_ranges(acc), lo, upper(t, ptr), range, upper(t, next));
                lemma_fields(t, next, acc2, lo);
            },
        }
    }
}

proof fn lemma_field(t: Seq<TokenView>, ptr: nat)
    requires
        ordered(t),
        ptr <= t.len(),
    ensures
        field_at(t, ptr) matches Ok(p) ==> field_fits(t, ptr, p.node, p.used),
    decreases unread(t, ptr), 4nat,
{
    if keyword_at(t, ptr) {
        lemma_concrete_field(t, ptr);
    } else if kind_at(t, ptr, TokenKindView::Ellipsis) {
        lemma_union_field(t, ptr);
    }
}

proof fn lemma_optional_arg_list(t: Seq<TokenView>, ptr: nat)
    requires
        ordered(t),
        ptr <= t.len(),
    ensures
        optional_arg_list_at(t, ptr) matches Ok(p) ==> match p.node {
            Some(args) => arg_list_fits(t, ptr, args, p.used),
            None => p.used == 0,
        },
    decreases unread(t, ptr), 2nat,
{
    if kind_at(t, ptr, TokenKindView::OpenParen) {
        lemma_arg_list(t, ptr, TokenKindView::OpenParen, TokenKindView::CloseParen);
    }
}

proof fn lemma_optional_field_list(t: Seq<TokenView>, ptr: nat)
    requires
        ordered(t),
        ptr <= t.len(),
    ensures
        optional_field_list_at(t, ptr) matches Ok(p) ==> match p.node {
            Some(list) => field_list_fits(t, ptr, list, p.used),
            None => p.used == 0,
        },
    decreases unread(t, ptr), 2nat,
{
    if kind_at(t, ptr, TokenKindView::OpenBrace) {
        lemma_field_list(t, ptr);
    }
}

proof fn lemma_concrete_field(t: Seq<TokenView>, ptr: nat)
    requires
        ordered(t),
        ptr <= t.len(),
    ensures
        concrete_field_at(t, ptr) matches Ok(p) ==> field_fits(t, ptr, p.node, p.used),
    decreases unread(t, ptr), 3nat,
{
    if keyword_at(t, ptr) {
        lemma_upper(t, ptr, ptr + 1);
        lemma_optional_arg_list(t, ptr + 1);
        match optional_arg_list_at(t, ptr + 1) {
            Err(_) => {},
            Ok(a) => {
                let next = ptr + 1 + a.used;
                lemma_upper(t, ptr + 1, next);
                lemma_upper(t, ptr, next);
                lemma_upper(t, next, next);
                lemma_optional_field_list(t, next);
                match optional_field_list_at(t, next) {
                    Err(_) => {},
                    Ok(l) => {
                        lemma_upper(t, next, next + l.used);
                        lemma_upper(t, ptr + 1, next + l.used);
                    },
                }
            },
        }
    }
}

proof fn lemma_union_field(t: Seq<TokenView>, ptr: nat)
    requires
        ordered(t),
        ptr <= t.len(),
    ensures
        union_field_at(t, ptr) matches Ok(p) ==> field_fits(t, ptr, p.node, p.used),
    decreases unread(t, ptr), 3nat,
{
    if kind_at(t, ptr, TokenKindView::Ellipsis) && kind_at(
        t,
        ptr + 1,
        TokenKindView::Keyword("on"@),
    ) {
        let on = t[ptr + 1 as int];
        lemma_upper(t, ptr, ptr + 1);
        lemma_upper(t, ptr + 1, ptr + 2);
        lemma_upper(t, ptr, ptr + 2);
        if keyword_at(t, ptr + 2) || (ptr + 2 < t.len() && t[ptr + 2 as int].pos > on.end_pos()) {
            let named: nat = if keyword_at(t, ptr + 2) {
                1
            } else {
                0
            };
            let next = ptr + 2 + named;
            lemma_upper(t, ptr + 2, next);
            lemma_upper(t, next, next);
            if named == 1 {
                lemma_upper(t, ptr + 2, ptr + 3);
            }
            if kind_at(t, next, TokenKindView::OpenBrace) {
                lemma_field_list(t, next);
                match field_list_at(t, next) {
                    Ok(l) => {
                        lemma_upper(t, next, next + l.used);
                    },
                    Err(_) => {},
                }
            }
        }
    }
}

/// For tokens in the order of the source, every node of the tree that the
/// parser returns starts no later than it ends and lies inside its parent,
/// and the fields of a field list, the parameters of an argument list and
/// the elements of a list value each end no later than the next one starts.
pub proof fn lemma_parse_well_formed(t: Seq<TokenView>)
    requires
        ordered(t),
    ensures
        root_of(t) matches Ok(root) ==> root_wf(root),
{
    if kind_at(t, 0, TokenKindView::Keyword("mutation"@)) {
        lemma_field_list(t, 1);
        lemma_upper(t, 0, 1);
    } else if t.len() > 0 {
        let skip: nat = if kind_at(t, 0, TokenKindView::Keyword("query"@)) {
            1
        } else {
            0
        };
        lemma_field_list(t, skip);
        lemma_upper(t, 0, skip);
    }
}

/// In every field list of the tree, a field ends no later than the next
/// one starts.
pub proof fn lemma_fields_do_not_overlap(list: FieldListView, i: int)
    requires
        field_list_wf(list),
        0 <= i,
        i + 1 < list.fields.len(),
    ensures
        list.fields[i].end_pos() <= list.fields[i + 1].start_pos(),
{
    let ranges = field_ranges(list.fields);
    assert(ranges[i].1 <= ranges[i + 1].0);
}

} // verus!
