//! The syntax tree of an operation. Every node carries the half-open byte
//! range `[start_pos, end_pos)` of the source it was read from.

use crate::tokenizer::{Token, TokenView};
use std::ops::{Range, RangeInclusive};
use vstd::prelude::*;

verus! {

/// An operation.
pub enum Root {
    Query(Query),
    Mutation(Mutation),
}

/// A query, with or without its keyword.
#[derive(Debug)]
pub struct Query {
    pub start_pos: usize,
    pub end_pos: usize,
    pub field_list: FieldList,
}

/// A mutation.
#[derive(Debug)]
pub struct Mutation {
    pub start_pos: usize,
    pub end_pos: usize,
    pub field_list: FieldList,
}

/// The fields between a pair of braces.
#[derive(Debug)]
pub struct FieldList {
    pub start_pos: usize,
    pub end_pos: usize,
    pub fields: Vec<Field>,
}

/// A field of a field list.
#[derive(Debug)]
pub enum Field {
    Concrete(ConcreteField),
    Union(UnionField),
}

/// A named field, with the arguments and the fields that may follow it.
#[derive(Debug)]
pub struct ConcreteField {
    pub start_pos: usize,
    pub end_pos: usize,
    pub name: Token,
    pub arglist: Option<ArgList>,
    pub field_list: Option<FieldList>,
}

/// An inline fragment: `... on Type { .. }`.
#[derive(Debug)]
pub struct UnionField {
    pub start_pos: usize,
    pub end_pos: usize,
    pub named_type: Token,
    pub field_list: FieldList,
}

/// Parameters between parentheses, or between the braces of an object
/// value.
#[derive(Debug, PartialEq, Eq)]
pub struct ArgList {
    pub start_pos: usize,
    pub end_pos: usize,
    pub params: Vec<ParamKeyValuePair>,
}

/// A parameter: a key and its value.
#[derive(Debug, PartialEq, Eq)]
pub struct ParamKeyValuePair {
    pub start_pos: usize,
    pub end_pos: usize,
    pub key: Token,
    pub value: ParamValue,
}

/// The value of a parameter.
#[derive(Debug, PartialEq, Eq)]
pub enum ParamValue {
    Simple(Token),
    List(ListParamValue),
    Object(ArgList),
    /// Placeholder that error recovery leaves where a value should stand:
    /// `(start_pos, end_pos)`.
    Missing((usize, usize)),
}

/// Values between brackets.
#[derive(Debug, PartialEq, Eq)]
pub struct ListParamValue {
    pub start_pos: usize,
    pub end_pos: usize,
    pub elems: Vec<ParamValue>,
}

/// Mathematical model of a [`Root`].
pub enum RootView {
    Query(QueryView),
    Mutation(MutationView),
}

/// Mathematical model of a [`Query`].
pub struct QueryView {
    pub start_pos: nat,
    pub end_pos: nat,
    pub field_list: FieldListView,
}

/// Mathematical model of a [`Mutation`].
pub struct MutationView {
    pub start_pos: nat,
    pub end_pos: nat,
    pub field_list: FieldListView,
}

/// Mathematical model of a [`FieldList`].
pub struct FieldListView {
    pub start_pos: nat,
    pub end_pos: nat,
    pub fields: Seq<FieldView>,
}

/// Mathematical model of a [`Field`].
pub enum FieldView {
    Concrete(ConcreteFieldView),
    Union(UnionFieldView),
}

/// Mathematical model of a [`ConcreteField`].
pub struct ConcreteFieldView {
    pub start_pos: nat,
    pub end_pos: nat,
    pub name: TokenView,
    pub arglist: Option<ArgListView>,
    pub field_list: Option<FieldListView>,
}

/// Mathematical model of a [`UnionField`].
pub struct UnionFieldView {
    pub start_pos: nat,
    pub end_pos: nat,
    pub named_type: TokenView,
    pub field_list: FieldListView,
}

/// Mathematical model of an [`ArgList`].
pub struct ArgListView {
    pub start_pos: nat,
    pub end_pos: nat,
    pub params: Seq<ParamKeyValuePairView>,
}

/// Mathematical model of a [`ParamKeyValuePair`].
pub struct ParamKeyValuePairView {
    pub start_pos: nat,
    pub end_pos: nat,
    pub key: TokenView,
    pub value: ParamValueView,
}

/// Mathematical model of a [`ParamValue`].
pub enum ParamValueView {
    Simple(TokenView),
    List(ListParamValueView),
    Object(ArgListView),
    Missing((nat, nat)),
}

/// Mathematical model of a [`ListParamValue`].
pub struct ListParamValueView {
    pub start_pos: nat,
    pub end_pos: nat,
    pub elems: Seq<ParamValueView>,
}

/// The model of a field list.
pub open spec fn field_list_view(list: &FieldList) -> FieldListView
    decreases list,
{
    FieldListView {
        start_pos: list.start_pos as nat,
        end_pos: list.end_pos as nat,
        fields: Seq::new(
            list.fields.len() as nat,
            |i: int|
                if 0 <= i < list.fields.len() {
                    field_view(&list.fields[i])
                } else {
                    arbitrary()
                },
        ),
    }
}

/// The model of a field.
pub open spec fn field_view(field: &Field) -> FieldView
    decreases field,
{
    match field {
        Field::Concrete(f) => FieldView::Concrete(
            ConcreteFieldView {
                start_pos: f.start_pos as nat,
                end_pos: f.end_pos as nat,
                name: f.name@,
                arglist: match &f.arglist {
                    Some(args) => Some(arg_list_view(args)),
                    None => None,
                },
                field_list: match &f.field_list {
                    Some(list) => Some(field_list_view(list)),
                    None => None,
                },
            },
        ),
        Field::Union(f) => FieldView::Union(
            UnionFieldView {
                start_pos: f.start_pos as nat,
                end_pos: f.end_pos as nat,
                named_type: f.named_type@,
                field_list: field_list_view(&f.field_list),
            },
        ),
    }
}

/// The model of an argument list.
pub open spec fn arg_list_view(args: &ArgList) -> ArgListView
    decreases args,
{
    ArgListView {
        start_pos: args.start_pos as nat,
        end_pos: args.end_pos as nat,
        params: Seq::new(
            args.params.len() as nat,
            |i: int|
                if 0 <= i < args.params.len() {
                    param_view(&args.params[i])
                } else {
                    arbitrary()
                },
        ),
    }
}

/// The model of a parameter.
pub open spec fn param_view(param: &ParamKeyValuePair) -> ParamKeyValuePairView
    decreases param,
{
    ParamKeyValuePairView {
        start_pos: param.start_pos as nat,
        end_pos: param.end_pos as nat,
        key: param.key@,
        value: param_value_view(&param.value),
    }
}

/// The model of a value.
pub open spec fn param_value_view(value: &ParamValue) -> ParamValueView
    decreases value,
{
    match value {
        ParamValue::Simple(token) => ParamValueView::Simple(token@),
        ParamValue::List(list) => ParamValueView::List(
            ListParamValueView {
                start_pos: list.start_pos as nat,
                end_pos: list.end_pos as nat,
                elems: Seq::new(
                    list.elems.len() as nat,
                    |i: int|
                        if 0 <= i < list.elems.len() {
                            param_value_view(&list.elems[i])
                        } else {
                            arbitrary()
                        },
                ),
            },
        ),
        ParamValue::Object(args) => ParamValueView::Object(arg_list_view(args)),
        ParamValue::Missing((start, end)) => ParamValueView::Missing((*start as nat, *end as nat)),
    }
}

impl View for FieldList {
    type V = FieldListView;

    open spec fn view(&self) -> FieldListView {
        field_list_view(self)
    }
}

impl View for Field {
    type V = FieldView;

    open spec fn view(&self) -> FieldView {
        field_view(self)
    }
}

impl View for ArgList {
    type V = ArgListView;

    open spec fn view(&self) -> ArgListView {
        arg_list_view(self)
    }
}

impl View for ParamKeyValuePair {
    type V = ParamKeyValuePairView;

    open spec fn view(&self) -> ParamKeyValuePairView {
        param_view(self)
    }
}

impl View for ParamValue {
    type V = ParamValueView;

    open spec fn view(&self) -> ParamValueView {
        param_value_view(self)
    }
}

impl View for ListParamValue {
    type V = ListParamValueView;

    open spec fn view(&self) -> ListParamValueView {
        param_value_view(&ParamValue::List(*self))->List_0
    }
}

impl View for Query {
    type V = QueryView;

    open spec fn view(&self) -> QueryView {
        QueryView {
            start_pos: self.start_pos as nat,
            end_pos: self.end_pos as nat,
            field_list: self.field_list@,
        }
    }
}

impl View for Mutation {
    type V = MutationView;

    open spec fn view(&self) -> MutationView {
        MutationView {
            start_pos: self.start_pos as nat,
            end_pos: self.end_pos as nat,
            field_list: self.field_list@,
        }
    }
}

impl View for Root {
    type V = RootView;

    open spec fn view(&self) -> RootView {
        match self {
            Root::Query(query) => RootView::Query(query@),
            Root::Mutation(mutation) => RootView::Mutation(mutation@),
        }
    }
}

/// The models of a sequence of fields, one for one.
pub open spec fn field_views(fields: Seq<Field>) -> Seq<FieldView> {
    Seq::new(fields.len(), |i: int| field_view(&fields[i]))
}

/// The models of a sequence of parameters, one for one.
pub open spec fn param_views(params: Seq<ParamKeyValuePair>) -> Seq<ParamKeyValuePairView> {
    Seq::new(params.len(), |i: int| param_view(&params[i]))
}

/// The models of a sequence of values, one for one.
pub open spec fn value_views(values: Seq<ParamValue>) -> Seq<ParamValueView> {
    Seq::new(values.len(), |i: int| param_value_view(&values[i]))
}

/// The model of a field list holds the models of its fields.
pub proof fn lemma_field_list_view(list: &FieldList)
    ensures
        list@ == (FieldListView {
            start_pos: list.start_pos as nat,
            end_pos: list.end_pos as nat,
            fields: field_views(list.fields@),
        }),
{
    assert(field_list_view(list).fields =~= field_views(list.fields@));
}

/// The model of an argument list holds the models of its parameters.
pub proof fn lemma_arg_list_view(args: &ArgList)
    ensures
        args@ == (ArgListView {
            start_pos: args.start_pos as nat,
            end_pos: args.end_pos as nat,
            params: param_views(args.params@),
        }),
{
    assert(arg_list_view(args).params =~= param_views(args.params@));
}

/// The model of a list value holds the models of its elements.
pub proof fn lemma_list_value_view(list: &ListParamValue)
    ensures
        list@ == (ListParamValueView {
            start_pos: list.start_pos as nat,
            end_pos: list.end_pos as nat,
            elems: value_views(list.elems@),
        }),
        ParamValue::List(*list)@ == ParamValueView::List(list@),
{
    assert(param_value_view(&ParamValue::List(*list))->List_0.elems =~= value_views(
        list.elems@,
    ));
}

/// The model of an object value is the model of its argument list.
pub proof fn lemma_object_value_view(args: &ArgList)
    ensures
        ParamValue::Object(*args)@ == ParamValueView::Object(args@),
{
}

/// The model of a field holds the models of its parts.
pub proof fn lemma_field_view(field: &Field)
    ensures
        field matches Field::Concrete(f) ==> field@ == FieldView::Concrete(
            ConcreteFieldView {
                start_pos: f.start_pos as nat,
                end_pos: f.end_pos as nat,
                name: f.name@,
                arglist: match f.arglist {
                    Some(args) => Some(args@),
                    None => None,
                },
                field_list: match f.field_list {
                    Some(list) => Some(list@),
                    None => None,
                },
            },
        ),
        field matches Field::Union(f) ==> field@ == FieldView::Union(
            UnionFieldView {
                start_pos: f.start_pos as nat,
                end_pos: f.end_pos as nat,
                named_type: f.named_type@,
                field_list: f.field_list@,
            },
        ),
{
}

/// The model of a parameter holds the models of its key and value.
pub proof fn lemma_param_view(param: &ParamKeyValuePair)
    ensures
        param@ == (ParamKeyValuePairView {
            start_pos: param.start_pos as nat,
            end_pos: param.end_pos as nat,
            key: param.key@,
            value: param.value@,
        }),
{
}

/// Membership in the half-open range `[start, end)`, which containers use:
/// a cursor on the closing delimiter's far side is outside.
pub open spec fn within_exclusive(start: nat, end: nat, cursor: nat) -> bool {
    start <= cursor < end
}

/// Membership in the closed range `[start, end]`, which leaves use: a
/// cursor just after the last byte is still on the leaf.
pub open spec fn within_inclusive(start: nat, end: nat, cursor: nat) -> bool {
    start <= cursor <= end
}

impl FieldView {
    pub open spec fn start_pos(self) -> nat {
        match self {
            FieldView::Concrete(f) => f.start_pos,
            FieldView::Union(f) => f.start_pos,
        }
    }

    pub open spec fn end_pos(self) -> nat {
        match self {
            FieldView::Concrete(f) => f.end_pos,
            FieldView::Union(f) => f.end_pos,
        }
    }
}

impl ParamValueView {
    pub open spec fn start_pos(self) -> nat {
        match self {
            ParamValueView::Simple(token) => token.pos,
            ParamValueView::Missing((start, _)) => start,
            ParamValueView::List(list) => list.start_pos,
            ParamValueView::Object(object) => object.start_pos,
        }
    }

    pub open spec fn end_pos(self) -> nat {
        match self {
            ParamValueView::Simple(token) => token.end_pos(),
            ParamValueView::Missing((_, end)) => end,
            ParamValueView::List(list) => list.end_pos,
            ParamValueView::Object(object) => object.end_pos,
        }
    }
}

impl FieldList {
    /// A list without fields whose range is empty, at `pos`.
    pub fn new_empty(pos: usize) -> (list: FieldList)
        ensures
            list@ == (FieldListView {
                start_pos: pos as nat,
                end_pos: pos as nat,
                fields: Seq::empty(),
            }),
    {
        let list = FieldList { start_pos: pos, end_pos: pos, fields: Vec::new() };
        assert(list@.fields =~= Seq::empty());
        list
    }

    pub fn range_exclusive(&self) -> (range: Range<usize>)
        ensures
            range.start == self.start_pos,
            range.end == self.end_pos,
    {
        self.start_pos..self.end_pos
    }

    /// Whether the cursor is inside the list's half-open range.
    pub fn contains(&self, cursor: usize) -> (inside: bool)
        ensures
            inside == within_exclusive(self@.start_pos, self@.end_pos, cursor as nat),
    {
        self.start_pos <= cursor && cursor < self.end_pos
    }
}

impl Field {
    pub fn range_inclusive(&self) -> (range: RangeInclusive<usize>)
        ensures
            range@.start == self@.start_pos(),
            range@.end == self@.end_pos(),
            !range@.exhausted,
    {
        match self {
            Field::Concrete(field) => RangeInclusive::new(field.start_pos, field.end_pos),
            Field::Union(field) => RangeInclusive::new(field.start_pos, field.end_pos),
        }
    }

    /// Whether the cursor is on the field: inside its closed range.
    pub fn touches(&self, cursor: usize) -> (on: bool)
        ensures
            on == within_inclusive(self@.start_pos(), self@.end_pos(), cursor as nat),
    {
        match self {
            Field::Concrete(field) => field.start_pos <= cursor && cursor <= field.end_pos,
            Field::Union(field) => field.start_pos <= cursor && cursor <= field.end_pos,
        }
    }

    pub fn as_concrete_field(&self) -> (field: &ConcreteField)
        requires
            self is Concrete,
        ensures
            *self == Field::Concrete(*field),
    {
        match self {
            Field::Concrete(field) => field,
            _ => unreached(),
        }
    }

    pub fn as_union_field(&self) -> (field: &UnionField)
        requires
            self is Union,
        ensures
            *self == Field::Union(*field),
    {
        match self {
            Field::Union(field) => field,
            _ => unreached(),
        }
    }
}

impl ArgList {
    pub fn range_exclusive(&self) -> (range: Range<usize>)
        ensures
            range.start == self.start_pos,
            range.end == self.end_pos,
    {
        self.start_pos..self.end_pos
    }

    /// Whether the cursor is inside the list's half-open range.
    pub fn contains(&self, cursor: usize) -> (inside: bool)
        ensures
            inside == within_exclusive(self@.start_pos, self@.end_pos, cursor as nat),
    {
        self.start_pos <= cursor && cursor < self.end_pos
    }
}

impl ParamValue {
    /// Whether the positions of the value can be computed: a simple value's
    /// token ends inside the machine word.
    pub open spec fn well_formed(&self) -> bool {
        self matches ParamValue::Simple(token) ==> token.well_formed()
    }

    pub fn start_pos(&self) -> (pos: usize)
        ensures
            pos == self@.start_pos(),
    {
        match self {
            ParamValue::Simple(token) => token.pos,
            ParamValue::Missing((start_pos, _)) => *start_pos,
            ParamValue::List(list) => list.start_pos,
            ParamValue::Object(object) => {
                assert(arg_list_view(object).start_pos == object.start_pos);
                object.start_pos
            },
        }
    }

    pub fn end_pos(&self) -> (pos: usize)
        requires
            self.well_formed(),
        ensures
            pos == self@.end_pos(),
    {
        match self {
            ParamValue::Simple(token) => token.end_pos(),
            ParamValue::Missing((_, end_pos)) => *end_pos,
            ParamValue::List(list) => list.end_pos,
            ParamValue::Object(object) => {
                assert(arg_list_view(object).end_pos == object.end_pos);
                object.end_pos
            },
        }
    }

    pub fn as_list(&self) -> (list: &ListParamValue)
        requires
            self is List,
        ensures
            *self == ParamValue::List(*list),
    {
        match self {
            ParamValue::List(list) => list,
            _ => unreached(),
        }
    }

    pub fn as_object(&self) -> (object: &ArgList)
        requires
            self is Object,
        ensures
            *self == ParamValue::Object(*object),
    {
        match self {
            ParamValue::Object(object) => object,
            _ => unreached(),
        }
    }

    pub fn as_simple(&self) -> (token: &Token)
        requires
            self is Simple,
        ensures
            *self == ParamValue::Simple(*token),
    {
        match self {
            ParamValue::Simple(token) => token,
            _ => unreached(),
        }
    }

    pub fn range_inclusive(&self) -> (range: RangeInclusive<usize>)
        requires
            self.well_formed(),
        ensures
            range@.start == self@.start_pos(),
            range@.end == self@.end_pos(),
            !range@.exhausted,
    {
        RangeInclusive::new(self.start_pos(), self.end_pos())
    }

    /// Whether the cursor is on the value: inside its closed range.
    pub fn touches(&self, cursor: usize) -> (on: bool)
        ensures
            on == within_inclusive(self@.start_pos(), self@.end_pos(), cursor as nat),
    {
        match self {
            ParamValue::Simple(token) => token.touches(cursor),
            ParamValue::Missing((start_pos, end_pos)) => *start_pos <= cursor && cursor
                <= *end_pos,
            ParamValue::List(list) => list.start_pos <= cursor && cursor <= list.end_pos,
            ParamValue::Object(object) => {
                assert(arg_list_view(object).start_pos == object.start_pos);
                assert(arg_list_view(object).end_pos == object.end_pos);
                object.start_pos <= cursor && cursor <= object.end_pos
            },
        }
    }
}

} // verus!
