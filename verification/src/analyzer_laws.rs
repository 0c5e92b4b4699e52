//! What holds of every analysis: where the cursor counts as on a token or
//! inside a list, and what is proposed for a value that is missing.

use crate::analyzer::{
    analysis_of, in_concrete_field, in_root, in_value, matching, AnalyzerErrorView, Candidate,
    SuggestionElemView, SuggestionView,
};
use crate::ast::{
    within_exclusive, ConcreteFieldView, FieldListView, ParamValueView, QueryView, RootView,
};
use crate::editor::{completion_of, root_fields, Completion};
use crate::schema::{
    field_candidates, name_candidates, without_non_null, EnumTypeView, SchemaView, TypeClass,
    TypeView,
};
use crate::tokenizer::{tokens_of, TokenView};
use crate::tokenizer_laws::without_noise;
use vstd::prelude::*;

verus! {

/// Every candidate as a suggestion, with no position matched.
pub open spec fn all_of(candidates: Seq<Candidate>) -> Seq<SuggestionElemView> {
    Seq::new(
        candidates.len(),
        |i: int|
            SuggestionElemView {
                name: candidates[i].name,
                kind: candidates[i].kind,
                fuzzy_match_positions: Seq::empty(),
            },
    )
}

/// The empty prefix matches every candidate, in the order of the candidates.
pub proof fn lemma_empty_prefix_matches_all(candidates: Seq<Candidate>)
    ensures
        matching(candidates, Seq::empty()) == all_of(candidates),
    decreases candidates.len(),
{
    if candidates.len() > 0 {
        lemma_empty_prefix_matches_all(candidates.drop_last());
        assert(all_of(candidates) =~= all_of(candidates.drop_last()).push(
            SuggestionElemView {
                name: candidates.last().name,
                kind: candidates.last().kind,
                fuzzy_match_positions: Seq::empty(),
            },
        ));
    } else {
        assert(all_of(candidates) =~= Seq::<SuggestionElemView>::empty());
    }
}

/// A cursor on a missing value whose declared type is an enum, with or
/// without `NonNull` around it, is offered every value of the enum, and
/// applying one replaces no token.
pub proof fn lemma_missing_enum_value(
    schema: SchemaView,
    range: (nat, nat),
    scope: TypeClass,
    pos: nat,
    name: String,
    values: EnumTypeView,
)
    requires
        without_non_null(scope) == TypeClass::Enum(name),
        schema.type_definition(name@) == Some(TypeView::Enum(values)),
    ensures
        in_value(schema, ParamValueView::Missing(range), scope, pos) == Ok::<
            Option<SuggestionView>,
            AnalyzerErrorView,
        >(
            Some(
                SuggestionView {
                    elems: all_of(name_candidates(values.elems, "Enum"@)),
                    token: None,
                },
            ),
        ),
{
    lemma_empty_prefix_matches_all(name_candidates(values.elems, "Enum"@));
}

/// A cursor just after the last byte of a token is on the token.
pub proof fn lemma_token_end_is_on_token(token: TokenView)
    ensures
        token.touches(token.end_pos()),
        token.touches(token.pos),
        !token.touches(token.end_pos() + 1),
{
}

/// A cursor just after the last byte of a field's name is on the name: the
/// fields of the scope are matched against the name, and the name is what a
/// completion replaces.
pub proof fn lemma_cursor_at_end_of_name(
    schema: SchemaView,
    field: ConcreteFieldView,
    scope: TypeView,
)
    ensures
        in_concrete_field(schema, field, field.name.end_pos(), scope) == (match scope {
            TypeView::Object(t) | TypeView::Interface(t) => Ok(
                Some(
                    SuggestionView {
                        elems: matching(field_candidates(t.fields), field.name.original),
                        token: Some(field.name),
                    },
                ),
            ),
            _ => Err(AnalyzerErrorView::KeywordOutsideObject),
        }),
{
}

/// A cursor at the end of a list is outside the list.
pub proof fn lemma_list_end_is_outside(start: nat, end: nat)
    ensures
        !within_exclusive(start, end, end),
        start < end ==> within_exclusive(start, end, start),
        start < end ==> within_exclusive(start, end, (end - 1) as nat),
{
}

/// A cursor at the end of the field list of a query, after its closing
/// brace, is at no place to complete.
pub proof fn lemma_cursor_at_end_of_field_list(schema: SchemaView, query: QueryView)
    requires
        schema.type_definition(schema.query_root_name@) is Some,
    ensures
        analysis_of(schema, RootView::Query(query), query.field_list.end_pos) == Ok::<
            Option<SuggestionView>,
            AnalyzerErrorView,
        >(None),
{
}

/// In a buffer without text, wherever the cursor is said to be, every field
/// of the query root is offered, and applying one replaces no token; where
/// the schema does not define the query root with fields, nothing is.
pub proof fn lemma_empty_buffer_offers_root_fields(schema: SchemaView, cursor: nat)
    ensures
        completion_of(schema, Seq::empty(), cursor) == Completion::Suggestions(
            root_fields(schema),
        ),
        root_fields(schema) == (match schema.type_definition(schema.query_root_name@) {
            Some(TypeView::Object(t)) | Some(TypeView::Interface(t)) => Some(
                SuggestionView { elems: all_of(field_candidates(t.fields)), token: None },
            ),
            _ => None,
        }),
{
    assert(tokens_of(Seq::<u8>::empty(), true) =~= Seq::<TokenView>::empty());
    assert(without_noise(Seq::<TokenView>::empty()) =~= Seq::<TokenView>::empty());
    match schema.type_definition(schema.query_root_name@) {
        Some(TypeView::Object(t)) | Some(TypeView::Interface(t)) => {
            lemma_empty_prefix_matches_all(field_candidates(t.fields));
        },
        _ => {},
    }
}

} // verus!
