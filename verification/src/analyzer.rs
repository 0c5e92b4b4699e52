//! The cursor locator: it descends the syntax tree and the schema in
//! lockstep and proposes completions for the place the cursor is at.
//!
//! Containers (field lists, argument lists) hold the cursor in their
//! half-open range, leaves (names, values) in their closed range. Where two
//! closed ranges touch, the first one in the order of the siblings wins.

use crate::ast::{
    lemma_arg_list_view, lemma_field_list_view, lemma_field_view, lemma_list_value_view,
    lemma_object_value_view, lemma_param_view, within_exclusive, within_inclusive, ArgList,
    ArgListView, ConcreteField, ConcreteFieldView, Field, FieldList, FieldListView, FieldView,
    ListParamValue, Mutation, ParamKeyValuePairView, ParamValue, ParamValueView, Query, Root,
    RootView, UnionField, UnionFieldView,
};
use crate::schema::{
    arg_candidates, arg_named, class_label, field_candidates, name_candidates, underlying_name,
    without_non_null, Arg, EnumType, FieldTypeError, Schema, SchemaView, Type, TypeClass,
    TypeView,
};
use crate::tokenizer::{Token, TokenView};
use crate::util::fuzzy_positions;
use vstd::prelude::*;
use vstd::string::*;

verus! {

/// A name that is proposed, with the label of its kind and the places of
/// its characters that the typed prefix matched.
#[derive(Debug, Clone)]
pub struct SuggestionElem {
    pub name: String,
    pub kind: String,
    pub fuzzy_match_positions: Vec<usize>,
}

/// The names proposed at a cursor position. Where `token` is there, the
/// name that is picked replaces it; else the name is put at the cursor.
#[derive(Debug, Clone)]
pub struct Suggestion {
    pub elems: Vec<SuggestionElem>,
    pub token: Option<Token>,
}

/// Mathematical model of a [`SuggestionElem`].
pub struct SuggestionElemView {
    pub name: Seq<char>,
    pub kind: Seq<char>,
    pub fuzzy_match_positions: Seq<usize>,
}

/// Mathematical model of a [`Suggestion`].
pub struct SuggestionView {
    pub elems: Seq<SuggestionElemView>,
    pub token: Option<TokenView>,
}

impl View for SuggestionElem {
    type V = SuggestionElemView;

    open spec fn view(&self) -> SuggestionElemView {
        SuggestionElemView {
            name: self.name@,
            kind: self.kind@,
            fuzzy_match_positions: self.fuzzy_match_positions@,
        }
    }
}

/// The models of a sequence of suggestion elements, one for one.
pub open spec fn elem_views(elems: Seq<SuggestionElem>) -> Seq<SuggestionElemView> {
    elems.map_values(|e: SuggestionElem| e@)
}

impl View for Suggestion {
    type V = SuggestionView;

    open spec fn view(&self) -> SuggestionView {
        SuggestionView {
            elems: elem_views(self.elems@),
            token: match self.token {
                Some(token) => Some(token@),
                None => None,
            },
        }
    }
}

impl SuggestionElem {
    /// A copy of this element.
    pub fn duplicate(&self) -> (r: SuggestionElem)
        ensures
            r@ == self@,
    {
        let mut positions: Vec<usize> = Vec::new();
        let mut i: usize = 0;
        while i < self.fuzzy_match_positions.len()
            invariant
                i <= self.fuzzy_match_positions.len(),
                positions@ == self.fuzzy_match_positions@.subrange(0, i as int),
            decreases self.fuzzy_match_positions.len() - i,
        {
            positions.push(self.fuzzy_match_positions[i]);
            assert(positions@ =~= self.fuzzy_match_positions@.subrange(0, i + 1));
            i += 1;
        }
        assert(positions@ =~= self.fuzzy_match_positions@);
        SuggestionElem {
            name: self.name.clone(),
            kind: self.kind.clone(),
            fuzzy_match_positions: positions,
        }
    }
}

impl Suggestion {
    /// A copy of this suggestion.
    pub fn duplicate(&self) -> (r: Suggestion)
        ensures
            r@ == self@,
    {
        let mut elems: Vec<SuggestionElem> = Vec::new();
        let mut i: usize = 0;
        while i < self.elems.len()
            invariant
                i <= self.elems.len(),
                elem_views(elems@) == elem_views(self.elems@).subrange(0, i as int),
            decreases self.elems.len() - i,
        {
            let ghost before = elem_views(elems@);
            let elem = self.elems[i].duplicate();
            elems.push(elem);
            assert(elem_views(elems@) =~= before.push(elem@));
            assert(elem_views(self.elems@)[i as int] == self.elems[i as int]@);
            assert(elem_views(elems@) =~= elem_views(self.elems@).subrange(0, i + 1));
            i += 1;
        }
        assert(elem_views(elems@) =~= elem_views(self.elems@));
        Suggestion {
            elems,
            token: match &self.token {
                Some(token) => Some(token.duplicate()),
                None => None,
            },
        }
    }
}

/// A name that may be proposed, with the label of its kind.
pub struct Candidate {
    pub name: Seq<char>,
    pub kind: Seq<char>,
}

/// The candidates that the prefix matches fuzzily, in their own order, each
/// with the positions of the match.
pub open spec fn matching(candidates: Seq<Candidate>, prefix: Seq<char>) -> Seq<SuggestionElemView>
    decreases candidates.len(),
{
    if candidates.len() == 0 {
        Seq::empty()
    } else {
        let rest = matching(candidates.drop_last(), prefix);
        let last = candidates.last();
        match fuzzy_positions(last.name, prefix) {
            Some(positions) => rest.push(
                SuggestionElemView {
                    name: last.name,
                    kind: last.kind,
                    fuzzy_match_positions: positions,
                },
            ),
            None => rest,
        }
    }
}

/// An inconsistency between the operation and the schema, found on the way
/// to the cursor.
#[derive(Debug)]
pub enum AnalyzerError {
    QueryRootNotFound,
    MutationRootNotFound,
    NotUnionScope,
    MissingUnionType(String),
    KeywordOutsideObject,
    InvalidField(String),
    FieldNotFound(String),
    DefinitionNotFound { field_type: String, field: String },
    InvalidArgName(String),
    EnumTypeNotFound(String),
    ExpectedEnumType,
    ExpectedInputType(String),
    TypeNotFound(String),
    ExpectedInputObject(String),
    ExpectedListType(String),
}

/// Mathematical model of an [`AnalyzerError`].
pub enum AnalyzerErrorView {
    /// The schema defines no type under the name of its query root.
    QueryRootNotFound,
    /// The schema defines no type under the name of its mutation root.
    MutationRootNotFound,
    /// An inline fragment stands where the scope has no possible types.
    NotUnionScope,
    /// The schema defines no type of the name after `on`.
    MissingUnionType(Seq<char>),
    /// A field name stands where the scope is no object or interface.
    KeywordOutsideObject,
    /// The scope has no field of this name that takes arguments.
    InvalidField(Seq<char>),
    /// The scope has no field of this name.
    FieldNotFound(Seq<char>),
    /// The schema defines no type of the name that the field refers to.
    DefinitionNotFound { field_type: Seq<char>, field: Seq<char> },
    /// The field or input object has no argument of this name.
    InvalidArgName(Seq<char>),
    /// The schema defines no type of the enum's name.
    EnumTypeNotFound(Seq<char>),
    /// The type of the enum's name is no enum.
    ExpectedEnumType,
    /// An object stands where the argument, with the given label, is no
    /// input object.
    ExpectedInputType(Seq<char>),
    /// The schema defines no type of the input object's name.
    TypeNotFound(Seq<char>),
    /// The type of the input object's name is no input object.
    ExpectedInputObject(Seq<char>),
    /// A list stands where the argument, with the given label, is no list.
    ExpectedListType(Seq<char>),
}

impl View for AnalyzerError {
    type V = AnalyzerErrorView;

    open spec fn view(&self) -> AnalyzerErrorView {
        match self {
            AnalyzerError::QueryRootNotFound => AnalyzerErrorView::QueryRootNotFound,
            AnalyzerError::MutationRootNotFound => AnalyzerErrorView::MutationRootNotFound,
            AnalyzerError::NotUnionScope => AnalyzerErrorView::NotUnionScope,
            AnalyzerError::MissingUnionType(name) => AnalyzerErrorView::MissingUnionType(name@),
            AnalyzerError::KeywordOutsideObject => AnalyzerErrorView::KeywordOutsideObject,
            AnalyzerError::InvalidField(name) => AnalyzerErrorView::InvalidField(name@),
            AnalyzerError::FieldNotFound(name) => AnalyzerErrorView::FieldNotFound(name@),
            AnalyzerError::DefinitionNotFound { field_type, field } => {
                AnalyzerErrorView::DefinitionNotFound { field_type: field_type@, field: field@ }
            },
            AnalyzerError::InvalidArgName(name) => AnalyzerErrorView::InvalidArgName(name@),
            AnalyzerError::EnumTypeNotFound(name) => AnalyzerErrorView::EnumTypeNotFound(name@),
            AnalyzerError::ExpectedEnumType => AnalyzerErrorView::ExpectedEnumType,
            AnalyzerError::ExpectedInputType(label) => AnalyzerErrorView::ExpectedInputType(
                label@,
            ),
            AnalyzerError::TypeNotFound(name) => AnalyzerErrorView::TypeNotFound(name@),
            AnalyzerError::ExpectedInputObject(name) => AnalyzerErrorView::ExpectedInputObject(
                name@,
            ),
            AnalyzerError::ExpectedListType(label) => AnalyzerErrorView::ExpectedListType(label@),
        }
    }
}

/// What an analysis gives: a suggestion, nothing to suggest, or an error.
pub type Analysis = Result<Option<SuggestionView>, AnalyzerErrorView>;

/// The index of the first flag that is set.
pub open spec fn first_set(flags: Seq<bool>) -> Option<int>
    decreases flags.len(),
{
    if flags.len() == 0 {
        None
    } else {
        match first_set(flags.drop_last()) {
            Some(i) => Some(i),
            None => if flags.last() {
                Some(flags.len() - 1)
            } else {
                None
            },
        }
    }
}

/// What `first_set` finds is set, and no flag before it is.
pub proof fn lemma_first_set(flags: Seq<bool>)
    ensures
        first_set(flags) matches Some(i) ==> 0 <= i < flags.len() && flags[i] && forall|j: int|
            0 <= j < i ==> !flags[j],
        first_set(flags) is None ==> forall|j: int| 0 <= j < flags.len() ==> !flags[j],
    decreases flags.len(),
{
    if flags.len() > 0 {
        let head = flags.drop_last();
        lemma_first_set(head);
        assert forall|j: int| 0 <= j < head.len() implies head[j] == flags[j] by {}
    }
}

/// The first flag that is set, stated by its index.
pub proof fn lemma_first_set_at(flags: Seq<bool>, i: int)
    requires
        0 <= i < flags.len(),
        flags[i],
        forall|j: int| 0 <= j < i ==> !flags[j],
    ensures
        first_set(flags) == Some(i),
    decreases flags.len(),
{
    lemma_first_set(flags.drop_last());
    if i < flags.len() - 1 {
        lemma_first_set_at(flags.drop_last(), i);
    }
}

/// No flag is set.
pub proof fn lemma_first_set_none(flags: Seq<bool>)
    requires
        forall|j: int| 0 <= j < flags.len() ==> !flags[j],
    ensures
        first_set(flags) is None,
    decreases flags.len(),
{
    if flags.len() > 0 {
        lemma_first_set_none(flags.drop_last());
    }
}

/// For each field, whether the cursor is on it.
pub open spec fn fields_touched(fields: Seq<FieldView>, pos: nat) -> Seq<bool> {
    Seq::new(
        fields.len(),
        |i: int| within_inclusive(fields[i].start_pos(), fields[i].end_pos(), pos),
    )
}

/// For each value, whether the cursor is on it.
pub open spec fn values_touched(values: Seq<ParamValueView>, pos: nat) -> Seq<bool> {
    Seq::new(
        values.len(),
        |i: int| within_inclusive(values[i].start_pos(), values[i].end_pos(), pos),
    )
}

/// For each parameter, whether it ends at or after the cursor.
pub open spec fn params_reached(params: Seq<ParamKeyValuePairView>, pos: nat) -> Seq<bool> {
    Seq::new(params.len(), |i: int| pos <= params[i].end_pos)
}

/// A suggestion of the candidates that the prefix matches.
pub open spec fn suggest(candidates: Seq<Candidate>, prefix: Seq<char>, token: Option<TokenView>)
    -> Analysis {
    Ok(Some(SuggestionView { elems: matching(candidates, prefix), token }))
}

/// The values of the enum of the given name that the prefix matches.
pub open spec fn enum_values(
    schema: SchemaView,
    name: Seq<char>,
    prefix: Seq<char>,
    token: Option<TokenView>,
) -> Analysis {
    match schema.type_definition(name) {
        None => Err(AnalyzerErrorView::EnumTypeNotFound(name)),
        Some(TypeView::Enum(e)) => suggest(name_candidates(e.elems, "Enum"@), prefix, token),
        Some(_) => Err(AnalyzerErrorView::ExpectedEnumType),
    }
}

/// The analysis of a cursor that is on the given value, whose declared type
/// is `scope`. The outermost `NonNull` of the type is looked through.
pub open spec fn in_value(schema: SchemaView, value: ParamValueView, scope: TypeClass, pos: nat)
    -> Analysis
    decreases value,
{
    let declared = without_non_null(scope);
    match value {
        ParamValueView::Simple(token) => match declared {
            TypeClass::Enum(name) => enum_values(schema, name@, token.original, Some(token)),
            _ => Ok(None),
        },
        ParamValueView::Missing(_) => match declared {
            TypeClass::Enum(name) => enum_values(schema, name@, Seq::empty(), None),
            _ => Ok(None),
        },
        ParamValueView::Object(args) => match declared {
            TypeClass::Input(name) => match schema.type_definition(name@) {
                None => Err(AnalyzerErrorView::TypeNotFound(name@)),
                Some(TypeView::InputObject(input)) => if within_exclusive(
                    args.start_pos,
                    args.end_pos,
                    pos,
                ) {
                    in_arglist(schema, args, pos, input.args)
                } else {
                    Ok(None)
                },
                Some(_) => Err(AnalyzerErrorView::ExpectedInputObject(name@)),
            },
            _ => Err(AnalyzerErrorView::ExpectedInputType(class_label(scope))),
        },
        ParamValueView::List(list) => match declared {
            TypeClass::List(inner) => match first_set(values_touched(list.elems, pos)) {
                Some(i) => {
                    proof {
                        lemma_first_set(values_touched(list.elems, pos));
                    }
                    in_value(schema, list.elems[i], *inner, pos)
                },
                None => Ok(None),
            },
            _ => Err(AnalyzerErrorView::ExpectedListType(class_label(scope))),
        },
    }
}

/// The analysis of a cursor inside the given list of parameters, whose
/// declared arguments are `scope`.
pub open spec fn in_arglist(schema: SchemaView, arglist: ArgListView, pos: nat, scope: Seq<Arg>)
    -> Analysis
    decreases arglist,
{
    match first_set(params_reached(arglist.params, pos)) {
        Some(i) => {
            proof {
                lemma_first_set(params_reached(arglist.params, pos));
            }
            let param = arglist.params[i];
            if pos < param.start_pos {
                suggest(arg_candidates(scope), Seq::empty(), None)
            } else if param.key.touches(pos) {
                suggest(arg_candidates(scope), param.key.original, Some(param.key))
            } else if within_inclusive(param.value.start_pos(), param.value.end_pos(), pos) {
                match arg_named(scope, param.key.original) {
                    None => Err(AnalyzerErrorView::InvalidArgName(param.key.original)),
                    Some(arg) => in_value(schema, param.value, arg.arg_type, pos),
                }
            } else {
                Ok(None)
            }
        },
        None => suggest(arg_candidates(scope), Seq::empty(), None),
    }
}

/// The analysis of a cursor inside the given field list, whose fields are
/// those of `scope`.
pub open spec fn in_field_list(schema: SchemaView, list: FieldListView, pos: nat, scope: TypeView)
    -> Analysis
    decreases list,
{
    match first_set(fields_touched(list.fields, pos)) {
        Some(i) => {
            proof {
                lemma_first_set(fields_touched(list.fields, pos));
            }
            in_field(schema, list.fields[i], pos, scope)
        },
        None => match scope {
            TypeView::Object(t) | TypeView::Interface(t) => suggest(
                field_candidates(t.fields),
                Seq::empty(),
                None,
            ),
            _ => Ok(None),
        },
    }
}

/// The analysis of a cursor on the given field of `scope`.
pub open spec fn in_field(schema: SchemaView, field: FieldView, pos: nat, scope: TypeView)
    -> Analysis
    decreases field,
{
    match field {
        FieldView::Concrete(f) => in_concrete_field(schema, f, pos, scope),
        FieldView::Union(f) => in_union_field(schema, f, pos, scope),
    }
}

/// The analysis of a cursor on a named field: on its name, inside its
/// arguments, or inside its field list. Arguments are only looked at where
/// the schema gives the field some.
pub open spec fn in_concrete_field(
    schema: SchemaView,
    field: ConcreteFieldView,
    pos: nat,
    scope: TypeView,
) -> Analysis
    decreases field,
{
    let name = field.name.original;
    if field.name.touches(pos) {
        match scope {
            TypeView::Object(t) | TypeView::Interface(t) => suggest(
                field_candidates(t.fields),
                name,
                Some(field.name),
            ),
            _ => Err(AnalyzerErrorView::KeywordOutsideObject),
        }
    } else if field.arglist matches Some(args) && within_exclusive(
        args.start_pos,
        args.end_pos,
        pos,
    ) {
        match scope.field(name) {
            Some(definition) => if definition.args.len() > 0 {
                in_arglist(schema, field.arglist->0, pos, definition.args)
            } else {
                Err(AnalyzerErrorView::InvalidField(name))
            },
            None => Err(AnalyzerErrorView::InvalidField(name)),
        }
    } else if field.field_list matches Some(list) && within_exclusive(
        list.start_pos,
        list.end_pos,
        pos,
    ) {
        match scope.field(name) {
            None => Err(AnalyzerErrorView::FieldNotFound(name)),
            Some(definition) => match schema.type_definition(
                underlying_name(definition.field_type)@,
            ) {
                None => Err(
                    AnalyzerErrorView::DefinitionNotFound {
                        field_type: underlying_name(definition.field_type)@,
                        field: name,
                    },
                ),
                Some(inner) => in_field_list(schema, field.field_list->0, pos, inner),
            },
        }
    } else {
        Ok(None)
    }
}

/// The analysis of a cursor on an inline fragment: on its type name, or
/// inside its field list.
pub open spec fn in_union_field(
    schema: SchemaView,
    field: UnionFieldView,
    pos: nat,
    scope: TypeView,
) -> Analysis
    decreases field,
{
    let name = field.named_type.original;
    if field.named_type.touches(pos) {
        match scope {
            TypeView::Union(u) => suggest(
                name_candidates(u.possible_types, "Object"@),
                name,
                Some(field.named_type),
            ),
            TypeView::Object(t) | TypeView::Interface(t) => suggest(
                name_candidates(t.possible_types, "Object"@),
                name,
                Some(field.named_type),
            ),
            _ => Err(AnalyzerErrorView::NotUnionScope),
        }
    } else if within_exclusive(field.field_list.start_pos, field.field_list.end_pos, pos) {
        match schema.type_definition(name) {
            None => Err(AnalyzerErrorView::MissingUnionType(name)),
            Some(inner) => in_field_list(schema, field.field_list, pos, inner),
        }
    } else {
        Ok(None)
    }
}

/// The analysis of a cursor in an operation whose root type has the given
/// name: nothing outside the field list, else what the field list gives.
pub open spec fn in_root(
    schema: SchemaView,
    root_name: Seq<char>,
    missing: AnalyzerErrorView,
    list: FieldListView,
    pos: nat,
) -> Analysis {
    match schema.type_definition(root_name) {
        None => Err(missing),
        Some(scope) => if within_exclusive(list.start_pos, list.end_pos, pos) {
            in_field_list(schema, list, pos, scope)
        } else {
            Ok(None)
        },
    }
}

/// What the analyzer returns for an operation and a cursor position.
pub open spec fn analysis_of(schema: SchemaView, root: RootView, pos: nat) -> Analysis {
    match root {
        RootView::Query(query) => in_root(
            schema,
            schema.query_root_name@,
            AnalyzerErrorView::QueryRootNotFound,
            query.field_list,
            pos,
        ),
        RootView::Mutation(mutation) => in_root(
            schema,
            schema.mutation_root_name@,
            AnalyzerErrorView::MutationRootNotFound,
            mutation.field_list,
            pos,
        ),
    }
}

/// What the analyzer returned, as [`analysis_of`] states it.
pub open spec fn outcome(r: Result<Option<Suggestion>, AnalyzerError>) -> Analysis {
    match r {
        Ok(Some(suggestion)) => Ok(Some(suggestion@)),
        Ok(None) => Ok(None),
        Err(e) => Err(e@),
    }
}

/// The suggestion that holds the given elements.
fn suggestion(elems: Vec<SuggestionElem>, token: Option<Token>) -> (r: Result<
    Option<Suggestion>,
    AnalyzerError,
>)
    ensures
        outcome(r) == Ok::<Option<SuggestionView>, AnalyzerErrorView>(
            Some(
                SuggestionView {
                    elems: elem_views(elems@),
                    token: match token {
                        Some(token) => Some(token@),
                        None => None,
                    },
                },
            ),
        ),
{
    Ok(Some(Suggestion { elems, token }))
}

/// The analyzer of operations against a schema.
pub struct Analyzer {
    schema: Schema,
}

impl Analyzer {
    /// The schema that the analyzer proposes from.
    pub closed spec fn schema(&self) -> SchemaView {
        self.schema@
    }

    /// An analyzer that proposes from the schema.
    pub fn new(schema: Schema) -> (analyzer: Analyzer)
        ensures
            analyzer.schema() == schema@,
    {
        Analyzer { schema }
    }

    /// Every field of the query root, if the schema defines it with fields.
    pub fn root_fields(&self) -> (r: Option<Suggestion>)
        ensures
            (match r {
                Some(suggestion) => Some(suggestion@),
                None => None,
            }) == (match self.schema().type_definition(self.schema().query_root_name@) {
                Some(TypeView::Object(t)) | Some(TypeView::Interface(t)) => Some(
                    SuggestionView {
                        elems: matching(field_candidates(t.fields), Seq::empty()),
                        token: None,
                    },
                ),
                _ => None,
            }),
    {
        proof {
            reveal_strlit("");
            assert(""@ =~= Seq::<char>::empty());
        }
        match self.schema.type_definition(&self.schema.query_root_name) {
            Some(Type::Object(t)) | Some(Type::Interface(t)) => Some(
                Suggestion { elems: t.field_names(""), token: None },
            ),
            _ => None,
        }
    }

    /// Proposes completions for the cursor position `pos` in the operation.
    /// `Ok(None)` says that the cursor is at no place to complete.
    pub fn analyze(&self, root: Root, pos: usize) -> (r: Result<Option<Suggestion>, AnalyzerError>)
        ensures
            outcome(r) == analysis_of(self.schema(), root@, pos as nat),
    {
        self.find_pos_in_root(&root, pos)
    }

    fn find_pos_in_root(&self, root: &Root, pos: usize) -> (r: Result<
        Option<Suggestion>,
        AnalyzerError,
    >)
        ensures
            outcome(r) == analysis_of(self.schema@, root@, pos as nat),
    {
        match root {
            Root::Query(query) => self.find_pos_in_query(query, pos),
            Root::Mutation(mutation) => self.find_pos_in_mutation(mutation, pos),
        }
    }

    fn find_pos_in_query(&self, query: &Query, pos: usize) -> (r: Result<
        Option<Suggestion>,
        AnalyzerError,
    >)
        ensures
            outcome(r) == in_root(
                self.schema@,
                self.schema@.query_root_name@,
                AnalyzerErrorView::QueryRootNotFound,
                query@.field_list,
                pos as nat,
            ),
    {
        let query_scope = match self.schema.type_definition(&self.schema.query_root_name) {
            Some(scope) => scope,
            None => {
                return Err(AnalyzerError::QueryRootNotFound);
            },
        };
        if !query.field_list.contains(pos) {
            return Ok(None);
        }
        self.find_pos_in_field_list(&query.field_list, pos, query_scope)
    }

    fn find_pos_in_mutation(&self, mutation: &Mutation, pos: usize) -> (r: Result<
        Option<Suggestion>,
        AnalyzerError,
    >)
        ensures
            outcome(r) == in_root(
                self.schema@,
                self.schema@.mutation_root_name@,
                AnalyzerErrorView::MutationRootNotFound,
                mutation@.field_list,
                pos as nat,
            ),
    {
        let mutation_scope = match self.schema.type_definition(&self.schema.mutation_root_name) {
            Some(scope) => scope,
            None => {
                return Err(AnalyzerError::MutationRootNotFound);
            },
        };
        if !mutation.field_list.contains(pos) {
            return Ok(None);
        }
        self.find_pos_in_field_list(&mutation.field_list, pos, mutation_scope)
    }

    fn find_pos_in_field_list(&self, field_list: &FieldList, pos: usize, scope: &Type) -> (r:
        Result<Option<Suggestion>, AnalyzerError>)
        ensures
            outcome(r) == in_field_list(self.schema@, field_list@, pos as nat, scope@),
        decreases field_list,
    {
        let ghost flags = fields_touched(field_list@.fields, pos as nat);
        proof {
            lemma_field_list_view(field_list);
        }
        let mut i: usize = 0;
        while i < field_list.fields.len()
            invariant
                i <= field_list.fields.len(),
                flags == fields_touched(field_list@.fields, pos as nat),
                field_list@.fields == crate::ast::field_views(field_list.fields@),
                forall|j: int| 0 <= j < i ==> !flags[j],
            decreases field_list.fields.len() - i,
        {
            let field = &field_list.fields[i];
            if field.touches(pos) {
                proof {
                    lemma_first_set_at(flags, i as int);
                }
                return self.find_pos_in_field(field, pos, scope);
            }
            i += 1;
        }
        proof {
            lemma_first_set_none(flags);
            reveal_strlit("");
        }
        match scope {
            Type::Object(inner_type) | Type::Interface(inner_type) => {
                let elems = inner_type.field_names("");
                assert(""@ =~= Seq::<char>::empty());
                suggestion(elems, None)
            },
            _ => Ok(None),
        }
    }

    fn find_pos_in_field(&self, field: &Field, pos: usize, scope: &Type) -> (r: Result<
        Option<Suggestion>,
        AnalyzerError,
    >)
        ensures
            outcome(r) == in_field(self.schema@, field@, pos as nat, scope@),
        decreases field,
    {
        proof {
            lemma_field_view(field);
        }
        match field {
            Field::Concrete(field) => self.find_pos_in_concrete_field(field, pos, scope),
            Field::Union(field) => self.find_pos_in_union_field(field, pos, scope),
        }
    }

    fn find_pos_in_union_field(&self, field: &UnionField, pos: usize, scope: &Type) -> (r:
        Result<Option<Suggestion>, AnalyzerError>)
        ensures
            outcome(r) == in_union_field(
                self.schema@,
                Field::Union(*field)@->Union_0,
                pos as nat,
                scope@,
            ),
        decreases field,
    {
        proof {
            lemma_field_view(&Field::Union(*field));
        }
        if field.named_type.touches(pos) {
            let elems = match scope {
                Type::Union(union_type) => union_type.possible_type_names(
                    field.named_type.original.as_str(),
                ),
                Type::Object(inner_type) | Type::Interface(inner_type) => {
                    inner_type.possible_type_names(field.named_type.original.as_str())
                },
                _ => {
                    return Err(AnalyzerError::NotUnionScope);
                },
            };
            return suggestion(elems, Some(field.named_type.duplicate()));
        }
        if field.field_list.contains(pos) {
            let inner_scope = match self.schema.type_definition(&field.named_type.original) {
                Some(inner_scope) => inner_scope,
                None => {
                    return Err(
                        AnalyzerError::MissingUnionType(field.named_type.original.clone()),
                    );
                },
            };
            return self.find_pos_in_field_list(&field.field_list, pos, inner_scope);
        }
        Ok(None)
    }

    fn find_pos_in_concrete_field(&self, field: &ConcreteField, pos: usize, scope: &Type) -> (r:
        Result<Option<Suggestion>, AnalyzerError>)
        ensures
            outcome(r) == in_concrete_field(
                self.schema@,
                Field::Concrete(*field)@->Concrete_0,
                pos as nat,
                scope@,
            ),
        decreases field,
    {
        proof {
            lemma_field_view(&Field::Concrete(*field));
        }
        if field.name.touches(pos) {
            return match scope {
                Type::Object(inner_type) | Type::Interface(inner_type) => suggestion(
                    inner_type.field_names(field.name.original.as_str()),
                    Some(field.name.duplicate()),
                ),
                _ => Err(AnalyzerError::KeywordOutsideObject),
            };
        }
        if let Some(arglist) = &field.arglist {
            if arglist.contains(pos) {
                return match scope.field(field.name.original.as_str()) {
                    Some(field_def) => if field_def.args.elems.len() > 0 {
                        self.find_pos_in_arglist(arglist, pos, &field_def.args)
                    } else {
                        Err(AnalyzerError::InvalidField(field.name.original.clone()))
                    },
                    None => Err(AnalyzerError::InvalidField(field.name.original.clone())),
                };
            }
        }
        if let Some(field_list) = &field.field_list {
            if field_list.contains(pos) {
                return match self.schema.field_type(scope, field.name.original.as_str()) {
                    Ok(definition) => self.find_pos_in_field_list(field_list, pos, definition),
                    Err(FieldTypeError::FieldNotFound(name)) => Err(
                        AnalyzerError::FieldNotFound(name),
                    ),
                    Err(FieldTypeError::DefinitionNotFound { field_type, field }) => Err(
                        AnalyzerError::DefinitionNotFound { field_type, field },
                    ),
                };
            }
        }
        Ok(None)
    }

    fn find_pos_in_arglist(&self, arglist: &ArgList, pos: usize, scope: &crate::schema::ArgList)
        -> (r: Result<Option<Suggestion>, AnalyzerError>)
        ensures
            outcome(r) == in_arglist(self.schema@, arglist@, pos as nat, scope@),
        decreases arglist,
    {
        let ghost flags = params_reached(arglist@.params, pos as nat);
        proof {
            lemma_arg_list_view(arglist);
            reveal_strlit("");
        }
        let mut i: usize = 0;
        while i < arglist.params.len()
            invariant
                i <= arglist.params.len(),
                flags == params_reached(arglist@.params, pos as nat),
                arglist@.params == crate::ast::param_views(arglist.params@),
                forall|j: int| 0 <= j < i ==> !flags[j],
            decreases arglist.params.len() - i,
        {
            let arg = &arglist.params[i];
            proof {
                lemma_param_view(arg);
            }
            if pos <= arg.end_pos {
                proof {
                    lemma_first_set_at(flags, i as int);
                }
                if pos < arg.start_pos {
                    let elems = scope.arg_names(&String::new());
                    return suggestion(elems, None);
                }
                if arg.key.touches(pos) {
                    return suggestion(
                        scope.arg_names(&arg.key.original),
                        Some(arg.key.duplicate()),
                    );
                } else if arg.value.touches(pos) {
                    return match scope.arg(&arg.key.original) {
                        Some(current_arg) => self.find_pos_in_arglist_value(
                            &arg.value,
                            &current_arg.arg_type,
                            pos,
                        ),
                        None => Err(AnalyzerError::InvalidArgName(arg.key.original.clone())),
                    };
                }
                return Ok(None);
            }
            i += 1;
        }
        proof {
            lemma_first_set_none(flags);
        }
        let elems = scope.arg_names(&String::new());
        suggestion(elems, None)
    }

    /// Proposes the values of the enum of the given name.
    fn enum_suggestion(&self, enum_type_name: &String, prefix: &str, token: Option<Token>) -> (r:
        Result<Option<Suggestion>, AnalyzerError>)
        ensures
            outcome(r) == enum_values(
                self.schema@,
                enum_type_name@,
                prefix@,
                match token {
                    Some(token) => Some(token@),
                    None => None,
                },
            ),
    {
        match self.schema.type_definition(enum_type_name) {
            None => Err(AnalyzerError::EnumTypeNotFound(enum_type_name.clone())),
            Some(Type::Enum(inner_type)) => suggestion(inner_type.field_names(prefix), token),
            Some(_) => Err(AnalyzerError::ExpectedEnumType),
        }
    }

    fn find_pos_in_arglist_value(&self, value: &ParamValue, scope: &TypeClass, pos: usize) -> (r:
        Result<Option<Suggestion>, AnalyzerError>)
        ensures
            outcome(r) == in_value(self.schema@, value@, *scope, pos as nat),
        decreases value,
    {
        let declared = scope.skip_non_null();
        match value {
            ParamValue::Simple(token) => match declared {
                TypeClass::Enum(enum_type_name) => self.enum_suggestion(
                    enum_type_name,
                    token.original.as_str(),
                    Some(token.duplicate()),
                ),
                _ => Ok(None),
            },
            ParamValue::Missing(_) => match declared {
                TypeClass::Enum(enum_type_name) => {
                    proof {
                        reveal_strlit("");
                    }
                    assert(""@ =~= Seq::<char>::empty());
                    self.enum_suggestion(enum_type_name, "", None)
                },
                _ => Ok(None),
            },
            ParamValue::Object(object_arglist) => {
                proof {
                    lemma_object_value_view(object_arglist);
                    lemma_arg_list_view(object_arglist);
                }
                let value_type_name = match declared {
                    TypeClass::Input(name) => name,
                    _ => {
                        return Err(AnalyzerError::ExpectedInputType(scope.label()));
                    },
                };
                let value_args = match self.schema.type_definition(value_type_name) {
                    None => {
                        return Err(AnalyzerError::TypeNotFound(value_type_name.clone()));
                    },
                    Some(Type::InputObject(input_object)) => &input_object.args,
                    Some(_) => {
                        return Err(AnalyzerError::ExpectedInputObject(value_type_name.clone()));
                    },
                };
                if object_arglist.contains(pos) {
                    self.find_pos_in_arglist(object_arglist, pos, value_args)
                } else {
                    Ok(None)
                }
            },
            ParamValue::List(list) => {
                proof {
                    lemma_list_value_view(list);
                }
                let inner_scope = match declared {
                    TypeClass::List(inner_type_class) => inner_type_class,
                    _ => {
                        return Err(AnalyzerError::ExpectedListType(scope.label()));
                    },
                };
                let ghost flags = values_touched(list@.elems, pos as nat);
                let mut i: usize = 0;
                while i < list.elems.len()
                    invariant
                        i <= list.elems.len(),
                        *value == ParamValue::List(*list),
                        value@ == ParamValueView::List(list@),
                        without_non_null(*scope) == TypeClass::List(*inner_scope),
                        flags == values_touched(list@.elems, pos as nat),
                        list@.elems == crate::ast::value_views(list.elems@),
                        forall|j: int| 0 <= j < i ==> !flags[j],
                    decreases list.elems.len() - i,
                {
                    let list_param_value = &list.elems[i];
                    if list_param_value.touches(pos) {
                        proof {
                            lemma_first_set_at(flags, i as int);
                        }
                        return self.find_pos_in_arglist_value(list_param_value, inner_scope, pos);
                    }
                    i += 1;
                }
                proof {
                    lemma_first_set_none(flags);
                }
                Ok(None)
            },
        }
    }
}

impl AnalyzerErrorView {
    /// The error in words.
    pub open spec fn message(self) -> Seq<char> {
        match self {
            AnalyzerErrorView::QueryRootNotFound => "Query is not found in the schema"@,
            AnalyzerErrorView::MutationRootNotFound => "Mutation is not found in the schema"@,
            AnalyzerErrorView::NotUnionScope => "Expected union type. Likely not a valid union scope."@,
            AnalyzerErrorView::MissingUnionType(name) => "Missing union type: "@ + name,
            AnalyzerErrorView::KeywordOutsideObject => "Keyword found in a non object/interface scope"@,
            AnalyzerErrorView::InvalidField(name) => "Invalid field "@ + name,
            AnalyzerErrorView::FieldNotFound(name) => "Field "@ + name + " not found"@,
            AnalyzerErrorView::DefinitionNotFound { field_type, field } => "Definition of type "@
                + field_type + " of field "@ + field + " not found"@,
            AnalyzerErrorView::InvalidArgName(name) => "Invalid arg name "@ + name,
            AnalyzerErrorView::EnumTypeNotFound(name) => "Enum type "@ + name + " not found"@,
            AnalyzerErrorView::ExpectedEnumType => "Expected enum type"@,
            AnalyzerErrorView::ExpectedInputType(label) => "Expected input type for arg value. Got: "@
                + label,
            AnalyzerErrorView::TypeNotFound(name) => "Type "@ + name + " not found."@,
            AnalyzerErrorView::ExpectedInputObject(name) => "Type "@ + name
                + " is expected to be an input object"@,
            AnalyzerErrorView::ExpectedListType(label) => "Expected list type for arg value. Got: "@
                + label,
        }
    }
}

impl AnalyzerError {
    /// The error in words, as the editor shows it.
    pub fn message(&self) -> (r: String)
        ensures
            r@ == self@.message(),
    {
        match self {
            AnalyzerError::QueryRootNotFound => "Query is not found in the schema".to_owned(),
            AnalyzerError::MutationRootNotFound => "Mutation is not found in the schema".to_owned(),
            AnalyzerError::NotUnionScope => {
                "Expected union type. Likely not a valid union scope.".to_owned()
            },
            AnalyzerError::MissingUnionType(name) => "Missing union type: ".to_owned().concat(
                name.as_str(),
            ),
            AnalyzerError::KeywordOutsideObject => {
                "Keyword found in a non object/interface scope".to_owned()
            },
            AnalyzerError::InvalidField(name) => "Invalid field ".to_owned().concat(name.as_str()),
            AnalyzerError::FieldNotFound(name) => "Field ".to_owned().concat(name.as_str()).concat(
                " not found",
            ),
            AnalyzerError::DefinitionNotFound { field_type, field } => {
                "Definition of type ".to_owned().concat(field_type.as_str()).concat(
                    " of field ",
                ).concat(field.as_str()).concat(" not found")
            },
            AnalyzerError::InvalidArgName(name) => "Invalid arg name ".to_owned().concat(
                name.as_str(),
            ),
            AnalyzerError::EnumTypeNotFound(name) => "Enum type ".to_owned().concat(
                name.as_str(),
            ).concat(" not found"),
            AnalyzerError::ExpectedEnumType => "Expected enum type".to_owned(),
            AnalyzerError::ExpectedInputType(label) => {
                "Expected input type for arg value. Got: ".to_owned().concat(label.as_str())
            },
            AnalyzerError::TypeNotFound(name) => "Type ".to_owned().concat(name.as_str()).concat(
                " not found.",
            ),
            AnalyzerError::ExpectedInputObject(name) => "Type ".to_owned().concat(
                name.as_str(),
            ).concat(" is expected to be an input object"),
            AnalyzerError::ExpectedListType(label) => {
                "Expected list type for arg value. Got: ".to_owned().concat(label.as_str())
            },
        }
    }
}

} // verus!
