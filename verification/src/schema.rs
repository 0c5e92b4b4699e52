//! The schema model: a flat list of named types, in which every reference
//! to a type is by name.

use crate::analyzer::{elem_views, matching, Candidate, SuggestionElem};
use crate::strings::str_eq;
use crate::util::fuzzy_match;
use vstd::prelude::*;
use vstd::string::*;

verus! {

/// A reference to a type, as arguments and fields hold it.
#[derive(Debug)]
pub enum TypeClass {
    NonNull(Box<TypeClass>),
    List(Box<TypeClass>),
    Object(String),
    Enum(String),
    Interface(String),
    Scalar(String),
    Input(String),
    Union(String),
}

/// The name that is left when every `NonNull` and `List` is taken off.
pub open spec fn underlying_name(class: TypeClass) -> String
    decreases class,
{
    match class {
        TypeClass::NonNull(inner) => underlying_name(*inner),
        TypeClass::List(inner) => underlying_name(*inner),
        TypeClass::Object(name) => name,
        TypeClass::Enum(name) => name,
        TypeClass::Interface(name) => name,
        TypeClass::Scalar(name) => name,
        TypeClass::Input(name) => name,
        TypeClass::Union(name) => name,
    }
}

/// The reference without its outermost `NonNull`, if it has one.
pub open spec fn without_non_null(class: TypeClass) -> TypeClass {
    match class {
        TypeClass::NonNull(inner) => *inner,
        _ => class,
    }
}

/// The label under which a reference is shown.
pub open spec fn class_label(class: TypeClass) -> Seq<char>
    decreases class,
{
    match class {
        TypeClass::NonNull(inner) => "!"@ + class_label(*inner),
        TypeClass::List(inner) => "["@ + class_label(*inner) + "]"@,
        TypeClass::Object(name) => "Obj<"@ + name@ + ">"@,
        TypeClass::Enum(name) => "Enum<"@ + name@ + ">"@,
        TypeClass::Interface(name) => "Int<"@ + name@ + ">"@,
        TypeClass::Scalar(name) => "Scalar<"@ + name@ + ">"@,
        TypeClass::Input(name) => "Input<"@ + name@ + ">"@,
        TypeClass::Union(name) => "Union<"@ + name@ + ">"@,
    }
}

/// `open`, `name` and `close`, one after the other.
fn bracketed(open: &str, name: &str, close: &str) -> (r: String)
    ensures
        r@ == open@ + name@ + close@,
{
    open.to_owned().concat(name).concat(close)
}

impl TypeClass {
    /// The name that is left when every `NonNull` and `List` is taken off.
    pub fn underlying_type_name(&self) -> (name: &String)
        ensures
            *name == underlying_name(*self),
        decreases self,
    {
        match self {
            TypeClass::Object(name) => name,
            TypeClass::Enum(name) => name,
            TypeClass::Interface(name) => name,
            TypeClass::Scalar(name) => name,
            TypeClass::Input(name) => name,
            TypeClass::Union(name) => name,
            TypeClass::NonNull(inner) => inner.underlying_type_name(),
            TypeClass::List(inner) => inner.underlying_type_name(),
        }
    }

    /// The reference without its outermost `NonNull`, if it has one.
    pub fn skip_non_null(&self) -> (class: &TypeClass)
        ensures
            *class == without_non_null(*self),
    {
        match self {
            TypeClass::NonNull(inner) => inner,
            _ => self,
        }
    }

    /// The label under which the reference is shown: `!` before what may
    /// not be null, brackets around the elements of a list.
    pub fn label(&self) -> (r: String)
        ensures
            r@ == class_label(*self),
        decreases self,
    {
        match self {
            TypeClass::Object(name) => bracketed("Obj<", name.as_str(), ">"),
            TypeClass::Enum(name) => bracketed("Enum<", name.as_str(), ">"),
            TypeClass::Interface(name) => bracketed("Int<", name.as_str(), ">"),
            TypeClass::Scalar(name) => bracketed("Scalar<", name.as_str(), ">"),
            TypeClass::Input(name) => bracketed("Input<", name.as_str(), ">"),
            TypeClass::Union(name) => bracketed("Union<", name.as_str(), ">"),
            TypeClass::NonNull(inner) => {
                let label = inner.label();
                "!".to_owned().concat(label.as_str())
            },
            TypeClass::List(inner) => {
                let label = inner.label();
                bracketed("[", label.as_str(), "]")
            },
        }
    }
}

/// An argument of a field, or a field of an input object.
pub struct Arg {
    pub name: String,
    pub arg_type: TypeClass,
}

/// Arguments in the order of their declaration.
pub struct ArgList {
    pub elems: Vec<Arg>,
}

/// A field of an object or an interface.
pub struct Field {
    pub name: String,
    pub field_type: TypeClass,
    pub args: ArgList,
}

/// An object or an interface. The possible types of an interface are the
/// types that implement it.
pub struct ObjectType {
    pub name: String,
    pub fields: Vec<Field>,
    pub possible_types: Vec<String>,
}

/// An input object.
pub struct InputObjectType {
    pub name: String,
    pub args: ArgList,
}

/// An enum and its values.
pub struct EnumType {
    pub name: String,
    pub elems: Vec<String>,
}

/// A union and its variants.
pub struct UnionType {
    pub name: String,
    pub possible_types: Vec<String>,
}

/// A type that the schema defines.
pub enum Type {
    Object(ObjectType),
    Interface(ObjectType),
    InputObject(InputObjectType),
    Enum(EnumType),
    Union(UnionType),
}

/// The types of a schema and the names of its roots.
pub struct Schema {
    pub types: Vec<Type>,
    pub query_root_name: String,
    pub mutation_root_name: String,
}

/// Mathematical model of a [`Field`].
pub struct FieldView {
    pub name: String,
    pub field_type: TypeClass,
    pub args: Seq<Arg>,
}

/// Mathematical model of an [`ObjectType`].
pub struct ObjectTypeView {
    pub name: String,
    pub fields: Seq<FieldView>,
    pub possible_types: Seq<String>,
}

/// Mathematical model of an [`InputObjectType`].
pub struct InputObjectTypeView {
    pub name: String,
    pub args: Seq<Arg>,
}

/// Mathematical model of an [`EnumType`].
pub struct EnumTypeView {
    pub name: String,
    pub elems: Seq<String>,
}

/// Mathematical model of a [`UnionType`].
pub struct UnionTypeView {
    pub name: String,
    pub possible_types: Seq<String>,
}

/// Mathematical model of a [`Type`].
pub enum TypeView {
    Object(ObjectTypeView),
    Interface(ObjectTypeView),
    InputObject(InputObjectTypeView),
    Enum(EnumTypeView),
    Union(UnionTypeView),
}

/// Mathematical model of a [`Schema`].
pub struct SchemaView {
    pub types: Seq<TypeView>,
    pub query_root_name: String,
    pub mutation_root_name: String,
}

impl View for ArgList {
    type V = Seq<Arg>;

    open spec fn view(&self) -> Seq<Arg> {
        self.elems@
    }
}

impl View for Field {
    type V = FieldView;

    open spec fn view(&self) -> FieldView {
        FieldView { name: self.name, field_type: self.field_type, args: self.args@ }
    }
}

/// The models of a sequence of fields, one for one.
pub open spec fn field_views(fields: Seq<Field>) -> Seq<FieldView> {
    fields.map_values(|f: Field| f@)
}

impl View for ObjectType {
    type V = ObjectTypeView;

    open spec fn view(&self) -> ObjectTypeView {
        ObjectTypeView {
            name: self.name,
            fields: field_views(self.fields@),
            possible_types: self.possible_types@,
        }
    }
}

impl View for InputObjectType {
    type V = InputObjectTypeView;

    open spec fn view(&self) -> InputObjectTypeView {
        InputObjectTypeView { name: self.name, args: self.args@ }
    }
}

impl View for EnumType {
    type V = EnumTypeView;

    open spec fn view(&self) -> EnumTypeView {
        EnumTypeView { name: self.name, elems: self.elems@ }
    }
}

impl View for UnionType {
    type V = UnionTypeView;

    open spec fn view(&self) -> UnionTypeView {
        UnionTypeView { name: self.name, possible_types: self.possible_types@ }
    }
}

impl View for Type {
    type V = TypeView;

    open spec fn view(&self) -> TypeView {
        match self {
            Type::Object(t) => TypeView::Object(t@),
            Type::Interface(t) => TypeView::Interface(t@),
            Type::InputObject(t) => TypeView::InputObject(t@),
            Type::Enum(t) => TypeView::Enum(t@),
            Type::Union(t) => TypeView::Union(t@),
        }
    }
}

/// The models of a sequence of types, one for one.
pub open spec fn type_views(types: Seq<Type>) -> Seq<TypeView> {
    types.map_values(|t: Type| t@)
}

impl View for Schema {
    type V = SchemaView;

    open spec fn view(&self) -> SchemaView {
        SchemaView {
            types: type_views(self.types@),
            query_root_name: self.query_root_name,
            mutation_root_name: self.mutation_root_name,
        }
    }
}

/// The index of the first of the names that is the given one.
pub open spec fn first_named(names: Seq<Seq<char>>, name: Seq<char>) -> Option<int>
    decreases names.len(),
{
    if names.len() == 0 {
        None
    } else {
        match first_named(names.drop_last(), name) {
            Some(i) => Some(i),
            None => if names.last() == name {
                Some(names.len() - 1)
            } else {
                None
            },
        }
    }
}

/// What `first_named` finds is the given name, and no name before it is.
pub proof fn lemma_first_named(names: Seq<Seq<char>>, name: Seq<char>)
    ensures
        first_named(names, name) matches Some(i) ==> 0 <= i < names.len() && names[i] == name
            && forall|j: int| 0 <= j < i ==> names[j] != name,
        first_named(names, name) is None ==> forall|j: int| 0 <= j < names.len() ==> names[j]
            != name,
    decreases names.len(),
{
    if names.len() > 0 {
        let head = names.drop_last();
        lemma_first_named(head, name);
        assert forall|j: int| 0 <= j < head.len() implies head[j] == names[j] by {}
    }
}

/// The first name that is the given one, stated by its index.
pub proof fn lemma_first_named_at(names: Seq<Seq<char>>, name: Seq<char>, i: int)
    requires
        0 <= i < names.len(),
        names[i] == name,
        forall|j: int| 0 <= j < i ==> names[j] != name,
    ensures
        first_named(names, name) == Some(i),
    decreases names.len(),
{
    lemma_first_named(names.drop_last(), name);
    if i < names.len() - 1 {
        lemma_first_named_at(names.drop_last(), name, i);
    }
}

/// No name is the given one.
pub proof fn lemma_first_named_none(names: Seq<Seq<char>>, name: Seq<char>)
    requires
        forall|j: int| 0 <= j < names.len() ==> names[j] != name,
    ensures
        first_named(names, name) is None,
    decreases names.len(),
{
    if names.len() > 0 {
        lemma_first_named_none(names.drop_last(), name);
    }
}

/// The names of the fields, one for one.
pub open spec fn names_of_fields(fields: Seq<FieldView>) -> Seq<Seq<char>> {
    Seq::new(fields.len(), |i: int| fields[i].name@)
}

/// The names of the arguments, one for one.
pub open spec fn names_of_args(args: Seq<Arg>) -> Seq<Seq<char>> {
    Seq::new(args.len(), |i: int| args[i].name@)
}

/// The names of the types, one for one.
pub open spec fn names_of_types(types: Seq<TypeView>) -> Seq<Seq<char>> {
    Seq::new(types.len(), |i: int| types[i].name()@)
}

/// The argument with the given name: the first one, should several have it.
pub open spec fn arg_named(args: Seq<Arg>, name: Seq<char>) -> Option<Arg> {
    match first_named(names_of_args(args), name) {
        Some(i) => Some(args[i]),
        None => None,
    }
}

impl TypeView {
    /// The name of the type.
    pub open spec fn name(self) -> String {
        match self {
            TypeView::Object(t) => t.name,
            TypeView::Interface(t) => t.name,
            TypeView::InputObject(t) => t.name,
            TypeView::Enum(t) => t.name,
            TypeView::Union(t) => t.name,
        }
    }

    /// The field of an object or interface with the given name: the first
    /// one, should several have it. Other types have no fields.
    pub open spec fn field(self, name: Seq<char>) -> Option<FieldView> {
        match self {
            TypeView::Object(t) | TypeView::Interface(t) => match first_named(
                names_of_fields(t.fields),
                name,
            ) {
                Some(i) => Some(t.fields[i]),
                None => None,
            },
            _ => None,
        }
    }
}

impl SchemaView {
    /// The type with the given name: the first one, should several have it.
    pub open spec fn type_definition(self, name: Seq<char>) -> Option<TypeView> {
        match first_named(names_of_types(self.types), name) {
            Some(i) => Some(self.types[i]),
            None => None,
        }
    }
}

/// Why the type of a field could not be resolved.
#[derive(Debug)]
pub enum FieldTypeError {
    /// The type has no field of this name.
    FieldNotFound(String),
    /// The schema defines no type of the name that the field refers to.
    DefinitionNotFound { field_type: String, field: String },
}

/// The field's type as the schema defines it: the type named by what is
/// left of the field's type reference without its wrappers.
pub open spec fn field_type_of(schema: SchemaView, parent: TypeView, field_name: Seq<char>)
    -> Option<TypeView> {
    match parent.field(field_name) {
        Some(field) => schema.type_definition(underlying_name(field.field_type)@),
        None => None,
    }
}

/// The arguments as candidates for completion.
pub open spec fn arg_candidates(args: Seq<Arg>) -> Seq<Candidate> {
    Seq::new(
        args.len(),
        |i: int| Candidate { name: args[i].name@, kind: class_label(args[i].arg_type) },
    )
}

/// The fields as candidates for completion.
pub open spec fn field_candidates(fields: Seq<FieldView>) -> Seq<Candidate> {
    Seq::new(
        fields.len(),
        |i: int| Candidate { name: fields[i].name@, kind: class_label(fields[i].field_type) },
    )
}

/// Names as candidates for completion, all under one label.
pub open spec fn name_candidates(names: Seq<String>, kind: Seq<char>) -> Seq<Candidate> {
    Seq::new(names.len(), |i: int| Candidate { name: names[i]@, kind })
}

/// Adds the candidate to the suggestions if the prefix matches it.
fn push_if_matching(out: &mut Vec<SuggestionElem>, name: &String, kind: String, prefix: &str)
    ensures
        elem_views(final(out)@) == elem_views(old(out)@) + matching(
            seq![Candidate { name: name@, kind: kind@ }],
            prefix@,
        ),
{
    let ghost before = elem_views(out@);
    let ghost single = seq![Candidate { name: name@, kind: kind@ }];
    assert(single.drop_last() =~= Seq::<Candidate>::empty());
    assert(matching(single.drop_last(), prefix@) =~= Seq::<crate::analyzer::SuggestionElemView>::empty());
    match fuzzy_match(name.as_str(), prefix) {
        Some(fuzzy_match_positions) => {
            let elem = SuggestionElem { name: name.clone(), kind, fuzzy_match_positions };
            out.push(elem);
            assert(elem_views(out@) =~= before.push(elem@));
            assert(matching(single, prefix@) =~= seq![elem@]);
        },
        None => {
            assert(before + matching(single, prefix@) =~= before);
        },
    }
}

/// Taking a candidate more into account adds its match, if any, at the end.
pub proof fn lemma_matching_step(candidates: Seq<Candidate>, n: int, prefix: Seq<char>)
    requires
        0 <= n < candidates.len(),
    ensures
        matching(candidates.subrange(0, n + 1), prefix) == matching(candidates.subrange(0, n), prefix)
            + matching(seq![candidates[n]], prefix),
{
    let upto = candidates.subrange(0, n + 1);
    let single = seq![candidates[n]];
    assert(upto.drop_last() =~= candidates.subrange(0, n));
    assert(upto.last() == candidates[n]);
    assert(single.drop_last() =~= Seq::<Candidate>::empty());
    assert(matching(single.drop_last(), prefix) =~= Seq::<crate::analyzer::SuggestionElemView>::empty());
    assert(matching(upto, prefix) =~= matching(candidates.subrange(0, n), prefix) + matching(
        single,
        prefix,
    ));
}

impl ArgList {
    /// The arguments that the prefix matches, in the order of declaration.
    pub fn arg_names(&self, prefix: &String) -> (r: Vec<SuggestionElem>)
        ensures
            elem_views(r@) == matching(arg_candidates(self@), prefix@),
    {
        let mut out: Vec<SuggestionElem> = Vec::new();
        let ghost candidates = arg_candidates(self@);
        let mut i: usize = 0;
        assert(elem_views(out@) =~= matching(candidates.subrange(0, 0), prefix@));
        while i < self.elems.len()
            invariant
                i <= self.elems.len(),
                candidates == arg_candidates(self@),
                elem_views(out@) == matching(candidates.subrange(0, i as int), prefix@),
            decreases self.elems.len() - i,
        {
            proof {
                lemma_matching_step(candidates, i as int, prefix@);
            }
            let arg = &self.elems[i];
            push_if_matching(&mut out, &arg.name, arg.arg_type.label(), prefix.as_str());
            i += 1;
        }
        assert(candidates.subrange(0, i as int) =~= candidates);
        out
    }

    /// The argument with the given name.
    pub fn arg(&self, name: &String) -> (r: Option<&Arg>)
        ensures
            r == (match arg_named(self@, name@) {
                Some(arg) => Some(&arg),
                None => None,
            }),
    {
        let ghost names = names_of_args(self@);
        let mut i: usize = 0;
        while i < self.elems.len()
            invariant
                i <= self.elems.len(),
                names == names_of_args(self@),
                forall|j: int| 0 <= j < i ==> names[j] != name@,
            decreases self.elems.len() - i,
        {
            if self.elems[i].name == *name {
                proof {
                    lemma_first_named_at(names, name@, i as int);
                }
                return Some(&self.elems[i]);
            }
            i += 1;
        }
        proof {
            lemma_first_named_none(names, name@);
        }
        None
    }
}

/// The suggestions for the names that the prefix matches, all under one
/// label, in the order of the names.
fn matching_names(names: &Vec<String>, kind: &str, prefix: &str) -> (r: Vec<SuggestionElem>)
    ensures
        elem_views(r@) == matching(name_candidates(names@, kind@), prefix@),
{
    let mut out: Vec<SuggestionElem> = Vec::new();
    let ghost candidates = name_candidates(names@, kind@);
    let mut i: usize = 0;
    assert(elem_views(out@) =~= matching(candidates.subrange(0, 0), prefix@));
    while i < names.len()
        invariant
            i <= names.len(),
            candidates == name_candidates(names@, kind@),
            elem_views(out@) == matching(candidates.subrange(0, i as int), prefix@),
        decreases names.len() - i,
    {
        proof {
            lemma_matching_step(candidates, i as int, prefix@);
        }
        push_if_matching(&mut out, &names[i], kind.to_owned(), prefix);
        i += 1;
    }
    assert(candidates.subrange(0, i as int) =~= candidates);
    out
}

impl ObjectType {
    /// The fields that the prefix matches, in the order of declaration.
    pub fn field_names(&self, prefix: &str) -> (r: Vec<SuggestionElem>)
        ensures
            elem_views(r@) == matching(field_candidates(self@.fields), prefix@),
    {
        let mut out: Vec<SuggestionElem> = Vec::new();
        let ghost candidates = field_candidates(self@.fields);
        let mut i: usize = 0;
        assert(elem_views(out@) =~= matching(candidates.subrange(0, 0), prefix@));
        while i < self.fields.len()
            invariant
                i <= self.fields.len(),
                candidates == field_candidates(self@.fields),
                elem_views(out@) == matching(candidates.subrange(0, i as int), prefix@),
            decreases self.fields.len() - i,
        {
            proof {
                lemma_matching_step(candidates, i as int, prefix@);
            }
            let field = &self.fields[i];
            push_if_matching(&mut out, &field.name, field.field_type.label(), prefix);
            i += 1;
        }
        assert(candidates.subrange(0, i as int) =~= candidates);
        out
    }

    /// The possible types that the prefix matches: for an interface, the
    /// types that implement it.
    pub fn possible_type_names(&self, prefix: &str) -> (r: Vec<SuggestionElem>)
        ensures
            elem_views(r@) == matching(name_candidates(self.possible_types@, "Object"@), prefix@),
    {
        matching_names(&self.possible_types, "Object", prefix)
    }
}

impl EnumType {
    /// The values of the enum that the prefix matches.
    pub fn field_names(&self, prefix: &str) -> (r: Vec<SuggestionElem>)
        ensures
            elem_views(r@) == matching(name_candidates(self.elems@, "Enum"@), prefix@),
    {
        matching_names(&self.elems, "Enum", prefix)
    }
}

impl UnionType {
    /// The variants of the union that the prefix matches.
    pub fn possible_type_names(&self, prefix: &str) -> (r: Vec<SuggestionElem>)
        ensures
            elem_views(r@) == matching(name_candidates(self.possible_types@, "Object"@), prefix@),
    {
        matching_names(&self.possible_types, "Object", prefix)
    }
}

impl Type {
    /// The name of the type.
    pub fn name(&self) -> (name: &String)
        ensures
            *name == self@.name(),
    {
        match self {
            Type::Object(t) => &t.name,
            Type::Interface(t) => &t.name,
            Type::InputObject(t) => &t.name,
            Type::Enum(t) => &t.name,
            Type::Union(t) => &t.name,
        }
    }

    /// The field with the given name; `None` for what is no object or
    /// interface.
    pub fn field(&self, name: &str) -> (r: Option<&Field>)
        ensures
            match r {
                Some(field) => self@.field(name@) == Some(field@),
                None => self@.field(name@) is None,
            },
    {
        match self {
            Type::Object(object_type) | Type::Interface(object_type) => {
                let ghost names = names_of_fields(object_type@.fields);
                let mut i: usize = 0;
                while i < object_type.fields.len()
                    invariant
                        self@.field(name@) == (match first_named(names, name@) {
                            Some(i) => Some(object_type@.fields[i]),
                            None => None,
                        }),
                        i <= object_type.fields.len(),
                        names == names_of_fields(object_type@.fields),
                        forall|j: int| 0 <= j < i ==> names[j] != name@,
                    decreases object_type.fields.len() - i,
                {
                    if str_eq(object_type.fields[i].name.as_str(), name) {
                        proof {
                            lemma_first_named_at(names, name@, i as int);
                        }
                        return Some(&object_type.fields[i]);
                    }
                    i += 1;
                }
                proof {
                    lemma_first_named_none(names, name@);
                }
                None
            },
            Type::InputObject(_) => None,
            Type::Enum(_) => None,
            Type::Union(_) => None,
        }
    }
}

impl Schema {
    /// The type that the schema defines under the given name.
    pub fn type_definition(&self, name: &String) -> (r: Option<&Type>)
        ensures
            match r {
                Some(definition) => self@.type_definition(name@) == Some(definition@),
                None => self@.type_definition(name@) is None,
            },
    {
        let ghost names = names_of_types(self@.types);
        let mut i: usize = 0;
        while i < self.types.len()
            invariant
                i <= self.types.len(),
                names == names_of_types(self@.types),
                forall|j: int| 0 <= j < i ==> names[j] != name@,
            decreases self.types.len() - i,
        {
            if *self.types[i].name() == *name {
                proof {
                    lemma_first_named_at(names, name@, i as int);
                }
                return Some(&self.types[i]);
            }
            i += 1;
        }
        proof {
            lemma_first_named_none(names, name@);
        }
        None
    }

    /// The type of a field as the schema defines it: `NonNull` and `List`
    /// around the field's type are looked through.
    pub fn field_type(&self, type_definition: &Type, field_name: &str) -> (r: Result<
        &Type,
        FieldTypeError,
    >)
        ensures
            match r {
                Ok(definition) => field_type_of(self@, type_definition@, field_name@) == Some(
                    definition@,
                ),
                Err(FieldTypeError::FieldNotFound(name)) => type_definition@.field(field_name@)
                    is None && name@ == field_name@,
                Err(FieldTypeError::DefinitionNotFound { field_type, field }) => {
                    &&& type_definition@.field(field_name@) matches Some(found)
                    &&& field_type == underlying_name(found.field_type)
                    &&& self@.type_definition(field_type@) is None
                    &&& field@ == field_name@
                },
            },
    {
        match type_definition.field(field_name) {
            None => Err(FieldTypeError::FieldNotFound(field_name.to_owned())),
            Some(field_definition) => {
                let field_type_name = field_definition.field_type.underlying_type_name();
                match self.type_definition(field_type_name) {
                    Some(definition) => Ok(definition),
                    None => Err(
                        FieldTypeError::DefinitionNotFound {
                            field_type: field_type_name.clone(),
                            field: field_name.to_owned(),
                        },
                    ),
                }
            },
        }
    }
}

impl FieldTypeError {
    /// The error in words.
    pub open spec fn message_text(self) -> Seq<char> {
        match self {
            FieldTypeError::FieldNotFound(name) => "Field "@ + name@ + " not found"@,
            FieldTypeError::DefinitionNotFound { field_type, field } => "Definition of type "@
                + field_type@ + " of field "@ + field@ + " not found"@,
        }
    }

    /// The error in words.
    pub fn message(&self) -> (r: String)
        ensures
            r@ == self.message_text(),
    {
        match self {
            FieldTypeError::FieldNotFound(name) => bracketed("Field ", name.as_str(), " not found"),
            FieldTypeError::DefinitionNotFound { field_type, field } => {
                "Definition of type ".to_owned().concat(field_type.as_str()).concat(
                    " of field ",
                ).concat(field.as_str()).concat(" not found")
            },
        }
    }
}

} // verus!
