//! Reading a schema from the result of an introspection query:
//! `data.__schema.{queryType, mutationType, types}`.

use crate::json::Json;
use crate::schema::{
    field_views, type_views, Arg, ArgList, EnumType, Field, FieldView, InputObjectType,
    InputObjectTypeView, EnumTypeView, ObjectType, ObjectTypeView, Schema, SchemaView, Type,
    TypeClass, TypeView, UnionType, UnionTypeView,
};
use crate::strings::str_eq;
use vstd::prelude::*;
use vstd::string::*;

verus! {

/// Why an introspection result gave no schema.
#[derive(Debug, Clone, Copy, PartialEq, Eq)]
pub enum SchemaError {
    /// There is no object `data.__schema`.
    MissingSchema,
    /// `queryType.name` is no string.
    MissingQueryRoot,
    /// `mutationType.name` is no string.
    MissingMutationRoot,
    /// `types` is no array.
    MissingTypes,
    /// A type lacks its name or kind, or a part that its kind demands.
    MalformedType,
}

/// The type reference that a node of the introspection result stands for:
/// `kind` tells its variant, `ofType` holds what `NON_NULL` and `LIST` wrap,
/// `name` names the others.
pub open spec fn class_of(node: Json) -> Option<TypeClass>
    decreases node,
{
    match node.text_member("kind"@) {
        None => None,
        Some(kind) => {
            if kind@ == "NON_NULL"@ || kind@ == "LIST"@ {
                match node.member("ofType"@) {
                    None => None,
                    Some(inner) => {
                        proof {
                            node.lemma_member_decreases("ofType"@);
                        }
                        match class_of(inner) {
                            None => None,
                            Some(class) => if kind@ == "NON_NULL"@ {
                                Some(TypeClass::NonNull(Box::new(class)))
                            } else {
                                Some(TypeClass::List(Box::new(class)))
                            },
                        }
                    },
                }
            } else {
                match node.text_member("name"@) {
                    None => None,
                    Some(name) => {
                        if kind@ == "OBJECT"@ {
                            Some(TypeClass::Object(name))
                        } else if kind@ == "INTERFACE"@ {
                            Some(TypeClass::Interface(name))
                        } else if kind@ == "SCALAR"@ {
                            Some(TypeClass::Scalar(name))
                        } else if kind@ == "INPUT_OBJECT"@ {
                            Some(TypeClass::Input(name))
                        } else if kind@ == "ENUM"@ {
                            Some(TypeClass::Enum(name))
                        } else if kind@ == "UNION"@ {
                            Some(TypeClass::Union(name))
                        } else {
                            None
                        }
                    },
                }
            }
        },
    }
}

/// The argument that a node stands for: its `name` and its `type`.
pub open spec fn arg_of(node: Json) -> Option<Arg> {
    match (node.text_member("name"@), node.member("type"@)) {
        (Some(name), Some(class_node)) => match class_of(class_node) {
            Some(arg_type) => Some(Arg { name, arg_type }),
            None => None,
        },
        _ => None,
    }
}

/// The arguments that the nodes stand for, if each stands for one.
pub open spec fn args_of(nodes: Seq<Json>) -> Option<Seq<Arg>> {
    if forall|i: int| 0 <= i < nodes.len() ==> (#[trigger] arg_of(nodes[i])) is Some {
        Some(Seq::new(nodes.len(), |i: int| arg_of(nodes[i])->0))
    } else {
        None
    }
}

/// The `name`s of the nodes, if each has one.
pub open spec fn names_of(nodes: Seq<Json>) -> Option<Seq<String>> {
    if forall|i: int| 0 <= i < nodes.len() ==> (#[trigger] nodes[i].text_member("name"@)) is Some {
        Some(Seq::new(nodes.len(), |i: int| nodes[i].text_member("name"@)->0))
    } else {
        None
    }
}

/// The field that a node stands for: its `name`, its `type` and its `args`.
pub open spec fn field_of(node: Json) -> Option<FieldView> {
    match (node.text_member("name"@), node.member("type"@), node.items_member("args"@)) {
        (Some(name), Some(class_node), Some(arg_nodes)) => match (
            class_of(class_node),
            args_of(arg_nodes),
        ) {
            (Some(field_type), Some(args)) => Some(FieldView { name, field_type, args }),
            _ => None,
        },
        _ => None,
    }
}

/// The fields that the nodes stand for, if each stands for one.
pub open spec fn fields_of(nodes: Seq<Json>) -> Option<Seq<FieldView>> {
    if forall|i: int| 0 <= i < nodes.len() ==> (#[trigger] field_of(nodes[i])) is Some {
        Some(Seq::new(nodes.len(), |i: int| field_of(nodes[i])->0))
    } else {
        None
    }
}

/// What a node of `types` stands for.
pub enum Entry {
    /// A type that the schema holds.
    Known(TypeView),
    /// A type of a kind that the schema does not hold, such as a scalar.
    Ignored,
    /// A node that lacks what its kind demands.
    Malformed,
}

/// The possible types of an object or interface: the names in
/// `possibleTypes` where that is an array, none where it is not.
pub open spec fn object_possible_types(node: Json) -> Option<Seq<String>> {
    match node.items_member("possibleTypes"@) {
        Some(nodes) => names_of(nodes),
        None => Some(Seq::empty()),
    }
}

/// The object or interface type that a node stands for.
pub open spec fn object_of(node: Json, name: String) -> Option<ObjectTypeView> {
    match node.items_member("fields"@) {
        None => None,
        Some(field_nodes) => match (fields_of(field_nodes), object_possible_types(node)) {
            (Some(fields), Some(possible_types)) => Some(
                ObjectTypeView { name, fields, possible_types },
            ),
            _ => None,
        },
    }
}

/// The type that a node of `types` stands for. Every node has a `name` and
/// a `kind`; objects and interfaces have `fields`, input objects
/// `inputFields`, enums `enumValues`, unions `possibleTypes`.
pub open spec fn entry_of(node: Json) -> Entry {
    match (node.text_member("name"@), node.text_member("kind"@)) {
        (Some(name), Some(kind)) => {
            if kind@ == "OBJECT"@ {
                match object_of(node, name) {
                    Some(t) => Entry::Known(TypeView::Object(t)),
                    None => Entry::Malformed,
                }
            } else if kind@ == "INTERFACE"@ {
                match object_of(node, name) {
                    Some(t) => Entry::Known(TypeView::Interface(t)),
                    None => Entry::Malformed,
                }
            } else if kind@ == "INPUT_OBJECT"@ {
                match node.items_member("inputFields"@) {
                    None => Entry::Malformed,
                    Some(nodes) => match args_of(nodes) {
                        Some(args) => Entry::Known(
                            TypeView::InputObject(InputObjectTypeView { name, args }),
                        ),
                        None => Entry::Malformed,
                    },
                }
            } else if kind@ == "ENUM"@ {
                match node.items_member("enumValues"@) {
                    None => Entry::Malformed,
                    Some(nodes) => match names_of(nodes) {
                        Some(elems) => Entry::Known(TypeView::Enum(EnumTypeView { name, elems })),
                        None => Entry::Malformed,
                    },
                }
            } else if kind@ == "UNION"@ {
                match node.items_member("possibleTypes"@) {
                    None => Entry::Malformed,
                    Some(nodes) => match names_of(nodes) {
                        Some(possible_types) => Entry::Known(
                            TypeView::Union(UnionTypeView { name, possible_types }),
                        ),
                        None => Entry::Malformed,
                    },
                }
            } else {
                Entry::Ignored
            }
        },
        _ => Entry::Malformed,
    }
}

/// The types that the nodes stand for, in their order, without the ignored
/// ones; `None` where a node is malformed.
pub open spec fn types_of(nodes: Seq<Json>) -> Option<Seq<TypeView>>
    decreases nodes.len(),
{
    if nodes.len() == 0 {
        Some(Seq::empty())
    } else {
        match types_of(nodes.drop_last()) {
            None => None,
            Some(types) => match entry_of(nodes.last()) {
                Entry::Known(t) => Some(types.push(t)),
                Entry::Ignored => Some(types),
                Entry::Malformed => None,
            },
        }
    }
}

/// The `name` of the object under `key`.
pub open spec fn root_name(schema: Json, key: Seq<char>) -> Option<String> {
    match schema.member(key) {
        Some(root) => root.text_member("name"@),
        None => None,
    }
}

/// The node `data.__schema` of an introspection result.
pub open spec fn schema_node(json: Json) -> Option<Json> {
    match json.member("data"@) {
        Some(data) => data.member("__schema"@),
        None => None,
    }
}

/// The schema that an introspection result describes.
pub open spec fn schema_of(json: Json) -> Result<SchemaView, SchemaError> {
    match schema_node(json) {
        None => Err(SchemaError::MissingSchema),
        Some(schema) => match root_name(schema, "queryType"@) {
            None => Err(SchemaError::MissingQueryRoot),
            Some(query_root_name) => match root_name(schema, "mutationType"@) {
                None => Err(SchemaError::MissingMutationRoot),
                Some(mutation_root_name) => match schema.items_member("types"@) {
                    None => Err(SchemaError::MissingTypes),
                    Some(nodes) => match types_of(nodes) {
                        None => Err(SchemaError::MalformedType),
                        Some(types) => Ok(
                            SchemaView { types, query_root_name, mutation_root_name },
                        ),
                    },
                },
            },
        },
    }
}

impl TypeClass {
    /// Reads a type reference.
    pub fn from_json_value(node: &Json) -> (r: Option<TypeClass>)
        ensures
            r == class_of(*node),
        decreases node,
    {
        let kind = match node.get_str("kind") {
            Some(kind) => kind.as_str(),
            None => {
                return None;
            },
        };
        if str_eq(kind, "NON_NULL") || str_eq(kind, "LIST") {
            let inner = match node.get("ofType") {
                Some(inner) => inner,
                None => {
                    return None;
                },
            };
            proof {
                node.lemma_member_decreases("ofType"@);
            }
            match TypeClass::from_json_value(inner) {
                None => None,
                Some(class) => if str_eq(kind, "NON_NULL") {
                    Some(TypeClass::NonNull(Box::new(class)))
                } else {
                    Some(TypeClass::List(Box::new(class)))
                },
            }
        } else {
            let name = match node.get_str("name") {
                Some(name) => name.clone(),
                None => {
                    return None;
                },
            };
            if str_eq(kind, "OBJECT") {
                Some(TypeClass::Object(name))
            } else if str_eq(kind, "INTERFACE") {
                Some(TypeClass::Interface(name))
            } else if str_eq(kind, "SCALAR") {
                Some(TypeClass::Scalar(name))
            } else if str_eq(kind, "INPUT_OBJECT") {
                Some(TypeClass::Input(name))
            } else if str_eq(kind, "ENUM") {
                Some(TypeClass::Enum(name))
            } else if str_eq(kind, "UNION") {
                Some(TypeClass::Union(name))
            } else {
                None
            }
        }
    }
}

impl Arg {
    /// Reads an argument.
    pub fn from_json_value(node: &Json) -> (r: Option<Arg>)
        ensures
            r == arg_of(*node),
    {
        let name = match node.get_str("name") {
            Some(name) => name.clone(),
            None => {
                return None;
            },
        };
        let class_node = match node.get("type") {
            Some(class_node) => class_node,
            None => {
                return None;
            },
        };
        match TypeClass::from_json_value(class_node) {
            Some(arg_type) => Some(Arg { name, arg_type }),
            None => None,
        }
    }
}

/// The `name` of every node.
fn read_names(nodes: &Vec<Json>) -> (r: Option<Vec<String>>)
    ensures
        match r {
            Some(names) => names_of(nodes@) == Some(names@),
            None => names_of(nodes@) is None,
        },
{
    let mut names: Vec<String> = Vec::new();
    let mut i: usize = 0;
    while i < nodes.len()
        invariant
            i <= nodes.len(),
            names.len() == i,
            forall|j: int|
                0 <= j < i ==> (#[trigger] nodes[j].text_member("name"@)) == Some(names[j]),
        decreases nodes.len() - i,
    {
        match nodes[i].get_str("name") {
            Some(name) => {
                names.push(name.clone());
            },
            None => {
                return None;
            },
        }
        i += 1;
    }
    assert(names@ =~= names_of(nodes@)->0);
    Some(names)
}

impl Field {
    /// Reads a field.
    pub fn from_json_value(node: &Json) -> (r: Option<Field>)
        ensures
            match r {
                Some(field) => field_of(*node) == Some(field@),
                None => field_of(*node) is None,
            },
    {
        let name = match node.get_str("name") {
            Some(name) => name.clone(),
            None => {
                return None;
            },
        };
        let class_node = match node.get("type") {
            Some(class_node) => class_node,
            None => {
                return None;
            },
        };
        let arg_nodes = match node.get_array("args") {
            Some(arg_nodes) => arg_nodes,
            None => {
                return None;
            },
        };
        let field_type = match TypeClass::from_json_value(class_node) {
            Some(field_type) => field_type,
            None => {
                return None;
            },
        };
        match Field::resolve_args(arg_nodes) {
            Some(elems) => Some(Field { name, field_type, args: ArgList { elems } }),
            None => None,
        }
    }

    /// Reads the arguments of a field or of an input object.
    pub fn resolve_args(raw_args: &Vec<Json>) -> (r: Option<Vec<Arg>>)
        ensures
            match r {
                Some(args) => args_of(raw_args@) == Some(args@),
                None => args_of(raw_args@) is None,
            },
    {
        let mut args: Vec<Arg> = Vec::new();
        let mut i: usize = 0;
        while i < raw_args.len()
            invariant
                i <= raw_args.len(),
                args.len() == i,
                forall|j: int| 0 <= j < i ==> (#[trigger] arg_of(raw_args[j])) == Some(args[j]),
            decreases raw_args.len() - i,
        {
            match Arg::from_json_value(&raw_args[i]) {
                Some(arg) => {
                    args.push(arg);
                },
                None => {
                    return None;
                },
            }
            i += 1;
        }
        assert(args@ =~= args_of(raw_args@)->0);
        Some(args)
    }

    /// The field that each node stands for.
    fn read_fields(nodes: &Vec<Json>) -> (r: Option<Vec<Field>>)
        ensures
            match r {
                Some(fields) => fields_of(nodes@) == Some(field_views(fields@)),
                None => fields_of(nodes@) is None,
            },
    {
        let mut fields: Vec<Field> = Vec::new();
        let mut i: usize = 0;
        while i < nodes.len()
            invariant
                i <= nodes.len(),
                fields.len() == i,
                forall|j: int| 0 <= j < i ==> (#[trigger] field_of(nodes[j])) == Some(fields[j]@),
            decreases nodes.len() - i,
        {
            match Field::from_json_value(&nodes[i]) {
                Some(field) => {
                    fields.push(field);
                },
                None => {
                    return None;
                },
            }
            i += 1;
        }
        assert(field_views(fields@) =~= fields_of(nodes@)->0);
        Some(fields)
    }
}

impl ObjectType {
    /// The object or interface type that the node stands for.
    fn from_json_value(node: &Json, name: String) -> (r: Option<ObjectType>)
        ensures
            match r {
                Some(t) => object_of(*node, name) == Some(t@),
                None => object_of(*node, name) is None,
            },
    {
        let field_nodes = match node.get_array("fields") {
            Some(field_nodes) => field_nodes,
            None => {
                return None;
            },
        };
        let fields = match Field::read_fields(field_nodes) {
            Some(fields) => fields,
            None => {
                return None;
            },
        };
        let possible_types = match node.get_array("possibleTypes") {
            Some(nodes) => match read_names(nodes) {
                Some(names) => names,
                None => {
                    return None;
                },
            },
            None => Vec::new(),
        };
        Some(ObjectType { name, fields, possible_types })
    }
}

/// What reading a node of `types` gave, as [`entry_of`] states it.
pub open spec fn entry_outcome(r: Result<Option<Type>, SchemaError>) -> Entry {
    match r {
        Ok(Some(t)) => Entry::Known(t@),
        Ok(None) => Entry::Ignored,
        Err(_) => Entry::Malformed,
    }
}

impl Type {
    /// Reads one node of `types`: `Ok(None)` for a kind that the schema
    /// does not hold.
    pub fn from_json_value(node: &Json) -> (r: Result<Option<Type>, SchemaError>)
        ensures
            entry_outcome(r) == entry_of(*node),
            r matches Err(e) ==> e == SchemaError::MalformedType,
    {
        let name = match node.get_str("name") {
            Some(name) => name.clone(),
            None => {
                return Err(SchemaError::MalformedType);
            },
        };
        let kind = match node.get_str("kind") {
            Some(kind) => kind.as_str(),
            None => {
                return Err(SchemaError::MalformedType);
            },
        };
        if str_eq(kind, "OBJECT") {
            match ObjectType::from_json_value(node, name) {
                Some(t) => Ok(Some(Type::Object(t))),
                None => Err(SchemaError::MalformedType),
            }
        } else if str_eq(kind, "INTERFACE") {
            match ObjectType::from_json_value(node, name) {
                Some(t) => Ok(Some(Type::Interface(t))),
                None => Err(SchemaError::MalformedType),
            }
        } else if str_eq(kind, "INPUT_OBJECT") {
            let nodes = match node.get_array("inputFields") {
                Some(nodes) => nodes,
                None => {
                    return Err(SchemaError::MalformedType);
                },
            };
            match Field::resolve_args(nodes) {
                Some(elems) => Ok(
                    Some(Type::InputObject(InputObjectType { name, args: ArgList { elems } })),
                ),
                None => Err(SchemaError::MalformedType),
            }
        } else if str_eq(kind, "ENUM") {
            let nodes = match node.get_array("enumValues") {
                Some(nodes) => nodes,
                None => {
                    return Err(SchemaError::MalformedType);
                },
            };
            match read_names(nodes) {
                Some(elems) => Ok(Some(Type::Enum(EnumType { name, elems }))),
                None => Err(SchemaError::MalformedType),
            }
        } else if str_eq(kind, "UNION") {
            let nodes = match node.get_array("possibleTypes") {
                Some(nodes) => nodes,
                None => {
                    return Err(SchemaError::MalformedType);
                },
            };
            match read_names(nodes) {
                Some(possible_types) => Ok(Some(Type::Union(UnionType { name, possible_types }))),
                None => Err(SchemaError::MalformedType),
            }
        } else {
            Ok(None)
        }
    }
}

/// What loading gave, as [`schema_of`] states it.
pub open spec fn schema_outcome(r: Result<Schema, SchemaError>) -> Result<SchemaView, SchemaError> {
    match r {
        Ok(schema) => Ok(schema@),
        Err(e) => Err(e),
    }
}

impl Schema {
    /// Builds the schema that an introspection result describes. Types of
    /// kinds that the schema does not hold are left out.
    pub fn from_introspection(json: &Json) -> (r: Result<Schema, SchemaError>)
        ensures
            schema_outcome(r) == schema_of(*json),
    {
        let schema = match json.get("data") {
            Some(data) => match data.get("__schema") {
                Some(schema) => schema,
                None => {
                    return Err(SchemaError::MissingSchema);
                },
            },
            None => {
                return Err(SchemaError::MissingSchema);
            },
        };
        let query_root_name = match schema.get("queryType") {
            Some(root) => match root.get_str("name") {
                Some(name) => name.clone(),
                None => {
                    return Err(SchemaError::MissingQueryRoot);
                },
            },
            None => {
                return Err(SchemaError::MissingQueryRoot);
            },
        };
        let mutation_root_name = match schema.get("mutationType") {
            Some(root) => match root.get_str("name") {
                Some(name) => name.clone(),
                None => {
                    return Err(SchemaError::MissingMutationRoot);
                },
            },
            None => {
                return Err(SchemaError::MissingMutationRoot);
            },
        };
        let nodes = match schema.get_array("types") {
            Some(nodes) => nodes,
            None => {
                return Err(SchemaError::MissingTypes);
            },
        };
        match Schema::read_types(nodes) {
            Some(types) => Ok(Schema { types, query_root_name, mutation_root_name }),
            None => Err(SchemaError::MalformedType),
        }
    }

    /// Reads the nodes of `types`.
    fn read_types(nodes: &Vec<Json>) -> (r: Option<Vec<Type>>)
        ensures
            match r {
                Some(types) => types_of(nodes@) == Some(type_views(types@)),
                None => types_of(nodes@) is None,
            },
    {
        let mut types: Vec<Type> = Vec::new();
        let mut i: usize = 0;
        assert(nodes@.subrange(0, 0) =~= Seq::<Json>::empty());
        assert(type_views(types@) =~= Seq::<TypeView>::empty());
        while i < nodes.len()
            invariant
                i <= nodes.len(),
                types_of(nodes@.subrange(0, i as int)) == Some(type_views(types@)),
            decreases nodes.len() - i,
        {
            let ghost upto = nodes@.subrange(0, i + 1);
            let ghost before = type_views(types@);
            assert(upto.drop_last() =~= nodes@.subrange(0, i as int));
            assert(upto.last() == nodes@[i as int]);
            match Type::from_json_value(&nodes[i]) {
                Ok(Some(t)) => {
                    types.push(t);
                    assert(type_views(types@) =~= before.push(t@));
                },
                Ok(None) => {},
                Err(_) => {
                    proof {
                        lemma_types_of_prefix(nodes@, i + 1);
                    }
                    return None;
                },
            }
            i += 1;
        }
        assert(nodes@.subrange(0, i as int) =~= nodes@);
        Some(types)
    }
}

/// Where the first nodes are malformed, so are all of them.
pub proof fn lemma_types_of_prefix(nodes: Seq<Json>, n: int)
    requires
        0 <= n <= nodes.len(),
        types_of(nodes.subrange(0, n)) is None,
    ensures
        types_of(nodes) is None,
    decreases nodes.len() - n,
{
    if n < nodes.len() {
        let next = nodes.subrange(0, n + 1);
        assert(next.drop_last() =~= nodes.subrange(0, n));
        lemma_types_of_prefix(nodes, n + 1);
    } else {
        assert(nodes.subrange(0, n) =~= nodes);
    }
}

} // verus!
