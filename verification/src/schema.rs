//! Schemas of files: clearing their metadata, and merging them.

use vstd::prelude::*;
use std::collections::HashMap;
use arrow::datatypes::{DataType, Field, Schema};
use crate::accumulator::DataKind;
use crate::error::Error;
use crate::statistics::{columns_view, texts, TableColumn, TableColumnView};

verus! {

/// The schemas of the `arrow` crate.
#[verifier::external_type_specification]
#[verifier::external_body]
pub struct ExSchema(Schema);

/// The fields of schemas of the `arrow` crate.
#[verifier::external_type_specification]
#[verifier::external_body]
pub struct ExField(Field);

/// The data types of the `arrow` crate.
#[verifier::external_type_specification]
#[verifier::external_body]
pub struct ExDataType(DataType);

/// The types of columns, as far as they are told apart.
#[derive(Clone, Copy, Debug, PartialEq, Eq, Structural)]
pub enum TypeClass {
    Boolean,
    Int32,
    Int64,
    Float32,
    Float64,
    Struct,
    Union,
    Other,
}

impl TypeClass {
    /// The kind of values that are kept of a type.
    pub open spec fn spec_kind(self) -> DataKind {
        match self {
            TypeClass::Boolean => DataKind::Boolean,
            TypeClass::Int32 => DataKind::Int32,
            TypeClass::Int64 => DataKind::Int64,
            TypeClass::Float32 => DataKind::Float32,
            TypeClass::Float64 => DataKind::Float64,
            TypeClass::Struct => DataKind::Other,
            TypeClass::Union => DataKind::Other,
            TypeClass::Other => DataKind::Other,
        }
    }

    /// Returns the kind of values that are kept of a type.
    pub fn kind(&self) -> (kind: DataKind)
        ensures
            kind == self.spec_kind(),
    {
        match self {
            TypeClass::Boolean => DataKind::Boolean,
            TypeClass::Int32 => DataKind::Int32,
            TypeClass::Int64 => DataKind::Int64,
            TypeClass::Float32 => DataKind::Float32,
            TypeClass::Float64 => DataKind::Float64,
            TypeClass::Struct => DataKind::Other,
            TypeClass::Union => DataKind::Other,
            TypeClass::Other => DataKind::Other,
        }
    }
}

/// What a field holds.
pub struct FieldView {
    pub name: Seq<char>,
    /// The type. Of types other than structs and unions, those that `==` takes for equal
    /// are the same here. Structs and unions of the same parts, numbers and mode are.
    pub data_type: DataType,
    /// The class of the type.
    pub class: TypeClass,
    /// The parts of a struct or a union. Other types have none here.
    pub parts: Seq<FieldView>,
    /// The numbers of the parts of a union. Other types have none.
    pub part_ids: Seq<i8>,
    /// Whether a union is dense. Other types are not.
    pub is_dense: bool,
    pub nullable: bool,
    pub dict_id: i64,
    pub dict_is_ordered: bool,
    pub metadata: Map<Seq<char>, Seq<char>>,
}

/// What a schema holds.
pub struct SchemaView {
    pub fields: Seq<FieldView>,
    pub metadata: Map<Seq<char>, Seq<char>>,
}

/// What a field holds.
pub uninterp spec fn field_contents(field: Field) -> FieldView;

/// What a schema holds.
pub uninterp spec fn schema_contents(schema: Schema) -> SchemaView;

/// What each field of a list holds.
pub open spec fn fields_contents(fields: Seq<Field>) -> Seq<FieldView> {
    fields.map_values(|field: Field| field_contents(field))
}

/// What each schema of a list holds.
pub open spec fn schemas_contents(schemas: Seq<Schema>) -> Seq<SchemaView> {
    schemas.map_values(|schema: Schema| schema_contents(schema))
}

/// `Schema::fields` gives the fields of a schema, here counted.
#[verifier::external_body]
fn num_fields(schema: &Schema) -> (n: usize)
    ensures
        n == schema_contents(*schema).fields.len(),
{
    schema.fields().len()
}

/// `Schema::field` gives the field at a position. It panics past the last.
pub assume_specification[ Schema::field ](schema: &Schema, i: usize) -> (field: &Field)
    requires
        i < schema_contents(*schema).fields.len(),
    ensures
        field_contents(*field) == schema_contents(*schema).fields[i as int],
;

/// The clone of a field holds the same.
pub assume_specification[ <Field as Clone>::clone ](field: &Field) -> (clone: Field)
    ensures
        field_contents(clone) == field_contents(*field),
;

/// `Field::with_metadata` sets the metadata of a field and nothing else.
pub assume_specification[ Field::with_metadata ](
    field: Field,
    metadata: HashMap<String, String>,
) -> (changed: Field)
    ensures
        field_contents(changed) == (FieldView {
            metadata: metadata.deep_view(),
            ..field_contents(field)
        }),
;

/// `Schema::new` makes a schema of fields, without metadata.
#[verifier::external_body]
fn new_schema(fields: Vec<Field>) -> (schema: Schema)
    ensures
        schema_contents(schema).fields == fields_contents(fields@),
        schema_contents(schema).metadata.dom() == Set::<Seq<char>>::empty(),
{
    Schema::new(fields)
}

/// `Field::name` gives the name of a field.
#[verifier::external_body]
fn field_name(field: &Field) -> (name: &String)
    ensures
        name@ == field_contents(*field).name,
{
    field.name()
}

/// `Field::data_type` gives the type of a field, whose variant is told apart from the
/// others where it is one of those that have a class of their own.
#[verifier::external_body]
fn field_class(field: &Field) -> (class: TypeClass)
    ensures
        class == field_contents(*field).class,
{
    match field.data_type() {
        DataType::Boolean => TypeClass::Boolean,
        DataType::Int32 => TypeClass::Int32,
        DataType::Int64 => TypeClass::Int64,
        DataType::Float32 => TypeClass::Float32,
        DataType::Float64 => TypeClass::Float64,
        DataType::Struct(_) => TypeClass::Struct,
        DataType::Union(_, _) => TypeClass::Union,
        _ => TypeClass::Other,
    }
}

/// A field without metadata.
pub open spec fn cleared_field(field: FieldView) -> FieldView {
    FieldView { metadata: Map::empty(), ..field }
}

/// A schema without metadata, its own and that of its fields.
pub open spec fn cleared(schema: SchemaView) -> SchemaView {
    SchemaView {
        fields: schema.fields.map_values(|field: FieldView| cleared_field(field)),
        metadata: Map::empty(),
    }
}

/// A map without entries holds no texts.
proof fn lemma_no_metadata(metadata: HashMap<String, String>)
    requires
        metadata@ == Map::<String, String>::empty(),
    ensures
        metadata.deep_view() == Map::<Seq<char>, Seq<char>>::empty(),
{
    vstd::std_specs::hash::lemma_hashmap_deepview_dom(metadata);
    assert(metadata@.dom().map(|k: String| k.deep_view()) =~= Set::<Seq<char>>::empty());
}

/// Clears the metadata of a schema, its own and that of its fields.
fn clear_schema(schema: &Schema) -> (result: Schema)
    ensures
        schema_contents(result) == cleared(schema_contents(*schema)),
{
    let n: usize = num_fields(schema);
    let mut fields: Vec<Field> = Vec::new();
    let mut i: usize = 0;
    while i < n
        invariant
            i <= n,
            n == schema_contents(*schema).fields.len(),
            fields@.len() == i,
            forall|j: int|
                0 <= j < i ==> field_contents(#[trigger] fields@[j]) == cleared_field(
                    schema_contents(*schema).fields[j],
                ),
        decreases n - i,
    {
        let none: HashMap<String, String> = HashMap::new();
        proof {
            lemma_no_metadata(none);
        }
        fields.push(schema.field(i).clone().with_metadata(none));
        i += 1;
    }
    let result: Schema = new_schema(fields);
    proof {
        assert(schema_contents(result).fields =~= cleared(schema_contents(*schema)).fields);
        assert(schema_contents(result).metadata =~= Map::<Seq<char>, Seq<char>>::empty());
    }
    result
}

/// Clears the metadata of schemas, their own and that of their fields.
pub fn clear_metadata(schemas: Vec<Schema>) -> (results: Vec<Schema>)
    ensures
        schemas_contents(results@) == schemas_contents(schemas@).map_values(
            |schema: SchemaView| cleared(schema),
        ),
{
    let mut results: Vec<Schema> = Vec::new();
    let mut i: usize = 0;
    while i < schemas.len()
        invariant
            i <= schemas@.len(),
            results@.len() == i,
            forall|j: int|
                0 <= j < i ==> schema_contents(#[trigger] results@[j]) == cleared(
                    schema_contents(schemas@[j]),
                ),
        decreases schemas@.len() - i,
    {
        results.push(clear_schema(&schemas[i]));
        i += 1;
    }
    results
}

/// All fields of schemas, one schema after the other.
pub open spec fn all_fields(schemas: Seq<SchemaView>) -> Seq<FieldView>
    decreases schemas.len(),
{
    if schemas.len() == 0 {
        Seq::empty()
    } else {
        all_fields(schemas.drop_last()) + schemas.last().fields
    }
}

/// The names of fields, each where it occurs first.
pub open spec fn first_names(fields: Seq<FieldView>) -> Seq<Seq<char>>
    decreases fields.len(),
{
    if fields.len() == 0 {
        Seq::empty()
    } else {
        let names = first_names(fields.drop_last());
        if names.contains(fields.last().name) {
            names
        } else {
            names.push(fields.last().name)
        }
    }
}

/// Whether two maps give no key different values.
pub open spec fn agree(a: Map<Seq<char>, Seq<char>>, b: Map<Seq<char>, Seq<char>>) -> bool {
    forall|key: Seq<char>| a.contains_key(key) && b.contains_key(key) ==> a[key] == b[key]
}

/// Whether fields have different names.
pub open spec fn has_different_names(fields: Seq<FieldView>) -> bool {
    forall|f: int, g: int|
        0 <= f < g < fields.len() ==> #[trigger] fields[f].name != #[trigger] fields[g].name
}

/// Whether `==` takes two fields for equal. It leaves dictionary settings aside.
pub open spec fn same_field(a: FieldView, b: FieldView) -> bool
    decreases a,
{
    &&& a.name == b.name
    &&& a.nullable == b.nullable
    &&& a.metadata == b.metadata
    &&& a.class == b.class
    &&& if a.class is Struct || a.class is Union {
        &&& a.part_ids == b.part_ids
        &&& a.is_dense == b.is_dense
        &&& a.parts.len() == b.parts.len()
        &&& forall|i: int|
            0 <= i < a.parts.len() ==> same_field(#[trigger] a.parts[i], b.parts[i])
    } else {
        a.data_type == b.data_type
    }
}

/// Whether equal parts of two unions have the same number.
pub open spec fn has_same_ids(a: FieldView, b: FieldView) -> bool {
    forall|i: int, j: int|
        0 <= i < a.parts.len() && 0 <= j < b.parts.len() && same_field(
            #[trigger] a.parts[i],
            #[trigger] b.parts[j],
        ) ==> a.part_ids[i] == b.part_ids[j]
}

/// Whether two fields have the same dictionary settings and the same type, or are structs
/// whose parts of one name have, or unions whose equal parts have the same number.
pub open spec fn fits(a: FieldView, b: FieldView) -> bool
    decreases a,
{
    &&& a.dict_id == b.dict_id
    &&& a.dict_is_ordered == b.dict_is_ordered
    &&& a.class == b.class
    &&& match a.class {
        TypeClass::Struct => forall|i: int, j: int|
            0 <= i < a.parts.len() && 0 <= j < b.parts.len() && (#[trigger] a.parts[i]).name == (
            #[trigger] b.parts[j]).name ==> fits(a.parts[i], b.parts[j]) && agree(
                a.parts[i].metadata,
                b.parts[j].metadata,
            ),
        TypeClass::Union => has_same_ids(a, b),
        _ => a.data_type == b.data_type,
    }
}

/// Whether the parts of a struct or a union do not conflict with each other, and neither do
/// the parts of a part of a struct.
pub open spec fn is_consistent(field: FieldView) -> bool
    decreases field,
{
    match field.class {
        TypeClass::Struct => {
            &&& forall|i: int|
                0 <= i < field.parts.len() ==> is_consistent(#[trigger] field.parts[i])
            &&& forall|i: int, j: int|
                0 <= i < field.parts.len() && 0 <= j < field.parts.len() && i != j && (
                #[trigger] field.parts[i]).name == (#[trigger] field.parts[j]).name ==> fits(
                    field.parts[i],
                    field.parts[j],
                ) && agree(field.parts[i].metadata, field.parts[j].metadata)
        },
        TypeClass::Union => has_same_ids(field, field),
        _ => true,
    }
}

/// Whether two fields of one name can be merged, leaving their own metadata aside.
pub open spec fn compatible(a: FieldView, b: FieldView) -> bool {
    fits(a, b) && is_consistent(a) && is_consistent(b)
}

/// Whether the parts of a struct have different names, and so have the parts of each part
/// that is one. Such a struct stays as it is when it is merged with itself.
pub open spec fn has_distinct_parts(field: FieldView) -> bool
    decreases field,
{
    field.class is Struct ==> {
        &&& has_different_names(field.parts)
        &&& forall|i: int|
            0 <= i < field.parts.len() ==> has_distinct_parts(#[trigger] field.parts[i])
    }
}

/// Whether any two fields of one name are compatible.
pub open spec fn has_compatible_fields(fields: Seq<FieldView>) -> bool {
    forall|f: int, g: int|
        0 <= f < g < fields.len() && #[trigger] fields[f].name == #[trigger] fields[g].name
            ==> compatible(fields[f], fields[g])
}

/// Whether metadata gives no key different values, over schemas and over the fields of
/// one name.
pub open spec fn has_consistent_metadata(schemas: Seq<SchemaView>) -> bool {
    let fields = all_fields(schemas);
    &&& forall|i: int, j: int|
        0 <= i < j < schemas.len() ==> agree(
            (#[trigger] schemas[i]).metadata,
            (#[trigger] schemas[j]).metadata,
        )
    &&& forall|f: int, g: int|
        0 <= f < g < fields.len() && #[trigger] fields[f].name == #[trigger] fields[g].name
            ==> agree(fields[f].metadata, fields[g].metadata)
}

/// The names of fields.
pub open spec fn names_of(fields: Seq<FieldView>) -> Seq<Seq<char>> {
    fields.map_values(|field: FieldView| field.name)
}

/// The parts of all fields of a name, one field after the other.
pub open spec fn parts_of(fields: Seq<FieldView>, name: Seq<char>) -> Seq<FieldView>
    decreases fields.len(),
{
    if fields.len() == 0 {
        Seq::empty()
    } else if fields.last().name == name {
        parts_of(fields.drop_last(), name) + fields.last().parts
    } else {
        parts_of(fields.drop_last(), name)
    }
}

/// Whether there is a field of a name.
pub open spec fn has_name(fields: Seq<FieldView>, name: Seq<char>) -> bool {
    exists|f: int| 0 <= f < fields.len() && (#[trigger] fields[f]).name == name
}

/// Whether one of these parts equals a part.
pub open spec fn has_same_part(parts: Seq<FieldView>, part: FieldView) -> bool {
    exists|i: int| 0 <= i < parts.len() && same_field(part, #[trigger] parts[i])
}

/// Parts of a union and their numbers, with more of them: those that equal none before.
pub open spec fn with_parts(
    parts: Seq<FieldView>,
    ids: Seq<i8>,
    more: Seq<FieldView>,
    more_ids: Seq<i8>,
) -> (Seq<FieldView>, Seq<i8>)
    decreases more.len(),
{
    if more.len() == 0 {
        (parts, ids)
    } else {
        let before = with_parts(parts, ids, more.drop_last(), more_ids.drop_last());
        if has_same_part(before.0, more.last()) {
            before
        } else {
            (before.0.push(more.last()), before.1.push(more_ids.last()))
        }
    }
}

/// The parts that unions of a name merge to, and their numbers: those of the first, and
/// of each other one those that equal none before.
pub open spec fn merged_union(fields: Seq<FieldView>, name: Seq<char>) -> (
    Seq<FieldView>,
    Seq<i8>,
)
    decreases fields.len(),
{
    if fields.len() == 0 {
        (Seq::empty(), Seq::empty())
    } else {
        let before = merged_union(fields.drop_last(), name);
        let last = fields.last();
        if last.name != name {
            before
        } else if has_name(fields.drop_last(), name) {
            with_parts(before.0, before.1, last.parts, last.part_ids)
        } else {
            (last.parts, last.part_ids)
        }
    }
}

/// Whether a field of one of the schemas went into a field of the merged one.
pub open spec fn is_part(field: FieldView, merged: FieldView) -> bool {
    &&& field.dict_id == merged.dict_id
    &&& field.dict_is_ordered == merged.dict_is_ordered
    &&& field.nullable ==> merged.nullable
    &&& field.metadata.submap_of(merged.metadata)
    &&& field.class == merged.class
    &&& merged.class !is Struct && merged.class !is Union ==> field.parts == merged.parts
        && field.data_type == merged.data_type
    &&& merged.class !is Union ==> field.part_ids == merged.part_ids && field.is_dense
        == merged.is_dense
    &&& field.parts == merged.parts && field.part_ids == merged.part_ids && field.is_dense
        == merged.is_dense ==> field.data_type == merged.data_type
}

/// Whether a union is what unions of its name merge to. It has the mode of the first.
pub open spec fn is_merged_union(fields: Seq<FieldView>, merged: FieldView) -> bool {
    &&& merged_union(fields, merged.name) == (merged.parts, merged.part_ids)
    &&& forall|f: int|
        0 <= f < fields.len() && (#[trigger] fields[f]).name == merged.name && !has_name(
            fields.take(f),
            merged.name,
        ) ==> fields[f].is_dense == merged.is_dense
}

/// Whether all fields of the name of a field are that field.
pub open spec fn is_each(fields: Seq<FieldView>, field: FieldView) -> bool {
    forall|f: int|
        0 <= f < fields.len() && (#[trigger] fields[f]).name == field.name ==> fields[f] == field
}

/// Whether a field is what fields of its name merge to: each is a part of it, and what it
/// holds is from one of them. A field whose name occurs once stays as it is. The parts of a
/// struct are what the parts of all structs of its name merge to, except that a struct may
/// stay as it is where all are the same.
pub open spec fn is_merged_field(fields: Seq<FieldView>, merged: FieldView) -> bool
    decreases merged,
{
    &&& forall|f: int|
        0 <= f < fields.len() && (#[trigger] fields[f]).name == merged.name ==> is_part(
            fields[f],
            merged,
        )
    &&& merged.nullable ==> exists|f: int|
        0 <= f < fields.len() && (#[trigger] fields[f]).name == merged.name && fields[f].nullable
    &&& forall|key: Seq<char>| #[trigger]
        merged.metadata.contains_key(key) ==> exists|f: int|
            0 <= f < fields.len() && (#[trigger] fields[f]).name == merged.name
                && fields[f].metadata.contains_key(key)
    &&& forall|f: int|
        0 <= f < fields.len() && (#[trigger] fields[f]).name == merged.name && (forall|g: int|
            0 <= g < fields.len() && g != f ==> (#[trigger] fields[g]).name != merged.name)
            ==> fields[f] == merged
    &&& merged.class is Union ==> is_merged_union(fields, merged)
    &&& merged.class is Struct ==> is_merged_list(parts_of(fields, merged.name), merged.parts)
        || is_each(fields, merged)
}

/// Whether fields are what other fields merge to: one of each name, in the order in which
/// names occur first.
pub open spec fn is_merged_list(fields: Seq<FieldView>, merged: Seq<FieldView>) -> bool
    decreases merged,
{
    &&& names_of(merged) == first_names(fields)
    &&& forall|m: int|
        0 <= m < merged.len() ==> is_merged_field(fields, #[trigger] merged[m])
}

/// Whether a schema is what schemas merge to: it has the metadata of each and no more,
/// and the fields that all their fields merge to.
pub open spec fn is_merge(schemas: Seq<SchemaView>, merged: SchemaView) -> bool {
    &&& forall|i: int|
        0 <= i < schemas.len() ==> (#[trigger] schemas[i]).metadata.submap_of(merged.metadata)
    &&& forall|key: Seq<char>| #[trigger]
        merged.metadata.contains_key(key) ==> exists|i: int|
            0 <= i < schemas.len() && (#[trigger] schemas[i]).metadata.contains_key(key)
    &&& is_merged_list(all_fields(schemas), merged.fields)
}

/// `Schema::try_merge` merges schemas into one, and refuses different values of one key
/// of metadata, different dictionary settings of one field, and different types of one
/// field, except that it merges the parts of structs and of unions. Which of several
/// conflicts an error names is left open, and so is whether a conflict between parts of one
/// struct is found: two fields at one address are not merged.
#[verifier::external_body]
fn try_merge(schemas: Vec<Schema>) -> (result: Result<Schema, arrow::error::ArrowError>)
    ensures
        result matches Ok(merged) ==> is_merge(
            schemas_contents(schemas@),
            schema_contents(merged),
        ),
        has_compatible_fields(all_fields(schemas_contents(schemas@))) && has_consistent_metadata(
            schemas_contents(schemas@),
        ) ==> result is Ok,
{
    Schema::try_merge(schemas)
}

/// The schemas that are merged: as they are, or without metadata.
pub open spec fn schemas_to_merge(
    schemas: Seq<SchemaView>,
    skip_metadata: bool,
) -> Seq<SchemaView> {
    if skip_metadata {
        schemas.map_values(|schema: SchemaView| cleared(schema))
    } else {
        schemas
    }
}

/// Merges the schemas of files into that of a table, without the metadata of the files
/// where that is to be skipped.
pub fn merge_schemas(schemas: Vec<Schema>, skip_metadata: bool) -> (result: Result<Schema, Error>)
    ensures
        ({
            let merged = schemas_to_merge(schemas_contents(schemas@), skip_metadata);
            &&& result matches Ok(schema) ==> is_merge(merged, schema_contents(schema))
            &&& result matches Err(error) ==> error is ArrowError && !(has_compatible_fields(
                all_fields(merged),
            ) && has_consistent_metadata(merged))
        }),
{
    let merged: Result<Schema, arrow::error::ArrowError> = if skip_metadata {
        try_merge(clear_metadata(schemas))
    } else {
        try_merge(schemas)
    };
    match merged {
        Ok(schema) => Ok(schema),
        Err(error) => Err(Error::ArrowError(error)),
    }
}

/// The columns of a table, from its schema.
pub open spec fn schema_columns(schema: SchemaView) -> Seq<TableColumnView> {
    schema.fields.map_values(
        |field: FieldView|
            TableColumnView { name: field.name, kind: field.class.spec_kind() },
    )
}

/// Lists the columns of a table.
pub fn table_columns(schema: &Schema) -> (columns: Vec<TableColumn>)
    ensures
        columns_view(columns@) == schema_columns(schema_contents(*schema)),
{
    let n: usize = num_fields(schema);
    let mut columns: Vec<TableColumn> = Vec::new();
    let mut i: usize = 0;
    while i < n
        invariant
            i <= n,
            n == schema_contents(*schema).fields.len(),
            columns@.len() == i,
            forall|j: int|
                0 <= j < i ==> (#[trigger] columns@[j])@ == schema_columns(
                    schema_contents(*schema),
                )[j],
        decreases n - i,
    {
        let field: &Field = schema.field(i);
        columns.push(TableColumn { name: field_name(field).clone(), kind: field_class(field).kind() });
        i += 1;
    }
    assert(columns_view(columns@) =~= schema_columns(schema_contents(*schema)));
    columns
}

/// The names of the fields of a schema.
pub open spec fn field_names(schema: SchemaView) -> Seq<Seq<char>> {
    names_of(schema.fields)
}

/// Lists the names of the columns of a file.
pub fn column_names(schema: &Schema) -> (names: Vec<String>)
    ensures
        texts(names@) == field_names(schema_contents(*schema)),
{
    let n: usize = num_fields(schema);
    let mut names: Vec<String> = Vec::new();
    let mut i: usize = 0;
    while i < n
        invariant
            i <= n,
            n == schema_contents(*schema).fields.len(),
            names@.len() == i,
            forall|j: int|
                0 <= j < i ==> (#[trigger] names@[j])@ == schema_contents(*schema).fields[j].name,
        decreases n - i,
    {
        names.push(field_name(schema.field(i)).clone());
        i += 1;
    }
    assert(texts(names@) =~= field_names(schema_contents(*schema)));
    names
}

/// Clearing metadata once is as good as twice.
pub proof fn law_clearing_is_idempotent(schema: SchemaView)
    ensures
        cleared(cleared(schema)) == cleared(schema),
{
    assert(cleared(cleared(schema)).fields =~= cleared(schema).fields);
}

/// The fields of cleared schemas are the fields, cleared.
proof fn lemma_fields_of_cleared(schemas: Seq<SchemaView>)
    ensures
        all_fields(schemas_to_merge(schemas, true)) == all_fields(schemas).map_values(
            |field: FieldView| cleared_field(field),
        ),
    decreases schemas.len(),
{
    let merged = schemas_to_merge(schemas, true);
    if schemas.len() > 0 {
        lemma_fields_of_cleared(schemas.drop_last());
        assert(merged.drop_last() =~= schemas_to_merge(schemas.drop_last(), true));
    }
    assert(all_fields(merged) =~= all_fields(schemas).map_values(
        |field: FieldView| cleared_field(field),
    ));
}

/// Where metadata is skipped, the merged schema has none.
pub proof fn law_skipped_metadata_is_gone(schemas: Seq<SchemaView>, merged: SchemaView)
    requires
        is_merge(schemas_to_merge(schemas, true), merged),
    ensures
        cleared(merged) == merged,
{
    lemma_fields_of_cleared(schemas);
    let inputs = schemas_to_merge(schemas, true);
    assert(merged.metadata =~= Map::<Seq<char>, Seq<char>>::empty());
    assert forall|m: int| 0 <= m < merged.fields.len() implies cleared_field(
        #[trigger] merged.fields[m],
    ) == merged.fields[m] by {
        assert(merged.fields[m].metadata =~= Map::<Seq<char>, Seq<char>>::empty());
    }
    assert(cleared(merged).fields =~= merged.fields);
}

/// Where metadata is skipped, none of it stands in the way of merging: schemas merge as
/// soon as their fields are compatible.
pub proof fn law_skipped_metadata_never_conflicts(schemas: Seq<SchemaView>)
    requires
        has_compatible_fields(all_fields(schemas)),
    ensures
        has_compatible_fields(all_fields(schemas_to_merge(schemas, true))),
        has_consistent_metadata(schemas_to_merge(schemas, true)),
{
    lemma_fields_of_cleared(schemas);
    let fields = all_fields(schemas);
    let inputs = schemas_to_merge(schemas, true);
    assert forall|f: int, g: int|
        0 <= f < g < all_fields(inputs).len() && #[trigger] all_fields(inputs)[f].name
            == #[trigger] all_fields(inputs)[g].name implies compatible(
        all_fields(inputs)[f],
        all_fields(inputs)[g],
    ) by {
        assert(fields[f].name == fields[g].name);
    }
}

/// A field whose name occurs once is what it merges to.
proof fn lemma_merged_field_of_one(fields: Seq<FieldView>, m: int, merged: FieldView)
    requires
        has_different_names(fields),
        0 <= m < fields.len(),
        merged.name == fields[m].name,
        is_merged_field(fields, merged),
    ensures
        merged == fields[m],
{
    assert forall|g: int| 0 <= g < fields.len() && g != m implies (#[trigger] fields[g]).name
        != fields[m].name by {
        if g < m {
            assert(fields[g].name != fields[m].name);
        } else {
            assert(fields[m].name != fields[g].name);
        }
    }
    lemma_merged_field_of_once(fields, m, merged);
}

/// The fields of one schema.
proof fn lemma_fields_of_one(schema: SchemaView)
    ensures
        all_fields(seq![schema]) == schema.fields,
{
    reveal_with_fuel(all_fields, 2);
    assert(seq![schema].drop_last() =~= Seq::<SchemaView>::empty());
    assert(all_fields(seq![schema]) =~= schema.fields);
}

/// A schema whose fields have different names can be merged.
pub proof fn law_one_can_be_merged(schema: SchemaView)
    requires
        has_different_names(schema.fields),
    ensures
        has_compatible_fields(all_fields(seq![schema])),
        has_consistent_metadata(seq![schema]),
{
    lemma_fields_of_one(schema);
}

/// A schema whose fields have different names merges to itself.
pub proof fn law_merge_of_one(schema: SchemaView, merged: SchemaView)
    requires
        has_different_names(schema.fields),
        is_merge(seq![schema], merged),
    ensures
        merged == schema,
{
    let schemas = seq![schema];
    lemma_fields_of_one(schema);
    lemma_first_names(schema.fields);
    assert(names_of(merged.fields) == names_of(schema.fields));
    assert(names_of(merged.fields).len() == merged.fields.len());
    assert forall|m: int| 0 <= m < merged.fields.len() implies merged.fields[m]
        == schema.fields[m] by {
        assert(names_of(merged.fields)[m] == merged.fields[m].name);
        assert(names_of(schema.fields)[m] == schema.fields[m].name);
        lemma_merged_field_of_one(schema.fields, m, merged.fields[m]);
    }
    assert(merged.fields =~= schema.fields);
    assert(schemas[0].metadata.submap_of(merged.metadata));
    assert(merged.metadata =~= schema.metadata);
}

/// The names of fields with different names.
proof fn lemma_first_names(fields: Seq<FieldView>)
    requires
        has_different_names(fields),
    ensures
        first_names(fields) == names_of(fields),
    decreases fields.len(),
{
    if fields.len() > 0 {
        lemma_first_names(fields.drop_last());
    }
    assert(first_names(fields) =~= names_of(fields));
}

/// Whether schemas are the same but for their metadata, and that of their fields.
pub open spec fn differ_in_metadata(schemas: Seq<SchemaView>) -> bool {
    forall|i: int|
        0 <= i < schemas.len() ==> cleared(#[trigger] schemas[i]) == cleared(schemas[0])
}

/// Names that are there already add no further first names.
proof fn lemma_repeated_names(fields: Seq<FieldView>, more: Seq<FieldView>)
    requires
        forall|k: int|
            0 <= k < more.len() ==> first_names(fields).contains((#[trigger] more[k]).name),
    ensures
        first_names(fields + more) == first_names(fields),
    decreases more.len(),
{
    if more.len() == 0 {
        assert(fields + more =~= fields);
    } else {
        assert((fields + more).drop_last() =~= fields + more.drop_last());
        assert forall|k: int| 0 <= k < more.drop_last().len() implies first_names(fields).contains(
            (#[trigger] more.drop_last()[k]).name,
        ) by {
            assert(more.drop_last()[k] == more[k]);
        }
        lemma_repeated_names(fields, more.drop_last());
        assert((fields + more).last() == more[more.len() - 1]);
    }
}

/// The fields of schemas that are all the same: those of the one, again and again.
proof fn lemma_fields_of_same(schemas: Seq<SchemaView>, schema: SchemaView)
    requires
        schemas.len() > 0,
        has_different_names(schema.fields),
        forall|i: int| 0 <= i < schemas.len() ==> #[trigger] schemas[i] == schema,
    ensures
        schema.fields.len() <= all_fields(schemas).len(),
        forall|k: int|
            0 <= k < schema.fields.len() ==> #[trigger] all_fields(schemas)[k] == schema.fields[k],
        forall|f: int|
            0 <= f < all_fields(schemas).len() ==> schema.fields.contains(
                #[trigger] all_fields(schemas)[f],
            ),
        first_names(all_fields(schemas)) == field_names(schema),
    decreases schemas.len(),
{
    let rest = schemas.drop_last();
    let names = field_names(schema);
    lemma_first_names(schema.fields);
    if rest.len() == 0 {
        assert(all_fields(rest) =~= Seq::<FieldView>::empty());
        assert(all_fields(schemas) =~= schema.fields);
        assert(first_names(all_fields(schemas)) == names);
    } else {
        assert forall|i: int| 0 <= i < rest.len() implies #[trigger] rest[i] == schema by {
            assert(rest[i] == schemas[i]);
        }
        lemma_fields_of_same(rest, schema);
        assert forall|k: int| 0 <= k < schema.fields.len() implies first_names(
            all_fields(rest),
        ).contains((#[trigger] schema.fields[k]).name) by {
            assert(names[k] == schema.fields[k].name);
        }
        lemma_repeated_names(all_fields(rest), schema.fields);
        assert(all_fields(schemas) == all_fields(rest) + schema.fields);
        assert forall|f: int| 0 <= f < all_fields(schemas).len() implies schema.fields.contains(
            #[trigger] all_fields(schemas)[f],
        ) by {
            if f < all_fields(rest).len() {
                assert(all_fields(schemas)[f] == all_fields(rest)[f]);
            } else {
                assert(all_fields(schemas)[f] == schema.fields[f - all_fields(rest).len()]);
            }
        }
    }
}

/// Two fields of one name in a schema whose fields have different names are one field.
proof fn lemma_named_once(fields: Seq<FieldView>, a: FieldView, b: FieldView)
    requires
        has_different_names(fields),
        fields.contains(a),
        fields.contains(b),
        a.name == b.name,
    ensures
        a == b,
{
    let i = choose|i: int| 0 <= i < fields.len() && fields[i] == a;
    let j = choose|j: int| 0 <= j < fields.len() && fields[j] == b;
    if i < j {
        assert(fields[i].name != fields[j].name);
    } else if j < i {
        assert(fields[j].name != fields[i].name);
    }
}

/// Where metadata is skipped, schemas merge that are the same but for metadata: nothing
/// stands in the way. The fields of one schema have different names, and the parts of a
/// field do not conflict with each other.
pub proof fn law_schemas_that_differ_in_metadata_merge(schemas: Seq<SchemaView>)
    requires
        schemas.len() > 0,
        differ_in_metadata(schemas),
        has_different_names(schemas[0].fields),
        forall|k: int|
            0 <= k < schemas[0].fields.len() ==> is_consistent(#[trigger] schemas[0].fields[k]),
    ensures
        has_compatible_fields(all_fields(schemas_to_merge(schemas, true))),
        has_consistent_metadata(schemas_to_merge(schemas, true)),
{
    let schema = cleared(schemas[0]);
    let inputs = schemas_to_merge(schemas, true);
    let fields = all_fields(inputs);
    lemma_cleared_names(schemas[0]);
    assert forall|i: int| 0 <= i < inputs.len() implies #[trigger] inputs[i] == schema by {
        assert(inputs[i] == cleared(schemas[i]));
    }
    lemma_fields_of_same(inputs, schema);
    assert forall|f: int, g: int|
        0 <= f < g < fields.len() && #[trigger] fields[f].name
            == #[trigger] fields[g].name implies compatible(fields[f], fields[g]) && agree(
        fields[f].metadata,
        fields[g].metadata,
    ) by {
        lemma_named_once(schema.fields, fields[f], fields[g]);
        let k = choose|k: int| 0 <= k < schema.fields.len() && schema.fields[k] == fields[f];
        assert(is_consistent(schemas[0].fields[k]));
        lemma_compatible_with_itself(fields[f]);
    }
}

/// A field whose parts do not conflict with each other can be merged with itself.
proof fn lemma_compatible_with_itself(field: FieldView)
    requires
        is_consistent(field),
    ensures
        compatible(field, field),
    decreases field,
{
    if field.class is Struct {
        let parts = field.parts;
        assert forall|i: int, j: int|
            0 <= i < parts.len() && 0 <= j < parts.len() && (#[trigger] parts[i]).name == (
            #[trigger] parts[j]).name implies fits(parts[i], parts[j]) && agree(
            parts[i].metadata,
            parts[j].metadata,
        ) by {
            if i == j {
                lemma_compatible_with_itself(parts[i]);
            }
        }
    }
}

/// A cleared schema has the names of the schema.
proof fn lemma_cleared_names(schema: SchemaView)
    requires
        has_different_names(schema.fields),
    ensures
        has_different_names(cleared(schema).fields),
{
    let fields = cleared(schema).fields;
    assert forall|f: int, g: int| 0 <= f < g < fields.len() implies #[trigger] fields[f].name
        != #[trigger] fields[g].name by {
        assert(schema.fields[f].name != schema.fields[g].name);
    }
}

/// Where metadata is skipped, schemas that are the same but for metadata merge to any of
/// them without its metadata. The fields of one schema have different names, and so have the
/// parts of a struct.
pub proof fn law_merge_of_schemas_that_differ_in_metadata(
    schemas: Seq<SchemaView>,
    merged: SchemaView,
)
    requires
        schemas.len() > 0,
        differ_in_metadata(schemas),
        has_different_names(schemas[0].fields),
        forall|k: int|
            0 <= k < schemas[0].fields.len() ==> has_distinct_parts(
                #[trigger] schemas[0].fields[k],
            ),
        is_merge(schemas_to_merge(schemas, true), merged),
    ensures
        merged == cleared(schemas[0]),
{
    let schema = cleared(schemas[0]);
    let inputs = schemas_to_merge(schemas, true);
    let fields = all_fields(inputs);
    lemma_cleared_names(schemas[0]);
    assert forall|i: int| 0 <= i < inputs.len() implies #[trigger] inputs[i] == schema by {
        assert(inputs[i] == cleared(schemas[i]));
    }
    lemma_fields_of_same(inputs, schema);
    law_skipped_metadata_is_gone(schemas, merged);
    lemma_merged_list_of_same(schema.fields, fields, merged.fields);
}

/// The parts of structs of one name that are all the same: those of the one, again and
/// again.
proof fn lemma_parts_of_same(fields: Seq<FieldView>, field: FieldView)
    requires
        has_different_names(field.parts),
        forall|f: int|
            0 <= f < fields.len() && (#[trigger] fields[f]).name == field.name ==> fields[f]
                == field,
    ensures
        forall|f: int|
            0 <= f < parts_of(fields, field.name).len() ==> field.parts.contains(
                #[trigger] parts_of(fields, field.name)[f],
            ),
        fields.contains(field) ==> {
            &&& field.parts.len() <= parts_of(fields, field.name).len()
            &&& forall|k: int|
                0 <= k < field.parts.len() ==> #[trigger] parts_of(fields, field.name)[k]
                    == field.parts[k]
            &&& first_names(parts_of(fields, field.name)) == names_of(field.parts)
        },
        !fields.contains(field) ==> parts_of(fields, field.name).len() == 0,
    decreases fields.len(),
{
    if fields.len() > 0 {
        let rest = fields.drop_last();
        let before = parts_of(rest, field.name);
        let all = parts_of(fields, field.name);
        assert forall|f: int|
            0 <= f < rest.len() && (#[trigger] rest[f]).name == field.name implies rest[f]
            == field by {
            assert(rest[f] == fields[f]);
        }
        lemma_parts_of_same(rest, field);
        if rest.contains(field) {
            let i = choose|i: int| 0 <= i < rest.len() && rest[i] == field;
            assert(fields[i] == field);
        }
        assert(fields.last() == fields[fields.len() - 1]);
        if fields.last().name == field.name {
            assert(fields.last() == field);
            assert(all == before + field.parts);
            if rest.contains(field) {
                assert forall|k: int| 0 <= k < field.parts.len() implies first_names(
                    before,
                ).contains((#[trigger] field.parts[k]).name) by {
                    assert(names_of(field.parts)[k] == field.parts[k].name);
                }
                lemma_repeated_names(before, field.parts);
            } else {
                assert(all =~= field.parts);
                lemma_first_names(field.parts);
            }
            assert forall|f: int| 0 <= f < all.len() implies field.parts.contains(
                #[trigger] all[f],
            ) by {
                if f < before.len() {
                    assert(all[f] == before[f]);
                } else {
                    assert(all[f] == field.parts[f - before.len()]);
                }
            }
        } else if fields.contains(field) {
            let i = choose|i: int| 0 <= i < fields.len() && fields[i] == field;
            assert(rest[i] == field);
        }
    }
}

/// A field equals itself.
proof fn lemma_same_as_itself(field: FieldView)
    ensures
        same_field(field, field),
    decreases field,
{
    if field.class is Struct || field.class is Union {
        assert forall|i: int| 0 <= i < field.parts.len() implies same_field(
            #[trigger] field.parts[i],
            field.parts[i],
        ) by {
            lemma_same_as_itself(field.parts[i]);
        }
    }
}

/// Parts that are there already add nothing to a union.
proof fn lemma_no_more_parts(
    parts: Seq<FieldView>,
    ids: Seq<i8>,
    more: Seq<FieldView>,
    more_ids: Seq<i8>,
)
    requires
        forall|k: int| 0 <= k < more.len() ==> parts.contains(#[trigger] more[k]),
    ensures
        with_parts(parts, ids, more, more_ids) == (parts, ids),
    decreases more.len(),
{
    if more.len() > 0 {
        let rest = more.drop_last();
        assert forall|k: int| 0 <= k < rest.len() implies parts.contains(#[trigger] rest[k]) by {
            assert(rest[k] == more[k]);
        }
        lemma_no_more_parts(parts, ids, rest, more_ids.drop_last());
        assert(parts.contains(more[more.len() - 1]));
        let i = choose|i: int| 0 <= i < parts.len() && parts[i] == more.last();
        lemma_same_as_itself(more.last());
        assert(same_field(more.last(), parts[i]));
    }
}

/// Unions of one name that are all the same merge to the one.
proof fn lemma_union_of_same(fields: Seq<FieldView>, field: FieldView)
    requires
        is_each(fields, field),
    ensures
        has_name(fields, field.name) ==> merged_union(fields, field.name) == (
            field.parts,
            field.part_ids,
        ),
    decreases fields.len(),
{
    if fields.len() > 0 {
        let rest = fields.drop_last();
        assert forall|f: int|
            0 <= f < rest.len() && (#[trigger] rest[f]).name == field.name implies rest[f]
            == field by {
            assert(rest[f] == fields[f]);
        }
        lemma_union_of_same(rest, field);
        assert(fields.last() == fields[fields.len() - 1]);
        if fields.last().name == field.name {
            if has_name(rest, field.name) {
                assert forall|k: int| 0 <= k < field.parts.len() implies field.parts.contains(
                    #[trigger] field.parts[k],
                ) by {}
                lemma_no_more_parts(field.parts, field.part_ids, field.parts, field.part_ids);
            }
        } else if has_name(fields, field.name) {
            let f = choose|f: int| 0 <= f < fields.len() && (#[trigger] fields[f]).name == field.name;
            assert(rest[f].name == field.name);
        }
    }
}

/// Fields are what they merge to with themselves.
proof fn lemma_merged_list_of_same(
    one: Seq<FieldView>,
    fields: Seq<FieldView>,
    merged: Seq<FieldView>,
)
    requires
        has_different_names(one),
        one.len() <= fields.len(),
        forall|k: int| 0 <= k < one.len() ==> #[trigger] fields[k] == one[k],
        forall|f: int| 0 <= f < fields.len() ==> one.contains(#[trigger] fields[f]),
        forall|k: int| 0 <= k < one.len() ==> has_distinct_parts(#[trigger] one[k]),
        first_names(fields) == names_of(one),
        is_merged_list(fields, merged),
    ensures
        merged == one,
    decreases one,
{
    assert(names_of(merged).len() == merged.len());
    assert(names_of(one).len() == one.len());
    assert forall|k: int| 0 <= k < one.len() implies merged[k] == one[k] by {
        assert(names_of(merged)[k] == merged[k].name);
        assert(names_of(one)[k] == one[k].name);
        assert(fields[k] == one[k]);
        assert forall|f: int|
            0 <= f < fields.len() && (#[trigger] fields[f]).name == one[k].name implies fields[f]
            == one[k] by {
            assert(one.contains(one[k]));
            lemma_named_once(one, fields[f], one[k]);
        }
        lemma_merged_field_of_same(fields, k, merged[k]);
    }
    assert(merged =~= one);
}

/// A field keeps its settings when it merges with itself.
proof fn lemma_settings_of_same(fields: Seq<FieldView>, m: int, merged: FieldView)
    requires
        0 <= m < fields.len(),
        is_each(fields, fields[m]),
        merged.name == fields[m].name,
        is_merged_field(fields, merged),
    ensures
        is_part(fields[m], merged),
        merged.nullable == fields[m].nullable,
        merged.metadata == fields[m].metadata,
{
    let field = fields[m];
    assert(is_part(field, merged));
    assert(merged.metadata =~= field.metadata);
}

/// A name has a first field.
proof fn lemma_first_named(fields: Seq<FieldView>, name: Seq<char>) -> (f: int)
    requires
        has_name(fields, name),
    ensures
        0 <= f < fields.len(),
        fields[f].name == name,
        !has_name(fields.take(f), name),
    decreases fields.len(),
{
    let f = choose|f: int| 0 <= f < fields.len() && (#[trigger] fields[f]).name == name;
    if has_name(fields.take(f), name) {
        let g = lemma_first_named(fields.take(f), name);
        assert(fields.take(f)[g] == fields[g]);
        assert(fields.take(f).take(g) =~= fields.take(g));
        g
    } else {
        f
    }
}

/// A union is what it merges to with itself.
proof fn lemma_merged_union_of_same(fields: Seq<FieldView>, field: FieldView, merged: FieldView)
    requires
        has_name(fields, field.name),
        is_each(fields, field),
        merged.name == field.name,
        is_merged_union(fields, merged),
    ensures
        merged.parts == field.parts,
        merged.part_ids == field.part_ids,
        merged.is_dense == field.is_dense,
{
    lemma_union_of_same(fields, field);
    let f = lemma_first_named(fields, field.name);
    assert(fields[f] == field);
}

/// A field whose name occurs once is what it merges to.
proof fn lemma_merged_field_of_once(fields: Seq<FieldView>, m: int, merged: FieldView)
    requires
        0 <= m < fields.len(),
        forall|g: int|
            0 <= g < fields.len() && g != m ==> (#[trigger] fields[g]).name != fields[m].name,
        merged.name == fields[m].name,
        is_merged_field(fields, merged),
    ensures
        merged == fields[m],
{
    assert(fields[m].name == merged.name);
}

/// What a field that merged with itself holds.
proof fn lemma_merged_parts_of_same(fields: Seq<FieldView>, m: int, merged: FieldView)
    requires
        0 <= m < fields.len(),
        is_each(fields, fields[m]),
        merged.name == fields[m].name,
        is_merged_field(fields, merged),
    ensures
        merged.class == fields[m].class,
        merged.class is Union ==> is_merged_union(fields, merged),
        merged.class is Struct ==> is_merged_list(parts_of(fields, merged.name), merged.parts)
            || merged == fields[m],
{
    assert(is_part(fields[m], merged));
}

/// A field is what it merges to with itself.
proof fn lemma_merged_field_of_same(fields: Seq<FieldView>, m: int, merged: FieldView)
    requires
        0 <= m < fields.len(),
        is_each(fields, fields[m]),
        has_distinct_parts(fields[m]),
        merged.name == fields[m].name,
        is_merged_field(fields, merged),
    ensures
        merged == fields[m],
    decreases fields[m],
{
    let field = fields[m];
    lemma_settings_of_same(fields, m, merged);
    lemma_merged_parts_of_same(fields, m, merged);
    if field.class is Struct {
        if merged != field {
            assert(fields.contains(field));
            lemma_parts_of_same(fields, field);
            lemma_merged_list_of_same(field.parts, parts_of(fields, field.name), merged.parts);
        }
    } else if field.class is Union {
        lemma_merged_union_of_same(fields, field, merged);
    }
}

/// Clearing takes all metadata away, of a schema and of each of its fields, and nothing
/// else.
pub proof fn law_clearing_takes_metadata_away(schema: SchemaView, i: int)
    ensures
        cleared(schema).metadata == Map::<Seq<char>, Seq<char>>::empty(),
        cleared(schema).fields.len() == schema.fields.len(),
        0 <= i < schema.fields.len() ==> {
            let field = cleared(schema).fields[i];
            &&& field.metadata == Map::<Seq<char>, Seq<char>>::empty()
            &&& field.name == schema.fields[i].name
            &&& field.data_type == schema.fields[i].data_type
            &&& field.class == schema.fields[i].class
            &&& field.parts == schema.fields[i].parts
            &&& field.part_ids == schema.fields[i].part_ids
            &&& field.is_dense == schema.fields[i].is_dense
            &&& field.nullable == schema.fields[i].nullable
            &&& field.dict_id == schema.fields[i].dict_id
            &&& field.dict_is_ordered == schema.fields[i].dict_is_ordered
        },
{
}

/// The schemas that are merged are those of the files where their metadata counts, and
/// those without any metadata where it is skipped.
pub proof fn law_schemas_that_are_merged(schemas: Seq<SchemaView>, i: int, f: int)
    ensures
        schemas_to_merge(schemas, false) == schemas,
        schemas_to_merge(schemas, true).len() == schemas.len(),
        0 <= i < schemas.len() ==> {
            let schema = schemas_to_merge(schemas, true)[i];
            &&& schema.metadata == Map::<Seq<char>, Seq<char>>::empty()
            &&& schema.fields.len() == schemas[i].fields.len()
            &&& 0 <= f < schema.fields.len() ==> {
                &&& schema.fields[f].metadata == Map::<Seq<char>, Seq<char>>::empty()
                &&& schema.fields[f] == (FieldView {
                    metadata: schema.fields[f].metadata,
                    ..schemas[i].fields[f]
                })
            }
        },
{
}

/// Where metadata is skipped, what comes of a merge has none, and neither has any of its
/// fields.
pub proof fn law_merge_without_metadata(schemas: Seq<SchemaView>, merged: SchemaView, f: int)
    requires
        is_merge(schemas_to_merge(schemas, true), merged),
    ensures
        merged.metadata == Map::<Seq<char>, Seq<char>>::empty(),
        0 <= f < merged.fields.len() ==> merged.fields[f].metadata == Map::<
            Seq<char>,
            Seq<char>,
        >::empty(),
{
    law_skipped_metadata_is_gone(schemas, merged);
    law_clearing_takes_metadata_away(merged, f);
}

/// The columns of a table are the fields of its schema, in their order, each with its
/// name and with the type whose bounds it can take.
pub proof fn law_columns_of_schema(schema: SchemaView, i: int)
    requires
        0 <= i < schema.fields.len(),
    ensures
        schema_columns(schema).len() == schema.fields.len(),
        schema_columns(schema)[i].name == schema.fields[i].name,
        match schema.fields[i].class {
            TypeClass::Boolean => schema_columns(schema)[i].kind == DataKind::Boolean,
            TypeClass::Int32 => schema_columns(schema)[i].kind == DataKind::Int32,
            TypeClass::Int64 => schema_columns(schema)[i].kind == DataKind::Int64,
            TypeClass::Float32 => schema_columns(schema)[i].kind == DataKind::Float32,
            TypeClass::Float64 => schema_columns(schema)[i].kind == DataKind::Float64,
            TypeClass::Struct => schema_columns(schema)[i].kind == DataKind::Other,
            TypeClass::Union => schema_columns(schema)[i].kind == DataKind::Other,
            TypeClass::Other => schema_columns(schema)[i].kind == DataKind::Other,
        },
        field_names(schema).len() == schema.fields.len(),
        field_names(schema)[i] == schema.fields[i].name,
{
}

} // verus!
