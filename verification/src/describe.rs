//! Endpoints as JSON, for introspection.

use vstd::prelude::*;
use vstd::string::*;

use crate::dataset::Disposition;
use crate::json::{self, Json, JsonView, Member, Number, NumberView};
use crate::page::ListStrategy;
use crate::providers::sql::projection;
use crate::registry;
use crate::router::{self, EndpointInfo, EndpointView, Metadata, MetadataView, Method};
use crate::schema::{self, Annotations, DataType, Field, FieldView, Schema, TypeView};
use crate::text;

verus! {

// === Models ===

/// The names of the notes, in order.
pub open spec fn note_names(notes: Map<Seq<char>, Seq<char>>) -> Seq<Seq<char>> {
    choose|names: Seq<Seq<char>>| registry::is_listing(names, notes.dom())
}

/// The notes on a field as JSON, in the order of their names.
pub open spec fn notes_json(notes: Map<Seq<char>, Seq<char>>) -> JsonView {
    JsonView::Object(
        note_names(notes).map_values(|name: Seq<char>| (name, JsonView::Str(notes[name]))),
    )
}

/// The JSON Schema of a type that is known by one word.
pub open spec fn type_word(word: Seq<char>) -> Seq<(Seq<char>, JsonView)> {
    seq![("type"@, JsonView::Str(word))]
}

/// The JSON Schema of text of a known format.
pub open spec fn format_word(word: Seq<char>) -> Seq<(Seq<char>, JsonView)> {
    seq![("format"@, JsonView::Str(word)), ("type"@, JsonView::Str("string"@))]
}

/// The members of the JSON Schema of a data type. A column of JSON may hold anything.
pub open spec fn type_members(data_type: TypeView) -> Seq<(Seq<char>, JsonView)>
    decreases data_type,
{
    match data_type {
        TypeView::Bool => type_word("boolean"@),
        TypeView::Int64 => type_word("integer"@),
        TypeView::UInt64 => seq![
            ("minimum"@, JsonView::Number(NumberView::PosInt(0))),
            ("type"@, JsonView::Str("integer"@)),
        ],
        TypeView::Float64 => type_word("number"@),
        TypeView::String => type_word("string"@),
        TypeView::Bytes => seq![
            ("contentEncoding"@, JsonView::Str("base64"@)),
            ("type"@, JsonView::Str("string"@)),
        ],
        TypeView::Timestamp => format_word("date-time"@),
        TypeView::Date => format_word("date"@),
        TypeView::Decimal => format_word("decimal"@),
        TypeView::Json => Seq::empty(),
        TypeView::List(inner) => seq![
            ("items"@, JsonView::Object(type_members(*inner))),
            ("type"@, JsonView::Str("array"@)),
        ],
        TypeView::Struct(fields) => seq![
            (
                "properties"@,
                JsonView::Object(
                    Seq::new(
                        fields.len(),
                        |i: int|
                            if 0 <= i < fields.len() {
                                field_schema(fields[i])
                            } else {
                                arbitrary()
                            },
                    ),
                ),
            ),
            ("required"@, JsonView::Array(names_json(required(fields)))),
            ("type"@, JsonView::Str("object"@)),
        ],
    }
}

/// A field in the properties of an object: its name, over the JSON Schema of its values and the
/// notes on it. A field that may be null takes null beside its type.
pub open spec fn field_schema(field: FieldView) -> (Seq<char>, JsonView)
    decreases field,
{
    let members = type_members(field.data_type);
    let values = if field.nullable {
        seq![
            (
                "anyOf"@,
                JsonView::Array(
                    seq![JsonView::Object(members), JsonView::Object(type_word("null"@))],
                ),
            ),
        ]
    } else {
        members
    };
    (
        field.name,
        JsonView::Object(
            if field.annotations.dom().is_empty() {
                values
            } else {
                seq![("annotations"@, notes_json(field.annotations))] + values
            },
        ),
    )
}

/// The names of the fields that may not be null.
pub open spec fn required(fields: Seq<FieldView>) -> Seq<Seq<char>>
    decreases fields.len(),
{
    if fields.len() == 0 {
        Seq::empty()
    } else {
        let before = required(fields.drop_last());
        if fields.last().nullable {
            before
        } else {
            before.push(fields.last().name)
        }
    }
}

/// The properties of an object with the fields.
pub open spec fn properties(fields: Seq<FieldView>) -> Seq<(Seq<char>, JsonView)> {
    fields.map_values(|field: FieldView| field_schema(field))
}

/// A schema as JSON Schema: that of an object with its fields.
pub open spec fn schema_json(fields: Seq<FieldView>) -> JsonView {
    JsonView::Object(
        seq![
            ("properties"@, JsonView::Object(properties(fields))),
            ("required"@, JsonView::Array(names_json(required(fields)))),
            ("type"@, JsonView::Str("object"@)),
        ],
    )
}

/// The word of a verb.
pub open spec fn method_word(method: Method) -> Seq<char> {
    match method {
        Method::Get => "get"@,
        Method::List => "list"@,
        Method::Create => "create"@,
        Method::Put => "put"@,
    }
}

/// How an endpoint is walked, as JSON; null where it is not.
pub open spec fn strategy_json(strategy: Option<ListStrategy>) -> JsonView {
    match strategy {
        Some(ListStrategy::Offset) => JsonView::Str("Offset"@),
        Some(ListStrategy::NextLink) => JsonView::Str("NextLink"@),
        None => JsonView::Null,
    }
}

/// A disposition as JSON.
pub open spec fn disposition_json(disposition: Disposition) -> JsonView {
    match disposition {
        Disposition::Append => JsonView::Str("Append"@),
        Disposition::Merge => JsonView::Str("Merge"@),
    }
}

/// A text as JSON; null where there is none.
pub open spec fn text_json(value: Option<Seq<char>>) -> JsonView {
    match value {
        Some(value) => JsonView::Str(value),
        None => JsonView::Null,
    }
}

/// What is declared of an endpoint, as JSON.
pub open spec fn metadata_json(metadata: MetadataView) -> JsonView {
    JsonView::Object(
        seq![
            ("strategy"@, strategy_json(metadata.strategy)),
            ("disposition"@, disposition_json(metadata.disposition)),
            ("queryable"@, JsonView::Bool(metadata.queryable)),
            ("description"@, text_json(metadata.description)),
        ],
    )
}

/// Names as JSON.
pub open spec fn names_json(names: Seq<Seq<char>>) -> Seq<JsonView> {
    names.map_values(|name: Seq<char>| JsonView::Str(name))
}

/// The body of a request as JSON Schema; null where the endpoint takes none.
pub open spec fn body_json(body: Option<Seq<FieldView>>) -> JsonView {
    match body {
        Some(fields) => schema_json(fields),
        None => JsonView::Null,
    }
}

/// An endpoint as JSON.
pub open spec fn endpoint_json(endpoint: EndpointView) -> JsonView {
    JsonView::Object(
        seq![
            ("method"@, JsonView::Str(method_word(endpoint.method))),
            ("path"@, JsonView::Str(endpoint.path)),
            ("params"@, JsonView::Array(names_json(endpoint.params))),
            ("body"@, body_json(endpoint.body)),
            ("response"@, schema_json(endpoint.response)),
            ("metadata"@, metadata_json(endpoint.metadata)),
        ],
    )
}

/// Endpoints as JSON.
pub open spec fn endpoints_json(endpoints: Seq<EndpointView>) -> JsonView {
    JsonView::Array(endpoints.map_values(|endpoint: EndpointView| endpoint_json(endpoint)))
}

// === Code ===

/// A member of an object.
fn member(key: &str, value: Json) -> (r: Member)
    ensures
        r@ == (key@, value@),
{
    Member { key: key.to_string(), value }
}

/// The object of the members.
fn object(members: Vec<Member>) -> (r: Json)
    ensures
        r@ == JsonView::Object(json::member_views(members@)),
{
    let r = Json::Object(members);
    proof {
        json::lemma_json_view(r);
    }
    r
}

/// The array of the items.
fn array(items: Vec<Json>) -> (r: Json)
    ensures
        r@ == JsonView::Array(json::json_views(items@)),
{
    let r = Json::Array(items);
    proof {
        json::lemma_json_view(r);
    }
    r
}

/// A text as JSON.
fn word(text: &str) -> (r: Json)
    ensures
        r@ == JsonView::Str(text@),
{
    Json::Str(text.to_string())
}

/// The notes on a field as JSON.
fn describe_notes(annotations: &Annotations) -> (r: Json)
    ensures
        r@ == notes_json(annotations@),
{
    broadcast use vstd::seq_lib::group_to_multiset_ensures;

    let ghost all = annotations.entries.deep_view();
    let mut found: Vec<String> = Vec::new();
    let mut i: usize = 0;
    assert(all.take(0) =~= Seq::empty());
    assert(found.deep_view().to_set() =~= schema::notes(all.take(0)).dom());
    while i < annotations.entries.len()
        invariant
            i <= annotations.entries.len(),
            all == annotations.entries.deep_view(),
            found.deep_view().no_duplicates(),
            found.deep_view().to_set() == schema::notes(all.take(i as int)).dom(),
        decreases annotations.entries.len() - i,
    {
        let ghost before = found.deep_view();
        let ghost key = all[i as int].0;
        assert(all.take(i + 1).drop_last() =~= all.take(i as int));
        assert(all[i as int] == (
            annotations.entries@[i as int].0@,
            annotations.entries@[i as int].1@,
        ));
        if !projection::has_name(&found, annotations.entries[i].0.as_str()) {
            found.push(annotations.entries[i].0.clone());
            assert(found.deep_view() =~= before.push(key));
            assert(found.deep_view().to_set() =~= before.to_set().insert(key)) by {
                assert forall|name: Seq<char>| #[trigger] before.push(key).to_set().contains(
                    name,
                ) == before.to_set().insert(key).contains(name) by {
                    if before.contains(name) {
                        let k = choose|k: int| 0 <= k < before.len() && before[k] == name;
                        assert(before.push(key)[k] == name);
                    }
                    assert(before.push(key)[before.len() as int] == key);
                }
            }
        } else {
            assert(before.to_set().contains(key));
            assert(before.to_set() =~= before.to_set().insert(key));
        }
        assert(found.deep_view().to_set() =~= schema::notes(all.take(i + 1)).dom());
        i = i + 1;
    }
    assert(all.take(i as int) =~= all);
    let names = text::sort(&found);
    let ghost order = names.deep_view();
    proof {
        registry::lemma_same_items(order, found.deep_view());
        assert(registry::is_listing(order, annotations@.dom()));
        registry::listings_are_unique(order, note_names(annotations@), annotations@.dom());
    }
    let ghost model = notes_json(annotations@)->Object_0;
    let mut members: Vec<Member> = Vec::new();
    let mut k: usize = 0;
    while k < names.len()
        invariant
            k <= names.len(),
            order == names.deep_view(),
            order == note_names(annotations@),
            order.to_set() == annotations@.dom(),
            model == notes_json(annotations@)->Object_0,
            json::member_views(members@) == model.take(k as int),
        decreases names.len() - k,
    {
        let ghost before = json::member_views(members@);
        assert(order[k as int] == names@[k as int]@);
        assert(order.to_set().contains(order[k as int]));
        let value = match annotations.get(names[k].as_str()) {
            Some(value) => word(value),
            None => Json::Null,
        };
        let note = member(names[k].as_str(), value);
        members.push(note);
        assert(json::member_views(members@) =~= before.push(note@));
        assert(json::member_views(members@) =~= model.take(k + 1));
        k = k + 1;
    }
    assert(json::member_views(members@) =~= model);
    object(members)
}

/// The JSON Schema of a type that is known by one word.
fn typed(name: &str) -> (r: Vec<Member>)
    ensures
        json::member_views(r@) == type_word(name@),
{
    let r = vec![member("type", word(name))];
    assert(json::member_views(r@) =~= type_word(name@));
    r
}

/// The JSON Schema of text of a known format.
fn formatted(name: &str) -> (r: Vec<Member>)
    ensures
        json::member_views(r@) == format_word(name@),
{
    let r = vec![member("format", word(name)), member("type", word("string"))];
    assert(json::member_views(r@) =~= format_word(name@));
    r
}

/// The members of the JSON Schema of a data type.
fn describe_type(data_type: &DataType) -> (r: Vec<Member>)
    ensures
        json::member_views(r@) == type_members(data_type@),
    decreases data_type, 0int,
{
    let ghost model = type_members(data_type@);
    match data_type {
        DataType::Bool => typed("boolean"),
        DataType::Int64 => typed("integer"),
        DataType::UInt64 => {
            let r = vec![
                member("minimum", Json::Number(Number::PosInt(0))),
                member("type", word("integer")),
            ];
            assert(json::member_views(r@) =~= model);
            r
        },
        DataType::Float64 => typed("number"),
        DataType::String => typed("string"),
        DataType::Bytes => {
            let r = vec![
                member("contentEncoding", word("base64")),
                member("type", word("string")),
            ];
            assert(json::member_views(r@) =~= model);
            r
        },
        DataType::Timestamp => formatted("date-time"),
        DataType::Date => formatted("date"),
        DataType::Decimal => formatted("decimal"),
        DataType::Json => {
            let r: Vec<Member> = Vec::new();
            assert(json::member_views(r@) =~= model);
            r
        },
        DataType::List(inner) => {
            let items = describe_type(inner);
            let r = vec![member("items", object(items)), member("type", word("array"))];
            assert(json::member_views(r@) =~= model);
            r
        },
        DataType::Struct(fields) => {
            let r = describe_object(fields);
            proof {
                schema::lemma_type_view(*data_type);
                let parts = schema::field_views(fields@);
                assert(data_type@ == TypeView::Struct(parts));
                assert(model[0].1->Object_0 =~= properties(parts));
                assert(json::member_views(r@) =~= model);
            }
            r
        },
    }
}

/// A field in the properties of an object.
fn describe_field(field: &Field) -> (r: Member)
    ensures
        r@ == field_schema(field@),
    decreases field, 0int,
{
    let members = describe_type(&field.data_type);
    let ghost plain = json::member_views(members@);
    let mut values: Vec<Member> = if field.nullable {
        let options = vec![object(members), object(typed("null"))];
        assert(json::json_views(options@) =~= seq![
            JsonView::Object(plain),
            JsonView::Object(type_word("null"@)),
        ]);
        let r = vec![member("anyOf", array(options))];
        assert(json::member_views(r@) =~= seq![
            (
                "anyOf"@,
                JsonView::Array(
                    seq![JsonView::Object(plain), JsonView::Object(type_word("null"@))],
                ),
            ),
        ]);
        r
    } else {
        members
    };
    let ghost unnoted = json::member_views(values@);
    let ghost entries = field.annotations.entries.deep_view();
    if field.annotations.entries.len() > 0 {
        let mut noted = vec![member("annotations", describe_notes(&field.annotations))];
        noted.append(&mut values);
        proof {
            assert(entries.len() > 0);
            assert(field.annotations@.dom().contains(entries.last().0));
            assert(json::member_views(noted@) =~= seq![
                ("annotations"@, notes_json(field.annotations@)),
            ] + unnoted);
        }
        member(field.name.as_str(), object(noted))
    } else {
        assert(field.annotations@.dom() =~= Set::empty());
        member(field.name.as_str(), object(values))
    }
}

/// The members of the JSON Schema of an object with the fields.
fn describe_object(fields: &Vec<Field>) -> (r: Vec<Member>)
    ensures
        json::member_views(r@) == schema_json(schema::field_views(fields@))->Object_0,
    decreases fields, 1int,
{
    let ghost all = schema::field_views(fields@);
    let ghost model = properties(all);
    let mut members: Vec<Member> = Vec::new();
    let mut names: Vec<String> = Vec::new();
    let mut i: usize = 0;
    assert(all.take(0) =~= Seq::empty());
    assert(names.deep_view() =~= Seq::empty());
    while i < fields.len()
        invariant
            i <= fields.len(),
            all == schema::field_views(fields@),
            model == properties(all),
            json::member_views(members@) == model.take(i as int),
            names.deep_view() == required(all.take(i as int)),
        decreases fields.len() - i,
    {
        let ghost before = json::member_views(members@);
        let ghost told = names.deep_view();
        assert(all[i as int] == fields@[i as int]@);
        assert(all.take(i + 1).drop_last() =~= all.take(i as int));
        let property = describe_field(&fields[i]);
        members.push(property);
        assert(json::member_views(members@) =~= before.push(property@));
        assert(json::member_views(members@) =~= model.take(i + 1));
        if !fields[i].nullable {
            let name = fields[i].name.clone();
            names.push(name);
            assert(names.deep_view() =~= told.push(name@));
        }
        i = i + 1;
    }
    assert(json::member_views(members@) =~= model);
    assert(all.take(i as int) =~= all);
    let r = vec![
        member("properties", object(members)),
        member("required", array(describe_names(&names))),
        member("type", word("object")),
    ];
    assert(json::member_views(r@) =~= schema_json(all)->Object_0);
    r
}

impl Schema {
    /// The schema as JSON Schema: that of an object with its fields.
    pub fn to_json_schema(&self) -> (r: Json)
        ensures
            r@ == schema_json(self@),
    {
        object(describe_object(&self.fields))
    }
}

/// What is declared of an endpoint, as JSON.
fn describe_metadata(metadata: &Metadata) -> (r: Json)
    ensures
        r@ == metadata_json(metadata@),
{
    let strategy = match metadata.strategy {
        Some(ListStrategy::Offset) => word("Offset"),
        Some(ListStrategy::NextLink) => word("NextLink"),
        None => Json::Null,
    };
    let disposition = match metadata.disposition {
        Disposition::Append => word("Append"),
        Disposition::Merge => word("Merge"),
    };
    let description = match &metadata.description {
        Some(text) => word(text.as_str()),
        None => Json::Null,
    };
    let members = vec![
        member("strategy", strategy),
        member("disposition", disposition),
        member("queryable", Json::Bool(metadata.queryable)),
        member("description", description),
    ];
    assert(json::member_views(members@) =~= metadata_json(metadata@)->Object_0);
    object(members)
}

/// Names as JSON.
fn describe_names(names: &Vec<String>) -> (r: Vec<Json>)
    ensures
        json::json_views(r@) == names_json(names.deep_view()),
{
    let ghost model = names_json(names.deep_view());
    let mut items: Vec<Json> = Vec::new();
    let mut i: usize = 0;
    while i < names.len()
        invariant
            i <= names.len(),
            model == names_json(names.deep_view()),
            json::json_views(items@) == model.take(i as int),
        decreases names.len() - i,
    {
        let ghost before = json::json_views(items@);
        let item = word(names[i].as_str());
        items.push(item);
        assert(json::json_views(items@) =~= before.push(item@));
        assert(json::json_views(items@) =~= model.take(i + 1));
        i = i + 1;
    }
    assert(json::json_views(items@) =~= model);
    items
}

/// An endpoint as JSON.
pub fn describe_endpoint(endpoint: &EndpointInfo) -> (r: Json)
    ensures
        r@ == endpoint_json(endpoint@),
{
    let method = match endpoint.method {
        Method::Get => "get",
        Method::List => "list",
        Method::Create => "create",
        Method::Put => "put",
    };
    let params = describe_names(&endpoint.params);
    let body = match &endpoint.body {
        Some(body) => body.to_json_schema(),
        None => Json::Null,
    };
    let members = vec![
        member("method", word(method)),
        member("path", word(endpoint.path.as_str())),
        member("params", array(params)),
        member("body", body),
        member("response", endpoint.response.to_json_schema()),
        member("metadata", describe_metadata(&endpoint.metadata)),
    ];
    assert(json::member_views(members@) =~= endpoint_json(endpoint@)->Object_0);
    object(members)
}

/// Endpoints as JSON.
pub fn describe_endpoints(endpoints: &Vec<EndpointInfo>) -> (r: Json)
    ensures
        r@ == endpoints_json(router::endpoint_views(endpoints@)),
{
    let ghost model = endpoints_json(router::endpoint_views(endpoints@))->Array_0;
    let mut items: Vec<Json> = Vec::new();
    let mut i: usize = 0;
    while i < endpoints.len()
        invariant
            i <= endpoints.len(),
            model == endpoints_json(router::endpoint_views(endpoints@))->Array_0,
            json::json_views(items@) == model.take(i as int),
        decreases endpoints.len() - i,
    {
        let ghost before = json::json_views(items@);
        assert(router::endpoint_views(endpoints@)[i as int] == endpoints@[i as int]@);
        let item = describe_endpoint(&endpoints[i]);
        items.push(item);
        assert(json::json_views(items@) =~= before.push(item@));
        assert(json::json_views(items@) =~= model.take(i + 1));
        i = i + 1;
    }
    assert(json::json_views(items@) =~= model);
    array(items)
}


// === Laws ===

/// The schema of a data type tells it apart: a truth value, an integer, one that is not negative, a
/// number, text, text that writes bytes, a moment, a day or a decimal, an array, an object; and
/// JSON is described by nothing.
pub proof fn described_types_say_what_they_are(data_type: TypeView)
    ensures
        ({
            let described = JsonView::Object(type_members(data_type));
            let word = match data_type {
                TypeView::Bool => Some("boolean"@),
                TypeView::Int64 | TypeView::UInt64 => Some("integer"@),
                TypeView::Float64 => Some("number"@),
                TypeView::Json => None,
                TypeView::List(_) => Some("array"@),
                TypeView::Struct(_) => Some("object"@),
                _ => Some("string"@),
            };
            let format = match data_type {
                TypeView::Timestamp => Some("date-time"@),
                TypeView::Date => Some("date"@),
                TypeView::Decimal => Some("decimal"@),
                _ => None,
            };
            &&& described.member("type"@) == match word {
                Some(word) => Some(JsonView::Str(word)),
                None => None,
            }
            &&& described.member("format"@) == match format {
                Some(format) => Some(JsonView::Str(format)),
                None => None,
            }
            &&& described.member("minimum"@) == if data_type is UInt64 {
                Some(JsonView::Number(NumberView::PosInt(0)))
            } else {
                None
            }
            &&& described.member("contentEncoding"@) == if data_type is Bytes {
                Some(JsonView::Str("base64"@))
            } else {
                None
            }
            &&& match data_type {
                TypeView::List(inner) => described.member("items"@) == Some(
                    JsonView::Object(type_members(*inner)),
                ),
                _ => described.member("items"@) is None,
            }
            &&& match data_type {
                TypeView::Struct(fields) => described == schema_json(fields),
                _ => described.member("properties"@) is None,
            }
        }),
{
    reveal_strlit("type");
    reveal_strlit("format");
    reveal_strlit("minimum");
    reveal_strlit("contentEncoding");
    reveal_strlit("items");
    reveal_strlit("properties");
    reveal_strlit("required");
    assert("type"@.len() == 4 && "format"@.len() == 6 && "minimum"@.len() == 7);
    assert("contentEncoding"@.len() == 15 && "items"@.len() == 5 && "properties"@.len() == 10);
    assert("required"@.len() == 8);
    let members = type_members(data_type);
    reveal_with_fuel(json::member_at, 4);
    match data_type {
        TypeView::Struct(fields) => {
            assert(members =~= schema_json(fields)->Object_0) by {
                assert(members[0].1->Object_0 =~= properties(fields));
            }
        },
        _ => {},
    }
    assert(members.len() > 0 ==> members.drop_first() =~= members.skip(1));
    assert(members.len() > 1 ==> members.drop_first().drop_first() =~= members.skip(2));
}

/// The fields that are required are those that may not be null, in order.
pub proof fn fields_that_may_not_be_null_are_required(fields: Seq<FieldView>)
    ensures
        required(fields) == fields.filter(|field: FieldView| !field.nullable).map_values(
            |field: FieldView| field.name,
        ),
    decreases fields.len(),
{
    reveal(Seq::filter);
    let kept = |field: FieldView| !field.nullable;
    let name = |field: FieldView| field.name;
    if fields.len() > 0 {
        fields_that_may_not_be_null_are_required(fields.drop_last());
        let before = fields.drop_last().filter(kept).map_values(name);
        if kept(fields.last()) {
            assert(fields.filter(kept).map_values(name) =~= before.push(fields.last().name));
        }
    } else {
        assert(fields.filter(kept).map_values(name) =~= Seq::empty());
    }
}

/// A field is described under its name: by its type where it may not be null, by its type or null
/// where it may, and in either case with its notes where it has any.
pub proof fn fields_are_described_by_name(field: FieldView)
    ensures
        ({
            let (name, described) = field_schema(field);
            let plain = JsonView::Object(type_members(field.data_type));
            let null = JsonView::Object(seq![("type"@, JsonView::Str("null"@))]);
            let noted = !field.annotations.dom().is_empty();
            &&& name == field.name
            &&& described is Object
            &&& !noted && !field.nullable ==> described == plain
            &&& described.member("annotations"@) == if noted {
                Some(notes_json(field.annotations))
            } else {
                None
            }
            &&& field.nullable ==> described.member("anyOf"@) == Some(
                JsonView::Array(seq![plain, null]),
            )
            &&& !field.nullable ==> described.member("anyOf"@) is None && described.member(
                "type"@,
            ) == plain.member("type"@)
        }),
{
    reveal_strlit("type");
    reveal_strlit("anyOf");
    reveal_strlit("annotations");
    reveal_strlit("format");
    reveal_strlit("minimum");
    reveal_strlit("contentEncoding");
    reveal_strlit("items");
    reveal_strlit("properties");
    reveal_strlit("required");
    assert("type"@.len() == 4 && "format"@.len() == 6 && "minimum"@.len() == 7);
    assert("contentEncoding"@.len() == 15 && "items"@.len() == 5 && "properties"@.len() == 10);
    assert("required"@.len() == 8 && "anyOf"@.len() == 5 && "annotations"@.len() == 11);
    assert("anyOf"@[0] == 'a' && "items"@[0] == 'i');
    reveal_with_fuel(json::member_at, 5);
    let members = type_members(field.data_type);
    let described = field_schema(field).1->Object_0;
    if !field.annotations.dom().is_empty() {
        let values = if field.nullable {
            seq![
                (
                    "anyOf"@,
                    JsonView::Array(
                        seq![JsonView::Object(members), JsonView::Object(type_word("null"@))],
                    ),
                ),
            ]
        } else {
            members
        };
        assert(described.drop_first() =~= values);
    }
}

/// The notes of a field are told by name, each once, with what they say.
pub proof fn notes_are_told_by_name(notes: Map<Seq<char>, Seq<char>>, name: Seq<char>)
    requires
        exists|names: Seq<Seq<char>>| registry::is_listing(names, notes.dom()),
    ensures
        notes_json(notes) is Object,
        notes_json(notes)->Object_0.len() == note_names(notes).len(),
        notes_json(notes).member(name) == if notes.contains_key(name) {
            Some(JsonView::Str(notes[name]))
        } else {
            None
        },
{
    let names = note_names(notes);
    let members = notes_json(notes)->Object_0;
    assert(registry::is_listing(names, notes.dom()));
    json::lemma_member_at(members, name);
    let at = json::member_at(members, name) as int;
    if at < members.len() {
        assert(members[at].0 == names[at]);
        assert(names.contains(names[at]));
        assert(names.to_set().contains(name));
    } else if notes.contains_key(name) {
        assert(names.to_set().contains(name));
        let i = choose|i: int| 0 <= i < names.len() && names[i] == name;
        assert(members[i].0 == name);
    }
}

/// An object has its fields under `properties`, in order, and tells which of them are required.
pub proof fn objects_have_their_fields(fields: Seq<FieldView>, i: int)
    ensures
        ({
            let described = schema_json(fields);
            &&& described.member("type"@) == Some(JsonView::Str("object"@))
            &&& described.member("properties"@) == Some(JsonView::Object(properties(fields)))
            &&& properties(fields).len() == fields.len()
            &&& 0 <= i < fields.len() ==> properties(fields)[i] == field_schema(fields[i])
            &&& described.member("required"@) is Some
            &&& described.member("required"@)->0 is Array
            &&& described.member("required"@)->0->Array_0.len() == required(fields).len()
            &&& 0 <= i < required(fields).len() ==> described.member("required"@)->0->Array_0[i]
                == JsonView::Str(required(fields)[i])
        }),
{
    reveal_strlit("type");
    reveal_strlit("properties");
    reveal_strlit("required");
    assert("type"@.len() == 4 && "properties"@.len() == 10 && "required"@.len() == 8);
    let members = schema_json(fields)->Object_0;
    json::lemma_member_at_is(members, "properties"@, 0);
    json::lemma_member_at_is(members, "required"@, 1);
    json::lemma_member_at_is(members, "type"@, 2);
}

/// An endpoint is described by its verb, its path, its params, its body where it takes one, its
/// rows, and what is declared of it, each under its name.
pub proof fn endpoints_are_described_whole(endpoint: EndpointView, i: int)
    ensures
        ({
            let described = endpoint_json(endpoint);
            let declared = described.member("metadata"@)->0;
            let word = match endpoint.method {
                Method::Get => "get"@,
                Method::List => "list"@,
                Method::Create => "create"@,
                Method::Put => "put"@,
            };
            &&& described.member("method"@) == Some(JsonView::Str(word))
            &&& described.member("path"@) == Some(JsonView::Str(endpoint.path))
            &&& described.member("params"@) is Some
            &&& described.member("params"@)->0 is Array
            &&& described.member("params"@)->0->Array_0.len() == endpoint.params.len()
            &&& 0 <= i < endpoint.params.len() ==> described.member("params"@)->0->Array_0[i]
                == JsonView::Str(endpoint.params[i])
            &&& described.member("body"@) == Some(
                match endpoint.body {
                    Some(fields) => schema_json(fields),
                    None => JsonView::Null,
                },
            )
            &&& described.member("response"@) == Some(schema_json(endpoint.response))
            &&& described.member("metadata"@) is Some
            &&& declared.member("strategy"@) == Some(
                match endpoint.metadata.strategy {
                    Some(ListStrategy::Offset) => JsonView::Str("Offset"@),
                    Some(ListStrategy::NextLink) => JsonView::Str("NextLink"@),
                    None => JsonView::Null,
                },
            )
            &&& declared.member("disposition"@) == Some(
                JsonView::Str(
                    if endpoint.metadata.disposition == Disposition::Merge {
                        "Merge"@
                    } else {
                        "Append"@
                    },
                ),
            )
            &&& declared.member("queryable"@) == Some(JsonView::Bool(endpoint.metadata.queryable))
            &&& declared.member("description"@) == Some(
                match endpoint.metadata.description {
                    Some(text) => JsonView::Str(text),
                    None => JsonView::Null,
                },
            )
        }),
{
    reveal_strlit("method");
    reveal_strlit("path");
    reveal_strlit("params");
    reveal_strlit("body");
    reveal_strlit("response");
    reveal_strlit("metadata");
    assert("method"@.len() == 6 && "path"@.len() == 4 && "params"@.len() == 6 && "body"@.len()
        == 4 && "response"@.len() == 8 && "metadata"@.len() == 8);
    assert("method"@[0] == 'm' && "params"@[0] == 'p' && "path"@[0] == 'p' && "body"@[0] == 'b');
    assert("response"@[0] == 'r' && "metadata"@[0] == 'm');
    let members = endpoint_json(endpoint)->Object_0;
    json::lemma_member_at_is(members, "method"@, 0);
    json::lemma_member_at_is(members, "path"@, 1);
    json::lemma_member_at_is(members, "params"@, 2);
    json::lemma_member_at_is(members, "body"@, 3);
    json::lemma_member_at_is(members, "response"@, 4);
    json::lemma_member_at_is(members, "metadata"@, 5);
    reveal_strlit("strategy");
    reveal_strlit("disposition");
    reveal_strlit("queryable");
    reveal_strlit("description");
    assert("strategy"@.len() == 8 && "disposition"@.len() == 11 && "queryable"@.len() == 9
        && "description"@.len() == 11);
    assert("disposition"@[2] == 's' && "description"@[2] == 's');
    assert("disposition"@[1] == 'i' && "description"@[1] == 'e');
    let declared = metadata_json(endpoint.metadata)->Object_0;
    json::lemma_member_at_is(declared, "strategy"@, 0);
    json::lemma_member_at_is(declared, "disposition"@, 1);
    json::lemma_member_at_is(declared, "queryable"@, 2);
    json::lemma_member_at_is(declared, "description"@, 3);
}

/// Every endpoint is described, in order.
pub proof fn every_endpoint_is_described(endpoints: Seq<EndpointView>, i: int)
    ensures
        endpoints_json(endpoints) is Array,
        endpoints_json(endpoints)->Array_0.len() == endpoints.len(),
        0 <= i < endpoints.len() ==> endpoints_json(endpoints)->Array_0[i] == endpoint_json(
            endpoints[i],
        ),
{
}

} // verus!
