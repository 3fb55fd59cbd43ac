//! The schema model: what the rows of a dataset look like.
//!
//! A schema is a list of fields. Each field has a name, a data type, whether it may be
//! null, and annotations: named notes that travel with it, such as `key` and `cursor`.

use vstd::prelude::*;
use vstd::string::*;

use crate::text;

verus! {

/// The annotation that marks a key field.
pub const KEY: &'static str = "key";

/// The annotation that marks the cursor field.
pub const CURSOR: &'static str = "cursor";

/// The type of a field.
#[derive(Debug)]
pub enum DataType {
    Bool,
    Int64,
    UInt64,
    Float64,
    String,
    Bytes,
    Timestamp,
    Date,
    Decimal,
    Json,
    List(Box<DataType>),
    Struct(Vec<Field>),
}

/// One column of a dataset.
#[derive(Debug)]
pub struct Field {
    pub name: String,
    pub data_type: DataType,
    pub nullable: bool,
    pub annotations: Annotations,
}

/// The notes on a field, by name. Where a name stands twice, the later note counts.
#[derive(Debug)]
pub struct Annotations {
    pub entries: Vec<(String, String)>,
}

/// The columns of a dataset.
#[derive(Debug)]
pub struct Schema {
    pub fields: Vec<Field>,
}

/// The model of a [`DataType`].
pub enum TypeView {
    Bool,
    Int64,
    UInt64,
    Float64,
    String,
    Bytes,
    Timestamp,
    Date,
    Decimal,
    Json,
    List(Box<TypeView>),
    Struct(Seq<FieldView>),
}

/// The model of a [`Field`].
pub struct FieldView {
    pub name: Seq<char>,
    pub data_type: TypeView,
    pub nullable: bool,
    pub annotations: Map<Seq<char>, Seq<char>>,
}

/// The notes that `entries` leave, later ones over earlier ones.
pub open spec fn notes(entries: Seq<(Seq<char>, Seq<char>)>) -> Map<Seq<char>, Seq<char>>
    decreases entries.len(),
{
    if entries.len() == 0 {
        Map::empty()
    } else {
        notes(entries.drop_last()).insert(entries.last().0, entries.last().1)
    }
}

impl View for Annotations {
    type V = Map<Seq<char>, Seq<char>>;

    open spec fn view(&self) -> Map<Seq<char>, Seq<char>> {
        notes(self.entries.deep_view())
    }
}

/// The model of `data_type`.
pub open spec fn type_view(data_type: DataType) -> TypeView
    decreases data_type,
{
    match data_type {
        DataType::Bool => TypeView::Bool,
        DataType::Int64 => TypeView::Int64,
        DataType::UInt64 => TypeView::UInt64,
        DataType::Float64 => TypeView::Float64,
        DataType::String => TypeView::String,
        DataType::Bytes => TypeView::Bytes,
        DataType::Timestamp => TypeView::Timestamp,
        DataType::Date => TypeView::Date,
        DataType::Decimal => TypeView::Decimal,
        DataType::Json => TypeView::Json,
        DataType::List(inner) => TypeView::List(Box::new(type_view(*inner))),
        DataType::Struct(fields) => TypeView::Struct(
            Seq::new(
                fields@.len(),
                |i: int|
                    if 0 <= i < fields@.len() {
                        field_view(fields@[i])
                    } else {
                        arbitrary()
                    },
            ),
        ),
    }
}

/// The model of `field`.
pub open spec fn field_view(field: Field) -> FieldView
    decreases field,
{
    FieldView {
        name: field.name@,
        data_type: type_view(field.data_type),
        nullable: field.nullable,
        annotations: field.annotations@,
    }
}

impl View for DataType {
    type V = TypeView;

    open spec fn view(&self) -> TypeView {
        type_view(*self)
    }
}

impl View for Field {
    type V = FieldView;

    open spec fn view(&self) -> FieldView {
        field_view(*self)
    }
}

/// The models of a list of fields.
pub open spec fn field_views(fields: Seq<Field>) -> Seq<FieldView> {
    fields.map_values(|field: Field| field@)
}

impl View for Schema {
    type V = Seq<FieldView>;

    open spec fn view(&self) -> Seq<FieldView> {
        field_views(self.fields@)
    }
}

/// The model of a struct type holds the models of its fields.
pub broadcast proof fn lemma_type_view(data_type: DataType)
    ensures
        match data_type {
            DataType::Struct(fields) => (#[trigger] data_type@) == TypeView::Struct(
                field_views(fields@),
            ),
            _ => true,
        },
{
    match data_type {
        DataType::Struct(fields) => {
            assert(data_type@->Struct_0 =~= field_views(fields@));
        },
        _ => {},
    }
}

impl FieldView {
    /// Whether the field is part of the key.
    pub open spec fn is_key(self) -> bool {
        self.annotations.contains_key(KEY@)
    }

    /// Whether the field orders the rows.
    pub open spec fn is_cursor(self) -> bool {
        self.annotations.contains_key(CURSOR@)
    }
}

/// The names of the fields.
pub open spec fn names(fields: Seq<FieldView>) -> Seq<Seq<char>> {
    fields.map_values(|field: FieldView| field.name)
}

/// The names of the key fields, in schema order.
pub open spec fn key_names(fields: Seq<FieldView>) -> Seq<Seq<char>>
    decreases fields.len(),
{
    if fields.len() == 0 {
        Seq::empty()
    } else if fields.last().is_key() {
        key_names(fields.drop_last()).push(fields.last().name)
    } else {
        key_names(fields.drop_last())
    }
}

/// The position of the first field named `name`; the number of fields when there is
/// none.
pub open spec fn field_at(fields: Seq<FieldView>, name: Seq<char>) -> nat
    decreases fields.len(),
{
    if fields.len() == 0 || fields[0].name == name {
        0
    } else {
        1 + field_at(fields.drop_first(), name)
    }
}

/// [`field_at`] is the position ahead of which no field has the name.
pub proof fn lemma_field_at_is(fields: Seq<FieldView>, name: Seq<char>, i: int)
    requires
        0 <= i <= fields.len(),
        forall|j: int| 0 <= j < i ==> (#[trigger] fields[j]).name != name,
        i < fields.len() ==> fields[i].name == name,
    ensures
        field_at(fields, name) == i,
    decreases fields.len(),
{
    if i > 0 {
        let rest = fields.drop_first();
        assert forall|j: int| 0 <= j < i - 1 implies (#[trigger] rest[j]).name != name by {
            assert(rest[j] == fields[j + 1]);
        }
        assert(fields[0].name != name);
        lemma_field_at_is(rest, name, i - 1);
    }
}

/// What [`field_at`] finds.
pub proof fn lemma_field_at(fields: Seq<FieldView>, name: Seq<char>)
    ensures
        field_at(fields, name) <= fields.len(),
        forall|j: int| 0 <= j < field_at(fields, name) ==> (#[trigger] fields[j]).name != name,
        field_at(fields, name) < fields.len() ==> fields[field_at(fields, name) as int].name
            == name,
    decreases fields.len(),
{
    if fields.len() > 0 && fields[0].name != name {
        let rest = fields.drop_first();
        lemma_field_at(rest, name);
        assert forall|j: int| 0 <= j < field_at(fields, name) implies (#[trigger] fields[j]).name
            != name by {
            if j > 0 {
                assert(rest[j - 1] == fields[j]);
            }
        }
    }
}

/// Replacing the note at `i`, where no later note has its name, is adding it last.
proof fn lemma_notes_update(
    entries: Seq<(Seq<char>, Seq<char>)>,
    i: int,
    key: Seq<char>,
    value: Seq<char>,
)
    requires
        0 <= i < entries.len(),
        entries[i].0 == key,
        forall|j: int| i < j < entries.len() ==> (#[trigger] entries[j]).0 != key,
    ensures
        notes(entries.update(i, (key, value))) == notes(entries).insert(key, value),
    decreases entries.len(),
{
    let next = entries.update(i, (key, value));
    if i == entries.len() - 1 {
        assert(next.drop_last() =~= entries.drop_last());
        assert(notes(next) =~= notes(entries).insert(key, value));
    } else {
        lemma_notes_update(entries.drop_last(), i, key, value);
        assert(next.drop_last() =~= entries.drop_last().update(i, (key, value)));
        assert(notes(next) =~= notes(entries).insert(key, value));
    }
}

/// A name is noted exactly when an entry has it; the last such entry says what.
proof fn lemma_notes(entries: Seq<(Seq<char>, Seq<char>)>, key: Seq<char>)
    ensures
        notes(entries).contains_key(key) <==> exists|i: int|
            0 <= i < entries.len() && (#[trigger] entries[i]).0 == key,
        forall|i: int|
            0 <= i < entries.len() && (#[trigger] entries[i]).0 == key && (forall|j: int|
                i < j < entries.len() ==> (#[trigger] entries[j]).0 != key) ==> notes(entries)[key]
                == entries[i].1,
    decreases entries.len(),
{
    if entries.len() > 0 {
        let fewer = entries.drop_last();
        lemma_notes(fewer, key);
        let last = entries.len() - 1;
        if entries[last].0 == key {
        } else {
            assert(notes(entries).contains_key(key) == notes(fewer).contains_key(key));
            if notes(fewer).contains_key(key) {
                let i = choose|i: int| 0 <= i < fewer.len() && (#[trigger] fewer[i]).0 == key;
                assert(entries[i].0 == key);
            }
            assert forall|i: int|
                0 <= i < entries.len() && (#[trigger] entries[i]).0 == key && (forall|j: int|
                    i < j < entries.len() ==> (#[trigger] entries[j]).0 != key) implies notes(
                entries,
            )[key] == entries[i].1 by {
                assert(fewer[i] == entries[i]);
                assert forall|j: int| i < j < fewer.len() implies (#[trigger] fewer[j]).0 != key by {
                    assert(entries[j].0 != key);
                }
            }
            if exists|i: int| 0 <= i < entries.len() && (#[trigger] entries[i]).0 == key {
                let i = choose|i: int| 0 <= i < entries.len() && (#[trigger] entries[i]).0 == key;
                assert(fewer[i].0 == key);
            }
        }
    }
}

impl Annotations {
    /// No annotations.
    pub fn new() -> (r: Annotations)
        ensures
            r@ == Map::<Seq<char>, Seq<char>>::empty(),
    {
        let entries: Vec<(String, String)> = Vec::new();
        Annotations { entries }
    }

    /// The position of the last entry named `key`, if there is one.
    fn last_entry(&self, key: &str) -> (r: Option<usize>)
        ensures
            match r {
                Some(i) => {
                    &&& i < self.entries.len()
                    &&& self.entries.deep_view()[i as int].0 == key@
                    &&& forall|j: int|
                        i < j < self.entries.len() ==> (#[trigger] self.entries.deep_view()[j]).0
                            != key@
                    &&& self@.contains_key(key@)
                    &&& self@[key@] == self.entries.deep_view()[i as int].1
                },
                None => !self@.contains_key(key@),
            },
    {
        let ghost all = self.entries.deep_view();
        let mut i: usize = self.entries.len();
        proof {
            lemma_notes(all, key@);
        }
        while i > 0
            invariant
                i <= self.entries.len(),
                all == self.entries.deep_view(),
                forall|j: int| i <= j < all.len() ==> (#[trigger] all[j]).0 != key@,
            decreases i,
        {
            i = i - 1;
            assert(all[i as int].0 == self.entries@[i as int].0@);
            if text::same(self.entries[i].0.as_str(), key) {
                proof {
                    lemma_notes(all, key@);
                }
                return Some(i);
            }
        }
        None
    }

    /// The note named `key`.
    pub fn get(&self, key: &str) -> (r: Option<&str>)
        ensures
            match r {
                Some(value) => self@.contains_key(key@) && self@[key@] == value@,
                None => !self@.contains_key(key@),
            },
    {
        match self.last_entry(key) {
            Some(i) => {
                assert(self.entries.deep_view()[i as int].1 == self.entries@[i as int].1@);
                Some(self.entries[i].1.as_str())
            },
            None => None,
        }
    }

    /// Notes `value` under `key`, in place of what was noted there.
    pub fn set(&mut self, key: &str, value: &str)
        ensures
            final(self)@ == old(self)@.insert(key@, value@),
    {
        let ghost before = self.entries.deep_view();
        let entry = (key.to_string(), value.to_string());
        match self.last_entry(key) {
            Some(i) => {
                proof {
                    lemma_notes_update(before, i as int, key@, value@);
                }
                self.entries[i] = entry;
                assert(self.entries.deep_view() =~= before.update(i as int, (key@, value@)));
            },
            None => {
                self.entries.push(entry);
                assert(self.entries.deep_view() =~= before.push((key@, value@)));
                assert(self.entries.deep_view().drop_last() =~= before);
            },
        }
    }
}

impl Clone for Annotations {
    fn clone(&self) -> (r: Self)
        ensures
            r@ == self@,
    {
        let mut entries: Vec<(String, String)> = Vec::new();
        let mut i: usize = 0;
        while i < self.entries.len()
            invariant
                i <= self.entries.len(),
                entries.deep_view() == self.entries.deep_view().take(i as int),
            decreases self.entries.len() - i,
        {
            let ghost before = entries.deep_view();
            let entry = (self.entries[i].0.clone(), self.entries[i].1.clone());
            entries.push(entry);
            assert(entries.deep_view() =~= before.push((entry.0@, entry.1@)));
            assert(entries.deep_view() =~= self.entries.deep_view().take(i + 1));
            i = i + 1;
        }
        assert(entries.deep_view() =~= self.entries.deep_view());
        Annotations { entries }
    }
}

impl Clone for DataType {
    fn clone(&self) -> (r: Self)
        ensures
            r@ == self@,
        decreases self, 0int,
    {
        broadcast use lemma_type_view;

        match self {
            DataType::Bool => DataType::Bool,
            DataType::Int64 => DataType::Int64,
            DataType::UInt64 => DataType::UInt64,
            DataType::Float64 => DataType::Float64,
            DataType::String => DataType::String,
            DataType::Bytes => DataType::Bytes,
            DataType::Timestamp => DataType::Timestamp,
            DataType::Date => DataType::Date,
            DataType::Decimal => DataType::Decimal,
            DataType::Json => DataType::Json,
            DataType::List(inner) => DataType::List(Box::new((**inner).clone())),
            DataType::Struct(fields) => DataType::Struct(copy_fields(fields)),
        }
    }
}

/// A copy of the fields.
pub fn copy_fields(fields: &Vec<Field>) -> (r: Vec<Field>)
    ensures
        field_views(r@) == field_views(fields@),
    decreases fields, 1int,
{
    let mut copy: Vec<Field> = Vec::new();
    let mut i: usize = 0;
    while i < fields.len()
        invariant
            i <= fields.len(),
            field_views(copy@) == field_views(fields@).take(i as int),
        decreases fields.len() - i,
    {
        let ghost before = field_views(copy@);
        let field = fields[i].clone();
        copy.push(field);
        assert(field_views(copy@) =~= before.push(field@));
        assert(field_views(copy@) =~= field_views(fields@).take(i + 1));
        i = i + 1;
    }
    assert(field_views(copy@) =~= field_views(fields@));
    copy
}

impl Clone for Field {
    fn clone(&self) -> (r: Self)
        ensures
            r@ == self@,
        decreases self, 1int,
    {
        Field {
            name: self.name.clone(),
            data_type: self.data_type.clone(),
            nullable: self.nullable,
            annotations: self.annotations.clone(),
        }
    }
}

impl Clone for Schema {
    fn clone(&self) -> (r: Self)
        ensures
            r@ == self@,
    {
        Schema { fields: copy_fields(&self.fields) }
    }
}

impl Field {
    /// A field without annotations.
    pub fn new(name: &str, data_type: DataType, nullable: bool) -> (r: Field)
        ensures
            r@ == (FieldView {
                name: name@,
                data_type: data_type@,
                nullable,
                annotations: Map::empty(),
            }),
    {
        Field { name: name.to_string(), data_type, nullable, annotations: Annotations::new() }
    }

    /// Notes `value` under `key`.
    pub fn annotate(&mut self, key: &str, value: &str)
        ensures
            final(self)@ == (FieldView {
                annotations: old(self)@.annotations.insert(key@, value@),
                ..old(self)@
            }),
    {
        self.annotations.set(key, value);
    }

    /// Whether the field is part of the key.
    pub fn is_key(&self) -> (r: bool)
        ensures
            r == self@.is_key(),
    {
        self.annotations.get(KEY).is_some()
    }

    /// Whether the field orders the rows.
    pub fn is_cursor(&self) -> (r: bool)
        ensures
            r == self@.is_cursor(),
    {
        self.annotations.get(CURSOR).is_some()
    }
}

impl Schema {
    /// The schema of the given fields.
    pub fn new(fields: Vec<Field>) -> (r: Schema)
        ensures
            r@ == field_views(fields@),
    {
        Schema { fields }
    }

    /// The names of the key fields, in schema order.
    pub fn get_key_fields(&self) -> (r: Vec<String>)
        ensures
            r.deep_view() == key_names(self@),
    {
        let mut keys: Vec<String> = Vec::new();
        let mut i: usize = 0;
        assert(self@.take(0) =~= Seq::empty());
        while i < self.fields.len()
            invariant
                i <= self.fields.len(),
                keys.deep_view() == key_names(self@.take(i as int)),
            decreases self.fields.len() - i,
        {
            let ghost before = keys.deep_view();
            assert(self@.take(i + 1).drop_last() =~= self@.take(i as int));
            assert(self@[i as int] == self.fields@[i as int]@);
            if self.fields[i].is_key() {
                let name = self.fields[i].name.clone();
                keys.push(name);
                assert(keys.deep_view() =~= before.push(name@));
            }
            i = i + 1;
        }
        assert(self@.take(i as int) =~= self@);
        keys
    }

    /// The position of the first field named `name`, if there is one.
    pub fn position(&self, name: &str) -> (r: Option<usize>)
        ensures
            match r {
                Some(i) => i < self@.len() && i == field_at(self@, name@),
                None => field_at(self@, name@) == self@.len(),
            },
    {
        let mut i: usize = 0;
        while i < self.fields.len()
            invariant
                i <= self.fields.len(),
                forall|j: int| 0 <= j < i ==> (#[trigger] self@[j]).name != name@,
            decreases self.fields.len() - i,
        {
            assert(self@[i as int] == self.fields@[i as int]@);
            if text::same(self.fields[i].name.as_str(), name) {
                proof {
                    lemma_field_at_is(self@, name@, i as int);
                }
                return Some(i);
            }
            i = i + 1;
        }
        proof {
            lemma_field_at_is(self@, name@, i as int);
        }
        None
    }
}

// === Comparing ===

/// Whether every note of `entries[..n]` that counts in `a` is the same in `b`.
proof fn lemma_notes_within(
    entries: Seq<(Seq<char>, Seq<char>)>,
    other: Map<Seq<char>, Seq<char>>,
)
    requires
        forall|i: int|
            0 <= i < entries.len() ==> other.contains_key((#[trigger] entries[i]).0)
                && other[entries[i].0] == notes(entries)[entries[i].0],
    ensures
        notes(entries).submap_of(other),
{
    assert forall|key: Seq<char>| #[trigger] notes(entries).contains_key(key) implies other
        .contains_key(key) && notes(entries)[key] == other[key] by {
        lemma_notes(entries, key);
        let i = choose|i: int| 0 <= i < entries.len() && (#[trigger] entries[i]).0 == key;
        assert(other.contains_key(entries[i].0));
    }
}

impl Annotations {
    /// Whether every note here is there, and the same.
    fn within(&self, other: &Annotations) -> (r: bool)
        ensures
            r == self@.submap_of(other@),
    {
        let ghost all = self.entries.deep_view();
        let mut i: usize = 0;
        while i < self.entries.len()
            invariant
                i <= self.entries.len(),
                all == self.entries.deep_view(),
                forall|j: int|
                    0 <= j < i ==> other@.contains_key((#[trigger] all[j]).0) && other@[all[j].0]
                        == notes(all)[all[j].0],
            decreases self.entries.len() - i,
        {
            let key = self.entries[i].0.as_str();
            proof {
                lemma_notes(all, key@);
                assert(all[i as int].0 == key@);
            }
            match (self.get(key), other.get(key)) {
                (Some(here), Some(there)) => {
                    if !text::same(here, there) {
                        assert(self@.contains_key(key@));
                        return false;
                    }
                },
                _ => {
                    assert(self@.contains_key(key@));
                    return false;
                },
            }
            i = i + 1;
        }
        proof {
            lemma_notes_within(all, other@);
        }
        true
    }

    /// Whether the notes are the same.
    pub fn same(&self, other: &Annotations) -> (r: bool)
        ensures
            r == (self@ == other@),
    {
        let here = self.within(other);
        let there = other.within(self);
        proof {
            if here && there {
                assert forall|key: Seq<char>| self@.contains_key(key) == #[trigger] other@.contains_key(
                    key,
                ) by {
                    if self@.contains_key(key) {
                        assert(other@.contains_key(key));
                    }
                }
                assert(self@.dom() =~= other@.dom());
                assert(self@ =~= other@);
            }
        }
        here && there
    }
}

impl DataType {
    /// Whether the types are the same.
    pub fn same(&self, other: &DataType) -> (r: bool)
        ensures
            r == (self@ == other@),
        decreases self, 0int,
    {
        broadcast use lemma_type_view;

        match (self, other) {
            (DataType::Bool, DataType::Bool) => true,
            (DataType::Int64, DataType::Int64) => true,
            (DataType::UInt64, DataType::UInt64) => true,
            (DataType::Float64, DataType::Float64) => true,
            (DataType::String, DataType::String) => true,
            (DataType::Bytes, DataType::Bytes) => true,
            (DataType::Timestamp, DataType::Timestamp) => true,
            (DataType::Date, DataType::Date) => true,
            (DataType::Decimal, DataType::Decimal) => true,
            (DataType::Json, DataType::Json) => true,
            (DataType::List(a), DataType::List(b)) => (**a).same(&**b),
            (DataType::Struct(a), DataType::Struct(b)) => same_fields(a, b),
            _ => false,
        }
    }
}

impl Field {
    /// Whether the fields are the same.
    pub fn same(&self, other: &Field) -> (r: bool)
        ensures
            r == (self@ == other@),
        decreases self, 1int,
    {
        text::same(self.name.as_str(), other.name.as_str()) && self.data_type.same(
            &other.data_type,
        ) && self.nullable == other.nullable && self.annotations.same(&other.annotations)
    }
}

/// Whether the lists of fields are the same.
fn same_fields(a: &Vec<Field>, b: &Vec<Field>) -> (r: bool)
    ensures
        r == (field_views(a@) == field_views(b@)),
    decreases a, 1int,
{
    if a.len() != b.len() {
        assert(field_views(a@).len() != field_views(b@).len());
        return false;
    }
    let mut i: usize = 0;
    while i < a.len()
        invariant
            i <= a.len(),
            a.len() == b.len(),
            forall|j: int| 0 <= j < i ==> #[trigger] field_views(a@)[j] == field_views(b@)[j],
        decreases a.len() - i,
    {
        assert(field_views(a@)[i as int] == a@[i as int]@);
        assert(field_views(b@)[i as int] == b@[i as int]@);
        if !a[i].same(&b[i]) {
            return false;
        }
        i = i + 1;
    }
    assert(field_views(a@) =~= field_views(b@));
    true
}

impl Schema {
    /// Whether the schemas are the same.
    pub fn same(&self, other: &Schema) -> (r: bool)
        ensures
            r == (self@ == other@),
    {
        same_fields(&self.fields, &other.fields)
    }
}

// === Laws ===

/// The key of a schema is the names of the fields that are annotated `key`, all of them and in
/// order.
pub proof fn keys_are_the_annotated_fields(fields: Seq<FieldView>)
    ensures
        key_names(fields) == fields.filter(
            |field: FieldView| field.annotations.contains_key("key"@),
        ).map_values(|field: FieldView| field.name),
    decreases fields.len(),
{
    reveal(Seq::filter);
    let annotated = |field: FieldView| field.annotations.contains_key("key"@);
    let name = |field: FieldView| field.name;
    if fields.len() == 0 {
        assert(fields.filter(annotated).map_values(name) =~= Seq::empty());
    } else {
        let fewer = fields.drop_last();
        keys_are_the_annotated_fields(fewer);
        let before = fewer.filter(annotated);
        if annotated(fields.last()) {
            assert(fields.filter(annotated).map_values(name) =~= before.map_values(name).push(
                fields.last().name,
            ));
        }
    }
}

/// A field is part of the key where it is annotated `key`, and orders the rows where it is
/// annotated `cursor`, whatever the note says.
pub proof fn annotations_mark_fields(field: FieldView)
    ensures
        field.is_key() <==> field.annotations.contains_key("key"@),
        field.is_cursor() <==> field.annotations.contains_key("cursor"@),
{
}

/// Of the notes with one name the last counts.
pub proof fn the_last_note_counts(entries: Seq<(Seq<char>, Seq<char>)>, key: Seq<char>)
    ensures
        notes(entries).contains_key(key) <==> exists|i: int|
            0 <= i < entries.len() && (#[trigger] entries[i]).0 == key,
        forall|i: int|
            0 <= i < entries.len() && (#[trigger] entries[i]).0 == key && (forall|j: int|
                i < j < entries.len() ==> (#[trigger] entries[j]).0 != key) ==> notes(entries)[key]
                == entries[i].1,
{
    lemma_notes(entries, key);
}


/// The names of the fields are theirs, in order.
pub proof fn every_field_is_named(fields: Seq<FieldView>, i: int)
    ensures
        names(fields).len() == fields.len(),
        0 <= i < fields.len() ==> names(fields)[i] == fields[i].name,
{
}

} // verus!
