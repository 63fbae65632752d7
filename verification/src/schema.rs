use crate::value::{lemma_lookup_last, lemma_table_view, plain, Dynamic, DynamicView};
use vstd::prelude::*;
use vstd::string::*;

verus! {

/// The shape that a value must have to be decoded into a component or into
/// one of its fields.
pub enum Shape {
    /// A boolean.
    Bool,
    /// An integer from `min` to `max`.
    Integer { min: i64, max: i64 },
    /// A number: an integer or a floating-point number, kept as given.
    Number,
    /// A text.
    Text,
    /// A table with the given fields. Keys that name no field are ignored.
    Record(Vec<Field>),
    /// A table of any number of entries, each under a text key and of the
    /// given shape.
    Dictionary(Box<Shape>),
}

/// One field of a record: its name, the shape of its value, and the value it
/// takes where the literal does not give it. A field without a default must
/// be given.
pub struct Field {
    pub name: String,
    pub shape: Shape,
    pub default: Option<Dynamic>,
}

/// The model of a [`Shape`].
pub enum ShapeView {
    Bool,
    Integer { min: i64, max: i64 },
    Number,
    Text,
    Record(Seq<FieldView>),
    Dictionary(Box<ShapeView>),
}

/// The model of a [`Field`].
pub struct FieldView {
    pub name: Seq<char>,
    pub shape: ShapeView,
    pub default: Option<DynamicView>,
}

/// The models of a list of fields, one for one.
pub open spec fn field_views(fields: Seq<Field>) -> Seq<FieldView>
    decreases fields,
{
    if fields.len() == 0 {
        Seq::empty()
    } else {
        field_views(fields.drop_last()).push(fields.last().view())
    }
}

impl View for Shape {
    type V = ShapeView;

    open spec fn view(&self) -> ShapeView
        decreases self,
    {
        match self {
            Shape::Bool => ShapeView::Bool,
            Shape::Integer { min, max } => ShapeView::Integer { min: *min, max: *max },
            Shape::Number => ShapeView::Number,
            Shape::Text => ShapeView::Text,
            Shape::Record(fields) => ShapeView::Record(field_views(fields@)),
            Shape::Dictionary(inner) => ShapeView::Dictionary(Box::new((**inner).view())),
        }
    }
}

impl View for Field {
    type V = FieldView;

    open spec fn view(&self) -> FieldView
        decreases self,
    {
        FieldView {
            name: self.name@,
            shape: self.shape.view(),
            default: match self.default {
                Some(value) => Some(value@),
                None => None,
            },
        }
    }
}

/// The models of fields are as many as the fields, each the model of its
/// field.
pub proof fn lemma_field_views(fields: Seq<Field>)
    ensures
        field_views(fields).len() == fields.len(),
        forall|i: int| 0 <= i < fields.len() ==> #[trigger] field_views(fields)[i] == fields[i]@,
    decreases fields.len(),
{
    if fields.len() > 0 {
        lemma_field_views(fields.drop_last());
        assert(field_views(fields) == field_views(fields.drop_last()).push(fields.last().view()));
    } else {
        assert(field_views(fields) == Seq::<FieldView>::empty());
    }
}

/// The model of a record lists the models of its fields, one for one.
pub proof fn lemma_record_view(fields: Vec<Field>)
    ensures
        Shape::Record(fields)@ == ShapeView::Record(field_views(fields@)),
        field_views(fields@).len() == fields@.len(),
        forall|i: int| 0 <= i < fields@.len() ==> #[trigger] field_views(fields@)[i] == fields@[i]@,
{
    lemma_field_views(fields@);
}

/// Whether the first `count` fields are given, or have defaults, in the
/// table `literal`, each with a value of its shape.
pub open spec fn fields_accept(fields: Seq<FieldView>, literal: DynamicView, count: nat) -> bool
    decreases fields, count,
{
    if count == 0 || count > fields.len() {
        true
    } else {
        let field = fields[count - 1];
        let given = literal.field(field.name);
        &&& fields_accept(fields, literal, (count - 1) as nat)
        &&& if given is Nil {
            field.default is Some
        } else {
            accepts(field.shape, given)
        }
    }
}

/// Whether each of the first `count` entries stands under a text key and has
/// a value of the shape `inner`.
pub open spec fn entries_accept(
    inner: ShapeView,
    entries: Seq<(DynamicView, DynamicView)>,
    count: nat,
) -> bool
    decreases inner, count + 1,
{
    if count == 0 || count > entries.len() {
        true
    } else {
        &&& entries_accept(inner, entries, (count - 1) as nat)
        &&& entries[count - 1].0 is Str
        &&& accepts(inner, entries[count - 1].1)
    }
}

/// Whether a value has the shape: what decoding accepts.
pub open spec fn accepts(shape: ShapeView, value: DynamicView) -> bool
    decreases shape, 0nat,
{
    match shape {
        ShapeView::Bool => value is Bool,
        ShapeView::Integer { min, max } => value matches DynamicView::Int(i) && min <= i <= max,
        ShapeView::Number => value is Int || value is Float,
        ShapeView::Text => value is Str,
        ShapeView::Record(fields) => value is Table && fields_accept(fields, value, fields.len()),
        ShapeView::Dictionary(inner) => value is Table && entries_accept(
            *inner,
            value.entries(),
            value.entries().len(),
        ),
    }
}

/// The entries of the decoded record for the first `count` fields: each
/// field under its name, with the decoded value given for it or else its
/// default.
pub open spec fn normal_entries(fields: Seq<FieldView>, literal: DynamicView, count: nat) -> Seq<
    (DynamicView, DynamicView),
>
    decreases fields, count,
{
    if count == 0 || count > fields.len() {
        Seq::empty()
    } else {
        let field = fields[count - 1];
        let given = literal.field(field.name);
        normal_entries(fields, literal, (count - 1) as nat).push(
            (
                DynamicView::Str(field.name),
                if given is Nil {
                    match field.default {
                        Some(value) => value,
                        None => DynamicView::Nil,
                    }
                } else {
                    normal(field.shape, given)
                },
            ),
        )
    }
}

/// The first `count` entries, each with its value decoded against `inner`.
pub open spec fn normal_dictionary(
    inner: ShapeView,
    entries: Seq<(DynamicView, DynamicView)>,
    count: nat,
) -> Seq<(DynamicView, DynamicView)>
    decreases inner, count + 1,
{
    if count == 0 || count > entries.len() {
        Seq::empty()
    } else {
        normal_dictionary(inner, entries, (count - 1) as nat).push(
            (entries[count - 1].0, normal(inner, entries[count - 1].1)),
        )
    }
}

/// The exchange form of what an accepted value decodes to: a scalar is kept,
/// a record has exactly its fields, in order, defaults filled in, a
/// dictionary has its entries, in order, each decoded.
pub open spec fn normal(shape: ShapeView, value: DynamicView) -> DynamicView
    decreases shape, 0nat,
{
    match shape {
        ShapeView::Record(fields) => DynamicView::Table(
            normal_entries(fields, value, fields.len()),
        ),
        ShapeView::Dictionary(inner) => DynamicView::Table(
            normal_dictionary(*inner, value.entries(), value.entries().len()),
        ),
        _ => value,
    }
}

/// No two of the first `count` fields have the same name.
pub open spec fn distinct_names(fields: Seq<FieldView>) -> bool {
    forall|i: int, j: int| 0 <= i < j < fields.len() ==> fields[i].name != fields[j].name
}

/// Whether the first `count` fields are sound: see [`sound`].
pub open spec fn fields_sound(fields: Seq<FieldView>, count: nat) -> bool
    decreases fields, count,
{
    if count == 0 || count > fields.len() {
        true
    } else {
        let field = fields[count - 1];
        &&& fields_sound(fields, (count - 1) as nat)
        &&& sound(field.shape)
        &&& field.default matches Some(value) ==> accepts(field.shape, value) && normal(
            field.shape,
            value,
        ) == value
    }
}

/// Whether a shape can serve as a schema: in every record the field names
/// differ, and every default has its field's shape and is in exchange form.
pub open spec fn sound(shape: ShapeView) -> bool
    decreases shape,
{
    match shape {
        ShapeView::Record(fields) => distinct_names(fields) && fields_sound(fields, fields.len()),
        ShapeView::Dictionary(inner) => sound(*inner),
        _ => true,
    }
}

/// What holds of the first `count` fields holds of each of them.
pub proof fn lemma_fields_accept_each(fields: Seq<FieldView>, literal: DynamicView, count: nat, i: int)
    requires
        count <= fields.len(),
        fields_accept(fields, literal, count),
        0 <= i < count,
    ensures
        literal.field(fields[i].name) is Nil ==> fields[i].default is Some,
        !(literal.field(fields[i].name) is Nil) ==> accepts(
            fields[i].shape,
            literal.field(fields[i].name),
        ),
    decreases count,
{
    if i < count - 1 {
        lemma_fields_accept_each(fields, literal, (count - 1) as nat, i);
    }
}

/// What holds of the first `count` sound fields holds of each of them.
pub proof fn lemma_fields_sound_each(fields: Seq<FieldView>, count: nat, i: int)
    requires
        count <= fields.len(),
        fields_sound(fields, count),
        0 <= i < count,
    ensures
        sound(fields[i].shape),
        fields[i].default matches Some(value) ==> accepts(fields[i].shape, value) && normal(
            fields[i].shape,
            value,
        ) == value,
    decreases count,
{
    if i < count - 1 {
        lemma_fields_sound_each(fields, (count - 1) as nat, i);
    }
}

/// The decoded entries are as many as the fields, each under its field's
/// name.
pub proof fn lemma_normal_entries(fields: Seq<FieldView>, literal: DynamicView, count: nat)
    requires
        count <= fields.len(),
    ensures
        normal_entries(fields, literal, count).len() == count,
        forall|i: int|
            0 <= i < count ==> (#[trigger] normal_entries(fields, literal, count)[i]).0
                == DynamicView::Str(fields[i].name),
        forall|i: int|
            0 <= i < count ==> (#[trigger] normal_entries(fields, literal, count)[i]).1 == (if literal.field(
                fields[i].name,
            ) is Nil {
                match fields[i].default {
                    Some(value) => value,
                    None => DynamicView::Nil,
                }
            } else {
                normal(fields[i].shape, literal.field(fields[i].name))
            }),
    decreases count,
{
    if count > 0 {
        lemma_normal_entries(fields, literal, (count - 1) as nat);
    }
}

/// What holds of the first `count` entries of a dictionary holds of each of
/// them.
pub proof fn lemma_entries_accept_each(
    inner: ShapeView,
    entries: Seq<(DynamicView, DynamicView)>,
    count: nat,
    i: int,
)
    requires
        count <= entries.len(),
        entries_accept(inner, entries, count),
        0 <= i < count,
    ensures
        entries[i].0 is Str,
        accepts(inner, entries[i].1),
    decreases count,
{
    if i < count - 1 {
        lemma_entries_accept_each(inner, entries, (count - 1) as nat, i);
    }
}

/// The decoded entries of a dictionary are as many as its entries, each
/// under its key with its value decoded.
pub proof fn lemma_normal_dictionary(
    inner: ShapeView,
    entries: Seq<(DynamicView, DynamicView)>,
    count: nat,
)
    requires
        count <= entries.len(),
    ensures
        normal_dictionary(inner, entries, count).len() == count,
        forall|i: int|
            0 <= i < count ==> #[trigger] normal_dictionary(inner, entries, count)[i] == (
                entries[i].0,
                normal(inner, entries[i].1),
            ),
    decreases count,
{
    if count > 0 {
        lemma_normal_dictionary(inner, entries, (count - 1) as nat);
    }
}

/// Entries that each stand under a text key with an accepted value that
/// decodes to itself are accepted as a dictionary and decode to themselves.
pub proof fn lemma_fixed_dictionary(
    inner: ShapeView,
    entries: Seq<(DynamicView, DynamicView)>,
    count: nat,
)
    requires
        count <= entries.len(),
        forall|i: int|
            0 <= i < count ==> (#[trigger] entries[i]).0 is Str && accepts(inner, entries[i].1)
                && normal(inner, entries[i].1) == entries[i].1,
    ensures
        entries_accept(inner, entries, count),
        normal_dictionary(inner, entries, count) == entries.subrange(0, count as int),
    decreases count,
{
    if count > 0 {
        lemma_fixed_dictionary(inner, entries, (count - 1) as nat);
        assert(entries[count - 1].0 is Str);
        assert(entries.subrange(0, count as int) =~= entries.subrange(0, count - 1).push(
            entries[count - 1],
        ));
    } else {
        assert(entries.subrange(0, 0) =~= Seq::empty());
    }
}

/// An accepted value decodes to a value that is not `Nil`.
pub proof fn lemma_normal_not_nil(shape: ShapeView, value: DynamicView)
    requires
        accepts(shape, value),
    ensures
        !(normal(shape, value) is Nil),
{
}

/// Decoding is idempotent: what an accepted value decodes to is accepted
/// again and decodes to itself.
pub proof fn lemma_normal_is_fixed(shape: ShapeView, value: DynamicView)
    requires
        sound(shape),
        accepts(shape, value),
    ensures
        accepts(shape, normal(shape, value)),
        normal(shape, normal(shape, value)) == normal(shape, value),
    decreases shape,
{
    match shape {
        ShapeView::Record(fields) => {
            let n = fields.len();
            let decoded = normal(shape, value);
            lemma_normal_entries(fields, value, n);
            let entries = normal_entries(fields, value, n);
            assert(decoded.entries() == entries);
            assert forall|i: int| 0 <= i < n implies {
                &&& decoded.field(fields[i].name) == entries[i].1
                &&& !(entries[i].1 is Nil)
                &&& accepts(fields[i].shape, entries[i].1)
                &&& normal(fields[i].shape, entries[i].1) == entries[i].1
            } by {
                assert forall|j: int| i < j < entries.len() implies (#[trigger] entries[j]).0
                    != DynamicView::Str(fields[i].name) by {
                    assert(fields[i].name != fields[j].name);
                }
                lemma_lookup_last(entries, DynamicView::Str(fields[i].name), i);
                lemma_fields_accept_each(fields, value, n, i);
                lemma_fields_sound_each(fields, n, i);
                let given = value.field(fields[i].name);
                if !(given is Nil) {
                    lemma_normal_is_fixed(fields[i].shape, given);
                    lemma_normal_not_nil(fields[i].shape, given);
                }
            }
            lemma_fixed_fields(fields, value, decoded, n);
            assert(normal_entries(fields, decoded, n) =~= entries);
        },
        ShapeView::Dictionary(inner) => {
            let given = value.entries();
            let n = given.len();
            lemma_normal_dictionary(*inner, given, n);
            let entries = normal_dictionary(*inner, given, n);
            assert(normal(shape, value).entries() == entries);
            assert forall|i: int| 0 <= i < n implies (#[trigger] entries[i]).0 is Str && accepts(
                *inner,
                entries[i].1,
            ) && normal(*inner, entries[i].1) == entries[i].1 by {
                lemma_entries_accept_each(*inner, given, n, i);
                lemma_normal_is_fixed(*inner, given[i].1);
            }
            lemma_fixed_dictionary(*inner, entries, n);
            assert(entries.subrange(0, n as int) =~= entries);
        },
        _ => {},
    }
}

/// Where each of the first `count` fields finds in `decoded` its own decoded
/// value, `decoded` is accepted and decodes, field by field, to the same
/// entries.
pub proof fn lemma_fixed_fields(
    fields: Seq<FieldView>,
    value: DynamicView,
    decoded: DynamicView,
    count: nat,
)
    requires
        count <= fields.len(),
        forall|i: int|
            0 <= i < count ==> {
                &&& decoded.field(fields[i].name) == normal_entries(fields, value, fields.len())[i].1
                &&& !(normal_entries(fields, value, fields.len())[i].1 is Nil)
                &&& accepts(fields[i].shape, normal_entries(fields, value, fields.len())[i].1)
                &&& normal(fields[i].shape, normal_entries(fields, value, fields.len())[i].1)
                    == normal_entries(fields, value, fields.len())[i].1
            },
    ensures
        fields_accept(fields, decoded, count),
        normal_entries(fields, decoded, count).len() == count,
        forall|i: int|
            0 <= i < count ==> #[trigger] normal_entries(fields, decoded, count)[i]
                == normal_entries(fields, value, fields.len())[i],
    decreases count,
{
    lemma_normal_entries(fields, value, fields.len());
    lemma_normal_entries(fields, decoded, count);
    if count > 0 {
        lemma_fixed_fields(fields, value, decoded, (count - 1) as nat);
        let last = count - 1;
        let kept = normal_entries(fields, value, fields.len())[last].1;
        assert(decoded.field(fields[last].name) == kept);
        assert(!(kept is Nil));
        assert(accepts(fields[last].shape, kept));
        assert(normal(fields[last].shape, kept) == kept);
    }
}

/// What a schema accepts decodes to a value without any function reference:
/// no shape has a place for one.
pub proof fn lemma_normal_plain(shape: ShapeView, value: DynamicView)
    requires
        sound(shape),
        accepts(shape, value),
    ensures
        plain(normal(shape, value)),
    decreases shape,
{
    match shape {
        ShapeView::Record(fields) => {
            let n = fields.len();
            lemma_normal_entries(fields, value, n);
            let entries = normal_entries(fields, value, n);
            assert forall|i: int| 0 <= i < entries.len() implies plain((#[trigger] entries[i]).0)
                && plain(entries[i].1) by {
                lemma_fields_accept_each(fields, value, n, i);
                lemma_fields_sound_each(fields, n, i);
                let given = value.field(fields[i].name);
                if given is Nil {
                    let kept = fields[i].default->Some_0;
                    lemma_normal_plain(fields[i].shape, kept);
                } else {
                    lemma_normal_plain(fields[i].shape, given);
                }
            }
        },
        ShapeView::Dictionary(inner) => {
            let given = value.entries();
            let n = given.len();
            lemma_normal_dictionary(*inner, given, n);
            let entries = normal_dictionary(*inner, given, n);
            assert forall|i: int| 0 <= i < entries.len() implies plain((#[trigger] entries[i]).0)
                && plain(entries[i].1) by {
                lemma_entries_accept_each(*inner, given, n, i);
                lemma_normal_plain(*inner, given[i].1);
            }
        },
        _ => {},
    }
}

/// In what a record decodes to, each field holds the decoded value that the
/// literal gives for it, or its default where the literal gives none.
pub proof fn lemma_decoded_field(fields: Seq<FieldView>, literal: DynamicView, i: int)
    requires
        distinct_names(fields),
        0 <= i < fields.len(),
    ensures
        normal(ShapeView::Record(fields), literal).field(fields[i].name) == (if literal.field(
            fields[i].name,
        ) is Nil {
            match fields[i].default {
                Some(value) => value,
                None => DynamicView::Nil,
            }
        } else {
            normal(fields[i].shape, literal.field(fields[i].name))
        }),
{
    let entries = normal_entries(fields, literal, fields.len());
    lemma_normal_entries(fields, literal, fields.len());
    assert forall|j: int| i < j < entries.len() implies (#[trigger] entries[j]).0 != DynamicView::Str(
        fields[i].name,
    ) by {
        assert(fields[i].name != fields[j].name);
    }
    lemma_lookup_last(entries, DynamicView::Str(fields[i].name), i);
}

/// Fields that are sound one by one are sound together.
pub proof fn lemma_fields_sound_all(fields: Seq<FieldView>, count: nat)
    requires
        count <= fields.len(),
        forall|i: int|
            0 <= i < count ==> sound((#[trigger] fields[i]).shape) && (fields[i].default matches Some(
                value,
            ) ==> accepts(fields[i].shape, value) && normal(fields[i].shape, value) == value),
    ensures
        fields_sound(fields, count),
    decreases count,
{
    if count > 0 {
        lemma_fields_sound_all(fields, (count - 1) as nat);
        assert(sound(fields[count - 1].shape));
    }
}

/// A table that lists exactly the fields of a record, in order, each with a
/// value of its shape that is in exchange form, is accepted by the record
/// and is in exchange form itself.
pub proof fn lemma_record_in_form(fields: Seq<FieldView>, value: DynamicView)
    requires
        distinct_names(fields),
        value is Table,
        value.entries().len() == fields.len(),
        forall|i: int|
            0 <= i < fields.len() ==> {
                &&& (#[trigger] value.entries()[i]).0 == DynamicView::Str(fields[i].name)
                &&& !(value.entries()[i].1 is Nil)
                &&& accepts(fields[i].shape, value.entries()[i].1)
                &&& normal(fields[i].shape, value.entries()[i].1) == value.entries()[i].1
            },
    ensures
        accepts(ShapeView::Record(fields), value),
        normal(ShapeView::Record(fields), value) == value,
{
    let n = fields.len();
    let entries = value.entries();
    lemma_normal_entries(fields, value, n);
    assert forall|i: int| 0 <= i < n implies value.field((#[trigger] fields[i]).name)
        == entries[i].1 && !(entries[i].1 is Nil) && accepts(fields[i].shape, entries[i].1) by {
        assert forall|j: int| i < j < entries.len() implies (#[trigger] entries[j]).0
            != DynamicView::Str(fields[i].name) by {
            assert(fields[i].name != fields[j].name);
        }
        assert(entries[i].0 == DynamicView::Str(fields[i].name));
        lemma_lookup_last(entries, DynamicView::Str(fields[i].name), i);
    }
    lemma_fields_accept_all(fields, value, n);
    assert(normal_entries(fields, value, n) =~= entries);
}

/// Fields that are each given with a value of their shape, or have a
/// default, are accepted together.
pub proof fn lemma_fields_accept_all(fields: Seq<FieldView>, literal: DynamicView, count: nat)
    requires
        count <= fields.len(),
        forall|i: int|
            0 <= i < count ==> (if literal.field((#[trigger] fields[i]).name) is Nil {
                fields[i].default is Some
            } else {
                accepts(fields[i].shape, literal.field(fields[i].name))
            }),
    ensures
        fields_accept(fields, literal, count),
    decreases count,
{
    if count > 0 {
        lemma_fields_accept_all(fields, literal, (count - 1) as nat);
        assert(fields[count - 1].default is Some || !(literal.field(fields[count - 1].name) is Nil));
    }
}

/// A field of the given name and shape, with the value it takes where none
/// is given.
pub fn field(name: &str, shape: Shape, default: Option<Dynamic>) -> (made: Field)
    ensures
        made@ == (FieldView {
            name: name@,
            shape: shape@,
            default: match default {
                Some(value) => Some(value@),
                None => None,
            },
        }),
{
    Field { name: String::from_str(name), shape, default }
}

/// The record of the given fields.
pub fn record(fields: Vec<Field>) -> (shape: Shape)
    ensures
        shape@ == ShapeView::Record(Seq::new(fields@.len(), |i: int| fields@[i]@)),
{
    proof {
        lemma_record_view(fields);
        assert(field_views(fields@) =~= Seq::new(fields@.len(), |i: int| fields@[i]@));
    }
    Shape::Record(fields)
}

impl Shape {
    /// Decodes a value of this shape into exchange form, with the defaults
    /// of missing fields filled in. `None` where the value does not have the
    /// shape.
    pub fn decode(&self, value: &Dynamic) -> (r: Option<Dynamic>)
        ensures
            r is Some <==> accepts(self@, value@),
            r matches Some(decoded) ==> decoded@ == normal(self@, value@),
        decreases self,
    {
        match self {
            Shape::Bool => match value {
                Dynamic::Bool(b) => Some(Dynamic::Bool(*b)),
                _ => None,
            },
            Shape::Integer { min, max } => match value {
                Dynamic::Int(i) => if *min <= *i && *i <= *max {
                    Some(Dynamic::Int(*i))
                } else {
                    None
                },
                _ => None,
            },
            Shape::Number => match value {
                Dynamic::Int(i) => Some(Dynamic::Int(*i)),
                Dynamic::Float(bits) => Some(Dynamic::Float(*bits)),
                _ => None,
            },
            Shape::Text => match value {
                Dynamic::Str(s) => Some(Dynamic::Str(s.clone())),
                _ => None,
            },
            Shape::Record(fields) => {
                if !value.is_table() {
                    return None;
                }
                let ghost fv = field_views(fields@);
                proof {
                    lemma_record_view(*fields);
                }
                let mut entries: Vec<(Dynamic, Dynamic)> = Vec::new();
                let mut i: usize = 0;
                while i < fields.len()
                    invariant
                        *self == Shape::Record(*fields),
                        self@ == ShapeView::Record(fv),
                        fv == field_views(fields@),
                        fv.len() == fields@.len(),
                        forall|j: int| 0 <= j < fields@.len() ==> #[trigger] fv[j] == fields@[j]@,
                        value@ is Table,
                        i <= fields@.len(),
                        fields_accept(fv, value@, i as nat),
                        entries@.len() == i,
                        forall|j: int|
                            0 <= j < i ==> (#[trigger] entries@[j]).0@ == DynamicView::Str(
                                fv[j].name,
                            ) && entries@[j].1@ == normal_entries(fv, value@, fv.len())[j].1,
                    decreases fields@.len() - i,
                {
                    proof {
                        assert(decreases_to!(*self => self->Record_0));
                        assert(decreases_to!(*fields => fields[i as int]));
                        assert(decreases_to!(fields[i as int] => fields[i as int].shape));
                        lemma_normal_entries(fv, value@, fv.len());
                        assert(fv[i as int] == fields@[i as int]@);
                    }
                    let field = &fields[i];
                    let given = value.field(field.name.as_str());
                    let present = match given {
                        Some(g) => !g.is_nil(),
                        None => false,
                    };
                    let decoded = if present {
                        match given {
                            Some(g) => match field.shape.decode(g) {
                                Some(decoded) => decoded,
                                None => {
                                    proof {
                                        if fields_accept(fv, value@, fv.len()) {
                                            lemma_fields_accept_each(
                                                fv,
                                                value@,
                                                fv.len(),
                                                i as int,
                                            );
                                        }
                                    }
                                    return None;
                                },
                            },
                            None => {
                                return None;
                            },
                        }
                    } else {
                        match &field.default {
                            Some(value_default) => value_default.duplicate(),
                            None => {
                                proof {
                                    if fields_accept(fv, value@, fv.len()) {
                                        lemma_fields_accept_each(fv, value@, fv.len(), i as int);
                                    }
                                }
                                return None;
                            },
                        }
                    };
                    entries.push((Dynamic::Str(field.name.clone()), decoded));
                    i += 1;
                }
                let record = Dynamic::Table(entries);
                proof {
                    lemma_table_view(entries);
                    lemma_normal_entries(fv, value@, fv.len());
                    assert(record@.entries() =~= normal_entries(fv, value@, fv.len()));
                }
                Some(record)
            },
            Shape::Dictionary(inner) => {
                let given = match value {
                    Dynamic::Table(given) => given,
                    _ => {
                        return None;
                    },
                };
                proof {
                    lemma_table_view(*given);
                }
                let ghost inner_view = (**inner)@;
                let ghost listed = value@.entries();
                let mut entries: Vec<(Dynamic, Dynamic)> = Vec::new();
                let mut i: usize = 0;
                while i < given.len()
                    invariant
                        *self == Shape::Dictionary(*inner),
                        *value == Dynamic::Table(*given),
                        inner_view == (**inner)@,
                        self@ == ShapeView::Dictionary(Box::new(inner_view)),
                        listed == value@.entries(),
                        listed.len() == given@.len(),
                        forall|j: int|
                            0 <= j < given@.len() ==> #[trigger] listed[j] == (
                                given@[j].0@,
                                given@[j].1@,
                            ),
                        i <= given@.len(),
                        entries_accept(inner_view, listed, i as nat),
                        entries@.len() == i,
                        forall|j: int|
                            0 <= j < i ==> (#[trigger] entries@[j]).0@ == listed[j].0
                                && entries@[j].1@ == normal(inner_view, listed[j].1),
                    decreases given@.len() - i,
                {
                    proof {
                        assert(decreases_to!(*self => self->Dictionary_0));
                        assert(listed[i as int] == (given@[i as int].0@, given@[i as int].1@));
                    }
                    let key = match &given[i].0 {
                        Dynamic::Str(name) => Dynamic::Str(name.clone()),
                        _ => {
                            proof {
                                if entries_accept(inner_view, listed, listed.len()) {
                                    lemma_entries_accept_each(
                                        inner_view,
                                        listed,
                                        listed.len(),
                                        i as int,
                                    );
                                }
                            }
                            return None;
                        },
                    };
                    let decoded = match inner.decode(&given[i].1) {
                        Some(decoded) => decoded,
                        None => {
                            proof {
                                if entries_accept(inner_view, listed, listed.len()) {
                                    lemma_entries_accept_each(
                                        inner_view,
                                        listed,
                                        listed.len(),
                                        i as int,
                                    );
                                }
                            }
                            return None;
                        },
                    };
                    entries.push((key, decoded));
                    i += 1;
                }
                let dictionary = Dynamic::Table(entries);
                proof {
                    lemma_table_view(entries);
                    lemma_normal_dictionary(inner_view, listed, listed.len());
                    assert(dictionary@.entries() =~= normal_dictionary(
                        inner_view,
                        listed,
                        listed.len(),
                    ));
                }
                Some(dictionary)
            },
        }
    }

    /// Whether the shape can serve as a schema.
    pub fn is_sound(&self) -> (b: bool)
        ensures
            b == sound(self@),
        decreases self,
    {
        match self {
            Shape::Record(fields) => {
                let ghost fv = field_views(fields@);
                proof {
                    lemma_record_view(*fields);
                }
                let mut i: usize = 0;
                while i < fields.len()
                    invariant
                        *self == Shape::Record(*fields),
                        self@ == ShapeView::Record(fv),
                        fv == field_views(fields@),
                        fv.len() == fields@.len(),
                        forall|j: int| 0 <= j < fields@.len() ==> #[trigger] fv[j] == fields@[j]@,
                        i <= fields@.len(),
                        fields_sound(fv, i as nat),
                        forall|a: int, b: int| 0 <= a < b < i ==> fv[a].name != fv[b].name,
                    decreases fields@.len() - i,
                {
                    proof {
                        assert(decreases_to!(*self => self->Record_0));
                        assert(decreases_to!(*fields => fields[i as int]));
                        assert(decreases_to!(fields[i as int] => fields[i as int].shape));
                        assert(fv[i as int] == fields@[i as int]@);
                    }
                    let field = &fields[i];
                    let mut k: usize = 0;
                    while k < i
                        invariant
                            self@ == ShapeView::Record(fv),
                            fv.len() == fields@.len(),
                            forall|j: int| 0 <= j < fields@.len() ==> #[trigger] fv[j] == fields@[j]@,
                            i < fields@.len(),
                            *field == fields@[i as int],
                            k <= i,
                            forall|a: int| 0 <= a < k ==> fv[a].name != fv[i as int].name,
                        decreases i - k,
                    {
                        assert(fv[k as int] == fields@[k as int]@);
                        if fields[k].name == field.name {
                            assert(fv[k as int].name == fv[i as int].name);
                            return false;
                        }
                        k += 1;
                    }
                    if !field.shape.is_sound() {
                        proof {
                            if fields_sound(fv, fv.len()) {
                                lemma_fields_sound_each(fv, fv.len(), i as int);
                            }
                        }
                        return false;
                    }
                    let fits = match &field.default {
                        Some(value) => match field.shape.decode(value) {
                            Some(decoded) => decoded.same(value),
                            None => false,
                        },
                        None => true,
                    };
                    if !fits {
                        proof {
                            if fields_sound(fv, fv.len()) {
                                lemma_fields_sound_each(fv, fv.len(), i as int);
                            }
                        }
                        return false;
                    }
                    i += 1;
                }
                true
            },
            Shape::Dictionary(inner) => inner.is_sound(),
            _ => true,
        }
    }
}

} // verus!
