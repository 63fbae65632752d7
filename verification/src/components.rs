use crate::schema::{
    accepts, distinct_names, field, lemma_decoded_field, lemma_fields_sound_all,
    lemma_record_in_form, normal, record, sound, FieldView, Shape, ShapeView,
};
use crate::store::Store;
use crate::system::NativeSystem;
use crate::value::{lemma_table_view, Dynamic, DynamicView};
use vstd::prelude::*;
use vstd::string::*;

verus! {

/// A field that holds a number, `default` (a bit pattern) where none is
/// given.
pub open spec fn number_field(name: Seq<char>, default: u64) -> FieldView {
    FieldView { name, shape: ShapeView::Number, default: Some(DynamicView::Float(default)) }
}

/// The fields of a vector: `x` and `y`, each a number, zero where not given.
pub open spec fn vector_fields() -> Seq<FieldView> {
    seq![number_field("x"@, 0), number_field("y"@, 0)]
}

/// The schema of a point or a direction in the plane.
pub open spec fn vector_schema() -> ShapeView {
    ShapeView::Record(vector_fields())
}

/// The vector whose `x` and `y` are zero.
pub open spec fn zero_vector() -> DynamicView {
    DynamicView::Table(
        seq![
            (DynamicView::Str("x"@), DynamicView::Float(0)),
            (DynamicView::Str("y"@), DynamicView::Float(0)),
        ],
    )
}

/// A field that holds a vector, the zero vector where none is given.
pub open spec fn vector_field(name: Seq<char>) -> FieldView {
    FieldView { name, shape: vector_schema(), default: Some(zero_vector()) }
}

/// The fields of a physics component: `position`, `velocity` and
/// `acceleration`, each a vector, and `angle`, a number; each zero where not
/// given.
pub open spec fn physics_fields() -> Seq<FieldView> {
    seq![
        vector_field("position"@),
        vector_field("velocity"@),
        vector_field("acceleration"@),
        number_field("angle"@, 0),
    ]
}

/// The schema of a physics component.
pub open spec fn physics_schema() -> ShapeView {
    ShapeView::Record(physics_fields())
}

/// The vector schema is sound, and the zero vector is a vector in exchange
/// form.
pub proof fn lemma_vector_sound()
    ensures
        distinct_names(vector_fields()),
        sound(vector_schema()),
        accepts(vector_schema(), zero_vector()),
        normal(vector_schema(), zero_vector()) == zero_vector(),
{
    reveal_strlit("x");
    reveal_strlit("y");
    let fields = vector_fields();
    assert(fields[0].name == "x"@ && fields[1].name == "y"@);
    assert("x"@[0] != "y"@[0]);
    lemma_fields_sound_all(fields, 2);
    assert(zero_vector().entries()[0].0 == DynamicView::Str(fields[0].name));
    assert(zero_vector().entries()[1].0 == DynamicView::Str(fields[1].name));
    lemma_record_in_form(fields, zero_vector());
}

/// The physics schema can serve as a schema.
pub proof fn lemma_physics_sound()
    ensures
        distinct_names(physics_fields()),
        sound(physics_schema()),
{
    reveal_strlit("position");
    reveal_strlit("velocity");
    reveal_strlit("acceleration");
    reveal_strlit("angle");
    lemma_vector_sound();
    let fields = physics_fields();
    assert(fields[0].name == "position"@ && fields[1].name == "velocity"@ && fields[2].name
        == "acceleration"@ && fields[3].name == "angle"@);
    assert("position"@.len() == 8 && "velocity"@.len() == 8 && "acceleration"@.len() == 12
        && "angle"@.len() == 5);
    assert("position"@[0] != "velocity"@[0]);
    lemma_fields_sound_all(fields, 4);
}

/// What a physics component decodes to holds the zero vector, or a zero
/// angle, for each field that the literal does not give.
pub proof fn law_physics_defaults(literal: DynamicView, i: int)
    requires
        0 <= i < 4,
        literal.field(physics_fields()[i].name) is Nil,
    ensures
        normal(physics_schema(), literal).field(physics_fields()[i].name) == (if i < 3 {
            zero_vector()
        } else {
            DynamicView::Float(0)
        }),
{
    lemma_physics_sound();
    lemma_decoded_field(physics_fields(), literal, i);
}

/// The zero vector.
pub fn zero() -> (vector: Dynamic)
    ensures
        vector@ == zero_vector(),
{
    let mut entries: Vec<(Dynamic, Dynamic)> = Vec::new();
    entries.push((Dynamic::text("x"), Dynamic::Float(0)));
    entries.push((Dynamic::text("y"), Dynamic::Float(0)));
    proof {
        lemma_table_view(entries);
        assert(Dynamic::Table(entries)@.entries() =~= zero_vector().entries());
    }
    Dynamic::Table(entries)
}

/// The shape of a vector.
pub fn vector_shape() -> (shape: Shape)
    ensures
        shape@ == vector_schema(),
{
    let mut fields = Vec::new();
    fields.push(field("x", Shape::Number, Some(Dynamic::Float(0))));
    fields.push(field("y", Shape::Number, Some(Dynamic::Float(0))));
    assert(Seq::new(fields@.len(), |i: int| fields@[i]@) =~= vector_fields());
    record(fields)
}

/// The shape of a physics component.
pub fn physics_shape() -> (shape: Shape)
    ensures
        shape@ == physics_schema(),
{
    let mut fields = Vec::new();
    fields.push(field("position", vector_shape(), Some(zero())));
    fields.push(field("velocity", vector_shape(), Some(zero())));
    fields.push(field("acceleration", vector_shape(), Some(zero())));
    fields.push(field("angle", Shape::Number, Some(Dynamic::Float(0))));
    assert(Seq::new(fields@.len(), |i: int| fields@[i]@) =~= physics_fields());
    record(fields)
}

/// An empty physics system, which installs the given script chunks when it
/// is registered.
pub fn physics_store(hooks: Vec<String>) -> (store: Store)
    ensures
        store.inv(),
        store.schema() == physics_schema(),
        store.components() == Map::<usize, DynamicView>::empty(),
        store.hooks() == Seq::new(hooks@.len(), |i: int| hooks@[i]@),
{
    proof {
        lemma_physics_sound();
    }
    match Store::with_schema(physics_shape(), hooks) {
        Some(store) => store,
        None => unreached(),
    }
}

/// A field that holds a size: an integer from zero to the largest 32-bit
/// unsigned number, `default` where none is given.
pub open spec fn size_field(name: Seq<char>, default: Option<i64>) -> FieldView {
    FieldView {
        name,
        shape: ShapeView::Integer { min: 0, max: 0xffff_ffff },
        default: match default {
            Some(i) => Some(DynamicView::Int(i)),
            None => None,
        },
    }
}

/// The fields of an animation: the size of a frame, of which the width must
/// be given; the row of the strip; its first and last frame, counted from
/// one; how many frames it advances with each step, and the frame it
/// shows, both numbers.
pub open spec fn animation_fields() -> Seq<FieldView> {
    seq![
        size_field("frame_width"@, None),
        size_field("frame_height"@, Some(0)),
        size_field("row"@, Some(0)),
        size_field("first"@, Some(1)),
        size_field("last"@, Some(0)),
        number_field("speed"@, 0),
        number_field("current_frame"@, 0x3ff0_0000_0000_0000),
    ]
}

/// The schema of an animation.
pub open spec fn animation_schema() -> ShapeView {
    ShapeView::Record(animation_fields())
}

/// The fields of a render component: the sprite, which must be given; the
/// name of the running animation and the animations by name; where the
/// sprite is drawn, how large, and turned by what angle; and its depth.
pub open spec fn render_fields() -> Seq<FieldView> {
    seq![
        FieldView { name: "sprite"@, shape: ShapeView::Text, default: None },
        FieldView {
            name: "animation"@,
            shape: ShapeView::Text,
            default: Some(DynamicView::Str(""@)),
        },
        FieldView {
            name: "animations"@,
            shape: ShapeView::Dictionary(Box::new(animation_schema())),
            default: Some(DynamicView::Table(Seq::empty())),
        },
        number_field("x"@, 0),
        number_field("y"@, 0),
        size_field("width"@, Some(0)),
        size_field("height"@, Some(0)),
        number_field("rotation"@, 0),
        FieldView {
            name: "z_index"@,
            shape: ShapeView::Integer { min: (-0x8000_0000i64), max: 0x7fff_ffffi64 },
            default: Some(DynamicView::Int(0)),
        },
    ]
}

/// The schema of a render component.
pub open spec fn render_schema() -> ShapeView {
    ShapeView::Record(render_fields())
}

/// The animation schema can serve as a schema.
pub proof fn lemma_animation_sound()
    ensures
        distinct_names(animation_fields()),
        sound(animation_schema()),
{
    reveal_strlit("frame_width");
    reveal_strlit("frame_height");
    reveal_strlit("row");
    reveal_strlit("first");
    reveal_strlit("last");
    reveal_strlit("speed");
    reveal_strlit("current_frame");
    let fields = animation_fields();
    assert(fields[0].name == "frame_width"@ && fields[1].name == "frame_height"@ && fields[2].name
        == "row"@ && fields[3].name == "first"@ && fields[4].name == "last"@ && fields[5].name
        == "speed"@ && fields[6].name == "current_frame"@);
    assert("frame_width"@.len() == 11 && "frame_height"@.len() == 12 && "row"@.len() == 3
        && "first"@.len() == 5 && "last"@.len() == 4 && "speed"@.len() == 5
        && "current_frame"@.len() == 13);
    assert("first"@[0] != "speed"@[0]);
    lemma_fields_sound_all(fields, 7);
}

/// The render schema can serve as a schema.
pub proof fn lemma_render_sound()
    ensures
        distinct_names(render_fields()),
        sound(render_schema()),
{
    reveal_strlit("sprite");
    reveal_strlit("animation");
    reveal_strlit("animations");
    reveal_strlit("x");
    reveal_strlit("y");
    reveal_strlit("width");
    reveal_strlit("height");
    reveal_strlit("rotation");
    reveal_strlit("z_index");
    lemma_animation_sound();
    let fields = render_fields();
    assert(fields[0].name == "sprite"@ && fields[1].name == "animation"@ && fields[2].name
        == "animations"@ && fields[3].name == "x"@ && fields[4].name == "y"@ && fields[5].name
        == "width"@ && fields[6].name == "height"@ && fields[7].name == "rotation"@
        && fields[8].name == "z_index"@);
    assert("sprite"@.len() == 6 && "animation"@.len() == 9 && "animations"@.len() == 10
        && "x"@.len() == 1 && "y"@.len() == 1 && "width"@.len() == 5 && "height"@.len() == 6
        && "rotation"@.len() == 8 && "z_index"@.len() == 7);
    assert("sprite"@[0] != "height"@[0]);
    assert("x"@[0] != "y"@[0]);
    let none = DynamicView::Table(Seq::empty());
    assert(accepts(fields[2].shape, none) && normal(fields[2].shape, none) == none) by {
        assert(none.entries() =~= Seq::empty());
    }
    lemma_fields_sound_all(fields, 9);
}

/// A sprite that is spawned without a width or a height has the width or
/// the height zero.
pub proof fn law_render_size_defaults(literal: DynamicView)
    ensures
        literal.field("width"@) is Nil ==> normal(render_schema(), literal).field("width"@)
            == DynamicView::Int(0),
        literal.field("height"@) is Nil ==> normal(render_schema(), literal).field("height"@)
            == DynamicView::Int(0),
{
    lemma_render_sound();
    lemma_decoded_field(render_fields(), literal, 5);
    lemma_decoded_field(render_fields(), literal, 6);
}

/// The shape of a size.
fn size_shape() -> (shape: Shape)
    ensures
        shape@ == (ShapeView::Integer { min: 0, max: 0xffff_ffff }),
{
    Shape::Integer { min: 0, max: 0xffff_ffff }
}

/// The shape of an animation.
pub fn animation_shape() -> (shape: Shape)
    ensures
        shape@ == animation_schema(),
{
    let mut fields = Vec::new();
    fields.push(field("frame_width", size_shape(), None));
    fields.push(field("frame_height", size_shape(), Some(Dynamic::Int(0))));
    fields.push(field("row", size_shape(), Some(Dynamic::Int(0))));
    fields.push(field("first", size_shape(), Some(Dynamic::Int(1))));
    fields.push(field("last", size_shape(), Some(Dynamic::Int(0))));
    fields.push(field("speed", Shape::Number, Some(Dynamic::Float(0))));
    fields.push(field("current_frame", Shape::Number, Some(Dynamic::Float(0x3ff0_0000_0000_0000))));
    assert(Seq::new(fields@.len(), |i: int| fields@[i]@) =~= animation_fields());
    record(fields)
}

/// The shape of a render component.
pub fn render_shape() -> (shape: Shape)
    ensures
        shape@ == render_schema(),
{
    let entries: Vec<(Dynamic, Dynamic)> = Vec::new();
    proof {
        lemma_table_view(entries);
        assert(Dynamic::Table(entries)@.entries() =~= Seq::empty());
    }
    let none = Dynamic::Table(entries);
    let depth = Shape::Integer { min: -0x8000_0000i64, max: 0x7fff_ffffi64 };
    let mut fields = Vec::new();
    fields.push(field("sprite", Shape::Text, None));
    fields.push(field("animation", Shape::Text, Some(Dynamic::text(""))));
    fields.push(field("animations", Shape::Dictionary(Box::new(animation_shape())), Some(none)));
    fields.push(field("x", Shape::Number, Some(Dynamic::Float(0))));
    fields.push(field("y", Shape::Number, Some(Dynamic::Float(0))));
    fields.push(field("width", size_shape(), Some(Dynamic::Int(0))));
    fields.push(field("height", size_shape(), Some(Dynamic::Int(0))));
    fields.push(field("rotation", Shape::Number, Some(Dynamic::Float(0))));
    fields.push(field("z_index", depth, Some(Dynamic::Int(0))));
    assert(Seq::new(fields@.len(), |i: int| fields@[i]@) =~= render_fields());
    record(fields)
}

/// An empty render system.
pub fn render_store() -> (store: Store)
    ensures
        store.inv(),
        store.schema() == render_schema(),
        store.components() == Map::<usize, DynamicView>::empty(),
        store.hooks() == Seq::<Seq<char>>::empty(),
{
    proof {
        lemma_render_sound();
    }
    match Store::with_schema(render_shape(), Vec::new()) {
        Some(store) => {
            assert(store.hooks() =~= Seq::<Seq<char>>::empty());
            store
        },
        None => unreached(),
    }
}

} // verus!
