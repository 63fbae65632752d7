use luasys::components::{
    animation_shape, physics_shape, physics_store, render_shape, render_store, vector_shape, zero,
};
use luasys::store::Store;
use luasys::system::NativeSystem;
use luasys::value::Dynamic;
use luasys::world::{SpawnError, World};

fn text(s: &str) -> Dynamic {
    Dynamic::Str(String::from(s))
}

fn number(x: f64) -> Dynamic {
    Dynamic::Float(x.to_bits())
}

fn table(entries: Vec<(&str, Dynamic)>) -> Dynamic {
    Dynamic::Table(entries.into_iter().map(|(k, v)| (text(k), v)).collect())
}

#[test]
fn the_zero_vector_has_both_axes_at_zero() {
    assert!(zero().same(&table(vec![("x", number(0.0)), ("y", number(0.0))])));
    assert!(vector_shape().is_sound());
    assert!(vector_shape().decode(&table(vec![])).unwrap().same(&zero()));
    let given = table(vec![("y", Dynamic::Int(3))]);
    let decoded = vector_shape().decode(&given).unwrap();
    assert!(decoded.same(&table(vec![("x", number(0.0)), ("y", Dynamic::Int(3))])));
    assert!(vector_shape().decode(&table(vec![("x", text("left"))])).is_none());
}

#[test]
fn a_physics_component_defaults_to_rest_at_the_origin() {
    assert!(physics_shape().is_sound());
    let mut physics = physics_store(vec![String::from("rest = true")]);
    assert_eq!(physics.globals(), vec![String::from("rest = true")]);
    assert!(physics.spawn(4, &table(vec![])).is_ok());
    let expected = table(vec![
        ("position", zero()),
        ("velocity", zero()),
        ("acceleration", zero()),
        ("angle", number(0.0)),
    ]);
    assert!(physics.get(4).same(&expected));
    let moving = table(vec![("velocity", table(vec![("x", number(1.0))]))]);
    assert!(physics.spawn(5, &moving).is_ok());
    let velocity = table(vec![("x", number(1.0)), ("y", number(0.0))]);
    assert!(physics.get(5).field("velocity").unwrap().same(&velocity));
    assert!(physics.get(5).field("position").unwrap().same(&zero()));
    assert!(physics.spawn(6, &table(vec![("angle", text("north"))])).is_err());
    assert!(physics.get(6).is_nil());
}

#[test]
fn an_animation_starts_at_its_first_frame() {
    assert!(animation_shape().is_sound());
    let strip = animation_shape().decode(&table(vec![("frame_width", Dynamic::Int(16))])).unwrap();
    let expected = table(vec![
        ("frame_width", Dynamic::Int(16)),
        ("frame_height", Dynamic::Int(0)),
        ("row", Dynamic::Int(0)),
        ("first", Dynamic::Int(1)),
        ("last", Dynamic::Int(0)),
        ("speed", number(0.0)),
        ("current_frame", number(1.0)),
    ]);
    assert!(strip.same(&expected));
    assert!(animation_shape().decode(&table(vec![])).is_none());
    assert!(animation_shape().decode(&table(vec![("frame_width", Dynamic::Int(-1))])).is_none());
    let widest = table(vec![("frame_width", Dynamic::Int(u32::MAX as i64))]);
    assert!(animation_shape().decode(&widest).is_some());
    let wider = table(vec![("frame_width", Dynamic::Int(u32::MAX as i64 + 1))]);
    assert!(animation_shape().decode(&wider).is_none());
}

#[test]
fn a_sprite_without_a_size_has_the_size_zero() {
    assert!(render_shape().is_sound());
    let lua = rlua::Lua::new();
    lua.context(|ctx| {
        let mut world: World<Store> = World::new();
        world.add_native_system(ctx, render_store(), "RenderSystem", "Render").unwrap();
        let literal = table(vec![("Render", table(vec![("sprite", text("foo"))]))]);
        assert_eq!(world.spawn(ctx, &literal), Ok(0));
        let got = world.get(ctx, "Render", 0);
        let expected = table(vec![
            ("sprite", text("foo")),
            ("animation", text("")),
            ("animations", table(vec![])),
            ("x", number(0.0)),
            ("y", number(0.0)),
            ("width", Dynamic::Int(0)),
            ("height", Dynamic::Int(0)),
            ("rotation", number(0.0)),
            ("z_index", Dynamic::Int(0)),
        ]);
        assert!(got.same(&expected));
        let nameless = table(vec![("Render", table(vec![("width", Dynamic::Int(3))]))]);
        assert_eq!(world.spawn(ctx, &nameless), Err(SpawnError::Rejected { entity: 1, slot: 0 }));
        let deep = table(vec![(
            "Render",
            table(vec![("sprite", text("foo")), ("z_index", Dynamic::Int(i32::MIN as i64))]),
        )]);
        assert_eq!(world.spawn(ctx, &deep), Ok(2));
        let deeper = table(vec![(
            "Render",
            table(vec![("sprite", text("foo")), ("z_index", Dynamic::Int(i32::MIN as i64 - 1))]),
        )]);
        assert_eq!(world.spawn(ctx, &deeper), Err(SpawnError::Rejected { entity: 3, slot: 0 }));
    });
}
