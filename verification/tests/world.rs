use luasys::convert::to_lua;
use luasys::schema::{Field, Shape};
use luasys::script::call_transform;
use luasys::store::Store;
use luasys::system::NativeSystem;
use luasys::value::Dynamic;
use luasys::world::{AccessError, RegistryError, SpawnError, TickError, World};
use std::cell::Cell;
use std::sync::{Arc, Mutex};

fn text(s: &str) -> Dynamic {
    Dynamic::Str(String::from(s))
}

fn number(x: f64) -> Dynamic {
    Dynamic::Float(x.to_bits())
}

fn table(entries: Vec<(&str, Dynamic)>) -> Dynamic {
    Dynamic::Table(entries.into_iter().map(|(k, v)| (text(k), v)).collect())
}

fn field(name: &str, shape: Shape, default: Option<Dynamic>) -> Field {
    Field { name: String::from(name), shape, default }
}

fn names(list: &[&str]) -> Vec<String> {
    list.iter().map(|s| String::from(*s)).collect()
}

fn as_number(value: &Dynamic) -> f64 {
    match value {
        Dynamic::Int(i) => *i as f64,
        Dynamic::Float(bits) => f64::from_bits(*bits),
        _ => panic!("not a number"),
    }
}

fn vector_shape() -> Shape {
    Shape::Record(vec![
        field("x", Shape::Number, Some(number(0.0))),
        field("y", Shape::Number, Some(number(0.0))),
    ])
}

fn zero_vector() -> Dynamic {
    table(vec![("x", number(0.0)), ("y", number(0.0))])
}

fn physics_store() -> Store {
    let shape = Shape::Record(vec![
        field("position", vector_shape(), Some(zero_vector())),
        field("velocity", vector_shape(), Some(zero_vector())),
        field("acceleration", vector_shape(), Some(zero_vector())),
        field("angle", Shape::Number, Some(number(0.0))),
    ]);
    Store::with_schema(shape, Vec::new()).unwrap()
}

fn render_store() -> Store {
    let shape = Shape::Record(vec![
        field("sprite", Shape::Text, None),
        field("width", Shape::Integer { min: 0, max: 4294967295 }, Some(Dynamic::Int(0))),
        field("height", Shape::Integer { min: 0, max: 4294967295 }, Some(Dynamic::Int(0))),
    ]);
    Store::with_schema(shape, Vec::new()).unwrap()
}

fn counter_store() -> Store {
    let shape = Shape::Record(vec![field("n", Shape::Integer { min: -1000, max: 1000 }, None)]);
    Store::with_schema(shape, Vec::new()).unwrap()
}

fn counter(n: i64) -> Dynamic {
    table(vec![("n", Dynamic::Int(n))])
}

fn integrate(physics: &Dynamic) -> Dynamic {
    let axis = |of: &str, name: &str| as_number(physics.field(of).unwrap().field(name).unwrap());
    let vx = axis("velocity", "x") + axis("acceleration", "x");
    let vy = axis("velocity", "y") + axis("acceleration", "y");
    table(vec![
        (
            "position",
            table(vec![
                ("x", number(axis("position", "x") + vx)),
                ("y", number(axis("position", "y") + vy)),
            ]),
        ),
        ("velocity", table(vec![("x", number(vx)), ("y", number(vy))])),
        ("acceleration", physics.field("acceleration").unwrap().duplicate()),
        ("angle", physics.field("angle").unwrap().duplicate()),
    ])
}

const SCRIPT_SYSTEM: &str = r#"
    local sys = { data = {}, ticks = 0 }
    function sys.tick(self) self.ticks = self.ticks + 1 end
    function sys.spawn(self, c) self.data[c.id] = { hp = c.hp } end
    function sys.get(self, id) return self.data[id] end
    function sys.set(self, id, v) self.data[id] = v end
    return sys
"#;

#[test]
fn ids_are_dense_and_size_counts_them() {
    let lua = rlua::Lua::new();
    lua.context(|ctx| {
        let mut world: World<Store> = World::new();
        assert_eq!(world.size(), 0);
        world.add_native_system(ctx, counter_store(), "Counter", "Counter").unwrap();
        for expected in 0..5usize {
            let id = world.spawn(ctx, &table(vec![("Counter", counter(expected as i64))]));
            assert_eq!(id, Ok(expected));
        }
        assert_eq!(world.size(), 5);
        assert_eq!(world.spawn(ctx, &table(vec![])), Ok(5));
        assert_eq!(world.size(), 6);
    });
}

#[test]
fn a_refused_literal_still_uses_up_its_id() {
    let lua = rlua::Lua::new();
    lua.context(|ctx| {
        let mut world: World<Store> = World::new();
        world.add_native_system(ctx, counter_store(), "Counter", "A").unwrap();
        world.add_native_system(ctx, counter_store(), "Counter", "B").unwrap();
        let literals = table(vec![("A", counter(5000)), ("B", counter(2))]);
        assert_eq!(world.spawn(ctx, &literals), Err(SpawnError::Rejected { entity: 0, slot: 0 }));
        assert_eq!(world.size(), 1);
        assert!(world.get(ctx, "A", 0).is_nil());
        assert!(world.get(ctx, "B", 0).same(&counter(2)));
        assert_eq!(world.spawn(ctx, &table(vec![("A", counter(1))])), Ok(1));
    });
}

#[test]
fn get_of_what_is_not_there_is_nil() {
    let lua = rlua::Lua::new();
    lua.context(|ctx| {
        let mut world: World<Store> = World::new();
        world.add_native_system(ctx, counter_store(), "Counter", "Counter").unwrap();
        assert!(world.get(ctx, "Nowhere", 0).is_nil());
        assert!(world.get(ctx, "Counter", 0).is_nil());
        world.spawn(ctx, &table(vec![])).unwrap();
        assert!(world.get(ctx, "Counter", 0).is_nil());
        assert!(world.get(ctx, "Counter", 17).is_nil());
    });
}

#[test]
fn set_never_creates_a_component() {
    let lua = rlua::Lua::new();
    lua.context(|ctx| {
        let mut world: World<Store> = World::new();
        world.add_native_system(ctx, counter_store(), "Counter", "Counter").unwrap();
        world.spawn(ctx, &table(vec![])).unwrap();
        world.set(ctx, "Counter", 0, &counter(3));
        assert!(world.get(ctx, "Counter", 0).is_nil());
        world.set(ctx, "Nowhere", 0, &counter(3));
        assert!(world.get(ctx, "Nowhere", 0).is_nil());
    });
}

#[test]
fn set_overwrites_only_with_what_decodes() {
    let lua = rlua::Lua::new();
    lua.context(|ctx| {
        let mut world: World<Store> = World::new();
        world.add_native_system(ctx, counter_store(), "Counter", "Counter").unwrap();
        world.spawn(ctx, &table(vec![("Counter", counter(1))])).unwrap();
        world.set(ctx, "Counter", 0, &counter(2));
        assert!(world.get(ctx, "Counter", 0).same(&counter(2)));
        world.set(ctx, "Counter", 0, &table(vec![("n", text("three"))]));
        assert!(world.get(ctx, "Counter", 0).same(&counter(2)));
        world.set(ctx, "Counter", 0, &Dynamic::Int(4));
        assert!(world.get(ctx, "Counter", 0).same(&counter(2)));
    });
}

#[test]
fn set_of_what_get_gave_changes_nothing() {
    let lua = rlua::Lua::new();
    lua.context(|ctx| {
        let mut world: World<Store> = World::new();
        world.add_native_system(ctx, physics_store(), "PhysicsSystem", "Physics").unwrap();
        let literal = table(vec![("velocity", table(vec![("x", Dynamic::Int(1))]))]);
        world.spawn(ctx, &table(vec![("Physics", literal)])).unwrap();
        let before = world.get(ctx, "Physics", 0);
        world.set(ctx, "Physics", 0, &before);
        assert!(world.get(ctx, "Physics", 0).same(&before));
    });
}

#[test]
fn system_update_skips_entities_that_lack_a_component() {
    let lua = rlua::Lua::new();
    lua.context(|ctx| {
        let mut world: World<Store> = World::new();
        world.add_native_system(ctx, counter_store(), "Counter", "A").unwrap();
        world.add_native_system(ctx, counter_store(), "Counter", "B").unwrap();
        world.spawn(ctx, &table(vec![("A", counter(1)), ("B", counter(10))])).unwrap();
        world.spawn(ctx, &table(vec![("A", counter(2))])).unwrap();
        world.spawn(ctx, &table(vec![("B", counter(30))])).unwrap();
        world.spawn(ctx, &table(vec![("A", counter(4)), ("B", counter(40))])).unwrap();
        let calls = Cell::new(0u32);
        let swap = |mut args: Vec<Dynamic>| {
            calls.set(calls.get() + 1);
            assert_eq!(args.len(), 2);
            args.reverse();
            args
        };
        world.system_update_with(ctx, &names(&["A", "B"]), &swap);
        assert_eq!(calls.get(), 2);
        assert!(world.get(ctx, "A", 0).same(&counter(10)));
        assert!(world.get(ctx, "B", 0).same(&counter(1)));
        assert!(world.get(ctx, "A", 1).same(&counter(2)));
        assert!(world.get(ctx, "B", 1).is_nil());
        assert!(world.get(ctx, "A", 2).is_nil());
        assert!(world.get(ctx, "B", 2).same(&counter(30)));
        assert!(world.get(ctx, "A", 3).same(&counter(40)));
        assert!(world.get(ctx, "B", 3).same(&counter(4)));
    });
}

#[test]
fn system_update_writes_back_as_far_as_the_results_go() {
    let lua = rlua::Lua::new();
    lua.context(|ctx| {
        let mut world: World<Store> = World::new();
        world.add_native_system(ctx, counter_store(), "Counter", "A").unwrap();
        world.add_native_system(ctx, counter_store(), "Counter", "B").unwrap();
        world.spawn(ctx, &table(vec![("A", counter(1)), ("B", counter(10))])).unwrap();
        let first_only = |_args: Vec<Dynamic>| vec![counter(7)];
        world.system_update_with(ctx, &names(&["A", "B"]), &first_only);
        assert!(world.get(ctx, "A", 0).same(&counter(7)));
        assert!(world.get(ctx, "B", 0).same(&counter(10)));
        let too_many = |_args: Vec<Dynamic>| vec![counter(8), counter(9), counter(99)];
        world.system_update_with(ctx, &names(&["A", "B"]), &too_many);
        assert!(world.get(ctx, "A", 0).same(&counter(8)));
        assert!(world.get(ctx, "B", 0).same(&counter(9)));
    });
}

#[test]
fn entity_update_aborts_without_any_write() {
    let lua = rlua::Lua::new();
    lua.context(|ctx| {
        let mut world: World<Store> = World::new();
        world.add_native_system(ctx, counter_store(), "Counter", "A").unwrap();
        world.add_native_system(ctx, counter_store(), "Counter", "B").unwrap();
        world.spawn(ctx, &table(vec![("A", counter(1))])).unwrap();
        let calls = Cell::new(0u32);
        let bump = |_args: Vec<Dynamic>| {
            calls.set(calls.get() + 1);
            vec![counter(5), counter(6)]
        };
        let outcome = world.entity_update_with(ctx, 0, &names(&["A", "B"]), &bump);
        assert!(outcome.is_none());
        assert_eq!(calls.get(), 0);
        assert!(world.get(ctx, "A", 0).same(&counter(1)));
        assert!(world.get(ctx, "B", 0).is_nil());
        let outcome = world.entity_update_with(ctx, 0, &names(&["A"]), &bump);
        assert_eq!(outcome.map(|out| out.len()), Some(2));
        assert_eq!(calls.get(), 1);
        assert!(world.get(ctx, "A", 0).same(&counter(5)));
    });
}

#[test]
fn physics_moves_by_its_velocity_in_one_step() {
    let lua = rlua::Lua::new();
    lua.context(|ctx| {
        let mut world: World<Store> = World::new();
        world.add_native_system(ctx, physics_store(), "PhysicsSystem", "Physics").unwrap();
        let literal = table(vec![
            ("position", table(vec![("x", Dynamic::Int(0)), ("y", Dynamic::Int(0))])),
            ("velocity", table(vec![("x", Dynamic::Int(1)), ("y", Dynamic::Int(0))])),
        ]);
        assert_eq!(world.spawn(ctx, &table(vec![("Physics", literal)])), Ok(0));
        assert_eq!(world.tick(ctx), Ok(()));
        let step = |args: Vec<Dynamic>| vec![integrate(&args[0])];
        world.system_update_with(ctx, &names(&["Physics"]), &step);
        let physics = world.get(ctx, "Physics", 0);
        let position = physics.field("position").unwrap();
        assert_eq!(as_number(position.field("x").unwrap()), 1.0);
        assert_eq!(as_number(position.field("y").unwrap()), 0.0);
        assert_eq!(as_number(physics.field("angle").unwrap()), 0.0);
    });
}

#[test]
fn render_defaults_fill_missing_size() {
    let lua = rlua::Lua::new();
    lua.context(|ctx| {
        let mut world: World<Store> = World::new();
        assert_eq!(world.add_native_system(ctx, render_store(), "RenderSystem", "Render"), Ok(()));
        let id = world
            .spawn(ctx, &table(vec![("Render", table(vec![("sprite", text("foo"))]))]))
            .unwrap();
        assert_eq!(id, 0);
        let got = world.get(ctx, "Render", 0);
        assert!(got.field("width").unwrap().same(&Dynamic::Int(0)));
        assert!(got.field("height").unwrap().same(&Dynamic::Int(0)));
        assert!(got.field("sprite").unwrap().same(&text("foo")));
    });
}

#[test]
fn second_system_under_a_name_is_refused() {
    let lua = rlua::Lua::new();
    lua.context(|ctx| {
        let mut world: World<Store> = World::new();
        assert_eq!(world.add_native_system(ctx, Store::new(), "A", "Same"), Ok(()));
        world.spawn(ctx, &table(vec![("Same", table(vec![]))])).unwrap();
        assert_eq!(
            world.add_native_system(ctx, render_store(), "B", "Same"),
            Err(RegistryError::NameTaken)
        );
        let script = ctx.load(SCRIPT_SYSTEM).eval::<rlua::Table>().unwrap();
        assert_eq!(world.add_lua_system(ctx, script, "C", "Same"), Err(RegistryError::NameTaken));
        assert_eq!(world.len(), 1);
        assert_eq!(world.is_script("Same"), Some(false));
        assert!(world.get(ctx, "Same", 0).same(&table(vec![])));
    });
}

#[test]
fn hooks_run_when_a_system_is_registered() {
    let lua = rlua::Lua::new();
    lua.context(|ctx| {
        let mut world: World<Store> = World::new();
        let hooks = vec![String::from("installed = 41"), String::from("installed = installed + 1")];
        let store = Store::with_schema(Shape::Number, hooks).unwrap();
        assert_eq!(world.add_native_system(ctx, store, "S", "S"), Ok(()));
        assert_eq!(ctx.globals().get::<_, i64>("installed").unwrap(), 42);
        let broken = Store::with_schema(Shape::Number, vec![String::from("error('no')")]).unwrap();
        assert_eq!(world.add_native_system(ctx, broken, "T", "T"), Err(RegistryError::HookFailed));
        assert_eq!(world.find("T"), Some(1));
    });
}

#[test]
fn script_systems_stand_behind_the_same_calls() {
    let lua = rlua::Lua::new();
    lua.context(|ctx| {
        let mut world: World<Store> = World::new();
        let script = ctx.load(SCRIPT_SYSTEM).eval::<rlua::Table>().unwrap();
        assert_eq!(world.add_lua_system(ctx, script.clone(), "Health", "Health"), Ok(()));
        world.add_native_system(ctx, counter_store(), "Counter", "Counter").unwrap();
        assert_eq!(world.is_script("Health"), Some(true));
        assert_eq!(world.is_script("Counter"), Some(false));
        assert_eq!(world.is_script("Nowhere"), None);
        let literals = table(vec![
            ("Health", table(vec![("hp", Dynamic::Int(9))])),
            ("Counter", counter(1)),
        ]);
        assert_eq!(world.spawn(ctx, &literals), Ok(0));
        assert!(world.get(ctx, "Health", 0).field("hp").unwrap().same(&Dynamic::Int(9)));
        assert!(world.get(ctx, "Health", 1).is_nil());
        world.set(ctx, "Health", 0, &table(vec![("hp", Dynamic::Int(4))]));
        assert!(world.get(ctx, "Health", 0).field("hp").unwrap().same(&Dynamic::Int(4)));
        assert_eq!(world.tick(ctx), Ok(()));
        assert_eq!(world.tick(ctx), Ok(()));
        assert_eq!(script.get::<_, i64>("ticks").unwrap(), 2);
    });
}

#[test]
fn a_script_system_may_lack_every_function() {
    let lua = rlua::Lua::new();
    lua.context(|ctx| {
        let mut world: World<Store> = World::new();
        let bare = ctx.create_table().unwrap();
        assert_eq!(world.add_lua_system(ctx, bare, "Bare", "Bare"), Ok(()));
        assert_eq!(world.spawn(ctx, &table(vec![("Bare", table(vec![]))])), Ok(0));
        assert!(world.get(ctx, "Bare", 0).is_nil());
        world.set(ctx, "Bare", 0, &counter(1));
        assert_eq!(world.tick(ctx), Ok(()));
    });
}

#[test]
fn a_failing_script_tick_stops_the_tick() {
    let lua = rlua::Lua::new();
    lua.context(|ctx| {
        let mut world: World<Store> = World::new();
        world.add_native_system(ctx, counter_store(), "Counter", "Counter").unwrap();
        let failing =
            ctx.load("return { tick = function(self) error('boom') end }").eval::<rlua::Table>();
        world.add_lua_system(ctx, failing.unwrap(), "Failing", "Failing").unwrap();
        assert_eq!(world.tick(ctx), Err(TickError::ScriptFailed { slot: 1 }));
    });
}

#[test]
fn a_failing_script_spawn_is_reported() {
    let lua = rlua::Lua::new();
    lua.context(|ctx| {
        let mut world: World<Store> = World::new();
        let failing = ctx
            .load("return { spawn = function(self, c) error('boom') end }")
            .eval::<rlua::Table>();
        world.add_lua_system(ctx, failing.unwrap(), "Failing", "Failing").unwrap();
        world.add_native_system(ctx, counter_store(), "Counter", "Counter").unwrap();
        let literals = table(vec![("Failing", table(vec![])), ("Counter", counter(3))]);
        assert_eq!(
            world.spawn(ctx, &literals),
            Err(SpawnError::ScriptFailed { entity: 0, slot: 0 })
        );
        assert!(world.get(ctx, "Counter", 0).same(&counter(3)));
        assert_eq!(world.size(), 1);
    });
}

#[test]
fn updates_take_a_script_function_as_transform() {
    let lua = rlua::Lua::new();
    lua.context(|ctx| {
        let mut world: World<Store> = World::new();
        world.add_native_system(ctx, counter_store(), "Counter", "A").unwrap();
        world.add_native_system(ctx, counter_store(), "Counter", "B").unwrap();
        world.spawn(ctx, &table(vec![("A", counter(1)), ("B", counter(10))])).unwrap();
        world.spawn(ctx, &table(vec![("A", counter(2))])).unwrap();
        let add = ctx
            .load("function(a, b) a.n = a.n + b.n; b.n = 0; return a, b end")
            .eval::<rlua::Function>()
            .unwrap();
        world.system_update(ctx, &names(&["A", "B"]), &add);
        assert!(world.get(ctx, "A", 0).same(&counter(11)));
        assert!(world.get(ctx, "B", 0).same(&counter(0)));
        assert!(world.get(ctx, "A", 1).same(&counter(2)));
        let double = ctx.load("function(a) a.n = a.n * 2; return a end").eval::<rlua::Function>();
        let double = double.unwrap();
        assert!(world.entity_update(ctx, 1, &names(&["A"]), &double).is_some());
        assert!(world.get(ctx, "A", 1).same(&counter(4)));
        assert!(world.entity_update(ctx, 1, &names(&["A", "B"]), &double).is_none());
        assert!(world.get(ctx, "A", 1).same(&counter(4)));
        let failing = ctx.load("function(a) error('boom') end").eval::<rlua::Function>().unwrap();
        let outcome = world.entity_update(ctx, 1, &names(&["A"]), &failing);
        assert_eq!(outcome.map(|out| out.len()), Some(0));
        assert!(world.get(ctx, "A", 1).same(&counter(4)));
    });
}

#[test]
fn gather_and_write_back_are_the_two_halves_of_an_update() {
    let lua = rlua::Lua::new();
    lua.context(|ctx| {
        let mut world: World<Store> = World::new();
        world.add_native_system(ctx, counter_store(), "Counter", "A").unwrap();
        world.add_native_system(ctx, counter_store(), "Counter", "B").unwrap();
        world.spawn(ctx, &table(vec![("A", counter(1)), ("B", counter(2))])).unwrap();
        world.spawn(ctx, &table(vec![("B", counter(3))])).unwrap();
        let both = names(&["A", "B"]);
        let gathered = world.gather(ctx, &both, 0).unwrap();
        assert_eq!(gathered.len(), 2);
        assert!(gathered[0].same(&counter(1)));
        assert!(gathered[1].same(&counter(2)));
        assert!(world.gather(ctx, &both, 1).is_none());
        assert!(world.gather(ctx, &names(&["A", "Nowhere"]), 0).is_none());
        world.write_back(ctx, &both, 0, &vec![counter(5), counter(6)]);
        assert!(world.get(ctx, "A", 0).same(&counter(5)));
        assert!(world.get(ctx, "B", 0).same(&counter(6)));
        world.write_back(ctx, &both, 1, &vec![counter(7), counter(8)]);
        assert!(world.get(ctx, "A", 1).is_nil());
        assert!(world.get(ctx, "B", 1).same(&counter(8)));
    });
}

#[test]
fn native_systems_are_handed_out_by_name() {
    let lua = rlua::Lua::new();
    lua.context(|ctx| {
        let mut world: World<Store> = World::new();
        world.add_native_system(ctx, counter_store(), "Counter", "Counter").unwrap();
        let script = ctx.create_table().unwrap();
        world.add_lua_system(ctx, script, "Script", "Script").unwrap();
        world.spawn(ctx, &table(vec![("Counter", counter(1))])).unwrap();
        let seen = Cell::new(0usize);
        assert_eq!(world.read_native_system("Counter", |s: &Store| seen.set(s.len())), Ok(()));
        assert_eq!(seen.get(), 1);
        assert_eq!(
            world.read_native_system("Script", |_s: &Store| ()),
            Err(AccessError::WrongSlotKind)
        );
        assert_eq!(
            world.read_native_system("Nowhere", |_s: &Store| ()),
            Err(AccessError::UnknownSystem)
        );
        let grow = |mut s: Store| {
            s.spawn(9, &counter(9)).unwrap();
            s
        };
        assert_eq!(world.write_native_system("Counter", grow), Ok(()));
        assert!(world.get(ctx, "Counter", 9).same(&counter(9)));
        assert_eq!(
            world.write_native_system("Script", |s: Store| s),
            Err(AccessError::WrongSlotKind)
        );
        assert_eq!(
            world.write_native_system("Nowhere", |s: Store| s),
            Err(AccessError::UnknownSystem)
        );
    });
}

#[test]
fn save_lists_every_slot_under_its_name() {
    let lua = rlua::Lua::new();
    lua.context(|ctx| {
        let mut world: World<Store> = World::new();
        world.add_native_system(ctx, counter_store(), "Counter", "Counter").unwrap();
        let script = ctx.create_table().unwrap();
        world.add_lua_system(ctx, script, "Script", "Script").unwrap();
        world.spawn(ctx, &table(vec![("Counter", counter(1))])).unwrap();
        world.spawn(ctx, &table(vec![])).unwrap();
        world.spawn(ctx, &table(vec![("Counter", counter(3))])).unwrap();
        let snapshot = world.save();
        assert_eq!(snapshot.len(), 2);
        assert_eq!(snapshot[0].0, "Counter");
        let entries = snapshot[0].1.as_ref().unwrap();
        assert_eq!(entries.len(), 2);
        assert_eq!(entries[0].0, 0);
        assert!(entries[0].1.same(&counter(1)));
        assert_eq!(entries[1].0, 2);
        assert!(entries[1].1.same(&counter(3)));
        assert_eq!(snapshot[1].0, "Script");
        assert!(snapshot[1].1.is_none());
    });
}

#[test]
fn a_script_system_is_asked_only_for_ids_that_fit_a_script_integer() {
    let lua = rlua::Lua::new();
    lua.context(|ctx| {
        let mut world: World<Store> = World::new();
        let echo = ctx
            .load("return { asked = 0, get = function(self, e) self.asked = self.asked + 1; return e + 1 end }")
            .eval::<rlua::Table>()
            .unwrap();
        world.add_lua_system(ctx, echo.clone(), "Echo", "Echo").unwrap();
        assert!(world.get(ctx, "Echo", 3).same(&Dynamic::Int(4)));
        assert!(world.get(ctx, "Echo", i64::MAX as usize - 1).same(&Dynamic::Int(i64::MAX)));
        assert_eq!(echo.get::<_, i64>("asked").unwrap(), 2);
        assert!(world.get(ctx, "Echo", i64::MAX as usize + 1).is_nil());
        assert!(world.get(ctx, "Echo", usize::MAX).is_nil());
        assert_eq!(echo.get::<_, i64>("asked").unwrap(), 2);
    });
}

#[test]
fn what_a_script_system_answers_is_copied_to_a_depth() {
    let lua = rlua::Lua::new();
    lua.context(|ctx| {
        let mut world: World<Store> = World::new();
        let nest = ctx
            .load(
                "return { get = function(self, e) local t = {} for i = 1, e do t = { t } end return t end, \
                 none = 0 }",
            )
            .eval::<rlua::Table>()
            .unwrap();
        world.add_lua_system(ctx, nest, "Nest", "Nest").unwrap();
        assert!(world.get(ctx, "Nest", 0).is_table());
        assert!(world.get(ctx, "Nest", 63).is_table());
        assert!(world.get(ctx, "Nest", 64).is_nil());
    });
}

#[test]
fn a_transform_that_returns_nothing_writes_nothing() {
    let lua = rlua::Lua::new();
    lua.context(|ctx| {
        let mut world: World<Store> = World::new();
        world.add_native_system(ctx, counter_store(), "Counter", "A").unwrap();
        world.spawn(ctx, &table(vec![("A", counter(1))])).unwrap();
        let silent = ctx.load("function(a) end").eval::<rlua::Function>().unwrap();
        let outcome = world.entity_update(ctx, 0, &names(&["A"]), &silent);
        assert_eq!(outcome.map(|out| out.len()), Some(0));
        assert!(world.get(ctx, "A", 0).same(&counter(1)));
    });
}

const ANSWERING_SYSTEM: &str = r#"
    local sys = { asked = 0, told = 0 }
    function sys.get(self, id) self.asked = self.asked + 1; return { hp = 1 } end
    function sys.set(self, id, v) self.told = self.told + 1 end
    return sys
"#;

#[test]
fn an_update_beside_a_script_system_passes_over_what_lacks_a_native_component() {
    let lua = rlua::Lua::new();
    lua.context(|ctx| {
        let mut world: World<Store> = World::new();
        let script = ctx.load(ANSWERING_SYSTEM).eval::<rlua::Table>().unwrap();
        world.add_lua_system(ctx, script.clone(), "Health", "Health").unwrap();
        world.add_native_system(ctx, counter_store(), "Counter", "A").unwrap();
        world.add_native_system(ctx, counter_store(), "Counter", "B").unwrap();
        world.spawn(ctx, &table(vec![("A", counter(1)), ("B", counter(5))])).unwrap();
        world.spawn(ctx, &table(vec![("B", counter(6))])).unwrap();
        world.spawn(ctx, &table(vec![("A", counter(3)), ("B", counter(7))])).unwrap();
        ctx.globals().set("calls", 0).unwrap();
        let bump = ctx
            .load("function(h, a) calls = calls + 1; a.n = a.n + 10; return h, a end")
            .eval::<rlua::Function>()
            .unwrap();
        let names = names(&["Health", "A"]);
        assert!(world.entity_update(ctx, 1, &names, &bump).is_none());
        assert_eq!(ctx.globals().get::<_, i64>("calls").unwrap(), 0);
        assert_eq!(script.get::<_, i64>("told").unwrap(), 0);
        assert!(world.get(ctx, "A", 1).is_nil());
        assert!(world.get(ctx, "B", 1).same(&counter(6)));
        world.system_update(ctx, &names, &bump);
        assert_eq!(ctx.globals().get::<_, i64>("calls").unwrap(), 2);
        assert_eq!(script.get::<_, i64>("told").unwrap(), 2);
        assert!(world.get(ctx, "A", 0).same(&counter(11)));
        assert!(world.get(ctx, "A", 1).is_nil());
        assert!(world.get(ctx, "A", 2).same(&counter(13)));
        assert!(world.get(ctx, "B", 0).same(&counter(5)));
        assert!(world.get(ctx, "B", 1).same(&counter(6)));
        assert!(world.get(ctx, "B", 2).same(&counter(7)));
        assert_eq!(world.size(), 3);
    });
}

#[test]
fn an_update_passes_over_an_entity_whose_last_named_component_is_missing() {
    let lua = rlua::Lua::new();
    lua.context(|ctx| {
        let mut world: World<Store> = World::new();
        let script = ctx.load(ANSWERING_SYSTEM).eval::<rlua::Table>().unwrap();
        world.add_lua_system(ctx, script.clone(), "Health", "Health").unwrap();
        world.add_native_system(ctx, counter_store(), "Counter", "A").unwrap();
        world.add_native_system(ctx, counter_store(), "Counter", "B").unwrap();
        world.spawn(ctx, &table(vec![("A", counter(1))])).unwrap();
        ctx.globals().set("calls", 0).unwrap();
        let bump = ctx
            .load("function(a, h, b) calls = calls + 1; a.n = 0; return a, h, b end")
            .eval::<rlua::Function>()
            .unwrap();
        let names = names(&["A", "Health", "B"]);
        assert!(world.entity_update(ctx, 0, &names, &bump).is_none());
        world.system_update(ctx, &names, &bump);
        assert_eq!(ctx.globals().get::<_, i64>("calls").unwrap(), 0);
        assert_eq!(script.get::<_, i64>("told").unwrap(), 0);
        assert!(world.get(ctx, "A", 0).same(&counter(1)));
    });
}

#[test]
fn a_transform_is_not_handed_more_arguments_than_the_limit() {
    let lua = rlua::Lua::new();
    lua.context(|ctx| {
        let mut world: World<Store> = World::new();
        world.add_native_system(ctx, counter_store(), "Counter", "A").unwrap();
        world.spawn(ctx, &table(vec![("A", counter(1))])).unwrap();
        ctx.globals().set("calls", 0).unwrap();
        let count = ctx
            .load("function(...) calls = calls + 1; return ... end")
            .eval::<rlua::Function>()
            .unwrap();
        let many: Vec<String> = (0..luasys::convert::MAX_ARGUMENTS + 1).map(|_| String::from("A")).collect();
        let outcome = world.entity_update(ctx, 0, &many, &count);
        assert_eq!(outcome.map(|out| out.len()), Some(0));
        assert_eq!(ctx.globals().get::<_, i64>("calls").unwrap(), 0);
        assert!(world.get(ctx, "A", 0).same(&counter(1)));
        let few = names(&["A", "A"]);
        let outcome = world.entity_update(ctx, 0, &few, &count);
        assert_eq!(outcome.map(|out| out.len()), Some(2));
        assert_eq!(ctx.globals().get::<_, i64>("calls").unwrap(), 1);
    });
}

#[test]
fn a_transform_may_call_into_the_world_between_the_steps_of_an_update() {
    let lua = rlua::Lua::new();
    lua.context(|ctx| {
        let mut world: World<Store> = World::new();
        world.add_native_system(ctx, counter_store(), "Counter", "A").unwrap();
        world.add_native_system(ctx, counter_store(), "Counter", "B").unwrap();
        world.spawn(ctx, &table(vec![("A", counter(1)), ("B", counter(10))])).unwrap();
        let shared = Arc::new(Mutex::new(world));
        let seen = shared.clone();
        let peek = ctx
            .create_function(move |ctx, entity: usize| {
                let world = seen.try_lock().map_err(|_| rlua::Error::external("in use"))?;
                Ok(to_lua(ctx, &world.get(ctx, "B", entity)).unwrap_or(rlua::Value::Nil))
            })
            .unwrap();
        ctx.globals().set("peek", peek).unwrap();
        let add = ctx
            .load("function(a) a.n = a.n + peek(0).n; return a end")
            .eval::<rlua::Function>()
            .unwrap();
        let names = names(&["A"]);

        let args = shared.lock().unwrap().gather(ctx, &names, 0).unwrap();
        let returned = call_transform(ctx, &add, &args).unwrap();
        shared.lock().unwrap().write_back(ctx, &names, 0, &returned);
        assert!(shared.lock().unwrap().get(ctx, "A", 0).same(&counter(11)));

        let mut held = shared.lock().unwrap();
        let outcome = held.entity_update(ctx, 0, &names, &add);
        assert_eq!(outcome.map(|out| out.len()), Some(0));
        assert!(held.get(ctx, "A", 0).same(&counter(11)));
        assert!(held.get(ctx, "B", 0).same(&counter(10)));
    });
}
