use luasys::convert::{from_lua, to_lua, MAX_DEPTH};
use luasys::value::Dynamic;

fn text(s: &str) -> Dynamic {
    Dynamic::Str(String::from(s))
}

fn table(entries: Vec<(&str, Dynamic)>) -> Dynamic {
    Dynamic::Table(entries.into_iter().map(|(k, v)| (text(k), v)).collect())
}

#[test]
fn field_finds_the_last_entry_with_the_key() {
    let t = table(vec![("a", Dynamic::Int(1)), ("b", Dynamic::Int(2)), ("a", Dynamic::Int(3))]);
    assert!(t.field("a").unwrap().same(&Dynamic::Int(3)));
    assert!(t.field("b").unwrap().same(&Dynamic::Int(2)));
    assert!(t.field("c").is_none());
    assert!(Dynamic::Int(1).field("a").is_none());
    let keyed_by_number = Dynamic::Table(vec![(Dynamic::Int(1), text("one"))]);
    assert!(keyed_by_number.field("1").is_none());
}

#[test]
fn same_compares_shape_and_entries_in_order() {
    let a = table(vec![("x", Dynamic::Int(1)), ("y", Dynamic::Bool(true))]);
    let b = table(vec![("x", Dynamic::Int(1)), ("y", Dynamic::Bool(true))]);
    let swapped = table(vec![("y", Dynamic::Bool(true)), ("x", Dynamic::Int(1))]);
    let shorter = table(vec![("x", Dynamic::Int(1))]);
    assert!(a.same(&b));
    assert!(!a.same(&swapped));
    assert!(!a.same(&shorter));
    assert!(!Dynamic::Int(1).same(&Dynamic::Float(1)));
    assert!(!Dynamic::Nil.same(&Dynamic::Bool(false)));
    assert!(Dynamic::Nil.same(&Dynamic::Nil));
    assert!(text("a").same(&text("a")));
    assert!(!text("a").same(&text("b")));
    assert!(Dynamic::Float(7).same(&Dynamic::Float(7)));
}

#[test]
fn duplicate_is_a_deep_copy() {
    let inner = table(vec![("k", text("v"))]);
    let outer = table(vec![("inner", inner), ("n", Dynamic::Float(2.5f64.to_bits()))]);
    let copy = outer.duplicate();
    assert!(copy.same(&outer));
    assert!(copy.field("inner").unwrap().field("k").unwrap().same(&text("v")));
}

#[test]
fn kinds_are_told_apart() {
    assert!(Dynamic::Nil.is_nil());
    assert!(!Dynamic::Int(0).is_nil());
    assert!(table(vec![]).is_table());
    assert!(!text("t").is_table());
    assert!(Dynamic::text("abc").same(&text("abc")));
}

#[test]
fn values_cross_into_the_script_and_back() {
    let lua = rlua::Lua::new();
    lua.context(|ctx| {
        let value = table(vec![
            ("flag", Dynamic::Bool(true)),
            ("count", Dynamic::Int(-3)),
            ("ratio", Dynamic::Float(0.25f64.to_bits())),
            ("name", text("héllo")),
            ("nested", table(vec![("deep", Dynamic::Int(1))])),
        ]);
        let script_value = to_lua(ctx, &value).unwrap();
        ctx.globals().set("v", script_value.clone()).unwrap();
        assert!(ctx.load("v.flag == true and v.count == -3").eval::<bool>().unwrap());
        assert!(ctx.load("v.ratio == 0.25 and v.name == 'héllo'").eval::<bool>().unwrap());
        assert!(ctx.load("math.type(v.count) == 'integer'").eval::<bool>().unwrap());
        assert!(ctx.load("math.type(v.ratio) == 'float'").eval::<bool>().unwrap());
        assert!(ctx.load("v.nested.deep == 1").eval::<bool>().unwrap());
        let back = from_lua(ctx, script_value, MAX_DEPTH).unwrap();
        for name in ["flag", "count", "ratio", "name", "nested"] {
            assert!(back.field(name).unwrap().same(value.field(name).unwrap()));
        }
    });
}

#[test]
fn script_values_are_copied_by_kind() {
    let lua = rlua::Lua::new();
    lua.context(|ctx| {
        let eval = |src: &str| from_lua(ctx, ctx.load(src).eval::<rlua::Value>().unwrap(), 8);
        assert!(eval("nil").unwrap().is_nil());
        assert!(eval("false").unwrap().same(&Dynamic::Bool(false)));
        assert!(eval("12").unwrap().same(&Dynamic::Int(12)));
        assert!(eval("1.5").unwrap().same(&Dynamic::Float(1.5f64.to_bits())));
        assert!(eval("'text'").unwrap().same(&text("text")));
        let list = eval("{ 'a', 'b' }").unwrap();
        let expected = Dynamic::Table(vec![
            (Dynamic::Int(1), text("a")),
            (Dynamic::Int(2), text("b")),
        ]);
        assert!(list.same(&expected));
        assert!(eval("'\\xff'").is_none());
        assert!(eval("coroutine.create(function() end)").is_none());
    });
}

#[test]
fn tables_deeper_than_the_limit_are_not_copied() {
    let lua = rlua::Lua::new();
    lua.context(|ctx| {
        let nested = ctx.load("{ { { 1 } } }").eval::<rlua::Value>().unwrap();
        assert!(from_lua(ctx, nested.clone(), 3).is_some());
        assert!(from_lua(ctx, nested.clone(), 2).is_none());
        assert!(from_lua(ctx, nested, 0).is_none());
        let cyclic = ctx.load("local t = {}; t.me = t; return t").eval::<rlua::Value>().unwrap();
        assert!(from_lua(ctx, cyclic, MAX_DEPTH).is_none());
    });
}

#[test]
fn functions_cross_as_references() {
    let lua = rlua::Lua::new();
    lua.context(|ctx| {
        let f = ctx.load("function(x) return x + 1 end").eval::<rlua::Value>().unwrap();
        let held = from_lua(ctx, f, 1).unwrap();
        assert!(matches!(held, Dynamic::Function(_)));
        let copy = held.duplicate();
        assert!(copy.same(&held));
        let back = to_lua(ctx, &copy).unwrap();
        match back {
            rlua::Value::Function(g) => assert_eq!(g.call::<_, i64>(41).unwrap(), 42),
            _ => panic!("not a function"),
        }
    });
}

#[test]
fn a_nil_key_cannot_cross() {
    let lua = rlua::Lua::new();
    lua.context(|ctx| {
        let bad = Dynamic::Table(vec![(Dynamic::Nil, Dynamic::Int(1))]);
        assert!(to_lua(ctx, &bad).is_none());
        let unset = table(vec![("gone", Dynamic::Nil), ("kept", Dynamic::Int(1))]);
        let value = to_lua(ctx, &unset).unwrap();
        let back = from_lua(ctx, value, 2).unwrap();
        assert!(back.same(&table(vec![("kept", Dynamic::Int(1))])));
    });
}

#[test]
fn a_table_larger_than_the_handles_at_hand_is_copied_pair_by_pair() {
    let lua = rlua::Lua::new();
    lua.context(|ctx| {
        let large = ctx
            .load("local t = {} for i = 1, 650000 do t['k' .. i] = 'v' .. i end return t")
            .eval::<rlua::Value>()
            .unwrap();
        let copy = from_lua(ctx, large, 1).unwrap();
        match &copy {
            Dynamic::Table(entries) => assert_eq!(entries.len(), 650000),
            _ => panic!("not a table"),
        }
        assert!(copy.field("k1").unwrap().same(&text("v1")));
        assert!(copy.field("k650000").unwrap().same(&text("v650000")));
    });
}

#[test]
fn a_list_is_copied_in_the_order_of_the_walk() {
    let lua = rlua::Lua::new();
    lua.context(|ctx| {
        let list = ctx.load("{ 'a', 'b', 'c', 'd' }").eval::<rlua::Value>().unwrap();
        let copy = from_lua(ctx, list, 1).unwrap();
        let expected = Dynamic::Table(vec![
            (Dynamic::Int(1), text("a")),
            (Dynamic::Int(2), text("b")),
            (Dynamic::Int(3), text("c")),
            (Dynamic::Int(4), text("d")),
        ]);
        assert!(copy.same(&expected));
    });
}

#[test]
fn with_field_replaces_what_the_last_entry_under_a_key_holds() {
    let sprite = Dynamic::Table(vec![
        (text("x"), Dynamic::Int(1)),
        (text("y"), Dynamic::Int(2)),
        (text("x"), Dynamic::Int(3)),
        (Dynamic::Int(7), Dynamic::Int(4)),
    ]);
    let moved = sprite.with_field("x", Dynamic::Int(9));
    let expected = Dynamic::Table(vec![
        (text("x"), Dynamic::Int(1)),
        (text("y"), Dynamic::Int(2)),
        (text("x"), Dynamic::Int(9)),
        (Dynamic::Int(7), Dynamic::Int(4)),
    ]);
    assert!(moved.same(&expected));
    assert!(moved.field("x").unwrap().same(&Dynamic::Int(9)));
    assert!(moved.field("y").unwrap().same(&Dynamic::Int(2)));
    assert!(sprite.with_field("z", Dynamic::Int(9)).same(&sprite));
    assert!(sprite.with_field("7", Dynamic::Int(9)).same(&sprite));
    assert!(Dynamic::Int(5).with_field("x", Dynamic::Nil).same(&Dynamic::Int(5)));
    assert!(table(vec![]).with_field("x", Dynamic::Int(1)).same(&table(vec![])));
}

fn nested(levels: usize) -> Dynamic {
    let mut value = Dynamic::Int(1);
    for _ in 0..levels {
        value = Dynamic::Table(vec![(Dynamic::Int(1), value)]);
    }
    value
}

#[test]
fn values_nested_deeper_than_the_limit_do_not_cross() {
    let lua = rlua::Lua::new();
    lua.context(|ctx| {
        assert!(to_lua(ctx, &nested(0)).is_some());
        assert!(to_lua(ctx, &nested(MAX_DEPTH)).is_some());
        assert!(to_lua(ctx, &nested(MAX_DEPTH + 1)).is_none());
        let deepest = to_lua(ctx, &nested(MAX_DEPTH)).unwrap();
        assert!(from_lua(ctx, deepest.clone(), MAX_DEPTH).unwrap().same(&nested(MAX_DEPTH)));
        assert!(from_lua(ctx, deepest.clone(), usize::MAX).unwrap().same(&nested(MAX_DEPTH)));
        assert!(from_lua(ctx, deepest, MAX_DEPTH - 1).is_none());
        let deeper = ctx
            .load("local t = 1 for i = 1, 65 do t = { t } end return t")
            .eval::<rlua::Value>()
            .unwrap();
        assert!(from_lua(ctx, deeper.clone(), 65).is_none());
        assert!(from_lua(ctx, deeper, usize::MAX).is_none());
    });
}
