use crate::convert::{from_lua, to_lua, within, MAX_ARGUMENTS, MAX_DEPTH};
use crate::lua::{invoke, member, peel, recall, wrap, Peeled};
use crate::value::{lemma_table_view, Dynamic, DynamicView};
use vstd::prelude::*;
use vstd::string::*;

verus! {

/// The function that the script table kept under `key` has under `name`,
/// together with the table itself as a value to hand to it. `None` where
/// the key yields no table or the table has no function of that name.
pub(crate) fn script_method<'lua>(ctx: rlua::Context<'lua>, key: &rlua::RegistryKey, name: &str) -> Option<
    (rlua::Function<'lua>, rlua::Value<'lua>),
> {
    let kept = match recall(ctx, key) {
        Some(kept) => kept,
        None => {
            return None;
        },
    };
    let table = match peel(kept).into_table() {
        Some(table) => table,
        None => {
            return None;
        },
    };
    let found = match member(&table, name) {
        Some(found) => found,
        None => {
            return None;
        },
    };
    match peel(found).into_function() {
        Some(function) => Some((function, wrap(Peeled::Table(table)))),
        None => None,
    }
}

/// Calls the script system's `tick(self)`, if it has one. Returns false
/// where the call raised an error: see [`settled`].
pub(crate) fn script_tick<'lua>(ctx: rlua::Context<'lua>, key: &rlua::RegistryKey) -> bool {
    let called = match script_method(ctx, key, "tick") {
        Some((function, table)) => {
            let mut args: Vec<rlua::Value<'lua>> = Vec::new();
            args.push(table);
            Some(invoke(&function, args).is_some())
        },
        None => None,
    };
    settled(called)
}

/// The literal with the entity's id stored under `"id"`: what a script
/// system's `spawn` is handed. A literal that is no table comes back as it
/// is.
pub(crate) fn with_id(literal: &Dynamic, entity: i64) -> (r: Dynamic)
    ensures
        literal@ is Table ==> r@ == DynamicView::Table(
            literal@.entries().push((DynamicView::Str("id"@), DynamicView::Int(entity))),
        ),
        !(literal@ is Table) ==> r@ == literal@,
{
    let copy = literal.duplicate();
    match copy {
        Dynamic::Table(mut entries) => {
            proof {
                lemma_table_view(entries);
            }
            let ghost before = entries;
            entries.push((Dynamic::text("id"), Dynamic::Int(entity)));
            proof {
                lemma_table_view(entries);
                assert(Dynamic::Table(entries)@.entries() =~= literal@.entries().push(
                    (DynamicView::Str("id"@), DynamicView::Int(entity)),
                ));
            }
            Dynamic::Table(entries)
        },
        other => other,
    }
}

/// Calls the script system's `spawn(self, literal)`, if it has one, with the
/// entity's id stored in the literal under `"id"`. Returns false where the
/// literal could not be handed over or the call raised an error: see
/// [`settled`].
pub(crate) fn script_spawn<'lua>(
    ctx: rlua::Context<'lua>,
    key: &rlua::RegistryKey,
    entity: usize,
    literal: &Dynamic,
) -> bool {
    let called = match script_method(ctx, key, "spawn") {
        Some((function, table)) => {
            let object = match entity_id(entity) {
                Some(id) => to_lua(ctx, &with_id(literal, id)),
                None => None,
            };
            match object {
                Some(object) => {
                    let mut args: Vec<rlua::Value<'lua>> = Vec::new();
                    args.push(table);
                    args.push(object);
                    Some(invoke(&function, args).is_some())
                },
                None => Some(false),
            }
        },
        None => None,
    };
    settled(called)
}

/// What the script system's `get(self, entity)` returns, copied out of the
/// environment; `Nil` where it has no such function, the call raised an
/// error, or the result cannot be copied.
pub(crate) fn script_get<'lua>(ctx: rlua::Context<'lua>, key: &rlua::RegistryKey, entity: usize) -> (value:
    Dynamic)
    ensures
        entity > i64::MAX ==> value@ is Nil,
        within(value@, MAX_DEPTH as nat),
{
    match script_method(ctx, key, "get") {
        Some((function, table)) => {
            let id = match entity_id(entity) {
                Some(id) => id,
                None => {
                    return Dynamic::Nil;
                },
            };
            let mut args: Vec<rlua::Value<'lua>> = Vec::new();
            args.push(table);
            args.push(wrap(Peeled::Int(id)));
            let first = match invoke(&function, args) {
                Some(results) => first_of(results),
                None => None,
            };
            match first {
                Some(first) => match from_lua(ctx, first, MAX_DEPTH) {
                    Some(value) => value,
                    None => Dynamic::Nil,
                },
                None => Dynamic::Nil,
            }
        },
        None => Dynamic::Nil,
    }
}

/// Calls the script system's `set(self, entity, value)`, if it has one.
/// Returns false where the value could not be handed over or the call raised
/// an error: see [`settled`].
pub(crate) fn script_set<'lua>(
    ctx: rlua::Context<'lua>,
    key: &rlua::RegistryKey,
    entity: usize,
    value: &Dynamic,
) -> bool {
    let called = match script_method(ctx, key, "set") {
        Some((function, table)) => {
            let object = match entity_id(entity) {
                Some(id) => match to_lua(ctx, value) {
                    Some(object) => Some((wrap(Peeled::Int(id)), object)),
                    None => None,
                },
                None => None,
            };
            match object {
                Some((id, object)) => {
                    let mut args: Vec<rlua::Value<'lua>> = Vec::new();
                    args.push(table);
                    args.push(id);
                    args.push(object);
                    Some(invoke(&function, args).is_some())
                },
                None => Some(false),
            }
        },
        None => None,
    };
    settled(called)
}

/// Calls a script function with the given values as its arguments, in order,
/// and copies its results out of the environment, in order. `None` where
/// there are more than [`MAX_ARGUMENTS`] arguments, one of them could not be
/// handed over, the call raised an error, or a result cannot be copied.
///
/// This is the middle step of an update, between [`World::gather`] and
/// [`World::write_back`]: a host that shares one world among several
/// holders makes the three calls itself and lets go of the world for this
/// one, so that the function may call into the world in its turn.
///
/// [`World::gather`]: crate::world::World::gather
/// [`World::write_back`]: crate::world::World::write_back
pub fn call_transform<'lua>(
    ctx: rlua::Context<'lua>,
    function: &rlua::Function<'lua>,
    args: &Vec<Dynamic>,
) -> (r: Option<Vec<Dynamic>>)
    ensures
        args@.len() > MAX_ARGUMENTS ==> r is None,
        r matches Some(out) ==> forall|i: int|
            0 <= i < out@.len() ==> within((#[trigger] out@[i])@, MAX_DEPTH as nat),
{
    let handed = match hand_over(ctx, args) {
        Some(handed) => handed,
        None => {
            return None;
        },
    };
    match invoke(function, handed) {
        Some(results) => copy_out(ctx, results),
        None => None,
    }
}

/// Whether an optional function of a script system counts as having done
/// its part. `called` is `None` where the system has no such function, which
/// is no error; else it tells whether the arguments could be handed over and
/// the call came back without an error.
pub(crate) fn settled(called: Option<bool>) -> (ok: bool)
    ensures
        ok == (called != Some(false)),
{
    match called {
        Some(went) => went,
        None => true,
    }
}

/// An entity id as a script integer, `None` where it does not fit.
pub(crate) fn entity_id(entity: usize) -> (r: Option<i64>)
    ensures
        r == (if entity <= i64::MAX {
            Some(entity as i64)
        } else {
            None
        }),
{
    let wide: u64 = entity as u64;
    if wide > 0x7fff_ffff_ffff_ffffu64 {
        None
    } else {
        Some(wide as i64)
    }
}

/// The first of the values that a call returned, if it returned any.
pub(crate) fn first_of<'lua>(results: Vec<rlua::Value<'lua>>) -> (first: Option<rlua::Value<'lua>>)
    ensures
        first == (if results@.len() > 0 {
            Some(results@[0])
        } else {
            None
        }),
{
    let mut results = results;
    if results.len() == 0 {
        None
    } else {
        Some(results.swap_remove(0))
    }
}

/// The script values that `args` stand for, one for one and in order.
/// `None` where there are more than [`MAX_ARGUMENTS`] of them, so that the
/// handles alive at once stay few, or one of them could not be built.
pub(crate) fn hand_over<'lua>(ctx: rlua::Context<'lua>, args: &Vec<Dynamic>) -> (r: Option<
    Vec<rlua::Value<'lua>>,
>)
    ensures
        r matches Some(handed) ==> handed@.len() == args@.len(),
        args@.len() > MAX_ARGUMENTS ==> r is None,
        args@.len() <= MAX_ARGUMENTS && (forall|i: int|
            0 <= i < args@.len() ==> !((#[trigger] args@[i])@ is Str) && !(args@[i]@ is Table) && !(
            args@[i]@ is Function)) ==> r is Some,
{
    if args.len() > MAX_ARGUMENTS {
        return None;
    }
    let mut handed: Vec<rlua::Value<'lua>> = Vec::new();
    let mut i: usize = 0;
    while i < args.len()
        invariant
            i <= args.len(),
            args.len() <= MAX_ARGUMENTS,
            handed@.len() == i,
        decreases args.len() - i,
    {
        match to_lua(ctx, &args[i]) {
            Some(value) => handed.push(value),
            None => {
                return None;
            },
        }
        i += 1;
    }
    Some(handed)
}

/// The copies of `results`, one for one and in order, each at most
/// [`MAX_DEPTH`] tables deep. `None` where one of them cannot be copied,
/// which needs there to be one.
pub(crate) fn copy_out<'lua>(ctx: rlua::Context<'lua>, results: Vec<rlua::Value<'lua>>) -> (r: Option<
    Vec<Dynamic>,
>)
    ensures
        results@.len() == 0 ==> r is Some,
        r matches Some(out) ==> out@.len() == results@.len() && forall|i: int|
            0 <= i < out@.len() ==> within((#[trigger] out@[i])@, MAX_DEPTH as nat),
{
    let mut rest = results;
    let ghost count = results@.len();
    let mut backwards: Vec<Dynamic> = Vec::new();
    while rest.len() > 0
        invariant
            count == results@.len(),
            rest@.len() + backwards@.len() == count,
            forall|i: int|
                0 <= i < backwards@.len() ==> within((#[trigger] backwards@[i])@, MAX_DEPTH as nat),
        decreases rest.len(),
    {
        match rest.pop() {
            Some(result) => match from_lua(ctx, result, MAX_DEPTH) {
                Some(value) => backwards.push(value),
                None => {
                    return None;
                },
            },
            None => {},
        }
    }
    let mut out: Vec<Dynamic> = Vec::new();
    while backwards.len() > 0
        invariant
            backwards@.len() + out@.len() == count,
            forall|i: int|
                0 <= i < backwards@.len() ==> within((#[trigger] backwards@[i])@, MAX_DEPTH as nat),
            forall|i: int| 0 <= i < out@.len() ==> within((#[trigger] out@[i])@, MAX_DEPTH as nat),
        decreases backwards.len(),
    {
        match backwards.pop() {
            Some(value) => out.push(value),
            None => {},
        }
    }
    Some(out)
}

} // verus!
