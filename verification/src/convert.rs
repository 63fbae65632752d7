use crate::lua::{hold, new_string, new_table, next_pair, peel, put, recall, text_of, walk, wrap};
use crate::lua::{FunctionRef, Peeled, Step};
use crate::value::{lemma_table_view, Dynamic, DynamicView};
use vstd::prelude::*;

verus! {

/// How many tables deep a script value may nest and still be copied out of
/// the scripting environment.
pub const MAX_DEPTH: usize = 64;

/// How many entries a table of the scripting environment may have and still
/// be copied out of it.
pub const MAX_PAIRS: usize = 0xffff_ffff;

/// How many arguments a function of the scripting environment may be handed
/// in one call.
pub const MAX_ARGUMENTS: usize = 0xffff;

/// Copies a script value out of the scripting environment. Tables are copied
/// entry by entry, at most `depth` levels deep; a function is kept alive in
/// the environment and stands in the copy as a reference.
///
/// `None` where the value holds what the exchange format has no place for
/// (userdata, a thread, a string that is not UTF-8), nests deeper than
/// `depth` or than [`MAX_DEPTH`] (as every table that contains itself
/// does), has a table of more than [`MAX_PAIRS`] entries, or the environment
/// reports an error. What comes of a value of each kind, [`lift`] states.
pub fn from_lua<'lua>(ctx: rlua::Context<'lua>, value: rlua::Value<'lua>, depth: usize) -> (r:
    Option<Dynamic>)
    ensures
        r matches Some(v) ==> within(v@, depth as nat) && within(v@, MAX_DEPTH as nat),
{
    let levels = if depth > MAX_DEPTH {
        MAX_DEPTH
    } else {
        depth
    };
    let r = lift(ctx, peel(value), levels);
    proof {
        if r is Some {
            lemma_within_deeper(r->Some_0@, levels as nat, depth as nat);
            lemma_within_deeper(r->Some_0@, levels as nat, MAX_DEPTH as nat);
        }
    }
    r
}

/// Builds the script value that `value` stands for, a new table for each
/// table in it. Entries are stored in order, so the last entry with a key
/// counts, and an entry whose value is nil leaves its key unset.
///
/// `None` where the value nests tables deeper than [`MAX_DEPTH`], a table
/// has a key that the environment refuses (nil, or a number that is not a
/// number), a function reference belongs to another environment, or the
/// environment reports an error. Of what kind the script value is, [`lower`]
/// states.
pub fn to_lua<'lua>(ctx: rlua::Context<'lua>, value: &Dynamic) -> (r: Option<rlua::Value<'lua>>)
    ensures
        value@ is Nil || value@ is Bool || value@ is Int || value@ is Float ==> r is Some,
        r is Some ==> within(value@, MAX_DEPTH as nat),
{
    match lower(ctx, value, MAX_DEPTH) {
        Some(peeled) => Some(wrap(peeled)),
        None => None,
    }
}

/// Whether `value` nests tables at most `depth` levels deep: a value that is
/// no table does so for every `depth`, a table where `depth` is positive and
/// each of its keys and values nests at most `depth - 1` levels deep.
pub open spec fn within(value: DynamicView, depth: nat) -> bool
    decreases depth,
{
    match value {
        DynamicView::Table(entries) => depth > 0 && forall|i: int|
            0 <= i < entries.len() ==> within((#[trigger] entries[i]).0, (depth - 1) as nat)
                && within(entries[i].1, (depth - 1) as nat),
        _ => true,
    }
}

/// A value that nests tables at most `depth` deep nests them at most `more`
/// deep for every `more` that is no less.
pub proof fn lemma_within_deeper(value: DynamicView, depth: nat, more: nat)
    requires
        within(value, depth),
        depth <= more,
    ensures
        within(value, more),
    decreases depth,
{
    match value {
        DynamicView::Table(entries) => {
            assert forall|i: int| 0 <= i < entries.len() implies within(
                (#[trigger] entries[i]).0,
                (more - 1) as nat,
            ) && within(entries[i].1, (more - 1) as nat) by {
                lemma_within_deeper(entries[i].0, (depth - 1) as nat, (more - 1) as nat);
                lemma_within_deeper(entries[i].1, (depth - 1) as nat, (more - 1) as nat);
            }
        },
        _ => {},
    }
}

/// A table whose keys and values nest at most `depth - 1` tables deep nests
/// at most `depth` deep, and has as many entries in its model as in itself.
proof fn lemma_table_within(entries: Vec<(Dynamic, Dynamic)>, depth: usize)
    requires
        depth > 0,
        forall|j: int|
            0 <= j < entries@.len() ==> within((#[trigger] entries@[j]).0@, (depth - 1) as nat)
                && within(entries@[j].1@, (depth - 1) as nat),
    ensures
        within(Dynamic::Table(entries)@, depth as nat),
        Dynamic::Table(entries)@.entries().len() == entries@.len(),
{
    lemma_table_view(entries);
    assert forall|j: int| 0 <= j < entries@.len() implies within(
        (#[trigger] Dynamic::Table(entries)@.entries()[j]).0,
        (depth - 1) as nat,
    ) && within(Dynamic::Table(entries)@.entries()[j].1, (depth - 1) as nat) by {
        assert(within(entries@[j].0@, (depth - 1) as nat));
    }
}

/// The copy of a script value of which one level has been told apart: a
/// scalar as the same scalar; a string as its text; a table entry by entry,
/// in the order in which the environment walks it, each key and value at
/// most `depth - 1` levels deep; a function as a reference to it.
///
/// A table is walked one pair at a time, and each pair is copied before the
/// next is asked for, so that no more than a handful of handles per level
/// are alive at once.
///
/// `None` for a value of another kind, for a table where `depth` is zero and
/// for one of more than [`MAX_PAIRS`] entries; for a string, a table or a
/// function also where the environment does not yield it.
pub(crate) fn lift<'lua>(ctx: rlua::Context<'lua>, peeled: Peeled<'lua>, depth: usize) -> (r: Option<
    Dynamic,
>)
    ensures
        match peeled {
            Peeled::Nil => r matches Some(v) && v@ == DynamicView::Nil,
            Peeled::Bool(b) => r matches Some(v) && v@ == DynamicView::Bool(b),
            Peeled::Int(i) => r matches Some(v) && v@ == DynamicView::Int(i),
            Peeled::Float(bits) => r matches Some(v) && v@ == DynamicView::Float(bits),
            Peeled::Str(_) => r matches Some(v) ==> v@ is Str,
            Peeled::Table(_) => (depth == 0 ==> r is None) && (r matches Some(v) ==> v@ is Table
                && v@.entries().len() <= MAX_PAIRS),
            Peeled::Function(_) => r matches Some(v) ==> v@ is Function,
            Peeled::Other => r is None,
        },
        r matches Some(v) ==> within(v@, depth as nat),
    decreases depth,
{
    match peeled {
        Peeled::Nil => Some(Dynamic::Nil),
        Peeled::Bool(b) => Some(Dynamic::Bool(b)),
        Peeled::Int(i) => Some(Dynamic::Int(i)),
        Peeled::Float(bits) => Some(Dynamic::Float(bits)),
        Peeled::Str(s) => match text_of(&s) {
            Some(text) => Some(Dynamic::Str(text)),
            None => None,
        },
        Peeled::Table(table) => {
            if depth == 0 {
                return None;
            }
            let mut pairs = walk(table);
            let mut entries: Vec<(Dynamic, Dynamic)> = Vec::new();
            while entries.len() < MAX_PAIRS
                invariant
                    peeled is Table,
                    depth > 0,
                    entries@.len() <= MAX_PAIRS,
                    forall|j: int|
                        0 <= j < entries@.len() ==> within(
                            (#[trigger] entries@[j]).0@,
                            (depth - 1) as nat,
                        ) && within(entries@[j].1@, (depth - 1) as nat),
                decreases MAX_PAIRS - entries.len(),
            {
                let (k, v) = match next_pair(&mut pairs) {
                    Step::Pair(k, v) => (k, v),
                    Step::End => {
                        proof {
                            lemma_table_within(entries, depth);
                        }
                        return Some(Dynamic::Table(entries));
                    },
                    Step::Failed => {
                        return None;
                    },
                };
                let key = match lift(ctx, peel(k), depth - 1) {
                    Some(key) => key,
                    None => {
                        return None;
                    },
                };
                let val = match lift(ctx, peel(v), depth - 1) {
                    Some(val) => val,
                    None => {
                        return None;
                    },
                };
                entries.push((key, val));
            }
            match next_pair(&mut pairs) {
                Step::End => {
                    proof {
                        lemma_table_within(entries, depth);
                    }
                    Some(Dynamic::Table(entries))
                },
                _ => None,
            }
        },
        Peeled::Function(function) => match hold(ctx, wrap(Peeled::Function(function))) {
            Some(key) => Some(Dynamic::Function(FunctionRef::from_key(key))),
            None => None,
        },
        Peeled::Other => None,
    }
}

/// One level of the script value that `value` stands for: a scalar as the
/// same scalar; a string, a table or a function as a handle of that kind,
/// where the environment yields one. A table is new, with the entries of
/// `value` stored in order, each key and value at most `depth - 1` tables
/// deep.
///
/// `None` for a table where `depth` is zero; for a string, a table or a
/// function also where the environment does not yield it.
pub(crate) fn lower<'lua>(ctx: rlua::Context<'lua>, value: &Dynamic, depth: usize) -> (r: Option<
    Peeled<'lua>,
>)
    ensures
        match value@ {
            DynamicView::Nil => r == Some(Peeled::<'lua>::Nil),
            DynamicView::Bool(b) => r == Some(Peeled::<'lua>::Bool(b)),
            DynamicView::Int(i) => r == Some(Peeled::<'lua>::Int(i)),
            DynamicView::Float(bits) => r == Some(Peeled::<'lua>::Float(bits)),
            DynamicView::Str(_) => r matches Some(p) ==> p is Str,
            DynamicView::Table(_) => (depth == 0 ==> r is None) && (r matches Some(p) ==> p is Table),
            DynamicView::Function => r matches Some(p) ==> p is Function,
        },
        r is Some ==> within(value@, depth as nat),
    decreases value,
{
    match value {
        Dynamic::Nil => Some(Peeled::Nil),
        Dynamic::Bool(b) => Some(Peeled::Bool(*b)),
        Dynamic::Int(i) => Some(Peeled::Int(*i)),
        Dynamic::Float(bits) => Some(Peeled::Float(*bits)),
        Dynamic::Str(s) => match new_string(ctx, s.as_str()) {
            Some(text) => Some(Peeled::Str(text)),
            None => None,
        },
        Dynamic::Table(entries) => {
            if depth == 0 {
                return None;
            }
            let table = match new_table(ctx) {
                Some(table) => table,
                None => {
                    return None;
                },
            };
            let mut i: usize = 0;
            while i < entries.len()
                invariant
                    *value == Dynamic::Table(*entries),
                    depth > 0,
                    i <= entries.len(),
                    forall|j: int|
                        0 <= j < i ==> within((#[trigger] entries@[j]).0@, (depth - 1) as nat)
                            && within(entries@[j].1@, (depth - 1) as nat),
                decreases entries.len() - i,
            {
                proof {
                    assert(decreases_to!(*value => value->Table_0));
                    assert(decreases_to!(*entries => entries[i as int]));
                    assert(decreases_to!(entries[i as int] => entries[i as int].0));
                    assert(decreases_to!(entries[i as int] => entries[i as int].1));
                }
                let key = match lower(ctx, &entries[i].0, depth - 1) {
                    Some(key) => wrap(key),
                    None => {
                        return None;
                    },
                };
                let val = match lower(ctx, &entries[i].1, depth - 1) {
                    Some(val) => wrap(val),
                    None => {
                        return None;
                    },
                };
                if !put(&table, key, val) {
                    return None;
                }
                i += 1;
            }
            proof {
                lemma_table_within(*entries, depth);
            }
            Some(Peeled::Table(table))
        },
        Dynamic::Function(function) => match recall(ctx, function.key()) {
            Some(found) => match peel(found).into_function() {
                Some(f) => Some(Peeled::Function(f)),
                None => None,
            },
            None => None,
        },
    }
}

} // verus!
