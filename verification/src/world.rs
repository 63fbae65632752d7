use crate::lua::{hold, run, wrap, Peeled};
use crate::convert::{within, MAX_DEPTH};
use crate::model::{
    distinct, index_of, lemma_gathered_congruent, lemma_index_of_absent, lemma_index_of_found,
    lemma_index_of_range, lemma_lacks_congruent, lemma_lacks_native, lemma_rewrite_nothing,
    lemma_same_shape_transitive, lemma_write_back_congruent, lemma_write_back_other,
    lemma_write_back_shape, lemma_write_back_unnamed, name_views, SlotModel, WorldModel,
};
use crate::script::{call_transform, script_get, script_set, script_spawn, script_tick};
use crate::system::{is_snapshot, NativeSystem, WorldInfo};
use crate::value::{views, Dynamic, DynamicView};
use vstd::prelude::*;
use vstd::string::*;

verus! {

/// What a registry slot holds: a compiled system, or the key under which the
/// scripting environment keeps the table of a system authored there.
pub enum System<S> {
    Native(S),
    Script(rlua::RegistryKey),
}

/// Why a system could not be registered.
#[derive(Debug, PartialEq, Eq)]
pub enum RegistryError {
    /// Another system is registered under the name. The registry is
    /// unchanged.
    NameTaken,
    /// The system is registered, but one of its script chunks raised an
    /// error; the chunks after it were not run.
    HookFailed,
    /// The scripting environment could not keep the system's table. The
    /// registry is unchanged.
    ScriptFailed,
}

/// Why a system could not be handed out.
#[derive(Debug, PartialEq, Eq)]
pub enum AccessError {
    /// No system is registered under the name.
    UnknownSystem,
    /// The system under the name is a script system.
    WrongSlotKind,
}

/// Why a tick stopped early.
#[derive(Debug, PartialEq, Eq)]
pub enum TickError {
    /// The `tick` of the script system in registry position `slot` raised an
    /// error. The systems before it were ticked, those after it were not.
    ScriptFailed { slot: usize },
}

/// Why a spawn failed.
#[derive(Debug, PartialEq, Eq)]
pub enum SpawnError {
    /// Every entity id has been issued. Nothing changed.
    Exhausted,
    /// The native system in registry position `slot` refused the literal
    /// given for it. The id `entity` is used up, and the systems that
    /// accepted their literals hold the entity's components.
    Rejected { entity: usize, slot: usize },
    /// The `spawn` of the script system in registry position `slot` could
    /// not be handed its literal or raised an error. The id `entity` is used
    /// up as for `Rejected`.
    ScriptFailed { entity: usize, slot: usize },
}

/// What an update over `names` with `transform` has done to `entity` between
/// the worlds `before` and `after`: if the entity had a component in every
/// named system, the transform was handed those components, in order, and
/// what it returned was written back; if not, the entity is as it was.
pub open spec fn updated<F: Fn(Vec<Dynamic>) -> Vec<Dynamic>>(
    before: WorldModel,
    after: WorldModel,
    names: Seq<Seq<char>>,
    entity: usize,
    transform: &F,
) -> bool {
    if before.has_all(names, entity) {
        exists|args: Vec<Dynamic>, out: Vec<Dynamic>|
            {
                &&& #[trigger] call_ensures(transform, (args,), out)
                &&& views(args@) == before.gathered(names, entity)
                &&& after.column(entity) == before.rewrite(names, entity, views(out@)).column(
                    entity,
                )
            }
    } else {
        after.column(entity) == before.column(entity)
    }
}

/// What an update over `names` has done to `entity` between the worlds
/// `before` and `after`, whatever the transform and the script systems among
/// the names did: if the entity lacked a component in a named system that is
/// no script system, it is as it was; if not, some values were written back
/// to the named systems, in order (none, where a script system had nothing
/// for the entity or the transform returned nothing).
pub open spec fn rewritten(
    before: WorldModel,
    after: WorldModel,
    names: Seq<Seq<char>>,
    entity: usize,
) -> bool {
    if before.lacks(names, entity) {
        after.column(entity) == before.column(entity)
    } else {
        exists|out: Seq<DynamicView>| #[trigger]
            before.rewrite(names, entity, out).column(entity) == after.column(entity)
    }
}

impl SpawnError {
    /// The registry position at which the spawn failed; zero where no
    /// system was reached.
    pub open spec fn slot(self) -> int {
        match self {
            SpawnError::Exhausted => 0,
            SpawnError::Rejected { entity, slot } => slot as int,
            SpawnError::ScriptFailed { entity, slot } => slot as int,
        }
    }
}

/// The model of one slot.
pub open spec fn slot_model<S: NativeSystem>(system: System<S>) -> SlotModel {
    match system {
        System::Native(s) => SlotModel::Native { codec: s.codec(), components: s.components() },
        System::Script(_) => SlotModel::Script,
    }
}

/// The registry of systems and the allocator of entity ids.
///
/// Whoever calls a world owns it for the length of the call: every call that
/// changes anything takes `&mut self`, so no call can be made from inside
/// another, neither from a native system nor from a transform.
pub struct World<S: NativeSystem> {
    names: Vec<String>,
    systems: Vec<System<S>>,
    base_id: usize,
}

impl<S: NativeSystem> View for World<S> {
    type V = WorldModel;

    closed spec fn view(&self) -> WorldModel {
        WorldModel {
            size: self.base_id as nat,
            names: Seq::new(self.names@.len(), |i: int| self.names@[i]@),
            slots: Seq::new(self.systems@.len(), |i: int| slot_model(self.systems@[i])),
        }
    }
}

impl<S: NativeSystem> World<S> {
    /// The world's invariant: every slot has its name, no name is used
    /// twice, and every native system's own invariant holds.
    pub closed spec fn wf(&self) -> bool {
        &&& self.names@.len() == self.systems@.len()
        &&& distinct(self@.names)
        &&& forall|i: int|
            0 <= i < self.systems@.len() ==> (#[trigger] self.systems@[i] matches System::Native(s)
                ==> s.inv())
    }

    /// A well-formed world has a well-formed model, and its size fits the
    /// machine.
    pub proof fn lemma_wf(&self)
        requires
            self.wf(),
        ensures
            self@.wf(),
            self@.size <= usize::MAX,
    {
    }

    /// An empty world: no system, no entity.
    pub fn new() -> (world: World<S>)
        ensures
            world.wf(),
            world@.size == 0,
            world@.names == Seq::<Seq<char>>::empty(),
            world@.slots == Seq::<SlotModel>::empty(),
    {
        let world = World { names: Vec::new(), systems: Vec::new(), base_id: 0 };
        assert(world@.names =~= Seq::<Seq<char>>::empty());
        assert(world@.slots =~= Seq::<SlotModel>::empty());
        world
    }

    /// How many entity ids have been issued.
    pub fn size(&self) -> (n: usize)
        ensures
            n == self@.size,
    {
        self.base_id
    }

    /// How many systems are registered.
    pub fn len(&self) -> (n: usize)
        requires
            self.wf(),
        ensures
            n == self@.slots.len(),
            n == self@.names.len(),
    {
        self.systems.len()
    }

    /// The registry position of the system named `name`.
    pub fn find(&self, name: &str) -> (r: Option<usize>)
        requires
            self.wf(),
        ensures
            r matches Some(i) ==> i == index_of(self@.names, name@) && i < self@.slots.len(),
            r is None ==> index_of(self@.names, name@) == -1,
            r is Some <==> self@.knows(name@),
    {
        let wanted = String::from_str(name);
        let mut i: usize = self.names.len();
        while i > 0
            invariant
                wanted@ == name@,
                i <= self.names@.len(),
                self.names@.len() == self.systems@.len(),
                forall|j: int| i <= j < self.names@.len() ==> self@.names[j] != name@,
            decreases i,
        {
            i -= 1;
            if self.names[i] == wanted {
                proof {
                    lemma_index_of_found(self@.names, name@, i as int);
                }
                return Some(i);
            }
        }
        proof {
            lemma_index_of_absent(self@.names, name@);
        }
        None
    }

    /// Whether the system named `name` is a script system; `None` if no
    /// system has that name.
    pub fn is_script(&self, name: &str) -> (r: Option<bool>)
        requires
            self.wf(),
        ensures
            r is Some <==> self@.knows(name@),
            r == Some(true) <==> self@.scripted(name@),
            r == Some(false) <==> self@.native(name@),
    {
        match self.find(name) {
            Some(i) => match &self.systems[i] {
                System::Native(_) => Some(false),
                System::Script(_) => Some(true),
            },
            None => None,
        }
    }

    /// Registers a native system under `object_name` and then runs the
    /// script chunks it asks for, in order. `system_name` describes the
    /// system's type and decides nothing.
    ///
    /// A name that is taken is refused and nothing changes.
    pub fn add_native_system<'lua>(
        &mut self,
        ctx: rlua::Context<'lua>,
        system: S,
        system_name: &str,
        object_name: &str,
    ) -> (r: Result<(), RegistryError>)
        requires
            old(self).wf(),
            system.inv(),
        ensures
            final(self).wf(),
            r == Err::<(), RegistryError>(RegistryError::NameTaken) <==> old(self)@.knows(
                object_name@,
            ),
            old(self)@.knows(object_name@) ==> final(self)@ == old(self)@,
            !old(self)@.knows(object_name@) ==> final(self)@ == old(self)@.with_slot(
                object_name@,
                SlotModel::Native { codec: system.codec(), components: system.components() },
            ),
            !old(self)@.knows(object_name@) && system.hooks().len() == 0 ==> r is Ok,
            r is Err ==> r == Err::<(), RegistryError>(RegistryError::NameTaken) || r == Err::<
                (),
                RegistryError,
            >(RegistryError::HookFailed),
    {
        if self.find(object_name).is_some() {
            return Err(RegistryError::NameTaken);
        }
        let chunks = system.globals();
        let ghost slot = SlotModel::Native {
            codec: system.codec(),
            components: system.components(),
        };
        let ghost hooks = system.hooks();
        proof {
            lemma_index_of_range(self@.names, object_name@);
        }
        self.names.push(String::from_str(object_name));
        self.systems.push(System::Native(system));
        proof {
            assert(self@.names =~= old(self)@.names.push(object_name@));
            assert(self@.slots =~= old(self)@.slots.push(slot));
        }
        let mut i: usize = 0;
        while i < chunks.len()
            invariant
                i <= chunks.len(),
                chunks@.len() == hooks.len(),
                hooks == system.hooks(),
                slot == (SlotModel::Native {
                    codec: system.codec(),
                    components: system.components(),
                }),
                self.wf(),
                !old(self)@.knows(object_name@),
                self@ == old(self)@.with_slot(object_name@, slot),
            decreases chunks.len() - i,
        {
            if !run(ctx, chunks[i].as_str()) {
                return Err(RegistryError::HookFailed);
            }
            i += 1;
        }
        Ok(())
    }

    /// Registers a system authored in the scripting environment under
    /// `object_name`. The environment keeps `system` alive for as long as
    /// the world holds the slot. `system_name` decides nothing.
    ///
    /// A name that is taken is refused and nothing changes.
    pub fn add_lua_system<'lua>(
        &mut self,
        ctx: rlua::Context<'lua>,
        system: rlua::Table<'lua>,
        system_name: &str,
        object_name: &str,
    ) -> (r: Result<(), RegistryError>)
        requires
            old(self).wf(),
        ensures
            final(self).wf(),
            r == Err::<(), RegistryError>(RegistryError::NameTaken) <==> old(self)@.knows(
                object_name@,
            ),
            r is Err ==> final(self)@ == old(self)@,
            r is Ok ==> final(self)@ == old(self)@.with_slot(object_name@, SlotModel::Script),
            r is Err ==> r == Err::<(), RegistryError>(RegistryError::NameTaken) || r == Err::<
                (),
                RegistryError,
            >(RegistryError::ScriptFailed),
    {
        if self.find(object_name).is_some() {
            return Err(RegistryError::NameTaken);
        }
        let key = match hold(ctx, wrap(Peeled::Table(system))) {
            Some(key) => key,
            None => {
                return Err(RegistryError::ScriptFailed);
            },
        };
        proof {
            lemma_index_of_range(self@.names, object_name@);
        }
        self.names.push(String::from_str(object_name));
        self.systems.push(System::Script(key));
        proof {
            assert(self@.names =~= old(self)@.names.push(object_name@));
            assert(self@.slots =~= old(self)@.slots.push(SlotModel::Script));
        }
        Ok(())
    }

    /// The entity's component in the system named `name`, in exchange form.
    /// `Nil` where no system has that name or the entity has no component
    /// there. Of a script system it is what the script's `get` returns.
    pub fn get<'lua>(&self, ctx: rlua::Context<'lua>, name: &str, entity: usize) -> (value: Dynamic)
        requires
            self.wf(),
        ensures
            !self@.scripted(name@) ==> value@ == self@.component(name@, entity),
            self@.scripted(name@) && entity > i64::MAX ==> value@ is Nil,
            self@.scripted(name@) ==> within(value@, MAX_DEPTH as nat),
    {
        match self.find(name) {
            Some(i) => match &self.systems[i] {
                System::Native(system) => system.get(entity),
                System::Script(key) => script_get(ctx, key, entity),
            },
            None => Dynamic::Nil,
        }
    }

    /// Hands `value` to the system named `name` as the entity's component.
    /// Nothing happens where no system has that name; a native system
    /// overwrites the component only if the entity has one and the value
    /// decodes. A script system's `set` is called, and its state is no part
    /// of the world's model.
    pub fn set<'lua>(&mut self, ctx: rlua::Context<'lua>, name: &str, entity: usize, value: &Dynamic)
        requires
            old(self).wf(),
        ensures
            final(self).wf(),
            final(self)@ == old(self)@.set(name@, entity, value@),
    {
        match self.find(name) {
            Some(i) => {
                match &mut self.systems[i] {
                    System::Native(system) => {
                        system.set(entity, value);
                    },
                    System::Script(key) => {
                        let _ = script_set(ctx, key, entity, value);
                    },
                }
                proof {
                    assert(self@.names =~= old(self)@.names);
                    assert(self@.slots =~= old(self)@.set(name@, entity, value@).slots);
                }
            },
            None => {},
        }
    }

    /// Ticks every system once, in registry order: a native system's
    /// `tick`, a script system's `tick` function if it has one. Stops at the
    /// first script system whose `tick` raises an error: the systems before
    /// it were ticked, those after it were not.
    pub fn tick<'lua>(&mut self, ctx: rlua::Context<'lua>) -> (r: Result<(), TickError>)
        requires
            old(self).wf(),
        ensures
            final(self).wf(),
            final(self)@.same_shape(old(self)@),
            (forall|i: int| 0 <= i < old(self)@.slots.len() ==> old(self)@.slots[i] is Native)
                ==> r is Ok,
            r matches Err(TickError::ScriptFailed { slot }) ==> slot < old(self)@.slots.len()
                && old(self)@.slots[slot as int] is Script,
            forall|i: int|
                0 <= i < Self::ticked(r, old(self)@) && old(self)@.slots[i] is Native
                    ==> #[trigger] S::tick_step(
                    &old(self).native_at(i),
                    &final(self).native_at(i),
                    (WorldInfo { entities: old(self)@.size as usize }),
                ),
            forall|i: int|
                Self::ticked(r, old(self)@) <= i < old(self)@.slots.len()
                    ==> #[trigger] final(self)@.slots[i] == old(self)@.slots[i],
    {
        let info = WorldInfo { entities: self.base_id };
        let mut i: usize = 0;
        while i < self.systems.len()
            invariant
                i <= self.systems@.len(),
                self.wf(),
                self@.same_shape(old(self)@),
                self.systems@.len() == old(self).systems@.len(),
                info == (WorldInfo { entities: old(self)@.size as usize }),
                forall|j: int|
                    0 <= j < i && old(self)@.slots[j] is Native ==> #[trigger] S::tick_step(
                        &old(self).native_at(j),
                        &self.native_at(j),
                        info,
                    ),
                forall|j: int|
                    i <= j < self.systems@.len() ==> #[trigger] self.systems@[j] == old(
                        self,
                    ).systems@[j],
            decreases self.systems@.len() - i,
        {
            let ghost before = *self;
            let native = match &self.systems[i] {
                System::Native(_) => true,
                System::Script(key) => {
                    if !script_tick(ctx, key) {
                        proof {
                            assert(self@.slots[i as int].same_shape(old(self)@.slots[i as int]));
                            assert forall|j: int|
                                i <= j < old(self)@.slots.len() implies #[trigger] self@.slots[j]
                                == old(self)@.slots[j] by {
                                assert(self.systems@[j] == old(self).systems@[j]);
                            }
                        }
                        return Err(TickError::ScriptFailed { slot: i });
                    }
                    false
                },
            };
            if native {
                match &mut self.systems[i] {
                    System::Native(system) => {
                        system.tick(&info);
                    },
                    System::Script(_) => {},
                }
            }
            proof {
                assert(self@.names =~= before@.names);
                assert forall|j: int| 0 <= j < self@.slots.len() implies (
                #[trigger] self@.slots[j]).same_shape(old(self)@.slots[j]) by {
                    assert(before@.slots[j].same_shape(old(self)@.slots[j]));
                    if j != i {
                        assert(self@.slots[j] == before@.slots[j]);
                    }
                }
                assert(before.systems@[i as int] == old(self).systems@[i as int]);
                assert forall|j: int|
                    0 <= j < i + 1 && old(self)@.slots[j] is Native implies #[trigger] S::tick_step(
                    &old(self).native_at(j),
                    &self.native_at(j),
                    info,
                ) by {
                    if j < i {
                        assert(self.systems@[j] == before.systems@[j]);
                        assert(S::tick_step(&old(self).native_at(j), &before.native_at(j), info));
                    }
                }
                assert forall|j: int| i + 1 <= j < self.systems@.len() implies (
                #[trigger] self.systems@[j]) == old(self).systems@[j] by {
                    assert(self.systems@[j] == before.systems@[j]);
                }
            }
            i += 1;
        }
        Ok(())
    }

    /// How many slots, from the first, a tick with the result `r` has
    /// ticked: all of them, or those before the script system that failed.
    pub open spec fn ticked(r: Result<(), TickError>, before: WorldModel) -> int {
        match r {
            Ok(()) => before.slots.len() as int,
            Err(TickError::ScriptFailed { slot }) => slot as int,
        }
    }

    /// Issues the next entity id and hands each system for which the table
    /// `components` holds a literal under the system's name that literal to
    /// spawn the entity's component from. Every such system is tried, in
    /// registry order; the first failure, if any, is reported.
    pub fn spawn<'lua>(&mut self, ctx: rlua::Context<'lua>, components: &Dynamic) -> (r: Result<
        usize,
        SpawnError,
    >)
        requires
            old(self).wf(),
        ensures
            final(self).wf(),
            r == Err::<usize, SpawnError>(SpawnError::Exhausted) <==> old(self)@.size
                == usize::MAX,
            old(self)@.size == usize::MAX ==> final(self)@ == old(self)@,
            old(self)@.size < usize::MAX ==> final(self)@ == old(self)@.spawn(
                old(self)@.size as usize,
                components@,
            ),
            r matches Ok(id) ==> id == old(self)@.size,
            r matches Err(SpawnError::Rejected { entity, slot }) ==> entity == old(self)@.size
                && slot < old(self)@.slots.len() && old(self)@.slots[slot as int].rejects(
                components@.field(old(self)@.names[slot as int]),
            ),
            r matches Err(SpawnError::ScriptFailed { entity, slot }) ==> entity == old(
                self,
            )@.size && slot < old(self)@.slots.len() && old(self)@.slots[slot as int] is Script
                && !(components@.field(old(self)@.names[slot as int]) is Nil),
            r matches Err(e) ==> forall|j: int|
                0 <= j < e.slot() ==> !(#[trigger] old(self)@.slots[j]).rejects(
                    components@.field(old(self)@.names[j]),
                ),
            old(self)@.rejects(components@) ==> r is Err,
            old(self)@.size < usize::MAX && !old(self)@.rejects(components@) && !old(
                self,
            )@.spawns_script(components@) ==> r is Ok,
    {
        if self.base_id == usize::MAX {
            return Err(SpawnError::Exhausted);
        }
        let id = self.base_id;
        self.base_id = id + 1;
        let mut failure: Option<SpawnError> = None;
        let mut i: usize = 0;
        while i < self.systems.len()
            invariant
                i <= self.systems@.len(),
                self.wf(),
                id == old(self)@.size,
                id < usize::MAX,
                self@.size == id + 1,
                self@.names == old(self)@.names,
                self@.slots.len() == old(self)@.slots.len(),
                forall|j: int|
                    0 <= j < i ==> #[trigger] self@.slots[j] == old(self)@.slots[j].spawn(
                        id,
                        components@.field(old(self)@.names[j]),
                    ),
                forall|j: int| i <= j < self@.slots.len() ==> #[trigger] self@.slots[j] == old(self)@.slots[j],
                failure matches Some(e) ==> !(e matches SpawnError::Exhausted),
                failure matches Some(e) ==> forall|j: int|
                    0 <= j < e.slot() ==> !(#[trigger] old(self)@.slots[j]).rejects(
                        components@.field(old(self)@.names[j]),
                    ),
                failure matches Some(SpawnError::Rejected { entity, slot }) ==> entity == id && slot
                    < i && old(self)@.slots[slot as int].rejects(
                    components@.field(old(self)@.names[slot as int]),
                ),
                failure matches Some(SpawnError::ScriptFailed { entity, slot }) ==> entity == id
                    && slot < i && old(self)@.slots[slot as int] is Script && !(components@.field(
                    old(self)@.names[slot as int],
                ) is Nil),
                failure is None ==> forall|j: int|
                    0 <= j < i ==> !(#[trigger] old(self)@.slots[j]).rejects(
                        components@.field(old(self)@.names[j]),
                    ),
                (forall|j: int|
                    0 <= j < i ==> !((#[trigger] old(self)@.slots[j]) is Script && !(
                    components@.field(old(self)@.names[j]) is Nil))) ==> (failure is Some
                    ==> failure matches Some(SpawnError::Rejected { .. })),
                (exists|j: int|
                    0 <= j < i && (#[trigger] old(self)@.slots[j]).rejects(
                        components@.field(old(self)@.names[j]),
                    )) ==> failure is Some,
            decreases self.systems@.len() - i,
        {
            let ghost before = self@;
            let ghost literal_view = components@.field(old(self)@.names[i as int]);
            let literal = components.field(self.names[i].as_str());
            assert(self@.names[i as int] == self.names@[i as int]@);
            assert(before.slots[i as int] == old(self)@.slots[i as int]);
            assert(before.slots[i as int] == slot_model(self.systems@[i as int]));
            assert(literal matches Some(given) ==> given@ == literal_view);
            assert(literal is None ==> literal_view is Nil);
            match literal {
                Some(given) => {
                    if !given.is_nil() {
                        let native = match &self.systems[i] {
                            System::Native(_) => true,
                            System::Script(key) => {
                                if !script_spawn(ctx, key, id, given) {
                                    if failure.is_none() {
                                        failure = Some(
                                            SpawnError::ScriptFailed { entity: id, slot: i },
                                        );
                                    }
                                }
                                false
                            },
                        };
                        if native {
                            match &mut self.systems[i] {
                                System::Native(system) => {
                                    match system.spawn(id, given) {
                                        Ok(()) => {},
                                        Err(_) => {
                                            if failure.is_none() {
                                                failure = Some(
                                                    SpawnError::Rejected { entity: id, slot: i },
                                                );
                                            }
                                        },
                                    }
                                },
                                System::Script(_) => {},
                            }
                        }
                    }
                },
                None => {},
            }
            proof {
                assert(self@.names =~= before.names);
                assert(self@.slots[i as int] == old(self)@.slots[i as int].spawn(
                    id,
                    literal_view,
                ));
                assert forall|j: int| 0 <= j < i implies #[trigger] self@.slots[j] == old(
                    self,
                )@.slots[j].spawn(id, components@.field(old(self)@.names[j])) by {
                    assert(self@.slots[j] == before.slots[j]);
                }
                assert forall|j: int| i < j < self@.slots.len() implies #[trigger] self@.slots[j]
                    == old(self)@.slots[j] by {
                    assert(self@.slots[j] == before.slots[j]);
                }
            }
            i += 1;
        }
        proof {
            assert(self@.slots =~= old(self)@.spawn(id, components@).slots);
        }
        match failure {
            Some(e) => Err(e),
            None => Ok(id),
        }
    }

    /// The entity's components in the named systems, in order; `None` as
    /// soon as one of them is `Nil`.
    pub fn gather<'lua>(&self, ctx: rlua::Context<'lua>, names: &Vec<String>, entity: usize) -> (r:
        Option<Vec<Dynamic>>)
        requires
            self.wf(),
        ensures
            r matches Some(values) ==> values@.len() == names@.len() && forall|i: int|
                0 <= i < names@.len() ==> !((#[trigger] values@[i])@ is Nil) && (!self@.scripted(
                    names@[i]@,
                ) ==> values@[i]@ == self@.component(names@[i]@, entity)),
            self@.all_native(name_views(names@)) ==> (r is Some <==> self@.has_all(
                name_views(names@),
                entity,
            )),
            self@.all_native(name_views(names@)) ==> (r matches Some(values) ==> views(values@)
                == self@.gathered(name_views(names@), entity)),
            self@.lacks(name_views(names@), entity) ==> r is None,
    {
        let ghost nv = name_views(names@);
        let mut values: Vec<Dynamic> = Vec::new();
        let mut i: usize = 0;
        while i < names.len()
            invariant
                self.wf(),
                nv == name_views(names@),
                i <= names@.len(),
                values@.len() == i,
                forall|j: int|
                    0 <= j < i ==> !((#[trigger] values@[j])@ is Nil) && (!self@.scripted(
                        names@[j]@,
                    ) ==> values@[j]@ == self@.component(names@[j]@, entity)),
            decreases names@.len() - i,
        {
            let value = self.get(ctx, names[i].as_str(), entity);
            if value.is_nil() {
                proof {
                    if self@.all_native(nv) {
                        assert(!self@.scripted(nv[i as int]));
                        assert(self@.component(nv[i as int], entity) is Nil);
                    }
                }
                return None;
            }
            values.push(value);
            i += 1;
        }
        proof {
            if self@.all_native(nv) {
                assert forall|j: int| 0 <= j < nv.len() implies !(#[trigger] self@.component(
                    nv[j],
                    entity,
                ) is Nil) by {
                    assert(!self@.scripted(nv[j]));
                    assert(values@[j]@ == self@.component(names@[j]@, entity));
                }
                assert forall|j: int| 0 <= j < nv.len() implies views(values@)[j]
                    == self@.gathered(nv, entity)[j] by {
                    assert(!self@.scripted(nv[j]));
                    assert(values@[j]@ == self@.component(names@[j]@, entity));
                }
                assert(views(values@) =~= self@.gathered(nv, entity));
            }
            if self@.lacks(nv, entity) {
                let j = choose|j: int|
                    0 <= j < nv.len() && !self@.scripted(#[trigger] nv[j]) && self@.component(
                        nv[j],
                        entity,
                    ) is Nil;
                assert(nv[j] == names@[j]@);
                assert(values@[j]@ == self@.component(names@[j]@, entity));
            }
        }
        Some(values)
    }

    /// Writes `values` back to the named systems as the entity's
    /// components: the value in each position to the system named in the
    /// same position, in order, as far as both lists go.
    pub fn write_back<'lua>(
        &mut self,
        ctx: rlua::Context<'lua>,
        names: &Vec<String>,
        entity: usize,
        values: &Vec<Dynamic>,
    )
        requires
            old(self).wf(),
        ensures
            final(self).wf(),
            final(self)@ == old(self)@.rewrite(name_views(names@), entity, views(values@)),
    {
        let ghost nv = name_views(names@);
        let ghost vv = views(values@);
        let count = if names.len() <= values.len() {
            names.len()
        } else {
            values.len()
        };
        let mut i: usize = 0;
        while i < count
            invariant
                self.wf(),
                nv == name_views(names@),
                vv == views(values@),
                count == WorldModel::written(nv, vv),
                count <= names@.len(),
                count <= values@.len(),
                i <= count,
                self@ == old(self)@.write_back(nv, entity, vv, i as nat),
            decreases count - i,
        {
            self.set(ctx, names[i].as_str(), entity, &values[i]);
            i += 1;
        }
    }

    /// Updates one entity across the named systems: fetches its component
    /// from each, in order; if every one is there, hands them to `transform`
    /// and writes what it returns back, the value in each position to the
    /// system named in the same position. If any component is missing,
    /// `transform` is not called and nothing is written.
    ///
    /// Whether a script system has a component for the entity is the
    /// script's to say. A component that is missing in a named system that
    /// is no script system ends the call whatever the script systems among
    /// the names answer.
    ///
    /// Returns what `transform` returned, `None` where it was not called.
    pub fn entity_update_with<'lua, F: Fn(Vec<Dynamic>) -> Vec<Dynamic>>(
        &mut self,
        ctx: rlua::Context<'lua>,
        entity: usize,
        names: &Vec<String>,
        transform: &F,
    ) -> (r: Option<Vec<Dynamic>>)
        requires
            old(self).wf(),
            forall|args: Vec<Dynamic>| call_requires(transform, (args,)),
        ensures
            final(self).wf(),
            final(self)@.same_shape(old(self)@),
            r is None ==> final(self)@ == old(self)@,
            r matches Some(out) ==> final(self)@ == old(self)@.rewrite(
                name_views(names@),
                entity,
                views(out@),
            ),
            old(self)@.all_native(name_views(names@)) ==> (r is Some <==> old(self)@.has_all(
                name_views(names@),
                entity,
            )),
            old(self)@.all_native(name_views(names@)) ==> updated(
                old(self)@,
                final(self)@,
                name_views(names@),
                entity,
                transform,
            ),
            old(self)@.lacks(name_views(names@), entity) ==> r is None,
    {
        let ghost nv = name_views(names@);
        proof {
            self.lemma_wf();
            lemma_write_back_shape(self@, nv, entity, Seq::empty(), 0);
        }
        let args = match self.gather(ctx, names, entity) {
            Some(args) => args,
            None => {
                return None;
            },
        };
        let ghost handed = args;
        let out = transform(args);
        self.write_back(ctx, names, entity, &out);
        proof {
            lemma_write_back_shape(
                old(self)@,
                nv,
                entity,
                views(out@),
                WorldModel::written(nv, views(out@)),
            );
            if old(self)@.all_native(nv) {
                assert(call_ensures(transform, (handed,), out));
            }
        }
        Some(out)
    }

    /// Updates every entity across the named systems, from the first id
    /// issued to the last: see [`World::entity_update_with`]. An entity that
    /// lacks a component in one of the systems is skipped, and the entities
    /// after it are still visited. Nothing is written for an id that has
    /// not been issued, nor to a system that is not named.
    pub fn system_update_with<'lua, F: Fn(Vec<Dynamic>) -> Vec<Dynamic>>(
        &mut self,
        ctx: rlua::Context<'lua>,
        names: &Vec<String>,
        transform: &F,
    )
        requires
            old(self).wf(),
            forall|args: Vec<Dynamic>| call_requires(transform, (args,)),
        ensures
            final(self).wf(),
            final(self)@.same_shape(old(self)@),
            old(self)@.all_native(name_views(names@)) ==> forall|entity: usize|
                entity < old(self)@.size ==> #[trigger] updated(
                    old(self)@,
                    final(self)@,
                    name_views(names@),
                    entity,
                    transform,
                ),
            forall|entity: usize|
                entity < old(self)@.size ==> #[trigger] rewritten(
                    old(self)@,
                    final(self)@,
                    name_views(names@),
                    entity,
                ),
            forall|entity: usize|
                entity >= old(self)@.size ==> #[trigger] final(self)@.column(entity) == old(
                    self,
                )@.column(entity),
    {
        let ghost nv = name_views(names@);
        let ghost start = self@;
        proof {
            self.lemma_wf();
            lemma_write_back_shape(start, nv, 0, Seq::empty(), 0);
        }
        let n = self.base_id;
        let mut entity: usize = 0;
        while entity < n
            invariant
                self.wf(),
                start == old(self)@,
                start.names.len() == start.slots.len(),
                nv == name_views(names@),
                n == start.size,
                entity <= n,
                self@.same_shape(start),
                forall|args: Vec<Dynamic>| call_requires(transform, (args,)),
                start.all_native(nv) ==> forall|e: usize|
                    e < entity ==> #[trigger] updated(start, self@, nv, e, transform),
                forall|e: usize| e < entity ==> #[trigger] rewritten(start, self@, nv, e),
                forall|e: usize| e >= entity ==> #[trigger] self@.column(e) == start.column(e),
            decreases n - entity,
        {
            let ghost before = self@;
            proof {
                self.lemma_wf();
                assert(before.column(entity) == start.column(entity));
                lemma_gathered_congruent(before, start, nv, entity);
                lemma_lacks_congruent(before, start, nv, entity);
            }
            let r = self.entity_update_with(ctx, entity, names, transform);
            proof {
                lemma_same_shape_transitive(self@, before, start);
                assert forall|e: usize| e != entity implies self@.column(e) == before.column(e) by {
                    match r {
                        Some(out) => {
                            lemma_write_back_other(
                                before,
                                nv,
                                entity,
                                views(out@),
                                WorldModel::written(nv, views(out@)),
                                e,
                            );
                        },
                        None => {},
                    }
                }
                assert forall|e: usize| e >= entity + 1 implies #[trigger] self@.column(e)
                    == start.column(e) by {
                    assert(before.column(e) == start.column(e));
                }
                assert forall|e: usize| e < entity + 1 implies #[trigger] rewritten(
                    start,
                    self@,
                    nv,
                    e,
                ) by {
                    if e == entity {
                        if !start.lacks(nv, entity) {
                            match r {
                                Some(out) => {
                                    lemma_write_back_congruent(
                                        before,
                                        start,
                                        nv,
                                        entity,
                                        views(out@),
                                        WorldModel::written(nv, views(out@)),
                                    );
                                    assert(start.rewrite(nv, entity, views(out@)).column(entity)
                                        == self@.column(entity));
                                },
                                None => {
                                    lemma_rewrite_nothing(start, nv, entity);
                                    assert(start.rewrite(nv, entity, Seq::empty()).column(entity)
                                        == self@.column(entity));
                                },
                            }
                        }
                    } else {
                        assert(rewritten(start, before, nv, e));
                        assert(self@.column(e) == before.column(e));
                        if !start.lacks(nv, e) {
                            let out = choose|out: Seq<DynamicView>| #[trigger]
                                start.rewrite(nv, e, out).column(e) == before.column(e);
                            assert(start.rewrite(nv, e, out).column(e) == self@.column(e));
                        }
                    }
                }
                if start.all_native(nv) {
                    assert forall|e: usize| e < entity + 1 implies #[trigger] updated(
                        start,
                        self@,
                        nv,
                        e,
                        transform,
                    ) by {
                        if e == entity {
                            assert(updated(before, self@, nv, entity, transform));
                            if start.has_all(nv, entity) {
                                let (args, out) = choose|args: Vec<Dynamic>, out: Vec<Dynamic>|
                                    {
                                        &&& #[trigger] call_ensures(transform, (args,), out)
                                        &&& views(args@) == before.gathered(nv, entity)
                                        &&& self@.column(entity) == before.rewrite(
                                            nv,
                                            entity,
                                            views(out@),
                                        ).column(entity)
                                    };
                                lemma_write_back_congruent(
                                    before,
                                    start,
                                    nv,
                                    entity,
                                    views(out@),
                                    WorldModel::written(nv, views(out@)),
                                );
                                assert(call_ensures(transform, (args,), out));
                            }
                        } else {
                            assert(updated(start, before, nv, e, transform));
                            assert(self@.column(e) == before.column(e));
                            if start.has_all(nv, e) {
                                let (args, out) = choose|args: Vec<Dynamic>, out: Vec<Dynamic>|
                                    {
                                        &&& #[trigger] call_ensures(transform, (args,), out)
                                        &&& views(args@) == start.gathered(nv, e)
                                        &&& before.column(e) == start.rewrite(
                                            nv,
                                            e,
                                            views(out@),
                                        ).column(e)
                                    };
                                assert(call_ensures(transform, (args,), out));
                            }
                        }
                    }
                }
            }
            entity += 1;
        }
    }

    /// [`World::entity_update_with`] with a function of the scripting
    /// environment as the transform. Where calling it fails, it counts as
    /// having returned no values, and nothing is written back.
    pub fn entity_update<'lua>(
        &mut self,
        ctx: rlua::Context<'lua>,
        entity: usize,
        names: &Vec<String>,
        setter: &rlua::Function<'lua>,
    ) -> (r: Option<Vec<Dynamic>>)
        requires
            old(self).wf(),
        ensures
            final(self).wf(),
            final(self)@.same_shape(old(self)@),
            r is None ==> final(self)@ == old(self)@,
            r matches Some(out) ==> final(self)@ == old(self)@.rewrite(
                name_views(names@),
                entity,
                views(out@),
            ),
            old(self)@.all_native(name_views(names@)) ==> (r is Some <==> old(self)@.has_all(
                name_views(names@),
                entity,
            )),
            old(self)@.lacks(name_views(names@), entity) ==> r is None,
    {
        let transform = |args: Vec<Dynamic>| -> (out: Vec<Dynamic>)
            {
                match call_transform(ctx, setter, &args) {
                    Some(out) => out,
                    None => Vec::new(),
                }
            };
        self.entity_update_with(ctx, entity, names, &transform)
    }

    /// [`World::system_update_with`] with a function of the scripting
    /// environment as the transform. Where calling it fails for an entity,
    /// it counts as having returned no values, and nothing is written back
    /// for that entity.
    pub fn system_update<'lua>(
        &mut self,
        ctx: rlua::Context<'lua>,
        names: &Vec<String>,
        setter: &rlua::Function<'lua>,
    )
        requires
            old(self).wf(),
        ensures
            final(self).wf(),
            final(self)@.same_shape(old(self)@),
            forall|entity: usize|
                entity < old(self)@.size ==> #[trigger] rewritten(
                    old(self)@,
                    final(self)@,
                    name_views(names@),
                    entity,
                ),
            forall|entity: usize|
                entity >= old(self)@.size ==> #[trigger] final(self)@.column(entity) == old(
                    self,
                )@.column(entity),
    {
        let transform = |args: Vec<Dynamic>| -> (out: Vec<Dynamic>)
            {
                match call_transform(ctx, setter, &args) {
                    Some(out) => out,
                    None => Vec::new(),
                }
            };
        self.system_update_with(ctx, names, &transform);
    }

    /// The native system in registry position `at`.
    pub closed spec fn native_at(&self, at: int) -> S
        recommends
            0 <= at < self@.slots.len(),
            self@.slots[at] is Native,
    {
        self.systems@[at]->Native_0
    }

    /// The native system in a registry position is what the model says of
    /// that slot, and its invariant holds.
    pub proof fn lemma_native_at(&self, at: int)
        requires
            self.wf(),
            0 <= at < self@.slots.len(),
            self@.slots[at] is Native,
        ensures
            self.native_at(at).inv(),
            self@.slots[at] == (SlotModel::Native {
                codec: self.native_at(at).codec(),
                components: self.native_at(at).components(),
            }),
    {
    }

    /// Hands the native system named `object_name` to `f` for reading.
    pub fn read_native_system<F: FnOnce(&S)>(&self, object_name: &str, f: F) -> (r: Result<
        (),
        AccessError,
    >)
        requires
            self.wf(),
            forall|system: &S| system.inv() ==> call_requires(f, (system,)),
        ensures
            r is Ok <==> self@.native(object_name@),
            r == Err::<(), AccessError>(AccessError::UnknownSystem) <==> !self@.knows(object_name@),
            r == Err::<(), AccessError>(AccessError::WrongSlotKind) <==> self@.scripted(
                object_name@,
            ),
            r is Ok ==> call_ensures(
                f,
                (&self.native_at(index_of(self@.names, object_name@)),),
                (),
            ),
    {
        match self.find(object_name) {
            Some(i) => match &self.systems[i] {
                System::Native(system) => {
                    f(system);
                    Ok(())
                },
                System::Script(_) => Err(AccessError::WrongSlotKind),
            },
            None => Err(AccessError::UnknownSystem),
        }
    }

    /// Hands the native system named `object_name` to `f` and keeps what `f`
    /// returns in its place. `f` must keep the system's invariant.
    pub fn write_native_system<F: FnOnce(S) -> S>(&mut self, object_name: &str, f: F) -> (r:
        Result<(), AccessError>)
        requires
            old(self).wf(),
            forall|system: S| system.inv() ==> call_requires(f, (system,)),
            forall|system: S, changed: S|
                system.inv() && call_ensures(f, (system,), changed) ==> changed.inv(),
        ensures
            final(self).wf(),
            r is Ok <==> old(self)@.native(object_name@),
            r == Err::<(), AccessError>(AccessError::UnknownSystem) <==> !old(self)@.knows(
                object_name@,
            ),
            r == Err::<(), AccessError>(AccessError::WrongSlotKind) <==> old(self)@.scripted(
                object_name@,
            ),
            r is Err ==> final(self)@ == old(self)@,
            final(self)@.size == old(self)@.size,
            final(self)@.names == old(self)@.names,
            final(self)@.slots.len() == old(self)@.slots.len(),
            r is Ok ==> {
                let at = index_of(old(self)@.names, object_name@);
                &&& final(self)@.slots[at] is Native
                &&& call_ensures(f, (old(self).native_at(at),), final(self).native_at(at))
                &&& forall|j: int|
                    0 <= j < old(self)@.slots.len() && j != at ==> #[trigger] final(self)@.slots[j]
                        == old(self)@.slots[j]
            },
    {
        let i = match self.find(object_name) {
            Some(i) => i,
            None => {
                return Err(AccessError::UnknownSystem);
            },
        };
        let native = match &self.systems[i] {
            System::Native(_) => true,
            System::Script(_) => false,
        };
        if !native {
            return Err(AccessError::WrongSlotKind);
        }
        let ghost before = self.systems@;
        match self.systems.remove(i) {
            System::Native(system) => {
                let changed = f(system);
                self.systems.insert(i, System::Native(changed));
            },
            other => {
                self.systems.insert(i, other);
            },
        }
        proof {
            assert(self.systems@.len() == before.len());
            assert forall|j: int| 0 <= j < before.len() && j != i implies self.systems@[j]
                == before[j] by {}
            assert(self@.names =~= old(self)@.names);
            assert forall|j: int|
                0 <= j < old(self)@.slots.len() && j != i implies #[trigger] self@.slots[j] == old(
                self,
            )@.slots[j] by {
                assert(self.systems@[j] == before[j]);
            }
        }
        Ok(())
    }

    /// A snapshot of the world: for each slot, in registry order, its name
    /// and, for a native system, every entity it holds with its component.
    /// A script system has no snapshot.
    pub fn save(&self) -> (snapshot: Vec<(String, Option<Vec<(usize, Dynamic)>>)>)
        requires
            self.wf(),
        ensures
            snapshot@.len() == self@.slots.len(),
            forall|i: int|
                0 <= i < snapshot@.len() ==> {
                    &&& (#[trigger] snapshot@[i]).0@ == self@.names[i]
                    &&& snapshot@[i].1 is Some <==> self@.slots[i] is Native
                    &&& snapshot@[i].1 matches Some(entries) ==> is_snapshot(
                        entries@,
                        self@.slots[i]->components,
                    )
                },
    {
        let mut snapshot: Vec<(String, Option<Vec<(usize, Dynamic)>>)> = Vec::new();
        let mut i: usize = 0;
        while i < self.systems.len()
            invariant
                self.wf(),
                i <= self.systems@.len(),
                snapshot@.len() == i,
                forall|j: int|
                    0 <= j < i ==> {
                        &&& (#[trigger] snapshot@[j]).0@ == self@.names[j]
                        &&& snapshot@[j].1 is Some <==> self@.slots[j] is Native
                        &&& snapshot@[j].1 matches Some(entries) ==> is_snapshot(
                            entries@,
                            self@.slots[j]->components,
                        )
                    },
            decreases self.systems@.len() - i,
        {
            let entries = match &self.systems[i] {
                System::Native(system) => Some(system.save()),
                System::Script(_) => None,
            };
            snapshot.push((self.names[i].clone(), entries));
            i += 1;
        }
        snapshot
    }

    /// A value that a native system hands out for an entity goes back in
    /// unchanged: `set(name, entity, get(name, entity))` leaves the whole
    /// world as it is.
    pub proof fn law_round_trip(&self, name: Seq<char>, entity: usize)
        requires
            self.wf(),
            !self@.scripted(name),
        ensures
            self@.set(name, entity, self@.component(name, entity)) == self@,
    {
        lemma_index_of_range(self@.names, name);
        if self@.knows(name) {
            let at = index_of(self@.names, name);
            match self.systems@[at] {
                System::Native(system) => {
                    if system.components().contains_key(entity) {
                        system.lemma_stored_is_normal(entity);
                        assert(system.components().insert(entity, system.components()[entity])
                            =~= system.components());
                    }
                },
                System::Script(_) => {},
            }
            assert(self@.set(name, entity, self@.component(name, entity)).slots =~= self@.slots);
        }
    }
}

/// A `get` for a name that no system has, or for an entity without a
/// component in the named system, yields `Nil`.
pub proof fn law_get_absent(world: WorldModel, name: Seq<char>, entity: usize)
    requires
        world.names.len() == world.slots.len(),
        !world.knows(name) || !world.slots[index_of(world.names, name)].has(entity),
    ensures
        world.component(name, entity) is Nil,
{
}

/// A `set` never attaches a component: an entity without a component in the
/// named system has none after a `set`, whatever the value.
pub proof fn law_set_never_creates(
    world: WorldModel,
    name: Seq<char>,
    entity: usize,
    value: DynamicView,
)
    requires
        world.names.len() == world.slots.len(),
        !world.knows(name) || !world.slots[index_of(world.names, name)].has(entity),
    ensures
        world.set(name, entity, value) == world,
        world.set(name, entity, value).component(name, entity) is Nil,
{
    lemma_index_of_range(world.names, name);
    if world.knows(name) {
        assert(world.set(name, entity, value).slots =~= world.slots);
    }
}

/// An update spares every system that is not named: whatever was written
/// back for an entity, its component in a system whose name is not among
/// `names` is as it was.
pub proof fn law_update_spares_unnamed(
    before: WorldModel,
    after: WorldModel,
    names: Seq<Seq<char>>,
    entity: usize,
    name: Seq<char>,
)
    requires
        before.wf(),
        after.same_shape(before),
        rewritten(before, after, names, entity),
        forall|i: int| 0 <= i < names.len() ==> names[i] != name,
    ensures
        after.component(name, entity) == before.component(name, entity),
{
    lemma_index_of_range(before.names, name);
    if before.knows(name) {
        let at = index_of(before.names, name);
        assert(after.column(entity)[at] == after.slots[at].entry(entity));
        assert(before.column(entity)[at] == before.slots[at].entry(entity));
        if !before.lacks(names, entity) {
            let out = choose|out: Seq<DynamicView>| #[trigger]
                before.rewrite(names, entity, out).column(entity) == after.column(entity);
            let written = before.rewrite(names, entity, out);
            lemma_write_back_unnamed(
                before,
                names,
                entity,
                out,
                WorldModel::written(names, out),
                name,
                entity,
            );
            lemma_write_back_shape(before, names, entity, out, WorldModel::written(names, out));
            assert(written.column(entity)[at] == written.slots[at].entry(entity));
        }
    }
}

/// Where no named system is a script system, an update leaves an entity
/// that does not have a component in every named system as it was.
pub proof fn law_update_skips_missing(
    before: WorldModel,
    after: WorldModel,
    names: Seq<Seq<char>>,
    entity: usize,
)
    requires
        before.all_native(names),
        rewritten(before, after, names, entity),
        !before.has_all(names, entity),
    ensures
        after.column(entity) == before.column(entity),
{
    lemma_lacks_native(before, names, entity);
}

/// An update passes over an entity that lacks a component in a named system
/// that is no script system: nothing is written for it in any system.
pub proof fn law_update_passes_over(
    before: WorldModel,
    after: WorldModel,
    names: Seq<Seq<char>>,
    entity: usize,
    name: Seq<char>,
)
    requires
        before.wf(),
        after.same_shape(before),
        rewritten(before, after, names, entity),
        before.lacks(names, entity),
    ensures
        after.component(name, entity) == before.component(name, entity),
{
    lemma_index_of_range(before.names, name);
    if before.knows(name) {
        let at = index_of(before.names, name);
        assert(after.column(entity)[at] == after.slots[at].entry(entity));
        assert(before.column(entity)[at] == before.slots[at].entry(entity));
    }
}

/// The world after the first `count` of a series of spawns, each with its
/// table of literals.
pub open spec fn after_spawns(world: WorldModel, literals: Seq<DynamicView>, count: nat) -> WorldModel
    decreases count,
{
    if count == 0 || count > literals.len() {
        world
    } else {
        let before = after_spawns(world, literals, (count - 1) as nat);
        before.spawn(before.size as usize, literals[count - 1])
    }
}

/// Entity ids are dense and increasing. A spawn issues the world's size as
/// the id, so the spawn in position `k` of a series issues the id
/// `size + k`: the ids of a series of `count` spawns are `size`, `size + 1`
/// and so on without a gap, and afterwards the size has grown by `count`.
pub proof fn law_dense_ids(world: WorldModel, literals: Seq<DynamicView>, count: nat)
    requires
        count <= literals.len(),
    ensures
        after_spawns(world, literals, count).size == world.size + count,
        after_spawns(world, literals, count).names == world.names,
        forall|k: nat|
            k < count ==> (#[trigger] after_spawns(world, literals, k)).size == world.size + k,
    decreases count,
{
    if count > 0 {
        law_dense_ids(world, literals, (count - 1) as nat);
        assert forall|k: nat| k < count implies (#[trigger] after_spawns(world, literals, k)).size
            == world.size + k by {
            if k < count - 1 {
                assert(after_spawns(world, literals, k).size == world.size + k);
            }
        }
    }
}

} // verus!
