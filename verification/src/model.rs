use crate::system::Codec;
use crate::value::DynamicView;
use vstd::prelude::*;

verus! {

/// The model of one registry slot.
pub enum SlotModel {
    /// A compiled system: its decoding rule and each entity's component.
    Native { codec: Codec, components: Map<usize, DynamicView> },
    /// A system authored in the scripting environment. Its state lives
    /// there and is no part of the model.
    Script,
}

/// The model of a world: how many entity ids have been issued, and the
/// slots in registry order, each under its name.
pub struct WorldModel {
    pub size: nat,
    pub names: Seq<Seq<char>>,
    pub slots: Seq<SlotModel>,
}

/// The position of `name` in `names`, -1 if it is not there.
pub open spec fn index_of(names: Seq<Seq<char>>, name: Seq<char>) -> int
    decreases names.len(),
{
    if names.len() == 0 {
        -1
    } else if names.last() == name {
        names.len() - 1
    } else {
        index_of(names.drop_last(), name)
    }
}

/// No name occurs twice.
pub open spec fn distinct(names: Seq<Seq<char>>) -> bool {
    forall|i: int, j: int| 0 <= i < j < names.len() ==> names[i] != names[j]
}

/// The position of a name lies in the list and holds the name; where there
/// is none, no position holds the name.
pub proof fn lemma_index_of_range(names: Seq<Seq<char>>, name: Seq<char>)
    ensures
        -1 <= index_of(names, name) < names.len(),
        index_of(names, name) >= 0 ==> names[index_of(names, name)] == name,
        index_of(names, name) == -1 ==> forall|i: int| 0 <= i < names.len() ==> names[i] != name,
    decreases names.len(),
{
    if names.len() > 0 && names.last() != name {
        lemma_index_of_range(names.drop_last(), name);
        assert forall|i: int| 0 <= i < names.len() && index_of(names, name) == -1 implies names[i]
            != name by {
            if i < names.len() - 1 {
                assert(names.drop_last()[i] == names[i]);
            }
        }
    }
}

/// The last position that holds a name is the position of the name.
pub proof fn lemma_index_of_found(names: Seq<Seq<char>>, name: Seq<char>, at: int)
    requires
        0 <= at < names.len(),
        names[at] == name,
        forall|j: int| at < j < names.len() ==> names[j] != name,
    ensures
        index_of(names, name) == at,
    decreases names.len(),
{
    if at < names.len() - 1 {
        assert(names.last() != name);
        assert forall|j: int| at < j < names.drop_last().len() implies names.drop_last()[j]
            != name by {
            assert(names[j] != name);
        }
        lemma_index_of_found(names.drop_last(), name, at);
    }
}

/// A name that no position holds has no position.
pub proof fn lemma_index_of_absent(names: Seq<Seq<char>>, name: Seq<char>)
    requires
        forall|j: int| 0 <= j < names.len() ==> names[j] != name,
    ensures
        index_of(names, name) == -1,
    decreases names.len(),
{
    if names.len() > 0 {
        assert(names.last() != name);
        assert forall|j: int| 0 <= j < names.drop_last().len() implies names.drop_last()[j]
            != name by {
            assert(names[j] != name);
        }
        lemma_index_of_absent(names.drop_last(), name);
    }
}

impl SlotModel {
    /// The entity's component, if it has one here.
    pub open spec fn entry(self, entity: usize) -> Option<DynamicView> {
        match self {
            SlotModel::Native { codec, components } => if components.contains_key(entity) {
                Some(components[entity])
            } else {
                None
            },
            SlotModel::Script => None,
        }
    }

    /// The entity's component, `Nil` if it has none here.
    pub open spec fn component(self, entity: usize) -> DynamicView {
        match self.entry(entity) {
            Some(component) => component,
            None => DynamicView::Nil,
        }
    }

    /// Whether the entity has a component here.
    pub open spec fn has(self, entity: usize) -> bool {
        match self {
            SlotModel::Native { codec, components } => components.contains_key(entity),
            SlotModel::Script => false,
        }
    }

    /// The slot after `set(entity, value)`: the component is overwritten if
    /// the entity has one and the value is accepted; nothing else changes.
    pub open spec fn set(self, entity: usize, value: DynamicView) -> SlotModel {
        match self {
            SlotModel::Native { codec, components } => if components.contains_key(entity) && (
            codec.accepts)(value) {
                SlotModel::Native {
                    codec,
                    components: components.insert(entity, (codec.normal)(value)),
                }
            } else {
                self
            },
            SlotModel::Script => self,
        }
    }

    /// Whether a native slot refuses the literal given for it at a spawn.
    pub open spec fn rejects(self, literal: DynamicView) -> bool {
        match self {
            SlotModel::Native { codec, components } => !(literal is Nil) && !(codec.accepts)(
                literal,
            ),
            SlotModel::Script => false,
        }
    }

    /// The slot after a spawn of `entity` with `literal` given for this slot
    /// (`Nil` where none is given): the decoded component is attached if the
    /// literal is accepted.
    pub open spec fn spawn(self, entity: usize, literal: DynamicView) -> SlotModel {
        match self {
            SlotModel::Native { codec, components } => if !(literal is Nil) && (codec.accepts)(
                literal,
            ) {
                SlotModel::Native {
                    codec,
                    components: components.insert(entity, (codec.normal)(literal)),
                }
            } else {
                self
            },
            SlotModel::Script => self,
        }
    }

    /// Same kind of slot, same decoding rule, same entities: only what the
    /// components hold may differ.
    pub open spec fn same_shape(self, other: SlotModel) -> bool {
        match (self, other) {
            (
                SlotModel::Native { codec: c1, components: m1 },
                SlotModel::Native { codec: c2, components: m2 },
            ) => c1 == c2 && m1.dom() == m2.dom(),
            (SlotModel::Script, SlotModel::Script) => true,
            _ => false,
        }
    }
}

impl WorldModel {
    /// As many names as slots, and no name twice.
    pub open spec fn wf(self) -> bool {
        &&& self.names.len() == self.slots.len()
        &&& distinct(self.names)
    }

    /// Whether a system is registered under `name`.
    pub open spec fn knows(self, name: Seq<char>) -> bool {
        index_of(self.names, name) >= 0
    }

    /// Whether a script system is registered under `name`.
    pub open spec fn scripted(self, name: Seq<char>) -> bool {
        self.knows(name) && self.slots[index_of(self.names, name)] is Script
    }

    /// Whether a native system is registered under `name`.
    pub open spec fn native(self, name: Seq<char>) -> bool {
        self.knows(name) && self.slots[index_of(self.names, name)] is Native
    }

    /// The entity's component in the system `name`: `Nil` where no native
    /// system of that name holds one.
    pub open spec fn component(self, name: Seq<char>, entity: usize) -> DynamicView {
        if self.knows(name) {
            self.slots[index_of(self.names, name)].component(entity)
        } else {
            DynamicView::Nil
        }
    }

    /// The world after `set(name, entity, value)`.
    pub open spec fn set(self, name: Seq<char>, entity: usize, value: DynamicView) -> WorldModel {
        if self.knows(name) {
            let at = index_of(self.names, name);
            WorldModel { slots: self.slots.update(at, self.slots[at].set(entity, value)), ..self }
        } else {
            self
        }
    }

    /// The world after the first `count` of `values` have been written back
    /// to the systems of the same positions in `names`, in order.
    pub open spec fn write_back(
        self,
        names: Seq<Seq<char>>,
        entity: usize,
        values: Seq<DynamicView>,
        count: nat,
    ) -> WorldModel
        decreases count,
    {
        if count == 0 || count > names.len() || count > values.len() {
            self
        } else {
            self.write_back(names, entity, values, (count - 1) as nat).set(
                names[count - 1],
                entity,
                values[count - 1],
            )
        }
    }

    /// How many values an update writes back: one for each name, as far as
    /// the values go.
    pub open spec fn written(names: Seq<Seq<char>>, values: Seq<DynamicView>) -> nat {
        if names.len() <= values.len() {
            names.len()
        } else {
            values.len()
        }
    }

    /// The world with one more slot at the end of the registry.
    pub open spec fn with_slot(self, name: Seq<char>, slot: SlotModel) -> WorldModel {
        WorldModel { names: self.names.push(name), slots: self.slots.push(slot), ..self }
    }

    /// The world after a spawn with the component table `literals`: one more
    /// id is issued, and each native system for which the table holds a
    /// literal that it accepts has the new entity's component.
    pub open spec fn spawn(self, entity: usize, literals: DynamicView) -> WorldModel {
        WorldModel {
            size: self.size + 1,
            names: self.names,
            slots: Seq::new(
                self.slots.len(),
                |i: int| self.slots[i].spawn(entity, literals.field(self.names[i])),
            ),
        }
    }

    /// Whether some native system refuses the literal that `literals` holds
    /// for it.
    pub open spec fn rejects(self, literals: DynamicView) -> bool {
        exists|i: int|
            0 <= i < self.slots.len() && (#[trigger] self.slots[i]).rejects(
                literals.field(self.names[i]),
            )
    }

    /// Whether `literals` holds a literal for some script system.
    pub open spec fn spawns_script(self, literals: DynamicView) -> bool {
        exists|i: int|
            0 <= i < self.slots.len() && (#[trigger] self.slots[i]) is Script && !(literals.field(
                self.names[i],
            ) is Nil)
    }

    /// Same size, same names, and slot by slot the same shape: only what the
    /// components hold may differ.
    pub open spec fn same_shape(self, other: WorldModel) -> bool {
        &&& self.size == other.size
        &&& self.names == other.names
        &&& self.slots.len() == other.slots.len()
        &&& forall|i: int|
            0 <= i < self.slots.len() ==> (#[trigger] self.slots[i]).same_shape(other.slots[i])
    }

    /// Whether the entity has a component in every one of the named
    /// systems.
    pub open spec fn has_all(self, names: Seq<Seq<char>>, entity: usize) -> bool {
        forall|i: int| 0 <= i < names.len() ==> !(#[trigger] self.component(names[i], entity) is Nil)
    }

    /// The entity's components in the named systems, in order.
    pub open spec fn gathered(self, names: Seq<Seq<char>>, entity: usize) -> Seq<DynamicView> {
        Seq::new(names.len(), |i: int| self.component(names[i], entity))
    }

    /// Whether the entity lacks a component in one of the named systems
    /// that is no script system. Such an entity is passed over by an update,
    /// whatever the script systems among the names would answer.
    pub open spec fn lacks(self, names: Seq<Seq<char>>, entity: usize) -> bool {
        exists|i: int|
            0 <= i < names.len() && !self.scripted(#[trigger] names[i]) && self.component(
                names[i],
                entity,
            ) is Nil
    }

    /// Whether none of the names is that of a script system.
    pub open spec fn all_native(self, names: Seq<Seq<char>>) -> bool {
        forall|i: int| 0 <= i < names.len() ==> !(#[trigger] self.scripted(names[i]))
    }

    /// What each slot holds for the entity, in registry order.
    pub open spec fn column(self, entity: usize) -> Seq<Option<DynamicView>> {
        Seq::new(self.slots.len(), |i: int| self.slots[i].entry(entity))
    }

    /// The world after an update of `entity` over `names` whose transform
    /// returned `values`.
    pub open spec fn rewrite(
        self,
        names: Seq<Seq<char>>,
        entity: usize,
        values: Seq<DynamicView>,
    ) -> WorldModel {
        self.write_back(names, entity, values, Self::written(names, values))
    }
}

/// The views of a list of names, one for one.
pub open spec fn name_views(names: Seq<String>) -> Seq<Seq<char>> {
    Seq::new(names.len(), |i: int| names[i]@)
}

/// Having the same shape is symmetric.
pub proof fn lemma_same_shape_symmetric(a: WorldModel, b: WorldModel)
    requires
        a.same_shape(b),
    ensures
        b.same_shape(a),
{
    assert forall|i: int| 0 <= i < b.slots.len() implies (#[trigger] b.slots[i]).same_shape(
        a.slots[i],
    ) by {
        assert(a.slots[i].same_shape(b.slots[i]));
    }
}

/// Having the same shape is transitive.
pub proof fn lemma_same_shape_transitive(a: WorldModel, b: WorldModel, c: WorldModel)
    requires
        a.same_shape(b),
        b.same_shape(c),
    ensures
        a.same_shape(c),
{
    assert forall|i: int| 0 <= i < a.slots.len() implies (#[trigger] a.slots[i]).same_shape(
        c.slots[i],
    ) by {
        assert(a.slots[i].same_shape(b.slots[i]));
        assert(b.slots[i].same_shape(c.slots[i]));
    }
}

/// A `set` keeps the world's shape.
pub proof fn lemma_set_shape(m: WorldModel, name: Seq<char>, entity: usize, value: DynamicView)
    requires
        m.names.len() == m.slots.len(),
    ensures
        m.set(name, entity, value).same_shape(m),
        m.set(name, entity, value).names.len() == m.set(name, entity, value).slots.len(),
{
    lemma_index_of_range(m.names, name);
    let after = m.set(name, entity, value);
    assert forall|i: int| 0 <= i < after.slots.len() implies (#[trigger] after.slots[i]).same_shape(
        m.slots[i],
    ) by {
        if m.knows(name) && i == index_of(m.names, name) {
            match m.slots[i] {
                SlotModel::Native { codec, components } => {
                    if components.contains_key(entity) && (codec.accepts)(value) {
                        assert(components.insert(entity, (codec.normal)(value)).dom()
                            =~= components.dom());
                    }
                },
                SlotModel::Script => {},
            }
        }
    }
}

/// A `set` for one entity leaves every other entity as it is.
pub proof fn lemma_set_other(
    m: WorldModel,
    name: Seq<char>,
    entity: usize,
    value: DynamicView,
    other: usize,
)
    requires
        m.names.len() == m.slots.len(),
        other != entity,
    ensures
        m.set(name, entity, value).column(other) == m.column(other),
{
    lemma_index_of_range(m.names, name);
    assert(m.set(name, entity, value).column(other) =~= m.column(other));
}

/// What a `set` does to an entity depends only on the world's shape and on
/// what the entity had.
pub proof fn lemma_set_congruent(
    a: WorldModel,
    b: WorldModel,
    name: Seq<char>,
    entity: usize,
    value: DynamicView,
)
    requires
        a.names.len() == a.slots.len(),
        a.same_shape(b),
        a.column(entity) == b.column(entity),
    ensures
        a.set(name, entity, value).column(entity) == b.set(name, entity, value).column(entity),
{
    lemma_index_of_range(a.names, name);
    let a2 = a.set(name, entity, value);
    let b2 = b.set(name, entity, value);
    assert forall|i: int| 0 <= i < a.slots.len() implies a2.slots[i].entry(entity)
        == b2.slots[i].entry(entity) by {
        assert(a.slots[i].same_shape(b.slots[i]));
        assert(a.column(entity)[i] == a.slots[i].entry(entity));
        assert(b.column(entity)[i] == b.slots[i].entry(entity));
    }
    assert(a2.column(entity) =~= b2.column(entity));
}

/// Writing values back keeps the world's shape.
pub proof fn lemma_write_back_shape(
    m: WorldModel,
    names: Seq<Seq<char>>,
    entity: usize,
    values: Seq<DynamicView>,
    count: nat,
)
    requires
        m.names.len() == m.slots.len(),
    ensures
        m.write_back(names, entity, values, count).same_shape(m),
        m.write_back(names, entity, values, count).names.len() == m.write_back(
            names,
            entity,
            values,
            count,
        ).slots.len(),
    decreases count,
{
    if count == 0 || count > names.len() || count > values.len() {
        assert forall|i: int| 0 <= i < m.slots.len() implies (#[trigger] m.slots[i]).same_shape(
            m.slots[i],
        ) by {}
    } else {
        let before = m.write_back(names, entity, values, (count - 1) as nat);
        lemma_write_back_shape(m, names, entity, values, (count - 1) as nat);
        lemma_set_shape(before, names[count - 1], entity, values[count - 1]);
        lemma_same_shape_transitive(
            before.set(names[count - 1], entity, values[count - 1]),
            before,
            m,
        );
    }
}

/// Writing values back for one entity leaves every other entity as it is.
pub proof fn lemma_write_back_other(
    m: WorldModel,
    names: Seq<Seq<char>>,
    entity: usize,
    values: Seq<DynamicView>,
    count: nat,
    other: usize,
)
    requires
        m.names.len() == m.slots.len(),
        other != entity,
    ensures
        m.write_back(names, entity, values, count).column(other) == m.column(other),
    decreases count,
{
    if !(count == 0 || count > names.len() || count > values.len()) {
        let before = m.write_back(names, entity, values, (count - 1) as nat);
        lemma_write_back_other(m, names, entity, values, (count - 1) as nat, other);
        lemma_write_back_shape(m, names, entity, values, (count - 1) as nat);
        lemma_set_other(before, names[count - 1], entity, values[count - 1], other);
    }
}

/// What writing values back does to an entity depends only on the world's
/// shape and on what the entity had.
pub proof fn lemma_write_back_congruent(
    a: WorldModel,
    b: WorldModel,
    names: Seq<Seq<char>>,
    entity: usize,
    values: Seq<DynamicView>,
    count: nat,
)
    requires
        a.names.len() == a.slots.len(),
        a.same_shape(b),
        a.column(entity) == b.column(entity),
    ensures
        a.write_back(names, entity, values, count).column(entity) == b.write_back(
            names,
            entity,
            values,
            count,
        ).column(entity),
    decreases count,
{
    if !(count == 0 || count > names.len() || count > values.len()) {
        let a1 = a.write_back(names, entity, values, (count - 1) as nat);
        let b1 = b.write_back(names, entity, values, (count - 1) as nat);
        lemma_write_back_congruent(a, b, names, entity, values, (count - 1) as nat);
        lemma_write_back_shape(a, names, entity, values, (count - 1) as nat);
        lemma_write_back_shape(b, names, entity, values, (count - 1) as nat);
        lemma_same_shape_symmetric(b1, b);
        lemma_same_shape_transitive(a1, a, b);
        lemma_same_shape_transitive(a1, b, b1);
        lemma_set_congruent(a1, b1, names[count - 1], entity, values[count - 1]);
    }
}

/// Which components an entity has in the named systems depends only on the
/// world's shape and on what the entity has.
pub proof fn lemma_gathered_congruent(
    a: WorldModel,
    b: WorldModel,
    names: Seq<Seq<char>>,
    entity: usize,
)
    requires
        a.names.len() == a.slots.len(),
        a.same_shape(b),
        a.column(entity) == b.column(entity),
    ensures
        a.gathered(names, entity) == b.gathered(names, entity),
        a.has_all(names, entity) == b.has_all(names, entity),
        a.all_native(names) == b.all_native(names),
{
    assert forall|i: int| 0 <= i < names.len() implies a.component(names[i], entity)
        == b.component(names[i], entity) && a.scripted(names[i]) == b.scripted(names[i]) by {
        lemma_index_of_range(a.names, names[i]);
        if a.knows(names[i]) {
            let at = index_of(a.names, names[i]);
            assert(a.slots[at].same_shape(b.slots[at]));
            assert(a.column(entity)[at] == a.slots[at].entry(entity));
            assert(b.column(entity)[at] == b.slots[at].entry(entity));
        }
    }
    assert(a.gathered(names, entity) =~= b.gathered(names, entity));
    if a.has_all(names, entity) {
        assert forall|i: int| 0 <= i < names.len() implies !(#[trigger] b.component(
            names[i],
            entity,
        ) is Nil) by {
            assert(!(a.component(names[i], entity) is Nil));
        }
    }
    if b.has_all(names, entity) {
        assert forall|i: int| 0 <= i < names.len() implies !(#[trigger] a.component(
            names[i],
            entity,
        ) is Nil) by {
            assert(!(b.component(names[i], entity) is Nil));
        }
    }
    if a.all_native(names) {
        assert forall|i: int| 0 <= i < names.len() implies !(#[trigger] b.scripted(names[i])) by {
            assert(!a.scripted(names[i]));
        }
    }
    if b.all_native(names) {
        assert forall|i: int| 0 <= i < names.len() implies !(#[trigger] a.scripted(names[i])) by {
            assert(!b.scripted(names[i]));
        }
    }
}

/// Whether an entity lacks a component in a named system that is no script
/// system depends only on the world's shape and on what the entity has.
pub proof fn lemma_lacks_congruent(a: WorldModel, b: WorldModel, names: Seq<Seq<char>>, entity: usize)
    requires
        a.names.len() == a.slots.len(),
        a.same_shape(b),
        a.column(entity) == b.column(entity),
    ensures
        a.lacks(names, entity) == b.lacks(names, entity),
{
    assert forall|i: int| 0 <= i < names.len() implies a.component(names[i], entity)
        == b.component(names[i], entity) && a.scripted(names[i]) == b.scripted(names[i]) by {
        lemma_index_of_range(a.names, names[i]);
        if a.knows(names[i]) {
            let at = index_of(a.names, names[i]);
            assert(a.slots[at].same_shape(b.slots[at]));
            assert(a.column(entity)[at] == a.slots[at].entry(entity));
            assert(b.column(entity)[at] == b.slots[at].entry(entity));
        }
    }
    if a.lacks(names, entity) {
        let i = choose|i: int|
            0 <= i < names.len() && !a.scripted(#[trigger] names[i]) && a.component(
                names[i],
                entity,
            ) is Nil;
        assert(!b.scripted(names[i]) && b.component(names[i], entity) is Nil);
    }
    if b.lacks(names, entity) {
        let i = choose|i: int|
            0 <= i < names.len() && !b.scripted(#[trigger] names[i]) && b.component(
                names[i],
                entity,
            ) is Nil;
        assert(!a.scripted(names[i]) && a.component(names[i], entity) is Nil);
    }
}

/// Where no named system is a script system, an entity lacks a component
/// exactly when it does not have one in every named system.
pub proof fn lemma_lacks_native(m: WorldModel, names: Seq<Seq<char>>, entity: usize)
    requires
        m.all_native(names),
    ensures
        m.lacks(names, entity) == !m.has_all(names, entity),
{
    if m.lacks(names, entity) {
        let i = choose|i: int|
            0 <= i < names.len() && !m.scripted(#[trigger] names[i]) && m.component(
                names[i],
                entity,
            ) is Nil;
        assert(m.component(names[i], entity) is Nil);
    }
    if !m.has_all(names, entity) {
        let i = choose|i: int| 0 <= i < names.len() && (#[trigger] m.component(names[i], entity)) is Nil;
        assert(!m.scripted(names[i]));
    }
}

/// An update whose transform returned no values writes nothing.
pub proof fn lemma_rewrite_nothing(m: WorldModel, names: Seq<Seq<char>>, entity: usize)
    ensures
        m.rewrite(names, entity, Seq::empty()) == m,
{
}

/// An update over `names` leaves the components of every system that is not
/// named as they are, for every entity.
pub proof fn lemma_write_back_unnamed(
    m: WorldModel,
    names: Seq<Seq<char>>,
    entity: usize,
    values: Seq<DynamicView>,
    count: nat,
    name: Seq<char>,
    other: usize,
)
    requires
        m.wf(),
        forall|i: int| 0 <= i < names.len() ==> names[i] != name,
    ensures
        m.write_back(names, entity, values, count).component(name, other) == m.component(
            name,
            other,
        ),
    decreases count,
{
    if !(count == 0 || count > names.len() || count > values.len()) {
        let before = m.write_back(names, entity, values, (count - 1) as nat);
        lemma_write_back_unnamed(m, names, entity, values, (count - 1) as nat, name, other);
        lemma_write_back_shape(m, names, entity, values, (count - 1) as nat);
        lemma_index_of_range(before.names, names[count - 1]);
        lemma_index_of_range(before.names, name);
        assert(before.names == m.names);
    }
}

} // verus!
