use crate::schema::{
    accepts, distinct_names, field_views, fields_sound, lemma_normal_is_fixed, lemma_normal_plain,
    lemma_record_view, normal, sound, FieldView, Shape, ShapeView,
};
use crate::system::{is_snapshot, Codec, ComponentDecodeError, NativeSystem, WorldInfo};
use crate::value::{lemma_plain_holds_nothing, plain, Dynamic, DynamicView};
use std::collections::HashMap;
use vstd::prelude::*;

verus! {

broadcast use vstd::std_specs::hash::group_hash_axioms;

/// A native system that keeps each entity's component as the literal it was
/// spawned from, decoded against a schema. It has no behaviour of its own: a
/// tick leaves it as it is.
pub struct Store {
    shape: Shape,
    hooks: Vec<String>,
    index: HashMap<usize, usize>,
    items: Vec<(usize, Dynamic)>,
}

impl Store {
    /// The schema that components are decoded against.
    pub closed spec fn schema(&self) -> ShapeView {
        self.shape@
    }

    /// A store for components of the given shape, which installs the given
    /// script chunks when it is registered. `None` where the shape cannot
    /// serve as a schema.
    pub fn with_schema(shape: Shape, hooks: Vec<String>) -> (r: Option<Store>)
        ensures
            r is Some <==> sound(shape@),
            r matches Some(store) ==> store.inv() && store.schema() == shape@
                && store.components() == Map::<usize, DynamicView>::empty() && store.hooks()
                == Seq::new(hooks@.len(), |i: int| hooks@[i]@),
    {
        if !shape.is_sound() {
            return None;
        }
        let store = Store { shape, hooks, index: HashMap::new(), items: Vec::new() };
        assert(store.components() =~= Map::<usize, DynamicView>::empty());
        Some(store)
    }

    /// A component of a store holds no function reference: what the store
    /// hands out for an entity refers to nothing in the scripting
    /// environment.
    pub proof fn lemma_stored_is_plain(&self, entity: usize)
        requires
            self.inv(),
            self.components().contains_key(entity),
        ensures
            plain(self.components()[entity]),
    {
        let at = self.index@[entity] as int;
        assert(accepts(self.shape@, self.items@[at].1@));
        lemma_normal_plain(self.shape@, self.items@[at].1@);
    }

    /// How many entities have a component here.
    pub fn len(&self) -> (n: usize)
        requires
            self.inv(),
        ensures
            n == self.components().dom().len(),
    {
        proof {
            self.lemma_count();
        }
        self.items.len()
    }

    /// The entities are as many as the items kept.
    proof fn lemma_count(&self)
        requires
            self.inv(),
        ensures
            self.components().dom().len() == self.items@.len(),
            self.components().dom().finite(),
    {
        assert(self.components().dom() =~= self.index@.dom());
        let keys = self.index@.dom();
        let items = self.items@;
        let positions = Set::new(|i: int| 0 <= i < items.len());
        assert(positions =~= vstd::set_lib::set_int_range(0, items.len() as int));
        vstd::set_lib::lemma_int_range(0, items.len() as int);
        let to_position = |e: usize| self.index@[e] as int;
        assert forall|e1: usize, e2: usize|
            keys.contains(e1) && keys.contains(e2) && to_position(e1) == to_position(
                e2,
            ) implies e1 == e2 by {
            assert(items[self.index@[e1] as int].0 == e1);
            assert(items[self.index@[e2] as int].0 == e2);
        }
        assert(keys.map(to_position) =~= positions) by {
            assert forall|i: int| positions.contains(i) implies keys.map(to_position).contains(
                i,
            ) by {
                let e = items[i].0;
                assert(self.index@.contains_key(e) && self.index@[e] == i);
                assert(keys.contains(e) && to_position(e) == i);
            }
            assert forall|i: int| keys.map(to_position).contains(i) implies positions.contains(
                i,
            ) by {
                let e = choose|e: usize| keys.contains(e) && to_position(e) == i;
                assert(self.index@[e] < items.len());
            }
        }
        vstd::set_lib::lemma_map_size(keys, positions, to_position);
    }
}

impl NativeSystem for Store {
    closed spec fn inv(&self) -> bool {
        &&& sound(self.shape@)
        &&& forall|e: usize|
            self.index@.contains_key(e) ==> (#[trigger] self.index@[e]) < self.items@.len()
                && self.items@[self.index@[e] as int].0 == e
        &&& forall|i: int|
            0 <= i < self.items@.len() ==> self.index@.contains_key((#[trigger] self.items@[i]).0)
                && self.index@[self.items@[i].0] == i
        &&& forall|i: int|
            0 <= i < self.items@.len() ==> accepts(self.shape@, (#[trigger] self.items@[i]).1@)
                && normal(self.shape@, self.items@[i].1@) == self.items@[i].1@
    }

    open spec fn codec(&self) -> Codec {
        Codec {
            accepts: |value: DynamicView| accepts(self.schema(), value),
            normal: |value: DynamicView| normal(self.schema(), value),
        }
    }

    closed spec fn components(&self) -> Map<usize, DynamicView> {
        Map::new(
            |e: usize| self.index@.contains_key(e),
            |e: usize| self.items@[self.index@[e] as int].1@,
        )
    }

    closed spec fn hooks(&self) -> Seq<Seq<char>> {
        Seq::new(self.hooks@.len(), |i: int| self.hooks@[i]@)
    }

    /// A tick leaves a store as it is.
    open spec fn tick_step(before: &Self, after: &Self, world: WorldInfo) -> bool {
        after == before
    }

    proof fn lemma_stored_is_normal(&self, entity: usize) {
    }

    /// A store whose components are empty records: it accepts every table
    /// and keeps nothing of it.
    fn new() -> (system: Self)
        ensures
            system.schema() == ShapeView::Record(Seq::empty()),
            system.hooks() == Seq::<Seq<char>>::empty(),
    {
        let fields = Vec::new();
        proof {
            lemma_record_view(fields);
        }
        let system = Store {
            shape: Shape::Record(fields),
            hooks: Vec::new(),
            index: HashMap::new(),
            items: Vec::new(),
        };
        assert(system.components() =~= Map::<usize, DynamicView>::empty());
        assert(system.hooks() =~= Seq::<Seq<char>>::empty());
        proof {
            let none = Seq::<FieldView>::empty();
            assert(field_views(fields@) =~= none);
            assert(system.shape@ == ShapeView::Record(none));
            assert(fields_sound(none, 0));
            assert(distinct_names(none));
            assert(sound(ShapeView::Record(none)));
        }
        system
    }

    fn tick(&mut self, world: &WorldInfo) {
    }

    fn globals(&self) -> (chunks: Vec<String>) {
        let mut chunks: Vec<String> = Vec::new();
        let mut i: usize = 0;
        while i < self.hooks.len()
            invariant
                i <= self.hooks@.len(),
                chunks@.len() == i,
                forall|j: int| 0 <= j < i ==> (#[trigger] chunks@[j])@ == self.hooks@[j]@,
            decreases self.hooks@.len() - i,
        {
            chunks.push(self.hooks[i].clone());
            i += 1;
        }
        chunks
    }

    fn spawn(&mut self, entity: usize, object: &Dynamic) -> (r: Result<(), ComponentDecodeError>) {
        let decoded = match self.shape.decode(object) {
            Some(decoded) => decoded,
            None => {
                return Err(ComponentDecodeError::SchemaMismatch);
            },
        };
        proof {
            lemma_normal_is_fixed(self.shape@, object@);
        }
        let ghost before = *self;
        let at = match self.index.get(&entity) {
            Some(at) => Some(*at),
            None => None,
        };
        match at {
            Some(at) => {
                self.items.set(at, (entity, decoded));
                proof {
                    assert forall|i: int| 0 <= i < self.items@.len() implies self.index@.contains_key(
                        (#[trigger] self.items@[i]).0,
                    ) && self.index@[self.items@[i].0] == i by {
                        assert(before.index@.contains_key(before.items@[i].0));
                    }
                    assert forall|i: int| 0 <= i < self.items@.len() implies accepts(
                        self.shape@,
                        (#[trigger] self.items@[i]).1@,
                    ) && normal(self.shape@, self.items@[i].1@) == self.items@[i].1@ by {
                        if i != at {
                            assert(self.items@[i] == before.items@[i]);
                        }
                    }
                    assert forall|e: usize| self.index@.contains_key(e) implies (
                    #[trigger] self.index@[e]) < self.items@.len()
                        && self.items@[self.index@[e] as int].0 == e by {
                        assert(before.index@[e] < before.items@.len());
                    }
                    assert(self.components() =~= before.components().insert(
                        entity,
                        normal(before.shape@, object@),
                    )) by {
                        assert forall|e: usize| self.index@.contains_key(e) && e
                            != entity implies self.items@[self.index@[e] as int].1@
                            == before.items@[before.index@[e] as int].1@ by {
                            assert(before.items@[before.index@[e] as int].0 == e);
                        }
                    }
                }
            },
            None => {
                let at = self.items.len();
                self.index.insert(entity, at);
                self.items.push((entity, decoded));
                proof {
                    assert forall|i: int| 0 <= i < self.items@.len() implies self.index@.contains_key(
                        (#[trigger] self.items@[i]).0,
                    ) && self.index@[self.items@[i].0] == i by {
                        if i < at {
                            assert(self.items@[i] == before.items@[i]);
                            assert(before.index@.contains_key(before.items@[i].0));
                        }
                    }
                    assert forall|i: int| 0 <= i < self.items@.len() implies accepts(
                        self.shape@,
                        (#[trigger] self.items@[i]).1@,
                    ) && normal(self.shape@, self.items@[i].1@) == self.items@[i].1@ by {
                        if i < at {
                            assert(self.items@[i] == before.items@[i]);
                        }
                    }
                    assert forall|e: usize| self.index@.contains_key(e) implies (
                    #[trigger] self.index@[e]) < self.items@.len()
                        && self.items@[self.index@[e] as int].0 == e by {
                        if e != entity {
                            assert(before.index@[e] < before.items@.len());
                        }
                    }
                    assert(self.components() =~= before.components().insert(
                        entity,
                        normal(before.shape@, object@),
                    )) by {
                        assert forall|e: usize| self.index@.contains_key(e) && e
                            != entity implies self.items@[self.index@[e] as int].1@
                            == before.items@[before.index@[e] as int].1@ by {
                            assert(before.index@[e] < before.items@.len());
                        }
                    }
                }
            },
        }
        Ok(())
    }

    /// What a store hands out refers to no function of the scripting
    /// environment.
    fn get(&self, entity: usize) -> (value: Dynamic)
        ensures
            plain(value@),
            value.held() == Seq::<rlua::RegistryKey>::empty(),
    {
        match self.index.get(&entity) {
            Some(at) => {
                assert(self.index@[entity] == *at);
                let value = self.items[*at].1.duplicate();
                proof {
                    self.lemma_stored_is_plain(entity);
                    lemma_plain_holds_nothing(value);
                }
                value
            },
            None => Dynamic::Nil,
        }
    }

    fn set(&mut self, entity: usize, value: &Dynamic) {
        let at = match self.index.get(&entity) {
            Some(at) => *at,
            None => {
                return ;
            },
        };
        let decoded = match self.shape.decode(value) {
            Some(decoded) => decoded,
            None => {
                return ;
            },
        };
        proof {
            lemma_normal_is_fixed(self.shape@, value@);
        }
        let ghost before = *self;
        self.items.set(at, (entity, decoded));
        proof {
            assert forall|i: int| 0 <= i < self.items@.len() implies self.index@.contains_key(
                (#[trigger] self.items@[i]).0,
            ) && self.index@[self.items@[i].0] == i by {
                assert(before.index@.contains_key(before.items@[i].0));
            }
            assert forall|i: int| 0 <= i < self.items@.len() implies accepts(
                self.shape@,
                (#[trigger] self.items@[i]).1@,
            ) && normal(self.shape@, self.items@[i].1@) == self.items@[i].1@ by {
                if i != at {
                    assert(self.items@[i] == before.items@[i]);
                }
            }
            assert forall|e: usize| self.index@.contains_key(e) implies (#[trigger] self.index@[e])
                < self.items@.len() && self.items@[self.index@[e] as int].0 == e by {
                assert(before.index@[e] < before.items@.len());
            }
            assert(self.components() =~= before.components().insert(
                entity,
                normal(before.shape@, value@),
            )) by {
                assert forall|e: usize| self.index@.contains_key(e) && e
                    != entity implies self.items@[self.index@[e] as int].1@
                    == before.items@[before.index@[e] as int].1@ by {
                    assert(before.items@[before.index@[e] as int].0 == e);
                }
            }
        }
    }

    fn save(&self) -> (snapshot: Vec<(usize, Dynamic)>) {
        let mut snapshot: Vec<(usize, Dynamic)> = Vec::new();
        let mut i: usize = 0;
        while i < self.items.len()
            invariant
                self.inv(),
                i <= self.items@.len(),
                snapshot@.len() == i,
                forall|j: int|
                    0 <= j < i ==> (#[trigger] snapshot@[j]).0 == self.items@[j].0
                        && snapshot@[j].1@ == self.items@[j].1@,
            decreases self.items@.len() - i,
        {
            snapshot.push((self.items[i].0, self.items[i].1.duplicate()));
            i += 1;
        }
        proof {
            let components = self.components();
            assert forall|j: int| 0 <= j < snapshot@.len() implies components.contains_key(
                (#[trigger] snapshot@[j]).0,
            ) && snapshot@[j].1@ == components[snapshot@[j].0] by {
                assert(self.index@.contains_key(self.items@[j].0));
            }
            assert forall|a: int, b: int| 0 <= a < b < snapshot@.len() implies (
            #[trigger] snapshot@[a]).0 != (#[trigger] snapshot@[b]).0 by {
                assert(self.index@[self.items@[a].0] == a);
                assert(self.index@[self.items@[b].0] == b);
            }
            assert forall|e: usize| components.contains_key(e) implies exists|j: int|
                0 <= j < snapshot@.len() && (#[trigger] snapshot@[j]).0 == e by {
                let j = self.index@[e] as int;
                assert(self.items@[j].0 == e);
                assert(snapshot@[j].0 == e);
            }
        }
        snapshot
    }
}

} // verus!
