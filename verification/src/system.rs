use crate::value::{Dynamic, DynamicView};
use vstd::prelude::*;

verus! {

/// What a system is told of the world when it is ticked.
pub struct WorldInfo {
    /// How many entity ids have been issued so far.
    pub entities: usize,
}

/// Why a literal could not be decoded into a component.
#[derive(Debug)]
pub enum ComponentDecodeError {
    /// The literal does not fit the component's schema: it is no table, or a
    /// field that is present has the wrong shape, or a field without a
    /// default is missing.
    SchemaMismatch,
}

/// How a system decodes component literals: which literals it accepts, and
/// the exchange form of the component that an accepted literal describes.
pub struct Codec {
    pub accepts: spec_fn(DynamicView) -> bool,
    pub normal: spec_fn(DynamicView) -> DynamicView,
}

/// A snapshot lists each entity of `components` exactly once, with its
/// component, and nothing else.
pub open spec fn is_snapshot(
    snapshot: Seq<(usize, Dynamic)>,
    components: Map<usize, DynamicView>,
) -> bool {
    &&& forall|i: int|
        0 <= i < snapshot.len() ==> components.contains_key((#[trigger] snapshot[i]).0)
            && snapshot[i].1@ == components[snapshot[i].0]
    &&& forall|i: int, j: int|
        0 <= i < j < snapshot.len() ==> (#[trigger] snapshot[i]).0 != (#[trigger] snapshot[j]).0
    &&& forall|e: usize|
        components.contains_key(e) ==> exists|i: int|
            0 <= i < snapshot.len() && (#[trigger] snapshot[i]).0 == e
}

/// The capability set of a compiled system: it owns one kind of per-entity
/// data and exchanges it with the rest of the world as [`Dynamic`] values.
///
/// The model of a system is the map from entity id to the exchange form of
/// that entity's component. Components are attached by `spawn` alone: `set`
/// and `tick` change what is there and never add or remove an entity.
pub trait NativeSystem: Sized {
    /// The system's internal invariant.
    spec fn inv(&self) -> bool;

    /// The system's decoding rule. No operation changes it.
    spec fn codec(&self) -> Codec;

    /// Each entity's component, in exchange form.
    spec fn components(&self) -> Map<usize, DynamicView>;

    /// The script chunks that the system installs when it is registered.
    spec fn hooks(&self) -> Seq<Seq<char>>;

    /// Encoding and decoding are inverse on what is stored: a stored
    /// component is accepted as a literal and describes itself.
    proof fn lemma_stored_is_normal(&self, entity: usize)
        requires
            self.inv(),
            self.components().contains_key(entity),
        ensures
            (self.codec().accepts)(self.components()[entity]),
            (self.codec().normal)(self.components()[entity]) == self.components()[entity],
    ;

    /// An empty system: no entity has a component.
    fn new() -> (system: Self)
        ensures
            system.inv(),
            system.components() == Map::<usize, DynamicView>::empty(),
    ;

    /// Whether `after` is what one tick may make of `before` in a world of
    /// which `world` is told: the system's own rule of motion.
    spec fn tick_step(before: &Self, after: &Self, world: WorldInfo) -> bool;

    /// Advances the internal state by one logical step. A tick neither
    /// attaches nor removes a component.
    fn tick(&mut self, world: &WorldInfo)
        requires
            old(self).inv(),
        ensures
            final(self).inv(),
            final(self).codec() == old(self).codec(),
            final(self).components().dom() == old(self).components().dom(),
            Self::tick_step(old(self), final(self), *world),
    ;

    /// Script chunks to run once in the scripting environment when the
    /// system is registered.
    fn globals(&self) -> (chunks: Vec<String>)
        requires
            self.inv(),
        ensures
            chunks@.len() == self.hooks().len(),
            forall|i: int| 0 <= i < chunks@.len() ==> (#[trigger] chunks@[i])@ == self.hooks()[i],
    ;

    /// Decodes `object` and attaches the component it describes to `entity`.
    /// Fails, changing nothing, exactly when the literal is not accepted.
    fn spawn(&mut self, entity: usize, object: &Dynamic) -> (r: Result<(), ComponentDecodeError>)
        requires
            old(self).inv(),
        ensures
            final(self).inv(),
            final(self).codec() == old(self).codec(),
            r is Ok <==> (old(self).codec().accepts)(object@),
            r is Ok ==> final(self).components() == old(self).components().insert(
                entity,
                (old(self).codec().normal)(object@),
            ),
            r is Err ==> final(self).components() == old(self).components(),
    ;

    /// The entity's component in exchange form, `Nil` if it has none.
    fn get(&self, entity: usize) -> (value: Dynamic)
        requires
            self.inv(),
        ensures
            value@ == (if self.components().contains_key(entity) {
                self.components()[entity]
            } else {
                DynamicView::Nil
            }),
    ;

    /// Overwrites the entity's component with what `value` describes. Does
    /// nothing if the entity has no component or `value` is not accepted.
    fn set(&mut self, entity: usize, value: &Dynamic)
        requires
            old(self).inv(),
        ensures
            final(self).inv(),
            final(self).codec() == old(self).codec(),
            final(self).components() == (if old(self).components().contains_key(entity) && (old(
                self,
            ).codec().accepts)(value@) {
                old(self).components().insert(entity, (old(self).codec().normal)(value@))
            } else {
                old(self).components()
            }),
    ;

    /// Every entity of the system with its component.
    fn save(&self) -> (snapshot: Vec<(usize, Dynamic)>)
        requires
            self.inv(),
        ensures
            is_snapshot(snapshot@, self.components()),
    ;
}

} // verus!
