use vstd::prelude::*;

use crate::component::{EntityRow, Position};

verus! {

/// `hecs::World`, opaque to the proofs: what it holds is `world_rows`.
#[verifier::external_type_specification]
#[verifier::external_body]
pub struct ExWorld(hecs::World);

/// What a `hecs::World` of this library holds: each live entity, keyed by
/// `Entity::to_bits`, with its position, image and tags.
pub uninterp spec fn world_rows(w: hecs::World) -> Map<u64, EntityRow>;

/// Most entities a world may hold here, well below the `u32` ids of `hecs`.
pub const MAX_ENTITIES: usize = 1048576;

/// Relies on `hecs::World::new`: a new world holds no entity.
#[verifier::external_body]
pub(crate) fn world_new() -> (r: hecs::World)
    ensures
        no_rows(world_rows(r)),
{
    hecs::World::new()
}

/// Relies on `hecs::World::spawn`: a fresh entity is allocated and given the
/// three components; its bits differ from those of every live entity.
#[verifier::external_body]
pub(crate) fn world_spawn(w: &mut hecs::World, row: EntityRow) -> (r: u64)
    requires
        world_rows(*old(w)).len() < MAX_ENTITIES,
    ensures
        !world_rows(*old(w)).contains_key(r),
        world_rows(*final(w)) == world_rows(*old(w)).insert(r, row),
{
    w.spawn((row.position, row.renderable, row.tags)).to_bits().get()
}

/// Relies on `hecs::World::query`: each entity that has all three components
/// (here: every entity) is yielded once, in no particular order.
#[verifier::external_body]
pub(crate) fn world_rows_of(w: &hecs::World) -> (r: Vec<(u64, EntityRow)>)
    ensures
        lists_rows(r@, world_rows(*w)),
{
    w.query::<(&Position, &crate::component::Renderable, &crate::component::Tags)>()
        .iter()
        .map(|(e, (p, img, t))| (e.to_bits().get(), EntityRow { position: *p, renderable: img.clone(), tags: *t }))
        .collect()
}

/// Relies on `hecs::World::get` of `&mut Position`: the position of a live
/// entity is replaced; an id of no live entity is an error. Ids are
/// `Entity::to_bits`, turned back by `Entity::from_bits`.
#[verifier::external_body]
pub(crate) fn world_set_position(w: &mut hecs::World, id: u64, p: Position) -> (r: bool)
    ensures
        r == world_rows(*old(w)).contains_key(id),
        world_rows(*final(w)) == (if r {
            world_rows(*old(w)).insert(id, EntityRow { position: p, ..world_rows(*old(w))[id] })
        } else {
            world_rows(*old(w))
        }),
{
    let found = match hecs::Entity::from_bits(id) {
        Some(e) => w.get::<&mut Position>(e).ok(),
        None => None,
    };
    match found {
        Some(mut q) => {
            *q = p;
            true
        },
        None => false,
    }
}

/// The store holds no entity.
pub open spec fn no_rows(m: Map<u64, EntityRow>) -> bool {
    m == Map::<u64, EntityRow>::empty()
}

/// `s` lists the entities of `m`, each once.
pub open spec fn lists_rows(s: Seq<(u64, EntityRow)>, m: Map<u64, EntityRow>) -> bool {
    &&& forall|i: int| 0 <= i < s.len() ==> #[trigger] m.contains_key(s[i].0) && m[s[i].0] == s[i].1
    &&& forall|k: u64| #[trigger] m.contains_key(k) ==> exists|i: int| 0 <= i < s.len() && s[i].0 == k
    &&& forall|i: int, j: int| 0 <= i < j < s.len() ==> s[i].0 != s[j].0
}

/// The entity store of a level: a `hecs` world that holds, for each entity,
/// its position, image and tags.
pub struct Store {
    world: hecs::World,
}

impl Store {
    /// The entities, keyed by id.
    pub closed spec fn rows(&self) -> Map<u64, EntityRow> {
        world_rows(self.world)
    }

    /// An empty store.
    pub fn new() -> (r: Store)
        ensures
            r.rows() == Map::<u64, EntityRow>::empty(),
    {
        Store { world: world_new() }
    }

    /// Adds an entity and returns its id, which no live entity had.
    pub fn spawn(&mut self, row: EntityRow) -> (r: u64)
        requires
            old(self).rows().len() < MAX_ENTITIES,
        ensures
            !old(self).rows().contains_key(r),
            final(self).rows() == old(self).rows().insert(r, row),
    {
        world_spawn(&mut self.world, row)
    }

    /// Every entity with its id, each once, in no particular order.
    pub fn entities(&self) -> (r: Vec<(u64, EntityRow)>)
        ensures
            lists_rows(r@, self.rows()),
    {
        world_rows_of(&self.world)
    }

    /// Moves entity `id` to `p`; `false` when there is no such entity.
    pub fn set_position(&mut self, id: u64, p: Position) -> (r: bool)
        ensures
            r == old(self).rows().contains_key(id),
            final(self).rows() == (if r {
                old(self).rows().insert(id, EntityRow { position: p, ..old(self).rows()[id] })
            } else {
                old(self).rows()
            }),
    {
        world_set_position(&mut self.world, id, p)
    }
}

} // verus!
