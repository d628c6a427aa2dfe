//! Terrain and resources of the static resource field.
use vstd::prelude::*;

verus! {

/// A tradeable resource.
#[derive(Debug, Clone, Copy, Hash, PartialEq, Eq, Structural, PartialOrd, Ord)]
pub enum Resource {
    Food,
    Water,
}

/// What a patch of the grid holds.
#[derive(Clone, Copy, Debug, PartialEq, Eq, Structural)]
pub enum EnvItem {
    Land,
    Bush,
    Resource(Resource),
}

/// One cell of the resource field: its identity and what it holds. Patches
/// are equal when their ids are.
#[derive(Clone, Copy, Debug)]
pub struct Patch {
    pub id: u32,
    pub env_item: EnvItem,
}

impl PartialEq for Patch {
    fn eq(&self, other: &Patch) -> (r: bool) {
        self.id == other.id
    }
}

impl Eq for Patch {}

impl vstd::std_specs::cmp::PartialEqSpecImpl for Patch {
    open spec fn obeys_eq_spec() -> bool {
        true
    }

    open spec fn eq_spec(&self, other: &Patch) -> bool {
        self.id == other.id
    }
}

impl Patch {
    pub fn new(id: u32, env_item: EnvItem) -> (r: Patch)
        ensures
            r.id == id,
            r.env_item == env_item,
    {
        Patch { id, env_item }
    }
}

/// The name of the image that shows a resource.
pub open spec fn texture_name(r: Resource) -> Seq<char> {
    match r {
        Resource::Food => "fruit"@,
        Resource::Water => "water"@,
    }
}

impl Resource {
    pub fn texture(&self) -> (r: String)
        ensures
            r@ == texture_name(*self),
    {
        match self {
            Resource::Food => "fruit".to_owned(),
            Resource::Water => "water".to_owned(),
        }
    }

    /// A patch with the given id that holds this resource.
    pub fn to_patch(self, id: u32) -> (r: Patch)
        ensures
            r.id == id,
            r.env_item == EnvItem::Resource(self),
    {
        Patch { id, env_item: EnvItem::Resource(self) }
    }
}

} // verus!
