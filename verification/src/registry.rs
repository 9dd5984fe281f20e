use crate::error::{QueryError, QueryErrorView};
use bevy::ecs::component::ComponentId;
use vstd::prelude::*;

verus! {

/// The client-facing alias of a component type.
pub type ShortName = String;

/// The characters of each string of `strings`.
pub open spec fn text_views(strings: Seq<String>) -> Seq<Seq<char>> {
    strings.map_values(|text: String| text@)
}

/// `bevy::ecs::component::ComponentId`, the store's handle for a component
/// type. Nothing is claimed of its contents.
#[verifier::external_type_specification]
#[verifier::external_body]
pub struct ExComponentId(ComponentId);

/// A `bevy::utils::HashMap` from short names to component ids.
#[verifier::external_body]
pub struct ShortNames {
    map: bevy::utils::HashMap<ShortName, ComponentId>,
}

/// The entries of a [`ShortNames`] map, keyed by the characters of each name.
pub uninterp spec fn short_name_ids(names: ShortNames) -> Map<Seq<char>, ComponentId>;

impl ShortNames {
    /// `HashMap::default`: a map without entries.
    #[verifier::external_body]
    fn new() -> (made: Self)
        ensures
            short_name_ids(made) =~= Map::empty(),
    {
        ShortNames { map: bevy::utils::HashMap::default() }
    }

    /// `HashMap::insert`, its result dropped: the entry for `name` becomes
    /// `id` and all other entries stay.
    #[verifier::external_body]
    fn insert(&mut self, name: ShortName, id: ComponentId)
        ensures
            short_name_ids(*final(self)) == short_name_ids(*old(self)).insert(name@, id),
    {
        let _ = self.map.insert(name, id);
    }

    /// `HashMap::get`: the value stored for `name`, or `None` where the map
    /// has no such key.
    #[verifier::external_body]
    fn get(&self, name: &str) -> (id: Option<&ComponentId>)
        ensures
            id == if short_name_ids(*self).contains_key(name@) {
                Some(&short_name_ids(*self)[name@])
            } else {
                None
            },
    {
        self.map.get(name)
    }
}

/// The short names under which component types were registered, each with the
/// id that the store gave its type.
pub struct ComponentIdRegistry {
    short_names: ShortNames,
}

impl View for ComponentIdRegistry {
    type V = Map<Seq<char>, ComponentId>;

    closed spec fn view(&self) -> Self::V {
        short_name_ids(self.short_names)
    }
}

impl ComponentIdRegistry {
    /// A registry without entries.
    pub fn new() -> (registry: Self)
        ensures
            registry@ =~= Map::empty(),
    {
        ComponentIdRegistry { short_names: ShortNames::new() }
    }

    /// Registers `component_id` under `short_name`. An earlier entry for the
    /// same name is replaced.
    pub fn register(&mut self, component_id: ComponentId, short_name: ShortName)
        ensures
            final(self)@ == old(self)@.insert(short_name@, component_id),
    {
        self.short_names.insert(short_name, component_id);
    }

    /// Resolves a short name to the id registered under it.
    pub fn short_name(&self, short_name: &str) -> (resolved: Result<ComponentId, QueryError>)
        ensures
            match resolved {
                Ok(id) => self@.contains_key(short_name@) && id == self@[short_name@],
                Err(e) => !self@.contains_key(short_name@) && e@ == QueryErrorView::UnknownType(
                    short_name@,
                ),
            },
    {
        match self.short_names.get(short_name) {
            Some(id) => Ok(*id),
            None => Err(QueryError::UnknownType(short_name.to_owned())),
        }
    }
}

/// The registry after the registrations `entries`, made in order on an empty
/// registry.
pub open spec fn registered(entries: Seq<(Seq<char>, ComponentId)>) -> Map<Seq<char>, ComponentId>
    decreases entries.len(),
{
    if entries.len() == 0 {
        Map::empty()
    } else {
        registered(entries.drop_last()).insert(entries.last().0, entries.last().1)
    }
}

/// No name is registered twice.
pub open spec fn names_distinct(entries: Seq<(Seq<char>, ComponentId)>) -> bool {
    forall|i: int, j: int| 0 <= i < j < entries.len() ==> entries[i].0 != entries[j].0
}

/// No id is registered twice.
pub open spec fn ids_distinct(entries: Seq<(Seq<char>, ComponentId)>) -> bool {
    forall|i: int, j: int| 0 <= i < j < entries.len() ==> entries[i].1 != entries[j].1
}

/// Where every name is registered once, a name resolves to an id if and only
/// if that id was registered under it, and a name that was never registered
/// does not resolve.
pub proof fn lemma_resolves_what_was_registered(
    entries: Seq<(Seq<char>, ComponentId)>,
    name: Seq<char>,
    id: ComponentId,
)
    requires
        names_distinct(entries),
    ensures
        registered(entries).contains_key(name) && registered(entries)[name] == id
            <==> entries.contains((name, id)),
        registered(entries).contains_key(name) <==> exists|i: int|
            0 <= i < entries.len() && (#[trigger] entries[i]).0 == name,
    decreases entries.len(),
{
    if entries.len() > 0 {
        let earlier = entries.drop_last();
        let last = entries.last();
        lemma_resolves_what_was_registered(earlier, name, id);
        assert forall|i: int| 0 <= i < earlier.len() implies (#[trigger] earlier[i]).0
            != last.0 by {
            assert(earlier[i] == entries[i]);
        }
        if earlier.contains((name, id)) {
            let i = choose|i: int| 0 <= i < earlier.len() && earlier[i] == (name, id);
            assert(entries[i] == (name, id));
        }
        if entries.contains((name, id)) {
            let i = choose|i: int| 0 <= i < entries.len() && entries[i] == (name, id);
            if i < earlier.len() {
                assert(earlier[i] == (name, id));
            }
        }
        if exists|i: int| 0 <= i < earlier.len() && (#[trigger] earlier[i]).0 == name {
            let i = choose|i: int| 0 <= i < earlier.len() && (#[trigger] earlier[i]).0 == name;
            assert(entries[i].0 == name);
        }
        if exists|i: int| 0 <= i < entries.len() && (#[trigger] entries[i]).0 == name {
            let i = choose|i: int| 0 <= i < entries.len() && (#[trigger] entries[i]).0 == name;
            if i < earlier.len() {
                assert(earlier[i].0 == name);
            }
        }
        assert(entries[entries.len() - 1] == last);
    }
}

/// Where every name and every id is registered once, no two names resolve
/// to the same id: names and ids correspond one to one.
pub proof fn lemma_registry_is_one_to_one(entries: Seq<(Seq<char>, ComponentId)>)
    requires
        names_distinct(entries),
        ids_distinct(entries),
    ensures
        registered(entries).is_injective(),
{
    let registry = registered(entries);
    assert forall|a: Seq<char>, b: Seq<char>|
        a != b && registry.contains_key(a) && registry.contains_key(b) implies
        #[trigger] registry[a] != #[trigger] registry[b] by {
        lemma_resolves_what_was_registered(entries, a, registry[a]);
        lemma_resolves_what_was_registered(entries, b, registry[b]);
        let i = choose|i: int| 0 <= i < entries.len() && entries[i] == (a, registry[a]);
        let j = choose|j: int| 0 <= j < entries.len() && entries[j] == (b, registry[b]);
        assert(i != j);
    }
}

impl Default for ComponentIdRegistry {
    fn default() -> (registry: Self)
        ensures
            registry@ =~= Map::empty(),
    {
        ComponentIdRegistry::new()
    }
}

} // verus!
