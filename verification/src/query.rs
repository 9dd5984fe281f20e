use crate::error::{QueryError, QueryErrorView};
use crate::registry::{text_views, ComponentIdRegistry, ShortName};
use bevy::ecs::component::ComponentId;
use vstd::prelude::*;

verus! {

/// The client-chosen name of a subscription.
pub type QueryId = String;

/// A predicate on the components of an entity, by short name.
#[derive(Debug, Clone, PartialEq, Eq)]
pub enum ShortNameFilter {
    /// The entity has the component.
    With(ShortName),
    /// The entity lacks the component.
    Without(ShortName),
    /// The component changed since the plan last ran.
    Changed(ShortName),
}

/// How a plan reads one component of a matching entity.
#[derive(Debug, Clone, Copy, PartialEq, Eq)]
pub enum FetchKind {
    /// A shared reference to the component.
    Ref(ComponentId),
}

/// A predicate on the components of an entity, by component id.
#[derive(Debug, Clone, Copy, PartialEq, Eq)]
pub enum FilterKind {
    /// The entity has the component.
    With(ComponentId),
    /// The entity lacks the component.
    Without(ComponentId),
    /// The component changed since the plan last ran.
    Changed(ComponentId),
}

/// A request to keep a query alive under `id`: the components to read, in the
/// order in which each row lists them, and the filters an entity has to pass.
#[derive(Debug, Clone, PartialEq, Eq)]
pub struct QuerySubReq {
    pub id: QueryId,
    pub fetch: Vec<ShortName>,
    pub filter: Vec<ShortNameFilter>,
}

/// A request compiled against a registry: what the store is asked to fetch
/// and to filter by, position by position as in the request.
#[derive(Debug, Clone, PartialEq, Eq)]
pub struct QueryPlan {
    pub fetches: Vec<FetchKind>,
    pub filters: Vec<FilterKind>,
}

/// A [`ShortNameFilter`] with its name as characters.
pub enum FilterView {
    With(Seq<char>),
    Without(Seq<char>),
    Changed(Seq<char>),
}

/// A [`QuerySubReq`] with each name as characters.
pub struct QueryView {
    pub id: Seq<char>,
    pub fetch: Seq<Seq<char>>,
    pub filter: Seq<FilterView>,
}

/// A [`QueryPlan`] as two sequences.
pub struct PlanView {
    pub fetches: Seq<FetchKind>,
    pub filters: Seq<FilterKind>,
}

/// The first of `names` that `registry` has no entry for.
pub open spec fn first_unknown(
    names: Seq<Seq<char>>,
    registry: Map<Seq<char>, ComponentId>,
) -> Option<Seq<char>>
    decreases names.len(),
{
    if names.len() == 0 {
        None
    } else if !registry.contains_key(names[0]) {
        Some(names[0])
    } else {
        first_unknown(names.drop_first(), registry)
    }
}

/// While the first `known` names resolve, the first unknown name is the first
/// unknown one among the rest.
proof fn lemma_first_unknown_skips(
    names: Seq<Seq<char>>,
    registry: Map<Seq<char>, ComponentId>,
    known: int,
)
    requires
        0 <= known <= names.len(),
        forall|i: int| 0 <= i < known ==> registry.contains_key(#[trigger] names[i]),
    ensures
        first_unknown(names, registry) == first_unknown(names.skip(known), registry),
    decreases known,
{
    if known == 0 {
        assert(names.skip(0) =~= names);
    } else {
        assert(registry.contains_key(names[0]));
        let rest = names.drop_first();
        assert forall|i: int| 0 <= i < known - 1 implies registry.contains_key(
            #[trigger] rest[i],
        ) by {
            assert(rest[i] == names[i + 1]);
        }
        lemma_first_unknown_skips(rest, registry, known - 1);
        assert(rest.skip(known - 1) =~= names.skip(known));
    }
}

impl FilterView {
    /// The short name that the filter speaks of.
    pub open spec fn name(self) -> Seq<char> {
        match self {
            FilterView::With(name) => name,
            FilterView::Without(name) => name,
            FilterView::Changed(name) => name,
        }
    }

    /// The same filter on the component id that `registry` holds for its name.
    pub open spec fn resolved(self, registry: Map<Seq<char>, ComponentId>) -> FilterKind {
        match self {
            FilterView::With(name) => FilterKind::With(registry[name]),
            FilterView::Without(name) => FilterKind::Without(registry[name]),
            FilterView::Changed(name) => FilterKind::Changed(registry[name]),
        }
    }
}

impl QueryView {
    /// The short names of the request in the order in which they are
    /// resolved: those to fetch, then those of the filters.
    pub open spec fn names(self) -> Seq<Seq<char>> {
        self.fetch + self.filter.map_values(|f: FilterView| f.name())
    }

    /// The plan of the request, once every name is resolved by `registry`.
    pub open spec fn compiled(self, registry: Map<Seq<char>, ComponentId>) -> PlanView {
        PlanView {
            fetches: self.fetch.map_values(|name: Seq<char>| FetchKind::Ref(registry[name])),
            filters: self.filter.map_values(|f: FilterView| f.resolved(registry)),
        }
    }
}

impl View for ShortNameFilter {
    type V = FilterView;

    open spec fn view(&self) -> FilterView {
        match *self {
            ShortNameFilter::With(name) => FilterView::With(name@),
            ShortNameFilter::Without(name) => FilterView::Without(name@),
            ShortNameFilter::Changed(name) => FilterView::Changed(name@),
        }
    }
}

impl View for QuerySubReq {
    type V = QueryView;

    open spec fn view(&self) -> QueryView {
        QueryView {
            id: self.id@,
            fetch: text_views(self.fetch@),
            filter: self.filter@.map_values(|f: ShortNameFilter| f@),
        }
    }
}

impl View for QueryPlan {
    type V = PlanView;

    open spec fn view(&self) -> PlanView {
        PlanView { fetches: self.fetches@, filters: self.filters@ }
    }
}

impl ShortNameFilter {
    /// Resolves the filter's short name through `registry`.
    pub fn resolve_components(&self, registry: &ComponentIdRegistry) -> (resolved: Result<
        FilterKind,
        QueryError,
    >)
        ensures
            match resolved {
                Ok(kind) => registry@.contains_key(self@.name()) && kind == self@.resolved(
                    registry@,
                ),
                Err(e) => !registry@.contains_key(self@.name()) && e@
                    == QueryErrorView::UnknownType(self@.name()),
            },
    {
        match self {
            ShortNameFilter::With(name) => match registry.short_name(name.as_str()) {
                Ok(id) => Ok(FilterKind::With(id)),
                Err(e) => Err(e),
            },
            ShortNameFilter::Without(name) => match registry.short_name(name.as_str()) {
                Ok(id) => Ok(FilterKind::Without(id)),
                Err(e) => Err(e),
            },
            ShortNameFilter::Changed(name) => match registry.short_name(name.as_str()) {
                Ok(id) => Ok(FilterKind::Changed(id)),
                Err(e) => Err(e),
            },
        }
    }
}

impl QueryPlan {
    /// Compiles `query` against `registry`. Every short name is resolved, those
    /// to fetch first; the first one without an entry fails the whole request.
    pub fn compile(query: &QuerySubReq, registry: &ComponentIdRegistry) -> (compiled: Result<
        QueryPlan,
        QueryError,
    >)
        ensures
            match compiled {
                Ok(plan) => first_unknown(query@.names(), registry@).is_none() && plan@
                    == query@.compiled(registry@),
                Err(e) => first_unknown(query@.names(), registry@).is_some() && e@
                    == QueryErrorView::UnknownType(
                    first_unknown(query@.names(), registry@).unwrap(),
                ),
            },
    {
        let ghost names = query@.names();
        let ghost plan = query@.compiled(registry@);
        let mut fetches: Vec<FetchKind> = Vec::new();
        let mut i: usize = 0;
        while i < query.fetch.len()
            invariant
                0 <= i <= query.fetch.len(),
                names == query@.names(),
                plan == query@.compiled(registry@),
                forall|k: int| 0 <= k < i ==> registry@.contains_key(#[trigger] names[k]),
                fetches@ == plan.fetches.take(i as int),
            decreases query.fetch.len() - i,
        {
            assert(names[i as int] == query.fetch@[i as int]@);
            match registry.short_name(query.fetch[i].as_str()) {
                Ok(id) => {
                    fetches.push(FetchKind::Ref(id));
                    assert(fetches@ =~= plan.fetches.take(i + 1));
                },
                Err(e) => {
                    proof {
                        lemma_first_unknown_skips(names, registry@, i as int);
                    }
                    return Err(e);
                },
            }
            i += 1;
        }
        assert(fetches@ =~= plan.fetches);
        let fetched = i;
        let mut filters: Vec<FilterKind> = Vec::new();
        let mut j: usize = 0;
        while j < query.filter.len()
            invariant
                0 <= j <= query.filter.len(),
                fetched == query.fetch.len(),
                names == query@.names(),
                plan == query@.compiled(registry@),
                forall|k: int| 0 <= k < fetched + j ==> registry@.contains_key(#[trigger] names[k]),
                filters@ == plan.filters.take(j as int),
            decreases query.filter.len() - j,
        {
            assert(names[fetched + j] == query.filter@[j as int]@.name());
            match query.filter[j].resolve_components(registry) {
                Ok(kind) => {
                    filters.push(kind);
                    assert(filters@ =~= plan.filters.take(j + 1));
                },
                Err(e) => {
                    proof {
                        lemma_first_unknown_skips(names, registry@, fetched + j);
                    }
                    return Err(e);
                },
            }
            j += 1;
        }
        assert(filters@ =~= plan.filters);
        proof {
            lemma_first_unknown_skips(names, registry@, names.len() as int);
        }
        Ok(QueryPlan { fetches, filters })
    }
}

} // verus!
