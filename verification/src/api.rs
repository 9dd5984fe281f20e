use crate::error::{QueryError, QueryErrorView};
use crate::query::{first_unknown, PlanView, QueryId, QueryPlan, QuerySubReq, QueryView};
use crate::registry::{text_views, ComponentIdRegistry, ShortName};
use crate::response::{
    answer, match_row, row_views, shows_answer, JsonString, MatchView, QuerySubResp, RawRow,
    RowView,
};
use vstd::prelude::*;

verus! {

/// A `bevy::utils::HashMap` from subscription ids to requests with their plans.
#[verifier::external_body]
pub struct Subscriptions {
    map: bevy::utils::HashMap<QueryId, (QuerySubReq, QueryPlan)>,
}

/// The entries of a [`Subscriptions`] map, keyed by the characters of each id.
pub uninterp spec fn subscription_entries(table: Subscriptions) -> Map<
    Seq<char>,
    (QuerySubReq, QueryPlan),
>;

impl Subscriptions {
    /// `HashMap::default`: a map without entries.
    #[verifier::external_body]
    fn new() -> (made: Self)
        ensures
            subscription_entries(made) =~= Map::empty(),
    {
        Subscriptions { map: bevy::utils::HashMap::default() }
    }

    /// `HashMap::insert`, its result dropped: the entry for `id` becomes
    /// `entry` and all other entries stay.
    #[verifier::external_body]
    fn insert(&mut self, id: QueryId, entry: (QuerySubReq, QueryPlan))
        ensures
            subscription_entries(*final(self)) == subscription_entries(*old(self)).insert(
                id@,
                entry,
            ),
    {
        let _ = self.map.insert(id, entry);
    }

    /// `HashMap::get`: the entry stored for `id`, or `None` where the map has
    /// no such key.
    #[verifier::external_body]
    fn get(&self, id: &str) -> (entry: Option<&(QuerySubReq, QueryPlan)>)
        ensures
            entry == if subscription_entries(*self).contains_key(id@) {
                Some(&subscription_entries(*self)[id@])
            } else {
                None
            },
    {
        self.map.get(id)
    }

    /// `HashMap::remove`, its result dropped: the map loses the entry for
    /// `id`, if it had one, and keeps all others.
    #[verifier::external_body]
    fn remove(&mut self, id: &str)
        ensures
            subscription_entries(*final(self)) == subscription_entries(*old(self)).remove(id@),
    {
        let _ = self.map.remove(id);
    }

    /// `HashMap::keys`, each key cloned: every key of the map once, in the
    /// order in which the map is walked, of which nothing is claimed.
    #[verifier::external_body]
    fn keys(&self) -> (ids: Vec<QueryId>)
        ensures
            lists_keys(ids@, subscription_entries(*self).dom()),
    {
        self.map.keys().cloned().collect()
    }
}

/// `ids` holds each member of `keys` once and nothing else.
pub open spec fn lists_keys(ids: Seq<QueryId>, keys: Set<Seq<char>>) -> bool {
    &&& forall|i: int, j: int| 0 <= i < j < ids.len() ==> ids[i]@ != ids[j]@
    &&& forall|i: int| 0 <= i < ids.len() ==> keys.contains(#[trigger] ids[i]@)
    &&& forall|key: Seq<char>| keys.contains(key) ==> exists|i: int|
        0 <= i < ids.len() && #[trigger] ids[i]@ == key
}

/// One live subscription: the request as it came, and its plan.
pub struct SubscriptionView {
    pub query: QueryView,
    pub plan: PlanView,
}

/// The live subscriptions, each under the id of its request. Subscribing
/// under an id that is taken replaces the earlier subscription.
pub struct EcsSubApi {
    queries: Subscriptions,
}

impl View for EcsSubApi {
    type V = Map<Seq<char>, SubscriptionView>;

    closed spec fn view(&self) -> Self::V {
        subscription_entries(self.queries).map_values(
            |entry: (QuerySubReq, QueryPlan)| SubscriptionView { query: entry.0@, plan: entry.1@ },
        )
    }
}

impl EcsSubApi {
    /// A table without subscriptions.
    pub fn new() -> (api: Self)
        ensures
            api@ =~= Map::empty(),
    {
        EcsSubApi { queries: Subscriptions::new() }
    }

    /// Compiles `query` against `registry` and stores it under its id, in
    /// place of what was stored there. A name that does not resolve fails the
    /// request and leaves the table as it was.
    pub fn subscribe_components(
        &mut self,
        query: QuerySubReq,
        registry: &ComponentIdRegistry,
    ) -> (done: Result<(), QueryError>)
        ensures
            match done {
                Ok(()) => first_unknown(query@.names(), registry@).is_none() && final(self)@
                    == old(self)@.insert(
                    query@.id,
                    SubscriptionView { query: query@, plan: query@.compiled(registry@) },
                ),
                Err(e) => first_unknown(query@.names(), registry@).is_some() && e@
                    == QueryErrorView::UnknownType(
                    first_unknown(query@.names(), registry@).unwrap(),
                ) && final(self)@ == old(self)@,
            },
    {
        match QueryPlan::compile(&query, registry) {
            Ok(plan) => {
                let id = query.id.clone();
                self.queries.insert(id, (query, plan));
                assert(final(self)@ =~= old(self)@.insert(
                    query@.id,
                    SubscriptionView { query: query@, plan: query@.compiled(registry@) },
                ));
                Ok(())
            },
            Err(e) => Err(e),
        }
    }
}

/// Each run as its view: the id of a subscription and the rows that the
/// store yielded for its plan.
pub open spec fn executed_views(executed: Seq<(QueryId, Vec<RawRow>)>) -> Seq<
    (Seq<char>, Seq<RowView>),
> {
    executed.map_values(|run: (QueryId, Vec<RawRow>)| (run.0@, row_views(run.1@)))
}

/// What a tick answers: for each of `executed` whose id is live in `table`,
/// in order, the answer of that subscription to its rows. Rows under an id
/// that is not live are passed over.
pub open spec fn answers(
    table: Map<Seq<char>, SubscriptionView>,
    executed: Seq<(Seq<char>, Seq<RowView>)>,
) -> Seq<Result<Seq<MatchView>, QueryErrorView>>
    decreases executed.len(),
{
    if executed.len() == 0 {
        Seq::empty()
    } else {
        let earlier = answers(table, executed.drop_last());
        let run = executed.last();
        if table.contains_key(run.0) {
            earlier.push(answer(table[run.0].query.fetch, run.1))
        } else {
            earlier
        }
    }
}

/// `results` are `expected`, one for one and in order.
pub open spec fn shows_answers(
    results: Seq<Result<QuerySubResp, QueryError>>,
    expected: Seq<Result<Seq<MatchView>, QueryErrorView>>,
) -> bool {
    &&& results.len() == expected.len()
    &&& forall|i: int| 0 <= i < results.len() ==> shows_answer(#[trigger] results[i], expected[i])
}

impl EcsSubApi {
    /// Whether a subscription is live under `id`.
    pub fn contains(&self, id: &str) -> (live: bool)
        ensures
            live == self@.contains_key(id@),
    {
        self.queries.get(id).is_some()
    }

    /// The request that is live under `id`.
    pub fn query(&self, id: &str) -> (found: Option<&QuerySubReq>)
        ensures
            match found {
                Some(query) => self@.contains_key(id@) && query@ == self@[id@].query,
                None => !self@.contains_key(id@),
            },
    {
        match self.queries.get(id) {
            Some(entry) => Some(&entry.0),
            None => None,
        }
    }

    /// The plan of the subscription that is live under `id`.
    pub fn plan(&self, id: &str) -> (found: Option<&QueryPlan>)
        ensures
            match found {
                Some(plan) => self@.contains_key(id@) && plan@ == self@[id@].plan,
                None => !self@.contains_key(id@),
            },
    {
        match self.queries.get(id) {
            Some(entry) => Some(&entry.1),
            None => None,
        }
    }

    /// The ids of the live subscriptions, each once. Their order is that in
    /// which the table is walked, and may differ from call to call.
    pub fn ids(&self) -> (ids: Vec<QueryId>)
        ensures
            lists_keys(ids@, self@.dom()),
    {
        let ids = self.queries.keys();
        assert(self@.dom() =~= subscription_entries(self.queries).dom());
        ids
    }

    /// Ends the subscription that is live under `id`, if there is one.
    pub fn unsubscribe(&mut self, id: &str)
        ensures
            final(self)@ == old(self)@.remove(id@),
    {
        self.queries.remove(id);
        assert(final(self)@ =~= old(self)@.remove(id@));
    }

    /// Answers `query` from the rows that the store yielded for its plan: one
    /// match for each row, in the order of the rows, with the raw JSON value
    /// of each fetched component under its short name. Text that is not JSON
    /// fails the query.
    pub fn run_query_internal(&self, query: &QuerySubReq, rows: &Vec<RawRow>) -> (result: Result<
        QuerySubResp,
        QueryError,
    >)
        ensures
            shows_answer(result, answer(query@.fetch, row_views(rows@))),
    {
        let ghost all = row_views(rows@);
        let ghost fetch = query@.fetch;
        let mut matches: Vec<(u64, Vec<(ShortName, JsonString)>)> = Vec::new();
        let mut r: usize = 0;
        while r < rows.len()
            invariant
                0 <= r <= rows.len(),
                all == row_views(rows@),
                fetch == query@.fetch,
                fetch == text_views(query.fetch@),
                match answer(fetch, all.take(r as int)) {
                    Ok(expected) => (QuerySubResp { matches }).shows(expected),
                    Err(_) => false,
                },
            decreases rows.len() - r,
        {
            assert(all.take(r + 1).drop_last() =~= all.take(r as int));
            assert(all.take(r + 1).last() == rows@[r as int]@);
            match match_row(&query.fetch, &rows[r]) {
                Ok(found) => {
                    matches.push(found);
                },
                Err(e) => {
                    proof {
                        lemma_answer_fails_on(fetch, all, r + 1);
                    }
                    return Err(e);
                },
            }
            r += 1;
        }
        assert(all.take(r as int) =~= all);
        Ok(QuerySubResp { matches })
    }

    /// Answers the subscription that is live under `id` from the rows that
    /// the store yielded for its plan.
    pub fn run_query(&self, id: &str, rows: &Vec<RawRow>) -> (result: Result<
        QuerySubResp,
        QueryError,
    >)
        requires
            self@.contains_key(id@),
        ensures
            shows_answer(result, answer(self@[id@].query.fetch, row_views(rows@))),
    {
        match self.queries.get(id) {
            Some(entry) => self.run_query_internal(&entry.0, rows),
            None => vstd::pervasive::unreached(),
        }
    }

    /// Answers every subscription of one tick. `executed` holds, under the
    /// id of each subscription, the rows that the store yielded for its plan;
    /// the answers come in the same order. A failure ends only the query in
    /// which it occurs.
    pub fn run_all_queries(&self, executed: &Vec<(QueryId, Vec<RawRow>)>) -> (results: Vec<
        Result<QuerySubResp, QueryError>,
    >)
        ensures
            shows_answers(results@, answers(self@, executed_views(executed@))),
    {
        let ghost all = executed_views(executed@);
        let mut results: Vec<Result<QuerySubResp, QueryError>> = Vec::new();
        let mut i: usize = 0;
        while i < executed.len()
            invariant
                0 <= i <= executed.len(),
                all == executed_views(executed@),
                shows_answers(results@, answers(self@, all.take(i as int))),
            decreases executed.len() - i,
        {
            assert(all.take(i + 1).drop_last() =~= all.take(i as int));
            assert(all.take(i + 1).last() == (
                executed@[i as int].0@,
                row_views(executed@[i as int].1@),
            ));
            match self.queries.get(executed[i].0.as_str()) {
                Some(entry) => {
                    let result = self.run_query_internal(&entry.0, &executed[i].1);
                    results.push(result);
                },
                None => {},
            }
            i += 1;
        }
        assert(all.take(i as int) =~= all);
        results
    }
}

/// A failure among the first `upto` rows is the failure of all the rows.
proof fn lemma_answer_fails_on(fetch: Seq<Seq<char>>, rows: Seq<RowView>, upto: int)
    requires
        0 <= upto <= rows.len(),
        answer(fetch, rows.take(upto)).is_err(),
    ensures
        answer(fetch, rows) == answer(fetch, rows.take(upto)),
    decreases rows.len() - upto,
{
    if upto == rows.len() {
        assert(rows.take(upto) =~= rows);
    } else {
        assert(rows.take(upto + 1).drop_last() =~= rows.take(upto));
        lemma_answer_fails_on(fetch, rows, upto + 1);
    }
}

/// `executed` holds rows for each subscription of `table` once and for
/// nothing else: what comes of running every plan that [`EcsSubApi::ids`]
/// lists.
pub open spec fn covers(
    executed: Seq<(Seq<char>, Seq<RowView>)>,
    table: Map<Seq<char>, SubscriptionView>,
) -> bool {
    &&& forall|i: int, j: int| 0 <= i < j < executed.len() ==> executed[i].0 != executed[j].0
    &&& forall|i: int| 0 <= i < executed.len() ==> table.contains_key((#[trigger] executed[i]).0)
    &&& forall|id: Seq<char>|
        table.contains_key(id) ==> exists|i: int|
            0 <= i < executed.len() && (#[trigger] executed[i]).0 == id
}

/// Where every id of `executed` is live, a tick answers position by
/// position: each run by the fetch list of the subscription under its id.
pub proof fn lemma_answers_in_step(
    table: Map<Seq<char>, SubscriptionView>,
    executed: Seq<(Seq<char>, Seq<RowView>)>,
)
    requires
        forall|i: int| 0 <= i < executed.len() ==> table.contains_key((#[trigger] executed[i]).0),
    ensures
        answers(table, executed).len() == executed.len(),
        forall|i: int|
            0 <= i < executed.len() ==> #[trigger] answers(table, executed)[i] == answer(
                table[executed[i].0].query.fetch,
                executed[i].1,
            ),
    decreases executed.len(),
{
    if executed.len() > 0 {
        let earlier = executed.drop_last();
        assert forall|i: int| 0 <= i < earlier.len() implies table.contains_key(
            (#[trigger] earlier[i]).0,
        ) by {
            assert(earlier[i] == executed[i]);
        }
        lemma_answers_in_step(table, earlier);
        assert(table.contains_key(executed[executed.len() - 1].0));
    }
}

/// A tick that runs every live subscription once answers once for each:
/// there are as many answers as subscriptions.
pub proof fn lemma_one_answer_per_subscription(
    table: Map<Seq<char>, SubscriptionView>,
    executed: Seq<(Seq<char>, Seq<RowView>)>,
)
    requires
        covers(executed, table),
    ensures
        table.dom().finite(),
        answers(table, executed).len() == table.dom().len(),
{
    lemma_answers_in_step(table, executed);
    let ids = executed.map_values(|run: (Seq<char>, Seq<RowView>)| run.0);
    assert(ids.no_duplicates());
    ids.unique_seq_to_set();
    assert(ids.to_set() =~= table.dom()) by {
        assert forall|id: Seq<char>| table.contains_key(id) implies ids.to_set().contains(id) by {
            let i = choose|i: int| 0 <= i < executed.len() && (#[trigger] executed[i]).0 == id;
            assert(ids[i] == id);
        }
        assert forall|id: Seq<char>| ids.to_set().contains(id) implies table.contains_key(id) by {
            let i = choose|i: int| 0 <= i < ids.len() && ids[i] == id;
            assert(executed[i].0 == id);
        }
    }
}

/// Subscribing again under an id replaces the subscription and never adds
/// one. After `first` and then `second` were stored under one id, the table
/// is what it would be had only `second` been stored; and a tick that runs
/// every live subscription once answers once under that id, by the fetch
/// list of `second`.
pub proof fn lemma_resubscribe_replaces(
    table: Map<Seq<char>, SubscriptionView>,
    first: SubscriptionView,
    second: SubscriptionView,
    executed: Seq<(Seq<char>, Seq<RowView>)>,
)
    requires
        first.query.id == second.query.id,
        covers(executed, table.insert(first.query.id, first).insert(second.query.id, second)),
    ensures
        table.insert(first.query.id, first).insert(second.query.id, second) == table.insert(
            second.query.id,
            second,
        ),
        answers(table.insert(second.query.id, second), executed).len() == table.insert(
            second.query.id,
            second,
        ).dom().len(),
        exists|i: int|
            0 <= i < executed.len() && (#[trigger] executed[i]).0 == second.query.id && answers(
                table.insert(second.query.id, second),
                executed,
            )[i] == answer(second.query.fetch, executed[i].1),
        forall|i: int, j: int|
            0 <= i < executed.len() && 0 <= j < executed.len() && (#[trigger] executed[i]).0
                == second.query.id && (#[trigger] executed[j]).0 == second.query.id ==> i == j,
{
    let id = second.query.id;
    let once = table.insert(id, second);
    assert(table.insert(id, first).insert(id, second) =~= once);
    lemma_one_answer_per_subscription(once, executed);
    lemma_answers_in_step(once, executed);
    assert(once.contains_key(id));
    let i = choose|i: int| 0 <= i < executed.len() && (#[trigger] executed[i]).0 == id;
    assert(answers(once, executed)[i] == answer(once[executed[i].0].query.fetch, executed[i].1));
}

impl Default for EcsSubApi {
    fn default() -> (api: Self)
        ensures
            api@ =~= Map::empty(),
    {
        EcsSubApi::new()
    }
}

} // verus!
