use crate::error::{QueryError, QueryErrorView};
use crate::registry::{text_views, ShortName};
use serde_json::value::RawValue;
use vstd::prelude::*;

verus! {

/// JSON text.
pub type JsonString = String;

/// One entity that the store matched, with the text serialized for each
/// component that the plan fetches, position by position.
#[derive(Debug, Clone, PartialEq, Eq)]
pub struct RawRow {
    pub entity: u64,
    pub items: Vec<JsonString>,
}

/// The matches of one subscription at one tick, in the order in which the
/// store yielded them: each entity with the raw JSON value of every fetched
/// component, by short name.
#[derive(Debug, Clone, PartialEq, Eq)]
pub struct QuerySubResp {
    pub matches: Vec<(u64, Vec<(ShortName, JsonString)>)>,
}

/// A [`RawRow`] with each text as characters.
pub struct RowView {
    pub entity: u64,
    pub items: Seq<Seq<char>>,
}

/// One match: the entity and the raw JSON value of each component by name.
pub struct MatchView {
    pub entity: u64,
    pub components: Map<Seq<char>, Seq<char>>,
}

impl View for RawRow {
    type V = RowView;

    open spec fn view(&self) -> RowView {
        RowView { entity: self.entity, items: text_views(self.items@) }
    }
}

/// `serde_json::Error`, what `serde_json` reports of text that it does not
/// accept. Nothing is claimed of its contents.
#[verifier::external_type_specification]
#[verifier::external_body]
pub struct ExJsonError(serde_json::Error);

/// What `serde_json::value::RawValue::from_string` makes of `text`: the text
/// of the raw value, or `None` where it reports an error.
pub uninterp spec fn raw_value_text(text: Seq<char>) -> Option<Seq<char>>;

/// `RawValue::from_string`, the raw value handed back as the text that its
/// `get` returns. The outcome is a function of the characters of `text`.
#[verifier::external_body]
fn raw_value(text: JsonString) -> (raw: Result<JsonString, serde_json::Error>)
    ensures
        match raw {
            Ok(value) => raw_value_text(text@) == Some(value@),
            Err(_) => raw_value_text(text@).is_none(),
        },
{
    match RawValue::from_string(text) {
        Ok(value) => Ok(value.get().to_owned()),
        Err(e) => Err(e),
    }
}

/// A `bevy::utils::HashMap` from short names to JSON text.
#[verifier::external_body]
pub struct ValueMap {
    map: bevy::utils::HashMap<ShortName, JsonString>,
}

/// The entries of a [`ValueMap`], names and texts as characters.
pub uninterp spec fn value_entries(values: ValueMap) -> Map<Seq<char>, Seq<char>>;

impl ValueMap {
    /// `HashMap::default`: a map without entries.
    #[verifier::external_body]
    fn new() -> (made: Self)
        ensures
            value_entries(made) =~= Map::empty(),
    {
        ValueMap { map: bevy::utils::HashMap::default() }
    }

    /// `HashMap::insert`, its result dropped: the entry for `name` becomes
    /// `value` and all other entries stay.
    #[verifier::external_body]
    fn insert(&mut self, name: ShortName, value: JsonString)
        ensures
            value_entries(*final(self)) == value_entries(*old(self)).insert(name@, value@),
    {
        let _ = self.map.insert(name, value);
    }

    /// `HashMap::into_iter`, collected: every entry of the map once, in the
    /// order in which the map is walked, of which nothing is claimed.
    #[verifier::external_body]
    fn into_entries(self) -> (entries: Vec<(ShortName, JsonString)>)
        ensures
            lists_entries(entries@, value_entries(self)),
    {
        self.map.into_iter().collect()
    }
}

/// `entries` holds each entry of `values` once and nothing else.
pub open spec fn lists_entries(
    entries: Seq<(ShortName, JsonString)>,
    values: Map<Seq<char>, Seq<char>>,
) -> bool {
    &&& forall|i: int, j: int| 0 <= i < j < entries.len() ==> entries[i].0@ != entries[j].0@
    &&& forall|i: int|
        0 <= i < entries.len() ==> values.contains_key(#[trigger] entries[i].0@)
            && values[entries[i].0@] == entries[i].1@
    &&& forall|name: Seq<char>|
        values.contains_key(name) ==> exists|i: int|
            0 <= i < entries.len() && #[trigger] entries[i].0@ == name
}

/// How far two sequences can be paired position by position.
pub open spec fn paired_len(names: Seq<Seq<char>>, values: Seq<Seq<char>>) -> int {
    if names.len() < values.len() {
        names.len() as int
    } else {
        values.len() as int
    }
}

/// The map that pairs `names` with `values` position by position, as far as
/// both reach. Where a name occurs twice, its last value stays.
pub open spec fn zip_components(names: Seq<Seq<char>>, values: Seq<Seq<char>>) -> Map<
    Seq<char>,
    Seq<char>,
>
    decreases names.len(),
{
    let n = paired_len(names, values);
    if n <= 0 {
        Map::empty()
    } else {
        zip_components(names.take(n - 1), values.take(n - 1)).insert(names[n - 1], values[n - 1])
    }
}

/// Pairs each of `names` with the value at its position, as far as both
/// reach, and hands the pairs back with each name once: where a name occurs
/// twice, its last value stays. The order of the pairs is not fixed.
pub fn component_values(names: &Vec<ShortName>, values: &Vec<JsonString>) -> (entries: Vec<
    (ShortName, JsonString),
>)
    ensures
        lists_entries(entries@, zip_components(text_views(names@), text_views(values@))),
{
    let n = if names.len() < values.len() {
        names.len()
    } else {
        values.len()
    };
    let mut map = ValueMap::new();
    let mut k: usize = 0;
    while k < n
        invariant
            0 <= k <= n,
            n <= names.len(),
            n <= values.len(),
            value_entries(map) == zip_components(
                text_views(names@).take(k as int),
                text_views(values@).take(k as int),
            ),
        decreases n - k,
    {
        proof {
            let ns = text_views(names@).take(k + 1);
            let vs = text_views(values@).take(k + 1);
            assert(ns.take(k as int) =~= text_views(names@).take(k as int));
            assert(vs.take(k as int) =~= text_views(values@).take(k as int));
        }
        map.insert(names[k].clone(), values[k].clone());
        k += 1;
    }
    proof {
        lemma_zip_components_prefix(text_views(names@), text_views(values@));
    }
    map.into_entries()
}

/// Only the positions that both sequences have count.
proof fn lemma_zip_components_prefix(names: Seq<Seq<char>>, values: Seq<Seq<char>>)
    ensures
        zip_components(names, values) == zip_components(
            names.take(paired_len(names, values)),
            values.take(paired_len(names, values)),
        ),
{
    let n = paired_len(names, values);
    if n > 0 {
        assert(names.take(n).take(n - 1) =~= names.take(n - 1));
        assert(values.take(n).take(n - 1) =~= values.take(n - 1));
    }
}

/// The position of the first of `items` that `serde_json` does not accept
/// as a raw value.
pub open spec fn first_invalid(items: Seq<Seq<char>>) -> Option<int>
    decreases items.len(),
{
    if items.len() == 0 {
        None
    } else if first_invalid(items.drop_last()).is_some() {
        first_invalid(items.drop_last())
    } else if raw_value_text(items.last()).is_none() {
        Some(items.len() - 1)
    } else {
        None
    }
}

/// The raw value of each of `items`.
pub open spec fn raw_values(items: Seq<Seq<char>>) -> Seq<Seq<char>> {
    items.map_values(|text: Seq<char>| raw_value_text(text).unwrap())
}

/// What one row of the store becomes for a subscription that fetches
/// `fetch`: the items are paired with the names as far as both reach; the
/// first paired item that is not JSON fails the row under the name at its
/// position; else each name gets the raw value of its item.
pub open spec fn row_match(fetch: Seq<Seq<char>>, row: RowView) -> Result<
    MatchView,
    QueryErrorView,
> {
    let items = row.items.take(paired_len(fetch, row.items));
    match first_invalid(items) {
        Some(k) => Err(QueryErrorView::TypeMismatch { entity: row.entity, short_name: fetch[k] }),
        None => Ok(
            MatchView { entity: row.entity, components: zip_components(fetch, raw_values(items)) },
        ),
    }
}

/// What the rows of the store become for a subscription that fetches
/// `fetch`: one match for each row, in order, or the failure of the first
/// row that fails.
pub open spec fn answer(fetch: Seq<Seq<char>>, rows: Seq<RowView>) -> Result<
    Seq<MatchView>,
    QueryErrorView,
>
    decreases rows.len(),
{
    if rows.len() == 0 {
        Ok(Seq::empty())
    } else {
        match answer(fetch, rows.drop_last()) {
            Err(e) => Err(e),
            Ok(matches) => match row_match(fetch, rows.last()) {
                Err(e) => Err(e),
                Ok(found) => Ok(matches.push(found)),
            },
        }
    }
}

/// Each row as its view.
pub open spec fn row_views(rows: Seq<RawRow>) -> Seq<RowView> {
    rows.map_values(|row: RawRow| row@)
}

/// `found` is `expected` with the components as pairs, each name once.
pub open spec fn shows_match(
    found: (u64, Vec<(ShortName, JsonString)>),
    expected: MatchView,
) -> bool {
    found.0 == expected.entity && lists_entries(found.1@, expected.components)
}

impl QuerySubResp {
    /// The response holds `matches`, one for one and in order.
    pub open spec fn shows(self, matches: Seq<MatchView>) -> bool {
        &&& self.matches.len() == matches.len()
        &&& forall|i: int|
            0 <= i < matches.len() ==> shows_match(#[trigger] self.matches[i], matches[i])
    }
}

/// `result` is `expected`, its matches with their components as pairs and
/// its error with its strings as characters.
pub open spec fn shows_answer(
    result: Result<QuerySubResp, QueryError>,
    expected: Result<Seq<MatchView>, QueryErrorView>,
) -> bool {
    match result {
        Ok(response) => match expected {
            Ok(matches) => response.shows(matches),
            Err(_) => false,
        },
        Err(e) => expected == Err::<Seq<MatchView>, QueryErrorView>(e@),
    }
}

/// Turns one row of the store into a match for a subscription that fetches
/// `fetch`.
pub fn match_row(fetch: &Vec<ShortName>, row: &RawRow) -> (found: Result<
    (u64, Vec<(ShortName, JsonString)>),
    QueryError,
>)
    ensures
        match found {
            Ok(found) => match row_match(text_views(fetch@), row@) {
                Ok(expected) => shows_match(found, expected),
                Err(_) => false,
            },
            Err(e) => row_match(text_views(fetch@), row@) == Err::<MatchView, QueryErrorView>(e@),
        },
{
    let n = if fetch.len() < row.items.len() {
        fetch.len()
    } else {
        row.items.len()
    };
    let ghost items = row@.items.take(n as int);
    let mut values: Vec<JsonString> = Vec::new();
    let mut k: usize = 0;
    while k < n
        invariant
            0 <= k <= n,
            n == paired_len(text_views(fetch@), row@.items),
            items == row@.items.take(n as int),
            first_invalid(items.take(k as int)).is_none(),
            text_views(values@) == raw_values(items.take(k as int)),
        decreases n - k,
    {
        assert(items.take(k + 1).drop_last() =~= items.take(k as int));
        assert(items.take(k + 1).last() == row.items@[k as int]@);
        match raw_value(row.items[k].clone()) {
            Ok(value) => {
                let ghost before = text_views(values@);
                values.push(value);
                assert(text_views(values@) =~= before.push(value@));
                assert(raw_values(items.take(k + 1)) =~= raw_values(items.take(k as int)).push(
                    raw_value_text(items[k as int]).unwrap(),
                ));
            },
            Err(_) => {
                proof {
                    lemma_first_invalid_extends(items, k + 1);
                }
                return Err(
                    QueryError::TypeMismatch { entity: row.entity, short_name: fetch[k].clone() },
                );
            },
        }
        k += 1;
    }
    assert(items.take(n as int) =~= items);
    proof {
        lemma_zip_components_prefix(text_views(fetch@), text_views(values@));
        lemma_zip_components_prefix(text_views(fetch@), raw_values(items));
    }
    Ok((row.entity, component_values(fetch, &values)))
}

/// The first invalid item of a prefix is the first invalid item of the whole.
proof fn lemma_first_invalid_extends(items: Seq<Seq<char>>, upto: int)
    requires
        0 <= upto <= items.len(),
        first_invalid(items.take(upto)).is_some(),
    ensures
        first_invalid(items) == first_invalid(items.take(upto)),
    decreases items.len() - upto,
{
    if upto == items.len() {
        assert(items.take(upto) =~= items);
    } else {
        assert(items.take(upto + 1).drop_last() =~= items.take(upto));
        lemma_first_invalid_extends(items, upto + 1);
    }
}

/// An answer goes row by row: it holds one match for each row, in the order
/// of the rows and under the row's entity, so no entity is added, dropped or
/// moved; and it fails only where a row fails, with the failure of the first
/// such row.
pub proof fn lemma_answer_is_row_by_row(fetch: Seq<Seq<char>>, rows: Seq<RowView>)
    ensures
        match answer(fetch, rows) {
            Ok(matches) => matches.len() == rows.len() && forall|i: int|
                0 <= i < rows.len() ==> row_match(fetch, #[trigger] rows[i]) == Ok::<
                    MatchView,
                    QueryErrorView,
                >(matches[i]) && matches[i].entity == rows[i].entity,
            Err(e) => exists|i: int|
                0 <= i < rows.len() && row_match(fetch, #[trigger] rows[i]) == Err::<
                    MatchView,
                    QueryErrorView,
                >(e) && forall|j: int| 0 <= j < i ==> row_match(fetch, #[trigger] rows[j]).is_ok(),
        },
    decreases rows.len(),
{
    if rows.len() > 0 {
        let earlier = rows.drop_last();
        let last = rows.len() - 1;
        lemma_answer_is_row_by_row(fetch, earlier);
        assert forall|i: int| 0 <= i < last implies earlier[i] == rows[i] by {}
        match answer(fetch, earlier) {
            Ok(matches) => {
                match row_match(fetch, rows.last()) {
                    Ok(found) => {
                        let all = matches.push(found);
                        assert forall|i: int| 0 <= i < rows.len() implies row_match(
                            fetch,
                            #[trigger] rows[i],
                        ) == Ok::<MatchView, QueryErrorView>(all[i]) && all[i].entity
                            == rows[i].entity by {
                            if i < last {
                                assert(rows[i] == earlier[i]);
                            }
                        }
                    },
                    Err(e) => {
                        assert forall|j: int| 0 <= j < last implies row_match(
                            fetch,
                            #[trigger] rows[j],
                        ).is_ok() by {
                            assert(rows[j] == earlier[j]);
                        }
                        assert(row_match(fetch, rows[last]) == Err::<MatchView, QueryErrorView>(e));
                    },
                }
            },
            Err(e) => {
                let i = choose|i: int|
                    0 <= i < earlier.len() && row_match(fetch, #[trigger] earlier[i]) == Err::<
                        MatchView,
                        QueryErrorView,
                    >(e) && forall|j: int|
                        0 <= j < i ==> row_match(fetch, #[trigger] earlier[j]).is_ok();
                assert(rows[i] == earlier[i]);
                assert forall|j: int| 0 <= j < i implies row_match(
                    fetch,
                    #[trigger] rows[j],
                ).is_ok() by {
                    assert(rows[j] == earlier[j]);
                }
            },
        }
    }
}

/// A subscription that fetches one component answers a row with that
/// component alone: the raw value of the row's first item, under the name.
pub proof fn lemma_single_fetch_match(name: Seq<char>, row: RowView)
    requires
        row.items.len() >= 1,
        raw_value_text(row.items[0]).is_some(),
    ensures
        row_match(seq![name], row) == Ok::<MatchView, QueryErrorView>(
            MatchView {
                entity: row.entity,
                components: Map::empty().insert(name, raw_value_text(row.items[0]).unwrap()),
            },
        ),
{
    let fetch = seq![name];
    let items = row.items.take(1);
    assert(items.drop_last() =~= Seq::<Seq<char>>::empty());
    assert(items.last() == row.items[0]);
    assert(first_invalid(items.drop_last()).is_none());
    assert(first_invalid(items).is_none());
    let values = raw_values(items);
    assert(fetch.take(0) =~= Seq::<Seq<char>>::empty());
    assert(zip_components(fetch.take(0), values.take(0)) =~= Map::empty());
    assert(zip_components(fetch, values) =~= Map::empty().insert(
        name,
        raw_value_text(row.items[0]).unwrap(),
    ));
}

} // verus!
