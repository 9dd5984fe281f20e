use crate::api::{EcsSubApi, SubscriptionView};
use crate::error::{QueryError, QueryErrorView};
use crate::query::{first_unknown, QueryId, QueryView, QuerySubReq, ShortNameFilter};
use crate::registry::{text_views, ComponentIdRegistry, ShortName};
use crate::response::QuerySubResp;
use vstd::prelude::*;
use vstd::std_specs::iter::IteratorSpec;
use vstd::string::StrSliceExecFns;

verus! {

/// What a client sends.
#[derive(Debug, Clone, PartialEq, Eq)]
pub enum ClientMsg {
    /// Keep this query alive under its id.
    Subscribe(QuerySubReq),
    /// End the subscription under this id.
    Unsubscribe(QueryId),
}

/// What the server sends.
#[derive(Debug, Clone, PartialEq, Eq)]
pub enum ServerMsg {
    /// The request was accepted and is now live.
    Ack(QuerySubReq),
    /// The matches of one subscription at one tick.
    QuerySubResp(QuerySubResp),
    /// Free text for the person at the client.
    Text(String),
}

/// `reply` acknowledges the request `query`.
pub open spec fn acknowledges(reply: Option<ServerMsg>, query: QueryView) -> bool {
    match reply {
        Some(ServerMsg::Ack(acked)) => acked@ == query,
        _ => false,
    }
}

/// A copy of a filter.
fn copy_filter(filter: &ShortNameFilter) -> (copy: ShortNameFilter)
    ensures
        copy@ == filter@,
{
    match filter {
        ShortNameFilter::With(name) => ShortNameFilter::With(name.clone()),
        ShortNameFilter::Without(name) => ShortNameFilter::Without(name.clone()),
        ShortNameFilter::Changed(name) => ShortNameFilter::Changed(name.clone()),
    }
}

/// A copy of a request.
fn copy_request(query: &QuerySubReq) -> (copy: QuerySubReq)
    ensures
        copy@ == query@,
{
    let mut fetch: Vec<ShortName> = Vec::new();
    let mut i: usize = 0;
    while i < query.fetch.len()
        invariant
            0 <= i <= query.fetch.len(),
            text_views(fetch@) == text_views(query.fetch@).take(i as int),
        decreases query.fetch.len() - i,
    {
        let ghost before = text_views(fetch@);
        let name = query.fetch[i].clone();
        fetch.push(name);
        assert(text_views(fetch@) =~= before.push(name@));
        assert(text_views(query.fetch@).take(i + 1) =~= before.push(query.fetch@[i as int]@));
        i += 1;
    }
    assert(text_views(fetch@) =~= text_views(query.fetch@));
    let mut filter: Vec<ShortNameFilter> = Vec::new();
    let mut j: usize = 0;
    while j < query.filter.len()
        invariant
            0 <= j <= query.filter.len(),
            filter@.map_values(|f: ShortNameFilter| f@) == query@.filter.take(j as int),
        decreases query.filter.len() - j,
    {
        let ghost before = filter@.map_values(|f: ShortNameFilter| f@);
        let copy = copy_filter(&query.filter[j]);
        filter.push(copy);
        assert(filter@.map_values(|f: ShortNameFilter| f@) =~= before.push(copy@));
        assert(query@.filter.take(j + 1) =~= before.push(query.filter@[j as int]@));
        j += 1;
    }
    assert(filter@.map_values(|f: ShortNameFilter| f@) =~= query@.filter);
    QuerySubReq { id: query.id.clone(), fetch, filter }
}

impl EcsSubApi {
    /// Applies a client's message to the table and says what to reply. A
    /// subscribe request is compiled and stored, and acknowledged with the
    /// request itself; one that does not compile changes nothing. An
    /// unsubscribe request removes what is stored under its id, and has no
    /// reply.
    pub fn apply(&mut self, msg: ClientMsg, registry: &ComponentIdRegistry) -> (done: Result<
        Option<ServerMsg>,
        QueryError,
    >)
        ensures
            match msg {
                ClientMsg::Subscribe(query) => match done {
                    Ok(reply) => first_unknown(query@.names(), registry@).is_none()
                        && acknowledges(reply, query@) && final(self)@ == old(self)@.insert(
                        query@.id,
                        SubscriptionView { query: query@, plan: query@.compiled(registry@) },
                    ),
                    Err(e) => first_unknown(query@.names(), registry@).is_some() && e@
                        == QueryErrorView::UnknownType(
                        first_unknown(query@.names(), registry@).unwrap(),
                    ) && final(self)@ == old(self)@,
                },
                ClientMsg::Unsubscribe(id) => done == Ok::<Option<ServerMsg>, QueryError>(None)
                    && final(self)@ == old(self)@.remove(id@),
            },
    {
        match msg {
            ClientMsg::Subscribe(query) => {
                let ack = copy_request(&query);
                match self.subscribe_components(query, registry) {
                    Ok(()) => Ok(Some(ServerMsg::Ack(ack))),
                    Err(e) => Err(e),
                }
            },
            ClientMsg::Unsubscribe(id) => {
                self.unsubscribe(id.as_str());
                Ok(None)
            },
        }
    }
}

/// The characters that separate short names on a line: those with the
/// Unicode property `White_Space`.
pub open spec fn is_whitespace(c: char) -> bool {
    let code = c as u32;
    ||| 0x09 <= code <= 0x0D
    ||| code == 0x20
    ||| code == 0x85
    ||| code == 0xA0
    ||| code == 0x1680
    ||| 0x2000 <= code <= 0x200A
    ||| code == 0x2028
    ||| code == 0x2029
    ||| code == 0x202F
    ||| code == 0x205F
    ||| code == 0x3000
}

/// Whether `c` separates short names.
pub fn whitespace(c: char) -> (separates: bool)
    ensures
        separates == is_whitespace(c),
{
    let code = c as u32;
    (0x09 <= code && code <= 0x0D) || code == 0x20 || code == 0x85 || code == 0xA0 || code
        == 0x1680 || (0x2000 <= code && code <= 0x200A) || code == 0x2028 || code == 0x2029
        || code == 0x202F || code == 0x205F || code == 0x3000
}

/// How many characters at the start of `line` stand before its first
/// whitespace.
pub open spec fn word_len(line: Seq<char>) -> nat
    decreases line.len(),
{
    if line.len() == 0 || is_whitespace(line[0]) {
        0
    } else {
        1 + word_len(line.drop_first())
    }
}

/// The short names on a line: its longest runs of characters that are not
/// whitespace, in order.
pub open spec fn names_on(line: Seq<char>) -> Seq<Seq<char>>
    decreases line.len(),
    via names_on_decreases
{
    if line.len() == 0 {
        Seq::empty()
    } else if is_whitespace(line[0]) {
        names_on(line.drop_first())
    } else {
        seq![line.take(word_len(line) as int)] + names_on(line.skip(word_len(line) as int))
    }
}

#[via_fn]
proof fn names_on_decreases(line: Seq<char>) {
    if line.len() > 0 && !is_whitespace(line[0]) {
        lemma_word_len_bounds(line);
    }
}

/// A word is no longer than its line, and not empty where the line starts
/// with a character that is not whitespace.
proof fn lemma_word_len_bounds(line: Seq<char>)
    ensures
        word_len(line) <= line.len(),
        line.len() > 0 && !is_whitespace(line[0]) ==> word_len(line) >= 1,
    decreases line.len(),
{
    if line.len() > 0 && !is_whitespace(line[0]) {
        lemma_word_len_bounds(line.drop_first());
    }
}

/// The word that starts at `start` reaches at least to `end` where no
/// character between them is whitespace.
proof fn lemma_word_len_from(line: Seq<char>, start: int, end: int)
    requires
        0 <= start <= end <= line.len(),
        forall|k: int| start <= k < end ==> !is_whitespace(#[trigger] line[k]),
    ensures
        word_len(line.skip(start)) == (end - start) + word_len(line.skip(end)),
    decreases end - start,
{
    if start < end {
        assert(line.skip(start)[0] == line[start]);
        assert(line.skip(start).drop_first() =~= line.skip(start + 1));
        lemma_word_len_from(line, start + 1, end);
    }
}

/// No short name on a line is empty, and none holds whitespace.
pub proof fn lemma_names_hold_no_whitespace(line: Seq<char>)
    ensures
        forall|i: int|
            0 <= i < names_on(line).len() ==> (#[trigger] names_on(line)[i]).len() > 0,
        forall|i: int, k: int|
            0 <= i < names_on(line).len() && 0 <= k < names_on(line)[i].len() ==> !is_whitespace(
                #[trigger] names_on(line)[i][k],
            ),
    decreases line.len(),
{
    if line.len() == 0 {
        assert(names_on(line).len() == 0);
    } else if is_whitespace(line[0]) {
        lemma_names_hold_no_whitespace(line.drop_first());
        assert(names_on(line) == names_on(line.drop_first()));
    } else {
        let n = word_len(line) as int;
        let names = names_on(line);
        let rest = names_on(line.skip(n));
        lemma_word_len_bounds(line);
        lemma_word_holds_no_whitespace(line);
        lemma_names_hold_no_whitespace(line.skip(n));
        assert(names == seq![line.take(n)] + rest);
        assert forall|i: int| 0 <= i < names.len() implies (#[trigger] names[i]).len() > 0 by {
            if i > 0 {
                assert(names[i] == rest[i - 1]);
            }
        }
        assert forall|i: int, k: int|
            0 <= i < names.len() && 0 <= k < names[i].len() implies !is_whitespace(
            #[trigger] names[i][k],
        ) by {
            if i > 0 {
                assert(names[i] == rest[i - 1]);
            } else {
                assert(names[i][k] == line[k]);
            }
        }
    }
}

/// No character of the word at the start of a line is whitespace.
proof fn lemma_word_holds_no_whitespace(line: Seq<char>)
    ensures
        forall|k: int| 0 <= k < word_len(line) ==> !is_whitespace(#[trigger] line[k]),
    decreases line.len(),
{
    if line.len() > 0 && !is_whitespace(line[0]) {
        lemma_word_len_bounds(line);
        lemma_word_holds_no_whitespace(line.drop_first());
        assert forall|k: int| 0 <= k < word_len(line) implies !is_whitespace(
            #[trigger] line[k],
        ) by {
            if k > 0 {
                assert(line[k] == line.drop_first()[k - 1]);
            }
        }
    }
}

/// The characters of a string, one by one.
fn chars_of(line: &str) -> (chars: Vec<char>)
    ensures
        chars@ == line@,
{
    let mut chars: Vec<char> = Vec::new();
    let walk = line.chars();
    for c in it: walk
        invariant
            chars@ == it.seq().take(it.index() as int),
            it.seq() == line@,
    {
        chars.push(c);
    }
    chars
}

/// Splits a line into the short names that whitespace separates.
pub fn short_names_on(line: &str) -> (names: Vec<ShortName>)
    ensures
        text_views(names@) == names_on(line@),
{
    let chars = chars_of(line);
    let n = chars.len();
    let mut names: Vec<ShortName> = Vec::new();
    let mut i: usize = 0;
    assert(line@.skip(0) =~= line@);
    assert(text_views(names@) + names_on(line@) =~= names_on(line@));
    while i < n
        invariant
            0 <= i <= n,
            n == chars.len(),
            chars@ == line@,
            names_on(line@) == text_views(names@) + names_on(line@.skip(i as int)),
        decreases n - i,
    {
        let ghost rest = line@.skip(i as int);
        assert(rest[0] == line@[i as int]);
        if whitespace(chars[i]) {
            assert(rest.drop_first() =~= line@.skip(i + 1));
            i += 1;
        } else {
            let start = i;
            while i < n && !whitespace(chars[i])
                invariant
                    start <= i <= n,
                    n == chars.len(),
                    chars@ == line@,
                    forall|k: int| start <= k < i ==> !is_whitespace(#[trigger] line@[k]),
                decreases n - i,
            {
                i += 1;
            }
            proof {
                lemma_word_len_from(line@, start as int, i as int);
                if i < n {
                    assert(line@.skip(i as int)[0] == line@[i as int]);
                }
                assert(word_len(line@.skip(i as int)) == 0);
                assert(rest.take(i - start) =~= line@.subrange(start as int, i as int));
                assert(rest.skip(i - start) =~= line@.skip(i as int));
            }
            let ghost before = text_views(names@);
            let name = line.substring_char(start, i).to_owned();
            names.push(name);
            assert(text_views(names@) =~= before.push(name@));
            assert(before + (seq![name@] + names_on(line@.skip(i as int))) =~= before.push(name@)
                + names_on(line@.skip(i as int)));
        }
    }
    assert(line@.skip(n as int) =~= Seq::<char>::empty());
    assert(text_views(names@) + Seq::<Seq<char>>::empty() =~= text_views(names@));
    names
}

/// The request that a client makes from a line of input: it fetches the
/// short names on the line, filters by nothing, and goes under the id
/// `query_1`.
pub fn query_from_line(line: &str) -> (query: QuerySubReq)
    ensures
        query@ == (QueryView { id: "query_1"@, fetch: names_on(line@), filter: Seq::empty() }),
{
    let fetch = short_names_on(line);
    let filter: Vec<ShortNameFilter> = Vec::new();
    let query = QuerySubReq { id: "query_1".to_owned(), fetch, filter };
    assert(query@.filter =~= Seq::empty());
    query
}

} // verus!
