//! The catalog: a library of stored methods, looked up by title.

use vstd::prelude::*;
use vstd::string::StrSliceExecFns;
use crate::distance::{edit_distance, lev};
use crate::method::{CompactMethod, CompactMethodV, Method};
use crate::pn::{pn_parse, PnBlockParseError};
use crate::query::QueryResult;
use crate::ranker::{
    pair_le, shortlist_cap, shortlist_into_sorted_vec, shortlist_items, shortlist_new,
    shortlist_push,
};
use crate::stage::{spec_resolve_title_stage, resolve_title_stage, Stage};
use crate::text::str_eq;

verus! {

broadcast use vstd::multiset::group_multiset_axioms, vstd::seq_lib::group_to_multiset_ensures;

/// The views of a sequence of stored entries.
pub open spec fn entry_views(s: Seq<LibraryEntry>) -> Seq<LibraryEntryV> {
    s.map_values(|e: LibraryEntry| e@)
}

/// The lesser of two integers.
pub open spec fn min_int(a: int, b: int) -> int {
    if a <= b {
        a
    } else {
        b
    }
}

/// One retained ranker item `(key, index)`: the index names an entry, and
/// the key is `usize::MAX` less the edit distance from the query to that
/// entry's title.
pub open spec fn item_ok(
    es: Seq<LibraryEntryV>,
    title: Seq<char>,
    x: (usize, usize),
) -> bool {
    &&& (x.1 as int) < es.len()
    &&& lev(title, es[x.1 as int].title) <= usize::MAX
    &&& x.0 == usize::MAX - lev(title, es[x.1 as int].title)
}

/// Does `s` suggest a title actually stored in the catalog, paired with its
/// edit distance from the query?
pub open spec fn suggestion_from(
    es: Seq<LibraryEntryV>,
    title: Seq<char>,
    s: (String, usize),
) -> bool {
    exists|j: int|
        0 <= j < es.len() && s.0@ == #[trigger] es[j].title && s.1 == lev(title, es[j].title)
}

/// What a suggestion list must be: exactly `min(k, catalog size)` entries,
/// each a stored title with its edit distance from the query, in
/// non-decreasing order of distance.
pub open spec fn suggestions_ok(
    es: Seq<LibraryEntryV>,
    title: Seq<char>,
    k: nat,
    sug: Seq<(String, usize)>,
) -> bool {
    &&& sug.len() == min_int(k as int, es.len() as int)
    &&& forall|p: int| 0 <= p < sug.len() ==> suggestion_from(es, title, #[trigger] sug[p])
    &&& forall|p: int, q: int|
        #![trigger sug[p], sug[q]]
        0 <= p < q < sug.len() ==> sug[p].1 <= sug[q].1
}

/// One stored entry: a compact record filed under a stage and a title.
#[derive(Debug, Clone)]
pub struct LibraryEntry {
    pub stage: Stage,
    pub title: String,
    pub method: CompactMethod,
}

/// Ghost counterpart of [`LibraryEntry`].
pub ghost struct LibraryEntryV {
    pub stage: Stage,
    pub title: Seq<char>,
    pub method: CompactMethodV,
}

impl View for LibraryEntry {
    type V = LibraryEntryV;

    open spec fn view(&self) -> LibraryEntryV {
        LibraryEntryV { stage: self.stage, title: self.title@, method: self.method@ }
    }
}

/// The catalog invariant: titles are unique within a stage, and every
/// entry's title resolves, by its trailing token, to the stage it is filed
/// under.
pub open spec fn entries_wf(es: Seq<LibraryEntryV>) -> bool {
    &&& forall|i: int, j: int|
        0 <= i < j < es.len() ==> !(#[trigger] es[i].stage == #[trigger] es[j].stage && es[i].title
            == es[j].title)
    &&& forall|i: int|
        0 <= i < es.len() ==> spec_resolve_title_stage(#[trigger] es[i].title) == Some(es[i].stage)
}

/// The first entry filed under `stage` with title `title`, at or after `i`.
pub open spec fn find_at(es: Seq<LibraryEntryV>, stage: Stage, title: Seq<char>, i: int) -> Option<
    int,
>
    decreases es.len() - i,
{
    if i < 0 || i >= es.len() {
        None
    } else if es[i].stage == stage && es[i].title == title {
        Some(i)
    } else {
        find_at(es, stage, title, i + 1)
    }
}

/// The entry an exact lookup of `title` reaches: resolve the title to a
/// stage by its trailing token, then find that (stage, title) pair.
pub open spec fn spec_lookup(es: Seq<LibraryEntryV>, title: Seq<char>) -> Option<int> {
    match spec_resolve_title_stage(title) {
        Some(stage) => find_at(es, stage, title, 0),
        None => None,
    }
}

/// What any exact-lookup outcome must be: `NotFound` when `spec_lookup`
/// misses; otherwise `Success` with the materialized method when the stored
/// place notation parses, and `PnParseErr` with that notation and the
/// structured error when it does not.
pub open spec fn hit_outcome<T>(es: Seq<LibraryEntryV>, title: Seq<char>, r: QueryResult<T>) -> bool {
    match spec_lookup(es, title) {
        None => r is NotFound,
        Some(i) => {
            let e = es[i];
            match pn_parse(e.method.place_notation, e.stage.num_bells) {
                Ok(toks) => r is Success && r->Success_0.title@ == title && r->Success_0.name@
                    == e.method.name && r->Success_0.full_class == e.method.full_class
                    && r->Success_0.stage == e.stage && r->Success_0.block@ == toks,
                Err(err) => r is PnParseErr && r->PnParseErr_pn@ == e.method.place_notation
                    && r->PnParseErr_error == err,
            }
        },
    }
}

/// A library of methods, built wholesale and never mutated afterwards.
#[derive(Debug, Clone)]
pub struct MethodLib {
    entries: Vec<LibraryEntry>,
}

impl View for MethodLib {
    type V = Seq<LibraryEntryV>;

    closed spec fn view(&self) -> Seq<LibraryEntryV> {
        entry_views(self.entries@)
    }
}

impl MethodLib {
    /// Does this library satisfy the catalog invariant?
    pub open spec fn wf(self) -> bool {
        entries_wf(self@)
    }

    /// Builds a library from its entries, checking the catalog invariant:
    /// `None` exactly when two entries share a (stage, title) pair or some
    /// title does not resolve to the stage it is filed under.
    pub fn new(entries: Vec<LibraryEntry>) -> (r: Option<MethodLib>)
        ensures
            match r {
                Some(lib) => lib@ == entry_views(entries@) && lib.wf(),
                None => !entries_wf(entry_views(entries@)),
            },
    {
        let ghost es = entry_views(entries@);
        let n = entries.len();
        let mut i: usize = 0;
        while i < n
            invariant
                n == entries.len(),
                es == entry_views(entries@),
                i <= n,
                forall|p: int|
                    0 <= p < i ==> spec_resolve_title_stage(#[trigger] es[p].title) == Some(
                        es[p].stage,
                    ),
                forall|p: int, q: int|
                    0 <= p < q < i ==> !(#[trigger] es[p].stage == #[trigger] es[q].stage
                        && es[p].title == es[q].title),
            decreases n - i,
        {
            match resolve_title_stage(entries[i].title.as_str()) {
                Some(st) => {
                    if !(st == entries[i].stage) {
                        proof {
                            assert(spec_resolve_title_stage(es[i as int].title) != Some(
                                es[i as int].stage,
                            ));
                        }
                        return None;
                    }
                },
                None => {
                    proof {
                        assert(spec_resolve_title_stage(es[i as int].title) != Some(
                            es[i as int].stage,
                        ));
                    }
                    return None;
                },
            }
            let mut j: usize = 0;
            while j < i
                invariant
                    n == entries.len(),
                    es == entry_views(entries@),
                    j <= i < n,
                    forall|p: int|
                        0 <= p < j ==> !(#[trigger] es[p].stage == es[i as int].stage && es[p].title
                            == es[i as int].title),
                decreases i - j,
            {
                if entries[j].stage == entries[i].stage && str_eq(
                    entries[j].title.as_str(),
                    entries[i].title.as_str(),
                ) {
                    proof {
                        assert(es[j as int].stage == es[i as int].stage && es[j as int].title
                            == es[i as int].title);
                    }
                    return None;
                }
                j += 1;
            }
            i += 1;
        }
        Some(MethodLib { entries })
    }

    /// Searches this library for a method with the given title.  The
    /// failure state carries no information; for ranked alternatives use
    /// `get_by_title_with_suggestions`.
    pub fn get_by_title(&self, title: &str) -> (r: QueryResult<()>)
        ensures
            hit_outcome(self@, title@, r),
    {
        match self.get_by_title_option(title) {
            Some(Ok(method)) => QueryResult::Success(method),
            Some(Err((pn, error))) => QueryResult::PnParseErr { pn, error },
            None => QueryResult::NotFound(()),
        }
    }

    /// The exact lookup, phrased over `Option`: `None` on a miss, and on a
    /// hit the materialized method or the parse failure.
    pub fn get_by_title_option(&self, title: &str) -> (r: Option<
        Result<Method, (String, PnBlockParseError)>,
    >)
        ensures
            match spec_lookup(self@, title@) {
                None => r is None,
                Some(i) => {
                    let e = self@[i];
                    match pn_parse(e.method.place_notation, e.stage.num_bells) {
                        Ok(toks) => r matches Some(Ok(m)) && m.title@ == title@ && m.name@
                            == e.method.name && m.full_class == e.method.full_class && m.stage
                            == e.stage && m.block@ == toks,
                        Err(err) => r matches Some(Err(p)) && p.0@ == e.method.place_notation
                            && p.1 == err,
                    }
                },
            },
    {
        let stage = match resolve_title_stage(title) {
            Some(st) => st,
            None => {
                return None;
            },
        };
        let idx = match self.find_entry(stage, title) {
            Some(k) => k,
            None => {
                return None;
            },
        };
        proof {
            lemma_find_at_found(self@, stage, title@, 0, idx as int);
        }
        Some(self.entries[idx].method.to_method(stage, title.to_owned()))
    }

    /// Searches this library for a method with the given title.  A hit or a
    /// parse failure is returned unchanged from the exact lookup; only on a
    /// genuine miss is the ranker invoked, returning the `num_suggestions`
    /// stored titles closest to the query by edit distance, closest first.
    pub fn get_by_title_with_suggestions(&self, title: &str, num_suggestions: usize) -> (r:
        QueryResult<Vec<(String, usize)>>)
        ensures
            hit_outcome(self@, title@, r),
            r is NotFound ==> suggestions_ok(
                self@,
                title@,
                num_suggestions as nat,
                r->NotFound_0@,
            ),
    {
        let res = self.get_by_title(title);
        match res {
            QueryResult::Success(m) => QueryResult::Success(m),
            QueryResult::PnParseErr { pn, error } => QueryResult::PnParseErr { pn, error },
            QueryResult::NotFound(_) => QueryResult::NotFound(
                self.generate_suggestions(title, num_suggestions),
            ),
        }
    }

    /// Ranks every stored title, across all stages, by edit distance from
    /// the query, and keeps the closest `num_suggestions` of them using a
    /// bounded worst-eviction shortlist.  Ties on distance are broken by
    /// catalog position.
    fn generate_suggestions(&self, title: &str, num_suggestions: usize) -> (r: Vec<
        (String, usize),
    >)
        ensures
            suggestions_ok(self@, title@, num_suggestions as nat, r@),
    {
        let ghost es = self@;
        if num_suggestions == 0 {
            let out: Vec<(String, usize)> = Vec::new();
            return out;
        }
        let k = num_suggestions;
        let n = self.entries.len();
        let mut sl = shortlist_new(k);
        let mut j: usize = 0;
        while j < n
            invariant
                es == self@,
                n == self.entries.len(),
                n == es.len(),
                k >= 1,
                j <= n,
                shortlist_cap(sl) == k as nat,
                shortlist_items(sl).len() == min_int(k as int, j as int),
                forall|x: (usize, usize)|
                    shortlist_items(sl).count(x) > 0 ==> item_ok(es, title@, x),
            decreases n - j,
        {
            let d = edit_distance(title, self.entries[j].title.as_str());
            let key = usize::MAX - d;
            let ghost old_items = shortlist_items(sl);
            shortlist_push(&mut sl, (key, j));
            proof {
                let item = (key, j);
                assert(item_ok(es, title@, item));
                if old_items.len() < k as nat {
                    assert(shortlist_items(sl) == old_items.insert(item));
                    assert forall|x: (usize, usize)|
                        shortlist_items(sl).count(x) > 0 implies item_ok(es, title@, x) by {
                        if x != item {
                            assert(old_items.count(x) > 0);
                        }
                    }
                } else if forall|x: (usize, usize)| old_items.count(x) > 0 ==> pair_le(item, x) {
                    assert(shortlist_items(sl) == old_items);
                } else {
                    let m = choose|m: (usize, usize)|
                        old_items.count(m) > 0 && (forall|x: (usize, usize)|
                            old_items.count(x) > 0 ==> pair_le(m, x)) && shortlist_items(sl)
                            == old_items.remove(m).insert(item);
                    assert(shortlist_items(sl).len() == old_items.len());
                    assert forall|x: (usize, usize)|
                        shortlist_items(sl).count(x) > 0 implies item_ok(es, title@, x) by {
                        if x != item {
                            assert(old_items.remove(m).count(x) <= old_items.count(x));
                        }
                    }
                }
            }
            j += 1;
        }
        let v = shortlist_into_sorted_vec(sl);
        let m = v.len();
        proof {
            assert(v@.to_multiset().len() == v@.len());
            assert forall|p: int| 0 <= p < m implies item_ok(es, title@, v@[p]) by {
                assert(v@.contains(v@[p]));
                assert(v@.to_multiset().count(v@[p]) > 0);
            }
        }
        let mut out: Vec<(String, usize)> = Vec::new();
        let mut t: usize = 0;
        while t < m
            invariant
                es == self@,
                n == self.entries.len(),
                n == es.len(),
                m == v@.len(),
                t <= m,
                out@.len() == t,
                forall|p: int| 0 <= p < m ==> item_ok(es, title@, #[trigger] v@[p]),
                forall|i: int, j2: int|
                    #![trigger v@[i], v@[j2]]
                    0 <= i < j2 < m ==> pair_le(v@[i], v@[j2]),
                forall|p: int|
                    #![trigger out@[p]]
                    0 <= p < t ==> out@[p].0@ == es[v@[m - 1 - p].1 as int].title && out@[p].1
                        == usize::MAX - v@[m - 1 - p].0,
            decreases m - t,
        {
            let pair = v[m - 1 - t];
            proof {
                assert(item_ok(es, title@, v@[m - 1 - t as int]));
            }
            let dist = usize::MAX - pair.0;
            out.push((self.entries[pair.1].title.clone(), dist));
            t += 1;
        }
        proof {
            assert forall|p: int| 0 <= p < out@.len() implies suggestion_from(
                es,
                title@,
                #[trigger] out@[p],
            ) by {
                let w = v@[m - 1 - p].1 as int;
                assert(item_ok(es, title@, v@[m - 1 - p]));
                assert(0 <= w < es.len() && out@[p].0@ == es[w].title && out@[p].1 == lev(
                    title@,
                    es[w].title,
                ));
            }
            assert forall|p: int, q: int|
                #![trigger out@[p], out@[q]]
                0 <= p < q < out@.len() implies out@[p].1 <= out@[q].1 by {
                assert(pair_le(v@[m - 1 - q], v@[m - 1 - p]));
            }
        }
        out
    }

    /// The stored entries, in catalog order.
    pub fn entries(&self) -> (r: &Vec<LibraryEntry>)
        ensures
            entry_views(r@) == self@,
    {
        &self.entries
    }

    /// Linear scan for the first entry filed under `stage` with `title`.
    fn find_entry(&self, stage: Stage, title: &str) -> (r: Option<usize>)
        ensures
            match r {
                Some(k) => find_at(self@, stage, title@, 0) == Some(k as int) && k < self@.len(),
                None => find_at(self@, stage, title@, 0) is None,
            },
    {
        let n = self.entries.len();
        let mut i: usize = 0;
        while i < n
            invariant
                n == self.entries.len(),
                i <= n,
                find_at(self@, stage, title@, 0) == find_at(self@, stage, title@, i as int),
            decreases n - i,
        {
            if self.entries[i].stage == stage && str_eq(self.entries[i].title.as_str(), title) {
                return Some(i);
            }
            i += 1;
        }
        None
    }
}

/// What a successful scan pins down: the index found lies in range and its
/// entry carries the sought stage and title.
proof fn lemma_find_at_found(
    es: Seq<LibraryEntryV>,
    stage: Stage,
    title: Seq<char>,
    j: int,
    k: int,
)
    requires
        0 <= j,
        find_at(es, stage, title, j) == Some(k),
    ensures
        j <= k < es.len(),
        es[k].stage == stage,
        es[k].title == title,
    decreases es.len() - j,
{
    if j < es.len() && !(es[j].stage == stage && es[j].title == title) {
        lemma_find_at_found(es, stage, title, j + 1, k);
    }
}

/// When no entry at or after `j` matches, the scan from `j` misses.
proof fn lemma_find_at_misses(es: Seq<LibraryEntryV>, stage: Stage, title: Seq<char>, j: int)
    requires
        0 <= j <= es.len(),
        forall|p: int| j <= p < es.len() ==> !(#[trigger] es[p].stage == stage && es[p].title == title),
    ensures
        find_at(es, stage, title, j) is None,
    decreases es.len() - j,
{
    if j < es.len() {
        lemma_find_at_misses(es, stage, title, j + 1);
    }
}

/// When entry `i` matches and nothing in `[j, i)` does, the scan from `j`
/// finds exactly `i`.
proof fn lemma_find_at_hits(es: Seq<LibraryEntryV>, stage: Stage, title: Seq<char>, j: int, i: int)
    requires
        0 <= j <= i < es.len(),
        es[i].stage == stage,
        es[i].title == title,
        forall|p: int| j <= p < i ==> !(#[trigger] es[p].stage == stage && es[p].title == title),
    ensures
        find_at(es, stage, title, j) == Some(i),
    decreases i - j,
{
    if j < i {
        lemma_find_at_hits(es, stage, title, j + 1, i);
    }
}

/// Law: in a well-formed catalog, an exact lookup of a stored entry's title
/// reaches exactly that entry.
pub proof fn lemma_stored_title_found(es: Seq<LibraryEntryV>, i: int)
    requires
        entries_wf(es),
        0 <= i < es.len(),
    ensures
        spec_lookup(es, es[i].title) == Some(i),
{
    assert(spec_resolve_title_stage(es[i].title) == Some(es[i].stage));
    lemma_find_at_hits(es, es[i].stage, es[i].title, 0, i);
}

/// Law: for a title stored under some stage with well-formed place
/// notation, any outcome an exact lookup admits is `Success`, with a method
/// carrying that title and that stage.
pub proof fn lemma_stored_hit_is_success<T>(
    es: Seq<LibraryEntryV>,
    i: int,
    r: QueryResult<T>,
)
    requires
        entries_wf(es),
        0 <= i < es.len(),
        pn_parse(es[i].method.place_notation, es[i].stage.num_bells) is Ok,
        hit_outcome(es, es[i].title, r),
    ensures
        r is Success,
        r->Success_0.title@ == es[i].title,
        r->Success_0.stage == es[i].stage,
{
    lemma_stored_title_found(es, i);
}

/// Law: when a title's trailing token resolves to no known stage, or no
/// entry under the resolved stage carries the title, any outcome an exact
/// lookup admits is `NotFound`.
pub proof fn lemma_miss_is_not_found<T>(
    es: Seq<LibraryEntryV>,
    title: Seq<char>,
    r: QueryResult<T>,
)
    requires
        hit_outcome(es, title, r),
        match spec_resolve_title_stage(title) {
            None => true,
            Some(stage) => forall|p: int|
                0 <= p < es.len() ==> !(#[trigger] es[p].stage == stage && es[p].title == title),
        },
    ensures
        r is NotFound,
{
    match spec_resolve_title_stage(title) {
        None => {},
        Some(stage) => {
            lemma_find_at_misses(es, stage, title, 0);
        },
    }
}

} // verus!
