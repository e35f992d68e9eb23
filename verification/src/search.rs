use vstd::prelude::*;
use vstd::string::*;
use crate::model::{LocationDetail, LocationInfo, Village};
use crate::rank::{
    is_stable_order, lemma_stable_order_ascends, lemma_stable_order_is_unique, rank_order,
};
use crate::text::{
    chars_of, holds_keyword, is_space, is_substring, keywords, keywords_of, lowercase_of, views,
};

verus! {

/// The number of results returned when the caller asks for none in particular.
pub const DEFAULT_LIMIT: usize = 10;

/// The largest number of results a search returns.
pub const MAX_LIMIT: usize = 50;

/// The largest number of matching villages that are ranked.
pub const POOL_CAP: usize = 100;

/// The limit that a request is served with.
pub open spec fn limit_of(requested: usize) -> usize {
    if requested == 0 {
        DEFAULT_LIMIT
    } else if requested > MAX_LIMIT {
        MAX_LIMIT
    } else {
        requested
    }
}

/// Clamps a requested limit: zero stands for the default, and nothing above
/// the maximum is served.
pub fn effective_limit(requested: usize) -> (r: usize)
    ensures
        r == limit_of(requested),
        1 <= r <= MAX_LIMIT,
{
    if requested == 0 {
        DEFAULT_LIMIT
    } else if requested > MAX_LIMIT {
        MAX_LIMIT
    } else {
        requested
    }
}

/// A village that a search considers, with its distance from the reference
/// point of the request where one was supplied.
#[derive(Debug)]
pub struct Candidate<C> {
    pub village: Village<C>,
    pub distance_meters: Option<i64>,
}

/// Whether one of the four names of a village holds the keyword, case aside.
pub open spec fn matches_keyword<C>(v: Village<C>, keyword: Seq<char>) -> bool {
    ||| is_substring(lowercase_of(v.name@), keyword)
    ||| is_substring(lowercase_of(v.district@), keyword)
    ||| is_substring(lowercase_of(v.regency@), keyword)
    ||| is_substring(lowercase_of(v.province@), keyword)
}

/// Whether every keyword is held by one of the names of the village.
pub open spec fn matches_all<C>(v: Village<C>, keywords: Seq<Seq<char>>) -> bool {
    forall|k: int| 0 <= k < keywords.len() ==> matches_keyword(v, #[trigger] keywords[k])
}

/// Tests a village against one keyword.
pub fn village_holds<C>(v: &Village<C>, keyword: &Vec<char>) -> (r: bool)
    ensures
        r == matches_keyword(*v, keyword@),
{
    holds_keyword(v.name.as_str(), keyword) || holds_keyword(v.district.as_str(), keyword)
        || holds_keyword(v.regency.as_str(), keyword) || holds_keyword(
        v.province.as_str(),
        keyword,
    )
}

/// Tests a village against every keyword.
pub fn village_matches<C>(v: &Village<C>, keywords: &Vec<String>) -> (r: bool)
    ensures
        r == matches_all(*v, views(keywords@)),
{
    let mut k: usize = 0;
    while k < keywords.len()
        invariant
            k <= keywords.len(),
            forall|j: int| 0 <= j < k ==> matches_keyword(*v, #[trigger] views(keywords@)[j]),
        decreases keywords.len() - k,
    {
        let keyword = chars_of(keywords[k].as_str());
        assert(views(keywords@)[k as int] == keyword@);
        if !village_holds(v, &keyword) {
            return false;
        }
        k += 1;
    }
    true
}

/// `pool` lists, in ascending order, the places of the first `POOL_CAP`
/// candidates whose village matches every keyword.
pub open spec fn is_pool<C>(
    rows: Seq<Candidate<C>>,
    keywords: Seq<Seq<char>>,
    pool: Seq<usize>,
) -> bool {
    &&& pool.len() <= POOL_CAP
    &&& forall|a: int|
        0 <= a < pool.len() ==> (#[trigger] pool[a]) < rows.len() && matches_all(
            rows[pool[a] as int].village,
            keywords,
        )
    &&& forall|a: int, b: int|
        0 <= a < b < pool.len() ==> (#[trigger] pool[a]) < (#[trigger] pool[b])
    &&& forall|i: usize|
        i < rows.len() && matches_all(rows[i as int].village, keywords) ==> #[trigger] pool.contains(
            i,
        ) || (pool.len() == POOL_CAP && pool[POOL_CAP - 1] < i)
}

/// Short of the cap, a candidate is in the pool if and only if its village
/// matches every keyword.
pub proof fn lemma_pool_holds_the_matches<C>(
    rows: Seq<Candidate<C>>,
    keywords: Seq<Seq<char>>,
    pool: Seq<usize>,
    i: usize,
)
    requires
        is_pool(rows, keywords, pool),
        pool.len() < POOL_CAP,
        i < rows.len(),
    ensures
        pool.contains(i) <==> matches_all(rows[i as int].village, keywords),
{
    if pool.contains(i) {
        let a = choose|a: int| 0 <= a < pool.len() && pool[a] == i;
        assert(matches_all(rows[pool[a] as int].village, keywords));
    }
}

/// Selects the candidates that match every keyword, the first `POOL_CAP` of
/// them at most.
pub fn candidate_pool<C>(rows: &Vec<Candidate<C>>, keywords: &Vec<String>) -> (pool: Vec<usize>)
    ensures
        is_pool(rows@, views(keywords@), pool@),
{
    let mut pool: Vec<usize> = Vec::new();
    let mut i: usize = 0;
    while i < rows.len() && pool.len() < POOL_CAP
        invariant
            i <= rows.len(),
            pool@.len() <= POOL_CAP,
            forall|a: int|
                0 <= a < pool@.len() ==> (#[trigger] pool@[a]) < i && matches_all(
                    rows@[pool@[a] as int].village,
                    views(keywords@),
                ),
            forall|a: int, b: int|
                0 <= a < b < pool@.len() ==> (#[trigger] pool@[a]) < (#[trigger] pool@[b]),
            forall|j: usize|
                j < i && matches_all(rows@[j as int].village, views(keywords@))
                    ==> #[trigger] pool@.contains(j),
        decreases rows.len() - i,
    {
        if village_matches(&rows[i].village, keywords) {
            let ghost before = pool@;
            pool.push(i);
            proof {
                assert forall|j: usize|
                    j < i + 1 && matches_all(
                        rows@[j as int].village,
                        views(keywords@),
                    ) implies #[trigger] pool@.contains(j) by {
                    if j == i {
                        assert(pool@[before.len() as int] == j);
                    } else {
                        assert(before.contains(j));
                        let a = choose|a: int| 0 <= a < before.len() && before[a] == j;
                        assert(pool@[a] == j);
                    }
                }
            }
        }
        i += 1;
    }
    pool
}

/// The display name of a village within its hierarchy.
pub open spec fn full_name_of<C>(v: Village<C>) -> Seq<char> {
    "Kelurahan "@ + v.name@ + ", Kecamatan "@ + v.district@ + ", "@ + v.regency@ + ", "@
        + v.province@
}

/// Whether `info` presents the village `v` with the given distance.
pub open spec fn describes<C>(info: LocationInfo<C>, v: Village<C>, distance: Option<i64>) -> bool {
    &&& info.level@ == "village"@
    &&& info.id@ == v.id@
    &&& info.name@ == v.name@
    &&& info.location_detail.province@ == v.province@
    &&& info.location_detail.regency@ == v.regency@
    &&& info.location_detail.district@ == v.district@
    &&& info.location_detail.village@ == v.name@
    &&& info.full_name@ == full_name_of(v)
    &&& info.centroid == v.centroid
    &&& info.distance_meters == distance
}

/// Presents a village to callers.
pub fn location_info<C: Copy>(v: &Village<C>, distance: Option<i64>) -> (info: LocationInfo<C>)
    ensures
        describes(info, *v, distance),
{
    let mut full_name = String::from_str("Kelurahan ");
    full_name.append(v.name.as_str());
    full_name.append(", Kecamatan ");
    full_name.append(v.district.as_str());
    full_name.append(", ");
    full_name.append(v.regency.as_str());
    full_name.append(", ");
    full_name.append(v.province.as_str());
    LocationInfo {
        level: String::from_str("village"),
        id: v.id.clone(),
        name: v.name.clone(),
        location_detail: LocationDetail {
            province: v.province.clone(),
            regency: v.regency.clone(),
            district: v.district.clone(),
            village: v.name.clone(),
        },
        full_name,
        centroid: v.centroid,
        distance_meters: distance,
    }
}

/// The largest distance: the key of a result without one.
pub const NO_DISTANCE: i64 = 0x7fff_ffff_ffff_ffff;

/// The key a result is ranked by: its distance where a reference point was
/// supplied, the number of characters of its name otherwise.
pub open spec fn sort_key<C>(info: LocationInfo<C>, by_distance: bool) -> i128 {
    if by_distance {
        match info.distance_meters {
            Some(d) => d as i128,
            None => NO_DISTANCE as i128,
        }
    } else {
        info.name@.len() as i128
    }
}

/// The keys of a list of results, in order.
pub open spec fn sort_keys<C>(infos: Seq<LocationInfo<C>>, by_distance: bool) -> Seq<i128> {
    infos.map_values(|info: LocationInfo<C>| sort_key(info, by_distance))
}

/// `out` holds the first `limit` of `infos` as `order` arranges them.
pub open spec fn picks<C>(
    infos: Seq<LocationInfo<C>>,
    order: Seq<usize>,
    limit: int,
    out: Seq<LocationInfo<C>>,
) -> bool {
    &&& out.len() == if limit < infos.len() { limit } else { infos.len() as int }
    &&& out.len() <= order.len()
    &&& forall|k: int| 0 <= k < out.len() ==> #[trigger] out[k] == infos[order[k] as int]
}

/// `out` is `infos` sorted by key, equal keys in their given order, and cut
/// to `limit`.
pub open spec fn is_ranking<C>(
    infos: Seq<LocationInfo<C>>,
    by_distance: bool,
    limit: int,
    out: Seq<LocationInfo<C>>,
) -> bool {
    exists|order: Seq<usize>| #[trigger]
        is_stable_order(sort_keys(infos, by_distance), order) && picks(infos, order, limit, out)
}

/// Ranked results never descend in key: with a reference point the nearer
/// result comes first, without one the result with the shorter name.
pub proof fn lemma_ranking_ascends<C>(
    infos: Seq<LocationInfo<C>>,
    by_distance: bool,
    limit: int,
    out: Seq<LocationInfo<C>>,
    a: int,
    b: int,
)
    requires
        is_ranking(infos, by_distance, limit, out),
        0 <= a < b < out.len(),
    ensures
        sort_key(out[a], by_distance) <= sort_key(out[b], by_distance),
{
    let keys = sort_keys(infos, by_distance);
    let order = choose|order: Seq<usize>| #[trigger]
        is_stable_order(keys, order) && picks(infos, order, limit, out);
    lemma_stable_order_ascends(keys, order, a, b);
    assert(out[a] == infos[order[a] as int]);
    assert(out[b] == infos[order[b] as int]);
}

/// A ranking is determined by its input: two rankings of the same results
/// under the same rule and limit are equal.
pub proof fn lemma_ranking_is_unique<C>(
    infos: Seq<LocationInfo<C>>,
    by_distance: bool,
    limit: int,
    out1: Seq<LocationInfo<C>>,
    out2: Seq<LocationInfo<C>>,
)
    requires
        is_ranking(infos, by_distance, limit, out1),
        is_ranking(infos, by_distance, limit, out2),
    ensures
        out1 == out2,
{
    let keys = sort_keys(infos, by_distance);
    let o1 = choose|order: Seq<usize>| #[trigger]
        is_stable_order(keys, order) && picks(infos, order, limit, out1);
    let o2 = choose|order: Seq<usize>| #[trigger]
        is_stable_order(keys, order) && picks(infos, order, limit, out2);
    lemma_stable_order_is_unique(keys, o1, o2);
    assert(out1 =~= out2);
}

impl<C: Copy> LocationInfo<C> {
    /// A copy of this result.
    pub fn duplicate(&self) -> (r: LocationInfo<C>)
        ensures
            r == *self,
    {
        LocationInfo {
            level: self.level.clone(),
            id: self.id.clone(),
            name: self.name.clone(),
            location_detail: LocationDetail {
                province: self.location_detail.province.clone(),
                regency: self.location_detail.regency.clone(),
                district: self.location_detail.district.clone(),
                village: self.location_detail.village.clone(),
            },
            full_name: self.full_name.clone(),
            centroid: self.centroid,
            distance_meters: self.distance_meters,
        }
    }
}

/// Orders results by distance or by the length of their names, and keeps the
/// first `limit`.
pub fn rank<C: Copy>(infos: &Vec<LocationInfo<C>>, by_distance: bool, limit: usize) -> (out: Vec<
    LocationInfo<C>,
>)
    ensures
        is_ranking(infos@, by_distance, limit as int, out@),
{
    let n: usize = infos.len();
    let mut keys: Vec<i128> = Vec::new();
    let mut i: usize = 0;
    while i < n
        invariant
            i <= n,
            n == infos@.len(),
            keys@ == sort_keys(infos@, by_distance).subrange(0, i as int),
        decreases n - i,
    {
        let key: i128 = if by_distance {
            match infos[i].distance_meters {
                Some(d) => d as i128,
                None => NO_DISTANCE as i128,
            }
        } else {
            infos[i].name.as_str().unicode_len() as i128
        };
        keys.push(key);
        assert(keys@ =~= sort_keys(infos@, by_distance).subrange(0, i + 1));
        i += 1;
    }
    assert(keys@ =~= sort_keys(infos@, by_distance));
    let order = rank_order(&keys);
    let count: usize = if limit < n { limit } else { n };
    let mut out: Vec<LocationInfo<C>> = Vec::new();
    let mut k: usize = 0;
    while k < count
        invariant
            k <= count,
            count <= n,
            n == infos@.len(),
            out@.len() == k,
            is_stable_order(sort_keys(infos@, by_distance), order@),
            forall|j: int| 0 <= j < k ==> #[trigger] out@[j] == infos@[order@[j] as int],
        decreases count - k,
    {
        out.push(infos[order[k]].duplicate());
        k += 1;
    }
    assert(picks(infos@, order@, limit as int, out@));
    out
}

/// The distance a result shows: that of the candidate where results are
/// ranked by distance, none otherwise.
pub open spec fn shown_distance<C>(row: Candidate<C>, by_distance: bool) -> Option<i64> {
    if by_distance {
        row.distance_meters
    } else {
        None
    }
}

/// `infos` presents the villages of `pool` in order, each with its distance
/// where results are ranked by distance, and with none otherwise.
pub open spec fn presents<C>(
    rows: Seq<Candidate<C>>,
    pool: Seq<usize>,
    by_distance: bool,
    infos: Seq<LocationInfo<C>>,
) -> bool {
    &&& infos.len() == pool.len()
    &&& forall|k: int|
        0 <= k < pool.len() ==> (#[trigger] pool[k]) < rows.len() && describes(
            infos[k],
            rows[pool[k] as int].village,
            shown_distance(rows[pool[k] as int], by_distance),
        )
}

/// `out` answers a search for `keywords` over `rows`: the matching candidates,
/// the first `POOL_CAP` at most, presented, ranked and cut to `limit`.
pub open spec fn is_search_result<C>(
    rows: Seq<Candidate<C>>,
    keywords: Seq<Seq<char>>,
    by_distance: bool,
    limit: int,
    out: Seq<LocationInfo<C>>,
) -> bool {
    exists|pool: Seq<usize>, infos: Seq<LocationInfo<C>>|
        is_pool(rows, keywords, pool) && #[trigger] presents(rows, pool, by_distance, infos)
            && is_ranking(infos, by_distance, limit, out)
}

/// Every result of a search presents a candidate whose village matches every
/// keyword.
pub proof fn lemma_results_match_every_keyword<C>(
    rows: Seq<Candidate<C>>,
    keywords: Seq<Seq<char>>,
    by_distance: bool,
    limit: int,
    out: Seq<LocationInfo<C>>,
    k: int,
)
    requires
        is_search_result(rows, keywords, by_distance, limit, out),
        0 <= k < out.len(),
    ensures
        exists|i: int|
            0 <= i < rows.len() && matches_all(rows[i].village, keywords) && #[trigger] describes(
                out[k],
                rows[i].village,
                shown_distance(rows[i], by_distance),
            ),
{
    let (pool, infos) = choose|pool: Seq<usize>, infos: Seq<LocationInfo<C>>|
        is_pool(rows, keywords, pool) && #[trigger] presents(rows, pool, by_distance, infos)
            && is_ranking(infos, by_distance, limit, out);
    let order = choose|order: Seq<usize>| #[trigger]
        is_stable_order(sort_keys(infos, by_distance), order) && picks(infos, order, limit, out);
    let j = order[k] as int;
    assert(out[k] == infos[j]);
    let i = pool[j] as int;
    assert(matches_all(rows[i].village, keywords));
    assert(describes(
        out[k],
        rows[i].village,
        shown_distance(rows[i], by_distance),
    ));
}

/// Presents the candidates of a pool.
pub fn present_pool<C: Copy>(
    rows: &Vec<Candidate<C>>,
    pool: &Vec<usize>,
    by_distance: bool,
) -> (infos: Vec<LocationInfo<C>>)
    requires
        forall|k: int| 0 <= k < pool@.len() ==> (#[trigger] pool@[k]) < rows@.len(),
    ensures
        presents(rows@, pool@, by_distance, infos@),
{
    let mut infos: Vec<LocationInfo<C>> = Vec::new();
    let mut k: usize = 0;
    while k < pool.len()
        invariant
            k <= pool.len(),
            forall|k: int| 0 <= k < pool@.len() ==> (#[trigger] pool@[k]) < rows@.len(),
            presents(rows@, pool@.subrange(0, k as int), by_distance, infos@),
        decreases pool.len() - k,
    {
        let row = &rows[pool[k]];
        let distance = if by_distance {
            row.distance_meters
        } else {
            None
        };
        let ghost before = infos@;
        infos.push(location_info(&row.village, distance));
        proof {
            let part = pool@.subrange(0, k + 1);
            assert forall|j: int| 0 <= j < part.len() implies (#[trigger] part[j]) < rows@.len()
                && describes(
                infos@[j],
                rows@[part[j] as int].village,
                shown_distance(rows@[part[j] as int], by_distance),
            ) by {
                if j < k {
                    assert(pool@.subrange(0, k as int)[j] == part[j]);
                    assert(infos@[j] == before[j]);
                }
            }
        }
        k += 1;
    }
    assert(pool@.subrange(0, k as int) =~= pool@);
    infos
}

/// Searches `rows` for the villages that match every keyword of `query`.
///
/// A query without keywords has no results. Otherwise the matching candidates,
/// the first `POOL_CAP` at most, are ranked by distance where `by_distance`
/// says that a reference point was supplied, and by the length of their names
/// otherwise; the first `limit_of(limit)` are returned.
pub fn search_text<C: Copy>(
    query: &str,
    limit: usize,
    rows: &Vec<Candidate<C>>,
    by_distance: bool,
) -> (out: Vec<LocationInfo<C>>)
    ensures
        keywords_of(query@).len() == 0 ==> out@.len() == 0,
        keywords_of(query@).len() > 0 ==> is_search_result(
            rows@,
            keywords_of(query@),
            by_distance,
            limit_of(limit) as int,
            out@,
        ),
        (forall|k: int| 0 <= k < query@.len() ==> is_space(#[trigger] query@[k])) ==> out@.len()
            == 0,
        out@.len() <= limit_of(limit),
{
    let words = keywords(query);
    if words.len() == 0 {
        return Vec::new();
    }
    let pool = candidate_pool(rows, &words);
    let infos = present_pool(rows, &pool, by_distance);
    rank(&infos, by_distance, effective_limit(limit))
}

} // verus!
