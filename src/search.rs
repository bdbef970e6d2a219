//! The search driver: the best route from one city, and the best city of the board.

use vstd::prelude::*;
use vstd::slice::slice_to_vec;

use crate::city::{all_cities, lemma_idx_at, City, CITY_COUNT};
use crate::network::create_network;
use crate::routing::{admitted_route, enumerated, routes_view, traverse};
use crate::scoring::{lemma_route_score_fits, route_score, score_on};

verus! {

/// Whether position `i` holds the largest value of `s`, with no value as large before it.
pub open spec fn is_first_max(s: Seq<u16>, i: int) -> bool {
    &&& 0 <= i < s.len()
    &&& forall|j: int| 0 <= j < s.len() ==> s[j] <= s[i]
    &&& forall|j: int| 0 <= j < i ==> s[j] < s[i]
}

/// Whether route `i` of `routes` has the highest score, with no route scoring as much before it.
pub open spec fn is_best_route(routes: Seq<Seq<City>>, i: int) -> bool {
    &&& 0 <= i < routes.len()
    &&& forall|j: int| 0 <= j < routes.len() ==> route_score(routes[j]) <= route_score(routes[i])
    &&& forall|j: int| 0 <= j < i ==> route_score(routes[j]) < route_score(routes[i])
}

/// Whether `score` is the best score of the routes admitted from `c`.
pub open spec fn is_best_score(c: City, score: nat) -> bool {
    exists|i: int| is_best_route(enumerated(c), i) && score == route_score(enumerated(c)[i])
}

/// Whether every route admitted from `c` scores at most `score`.
pub open spec fn scores_at_most(c: City, score: nat) -> bool {
    forall|j: int| 0 <= j < enumerated(c).len() ==> route_score(enumerated(c)[j]) <= score
}

/// Whether every route admitted from `c` scores less than `score`.
pub open spec fn scores_below(c: City, score: nat) -> bool {
    forall|j: int| 0 <= j < enumerated(c).len() ==> route_score(enumerated(c)[j]) < score
}

/// The position of the largest value of `s`; the first one where several are equal, and
/// `None` when `s` is empty.
pub fn max_key(s: &[u16]) -> (r: Option<usize>)
    ensures
        r is None <==> s@.len() == 0,
        r matches Some(i) ==> is_first_max(s@, i as int),
{
    if s.len() == 0 {
        return None;
    }
    let mut best: usize = 0;
    let mut k: usize = 1;
    while k < s.len()
        invariant
            1 <= k <= s@.len(),
            best < k,
            forall|j: int| 0 <= j < k ==> s@[j] <= s@[best as int],
            forall|j: int| 0 <= j < best ==> s@[j] < s@[best as int],
        decreases s@.len() - k,
    {
        if s[k] > s[best] {
            best = k;
        }
        k += 1;
    }
    Some(best)
}

/// The route of highest score from `start` with its score, or `None` when the search admits no
/// route from there. Where several routes share the highest score, the first one found wins.
pub fn find_max(start: City) -> (r: Option<(Vec<City>, u16)>)
    ensures
        r is None <==> enumerated(start).len() == 0,
        r matches Some((route, score)) ==> exists|i: int|
            is_best_route(enumerated(start), i) && route@ == enumerated(start)[i] && score
                == route_score(route@),
{
    let routes = traverse(start);
    let net = create_network();
    let ghost found = routes_view(routes@);
    let mut scores: Vec<u16> = Vec::new();
    let mut k: usize = 0;
    while k < routes.len()
        invariant
            net.wf(),
            k <= routes@.len(),
            found == routes_view(routes@),
            forall|j: int| 0 <= j < routes@.len() ==> admitted_route(#[trigger] routes@[j]@, start),
            scores@.len() == k,
            forall|j: int| 0 <= j < k ==> scores@[j] == route_score(#[trigger] routes@[j]@),
        decreases routes@.len() - k,
    {
        let route = routes[k].as_slice();
        proof {
            assert(admitted_route(routes@[k as int]@, start));
            lemma_route_score_fits(route@);
        }
        scores.push(score_on(&net, route));
        k += 1;
    }
    match max_key(scores.as_slice()) {
        None => None,
        Some(i) => {
            let best = slice_to_vec(routes[i].as_slice());
            proof {
                assert(found.len() == routes@.len());
                assert forall|j: int| 0 <= j < found.len() implies #[trigger] route_score(found[j])
                    == scores@[j] by {
                    assert(found[j] == routes@[j]@);
                }
                assert(is_best_route(found, i as int));
            }
            Some((best, scores[i]))
        },
    }
}

/// The city whose best route scores highest, with that score; `None` when the search admits
/// no route from any city. Where several cities share the highest score, the first in the
/// numbering of the cities wins.
pub fn find_best_city() -> (r: Option<(City, u16)>)
    ensures
        r is None <==> forall|c: City| #[trigger] enumerated(c).len() == 0,
        r matches Some((c, score)) ==> {
            &&& is_best_score(c, score as nat)
            &&& forall|d: City| #[trigger] scores_at_most(d, score as nat)
            &&& forall|d: City| d.idx() < c.idx() ==> #[trigger] scores_below(d, score as nat)
        },
{
    let cities = all_cities();
    let mut best: Option<(City, u16)> = None;
    let mut k: usize = 0;
    while k < CITY_COUNT
        invariant
            k <= CITY_COUNT,
            cities@.len() == CITY_COUNT,
            forall|i: int| 0 <= i < CITY_COUNT ==> (#[trigger] cities@[i]).idx() == i,
            best is None <==> forall|d: City| d.idx() < k ==> #[trigger] enumerated(d).len() == 0,
            best matches Some((c, score)) ==> {
                &&& c.idx() < k
                &&& is_best_score(c, score as nat)
                &&& forall|d: City| d.idx() < k ==> #[trigger] scores_at_most(d, score as nat)
                &&& forall|d: City| d.idx() < c.idx() ==> #[trigger] scores_below(d, score as nat)
            },
        decreases CITY_COUNT - k,
    {
        let c = cities[k];
        let ghost prev = best;
        let here = find_max(c);
        match here {
            None => {},
            Some((_, score)) => {
                let better = match best {
                    None => true,
                    Some((_, top)) => score > top,
                };
                if better {
                    best = Some((c, score));
                }
                proof {
                    let i = choose|i: int|
                        is_best_route(enumerated(c), i) && score == route_score(
                            enumerated(c)[i],
                        );
                    assert(scores_at_most(c, score as nat));
                }
            },
        }
        proof {
            assert forall|d: City| d.idx() == k implies d == c by {
                crate::city::lemma_idx_injective(d, c);
            }
            if let Some((b, top)) = best {
                assert forall|d: City| d.idx() < k + 1 implies #[trigger] scores_at_most(
                    d,
                    top as nat,
                ) by {
                    if d.idx() < k {
                        if let Some((_, p)) = prev {
                            assert(scores_at_most(d, p as nat));
                        }
                    }
                }
                assert forall|d: City| d.idx() < b.idx() implies #[trigger] scores_below(
                    d,
                    top as nat,
                ) by {
                    if let Some((_, p)) = prev {
                        if d.idx() < k {
                            assert(scores_at_most(d, p as nat));
                        }
                    }
                }
            }
        }
        k += 1;
    }
    proof {
        assert forall|d: City| d.idx() < CITY_COUNT by {
            lemma_idx_at(d);
        }
    }
    best
}

} // verus!
