//! Shortest connections between cities, by the number of trains they take.

use vstd::prelude::*;

use crate::city::{all_cities, lemma_idx_at, lemma_idx_injective, City, CITY_COUNT};
use crate::network::{board_neighbors, create_network};
use crate::routing::{count_false, lemma_count_false_bound, lemma_count_false_set, TRAINS};

verus! {

/// The distance recorded for a city that no route within the budget reaches.
pub const UNREACHED: u8 = 100;

/// Whether the board connects `a` to `b` with a connection of `w` trains.
pub open spec fn connects(a: City, b: City, w: u8) -> bool {
    board_neighbors(a).contains((b, w))
}

/// Whether the distances `d` and predecessors `p`, indexed by city number, describe routes from
/// `source`: `source` is at distance 0; every other city is either unreached, or reached within
/// the budget through its predecessor, over a connection whose trains make up the difference.
pub open spec fn paths_sound(source: City, d: Seq<u8>, p: Seq<Option<City>>) -> bool {
    &&& d.len() == CITY_COUNT
    &&& p.len() == CITY_COUNT
    &&& d[source.idx() as int] == 0
    &&& p[source.idx() as int] is None
    &&& forall|c: City|
        #![trigger d[c.idx() as int]]
        d[c.idx() as int] == UNREACHED || d[c.idx() as int] <= TRAINS
    &&& forall|c: City|
        #![trigger p[c.idx() as int]]
        c != source ==> (d[c.idx() as int] != UNREACHED <==> p[c.idx() as int] is Some)
    &&& forall|c: City|
        #![trigger p[c.idx() as int]]
        p[c.idx() as int] matches Some(q) ==> exists|w: u8|
            connects(q, c, w) && d[c.idx() as int] == d[q.idx() as int] + w
}

/// Whether no connection from `u` leads to a shorter distance within the budget than the one
/// recorded in `d`.
pub open spec fn relaxed_from(d: Seq<u8>, u: City) -> bool {
    forall|v: City, w: u8|
        #[trigger] connects(u, v, w) && d[u.idx() as int] + w <= TRAINS ==> d[v.idx() as int]
            <= d[u.idx() as int] + w
}

/// Whether every settled city is at most as far as every unsettled one, and no connection from
/// a settled city can still shorten a distance.
spec fn settled_ok(d: Seq<u8>, settled: Seq<bool>) -> bool {
    &&& forall|x: City, y: City|
        #![trigger settled[x.idx() as int], settled[y.idx() as int]]
        settled[x.idx() as int] && !settled[y.idx() as int] ==> d[x.idx() as int]
            <= d[y.idx() as int]
    &&& forall|x: City| #![trigger settled[x.idx() as int]] settled[x.idx() as int] ==> relaxed_from(d, x)
}

/// The first unsettled city of least distance, if any city is unsettled.
fn closest_unsettled(d: &Vec<u8>, settled: &Vec<bool>) -> (r: Option<City>)
    requires
        d@.len() == CITY_COUNT,
        settled@.len() == CITY_COUNT,
    ensures
        r is None ==> forall|c: City| #[trigger] settled@[c.idx() as int],
        r matches Some(u) ==> {
            &&& !settled@[u.idx() as int]
            &&& forall|c: City|
                !settled@[c.idx() as int] ==> d@[u.idx() as int] <= #[trigger] d@[c.idx() as int]
        },
{
    let cities = all_cities();
    let mut best: Option<City> = None;
    let mut k: usize = 0;
    while k < CITY_COUNT
        invariant
            k <= CITY_COUNT,
            d@.len() == CITY_COUNT,
            settled@.len() == CITY_COUNT,
            cities@.len() == CITY_COUNT,
            forall|i: int| 0 <= i < CITY_COUNT ==> (#[trigger] cities@[i]).idx() == i,
            best is None ==> forall|c: City| c.idx() < k ==> #[trigger] settled@[c.idx() as int],
            best matches Some(u) ==> {
                &&& !settled@[u.idx() as int]
                &&& forall|c: City|
                    c.idx() < k && !settled@[c.idx() as int] ==> d@[u.idx() as int]
                        <= #[trigger] d@[c.idx() as int]
            },
        decreases CITY_COUNT - k,
    {
        let c = cities[k];
        if !settled[k] {
            match best {
                None => {
                    best = Some(c);
                },
                Some(u) => {
                    if d[k] < d[u.index()] {
                        best = Some(c);
                    }
                },
            }
        }
        proof {
            assert forall|x: City| x.idx() == k implies x == c by {
                lemma_idx_injective(x, c);
            }
        }
        k += 1;
    }
    proof {
        assert forall|c: City| c.idx() < CITY_COUNT by {
            lemma_idx_at(c);
        }
    }
    best
}

/// Shortest distances from `source`, in trains, to every city, with the predecessor of each
/// city on a shortest route; both indexed by city number.
///
/// Cities are settled closest first, the first in the numbering among equals. Distances beyond
/// the `TRAINS` of a player are not recorded: such cities stay at `UNREACHED`. When `stop` is
/// set, the search ends as soon as `arrival` is the next city to settle.
pub fn dijkstra(source: City, arrival: City, stop: bool) -> (r: (Vec<u8>, Vec<Option<City>>))
    ensures
        paths_sound(source, r.0@, r.1@),
        forall|u: City|
            (!stop || r.0@[u.idx() as int] < r.0@[arrival.idx() as int]) ==> #[trigger] relaxed_from(
                r.0@,
                u,
            ),
{
    let net = create_network();
    let mut d: Vec<u8> = Vec::new();
    let mut p: Vec<Option<City>> = Vec::new();
    let mut settled: Vec<bool> = Vec::new();
    let mut k: usize = 0;
    while k < CITY_COUNT
        invariant
            k <= CITY_COUNT,
            d@ == Seq::new(k as nat, |i: int| UNREACHED),
            p@ == Seq::new(k as nat, |i: int| None::<City>),
            settled@ == Seq::new(k as nat, |i: int| false),
        decreases CITY_COUNT - k,
    {
        d.push(UNREACHED);
        p.push(None);
        settled.push(false);
        k += 1;
        assert(d@ =~= Seq::new(k as nat, |i: int| UNREACHED));
        assert(p@ =~= Seq::new(k as nat, |i: int| None::<City>));
        assert(settled@ =~= Seq::new(k as nat, |i: int| false));
    }
    d.set(source.index(), 0);
    let mut left: usize = CITY_COUNT;
    proof {
        lemma_idx_at(source);
        assert forall|c: City| c != source implies d@[c.idx() as int] == UNREACHED by {
            lemma_idx_injective(c, source);
            lemma_idx_at(c);
        }
        assert forall|c: City| #[trigger] d@[c.idx() as int] == UNREACHED || d@[c.idx() as int]
            <= TRAINS by {
            lemma_idx_at(c);
        }
        assert forall|c: City| #[trigger] p@[c.idx() as int] is None by {
            lemma_idx_at(c);
        }
        assert forall|c: City| !#[trigger] settled@[c.idx() as int] by {
            lemma_idx_at(c);
        }
        let s = Seq::new(CITY_COUNT as nat, |i: int| false);
        assert(count_false(s) == CITY_COUNT) by {
            assert forall|j: int| 0 <= j <= CITY_COUNT implies #[trigger] count_false(
                s.subrange(0, j),
            ) == j by {
                lemma_count_false_prefix(s, j);
            }
            assert(s.subrange(0, CITY_COUNT as int) =~= s);
        }
    }
    loop
        invariant
            net.wf(),
            paths_sound(source, d@, p@),
            settled@.len() == CITY_COUNT,
            left == count_false(settled@),
            settled_ok(d@, settled@),
            forall|c: City| #[trigger] p@[c.idx() as int] matches Some(q) ==> settled@[q.idx() as int],
            stop ==> !settled@[arrival.idx() as int],
        ensures
            paths_sound(source, d@, p@),
            forall|u: City|
                (!stop || d@[u.idx() as int] < d@[arrival.idx() as int]) ==> #[trigger] relaxed_from(
                    d@,
                    u,
                ),
        decreases left,
    {
        let u = match closest_unsettled(&d, &settled) {
            Some(u) => u,
            None => {
                proof {
                    assert forall|x: City| #[trigger] relaxed_from(d@, x) by {
                        assert(settled@[x.idx() as int]);
                    }
                }
                break;
            },
        };
        if u == arrival && stop {
            proof {
                assert forall|x: City| d@[x.idx() as int] < d@[arrival.idx() as int] implies #[trigger] relaxed_from(
                    d@,
                    x,
                ) by {
                    assert(settled@[x.idx() as int]);
                }
            }
            break;
        }
        let ghost s0 = settled@;
        proof {
            lemma_idx_at(u);
            lemma_count_false_bound(s0);
            lemma_count_false_set(s0, u.idx() as int);
        }
        settled.set(u.index(), true);
        left = left - 1;
        let ns = net.neighbors(u);
        let du = d[u.index()];
        proof {
            assert forall|x: City| #[trigger] settled@[x.idx() as int] implies d@[x.idx() as int]
                <= du by {
                lemma_idx_injective(x, u);
                lemma_idx_at(x);
                if x != u {
                    assert(s0[x.idx() as int] && !s0[u.idx() as int]);
                }
            }
            assert forall|x: City, y: City|
                #![trigger settled@[x.idx() as int], settled@[y.idx() as int]]
                settled@[x.idx() as int] && !settled@[y.idx() as int] implies d@[x.idx() as int]
                <= d@[y.idx() as int] by {
                lemma_idx_injective(x, u);
                lemma_idx_injective(y, u);
                lemma_idx_at(x);
                lemma_idx_at(y);
                if x != u {
                    assert(s0[x.idx() as int] && !s0[y.idx() as int]);
                } else {
                    assert(!s0[y.idx() as int]);
                }
            }
            assert forall|x: City| #[trigger] settled@[x.idx() as int] && x != u implies relaxed_from(
                d@,
                x,
            ) by {
                lemma_idx_injective(x, u);
                lemma_idx_at(x);
                assert(s0[x.idx() as int]);
            }
            assert forall|c: City| #[trigger] p@[c.idx() as int] matches Some(q) ==> settled@[
                q.idx() as int
            ] by {
                if let Some(q) = p@[c.idx() as int] {
                    lemma_idx_at(q);
                    assert(s0[q.idx() as int]);
                }
            }
        }
        let mut j: usize = 0;
        while j < ns.len()
            invariant
                net.wf(),
                ns@ == board_neighbors(u),
                j <= ns@.len(),
                paths_sound(source, d@, p@),
                settled@.len() == CITY_COUNT,
                settled@[u.idx() as int],
                du == d@[u.idx() as int],
                forall|x: City| #[trigger] settled@[x.idx() as int] ==> d@[x.idx() as int] <= du,
                forall|x: City, y: City|
                    #![trigger settled@[x.idx() as int], settled@[y.idx() as int]]
                    settled@[x.idx() as int] && !settled@[y.idx() as int] ==> d@[x.idx() as int]
                        <= d@[y.idx() as int],
                forall|x: City| #[trigger] settled@[x.idx() as int] && x != u ==> relaxed_from(d@, x),
                forall|c: City| #[trigger] p@[c.idx() as int] matches Some(q) ==> settled@[q.idx() as int],
                forall|i: int|
                    0 <= i < j ==> settled@[(#[trigger] ns@[i]).0.idx() as int] || du + ns@[i].1
                        > TRAINS || d@[ns@[i].0.idx() as int] <= du + ns@[i].1,
            decreases ns@.len() - j,
        {
            let v = ns[j].0;
            let w = ns[j].1;
            let ghost d1 = d@;
            let ghost p1 = p@;
            if !settled[v.index()] {
                let alt: u16 = du as u16 + w as u16;
                if alt < d[v.index()] as u16 && alt <= TRAINS as u16 {
                    d.set(v.index(), alt as u8);
                    p.set(v.index(), Some(u));
                    proof {
                        lemma_idx_at(v);
                        lemma_idx_at(source);
                        assert(v != u);
                        assert(v != source);
                        assert(board_neighbors(u)[j as int] == (v, w));
                        assert(connects(u, v, w));
                        assert forall|c: City| c != v implies #[trigger] d@[c.idx() as int]
                            == d1[c.idx() as int] && p@[c.idx() as int] == p1[c.idx() as int] by {
                            lemma_idx_injective(c, v);
                            lemma_idx_at(c);
                        }
                        assert(paths_sound(source, d@, p@)) by {
                            assert forall|c: City| #[trigger] p@[c.idx() as int] matches Some(q)
                                ==> exists|w2: u8|
                                connects(q, c, w2) && d@[c.idx() as int] == d@[q.idx() as int]
                                    + w2 by {
                                if c == v {
                                    assert(d@[u.idx() as int] == du);
                                } else if p1[c.idx() as int] is Some {
                                    let q = p1[c.idx() as int]->Some_0;
                                    lemma_idx_at(q);
                                    assert(settled@[q.idx() as int]);
                                    assert(q != v);
                                    assert(d@[q.idx() as int] == d1[q.idx() as int]);
                                }
                            }
                            assert forall|c: City| #[trigger] d@[c.idx() as int] == UNREACHED
                                || d@[c.idx() as int] <= TRAINS by {
                                if c != v {
                                    assert(d1[c.idx() as int] == UNREACHED || d1[c.idx() as int]
                                        <= TRAINS);
                                }
                            }
                            assert forall|c: City| c != source implies (#[trigger] p@[c.idx() as int]
                                is Some <==> d@[c.idx() as int] != UNREACHED) by {
                                if c != v {
                                    assert(p1[c.idx() as int] is Some <==> d1[c.idx() as int]
                                        != UNREACHED);
                                }
                            }
                        }
                        assert forall|x: City| #[trigger] settled@[x.idx() as int] && x != u implies relaxed_from(
                            d@,
                            x,
                        ) by {
                            assert(relaxed_from(d1, x));
                            assert(x != v);
                            assert forall|y: City, w2: u8| #[trigger] connects(x, y, w2)
                                && d@[x.idx() as int] + w2 <= TRAINS implies d@[y.idx() as int]
                                <= d@[x.idx() as int] + w2 by {
                                assert(d1[y.idx() as int] <= d1[x.idx() as int] + w2);
                                if y != v {
                                    assert(d@[y.idx() as int] == d1[y.idx() as int]);
                                }
                            }
                        }
                        assert forall|x: City, y: City|
                            #![trigger settled@[x.idx() as int], settled@[y.idx() as int]]
                            settled@[x.idx() as int] && !settled@[y.idx() as int] implies d@[
                                x.idx() as int
                            ] <= d@[y.idx() as int] by {
                            assert(x != v);
                        }
                        assert forall|i: int| 0 <= i < j + 1 implies settled@[(
                            #[trigger] ns@[i]).0.idx() as int] || du + ns@[i].1 > TRAINS
                            || d@[ns@[i].0.idx() as int] <= du + ns@[i].1 by {
                            let y = ns@[i].0;
                            if y != v {
                                assert(d@[y.idx() as int] == d1[y.idx() as int]);
                            }
                        }
                    }
                }
            }
            j += 1;
        }
        proof {
            assert forall|y: City, w2: u8| #[trigger] connects(u, y, w2) && d@[u.idx() as int] + w2
                <= TRAINS implies d@[y.idx() as int] <= d@[u.idx() as int] + w2 by {
                let i = choose|i: int| 0 <= i < ns@.len() && ns@[i] == (y, w2);
                if settled@[y.idx() as int] {
                    assert(d@[y.idx() as int] <= du);
                }
            }
            assert forall|x: City| #[trigger] settled@[x.idx() as int] implies relaxed_from(d@, x) by {
                if x != u {
                    assert(relaxed_from(d@, x));
                }
            }
            if stop {
                assert(u != arrival);
                lemma_idx_injective(u, arrival);
            }
        }
    }
    (d, p)
}

/// Each entry of an all-unset sequence counts.
proof fn lemma_count_false_prefix(s: Seq<bool>, j: int)
    requires
        0 <= j <= s.len(),
        forall|i: int| 0 <= i < s.len() ==> !#[trigger] s[i],
    ensures
        count_false(s.subrange(0, j)) == j,
    decreases j,
{
    if j > 0 {
        lemma_count_false_prefix(s, j - 1);
        assert(s.subrange(0, j).drop_last() =~= s.subrange(0, j - 1));
    }
}

} // verus!
