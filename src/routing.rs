//! Enumeration of the routes that a player can lay from one city with a budget of trains.
//!
//! The search is an explicit state machine: the route being laid, the trains left, a ledger of
//! the connections already tried from each city, and whether the last move was a step back.
//! `step` gives one transition; `traverse` runs it to the end and keeps the routes admitted on
//! the way.

use vstd::prelude::*;
use vstd::relations::injective_on;
use vstd::set_lib::{lemma_int_range, lemma_len_subset, lemma_map_size, set_int_range};
use vstd::slice::slice_to_vec;

use crate::city::{lemma_idx_at, lemma_idx_injective, City, CITY_COUNT};
use crate::network::{
    board_neighbors, board_weight, create_network, is_track_route, leg_trains,
    lemma_weight_in_first, route_trains, Network,
};
use crate::scoring::{big_ticket_score, tickets_score};
use crate::tickets::big_tickets;

pub use crate::shortest::{dijkstra, UNREACHED};

verus! {

/// The trains that a player has for the whole game.
pub const TRAINS: u8 = 45;

/// A route is kept only if at most this many trains are left when it cannot be extended.
/// This threshold is a tuning value of the search, not derived from the rules of the game; it
/// decides which routes are ever compared.
pub const ADMISSION_SLACK: u8 = 2;

/// Number of entries of the ledger: one for each ordered pair of cities.
pub const LEDGER_SIZE: usize = CITY_COUNT * CITY_COUNT;

/// The state of the search.
pub struct Walk {
    /// The route being laid, from the starting city.
    pub route: Seq<City>,
    /// The trains left.
    pub budget: int,
    /// The ledger: entry `slot(u, v)` is set once the connection from `u` to `v` has been tried.
    pub visited: Seq<bool>,
    /// Whether the last move was a step back.
    pub backtracking: bool,
    /// The routes admitted so far, in the order in which they were found.
    pub found: Seq<Seq<City>>,
}

/// The entry of the ledger for the connection from `u` to `v`.
pub open spec fn slot(u: City, v: City) -> int {
    u.idx() * CITY_COUNT + v.idx()
}

/// The ledger entries of the connections from `u`.
pub open spec fn row(visited: Seq<bool>, u: City) -> Seq<bool> {
    visited.subrange(u.idx() * CITY_COUNT, u.idx() * CITY_COUNT + CITY_COUNT)
}

/// The ledger with every connection from `u` marked as not tried.
pub open spec fn clear_row(visited: Seq<bool>, u: City) -> Seq<bool> {
    Seq::new(
        visited.len(),
        |p: int|
            if u.idx() * CITY_COUNT <= p < u.idx() * CITY_COUNT + CITY_COUNT {
                false
            } else {
                visited[p]
            },
    )
}

/// Whether the route may go on from `u` to `v`: not tried yet from `u`, and not on the route.
pub open spec fn is_candidate(route: Seq<City>, visited: Seq<bool>, u: City, v: City) -> bool {
    !visited[slot(u, v)] && !route.contains(v)
}

/// The position of the first neighbour from `i` on in `ns` where the route may go on.
pub open spec fn first_candidate(
    route: Seq<City>,
    visited: Seq<bool>,
    ns: Seq<(City, u8)>,
    u: City,
    i: int,
) -> Option<int>
    decreases ns.len() - i,
{
    if i < 0 || i >= ns.len() {
        None
    } else if is_candidate(route, visited, u, ns[i].0) {
        Some(i)
    } else {
        first_candidate(route, visited, ns, u, i + 1)
    }
}

/// Whether a route that cannot be extended, with `budget` trains left, is kept: it must
/// complete a big ticket and leave at most `ADMISSION_SLACK` trains.
pub open spec fn admits(route: Seq<City>, budget: int) -> bool {
    tickets_score(big_tickets(), route) > 0 && budget <= ADMISSION_SLACK
}

/// The state in which the search from `source` begins.
pub open spec fn start(source: City) -> Walk {
    Walk {
        route: seq![source],
        budget: TRAINS as int,
        visited: Seq::new(LEDGER_SIZE as nat, |p: int| false),
        backtracking: false,
        found: seq![],
    }
}

/// One transition of the search.
///
/// From the last city `u` of the route, the first neighbour `v` (in the order of the network)
/// not tried from `u` and not on the route is taken. If the connection fits in the budget the
/// route goes on to `v`, and the connection is marked as tried from both ends; otherwise it is
/// marked as tried from `u` only. When no such neighbour is left, the route is recorded if this
/// is the first dead end since the last move forward and it is admitted; then `u` is taken off
/// the route, its ledger is cleared, and the trains of the last connection are given back.
/// A search whose route is empty has ended and stays as it is.
pub open spec fn step(w: Walk) -> Walk {
    if w.route.len() == 0 {
        w
    } else {
        let u = w.route.last();
        let ns = board_neighbors(u);
        match first_candidate(w.route, w.visited, ns, u, 0) {
            Some(i) => {
                let v = ns[i].0;
                let d = ns[i].1;
                if d <= w.budget {
                    Walk {
                        route: w.route.push(v),
                        budget: w.budget - d,
                        visited: w.visited.update(slot(u, v), true).update(slot(v, u), true),
                        backtracking: false,
                        found: w.found,
                    }
                } else {
                    Walk {
                        route: w.route,
                        budget: w.budget,
                        visited: w.visited.update(slot(u, v), true),
                        backtracking: w.backtracking,
                        found: w.found,
                    }
                }
            },
            None => {
                let rest = w.route.drop_last();
                Walk {
                    route: rest,
                    budget: if rest.len() > 0 {
                        w.budget + leg_trains(rest.last(), u)
                    } else {
                        w.budget
                    },
                    visited: clear_row(w.visited, u),
                    backtracking: true,
                    found: if !w.backtracking && admits(w.route, w.budget) {
                        w.found.push(w.route)
                    } else {
                        w.found
                    },
                }
            },
        }
    }
}

/// The state after `n` transitions from `w`.
pub open spec fn run(w: Walk, n: nat) -> Walk
    decreases n,
{
    if n == 0 {
        w
    } else {
        step(run(w, (n - 1) as nat))
    }
}

/// The routes that the search from `source` admits, in the order in which it finds them.
pub open spec fn enumerated(source: City) -> Seq<Seq<City>> {
    run(start(source), choose|n: nat| run(start(source), n).route.len() == 0).found
}

/// What holds of every admitted route from `source`: it starts at `source`, visits no city
/// twice, follows connections of the board, takes at most `TRAINS` trains and leaves at most
/// `ADMISSION_SLACK`, and completes a big ticket.
pub open spec fn admitted_route(r: Seq<City>, source: City) -> bool {
    &&& r.len() > 0
    &&& r[0] == source
    &&& r.no_duplicates()
    &&& is_track_route(r)
    &&& route_trains(r) <= TRAINS
    &&& TRAINS - route_trains(r) <= ADMISSION_SLACK
    &&& tickets_score(big_tickets(), r) > 0
}

/// What holds of every state that the search from `source` reaches.
pub open spec fn walk_wf(w: Walk, source: City) -> bool {
    &&& w.route.no_duplicates()
    &&& is_track_route(w.route)
    &&& 0 <= w.budget
    &&& w.budget + route_trains(w.route) == TRAINS
    &&& w.visited.len() == LEDGER_SIZE
    &&& w.route.len() > 0 ==> w.route[0] == source
    &&& forall|k: int| 0 <= k < w.found.len() ==> admitted_route(#[trigger] w.found[k], source)
}

/// Number of entries of `s` that are not set.
pub open spec fn count_false(s: Seq<bool>) -> nat
    decreases s.len(),
{
    if s.len() == 0 {
        0
    } else {
        count_false(s.drop_last()) + if s.last() {
            0nat
        } else {
            1nat
        }
    }
}

/// The weight of position `k` of the route in the rank of a state.
pub open spec fn place(k: int) -> nat
    decreases CITY_COUNT - k,
{
    if k >= CITY_COUNT {
        1
    } else {
        (CITY_COUNT as nat + 2) * place(k + 1)
    }
}

/// The rank of a state: each position of the route counts the connections still untried from
/// its city, weighted so that an earlier position outweighs all later ones together.
pub open spec fn stack_rank(route: Seq<City>, visited: Seq<bool>) -> nat
    decreases route.len(),
{
    if route.len() == 0 {
        0
    } else {
        stack_rank(route.drop_last(), visited) + (count_false(row(visited, route.last())) + 1)
            * place(route.len() - 1)
    }
}

/// The rank of a state of the search.
pub open spec fn rank(w: Walk) -> nat {
    stack_rank(w.route, w.visited)
}

/// A route of distinct cities has at most one position per city.
pub proof fn lemma_distinct_len(route: Seq<City>)
    requires
        route.no_duplicates(),
    ensures
        route.len() <= CITY_COUNT,
{
    let s = route.to_set();
    route.unique_seq_to_set();
    let f = |c: City| c.idx() as int;
    let m = s.map(f);
    assert(injective_on(f, s)) by {
        assert forall|a: City, b: City| s.contains(a) && s.contains(b) && #[trigger] f(a) == #[trigger] f(
            b,
        ) implies a == b by {
            lemma_idx_injective(a, b);
        }
    }
    lemma_map_size(s, m, f);
    lemma_int_range(0, CITY_COUNT as int);
    assert(m.subset_of(set_int_range(0, CITY_COUNT as int))) by {
        assert forall|x: int| m.contains(x) implies set_int_range(0, CITY_COUNT as int).contains(
            x,
        ) by {
            let c = choose|c: City| s.contains(c) && f(c) == x;
            lemma_idx_at(c);
        }
    }
    lemma_len_subset(m, set_int_range(0, CITY_COUNT as int));
}

/// A sequence has no more unset entries than entries.
pub proof fn lemma_count_false_bound(s: Seq<bool>)
    ensures
        count_false(s) <= s.len(),
        count_false(s) == 0 <==> forall|j: int| 0 <= j < s.len() ==> #[trigger] s[j],
    decreases s.len(),
{
    if s.len() > 0 {
        lemma_count_false_bound(s.drop_last());
        let p = s.drop_last();
        if count_false(s) == 0 {
            assert forall|j: int| 0 <= j < s.len() implies #[trigger] s[j] by {
                if j < p.len() {
                    assert(p[j] == s[j]);
                }
            }
        }
        if forall|j: int| 0 <= j < s.len() ==> #[trigger] s[j] {
            assert forall|j: int| 0 <= j < p.len() implies #[trigger] p[j] by {
                assert(p[j] == s[j]);
            }
            assert(s[s.len() - 1]);
        }
    }
}

/// Setting an unset entry leaves one unset entry fewer.
pub proof fn lemma_count_false_set(s: Seq<bool>, j: int)
    requires
        0 <= j < s.len(),
        !s[j],
    ensures
        count_false(s.update(j, true)) + 1 == count_false(s),
    decreases s.len(),
{
    let t = s.update(j, true);
    if j < s.len() - 1 {
        assert(t.drop_last() =~= s.drop_last().update(j, true));
        lemma_count_false_set(s.drop_last(), j);
    } else {
        assert(t.drop_last() =~= s.drop_last());
    }
}

/// Every position weighs at least one.
proof fn lemma_place_positive(k: int)
    ensures
        place(k) >= 1,
    decreases CITY_COUNT - k,
{
    if k < CITY_COUNT {
        lemma_place_positive(k + 1);
        let q = place(k + 1);
        assert(place(k) == 49 * q);
    }
}

/// The rank of a route depends only on the ledger rows of its own cities.
proof fn lemma_stack_rank_rows(route: Seq<City>, a: Seq<bool>, b: Seq<bool>)
    requires
        forall|k: int| 0 <= k < route.len() ==> row(a, #[trigger] route[k]) == row(b, route[k]),
    ensures
        stack_rank(route, a) == stack_rank(route, b),
    decreases route.len(),
{
    if route.len() > 0 {
        let p = route.drop_last();
        assert forall|k: int| 0 <= k < p.len() implies row(a, #[trigger] p[k]) == row(b, p[k]) by {
            assert(p[k] == route[k]);
        }
        lemma_stack_rank_rows(p, a, b);
        assert(row(a, route[route.len() - 1]) == row(b, route[route.len() - 1]));
    }
}

/// Setting an entry of the ledger leaves the rows of the other cities as they were.
proof fn lemma_row_update_other(visited: Seq<bool>, u: City, v: City, c: City, x: bool)
    requires
        visited.len() == LEDGER_SIZE,
        c != u,
    ensures
        row(visited.update(slot(u, v), x), c) == row(visited, c),
{
    lemma_idx_injective(c, u);
    lemma_idx_at(c);
    lemma_idx_at(u);
    lemma_idx_at(v);
    assert(row(visited.update(slot(u, v), x), c) =~= row(visited, c));
}

/// Setting an entry of the ledger sets that entry of its own row.
proof fn lemma_row_update_own(visited: Seq<bool>, u: City, v: City, x: bool)
    requires
        visited.len() == LEDGER_SIZE,
    ensures
        row(visited.update(slot(u, v), x), u) == row(visited, u).update(v.idx() as int, x),
        row(visited, u)[v.idx() as int] == visited[slot(u, v)],
        row(visited, u).len() == CITY_COUNT,
{
    lemma_idx_at(u);
    lemma_idx_at(v);
    assert(row(visited.update(slot(u, v), x), u) =~= row(visited, u).update(v.idx() as int, x));
}

/// Clearing the ledger row of `u` leaves the rows of the other cities as they were.
proof fn lemma_row_clear_other(visited: Seq<bool>, u: City, c: City)
    requires
        visited.len() == LEDGER_SIZE,
        c != u,
    ensures
        row(clear_row(visited, u), c) == row(visited, c),
{
    lemma_idx_injective(c, u);
    lemma_idx_at(c);
    lemma_idx_at(u);
    assert(row(clear_row(visited, u), c) =~= row(visited, c));
}

/// What the first candidate from `k` on is: a candidate, with none before it.
proof fn lemma_first_candidate(
    route: Seq<City>,
    visited: Seq<bool>,
    ns: Seq<(City, u8)>,
    u: City,
    k: int,
)
    requires
        0 <= k <= ns.len(),
    ensures
        match first_candidate(route, visited, ns, u, k) {
            Some(i) => {
                &&& k <= i < ns.len()
                &&& is_candidate(route, visited, u, ns[i].0)
                &&& forall|j: int| k <= j < i ==> !is_candidate(route, visited, u, #[trigger] ns[j].0)
            },
            None => forall|j: int|
                k <= j < ns.len() ==> !is_candidate(route, visited, u, #[trigger] ns[j].0),
        },
    decreases ns.len() - k,
{
    if k < ns.len() && !is_candidate(route, visited, u, ns[k].0) {
        lemma_first_candidate(route, visited, ns, u, k + 1);
    }
}

/// A transition from a well-formed state with a non-empty route keeps it well-formed and
/// lowers its rank.
pub proof fn lemma_step(w: Walk, source: City)
    requires
        walk_wf(w, source),
        w.route.len() > 0,
    ensures
        walk_wf(step(w), source),
        rank(step(w)) < rank(w),
{
    let u = w.route.last();
    let ns = board_neighbors(u);
    let len = w.route.len();
    let rest = w.route.drop_last();
    let vis = w.visited;
    let s = step(w);
    lemma_first_candidate(w.route, vis, ns, u, 0);
    lemma_distinct_len(w.route);
    lemma_place_positive(len - 1);
    lemma_place_positive(len as int);
    lemma_row_update_own(vis, u, u, false);
    lemma_count_false_bound(row(vis, u));
    assert(w.route[len - 1] == u);
    assert forall|k: int| 0 <= k < rest.len() implies #[trigger] rest[k] != u by {
        assert(rest[k] == w.route[k]);
    }
    match first_candidate(w.route, vis, ns, u, 0) {
        Some(i) => {
            let v = ns[i].0;
            let d = ns[i].1;
            assert(!w.route.contains(v));
            assert(u != v);
            let vis1 = vis.update(slot(u, v), true);
            lemma_row_update_own(vis, u, v, true);
            lemma_count_false_set(row(vis, u), v.idx() as int);
            assert forall|k: int| 0 <= k < rest.len() implies row(vis1, #[trigger] rest[k]) == row(
                vis,
                rest[k],
            ) by {
                lemma_row_update_other(vis, u, v, rest[k], true);
            }
            lemma_stack_rank_rows(rest, vis1, vis);
            if d <= w.budget {
                let vis2 = vis1.update(slot(v, u), true);
                let r2 = w.route.push(v);
                assert forall|k: int| 0 <= k < rest.len() implies row(
                    vis2,
                    #[trigger] rest[k],
                ) == row(vis, rest[k]) by {
                    lemma_row_update_other(vis, u, v, rest[k], true);
                    assert(rest[k] != v) by {
                        assert(w.route[k] == rest[k]);
                    }
                    lemma_row_update_other(vis1, v, u, rest[k], true);
                }
                lemma_stack_rank_rows(rest, vis2, vis);
                lemma_row_update_other(vis1, v, u, u, true);
                lemma_row_update_own(vis1, v, u, true);
                lemma_count_false_bound(row(vis2, v));
                assert forall|j: int| 0 <= j < i implies (#[trigger] ns[j]).0 != ns[i].0 by {
                    assert(!is_candidate(w.route, vis, u, ns[j].0));
                }
                lemma_weight_in_first(ns, i);
                assert(board_weight(u, v) == Some(d));
                assert(r2.drop_last() =~= w.route);
                assert(r2.no_duplicates()) by {
                    assert forall|a: int, b: int| 0 <= a < r2.len() && 0 <= b < r2.len() && a != b
                        implies r2[a] != r2[b] by {
                        if a < len && b < len {
                            assert(r2[a] == w.route[a] && r2[b] == w.route[b]);
                        } else if a < len {
                            assert(r2[a] == w.route[a]);
                        } else if b < len {
                            assert(r2[b] == w.route[b]);
                        }
                    }
                }
                assert(is_track_route(r2)) by {
                    assert forall|k: int| 0 <= k < r2.len() - 1 implies (#[trigger] board_weight(
                        r2[k],
                        r2[k + 1],
                    )) is Some by {
                        if k < len - 1 {
                            assert(r2[k] == w.route[k] && r2[k + 1] == w.route[k + 1]);
                            assert(board_weight(w.route[k], w.route[k + 1]) is Some);
                        } else {
                            assert(r2[k] == u && r2[k + 1] == v);
                        }
                    }
                }
                assert(r2[r2.len() - 2] == u);
                assert(route_trains(r2) == route_trains(w.route) + leg_trains(u, v));
                lemma_distinct_len(r2);
                assert(stack_rank(r2, vis2) == stack_rank(w.route, vis2) + (count_false(
                    row(vis2, v),
                ) + 1) * place(len as int));
                assert(stack_rank(w.route, vis2) == stack_rank(rest, vis2) + (count_false(
                    row(vis2, u),
                ) + 1) * place(len - 1));
                let x = count_false(row(vis2, v));
                let c = count_false(row(vis2, u));
                let p1 = place(len - 1);
                let p2 = place(len as int);
                assert(p1 == 49 * p2);
                assert((x + 1) * p2 < p1) by (nonlinear_arith)
                    requires
                        x <= 47,
                        p1 == 49 * p2,
                        p2 >= 1,
                ;
                assert((c + 1) * p1 + (x + 1) * p2 < (c + 2) * p1) by (nonlinear_arith)
                    requires
                        (x + 1) * p2 < p1,
                ;
            } else {
                assert(s.route == w.route);
                assert(stack_rank(w.route, vis1) == stack_rank(rest, vis1) + (count_false(
                    row(vis1, u),
                ) + 1) * place(len - 1));
                let c = count_false(row(vis1, u));
                let p1 = place(len - 1);
                assert((c + 1) * p1 < (c + 2) * p1) by (nonlinear_arith)
                    requires
                        p1 >= 1,
                ;
            }
        },
        None => {
            let vis1 = clear_row(vis, u);
            assert forall|k: int| 0 <= k < rest.len() implies row(vis1, #[trigger] rest[k]) == row(
                vis,
                rest[k],
            ) by {
                lemma_row_clear_other(vis, u, rest[k]);
            }
            lemma_stack_rank_rows(rest, vis1, vis);
            assert(rest.no_duplicates()) by {
                assert forall|a: int, b: int| 0 <= a < rest.len() && 0 <= b < rest.len() && a != b
                    implies rest[a] != rest[b] by {
                    assert(rest[a] == w.route[a] && rest[b] == w.route[b]);
                }
            }
            assert(is_track_route(rest)) by {
                assert forall|k: int| 0 <= k < rest.len() - 1 implies (#[trigger] board_weight(
                    rest[k],
                    rest[k + 1],
                )) is Some by {
                    assert(rest[k] == w.route[k] && rest[k + 1] == w.route[k + 1]);
                    assert(board_weight(w.route[k], w.route[k + 1]) is Some);
                }
            }
            if rest.len() > 0 {
                assert(rest.last() == w.route[len - 2]);
            }
            if !w.backtracking && admits(w.route, w.budget) {
                assert forall|k: int| 0 <= k < s.found.len() implies admitted_route(
                    #[trigger] s.found[k],
                    source,
                ) by {
                    if k < w.found.len() {
                        assert(s.found[k] == w.found[k]);
                    }
                }
            }
            let c = count_false(row(vis, u));
            let p1 = place(len - 1);
            assert((c + 1) * p1 >= 1) by (nonlinear_arith)
                requires
                    p1 >= 1,
            ;
        },
    }
}

/// Taking `n + 1` transitions is taking one, then `n`.
proof fn lemma_run_shift(w: Walk, n: nat)
    ensures
        run(w, n + 1) == run(step(w), n),
    decreases n,
{
    if n > 0 {
        lemma_run_shift(w, (n - 1) as nat);
        assert(run(w, n + 1) == step(run(w, n)));
        assert(run(step(w), n) == step(run(step(w), (n - 1) as nat)));
    } else {
        assert(run(w, 1) == step(run(w, 0)));
    }
}

/// Every state reached from a well-formed state is well-formed.
proof fn lemma_run_wf(w: Walk, source: City, n: nat)
    requires
        walk_wf(w, source),
    ensures
        walk_wf(run(w, n), source),
    decreases n,
{
    if n > 0 {
        lemma_run_wf(w, source, (n - 1) as nat);
        if run(w, (n - 1) as nat).route.len() > 0 {
            lemma_step(run(w, (n - 1) as nat), source);
        }
    }
}

/// Once the route is empty, the search stays where it is.
proof fn lemma_run_stays(w: Walk, n: nat, m: nat)
    requires
        run(w, n).route.len() == 0,
        n <= m,
    ensures
        run(w, m) == run(w, n),
    decreases m - n,
{
    if m > n {
        lemma_run_stays(w, n, (m - 1) as nat);
    }
}

/// From a well-formed state the search reaches an empty route.
proof fn lemma_walk_ends(w: Walk, source: City)
    requires
        walk_wf(w, source),
    ensures
        exists|n: nat| (#[trigger] run(w, n)).route.len() == 0,
    decreases rank(w),
{
    if w.route.len() == 0 {
        assert(run(w, 0).route.len() == 0);
    } else {
        lemma_step(w, source);
        lemma_walk_ends(step(w), source);
        let n = choose|n: nat| (#[trigger] run(step(w), n)).route.len() == 0;
        lemma_run_shift(w, n);
        assert(run(w, n + 1).route.len() == 0);
    }
}

/// The search begins in a well-formed state.
proof fn lemma_start_wf(source: City)
    ensures
        walk_wf(start(source), source),
{
    let w = start(source);
    assert(w.route.drop_last().len() == 0);
    assert(route_trains(w.route) == 0);
}

/// The search from any city ends: after finitely many transitions its route is empty.
pub proof fn lemma_enumeration_terminates(source: City)
    ensures
        exists|n: nat| (#[trigger] run(start(source), n)).route.len() == 0,
{
    lemma_start_wf(source);
    lemma_walk_ends(start(source), source);
}

/// Any number of transitions after which the route is empty leads to the same final state.
pub proof fn lemma_enumerated_final(source: City, n: nat)
    requires
        run(start(source), n).route.len() == 0,
    ensures
        enumerated(source) == run(start(source), n).found,
{
    let m = choose|m: nat| run(start(source), m).route.len() == 0;
    if m <= n {
        lemma_run_stays(start(source), m, n);
    } else {
        lemma_run_stays(start(source), n, m);
    }
}

/// Every route that the search from `source` admits starts at `source`, repeats no city,
/// follows the board, takes at most `TRAINS` trains, leaves at most `ADMISSION_SLACK` of them,
/// and completes a big ticket.
pub proof fn lemma_enumerated_admitted(source: City)
    ensures
        forall|k: int|
            0 <= k < enumerated(source).len() ==> admitted_route(
                #[trigger] enumerated(source)[k],
                source,
            ),
{
    lemma_enumeration_terminates(source);
    let n = choose|n: nat| run(start(source), n).route.len() == 0;
    lemma_start_wf(source);
    lemma_run_wf(start(source), source, n);
}

/// The routes of a collection, as sequences of cities.
pub open spec fn routes_view(routes: Seq<Vec<City>>) -> Seq<Seq<City>> {
    routes.map_values(|r: Vec<City>| r@)
}

/// The state of the search that the variables of `traverse` hold.
pub open spec fn walk_of(
    route: Seq<City>,
    budget: u8,
    visited: Seq<bool>,
    backtracking: bool,
    routes: Seq<Vec<City>>,
) -> Walk {
    Walk { route, budget: budget as int, visited, backtracking, found: routes_view(routes) }
}

/// The ledger entry of the connection from `u` to `v`.
fn slot_of(u: City, v: City) -> (r: usize)
    ensures
        r == slot(u, v),
        r < LEDGER_SIZE,
{
    u.index() * CITY_COUNT + v.index()
}

/// A ledger with no connection tried.
fn empty_ledger() -> (r: Vec<bool>)
    ensures
        r@ == Seq::new(LEDGER_SIZE as nat, |p: int| false),
{
    let mut r: Vec<bool> = Vec::new();
    let mut i: usize = 0;
    while i < LEDGER_SIZE
        invariant
            i <= LEDGER_SIZE,
            r@ == Seq::new(i as nat, |p: int| false),
        decreases LEDGER_SIZE - i,
    {
        r.push(false);
        i += 1;
        assert(r@ =~= Seq::new(i as nat, |p: int| false));
    }
    r
}

/// Marks every connection from `u` as not tried.
fn clear_ledger_row(visited: &mut Vec<bool>, u: City)
    requires
        old(visited)@.len() == LEDGER_SIZE,
    ensures
        final(visited)@ == clear_row(old(visited)@, u),
{
    let ghost orig = visited@;
    let base = slot_of(u, City::Edinburgh);
    let mut j: usize = 0;
    proof {
        lemma_idx_at(u);
    }
    assert(visited@ =~= Seq::new(
        LEDGER_SIZE as nat,
        |p: int| if base <= p < base + j { false } else { orig[p] },
    ));
    while j < CITY_COUNT
        invariant
            j <= CITY_COUNT,
            base == u.idx() * CITY_COUNT,
            base + CITY_COUNT <= LEDGER_SIZE,
            orig.len() == LEDGER_SIZE,
            visited@ == Seq::new(
                LEDGER_SIZE as nat,
                |p: int| if base <= p < base + j { false } else { orig[p] },
            ),
        decreases CITY_COUNT - j,
    {
        visited.set(base + j, false);
        j += 1;
        assert(visited@ =~= Seq::new(
            LEDGER_SIZE as nat,
            |p: int| if base <= p < base + j { false } else { orig[p] },
        ));
    }
    assert(visited@ =~= clear_row(orig, u));
}

/// The position of the first neighbour in `ns` to which the route may go on from `u`.
fn next_candidate(
    ns: &[(City, u8)],
    visited: &Vec<bool>,
    on_route: &Vec<bool>,
    u: City,
    route: Ghost<Seq<City>>,
) -> (r: Option<usize>)
    requires
        visited@.len() == LEDGER_SIZE,
        on_route@.len() == CITY_COUNT,
        forall|c: City| #[trigger] on_route@[c.idx() as int] == route@.contains(c),
    ensures
        match r {
            Some(i) => i < ns@.len() && first_candidate(route@, visited@, ns@, u, 0) == Some(
                i as int,
            ),
            None => first_candidate(route@, visited@, ns@, u, 0) is None,
        },
{
    let mut i: usize = 0;
    while i < ns.len()
        invariant
            i <= ns@.len(),
            visited@.len() == LEDGER_SIZE,
            on_route@.len() == CITY_COUNT,
            forall|c: City| #[trigger] on_route@[c.idx() as int] == route@.contains(c),
            first_candidate(route@, visited@, ns@, u, 0) == first_candidate(
                route@,
                visited@,
                ns@,
                u,
                i as int,
            ),
        decreases ns@.len() - i,
    {
        let v = ns[i].0;
        if !visited[slot_of(u, v)] && !on_route[v.index()] {
            return Some(i);
        }
        i += 1;
    }
    None
}

/// The search from one city, as an explicit state machine.
pub struct Search {
    source: City,
    net: Network,
    route: Vec<City>,
    budget: u8,
    visited: Vec<bool>,
    on_route: Vec<bool>,
    backtracking: bool,
    routes: Vec<Vec<City>>,
}

impl View for Search {
    type V = Walk;

    closed spec fn view(&self) -> Walk {
        walk_of(self.route@, self.budget, self.visited@, self.backtracking, self.routes@)
    }
}

impl Search {
    /// The city that the search starts from.
    pub closed spec fn source(&self) -> City {
        self.source
    }

    /// What the search keeps true between transitions.
    pub closed spec fn inv(&self) -> bool {
        &&& self.net.wf()
        &&& walk_wf(self@, self.source)
        &&& self.on_route@.len() == CITY_COUNT
        &&& forall|x: City| #[trigger] self.on_route@[x.idx() as int] == self.route@.contains(x)
    }

    /// The search from `source`, before its first transition.
    pub fn new(source: City) -> (r: Search)
        ensures
            r.inv(),
            r.source() == source,
            r@ == start(source),
    {
        let net = create_network();
        let routes: Vec<Vec<City>> = Vec::new();
        let mut route: Vec<City> = Vec::new();
        route.push(source);
        let visited = empty_ledger();
        let mut on_route: Vec<bool> = Vec::new();
        let mut c: usize = 0;
        while c < CITY_COUNT
            invariant
                c <= CITY_COUNT,
                on_route@ == Seq::new(c as nat, |p: int| false),
            decreases CITY_COUNT - c,
        {
            on_route.push(false);
            c += 1;
            assert(on_route@ =~= Seq::new(c as nat, |p: int| false));
        }
        on_route.set(source.index(), true);
        let r = Search {
            source,
            net,
            route,
            budget: TRAINS,
            visited,
            on_route,
            backtracking: false,
            routes,
        };
        proof {
            lemma_start_wf(source);
            assert(r.route@ =~= seq![source]);
            assert(routes_view(r.routes@) =~= seq![]);
            assert(r@ =~= start(source));
            assert forall|x: City| #[trigger] r.on_route@[x.idx() as int] == r.route@.contains(
                x,
            ) by {
                lemma_idx_injective(x, source);
                if x == source {
                    assert(r.route@[0] == x);
                }
            }
        }
        r
    }

    /// Whether the search has ended: its route is empty.
    pub fn is_done(&self) -> (r: bool)
        ensures
            r == (self@.route.len() == 0),
    {
        self.route.len() == 0
    }

    /// The route laid so far.
    pub fn route(&self) -> (r: &[City])
        ensures
            r@ == self@.route,
    {
        self.route.as_slice()
    }

    /// The trains left.
    pub fn trains_left(&self) -> (r: u8)
        ensures
            r == self@.budget,
    {
        self.budget
    }

    /// The routes admitted so far, in the order in which they were found.
    pub fn into_routes(self) -> (r: Vec<Vec<City>>)
        ensures
            routes_view(r@) == self@.found,
    {
        self.routes
    }

    /// The route goes on from its last city `u` to `v` over a connection of `d` trains.
    fn advance(&mut self, u: City, v: City, d: u8)
        requires
            old(self).inv(),
            old(self).route@.len() > 0,
            old(self).route@.last() == u,
            !old(self).route@.contains(v),
            d <= old(self).budget,
        ensures
            final(self).source == old(self).source,
            final(self).net == old(self).net,
            final(self).routes == old(self).routes,
            final(self).route@ == old(self).route@.push(v),
            final(self).budget == old(self).budget - d,
            final(self).visited@ == old(self).visited@.update(slot(u, v), true).update(
                slot(v, u),
                true,
            ),
            final(self).backtracking == false,
            final(self).on_route@.len() == CITY_COUNT,
            forall|x: City| #[trigger]
                final(self).on_route@[x.idx() as int] == final(self).route@.contains(x),
    {
        let ghost old_route = self.route@;
        let uv = slot_of(u, v);
        self.visited.set(uv, true);
        let vu = slot_of(v, u);
        self.visited.set(vu, true);
        self.route.push(v);
        self.on_route.set(v.index(), true);
        self.budget = self.budget - d;
        self.backtracking = false;
        proof {
            assert forall|x: City| #[trigger] self.on_route@[x.idx() as int]
                == self.route@.contains(x) by {
                lemma_idx_injective(x, v);
                if x == v {
                    assert(self.route@[self.route@.len() - 1] == x);
                } else if old_route.contains(x) {
                    let j = choose|j: int| 0 <= j < old_route.len() && old_route[j] == x;
                    assert(self.route@[j] == x);
                }
            }
        }
    }

    /// The route cannot go on from its last city `u`: it is recorded if admitted on a first dead
    /// end, then `u` is taken off it and the trains of the last connection are given back.
    fn back_up(&mut self, u: City)
        requires
            old(self).inv(),
            old(self).route@.len() > 0,
            old(self).route@.last() == u,
        ensures
            final(self).source == old(self).source,
            final(self).net == old(self).net,
            final(self)@ == ({
                let w = old(self)@;
                let rest = w.route.drop_last();
                Walk {
                    route: rest,
                    budget: if rest.len() > 0 {
                        w.budget + leg_trains(rest.last(), u)
                    } else {
                        w.budget
                    },
                    visited: clear_row(w.visited, u),
                    backtracking: true,
                    found: if !w.backtracking && admits(w.route, w.budget) {
                        w.found.push(w.route)
                    } else {
                        w.found
                    },
                }
            }),
            final(self).on_route@.len() == CITY_COUNT,
            forall|x: City| #[trigger]
                final(self).on_route@[x.idx() as int] == final(self).route@.contains(x),
    {
        let ghost w = self@;
        if !self.backtracking {
            if big_ticket_score(self.route.as_slice()) != 0 && self.budget <= ADMISSION_SLACK {
                self.routes.push(slice_to_vec(self.route.as_slice()));
                assert(routes_view(self.routes@) =~= w.found.push(w.route));
            }
            self.backtracking = true;
        }
        self.route.pop();
        self.on_route.set(u.index(), false);
        clear_ledger_row(&mut self.visited, u);
        proof {
            assert(self.route@ =~= w.route.drop_last());
            assert forall|x: City| #[trigger] self.on_route@[x.idx() as int]
                == self.route@.contains(x) by {
                lemma_idx_injective(x, u);
                if self.route@.contains(x) {
                    let j = choose|j: int| 0 <= j < self.route@.len() && self.route@[j] == x;
                    assert(w.route[j] == x);
                    assert(w.route[w.route.len() - 1] == u);
                }
                if x != u && w.route.contains(x) {
                    let j = choose|j: int| 0 <= j < w.route.len() && w.route[j] == x;
                    assert(j != w.route.len() - 1);
                    assert(self.route@[j] == x);
                }
            }
        }
        if self.route.len() > 0 {
            let last = self.route[self.route.len() - 1];
            proof {
                let k = w.route.len() - 2;
                assert(board_weight(w.route[k], w.route[k + 1]) is Some);
                assert(w.route[k] == last && w.route[k + 1] == u);
                lemma_step(w, self.source);
            }
            match self.net.weight(last, u) {
                Some(d) => {
                    self.budget = self.budget + d;
                },
                None => {},
            }
        }
    }

    /// One transition of the search, as `step` gives it; nothing once the search has ended.
    pub fn step(&mut self)
        requires
            old(self).inv(),
        ensures
            final(self).inv(),
            final(self).source() == old(self).source(),
            final(self)@ == step(old(self)@),
    {
        if self.route.len() == 0 {
            return;
        }
        let ghost w = self@;
        proof {
            lemma_step(w, self.source);
        }
        let u = self.route[self.route.len() - 1];
        let ns = self.net.neighbors(u);
        match next_candidate(ns, &self.visited, &self.on_route, u, Ghost(self.route@)) {
            Some(i) => {
                let v = ns[i].0;
                let d = ns[i].1;
                proof {
                    lemma_first_candidate(w.route, w.visited, ns@, u, 0);
                }
                if d <= self.budget {
                    self.advance(u, v, d);
                } else {
                    let uv = slot_of(u, v);
                    self.visited.set(uv, true);
                }
            },
            None => {
                self.back_up(u);
            },
        }
        assert(self@ =~= step(w));
    }
}

/// Enumerates the routes from `source` that the search admits.
///
/// The result is exactly what the state machine of `step` records when run from `start(source)`
/// until its route is empty; the position of a route in the result is its identifier. Every
/// route in it starts at `source`, repeats no city, takes at most `TRAINS` trains and leaves at
/// most `ADMISSION_SLACK`, and completes a big ticket.
pub fn traverse(source: City) -> (r: Vec<Vec<City>>)
    ensures
        routes_view(r@) == enumerated(source),
        forall|k: int| 0 <= k < r@.len() ==> admitted_route(#[trigger] r@[k]@, source),
{
    let mut search = Search::new(source);
    let ghost mut n: nat = 0;
    while !search.is_done()
        invariant
            search.inv(),
            search.source() == source,
            search@ == run(start(source), n),
        decreases rank(search@),
    {
        proof {
            lemma_start_wf(source);
            lemma_run_wf(start(source), source, n);
            lemma_step(search@, source);
        }
        search.step();
        proof {
            n = n + 1;
        }
    }
    proof {
        lemma_enumerated_final(source, n);
        lemma_enumerated_admitted(source);
    }
    let routes = search.into_routes();
    assert forall|k: int| 0 <= k < routes@.len() implies admitted_route(
        #[trigger] routes@[k]@,
        source,
    ) by {
        assert(routes_view(routes@)[k] == routes@[k]@);
    }
    routes
}

} // verus!


