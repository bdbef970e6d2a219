//! The score of a route: tickets completed, connections claimed, and the end-game bonuses.

use vstd::prelude::*;

use crate::city::City;
use crate::network::{
    board_weight, create_network, is_track_length, is_track_route, lemma_board_weight_length,
    leg_trains, route_trains, Network,
};
use crate::tickets::{big_tickets, get_big_tickets, get_tickets, normal_tickets, Ticket};

verus! {

/// Points for the longest continuous route, assumed always earned.
pub const EXPRESS_BONUS: u16 = 10;

/// Points for the unused stations, assumed always earned.
pub const NO_STATIONS_BONUS: u16 = 12;

/// Whether `route` visits both cities of the ticket `t`, wherever they stand in it.
pub open spec fn completes(t: Ticket, route: Seq<City>) -> bool {
    route.contains(t.depart) && route.contains(t.arrive)
}

/// The value of the tickets of `ts` that `route` completes.
pub open spec fn tickets_score(ts: Seq<Ticket>, route: Seq<City>) -> nat
    decreases ts.len(),
{
    if ts.len() == 0 {
        0
    } else {
        tickets_score(ts.drop_last(), route) + if completes(ts.last(), route) {
            ts.last().value as nat
        } else {
            0
        }
    }
}

/// Points for claiming one connection of `w` trains.
pub open spec fn track_points(w: u8) -> nat {
    if w == 1 {
        1
    } else if w == 2 {
        2
    } else if w == 3 {
        4
    } else if w == 4 {
        7
    } else if w == 6 {
        15
    } else if w == 8 {
        21
    } else {
        0
    }
}

/// Points for the connection from `a` to `b`.
pub open spec fn leg_points(a: City, b: City) -> nat {
    match board_weight(a, b) {
        Some(w) => track_points(w),
        None => 0,
    }
}

/// Points for the connections between consecutive cities of `route`.
pub open spec fn trains_points(route: Seq<City>) -> nat
    decreases route.len(),
{
    if route.len() < 2 {
        0
    } else {
        trains_points(route.drop_last()) + leg_points(route[route.len() - 2], route.last())
    }
}

/// The score of `route`: big tickets, regular tickets, connections and the two bonuses.
pub open spec fn route_score(route: Seq<City>) -> nat {
    tickets_score(big_tickets(), route) + tickets_score(normal_tickets(), route) + trains_points(
        route,
    ) + EXPRESS_BONUS as nat + NO_STATIONS_BONUS as nat
}

/// Whether `route` visits `c`.
fn visits(route: &[City], c: City) -> (r: bool)
    ensures
        r == route@.contains(c),
{
    let mut i: usize = 0;
    while i < route.len()
        invariant
            i <= route@.len(),
            forall|j: int| 0 <= j < i ==> route@[j] != c,
        decreases route@.len() - i,
    {
        if route[i] == c {
            return true;
        }
        i += 1;
    }
    false
}

/// The value of the tickets of `ts` that `route` completes.
fn tickets_points(ts: &Vec<Ticket>, route: &[City]) -> (r: u16)
    requires
        ts@.len() <= 256,
    ensures
        r == tickets_score(ts@, route@),
{
    let mut score: u16 = 0;
    let mut i: usize = 0;
    while i < ts.len()
        invariant
            i <= ts@.len() <= 256,
            score == tickets_score(ts@.subrange(0, i as int), route@),
            score <= 255 * i,
        decreases ts@.len() - i,
    {
        let t = ts[i];
        proof {
            let next = ts@.subrange(0, i + 1);
            assert(next.drop_last() =~= ts@.subrange(0, i as int));
            assert(next.last() == t);
        }
        if visits(route, t.depart) && visits(route, t.arrive) {
            score += t.value as u16;
        }
        i += 1;
    }
    assert(ts@.subrange(0, ts@.len() as int) =~= ts@);
    score
}

/// The value of the big tickets that `route` completes; zero when it completes none.
pub fn big_ticket_score(route: &[City]) -> (r: u16)
    ensures
        r == tickets_score(big_tickets(), route@),
{
    let ts = get_big_tickets();
    tickets_points(&ts, route)
}

/// The value of the regular tickets that `route` completes.
pub fn ticket_score(route: &[City]) -> (r: u16)
    ensures
        r == tickets_score(normal_tickets(), route@),
{
    let ts = get_tickets();
    tickets_points(&ts, route)
}

/// Points for claiming one connection of `w` trains.
fn points_for(w: u8) -> (r: u16)
    requires
        is_track_length(w),
    ensures
        r == track_points(w),
{
    if w == 1 {
        1
    } else if w == 2 {
        2
    } else if w == 3 {
        4
    } else if w == 4 {
        7
    } else if w == 6 {
        15
    } else {
        21
    }
}

/// Points for the connections of a prefix never exceed those of the whole route.
proof fn lemma_trains_points_prefix(route: Seq<City>, k: int)
    requires
        0 <= k <= route.len(),
    ensures
        trains_points(route.subrange(0, k)) <= trains_points(route),
    decreases route.len() - k,
{
    if k < route.len() {
        let next = route.subrange(0, k + 1);
        assert(next.drop_last() =~= route.subrange(0, k));
        lemma_trains_points_prefix(route, k + 1);
    } else {
        assert(route.subrange(0, k) =~= route);
    }
}

/// Points for the connections between consecutive cities of `route`, on the network `net`.
pub fn trains_score(net: &Network, route: &[City]) -> (r: u16)
    requires
        net.wf(),
        is_track_route(route@),
        trains_points(route@) <= u16::MAX,
    ensures
        r == trains_points(route@),
{
    let mut score: u16 = 0;
    let mut k: usize = 1;
    while k < route.len()
        invariant
            net.wf(),
            is_track_route(route@),
            trains_points(route@) <= u16::MAX,
            1 <= k,
            k <= route@.len() || route@.len() == 0,
            route@.len() > 0 ==> score == trains_points(route@.subrange(0, k as int)),
            route@.len() == 0 ==> score == 0,
        decreases route@.len() - k,
    {
        let a = route[k - 1];
        let b = route[k];
        let w = net.weight(a, b);
        proof {
            assert(board_weight(route@[k - 1], route@[(k - 1) + 1]) is Some);
            lemma_board_weight_length(a, b);
            let next = route@.subrange(0, k + 1);
            assert(next.drop_last() =~= route@.subrange(0, k as int));
            assert(next[next.len() - 2] == a);
            lemma_trains_points_prefix(route@, k + 1);
        }
        match w {
            Some(w) => {
                score = score + points_for(w);
            },
            None => {},
        }
        k += 1;
    }
    proof {
        if route@.len() > 0 {
            assert(route@.subrange(0, route@.len() as int) =~= route@);
        }
    }
    score
}

/// The score of `route` on the network `net`.
pub fn score_on(net: &Network, route: &[City]) -> (r: u16)
    requires
        net.wf(),
        is_track_route(route@),
        route_score(route@) <= u16::MAX,
    ensures
        r == route_score(route@),
{
    let big = big_ticket_score(route);
    let normal = ticket_score(route);
    let trains = trains_score(net, route);
    big + normal + trains + EXPRESS_BONUS + NO_STATIONS_BONUS
}

/// The score of `route`: big tickets, regular tickets, connections and the two bonuses.
pub fn get_scores(route: Vec<City>) -> (r: u16)
    requires
        is_track_route(route@),
        route_score(route@) <= u16::MAX,
    ensures
        r == route_score(route@),
{
    let net = create_network();
    score_on(&net, route.as_slice())
}

/// Scoring depends on the route alone: two calls on the same route give the same score.
pub proof fn lemma_score_deterministic(a: Seq<City>, b: Seq<City>)
    requires
        a == b,
    ensures
        route_score(a) == route_score(b),
{
}

/// Tickets count by membership alone: two routes that visit the same cities, in any order and
/// whatever stands between them, complete the same tickets.
pub proof fn lemma_tickets_by_membership(ts: Seq<Ticket>, a: Seq<City>, b: Seq<City>)
    requires
        forall|c: City| a.contains(c) <==> b.contains(c),
    ensures
        tickets_score(ts, a) == tickets_score(ts, b),
    decreases ts.len(),
{
    if ts.len() > 0 {
        lemma_tickets_by_membership(ts.drop_last(), a, b);
    }
}

/// Adding cities to either end of a route never loses a ticket.
pub proof fn lemma_tickets_extension(ts: Seq<Ticket>, before: Seq<City>, route: Seq<City>, after: Seq<City>)
    ensures
        tickets_score(ts, route) <= tickets_score(ts, before + route + after),
    decreases ts.len(),
{
    let whole = before + route + after;
    assert forall|c: City| route.contains(c) implies whole.contains(c) by {
        let j = choose|j: int| 0 <= j < route.len() && route[j] == c;
        assert(whole[before.len() + j] == c);
    }
    if ts.len() > 0 {
        lemma_tickets_extension(ts.drop_last(), before, route, after);
    }
}

/// The tickets of `ts` are worth at most 255 points each.
proof fn lemma_tickets_score_bound(ts: Seq<Ticket>, route: Seq<City>)
    ensures
        tickets_score(ts, route) <= 255 * ts.len(),
    decreases ts.len(),
{
    if ts.len() > 0 {
        lemma_tickets_score_bound(ts.drop_last(), route);
    }
}

/// A connection is worth at most three points per train.
proof fn lemma_trains_points_bound(route: Seq<City>)
    requires
        is_track_route(route),
    ensures
        trains_points(route) <= 3 * route_trains(route),
    decreases route.len(),
{
    if route.len() >= 2 {
        let p = route.drop_last();
        assert forall|k: int| 0 <= k < p.len() - 1 implies (#[trigger] board_weight(
            p[k],
            p[k + 1],
        )) is Some by {
            assert(board_weight(route[k], route[k + 1]) is Some);
        }
        lemma_trains_points_bound(p);
        let a = route[route.len() - 2];
        let b = route.last();
        assert(board_weight(route[route.len() - 2], route[(route.len() - 2) + 1]) is Some);
        lemma_board_weight_length(a, b);
        assert(leg_points(a, b) <= 3 * leg_trains(a, b));
    }
}

/// A route along the board that takes at most the 45 trains of a player has a score that
/// fits in 16 bits.
pub proof fn lemma_route_score_fits(route: Seq<City>)
    requires
        is_track_route(route),
        route_trains(route) <= 45,
    ensures
        route_score(route) <= u16::MAX,
{
    lemma_tickets_score_bound(big_tickets(), route);
    lemma_tickets_score_bound(normal_tickets(), route);
    lemma_trains_points_bound(route);
}

} // verus!
