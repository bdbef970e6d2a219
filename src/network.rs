//! The board: every connection between two cities, and the network of
//! neighbours that the search walks.

use vstd::prelude::*;

use crate::city::{City, CITY_COUNT, all_cities, lemma_idx_at};

verus! {

/// A connection of the board: its two end cities and the number of trains it takes.
pub type Link = (City, City, u8);

/// Every connection of the board, each written once.
pub open spec fn board_links() -> Seq<Link> {
    seq![
        (City::Edinburgh, City::London, 4),
        (City::London, City::Dieppe, 2),
        (City::London, City::Amsterdam, 2),
        (City::Dieppe, City::Paris, 1),
        (City::Dieppe, City::Brest, 2),
        (City::Dieppe, City::Bruxelles, 2),
        (City::Amsterdam, City::Essen, 3),
        (City::Amsterdam, City::Frankfurt, 2),
        (City::Amsterdam, City::Bruxelles, 1),
        (City::Brest, City::Paris, 3),
        (City::Brest, City::Pamplona, 4),
        (City::Paris, City::Bruxelles, 2),
        (City::Paris, City::Frankfurt, 3),
        (City::Paris, City::Zuerich, 3),
        (City::Paris, City::Marseille, 4),
        (City::Paris, City::Pamplona, 4),
        (City::Bruxelles, City::Frankfurt, 2),
        (City::Essen, City::Kobenhavn, 3),
        (City::Essen, City::Berlin, 2),
        (City::Essen, City::Frankfurt, 2),
        (City::Frankfurt, City::Berlin, 3),
        (City::Frankfurt, City::Muenchen, 2),
        (City::Pamplona, City::Madrid, 3),
        (City::Pamplona, City::Marseille, 4),
        (City::Pamplona, City::Barcelona, 2),
        (City::Zuerich, City::Muenchen, 2),
        (City::Zuerich, City::Venezia, 2),
        (City::Zuerich, City::Marseille, 2),
        (City::Marseille, City::Barcelona, 4),
        (City::Marseille, City::Roma, 4),
        (City::Kobenhavn, City::Stockholm, 3),
        (City::Berlin, City::Danzig, 4),
        (City::Berlin, City::Warszawa, 4),
        (City::Berlin, City::Wien, 3),
        (City::Muenchen, City::Wien, 3),
        (City::Muenchen, City::Venezia, 2),
        (City::Madrid, City::Lisboa, 3),
        (City::Madrid, City::Barcelona, 2),
        (City::Madrid, City::Cadiz, 3),
        (City::Venezia, City::Zagrab, 2),
        (City::Venezia, City::Roma, 2),
        (City::Roma, City::Brindisi, 2),
        (City::Roma, City::Palermo, 4),
        (City::Stockholm, City::Petrograd, 8),
        (City::Danzig, City::Riga, 3),
        (City::Danzig, City::Warszawa, 2),
        (City::Warszawa, City::Wilno, 3),
        (City::Warszawa, City::Kyiv, 4),
        (City::Warszawa, City::Wien, 4),
        (City::Wien, City::Budapest, 1),
        (City::Wien, City::Zagrab, 2),
        (City::Lisboa, City::Cadiz, 2),
        (City::Zagrab, City::Budapest, 2),
        (City::Zagrab, City::Sarajevo, 3),
        (City::Brindisi, City::Athina, 4),
        (City::Brindisi, City::Palermo, 3),
        (City::Palermo, City::Smyrna, 6),
        (City::Petrograd, City::Riga, 4),
        (City::Petrograd, City::Wilno, 4),
        (City::Petrograd, City::Moskva, 4),
        (City::Riga, City::Wilno, 4),
        (City::Wilno, City::Smolensk, 3),
        (City::Wilno, City::Kyiv, 2),
        (City::Kyiv, City::Smolensk, 3),
        (City::Kyiv, City::Kharkov, 4),
        (City::Kyiv, City::Bucuresti, 4),
        (City::Kyiv, City::Budapest, 6),
        (City::Budapest, City::Bucuresti, 4),
        (City::Budapest, City::Sarajevo, 3),
        (City::Sarajevo, City::Sofia, 2),
        (City::Sarajevo, City::Athina, 4),
        (City::Athina, City::Sofia, 3),
        (City::Athina, City::Smyrna, 2),
        (City::Smyrna, City::Constantinople, 2),
        (City::Smyrna, City::Angora, 3),
        (City::Moskva, City::Smolensk, 2),
        (City::Moskva, City::Kharkov, 4),
        (City::Kharkov, City::Rostov, 2),
        (City::Bucuresti, City::Sevastopol, 4),
        (City::Bucuresti, City::Constantinople, 3),
        (City::Bucuresti, City::Sofia, 2),
        (City::Sofia, City::Constantinople, 3),
        (City::Constantinople, City::Sevastopol, 4),
        (City::Constantinople, City::Angora, 2),
        (City::Angora, City::Erzurum, 3),
        (City::Rostov, City::Sevastopol, 4),
        (City::Rostov, City::Sochi, 2),
        (City::Sevastopol, City::Sochi, 2),
        (City::Sevastopol, City::Erzurum, 4),
        (City::Erzurum, City::Sochi, 3),
    ]
}

/// The neighbours of `c` along the connections `ls`, with the trains each takes,
/// in the order in which the connections are listed.
pub open spec fn neighbors_in(ls: Seq<Link>, c: City) -> Seq<(City, u8)>
    decreases ls.len(),
{
    if ls.len() == 0 {
        seq![]
    } else {
        let l = ls.last();
        let rest = neighbors_in(ls.drop_last(), c);
        if l.0 == c {
            rest.push((l.1, l.2))
        } else if l.1 == c {
            rest.push((l.0, l.2))
        } else {
            rest
        }
    }
}

/// The trains recorded for `b` in the neighbour list `ns`: the first entry for `b` decides.
pub open spec fn weight_in(ns: Seq<(City, u8)>, b: City) -> Option<u8>
    decreases ns.len(),
{
    if ns.len() == 0 {
        None
    } else if ns[0].0 == b {
        Some(ns[0].1)
    } else {
        weight_in(ns.drop_first(), b)
    }
}

/// The neighbours of `c` on the board.
pub open spec fn board_neighbors(c: City) -> Seq<(City, u8)> {
    neighbors_in(board_links(), c)
}

/// The trains that the connection from `a` to `b` takes, if there is one.
pub open spec fn board_weight(a: City, b: City) -> Option<u8> {
    weight_in(board_neighbors(a), b)
}

/// Every connection of the board.
fn links() -> (r: Vec<Link>)
    ensures
        r@ == board_links(),
{
    let r = vec![
        (City::Edinburgh, City::London, 4),
        (City::London, City::Dieppe, 2),
        (City::London, City::Amsterdam, 2),
        (City::Dieppe, City::Paris, 1),
        (City::Dieppe, City::Brest, 2),
        (City::Dieppe, City::Bruxelles, 2),
        (City::Amsterdam, City::Essen, 3),
        (City::Amsterdam, City::Frankfurt, 2),
        (City::Amsterdam, City::Bruxelles, 1),
        (City::Brest, City::Paris, 3),
        (City::Brest, City::Pamplona, 4),
        (City::Paris, City::Bruxelles, 2),
        (City::Paris, City::Frankfurt, 3),
        (City::Paris, City::Zuerich, 3),
        (City::Paris, City::Marseille, 4),
        (City::Paris, City::Pamplona, 4),
        (City::Bruxelles, City::Frankfurt, 2),
        (City::Essen, City::Kobenhavn, 3),
        (City::Essen, City::Berlin, 2),
        (City::Essen, City::Frankfurt, 2),
        (City::Frankfurt, City::Berlin, 3),
        (City::Frankfurt, City::Muenchen, 2),
        (City::Pamplona, City::Madrid, 3),
        (City::Pamplona, City::Marseille, 4),
        (City::Pamplona, City::Barcelona, 2),
        (City::Zuerich, City::Muenchen, 2),
        (City::Zuerich, City::Venezia, 2),
        (City::Zuerich, City::Marseille, 2),
        (City::Marseille, City::Barcelona, 4),
        (City::Marseille, City::Roma, 4),
        (City::Kobenhavn, City::Stockholm, 3),
        (City::Berlin, City::Danzig, 4),
        (City::Berlin, City::Warszawa, 4),
        (City::Berlin, City::Wien, 3),
        (City::Muenchen, City::Wien, 3),
        (City::Muenchen, City::Venezia, 2),
        (City::Madrid, City::Lisboa, 3),
        (City::Madrid, City::Barcelona, 2),
        (City::Madrid, City::Cadiz, 3),
        (City::Venezia, City::Zagrab, 2),
        (City::Venezia, City::Roma, 2),
        (City::Roma, City::Brindisi, 2),
        (City::Roma, City::Palermo, 4),
        (City::Stockholm, City::Petrograd, 8),
        (City::Danzig, City::Riga, 3),
        (City::Danzig, City::Warszawa, 2),
        (City::Warszawa, City::Wilno, 3),
        (City::Warszawa, City::Kyiv, 4),
        (City::Warszawa, City::Wien, 4),
        (City::Wien, City::Budapest, 1),
        (City::Wien, City::Zagrab, 2),
        (City::Lisboa, City::Cadiz, 2),
        (City::Zagrab, City::Budapest, 2),
        (City::Zagrab, City::Sarajevo, 3),
        (City::Brindisi, City::Athina, 4),
        (City::Brindisi, City::Palermo, 3),
        (City::Palermo, City::Smyrna, 6),
        (City::Petrograd, City::Riga, 4),
        (City::Petrograd, City::Wilno, 4),
        (City::Petrograd, City::Moskva, 4),
        (City::Riga, City::Wilno, 4),
        (City::Wilno, City::Smolensk, 3),
        (City::Wilno, City::Kyiv, 2),
        (City::Kyiv, City::Smolensk, 3),
        (City::Kyiv, City::Kharkov, 4),
        (City::Kyiv, City::Bucuresti, 4),
        (City::Kyiv, City::Budapest, 6),
        (City::Budapest, City::Bucuresti, 4),
        (City::Budapest, City::Sarajevo, 3),
        (City::Sarajevo, City::Sofia, 2),
        (City::Sarajevo, City::Athina, 4),
        (City::Athina, City::Sofia, 3),
        (City::Athina, City::Smyrna, 2),
        (City::Smyrna, City::Constantinople, 2),
        (City::Smyrna, City::Angora, 3),
        (City::Moskva, City::Smolensk, 2),
        (City::Moskva, City::Kharkov, 4),
        (City::Kharkov, City::Rostov, 2),
        (City::Bucuresti, City::Sevastopol, 4),
        (City::Bucuresti, City::Constantinople, 3),
        (City::Bucuresti, City::Sofia, 2),
        (City::Sofia, City::Constantinople, 3),
        (City::Constantinople, City::Sevastopol, 4),
        (City::Constantinople, City::Angora, 2),
        (City::Angora, City::Erzurum, 3),
        (City::Rostov, City::Sevastopol, 4),
        (City::Rostov, City::Sochi, 2),
        (City::Sevastopol, City::Sochi, 2),
        (City::Sevastopol, City::Erzurum, 4),
        (City::Erzurum, City::Sochi, 3),
    ];
    assert(r@ =~= board_links());
    r
}

/// The neighbours of `c` along `ls`, gathered by one pass over the connections.
fn collect_neighbors(ls: &Vec<Link>, c: City) -> (r: Vec<(City, u8)>)
    ensures
        r@ == neighbors_in(ls@, c),
{
    let mut r: Vec<(City, u8)> = Vec::new();
    let mut i: usize = 0;
    while i < ls.len()
        invariant
            i <= ls@.len(),
            r@ == neighbors_in(ls@.subrange(0, i as int), c),
        decreases ls@.len() - i,
    {
        let l = ls[i];
        proof {
            let next = ls@.subrange(0, i + 1);
            assert(next.drop_last() =~= ls@.subrange(0, i as int));
            assert(next.last() == l);
        }
        if l.0 == c {
            r.push((l.1, l.2));
        } else if l.1 == c {
            r.push((l.0, l.2));
        }
        i += 1;
    }
    assert(ls@.subrange(0, ls@.len() as int) =~= ls@);
    r
}

/// The board as a network: for each city, its neighbours with the trains each connection takes.
pub struct Network {
    adj: Vec<Vec<(City, u8)>>,
}

impl Network {
    /// The neighbour list that the network holds for `c`.
    pub closed spec fn spec_neighbors(&self, c: City) -> Seq<(City, u8)> {
        self.adj@[c.idx() as int]@
    }

    /// The network holds the board: a neighbour list for each city, as the connections give it.
    pub closed spec fn wf(&self) -> bool {
        &&& self.adj@.len() == CITY_COUNT
        &&& forall|c: City| #[trigger] self.spec_neighbors(c) == board_neighbors(c)
    }

    /// The neighbours of `c`, with the trains each connection takes, in a fixed order.
    pub fn neighbors(&self, c: City) -> (r: &[(City, u8)])
        requires
            self.wf(),
        ensures
            r@ == board_neighbors(c),
    {
        assert(self.spec_neighbors(c) == board_neighbors(c));
        self.adj[c.index()].as_slice()
    }

    /// The trains that the connection from `a` to `b` takes, or `None` where there is none.
    pub fn weight(&self, a: City, b: City) -> (r: Option<u8>)
        requires
            self.wf(),
        ensures
            r == board_weight(a, b),
    {
        let ns = self.neighbors(a);
        let mut i: usize = 0;
        assert(ns@.subrange(0, ns@.len() as int) =~= ns@);
        while i < ns.len()
            invariant
                i <= ns@.len(),
                ns@ == board_neighbors(a),
                weight_in(ns@, b) == weight_in(ns@.subrange(i as int, ns@.len() as int), b),
            decreases ns@.len() - i,
        {
            let ghost rest = ns@.subrange(i as int, ns@.len() as int);
            if ns[i].0 == b {
                return Some(ns[i].1);
            }
            assert(rest.drop_first() =~= ns@.subrange(i + 1, ns@.len() as int));
            i += 1;
        }
        None
    }
}

/// Builds the network of the board.
pub fn create_network() -> (r: Network)
    ensures
        r.wf(),
{
    let ls = links();
    let cities = all_cities();
    let mut adj: Vec<Vec<(City, u8)>> = Vec::new();
    let mut i: usize = 0;
    while i < CITY_COUNT
        invariant
            i <= CITY_COUNT,
            ls@ == board_links(),
            cities@.len() == CITY_COUNT,
            forall|j: int| 0 <= j < CITY_COUNT ==> (#[trigger] cities@[j]).idx() == j,
            adj@.len() == i,
            forall|j: int| 0 <= j < i ==> (#[trigger] adj@[j])@ == board_neighbors(cities@[j]),
        decreases CITY_COUNT - i,
    {
        adj.push(collect_neighbors(&ls, cities[i]));
        i += 1;
    }
    let r = Network { adj };
    assert forall|c: City| #[trigger] r.spec_neighbors(c) == board_neighbors(c) by {
        lemma_idx_at(c);
        let j = c.idx() as int;
        crate::city::lemma_idx_injective(cities@[j], c);
    }
    r
}

/// Looking `b` up after one more entry is appended to a neighbour list.
pub proof fn lemma_weight_in_push(ns: Seq<(City, u8)>, e: (City, u8), b: City)
    ensures
        weight_in(ns.push(e), b) == match weight_in(ns, b) {
            Some(w) => Some(w),
            None => if e.0 == b {
                Some(e.1)
            } else {
                None
            },
        },
    decreases ns.len(),
{
    if ns.len() > 0 {
        assert(ns.push(e)[0] == ns[0]);
        assert(ns.push(e).drop_first() =~= ns.drop_first().push(e));
        lemma_weight_in_push(ns.drop_first(), e, b);
    } else {
        assert(ns.push(e)[0] == e);
        assert(ns.push(e).drop_first() =~= ns);
    }
}

/// Along any list of connections, the trains from `a` to `b` are those from `b` to `a`.
pub proof fn lemma_weight_in_symmetric(ls: Seq<Link>, a: City, b: City)
    ensures
        weight_in(neighbors_in(ls, a), b) == weight_in(neighbors_in(ls, b), a),
    decreases ls.len(),
{
    if ls.len() > 0 {
        let l = ls.last();
        let ra = neighbors_in(ls.drop_last(), a);
        let rb = neighbors_in(ls.drop_last(), b);
        lemma_weight_in_symmetric(ls.drop_last(), a, b);
        if l.0 == a {
            lemma_weight_in_push(ra, (l.1, l.2), b);
        } else if l.1 == a {
            lemma_weight_in_push(ra, (l.0, l.2), b);
        }
        if l.0 == b {
            lemma_weight_in_push(rb, (l.1, l.2), a);
        } else if l.1 == b {
            lemma_weight_in_push(rb, (l.0, l.2), a);
        }
    }
}

/// The board is undirected: the connection from `a` to `b` takes as many trains as the one
/// from `b` to `a`, and either both exist or neither does.
pub proof fn lemma_weight_symmetric(a: City, b: City)
    ensures
        board_weight(a, b) == board_weight(b, a),
{
    lemma_weight_in_symmetric(board_links(), a, b);
}

/// The lengths that a connection of the board can have, in trains.
pub open spec fn is_track_length(w: u8) -> bool {
    w == 1 || w == 2 || w == 3 || w == 4 || w == 6 || w == 8
}

/// Every connection of the board has one of the known lengths.
pub proof fn lemma_board_track_lengths()
    ensures
        forall|i: int|
            0 <= i < board_links().len() ==> is_track_length(#[trigger] board_links()[i].2),
{
}

/// A neighbour list gathered from connections of known lengths holds only known lengths.
pub proof fn lemma_neighbors_in_lengths(ls: Seq<Link>, c: City)
    requires
        forall|i: int| 0 <= i < ls.len() ==> is_track_length(#[trigger] ls[i].2),
    ensures
        forall|j: int|
            0 <= j < neighbors_in(ls, c).len() ==> is_track_length(
                #[trigger] neighbors_in(ls, c)[j].1,
            ),
    decreases ls.len(),
{
    if ls.len() > 0 {
        let p = ls.drop_last();
        assert forall|i: int| 0 <= i < p.len() implies is_track_length(#[trigger] p[i].2) by {
            assert(p[i] == ls[i]);
        }
        lemma_neighbors_in_lengths(p, c);
        let l = ls.last();
        assert(is_track_length(l.2));
        let rest = neighbors_in(p, c);
        let all = neighbors_in(ls, c);
        assert forall|j: int| 0 <= j < all.len() implies is_track_length(#[trigger] all[j].1) by {
            if j < rest.len() {
                assert(all[j] == rest[j]);
            }
        }
    }
}

/// What a neighbour list records for `b` is one of its entries.
pub proof fn lemma_weight_in_entry(ns: Seq<(City, u8)>, b: City)
    ensures
        weight_in(ns, b) matches Some(w) ==> exists|j: int| 0 <= j < ns.len() && ns[j] == (b, w),
    decreases ns.len(),
{
    if ns.len() > 0 && ns[0].0 != b {
        lemma_weight_in_entry(ns.drop_first(), b);
        if let Some(w) = weight_in(ns, b) {
            let j = choose|j: int| 0 <= j < ns.drop_first().len() && ns.drop_first()[j] == (b, w);
            assert(ns[j + 1] == (b, w));
        }
    }
}

/// The entry at `i` decides the lookup of its city when no earlier entry names that city.
pub proof fn lemma_weight_in_first(ns: Seq<(City, u8)>, i: int)
    requires
        0 <= i < ns.len(),
        forall|j: int| 0 <= j < i ==> ns[j].0 != ns[i].0,
    ensures
        weight_in(ns, ns[i].0) == Some(ns[i].1),
    decreases i,
{
    if i > 0 {
        let t = ns.drop_first();
        assert forall|j: int| 0 <= j < i - 1 implies (#[trigger] t[j]).0 != t[i - 1].0 by {
            assert(t[j] == ns[j + 1]);
        }
        lemma_weight_in_first(t, i - 1);
    }
}

/// Every connection of the board that a lookup finds has one of the known lengths.
pub proof fn lemma_board_weight_length(a: City, b: City)
    ensures
        board_weight(a, b) matches Some(w) ==> is_track_length(w),
{
    lemma_board_track_lengths();
    lemma_neighbors_in_lengths(board_links(), a);
    lemma_weight_in_entry(board_neighbors(a), b);
    if let Some(w) = board_weight(a, b) {
        let ns = board_neighbors(a);
        let j = choose|j: int| 0 <= j < ns.len() && ns[j] == (b, w);
        assert(is_track_length(ns[j].1));
    }
}

/// Whether each city of `route` is joined to the next by a connection of the board.
pub open spec fn is_track_route(route: Seq<City>) -> bool {
    forall|k: int|
        0 <= k < route.len() - 1 ==> (#[trigger] board_weight(route[k], route[k + 1])) is Some
}

/// The trains that the connection from `a` to `b` takes, or zero where there is none.
pub open spec fn leg_trains(a: City, b: City) -> nat {
    match board_weight(a, b) {
        Some(w) => w as nat,
        None => 0,
    }
}

/// The trains that `route` takes: the lengths of the connections between consecutive cities.
pub open spec fn route_trains(route: Seq<City>) -> nat
    decreases route.len(),
{
    if route.len() < 2 {
        0
    } else {
        route_trains(route.drop_last()) + leg_trains(route[route.len() - 2], route.last())
    }
}

} // verus!
