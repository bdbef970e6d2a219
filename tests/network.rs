use ticket2ride::routing::{dijkstra, UNREACHED};
use ticket2ride::{all_cities, create_network, City, CITY_COUNT};

#[test]
fn check_kyiv_has_6_routes() {
    let routes = create_network();
    assert_eq!(routes.neighbors(City::Kyiv).len(), 6);
}

#[test]
fn check_route_pairs() {
    let routes = create_network();
    for city in all_cities() {
        for (destination, distance) in routes.neighbors(city).iter() {
            assert_eq!(Some(*distance), routes.weight(*destination, city));
        }
    }
}

#[test]
fn weight_is_symmetric_for_every_pair() {
    let net = create_network();
    for a in all_cities() {
        for b in all_cities() {
            assert_eq!(net.weight(a, b), net.weight(b, a));
        }
    }
}

#[test]
fn weight_of_known_connections() {
    let net = create_network();
    assert_eq!(net.weight(City::Edinburgh, City::London), Some(4));
    assert_eq!(net.weight(City::Stockholm, City::Petrograd), Some(8));
    assert_eq!(net.weight(City::Palermo, City::Smyrna), Some(6));
    assert_eq!(net.weight(City::Dieppe, City::Paris), Some(1));
    assert_eq!(net.weight(City::Edinburgh, City::Athina), None);
    assert_eq!(net.weight(City::Paris, City::Paris), None);
}

#[test]
fn every_city_has_neighbors_and_edinburgh_one() {
    let net = create_network();
    assert_eq!(net.neighbors(City::Edinburgh).len(), 1);
    assert_eq!(net.neighbors(City::Paris).len(), 7);
    let mut ends = 0;
    for c in all_cities() {
        assert!(net.neighbors(c).len() > 0);
        ends += net.neighbors(c).len();
    }
    assert_eq!(ends, 2 * 90);
}

#[test]
fn dijkstra_from_edinburgh_full() {
    let (dist, prev) = dijkstra(City::Edinburgh, City::Athina, false);
    assert_eq!(dist.len(), CITY_COUNT);
    assert_eq!(prev.len(), CITY_COUNT);
    assert_eq!(dist[City::Edinburgh.index()], 0);
    assert_eq!(prev[City::Edinburgh.index()], None);
    assert_eq!(dist[City::London.index()], 4);
    assert_eq!(dist[City::Paris.index()], 7);
    assert_eq!(dist[City::Athina.index()], 20);
    assert_eq!(dist[City::Erzurum.index()], 26);
    assert_eq!(dist[City::Sochi.index()], 24);
    let mut path = vec![City::Athina];
    let mut current = City::Athina;
    while current != City::Edinburgh {
        current = prev[current.index()].unwrap();
        path.push(current);
    }
    assert_eq!(
        path,
        vec![
            City::Athina,
            City::Brindisi,
            City::Roma,
            City::Venezia,
            City::Zuerich,
            City::Paris,
            City::Dieppe,
            City::London,
            City::Edinburgh
        ]
    );
    for c in all_cities() {
        assert_ne!(dist[c.index()], UNREACHED);
    }
}

#[test]
fn dijkstra_stops_at_arrival() {
    let (full, _) = dijkstra(City::Edinburgh, City::Athina, false);
    let (dist, prev) = dijkstra(City::Edinburgh, City::Athina, true);
    assert_eq!(dist[City::Athina.index()], 20);
    assert_eq!(prev[City::Athina.index()], Some(City::Brindisi));
    for c in all_cities() {
        if full[c.index()] < 20 {
            assert_eq!(dist[c.index()], full[c.index()]);
        }
    }
    assert_ne!(dist[City::Erzurum.index()], full[City::Erzurum.index()]);
}
