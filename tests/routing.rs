use ticket2ride::routing::{traverse, Search, ADMISSION_SLACK, TRAINS};
use ticket2ride::scoring::big_ticket_score;
use ticket2ride::search::{find_max, max_key};
use ticket2ride::{create_network, City};

fn trains_of(route: &[City]) -> u32 {
    let net = create_network();
    route
        .windows(2)
        .map(|p| net.weight(p[0], p[1]).unwrap() as u32)
        .sum()
}

#[test]
fn routes_from_stockholm_are_admitted_simple_paths() {
    let routes = traverse(City::Stockholm);
    assert_eq!(routes.len(), 150273);
    for route in routes.iter() {
        assert_eq!(route[0], City::Stockholm);
        for i in 0..route.len() {
            for j in (i + 1)..route.len() {
                assert_ne!(route[i], route[j]);
            }
        }
        let used = trains_of(route);
        assert!(used <= TRAINS as u32);
        assert!(TRAINS as u32 - used <= ADMISSION_SLACK as u32);
        assert_ne!(big_ticket_score(route), 0);
    }
}

#[test]
fn best_route_from_stockholm() {
    let (route, score) = find_max(City::Stockholm).unwrap();
    assert_eq!(score, 211);
    assert_eq!(
        route,
        vec![
            City::Stockholm,
            City::Petrograd,
            City::Wilno,
            City::Kyiv,
            City::Budapest,
            City::Wien,
            City::Berlin,
            City::Essen,
            City::Amsterdam,
            City::London,
            City::Dieppe,
            City::Brest,
            City::Pamplona,
            City::Madrid,
            City::Cadiz
        ]
    );
}

#[test]
fn search_steps_by_hand() {
    let mut search = Search::new(City::Edinburgh);
    assert!(!search.is_done());
    assert_eq!(search.route(), &[City::Edinburgh][..]);
    assert_eq!(search.trains_left(), 45);
    search.step();
    assert_eq!(search.route(), &[City::Edinburgh, City::London][..]);
    assert_eq!(search.trains_left(), 41);
    search.step();
    assert_eq!(search.route().len(), 3);
    assert_eq!(search.route()[2], City::Dieppe);
    assert_eq!(search.trains_left(), 39);
}

#[test]
fn search_run_by_hand_matches_traverse_count() {
    let mut search = Search::new(City::Stockholm);
    let mut steps: u64 = 0;
    while !search.is_done() {
        search.step();
        steps += 1;
        if steps == 3 {
            assert_eq!(search.route()[0], City::Stockholm);
        }
    }
    assert!(search.route().is_empty());
    assert_eq!(search.trains_left(), 45);
    assert_eq!(search.into_routes().len(), 150273);
}

#[test]
fn max_key_picks_first_largest() {
    assert_eq!(max_key(&[]), None);
    assert_eq!(max_key(&[5]), Some(0));
    assert_eq!(max_key(&[3, 7, 7, 1]), Some(1));
    assert_eq!(max_key(&[1, 2, 3]), Some(2));
    assert_eq!(max_key(&[9, 9, 9]), Some(0));
}
