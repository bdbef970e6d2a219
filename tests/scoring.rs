use ticket2ride::scoring::{
    big_ticket_score, get_scores, score_on, ticket_score, trains_score, EXPRESS_BONUS,
    NO_STATIONS_BONUS,
};
use ticket2ride::{create_network, get_big_tickets, get_tickets, City, Ticket};

fn scenario_route() -> Vec<City> {
    vec![
        City::Edinburgh,
        City::London,
        City::Dieppe,
        City::Paris,
        City::Zuerich,
        City::Muenchen,
        City::Wien,
        City::Budapest,
        City::Bucuresti,
        City::Sofia,
        City::Athina,
        City::Smyrna,
    ]
}

#[test]
fn test_get_scores() {
    let test_route = scenario_route();
    let test_score = get_scores(test_route);
    assert_eq!(test_score, 120);
}

#[test]
fn test_big_ticket_score() {
    let exact_route = vec![
        City::Lisboa,
        City::Madrid,
        City::Pamplona,
        City::Paris,
        City::Frankfurt,
        City::Berlin,
        City::Danzig,
    ];
    let exact_score = big_ticket_score(&exact_route);
    assert_eq!(exact_score, 20);
}

#[test]
fn test_big_ticket_extended_route() {
    let extended_route = vec![
        City::Cadiz,
        City::Lisboa,
        City::Madrid,
        City::Pamplona,
        City::Paris,
        City::Frankfurt,
        City::Berlin,
        City::Danzig,
        City::Riga,
    ];
    let extended_score = big_ticket_score(&extended_route);
    assert_eq!(extended_score, 20);
}

#[test]
fn test_big_ticket_only_start() {
    let non_route_start = vec![City::Lisboa, City::Madrid];
    let non_score_start = big_ticket_score(&non_route_start);
    assert_eq!(non_score_start, 0);
}

#[test]
fn test_big_ticket_only_end() {
    let non_route_end = vec![City::Berlin, City::Danzig];
    let non_score_end = big_ticket_score(&non_route_end);
    assert_eq!(non_score_end, 0);
}

#[test]
fn scenario_score_parts() {
    let route = scenario_route();
    let net = create_network();
    assert_eq!(big_ticket_score(&route), 21);
    assert_eq!(ticket_score(&route), 41);
    assert_eq!(trains_score(&net, &route), 36);
    assert_eq!(EXPRESS_BONUS + NO_STATIONS_BONUS, 22);
    assert_eq!(score_on(&net, &route), 120);
}

#[test]
fn score_is_the_same_on_repeated_calls() {
    let first = get_scores(scenario_route());
    let second = get_scores(scenario_route());
    assert_eq!(first, second);
}

#[test]
fn big_tickets_count_by_membership_in_any_order() {
    let mut reversed = vec![
        City::Lisboa,
        City::Madrid,
        City::Pamplona,
        City::Paris,
        City::Frankfurt,
        City::Berlin,
        City::Danzig,
    ];
    reversed.reverse();
    assert_eq!(big_ticket_score(&reversed), 20);
    assert_eq!(big_ticket_score(&[City::Danzig, City::Lisboa]), 20);
    assert_eq!(big_ticket_score(&[City::Edinburgh, City::Athina, City::Brest, City::Petrograd]), 41);
}

#[test]
fn empty_and_single_routes() {
    let net = create_network();
    assert_eq!(big_ticket_score(&[]), 0);
    assert_eq!(ticket_score(&[]), 0);
    assert_eq!(trains_score(&net, &[]), 0);
    assert_eq!(trains_score(&net, &[City::Paris]), 0);
    assert_eq!(get_scores(vec![City::Paris]), 22);
    assert_eq!(get_scores(vec![]), 22);
}

#[test]
fn trains_points_follow_the_table() {
    let net = create_network();
    assert_eq!(trains_score(&net, &[City::Dieppe, City::Paris]), 1);
    assert_eq!(trains_score(&net, &[City::London, City::Dieppe]), 2);
    assert_eq!(trains_score(&net, &[City::Amsterdam, City::Essen]), 4);
    assert_eq!(trains_score(&net, &[City::Edinburgh, City::London]), 7);
    assert_eq!(trains_score(&net, &[City::Palermo, City::Smyrna]), 15);
    assert_eq!(trains_score(&net, &[City::Stockholm, City::Petrograd]), 21);
    assert_eq!(
        trains_score(&net, &[City::Kobenhavn, City::Stockholm, City::Petrograd]),
        4 + 21
    );
}

#[test]
fn regular_ticket_examples() {
    assert_eq!(ticket_score(&[City::Edinburgh, City::London, City::Dieppe, City::Paris]), 7);
    assert_eq!(ticket_score(&[City::Kyiv, City::Sochi, City::Petrograd]), 14);
    assert_eq!(ticket_score(&[City::Lisboa, City::Madrid]), 0);
}

#[test]
fn ticket_collections() {
    let big = get_big_tickets();
    let normal = get_tickets();
    assert_eq!(big.len(), 6);
    assert_eq!(normal.len(), 40);
    assert_eq!(big.iter().map(|t| t.value as u32).sum::<u32>(), 123);
    assert_eq!(normal.iter().map(|t| t.value as u32).sum::<u32>(), 321);
    assert_eq!(big[0], Ticket::new(City::Brest, City::Petrograd, 20));
    let t = Ticket::new(City::Edinburgh, City::Athina, 20);
    assert_eq!(t.depart, City::Edinburgh);
    assert_eq!(t.arrive, City::Athina);
    assert_eq!(t.value, 20);
}
