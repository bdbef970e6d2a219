use std::str::FromStr;
use ticket2ride::{all_cities, City, UnknownCity, CITY_COUNT};

#[test]
fn names_parse_back_to_their_city() {
    for c in all_cities() {
        assert_eq!(City::from_name(c.name()), Ok(c));
        assert_eq!(City::from_str(c.name()), Ok(c));
    }
}

#[test]
fn parse_known_names() {
    assert_eq!(City::from_str("Athina"), Ok(City::Athina));
    assert_eq!(City::from_str("Edinburgh"), Ok(City::Edinburgh));
    assert_eq!(City::from_name("Sochi"), Ok(City::Sochi));
}

#[test]
fn parse_unknown_names() {
    assert_eq!(City::from_str("Atlantis"), Err(UnknownCity));
    assert_eq!(City::from_str(""), Err(UnknownCity));
    assert_eq!(City::from_str("athina"), Err(UnknownCity));
    assert_eq!(City::from_str("Athina "), Err(UnknownCity));
    assert_eq!(City::from_name("Zürich"), Err(UnknownCity));
}

#[test]
fn cities_are_numbered_in_order() {
    let cities = all_cities();
    assert_eq!(cities.len(), CITY_COUNT);
    assert_eq!(CITY_COUNT, 47);
    for (i, c) in cities.iter().enumerate() {
        assert_eq!(c.index(), i);
        assert_eq!(City::from_index(i), *c);
    }
    assert_eq!(cities[0], City::Edinburgh);
    assert_eq!(cities[46], City::Sochi);
    assert_eq!(City::Kyiv.name(), "Kyiv");
}
