//! Maximum theoretical score of a route on the board of Ticket to Ride Europe.

pub mod city;
pub mod network;
pub mod routing;
pub mod scoring;
pub mod search;
pub mod shortest;
pub mod tickets;

pub use city::{all_cities, City, UnknownCity, CITY_COUNT};
pub use network::{create_network, Network};
pub use search::max_key;
pub use tickets::{get_big_tickets, get_tickets, Ticket};
