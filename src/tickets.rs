//! The destination tickets of the game.

use vstd::prelude::*;

use crate::city::City;

verus! {

/// A destination ticket: it scores `value` when a route visits both `depart` and `arrive`.
#[derive(Clone, Copy, Debug, PartialEq, Eq, Structural)]
pub struct Ticket {
    /// The departing city of the ticket.
    pub depart: City,
    /// The arriving city of the ticket.
    pub arrive: City,
    /// The points that the ticket is worth.
    pub value: u8,
}

/// The ticket from `depart` to `arrive` worth `value`.
pub open spec fn ticket(depart: City, arrive: City, value: u8) -> Ticket {
    Ticket { depart, arrive, value }
}

/// The six long-route tickets of the game.
pub open spec fn big_tickets() -> Seq<Ticket> {
    seq![
        ticket(City::Brest, City::Petrograd, 20),
        ticket(City::Cadiz, City::Stockholm, 21),
        ticket(City::Edinburgh, City::Athina, 21),
        ticket(City::Kobenhavn, City::Erzurum, 21),
        ticket(City::Lisboa, City::Danzig, 20),
        ticket(City::Palermo, City::Moskva, 20),
    ]
}

/// The regular tickets of the game.
pub open spec fn normal_tickets() -> Seq<Ticket> {
    seq![
        ticket(City::Amsterdam, City::Pamplona, 7),
        ticket(City::Amsterdam, City::Wilno, 12),
        ticket(City::Angora, City::Kharkov, 10),
        ticket(City::Athina, City::Angora, 5),
        ticket(City::Athina, City::Wilno, 11),
        ticket(City::Barcelona, City::Bruxelles, 8),
        ticket(City::Barcelona, City::Muenchen, 8),
        ticket(City::Berlin, City::Bucuresti, 8),
        ticket(City::Berlin, City::Moskva, 12),
        ticket(City::Berlin, City::Roma, 9),
        ticket(City::Brest, City::Marseille, 7),
        ticket(City::Brest, City::Venezia, 8),
        ticket(City::Bruxelles, City::Danzig, 9),
        ticket(City::Budapest, City::Sofia, 5),
        ticket(City::Edinburgh, City::Paris, 7),
        ticket(City::Essen, City::Kyiv, 10),
        ticket(City::Frankfurt, City::Kobenhavn, 5),
        ticket(City::Frankfurt, City::Smolensk, 13),
        ticket(City::Kyiv, City::Petrograd, 6),
        ticket(City::Kyiv, City::Sochi, 8),
        ticket(City::London, City::Berlin, 7),
        ticket(City::London, City::Wien, 10),
        ticket(City::Madrid, City::Dieppe, 8),
        ticket(City::Madrid, City::Zuerich, 8),
        ticket(City::Marseille, City::Essen, 8),
        ticket(City::Palermo, City::Constantinople, 8),
        ticket(City::Paris, City::Wien, 8),
        ticket(City::Paris, City::Zagrab, 7),
        ticket(City::Riga, City::Bucuresti, 10),
        ticket(City::Roma, City::Smyrna, 8),
        ticket(City::Rostov, City::Erzurum, 5),
        ticket(City::Sarajevo, City::Sevastopol, 8),
        ticket(City::Smolensk, City::Rostov, 8),
        ticket(City::Sofia, City::Smyrna, 5),
        ticket(City::Stockholm, City::Wien, 11),
        ticket(City::Venezia, City::Constantinople, 10),
        ticket(City::Warszawa, City::Smolensk, 6),
        ticket(City::Zagrab, City::Brindisi, 6),
        ticket(City::Zuerich, City::Brindisi, 6),
        ticket(City::Zuerich, City::Budapest, 6),
    ]
}

impl Ticket {
    /// The ticket from `depart` to `arrive` worth `value`.
    pub fn new(depart: City, arrive: City, value: u8) -> (r: Ticket)
        ensures
            r == ticket(depart, arrive, value),
    {
        Ticket { depart, arrive, value }
    }
}

/// The six long-route tickets of the game.
pub fn get_big_tickets() -> (r: Vec<Ticket>)
    ensures
        r@ == big_tickets(),
{
    let r = vec![
        Ticket::new(City::Brest, City::Petrograd, 20),
        Ticket::new(City::Cadiz, City::Stockholm, 21),
        Ticket::new(City::Edinburgh, City::Athina, 21),
        Ticket::new(City::Kobenhavn, City::Erzurum, 21),
        Ticket::new(City::Lisboa, City::Danzig, 20),
        Ticket::new(City::Palermo, City::Moskva, 20),
    ];
    assert(r@ =~= big_tickets());
    r
}

/// The regular tickets of the game.
pub fn get_tickets() -> (r: Vec<Ticket>)
    ensures
        r@ == normal_tickets(),
{
    let r = vec![
        Ticket::new(City::Amsterdam, City::Pamplona, 7),
        Ticket::new(City::Amsterdam, City::Wilno, 12),
        Ticket::new(City::Angora, City::Kharkov, 10),
        Ticket::new(City::Athina, City::Angora, 5),
        Ticket::new(City::Athina, City::Wilno, 11),
        Ticket::new(City::Barcelona, City::Bruxelles, 8),
        Ticket::new(City::Barcelona, City::Muenchen, 8),
        Ticket::new(City::Berlin, City::Bucuresti, 8),
        Ticket::new(City::Berlin, City::Moskva, 12),
        Ticket::new(City::Berlin, City::Roma, 9),
        Ticket::new(City::Brest, City::Marseille, 7),
        Ticket::new(City::Brest, City::Venezia, 8),
        Ticket::new(City::Bruxelles, City::Danzig, 9),
        Ticket::new(City::Budapest, City::Sofia, 5),
        Ticket::new(City::Edinburgh, City::Paris, 7),
        Ticket::new(City::Essen, City::Kyiv, 10),
        Ticket::new(City::Frankfurt, City::Kobenhavn, 5),
        Ticket::new(City::Frankfurt, City::Smolensk, 13),
        Ticket::new(City::Kyiv, City::Petrograd, 6),
        Ticket::new(City::Kyiv, City::Sochi, 8),
        Ticket::new(City::London, City::Berlin, 7),
        Ticket::new(City::London, City::Wien, 10),
        Ticket::new(City::Madrid, City::Dieppe, 8),
        Ticket::new(City::Madrid, City::Zuerich, 8),
        Ticket::new(City::Marseille, City::Essen, 8),
        Ticket::new(City::Palermo, City::Constantinople, 8),
        Ticket::new(City::Paris, City::Wien, 8),
        Ticket::new(City::Paris, City::Zagrab, 7),
        Ticket::new(City::Riga, City::Bucuresti, 10),
        Ticket::new(City::Roma, City::Smyrna, 8),
        Ticket::new(City::Rostov, City::Erzurum, 5),
        Ticket::new(City::Sarajevo, City::Sevastopol, 8),
        Ticket::new(City::Smolensk, City::Rostov, 8),
        Ticket::new(City::Sofia, City::Smyrna, 5),
        Ticket::new(City::Stockholm, City::Wien, 11),
        Ticket::new(City::Venezia, City::Constantinople, 10),
        Ticket::new(City::Warszawa, City::Smolensk, 6),
        Ticket::new(City::Zagrab, City::Brindisi, 6),
        Ticket::new(City::Zuerich, City::Brindisi, 6),
        Ticket::new(City::Zuerich, City::Budapest, 6),
    ];
    assert(r@ =~= normal_tickets());
    r
}

} // verus!
