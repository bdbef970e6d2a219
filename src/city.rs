//! The closed set of cities on the board, with a dense numbering and their names.

use vstd::prelude::*;
use vstd::string::StringSliceAdditionalSpecFns;

verus! {

/// Number of cities on the board.
pub const CITY_COUNT: usize = 47;

/// A city of the board.
#[derive(Clone, Copy, Debug, PartialEq, Eq, Hash, Structural)]
pub enum City {
    Edinburgh,
    London,
    Dieppe,
    Amsterdam,
    Brest,
    Paris,
    Bruxelles,
    Essen,
    Frankfurt,
    Pamplona,
    Zuerich,
    Marseille,
    Kobenhavn,
    Berlin,
    Muenchen,
    Madrid,
    Barcelona,
    Venezia,
    Roma,
    Stockholm,
    Danzig,
    Warszawa,
    Wien,
    Lisboa,
    Cadiz,
    Zagrab,
    Brindisi,
    Palermo,
    Petrograd,
    Riga,
    Wilno,
    Kyiv,
    Budapest,
    Sarajevo,
    Athina,
    Smyrna,
    Moskva,
    Smolensk,
    Kharkov,
    Bucuresti,
    Sofia,
    Constantinople,
    Angora,
    Rostov,
    Sevastopol,
    Erzurum,
    Sochi,
}

/// Signals a name that is not the name of any city.
#[derive(Clone, Copy, Debug, PartialEq, Eq, Structural)]
pub struct UnknownCity;

impl City {
    /// Position of the city in the fixed numbering `0 .. CITY_COUNT`.
    pub open spec fn idx(self) -> nat {
        match self {
            City::Edinburgh => 0,
            City::London => 1,
            City::Dieppe => 2,
            City::Amsterdam => 3,
            City::Brest => 4,
            City::Paris => 5,
            City::Bruxelles => 6,
            City::Essen => 7,
            City::Frankfurt => 8,
            City::Pamplona => 9,
            City::Zuerich => 10,
            City::Marseille => 11,
            City::Kobenhavn => 12,
            City::Berlin => 13,
            City::Muenchen => 14,
            City::Madrid => 15,
            City::Barcelona => 16,
            City::Venezia => 17,
            City::Roma => 18,
            City::Stockholm => 19,
            City::Danzig => 20,
            City::Warszawa => 21,
            City::Wien => 22,
            City::Lisboa => 23,
            City::Cadiz => 24,
            City::Zagrab => 25,
            City::Brindisi => 26,
            City::Palermo => 27,
            City::Petrograd => 28,
            City::Riga => 29,
            City::Wilno => 30,
            City::Kyiv => 31,
            City::Budapest => 32,
            City::Sarajevo => 33,
            City::Athina => 34,
            City::Smyrna => 35,
            City::Moskva => 36,
            City::Smolensk => 37,
            City::Kharkov => 38,
            City::Bucuresti => 39,
            City::Sofia => 40,
            City::Constantinople => 41,
            City::Angora => 42,
            City::Rostov => 43,
            City::Sevastopol => 44,
            City::Erzurum => 45,
            City::Sochi => 46,
        }
    }

    /// The city numbered `i`; the inverse of `idx`.
    pub open spec fn at(i: nat) -> City
        recommends
            i < CITY_COUNT,
    {
        if i == 0 {
            City::Edinburgh
        }
         else if i == 1 {
            City::London
        }
         else if i == 2 {
            City::Dieppe
        }
         else if i == 3 {
            City::Amsterdam
        }
         else if i == 4 {
            City::Brest
        }
         else if i == 5 {
            City::Paris
        }
         else if i == 6 {
            City::Bruxelles
        }
         else if i == 7 {
            City::Essen
        }
         else if i == 8 {
            City::Frankfurt
        }
         else if i == 9 {
            City::Pamplona
        }
         else if i == 10 {
            City::Zuerich
        }
         else if i == 11 {
            City::Marseille
        }
         else if i == 12 {
            City::Kobenhavn
        }
         else if i == 13 {
            City::Berlin
        }
         else if i == 14 {
            City::Muenchen
        }
         else if i == 15 {
            City::Madrid
        }
         else if i == 16 {
            City::Barcelona
        }
         else if i == 17 {
            City::Venezia
        }
         else if i == 18 {
            City::Roma
        }
         else if i == 19 {
            City::Stockholm
        }
         else if i == 20 {
            City::Danzig
        }
         else if i == 21 {
            City::Warszawa
        }
         else if i == 22 {
            City::Wien
        }
         else if i == 23 {
            City::Lisboa
        }
         else if i == 24 {
            City::Cadiz
        }
         else if i == 25 {
            City::Zagrab
        }
         else if i == 26 {
            City::Brindisi
        }
         else if i == 27 {
            City::Palermo
        }
         else if i == 28 {
            City::Petrograd
        }
         else if i == 29 {
            City::Riga
        }
         else if i == 30 {
            City::Wilno
        }
         else if i == 31 {
            City::Kyiv
        }
         else if i == 32 {
            City::Budapest
        }
         else if i == 33 {
            City::Sarajevo
        }
         else if i == 34 {
            City::Athina
        }
         else if i == 35 {
            City::Smyrna
        }
         else if i == 36 {
            City::Moskva
        }
         else if i == 37 {
            City::Smolensk
        }
         else if i == 38 {
            City::Kharkov
        }
         else if i == 39 {
            City::Bucuresti
        }
         else if i == 40 {
            City::Sofia
        }
         else if i == 41 {
            City::Constantinople
        }
         else if i == 42 {
            City::Angora
        }
         else if i == 43 {
            City::Rostov
        }
         else if i == 44 {
            City::Sevastopol
        }
         else if i == 45 {
            City::Erzurum
        }
        else {
            City::Sochi
        }
    }

    /// The name under which the city is written.
    pub open spec fn spec_name(self) -> Seq<char> {
        match self {
            City::Edinburgh => "Edinburgh"@,
            City::London => "London"@,
            City::Dieppe => "Dieppe"@,
            City::Amsterdam => "Amsterdam"@,
            City::Brest => "Brest"@,
            City::Paris => "Paris"@,
            City::Bruxelles => "Bruxelles"@,
            City::Essen => "Essen"@,
            City::Frankfurt => "Frankfurt"@,
            City::Pamplona => "Pamplona"@,
            City::Zuerich => "Zuerich"@,
            City::Marseille => "Marseille"@,
            City::Kobenhavn => "Kobenhavn"@,
            City::Berlin => "Berlin"@,
            City::Muenchen => "Muenchen"@,
            City::Madrid => "Madrid"@,
            City::Barcelona => "Barcelona"@,
            City::Venezia => "Venezia"@,
            City::Roma => "Roma"@,
            City::Stockholm => "Stockholm"@,
            City::Danzig => "Danzig"@,
            City::Warszawa => "Warszawa"@,
            City::Wien => "Wien"@,
            City::Lisboa => "Lisboa"@,
            City::Cadiz => "Cadiz"@,
            City::Zagrab => "Zagrab"@,
            City::Brindisi => "Brindisi"@,
            City::Palermo => "Palermo"@,
            City::Petrograd => "Petrograd"@,
            City::Riga => "Riga"@,
            City::Wilno => "Wilno"@,
            City::Kyiv => "Kyiv"@,
            City::Budapest => "Budapest"@,
            City::Sarajevo => "Sarajevo"@,
            City::Athina => "Athina"@,
            City::Smyrna => "Smyrna"@,
            City::Moskva => "Moskva"@,
            City::Smolensk => "Smolensk"@,
            City::Kharkov => "Kharkov"@,
            City::Bucuresti => "Bucuresti"@,
            City::Sofia => "Sofia"@,
            City::Constantinople => "Constantinople"@,
            City::Angora => "Angora"@,
            City::Rostov => "Rostov"@,
            City::Sevastopol => "Sevastopol"@,
            City::Erzurum => "Erzurum"@,
            City::Sochi => "Sochi"@,
        }
    }

    /// Position of the city in the fixed numbering.
    pub fn index(self) -> (r: usize)
        ensures
            r == self.idx(),
            r < CITY_COUNT,
    {
        match self {
            City::Edinburgh => 0,
            City::London => 1,
            City::Dieppe => 2,
            City::Amsterdam => 3,
            City::Brest => 4,
            City::Paris => 5,
            City::Bruxelles => 6,
            City::Essen => 7,
            City::Frankfurt => 8,
            City::Pamplona => 9,
            City::Zuerich => 10,
            City::Marseille => 11,
            City::Kobenhavn => 12,
            City::Berlin => 13,
            City::Muenchen => 14,
            City::Madrid => 15,
            City::Barcelona => 16,
            City::Venezia => 17,
            City::Roma => 18,
            City::Stockholm => 19,
            City::Danzig => 20,
            City::Warszawa => 21,
            City::Wien => 22,
            City::Lisboa => 23,
            City::Cadiz => 24,
            City::Zagrab => 25,
            City::Brindisi => 26,
            City::Palermo => 27,
            City::Petrograd => 28,
            City::Riga => 29,
            City::Wilno => 30,
            City::Kyiv => 31,
            City::Budapest => 32,
            City::Sarajevo => 33,
            City::Athina => 34,
            City::Smyrna => 35,
            City::Moskva => 36,
            City::Smolensk => 37,
            City::Kharkov => 38,
            City::Bucuresti => 39,
            City::Sofia => 40,
            City::Constantinople => 41,
            City::Angora => 42,
            City::Rostov => 43,
            City::Sevastopol => 44,
            City::Erzurum => 45,
            City::Sochi => 46,
        }
    }

    /// The name under which the city is written.
    pub fn name(self) -> (r: &'static str)
        ensures
            r@ == self.spec_name(),
    {
        match self {
            City::Edinburgh => "Edinburgh",
            City::London => "London",
            City::Dieppe => "Dieppe",
            City::Amsterdam => "Amsterdam",
            City::Brest => "Brest",
            City::Paris => "Paris",
            City::Bruxelles => "Bruxelles",
            City::Essen => "Essen",
            City::Frankfurt => "Frankfurt",
            City::Pamplona => "Pamplona",
            City::Zuerich => "Zuerich",
            City::Marseille => "Marseille",
            City::Kobenhavn => "Kobenhavn",
            City::Berlin => "Berlin",
            City::Muenchen => "Muenchen",
            City::Madrid => "Madrid",
            City::Barcelona => "Barcelona",
            City::Venezia => "Venezia",
            City::Roma => "Roma",
            City::Stockholm => "Stockholm",
            City::Danzig => "Danzig",
            City::Warszawa => "Warszawa",
            City::Wien => "Wien",
            City::Lisboa => "Lisboa",
            City::Cadiz => "Cadiz",
            City::Zagrab => "Zagrab",
            City::Brindisi => "Brindisi",
            City::Palermo => "Palermo",
            City::Petrograd => "Petrograd",
            City::Riga => "Riga",
            City::Wilno => "Wilno",
            City::Kyiv => "Kyiv",
            City::Budapest => "Budapest",
            City::Sarajevo => "Sarajevo",
            City::Athina => "Athina",
            City::Smyrna => "Smyrna",
            City::Moskva => "Moskva",
            City::Smolensk => "Smolensk",
            City::Kharkov => "Kharkov",
            City::Bucuresti => "Bucuresti",
            City::Sofia => "Sofia",
            City::Constantinople => "Constantinople",
            City::Angora => "Angora",
            City::Rostov => "Rostov",
            City::Sevastopol => "Sevastopol",
            City::Erzurum => "Erzurum",
            City::Sochi => "Sochi",
        }
    }

    /// The city numbered `i`.
    pub fn from_index(i: usize) -> (r: City)
        requires
            i < CITY_COUNT,
        ensures
            r == City::at(i as nat),
            r.idx() == i,
    {
        proof {
            lemma_at_idx(i as nat);
        }
        match i {
            0 => City::Edinburgh,
            1 => City::London,
            2 => City::Dieppe,
            3 => City::Amsterdam,
            4 => City::Brest,
            5 => City::Paris,
            6 => City::Bruxelles,
            7 => City::Essen,
            8 => City::Frankfurt,
            9 => City::Pamplona,
            10 => City::Zuerich,
            11 => City::Marseille,
            12 => City::Kobenhavn,
            13 => City::Berlin,
            14 => City::Muenchen,
            15 => City::Madrid,
            16 => City::Barcelona,
            17 => City::Venezia,
            18 => City::Roma,
            19 => City::Stockholm,
            20 => City::Danzig,
            21 => City::Warszawa,
            22 => City::Wien,
            23 => City::Lisboa,
            24 => City::Cadiz,
            25 => City::Zagrab,
            26 => City::Brindisi,
            27 => City::Palermo,
            28 => City::Petrograd,
            29 => City::Riga,
            30 => City::Wilno,
            31 => City::Kyiv,
            32 => City::Budapest,
            33 => City::Sarajevo,
            34 => City::Athina,
            35 => City::Smyrna,
            36 => City::Moskva,
            37 => City::Smolensk,
            38 => City::Kharkov,
            39 => City::Bucuresti,
            40 => City::Sofia,
            41 => City::Constantinople,
            42 => City::Angora,
            43 => City::Rostov,
            44 => City::Sevastopol,
            45 => City::Erzurum,
            _ => City::Sochi,
        }
    }

    /// The city whose name is `s`, or `UnknownCity` when no city has that name.
    pub fn from_name(s: &str) -> (r: Result<City, UnknownCity>)
        ensures
            match r {
                Ok(c) => c.spec_name() == s@,
                Err(_) => forall|c: City| c.spec_name() != s@,
            },
    {
        let wanted = s.as_bytes();
        let mut i: usize = 0;
        while i < CITY_COUNT
            invariant
                i <= CITY_COUNT,
                wanted@ == s.spec_bytes(),
                forall|j: nat| j < i ==> (#[trigger] City::at(j)).spec_name() != s@,
            decreases CITY_COUNT - i,
        {
            let c = City::from_index(i);
            let name = c.name();
            if bytes_equal(wanted, name.as_bytes()) {
                proof {
                    vstd::utf8::encode_utf8_decode_utf8(s@);
                    vstd::utf8::encode_utf8_decode_utf8(name@);
                }
                return Ok(c);
            }
            i += 1;
        }
        assert forall|c: City| c.spec_name() != s@ by {
            lemma_idx_at(c);
        }
        Err(UnknownCity)
    }
}

/// Numbering a city and taking the city of that number gives it back.
pub proof fn lemma_idx_at(c: City)
    ensures
        c.idx() < CITY_COUNT,
        City::at(c.idx()) == c,
{
}

/// The city numbered `i` carries the number `i`.
pub proof fn lemma_at_idx(i: nat)
    requires
        i < CITY_COUNT,
    ensures
        City::at(i).idx() == i,
{
}

/// Two cities with the same number are the same city.
pub proof fn lemma_idx_injective(a: City, b: City)
    ensures
        a.idx() == b.idx() <==> a == b,
{
    lemma_idx_at(a);
    lemma_idx_at(b);
}

/// Every city of the board, in the order of their numbers.
pub fn all_cities() -> (r: Vec<City>)
    ensures
        r@.len() == CITY_COUNT,
        forall|i: int| 0 <= i < CITY_COUNT ==> (#[trigger] r@[i]).idx() == i,
        forall|i: int| 0 <= i < CITY_COUNT ==> r@[i] == City::at(i as nat),
{
    let mut r: Vec<City> = Vec::new();
    let mut i: usize = 0;
    while i < CITY_COUNT
        invariant
            i <= CITY_COUNT,
            r@.len() == i,
            forall|j: int| 0 <= j < i ==> (#[trigger] r@[j]).idx() == j,
            forall|j: int| 0 <= j < i ==> r@[j] == City::at(j as nat),
        decreases CITY_COUNT - i,
    {
        r.push(City::from_index(i));
        i += 1;
    }
    r
}

/// Whether two byte strings are equal.
fn bytes_equal(a: &[u8], b: &[u8]) -> (r: bool)
    ensures
        r == (a@ == b@),
{
    if a.len() != b.len() {
        return false;
    }
    let mut i: usize = 0;
    while i < a.len()
        invariant
            i <= a@.len(),
            a@.len() == b@.len(),
            forall|j: int| 0 <= j < i ==> a@[j] == b@[j],
        decreases a@.len() - i,
    {
        if a[i] != b[i] {
            return false;
        }
        i += 1;
    }
    assert(a@ =~= b@);
    true
}

impl std::str::FromStr for City {
    type Err = UnknownCity;

    fn from_str(s: &str) -> Result<City, UnknownCity> {
        City::from_name(s)
    }
}

} // verus!
