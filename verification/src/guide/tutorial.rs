//! A small personnel record with set union, name normalisation and a
//! work-location state.

use std::collections::HashSet;
use vstd::prelude::*;

verus! {

/// Adds every element of `other` to `set`; reports whether `set` grew.
pub fn union(set: &mut HashSet<u64>, other: &Vec<u64>) -> (changed: bool)
    requires
        vstd::std_specs::hash::obeys_key_model::<u64>(),
    ensures
        final(set)@ == old(set)@.union(other@.to_set()),
        changed == (final(set)@.len() != old(set)@.len()),
{
    let orig_len = set.len();
    let n = other.len();
    for i in 0..n
        invariant
            vstd::std_specs::hash::obeys_key_model::<u64>(),
            n == other@.len(),
            set@ == old(set)@.union(other@.take(i as int).to_set()),
    {
        let ghost prev = set@;
        set.insert(other[i]);
        proof {
            assert(other@.take(i + 1).drop_last() =~= other@.take(i as int));
            assert(other@.take(i + 1).to_set() =~= other@.take(i as int).to_set().insert(
                other@[i as int],
            )) by {
                assert forall|x: u64| other@.take(i + 1).to_set().contains(x) implies other@.take(
                    i as int,
                ).to_set().contains(x) || x == other@[i as int] by {
                    let w = choose|w: int|
                        0 <= w < i + 1 && #[trigger] other@.take(i + 1)[w] == x;
                    if w < i {
                        assert(other@.take(i as int)[w] == x);
                    }
                }
                assert forall|x: u64|
                    other@.take(i as int).to_set().contains(x) implies other@.take(
                    i + 1,
                ).to_set().contains(x) by {
                    let w = choose|w: int|
                        0 <= w < i && #[trigger] other@.take(i as int)[w] == x;
                    assert(other@.take(i + 1)[w] == x);
                }
                assert(other@.take(i + 1)[i as int] == other@[i as int]);
            }
            assert(set@ =~= old(set)@.union(other@.take(i + 1).to_set()));
        }
    }
    proof {
        assert(other@.take(n as int) =~= other@);
    }
    let new_len = set.len();
    new_len != orig_len
}

#[derive(Debug, PartialEq, Eq)]
pub struct Person {
    pub name: String,
    pub location: Location,
    pub admin: bool,
}

#[derive(Debug, PartialEq, Eq, Structural)]
pub enum Location {
    WorkingFromHome,
    OnSite,
}

/// The lower-case form of an ASCII letter; other characters unchanged.
pub open spec fn spec_lower_char(c: char) -> char {
    match c {
        'A' => 'a',
        'B' => 'b',
        'C' => 'c',
        'D' => 'd',
        'E' => 'e',
        'F' => 'f',
        'G' => 'g',
        'H' => 'h',
        'I' => 'i',
        'J' => 'j',
        'K' => 'k',
        'L' => 'l',
        'M' => 'm',
        'N' => 'n',
        'O' => 'o',
        'P' => 'p',
        'Q' => 'q',
        'R' => 'r',
        'S' => 's',
        'T' => 't',
        'U' => 'u',
        'V' => 'v',
        'W' => 'w',
        'X' => 'x',
        'Y' => 'y',
        'Z' => 'z',
        _ => c,
    }
}

/// The upper-case form of an ASCII letter; other characters unchanged.
pub open spec fn spec_upper_char(c: char) -> char {
    match c {
        'a' => 'A',
        'b' => 'B',
        'c' => 'C',
        'd' => 'D',
        'e' => 'E',
        'f' => 'F',
        'g' => 'G',
        'h' => 'H',
        'i' => 'I',
        'j' => 'J',
        'k' => 'K',
        'l' => 'L',
        'm' => 'M',
        'n' => 'N',
        'o' => 'O',
        'p' => 'P',
        'q' => 'Q',
        'r' => 'R',
        's' => 'S',
        't' => 'T',
        'u' => 'U',
        'v' => 'V',
        'w' => 'W',
        'x' => 'X',
        'y' => 'Y',
        'z' => 'Z',
        _ => c,
    }
}

fn lower_char(c: char) -> (r: char)
    ensures
        r == spec_lower_char(c),
{
    match c {
        'A' => 'a',
        'B' => 'b',
        'C' => 'c',
        'D' => 'd',
        'E' => 'e',
        'F' => 'f',
        'G' => 'g',
        'H' => 'h',
        'I' => 'i',
        'J' => 'j',
        'K' => 'k',
        'L' => 'l',
        'M' => 'm',
        'N' => 'n',
        'O' => 'o',
        'P' => 'p',
        'Q' => 'q',
        'R' => 'r',
        'S' => 's',
        'T' => 't',
        'U' => 'u',
        'V' => 'v',
        'W' => 'w',
        'X' => 'x',
        'Y' => 'y',
        'Z' => 'z',
        _ => c,
    }
}

fn upper_char(c: char) -> (r: char)
    ensures
        r == spec_upper_char(c),
{
    match c {
        'a' => 'A',
        'b' => 'B',
        'c' => 'C',
        'd' => 'D',
        'e' => 'E',
        'f' => 'F',
        'g' => 'G',
        'h' => 'H',
        'i' => 'I',
        'j' => 'J',
        'k' => 'K',
        'l' => 'L',
        'm' => 'M',
        'n' => 'N',
        'o' => 'O',
        'p' => 'P',
        'q' => 'Q',
        'r' => 'R',
        's' => 'S',
        't' => 'T',
        'u' => 'U',
        'v' => 'V',
        'w' => 'W',
        'x' => 'X',
        'y' => 'Y',
        'z' => 'Z',
        _ => c,
    }
}

/// The normalised form of a name: every letter lowered, then the first
/// raised.
pub open spec fn spec_normalize(name: Seq<char>) -> Seq<char> {
    let lowered = name.map_values(|c: char| spec_lower_char(c));
    if lowered.len() == 0 {
        lowered
    } else {
        seq![spec_upper_char(lowered[0])] + lowered.drop_first()
    }
}

/// The accepted spellings of a work location.
pub open spec fn spec_location_of(s: Seq<char>) -> Option<Location> {
    if s == "wfh"@ || s == "whf"@ || s == "WorkingFromHome"@ {
        Some(Location::WorkingFromHome)
    } else if s == "onsite"@ || s == "OnSite"@ {
        Some(Location::OnSite)
    } else {
        None
    }
}

impl Person {
    /// Builds a person from a name, normalised to leading-capital form,
    /// and a location spelling; administrators are recognised by name.
    pub fn new(name: &str, location: &str) -> (r: Option<Person>)
        requires
            name@.len() > 0,
        ensures
            match r {
                Some(p) => spec_location_of(location@) == Some(p.location) && p.name@
                    == spec_normalize(name@) && p.admin == (spec_normalize(name@) == "Will"@),
                None => spec_location_of(location@) is None,
            },
    {
        let chars = crate::text::chars_of(name);
        let n = chars.len();
        let mut lowered: Vec<char> = Vec::new();
        for i in 0..n
            invariant
                n == chars@.len(),
                lowered@ == chars@.take(i as int).map_values(|c: char| spec_lower_char(c)),
        {
            lowered.push(lower_char(chars[i]));
            proof {
                assert(lowered@ =~= chars@.take(i + 1).map_values(
                    |c: char| spec_lower_char(c),
                ));
            }
        }
        proof {
            assert(chars@.take(n as int) =~= chars@);
        }
        let first = upper_char(lowered[0]);
        lowered[0] = first;
        proof {
            assert(lowered@ =~= spec_normalize(name@));
        }
        let fixed = crate::text::string_of(&lowered);
        let loc_probe = location.to_owned();
        let location_value: Location;
        if loc_probe == String::from_str("wfh") || loc_probe == String::from_str("whf")
            || loc_probe == String::from_str("WorkingFromHome") {
            location_value = Location::WorkingFromHome;
        } else if loc_probe == String::from_str("onsite") || loc_probe == String::from_str(
            "OnSite",
        ) {
            location_value = Location::OnSite;
        } else {
            return None;
        }
        let admin = fixed == String::from_str("Will");
        Some(Person { name: fixed, location: location_value, admin })
    }

    /// Moves the person to the given location.
    pub fn set_location(&mut self, location: Location)
        ensures
            final(self).location == location,
            final(self).name == old(self).name,
            final(self).admin == old(self).admin,
    {
        self.location = location;
    }

    /// Marks the person as working from home.
    pub fn make_remote(&mut self)
        ensures
            final(self).location == Location::WorkingFromHome,
            final(self).name == old(self).name,
            final(self).admin == old(self).admin,
    {
        let new_location = Location::WorkingFromHome;
        self.set_location(new_location);
    }
}

} // verus!
