//! A tabular data processing program over country records: median
//! populations per continent among countries with a given export.

use vstd::prelude::*;

use crate::study::median;
use crate::study::median::{name_list_views, CountryV};

verus! {

#[derive(Debug)]
pub struct Country {
    pub name: String,
    pub continent: String,
    pub population: usize,
    pub exports: Vec<String>,
}

/// The views of a country list.
pub open spec fn country_views(cs: Seq<Country>) -> Seq<CountryV> {
    cs.map_values(
        |c: Country|
            CountryV {
                name: c.name@,
                continent: c.continent@,
                population: c.population as int,
                exports: name_list_views(c.exports@),
            },
    )
}

/// For each continent, and for countries that have the given export,
/// returns the names of the countries forming the median and the median
/// population.
///
/// For an odd number of elements, the median is the middle value.  For an
/// even number of elements, the median is the average of the two middle
/// values.
pub fn median_population(countries: &Vec<Country>, export: String) -> (r: Vec<
    (String, Vec<String>, usize),
>)
    ensures
        median::result_views(r@) == median::spec_medians(country_views(countries@), export@),
{
    let n = countries.len();
    let mut converted: Vec<median::Country> = Vec::new();
    for i in 0..n
        invariant
            n == countries@.len(),
            median::country_views(converted@) == country_views(countries@).take(i as int),
    {
        let c = &countries[i];
        let mut exports: Vec<String> = Vec::new();
        let ne = c.exports.len();
        for k in 0..ne
            invariant
                ne == c.exports@.len(),
                c == countries@[i as int],
                name_list_views(exports@) == name_list_views(c.exports@).take(k as int),
        {
            let ghost prev = exports@;
            exports.push(c.exports[k].clone());
            proof {
                assert(name_list_views(exports@) =~= name_list_views(prev).push(
                    c.exports@[k as int]@,
                ));
                assert(name_list_views(exports@) =~= name_list_views(c.exports@).take(k + 1));
            }
        }
        proof {
            assert(name_list_views(c.exports@).take(ne as int) =~= name_list_views(c.exports@));
        }
        let ghost prev = converted@;
        converted.push(
            median::Country {
                name: c.name.clone(),
                continent: c.continent.clone(),
                population: c.population,
                exports,
            },
        );
        proof {
            assert(median::country_views(converted@) =~= median::country_views(prev).push(
                country_views(countries@)[i as int],
            ));
            assert(median::country_views(converted@) =~= country_views(countries@).take(i + 1));
        }
    }
    proof {
        assert(country_views(countries@).take(n as int) =~= country_views(countries@));
    }
    median::median_population(&converted, export)
}

} // verus!
