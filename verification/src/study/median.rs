//! Tabular data processing: for each continent, and for countries that
//! have a given export, the median population and the names of the
//! countries at the median.

use vstd::prelude::*;

verus! {

#[derive(Debug)]
pub struct Country {
    pub name: String,
    pub continent: String,
    pub population: usize,
    pub exports: Vec<String>,
}

/// A country at the specification level.
pub ghost struct CountryV {
    pub name: Seq<char>,
    pub continent: Seq<char>,
    pub population: int,
    pub exports: Seq<Seq<char>>,
}

/// The views of a country list.
pub open spec fn country_views(cs: Seq<Country>) -> Seq<CountryV> {
    cs.map_values(
        |c: Country|
            CountryV {
                name: c.name@,
                continent: c.continent@,
                population: c.population as int,
                exports: c.exports@.map_values(|e: String| e@),
            },
    )
}

/// Inserts a (name, population) pair behind every earlier pair of equal
/// or smaller population: the insertion step of a stable sort.
pub open spec fn insert_pair(x: (Seq<char>, int), s: Seq<(Seq<char>, int)>) -> Seq<
    (Seq<char>, int),
>
    decreases s.len(),
{
    if s.len() == 0 {
        seq![x]
    } else if x.1 < s[0].1 {
        seq![x] + s
    } else {
        seq![s[0]] + insert_pair(x, s.drop_first())
    }
}

/// The pairs sorted by population, stably: pairs of equal population
/// keep their original order.
pub open spec fn sort_pairs(s: Seq<(Seq<char>, int)>) -> Seq<(Seq<char>, int)>
    decreases s.len(),
{
    if s.len() == 0 {
        Seq::empty()
    } else {
        insert_pair(s.last(), sort_pairs(s.drop_last()))
    }
}

/// The (name, population) pairs of the countries on `continent` that
/// export `export`, in order.
pub open spec fn spec_group(
    cs: Seq<CountryV>,
    continent: Seq<char>,
    export: Seq<char>,
) -> Seq<(Seq<char>, int)>
    decreases cs.len(),
{
    if cs.len() == 0 {
        Seq::empty()
    } else {
        spec_group(cs.drop_last(), continent, export) + (if cs.last().continent == continent
            && cs.last().exports.contains(export) {
            seq![(cs.last().name, cs.last().population)]
        } else {
            Seq::empty()
        })
    }
}

/// The continents with at least one country exporting `export`, in order
/// of first appearance.
pub open spec fn spec_continents(cs: Seq<CountryV>, export: Seq<char>) -> Seq<Seq<char>>
    decreases cs.len(),
{
    if cs.len() == 0 {
        Seq::empty()
    } else {
        let prefix = spec_continents(cs.drop_last(), export);
        if cs.last().exports.contains(export) && !prefix.contains(cs.last().continent) {
            prefix.push(cs.last().continent)
        } else {
            prefix
        }
    }
}

/// The median entry of one continent's sorted group: the middle pair for
/// an odd count, the two middle pairs for an even count; the median
/// value is the average of the medians' populations.
pub open spec fn spec_median_of(sorted: Seq<(Seq<char>, int)>) -> (Seq<Seq<char>>, int)
    recommends
        sorted.len() > 0,
{
    let m = sorted.len() as int;
    if m % 2 == 1 {
        (seq![sorted[(m - 1) / 2].0], sorted[(m - 1) / 2].1)
    } else {
        (
            seq![sorted[m / 2 - 1].0, sorted[m / 2].0],
            (sorted[m / 2 - 1].1 + sorted[m / 2].1) / 2,
        )
    }
}

/// The whole result: one entry per continent with matching countries, in
/// order of first appearance, with the median names and value of its
/// stably sorted group.
pub open spec fn spec_medians(cs: Seq<CountryV>, export: Seq<char>) -> Seq<
    (Seq<char>, Seq<Seq<char>>, int),
> {
    spec_continents(cs, export).map_values(
        |cont: Seq<char>|
            {
                let med = spec_median_of(sort_pairs(spec_group(cs, cont, export)));
                (cont, med.0, med.1)
            },
    )
}

/// A group is empty exactly when its continent never appears with the
/// export.
proof fn lemma_group_nonempty(cs: Seq<CountryV>, export: Seq<char>, w: int)
    requires
        0 <= w < spec_continents(cs, export).len(),
    ensures
        spec_group(cs, spec_continents(cs, export)[w], export).len() > 0,
    decreases cs.len(),
{
    if cs.len() > 0 {
        let prefix = spec_continents(cs.drop_last(), export);
        let cont = spec_continents(cs, export)[w];
        if cs.last().exports.contains(export) && !prefix.contains(cs.last().continent) {
            if w < prefix.len() {
                lemma_group_nonempty(cs.drop_last(), export, w);
            } else {
                assert(cont == cs.last().continent);
            }
        } else {
            lemma_group_nonempty(cs.drop_last(), export, w);
        }
    }
}

proof fn lemma_sort_len(s: Seq<(Seq<char>, int)>)
    ensures
        sort_pairs(s).len() == s.len(),
    decreases s.len(),
{
    if s.len() > 0 {
        lemma_sort_len(s.drop_last());
        lemma_insert_len(s.last(), sort_pairs(s.drop_last()));
    }
}

proof fn lemma_insert_len(x: (Seq<char>, int), s: Seq<(Seq<char>, int)>)
    ensures
        insert_pair(x, s).len() == s.len() + 1,
    decreases s.len(),
{
    if s.len() > 0 && !(x.1 < s[0].1) {
        lemma_insert_len(x, s.drop_first());
    }
}

/// Inserting at the first position whose population exceeds the new
/// pair's is exactly the stable insertion step.
proof fn lemma_insert_at(x: (Seq<char>, int), s: Seq<(Seq<char>, int)>, k: int)
    requires
        0 <= k <= s.len(),
        forall|i: int| 0 <= i < k ==> (#[trigger] s[i]).1 <= x.1,
        k < s.len() ==> s[k].1 > x.1,
    ensures
        insert_pair(x, s) == s.insert(k, x),
    decreases s.len(),
{
    if s.len() == 0 {
        assert(insert_pair(x, s) =~= s.insert(0, x));
    } else if x.1 < s[0].1 {
        assert(k == 0);
        assert(insert_pair(x, s) =~= s.insert(0, x));
    } else {
        assert(s[0].1 <= x.1);
        assert(k >= 1);
        assert(forall|i: int| 0 <= i < k - 1 ==> (#[trigger] s.drop_first()[i]).1 <= x.1);
        lemma_insert_at(x, s.drop_first(), k - 1);
        assert(insert_pair(x, s) =~= s.insert(k, x)) by {
            assert(insert_pair(x, s) == seq![s[0]] + s.drop_first().insert(k - 1, x));
            assert(seq![s[0]] + s.drop_first().insert(k - 1, x) =~= s.insert(k, x));
        }
    }
}

/// Stably sorts (name, population) pairs by population.
pub fn sort_by_population(pairs: Vec<(String, usize)>) -> (r: Vec<(String, usize)>)
    ensures
        pair_pop_views(r@) == sort_pairs(pair_pop_views(pairs@)),
{
    let n = pairs.len();
    let mut out: Vec<(String, usize)> = Vec::new();
    let mut rest = pairs;
    proof {
        assert(pair_pop_views(out@) =~= sort_pairs(pair_pop_views(rest@).take(0)));
    }
    for i in 0..n
        invariant
            n == rest@.len(),
            pair_pop_views(out@) == sort_pairs(pair_pop_views(rest@).take(i as int)),
            out@.len() == i,
    {
        let x = (rest[i].0.clone(), rest[i].1);
        let m = out.len();
        let mut k: usize = 0;
        while k < m
            invariant
                m == out@.len(),
                k <= m,
                forall|j: int| 0 <= j < k ==> (#[trigger] out@[j]).1 <= x.1,
                x.1 == rest@[i as int].1,
            ensures
                k <= m,
                forall|j: int| 0 <= j < k ==> (#[trigger] out@[j]).1 <= x.1,
                k < m ==> out@[k as int].1 > x.1,
            decreases m - k,
        {
            if out[k].1 > x.1 {
                break ;
            }
            k = k + 1;
        }
        let ghost prev = out@;
        let ghost xv = (rest@[i as int].0@, rest@[i as int].1 as int);
        out.insert(k, x);
        proof {
            assert(pair_pop_views(out@) =~= pair_pop_views(prev).insert(k as int, xv));
            assert(forall|j: int|
                0 <= j < k ==> (#[trigger] pair_pop_views(prev)[j]).1 <= xv.1);
            lemma_insert_at(xv, pair_pop_views(prev), k as int);
            assert(pair_pop_views(rest@).take(i + 1).drop_last() =~= pair_pop_views(rest@).take(
                i as int,
            ));
            assert(pair_pop_views(rest@).take(i + 1).last() == xv);
        }
    }
    proof {
        assert(pair_pop_views(rest@).take(n as int) =~= pair_pop_views(rest@));
    }
    out
}

/// The views of (name, population) pairs.
pub open spec fn pair_pop_views(pairs: Seq<(String, usize)>) -> Seq<(Seq<char>, int)> {
    pairs.map_values(|p: (String, usize)| (p.0@, p.1 as int))
}

/// Whether any of the strings reads as `needle`.
pub fn contains_string(hay: &Vec<String>, needle: &String) -> (r: bool)
    ensures
        r == name_list_views(hay@).contains(needle@),
{
    let n = hay.len();
    for i in 0..n
        invariant
            n == hay@.len(),
            forall|j: int| 0 <= j < i ==> #[trigger] name_list_views(hay@)[j] != needle@,
    {
        if hay[i] == *needle {
            proof {
                assert(name_list_views(hay@)[i as int] == needle@);
            }
            return true;
        }
    }
    proof {
        if name_list_views(hay@).contains(needle@) {
            let j = choose|j: int|
                0 <= j < hay@.len() && #[trigger] name_list_views(hay@)[j] == needle@;
        }
    }
    false
}

/// For each continent, and for countries that have the given export,
/// returns the names of the countries at the median population and the
/// median population itself, in order of the continents' first
/// appearance.
pub fn median_population(countries: &Vec<Country>, export: String) -> (r: Vec<
    (String, Vec<String>, usize),
>)
    ensures
        result_views(r@) == spec_medians(country_views(countries@), export@),
{
    let n = countries.len();
    let mut conts: Vec<String> = Vec::new();
    for i in 0..n
        invariant
            n == countries@.len(),
            name_list_views(conts@) == spec_continents(
                country_views(countries@).take(i as int),
                export@,
            ),
    {
        proof {
            assert(country_views(countries@).take(i + 1).drop_last() =~= country_views(
                countries@,
            ).take(i as int));
            assert(country_views(countries@).take(i + 1).last() == country_views(countries@)[
                i as int
            ]);
            assert(country_views(countries@)[i as int].exports =~= name_list_views(
                countries@[i as int].exports@,
            ));
        }
        if contains_string(&countries[i].exports, &export) {
            let present = contains_string(&conts, &countries[i].continent);
            proof {
                assert(name_list_views(conts@).contains(countries@[i as int].continent@)
                    == present);
            }
            if !present {
                let ghost prev = conts@;
                conts.push(countries[i].continent.clone());
                proof {
                    assert(name_list_views(conts@) =~= name_list_views(prev).push(
                        countries@[i as int].continent@,
                    ));
                }
            }
        }
    }
    proof {
        assert(country_views(countries@).take(n as int) =~= country_views(countries@));
    }
    let nc = conts.len();
    let mut out: Vec<(String, Vec<String>, usize)> = Vec::new();
    for w in 0..nc
        invariant
            nc == conts@.len(),
            n == countries@.len(),
            name_list_views(conts@) == spec_continents(country_views(countries@), export@),
            result_views(out@) == spec_medians(country_views(countries@), export@).take(w as int),
    {
        let cont = &conts[w];
        let mut group: Vec<(String, usize)> = Vec::new();
        for i in 0..n
            invariant
                n == countries@.len(),
                w < conts@.len(),
                cont == conts@[w as int],
                pair_pop_views(group@) == spec_group(
                    country_views(countries@).take(i as int),
                    conts@[w as int]@,
                    export@,
                ),
        {
            proof {
                assert(country_views(countries@).take(i + 1).drop_last() =~= country_views(
                    countries@,
                ).take(i as int));
                assert(country_views(countries@).take(i + 1).last() == country_views(countries@)[
                    i as int
                ]);
                assert(country_views(countries@)[i as int].exports =~= countries@[
                    i as int
                ].exports@.map_values(|e: String| e@));
            }
            if countries[i].continent == *cont && contains_string(&countries[i].exports, &export) {
                let ghost prev = group@;
                group.push((countries[i].name.clone(), countries[i].population));
                proof {
                    assert(pair_pop_views(group@) =~= pair_pop_views(prev).push(
                        (countries@[i as int].name@, countries@[i as int].population as int),
                    ));
                }
            }
        }
        proof {
            assert(country_views(countries@).take(n as int) =~= country_views(countries@));
        }
        let sorted = sort_by_population(group);
        let m = sorted.len();
        proof {
            assert(name_list_views(conts@)[w as int] == conts@[w as int]@);
            lemma_group_nonempty(country_views(countries@), export@, w as int);
            lemma_sort_len(spec_group(country_views(countries@), conts@[w as int]@, export@));
        }
        let ghost sortedv = sort_pairs(
            spec_group(country_views(countries@), conts@[w as int]@, export@),
        );
        let names: Vec<String>;
        let total: usize;
        let count: usize;
        if m % 2 == 1 {
            let mut ns: Vec<String> = Vec::new();
            ns.push(sorted[(m - 1) / 2].0.clone());
            names = ns;
            total = sorted[(m - 1) / 2].1;
            count = 1;
            proof {
                assert(pair_pop_views(sorted@)[((m - 1) / 2) as int] == sortedv[((m - 1) / 2) as int]);
            }
        } else {
            let mut ns: Vec<String> = Vec::new();
            ns.push(sorted[m / 2 - 1].0.clone());
            ns.push(sorted[m / 2].0.clone());
            names = ns;
            let a = sorted[m / 2 - 1].1;
            let b = sorted[m / 2].1;
            proof {
                assert(pair_pop_views(sorted@)[(m / 2 - 1) as int] == sortedv[(m / 2 - 1) as int]);
                assert(pair_pop_views(sorted@)[(m / 2) as int] == sortedv[(m / 2) as int]);
                assert(a + b <= usize::MAX + usize::MAX);
            }
            let sum = (a as u128) + (b as u128);
            let avg = sum / 2;
            proof {
                assert(avg <= usize::MAX) by (nonlinear_arith)
                    requires
                        sum <= 2 * (usize::MAX as u128),
                        avg == sum / 2,
                ;
                assert(avg as int == (a + b) / 2);
            }
            total = avg as usize;
            count = 2;
        }
        let ghost prev_out = out@;
        out.push((cont.clone(), names, total));
        proof {
            let med = spec_median_of(sortedv);
            assert(name_list_views(out@.last().1@) =~= med.0);
            assert(result_views(out@) =~= result_views(prev_out).push(
                (conts@[w as int]@, med.0, med.1),
            ));
            assert(spec_medians(country_views(countries@), export@).take(w + 1).drop_last()
                =~= spec_medians(country_views(countries@), export@).take(w as int));
            assert(spec_medians(country_views(countries@), export@)[w as int] == (
                conts@[w as int]@,
                med.0,
                med.1,
            ));
            assert(result_views(out@) =~= spec_medians(country_views(countries@), export@).take(
                w + 1,
            ));
        }
    }
    proof {
        assert(spec_medians(country_views(countries@), export@).take(nc as int) =~= spec_medians(
            country_views(countries@),
            export@,
        ));
    }
    out
}

/// The views of a string list.
pub open spec fn name_list_views(names: Seq<String>) -> Seq<Seq<char>> {
    names.map_values(|s2: String| s2@)
}

/// The views of the result entries.
pub open spec fn result_views(r: Seq<(String, Vec<String>, usize)>) -> Seq<
    (Seq<char>, Seq<Seq<char>>, int),
> {
    r.map_values(|e: (String, Vec<String>, usize)| (e.0@, name_list_views(e.1@), e.2 as int))
}

} // verus!
