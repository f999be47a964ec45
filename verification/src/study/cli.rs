//! A minimal command-line parser: registered flags and positional
//! arguments are matched against an argument list, yielding key/value
//! pairs or nothing on any mismatch.

use vstd::prelude::*;

use crate::text::chars_of;

verus! {

#[derive(Debug)]
pub struct PositionalArg {
    pub name: String,
}

#[derive(Debug)]
pub struct NamedArg {
    pub name: String,
    pub required: bool,
    pub takes_value: bool,
}

/// A flag at the specification level.
pub ghost struct FlagV {
    pub name: Seq<char>,
    pub takes_value: bool,
}

/// The views of the registered flags.
pub open spec fn flag_views(named: Seq<NamedArg>) -> Seq<FlagV> {
    named.map_values(|e: NamedArg| FlagV { name: e.name@, takes_value: e.takes_value })
}

/// The views of the registered positional names.
pub open spec fn pos_views(positional: Seq<PositionalArg>) -> Seq<Seq<char>> {
    positional.map_values(|e: PositionalArg| e.name@)
}

#[derive(Debug)]
pub struct Cli {
    positional: Vec<PositionalArg>,
    named: Vec<NamedArg>,
}

/// Whether `s` starts with `--`.
pub open spec fn spec_is_flag(s: Seq<char>) -> bool {
    s.len() >= 2 && s[0] == '-' && s[1] == '-'
}

/// The index of the first registered flag called `flag`, or the length.
pub open spec fn spec_lookup_flag(named: Seq<FlagV>, flag: Seq<char>) -> int
    decreases named.len(),
{
    if named.len() == 0 {
        0
    } else if named[0].name == flag {
        0
    } else {
        1 + spec_lookup_flag(named.drop_first(), flag)
    }
}

/// The parse of the remaining arguments: a `--flag` must be registered
/// and consumes a value when configured to, any other argument binds the
/// next positional name, and any mismatch fails the whole parse.
pub open spec fn spec_parse_args(
    named: Seq<FlagV>,
    pos: Seq<Seq<char>>,
    args: Seq<Seq<char>>,
    acc: Seq<(Seq<char>, Seq<char>)>,
) -> Option<Seq<(Seq<char>, Seq<char>)>>
    decreases args.len(),
{
    if args.len() == 0 {
        Some(acc)
    } else {
        let arg = args[0];
        if spec_is_flag(arg) {
            let flag = arg.skip(2);
            let k = spec_lookup_flag(named, flag);
            if k >= named.len() {
                None
            } else if named[k].takes_value {
                if args.len() < 2 {
                    None
                } else {
                    spec_parse_args(named, pos, args.skip(2), acc.push((flag, args[1])))
                }
            } else {
                spec_parse_args(named, pos, args.skip(1), acc.push((flag, Seq::empty())))
            }
        } else {
            if pos.len() == 0 {
                None
            } else {
                spec_parse_args(named, pos.drop_first(), args.skip(1), acc.push((pos[0], arg)))
            }
        }
    }
}

impl Cli {
    /// The registered positional names.
    pub closed spec fn spec_positional(self) -> Seq<Seq<char>> {
        pos_views(self.positional@)
    }

    /// The registered flags.
    pub closed spec fn spec_named(self) -> Seq<FlagV> {
        flag_views(self.named@)
    }

    /// An empty configuration.
    pub fn new() -> (c: Cli)
        ensures
            c.spec_positional() == Seq::<Seq<char>>::empty(),
            c.spec_named() == Seq::<FlagV>::empty(),
    {
        let c = Cli { positional: Vec::new(), named: Vec::new() };
        proof {
            assert(c.spec_positional() =~= Seq::<Seq<char>>::empty());
            assert(c.spec_named() =~= Seq::<FlagV>::empty());
        }
        c
    }

    /// Registers a positional argument.
    pub fn arg(&mut self, name: String)
        ensures
            final(self).spec_positional() == old(self).spec_positional().push(name@),
            final(self).spec_named() == old(self).spec_named(),
    {
        let ghost prev = self.positional@;
        self.positional.push(PositionalArg { name });
        proof {
            assert(pos_views(self.positional@) =~= pos_views(prev).push(
                self.positional@.last().name@,
            ));
        }
    }

    /// Registers a flag.
    pub fn flag(&mut self, name: String, required: bool, takes_value: bool)
        ensures
            final(self).spec_named() == old(self).spec_named().push(
                FlagV { name: name@, takes_value },
            ),
            final(self).spec_positional() == old(self).spec_positional(),
    {
        let ghost prev = self.named@;
        let ghost namev = name@;
        self.named.push(NamedArg { name, required, takes_value });
        proof {
            assert(flag_views(self.named@) =~= flag_views(prev).push(
                FlagV { name: namev, takes_value },
            ));
        }
    }

    /// Parses the arguments into key/value pairs, or `None` on any
    /// mismatch, as `spec_parse_args` describes.
    pub fn parse(&self, args: &Vec<String>) -> (r: Option<Vec<(String, String)>>)
        ensures
            match r {
                Some(pairs) => spec_parse_args(
                    self.spec_named(),
                    self.spec_positional(),
                    args@.map_values(|a: String| a@),
                    Seq::empty(),
                ) == Some(crate::guide::cli::pair_views(pairs@)),
                None => spec_parse_args(
                    self.spec_named(),
                    self.spec_positional(),
                    args@.map_values(|a: String| a@),
                    Seq::empty(),
                ) is None,
            },
    {
        let acc: Vec<(String, String)> = Vec::new();
        proof {
            assert(crate::guide::cli::pair_views(acc@) =~= Seq::<(Seq<char>, Seq<char>)>::empty());
            assert(args@.map_values(|a: String| a@).skip(0) =~= args@.map_values(
                |a: String| a@,
            ));
            assert(self.spec_positional().skip(0) =~= self.spec_positional());
        }
        self.parse_rec(0, args, 0, acc)
    }

    fn parse_rec(&self, pos_i: usize, args: &Vec<String>, arg_i: usize, acc: Vec<(String, String)>)
        -> (r: Option<Vec<(String, String)>>)
        requires
            pos_i <= self.positional@.len(),
            arg_i <= args@.len(),
        ensures
            match r {
                Some(pairs) => spec_parse_args(
                    self.spec_named(),
                    self.spec_positional().skip(pos_i as int),
                    args@.map_values(|a: String| a@).skip(arg_i as int),
                    crate::guide::cli::pair_views(acc@),
                ) == Some(crate::guide::cli::pair_views(pairs@)),
                None => spec_parse_args(
                    self.spec_named(),
                    self.spec_positional().skip(pos_i as int),
                    args@.map_values(|a: String| a@).skip(arg_i as int),
                    crate::guide::cli::pair_views(acc@),
                ) is None,
            },
        decreases args@.len() - arg_i,
    {
        let ghost posv = self.spec_positional().skip(pos_i as int);
        let ghost argvs = args@.map_values(|a: String| a@).skip(arg_i as int);
        if arg_i >= args.len() {
            return Some(acc);
        }
        let arg = &args[arg_i];
        proof {
            assert(argvs[0] == args@[arg_i as int]@);
        }
        let argc = chars_of(arg.as_str());
        let is_flag = argc.len() >= 2 && argc[0] == '-' && argc[1] == '-';
        if is_flag {
            let flag = crate::text::string_from(&argc, 2);
            let k = self.lookup_flag(&flag);
            if k >= self.named.len() {
                return None;
            }
            if self.named[k].takes_value {
                if arg_i + 1 >= args.len() {
                    proof {
                        assert(argvs.len() < 2);
                    }
                    return None;
                }
                let value = args[arg_i + 1].clone();
                let mut acc2 = acc;
                let ghost prev = acc2@;
                acc2.push((flag, value));
                proof {
                    assert(crate::guide::cli::pair_views(acc2@)
                        =~= crate::guide::cli::pair_views(prev).push(
                        (args@[arg_i as int]@.skip(2), args@[arg_i + 1]@),
                    ));
                    assert(args@.map_values(|a: String| a@).skip(arg_i + 2) =~= argvs.skip(2));
                    assert(argvs[1] == args@[arg_i + 1]@);
                }
                self.parse_rec(pos_i, args, arg_i + 2, acc2)
            } else {
                let mut acc2 = acc;
                let ghost prev = acc2@;
                acc2.push((flag, String::new()));
                proof {
                    assert(crate::guide::cli::pair_views(acc2@)
                        =~= crate::guide::cli::pair_views(prev).push(
                        (args@[arg_i as int]@.skip(2), Seq::<char>::empty()),
                    ));
                    assert(args@.map_values(|a: String| a@).skip(arg_i + 1) =~= argvs.skip(1));
                }
                self.parse_rec(pos_i, args, arg_i + 1, acc2)
            }
        } else {
            if pos_i >= self.positional.len() {
                proof {
                    assert(posv.len() == 0);
                }
                return None;
            }
            let name = self.positional[pos_i].name.clone();
            let mut acc2 = acc;
            let ghost prev = acc2@;
            acc2.push((name, arg.clone()));
            proof {
                assert(posv[0] == self.positional@[pos_i as int].name@);
                assert(crate::guide::cli::pair_views(acc2@) =~= crate::guide::cli::pair_views(
                    prev,
                ).push((self.positional@[pos_i as int].name@, args@[arg_i as int]@)));
                assert(self.spec_positional().skip(pos_i + 1) =~= posv.drop_first());
                assert(args@.map_values(|a: String| a@).skip(arg_i + 1) =~= argvs.skip(1));
            }
            self.parse_rec(pos_i + 1, args, arg_i + 1, acc2)
        }
    }

    /// Finds the first registered flag with the given name.
    fn lookup_flag(&self, flag: &String) -> (k: usize)
        ensures
            k as int == spec_lookup_flag(self.spec_named(), flag@),
            k <= self.named@.len(),
    {
        let n = self.named.len();
        proof {
            assert(self.spec_named().skip(0) =~= self.spec_named());
            lemma_lookup_flag_nonneg(self.spec_named(), flag@);
        }
        for k in 0..n
            invariant
                n == self.named@.len(),
                spec_lookup_flag(self.spec_named(), flag@) == k as int + spec_lookup_flag(
                    self.spec_named().skip(k as int),
                    flag@,
                ),
                spec_lookup_flag(self.spec_named().skip(k as int), flag@) >= 0,
        {
            proof {
                assert(self.spec_named().skip(k as int)[0] == self.spec_named()[k as int]);
                assert(self.spec_named().skip(k as int).drop_first() =~= self.spec_named().skip(
                    k + 1,
                ));
                lemma_lookup_flag_nonneg(self.spec_named().skip(k + 1), flag@);
            }
            if self.named[k].name == *flag {
                return k;
            }
        }
        proof {
            assert(self.spec_named().skip(n as int) =~= Seq::<FlagV>::empty());
        }
        n
    }
}

proof fn lemma_lookup_flag_nonneg(named: Seq<FlagV>, flag: Seq<char>)
    ensures
        spec_lookup_flag(named, flag) >= 0,
    decreases named.len(),
{
    if named.len() > 0 && named[0].name != flag {
        lemma_lookup_flag_nonneg(named.drop_first(), flag);
    }
}

} // verus!
