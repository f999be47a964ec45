//! An API for building a command-line interface (CLI).  Users register
//! positional and named arguments and parse an argument list into
//! key/value pairs; inputs that do not match the configuration produce a
//! structured error message.

use vstd::prelude::*;

use crate::text::chars_of;

verus! {

#[derive(Debug)]
struct NamedArg {
    required: bool,
    takes_value: bool,
}

/// A CLI configuration: positional argument names in order, and named
/// arguments keyed by flag name.
#[derive(Debug)]
pub struct Cli {
    positional: Vec<String>,
    named: Vec<(String, NamedArg)>,
}

/// A named argument at the specification level: flag name, whether it is
/// required, and whether it consumes a value.
pub ghost struct NamedV {
    pub name: Seq<char>,
    pub required: bool,
    pub takes_value: bool,
}

/// The views of a named-argument list.
spec fn named_views(named: Seq<(String, NamedArg)>) -> Seq<NamedV> {
    named.map_values(
        |e: (String, NamedArg)|
            NamedV { name: e.0@, required: e.1.required, takes_value: e.1.takes_value },
    )
}

/// The views of a string list.
pub open spec fn name_views(names: Seq<String>) -> Seq<Seq<char>> {
    names.map_values(|s2: String| s2@)
}

/// One `- name` line per name.
pub open spec fn names_block(names: Seq<Seq<char>>) -> Seq<char>
    decreases names.len(),
{
    if names.len() == 0 {
        Seq::empty()
    } else {
        "- "@ + names[0] + "\n"@ + names_block(names.drop_first())
    }
}

/// The names joined by commas.
pub open spec fn comma_join(names: Seq<Seq<char>>) -> Seq<char>
    decreases names.len(),
{
    if names.len() == 0 {
        Seq::empty()
    } else if names.len() == 1 {
        names[0]
    } else {
        names[0] + ", "@ + comma_join(names.drop_first())
    }
}

/// The names of the required named arguments, in order.
pub open spec fn required_names(named: Seq<NamedV>) -> Seq<Seq<char>>
    decreases named.len(),
{
    if named.len() == 0 {
        Seq::empty()
    } else {
        (if named[0].required {
            seq![named[0].name]
        } else {
            Seq::empty()
        }) + required_names(named.drop_first())
    }
}

/// The names of all named arguments, in order.
pub open spec fn all_names(named: Seq<NamedV>) -> Seq<Seq<char>>
    decreases named.len(),
{
    if named.len() == 0 {
        Seq::empty()
    } else {
        seq![named[0].name] + all_names(named.drop_first())
    }
}

/// The context block appended to an error: the positional arguments
/// still expected, then the required named arguments still expected.
pub open spec fn spec_context(pos: Seq<Seq<char>>, req: Seq<Seq<char>>) -> Seq<char> {
    (if pos.len() > 0 {
        "Still waiting on positional args:\n"@ + names_block(pos)
    } else {
        Seq::empty()
    }) + (if req.len() > 0 {
        "Still waiting on named args:\n"@ + names_block(req)
    } else {
        Seq::empty()
    })
}

/// An error message: the cause, and the context when there is any.
pub open spec fn with_context(cause: Seq<char>, pos: Seq<Seq<char>>, req: Seq<Seq<char>>) -> Seq<
    char,
> {
    if spec_context(pos, req).len() == 0 {
        cause
    } else {
        cause + "\n"@ + spec_context(pos, req)
    }
}

/// The position of the first `--` in `s`, if any.
pub open spec fn spec_dashes_at(s: Seq<char>, from: int) -> Option<int>
    decreases s.len() - from,
{
    if from < 0 || from + 1 >= s.len() {
        None
    } else if s[from] == '-' && s[from + 1] == '-' {
        Some(from)
    } else {
        spec_dashes_at(s, from + 1)
    }
}

/// The index of the first named argument called `flag`, or the length.
pub open spec fn spec_find_named(named: Seq<NamedV>, flag: Seq<char>) -> int
    decreases named.len(),
{
    if named.len() == 0 {
        0
    } else if named[0].name == flag {
        0
    } else {
        1 + spec_find_named(named.drop_first(), flag)
    }
}

/// The result of parsing the remaining `args` against the remaining
/// configuration: the accumulated pairs extended in order, or the exact
/// error message.  An argument containing `--` names the flag written
/// after its first `--`; a named argument is consumed by its first use;
/// other arguments bind to positional names in order.
pub open spec fn spec_parse_loop(
    named: Seq<NamedV>,
    pos: Seq<Seq<char>>,
    args: Seq<Seq<char>>,
    acc: Seq<(Seq<char>, Seq<char>)>,
) -> Result<Seq<(Seq<char>, Seq<char>)>, Seq<char>>
    decreases args.len(),
{
    if args.len() == 0 {
        if pos.len() > 0 {
            Err(
                with_context(
                    "Missing positional arguments: "@ + comma_join(pos),
                    pos,
                    required_names(named),
                ),
            )
        } else if required_names(named).len() > 0 {
            Err(
                with_context(
                    "Missing named arguments: "@ + comma_join(all_names(named)),
                    pos,
                    required_names(named),
                ),
            )
        } else {
            Ok(acc)
        }
    } else {
        let arg = args[0];
        match spec_dashes_at(arg, 0) {
            Some(d) => {
                let flag = arg.skip(d + 2);
                let k = spec_find_named(named, flag);
                if k >= named.len() {
                    Err(
                        with_context(
                            "Invalid named argument \""@ + flag + "\""@,
                            pos,
                            required_names(named),
                        ),
                    )
                } else {
                    let rest = named.remove(k);
                    if named[k].takes_value {
                        if args.len() < 2 {
                            Err(
                                with_context(
                                    "Missing value for flag \""@ + flag + "\""@,
                                    pos,
                                    required_names(rest),
                                ),
                            )
                        } else {
                            spec_parse_loop(rest, pos, args.skip(2), acc.push((flag, args[1])))
                        }
                    } else {
                        spec_parse_loop(rest, pos, args.skip(1), acc.push((flag, Seq::empty())))
                    }
                }
            },
            None => {
                if pos.len() == 0 {
                    Err(
                        with_context(
                            "Invalid positional argument \""@ + arg + "\""@,
                            pos,
                            required_names(named),
                        ),
                    )
                } else {
                    spec_parse_loop(
                        named,
                        pos.drop_first(),
                        args.skip(1),
                        acc.push((pos[0], arg)),
                    )
                }
            },
        }
    }
}

/// The result of a whole parse: the first argument is the binary name;
/// without it the parse fails at once.
pub open spec fn spec_parse(
    named: Seq<NamedV>,
    pos: Seq<Seq<char>>,
    args: Seq<Seq<char>>,
) -> Result<Seq<(Seq<char>, Seq<char>)>, Seq<char>> {
    if args.len() == 0 {
        Err(with_context("Missing binary"@, pos, required_names(named)))
    } else {
        spec_parse_loop(named, pos, args.drop_first(), Seq::empty())
    }
}

/// The views of the parsed pairs.
pub open spec fn pair_views(pairs: Seq<(String, String)>) -> Seq<(Seq<char>, Seq<char>)> {
    pairs.map_values(|p: (String, String)| (p.0@, p.1@))
}

impl Cli {
    /// The configured positional names.
    pub closed spec fn spec_positional(self) -> Seq<Seq<char>> {
        name_views(self.positional@)
    }

    /// The configured named arguments.
    pub closed spec fn spec_named(self) -> Seq<NamedV> {
        named_views(self.named@)
    }

    /// Create a new CLI builder.
    pub fn new() -> (c: Cli)
        ensures
            c.spec_positional() == Seq::<Seq<char>>::empty(),
            c.spec_named() == Seq::<NamedV>::empty(),
    {
        let c = Cli { positional: Vec::new(), named: Vec::new() };
        proof {
            assert(c.spec_positional() =~= Seq::<Seq<char>>::empty());
            assert(c.spec_named() =~= Seq::<NamedV>::empty());
        }
        c
    }

    /// Add a named argument to the builder.
    pub fn named(self, name: &str, required: bool, takes_value: bool) -> (c: Cli)
        ensures
            c.spec_positional() == self.spec_positional(),
            c.spec_named() == self.spec_named().push(
                NamedV { name: name@, required, takes_value },
            ),
    {
        let mut named = self.named;
        let ghost prev = named@;
        named.push((name.to_owned(), NamedArg { required, takes_value }));
        proof {
            assert(named_views(named@) =~= named_views(prev).push(
                NamedV { name: name@, required, takes_value },
            ));
        }
        Cli { positional: self.positional, named }
    }

    /// Add a positional argument to the builder.
    pub fn positional(self, name: &str) -> (c: Cli)
        ensures
            c.spec_named() == self.spec_named(),
            c.spec_positional() == self.spec_positional().push(name@),
    {
        let mut positional = self.positional;
        let ghost prev = positional@;
        positional.push(name.to_owned());
        proof {
            assert(name_views(positional@) =~= name_views(prev).push(name@));
        }
        Cli { positional, named: self.named }
    }

    /// Attempt to parse the input strings into key/value pairs, returning
    /// an error message for inputs that do not match the configuration,
    /// exactly as `spec_parse` describes.
    pub fn parse(&self, args: Vec<String>) -> (r: Result<Vec<(String, String)>, String>)
        ensures
            match r {
                Ok(pairs) => spec_parse(
                    self.spec_named(),
                    self.spec_positional(),
                    args@.map_values(|a: String| a@),
                ) == Ok::<_, Seq<char>>(pair_views(pairs@)),
                Err(msg) => spec_parse(
                    self.spec_named(),
                    self.spec_positional(),
                    args@.map_values(|a: String| a@),
                ) == Err::<Seq<(Seq<char>, Seq<char>)>, _>(msg@),
            },
    {
        let ghost argvs = args@.map_values(|a: String| a@);
        if args.len() == 0 {
            let req = collect_required(&self.named);
            let msg = build_with_context("Missing binary", &self.positional, 0, &req);
            proof {
                assert(name_views(self.positional@).skip(0) =~= name_views(self.positional@));
                assert(argvs.len() == 0);
            }
            return Err(msg);
        }
        let mut remaining_named: Vec<(String, NamedArg)> = Vec::new();
        let nn = self.named.len();
        for k in 0..nn
            invariant
                nn == self.named@.len(),
                remaining_named@.len() == k,
                named_views(remaining_named@) == named_views(self.named@).take(k as int),
        {
            let e = &self.named[k];
            let ghost prev = remaining_named@;
            remaining_named.push(
                (e.0.clone(), NamedArg { required: e.1.required, takes_value: e.1.takes_value }),
            );
            proof {
                assert(named_views(remaining_named@) =~= named_views(prev).push(
                    named_views(self.named@)[k as int],
                ));
                assert(named_views(remaining_named@) =~= named_views(self.named@).take(k + 1));
            }
        }
        proof {
            assert(named_views(self.named@).take(nn as int) =~= named_views(self.named@));
            assert(argvs.drop_first() =~= argvs.skip(1));
            assert(name_views(self.positional@).skip(0) =~= name_views(self.positional@));
        }
        let acc: Vec<(String, String)> = Vec::new();
        proof {
            assert(pair_views(acc@) =~= Seq::<(Seq<char>, Seq<char>)>::empty());
        }
        self.parse_rec(remaining_named, 0, &args, 1, acc)
    }

    /// Parses the remaining arguments, as `spec_parse_loop` describes.
    fn parse_rec(
        &self,
        named: Vec<(String, NamedArg)>,
        pos_i: usize,
        args: &Vec<String>,
        arg_i: usize,
        acc: Vec<(String, String)>,
    ) -> (r: Result<Vec<(String, String)>, String>)
        requires
            pos_i <= self.positional@.len(),
            arg_i <= args@.len(),
        ensures
            match r {
                Ok(pairs) => spec_parse_loop(
                    named_views(named@),
                    name_views(self.positional@).skip(pos_i as int),
                    args@.map_values(|a: String| a@).skip(arg_i as int),
                    pair_views(acc@),
                ) == Ok::<_, Seq<char>>(pair_views(pairs@)),
                Err(msg) => spec_parse_loop(
                    named_views(named@),
                    name_views(self.positional@).skip(pos_i as int),
                    args@.map_values(|a: String| a@).skip(arg_i as int),
                    pair_views(acc@),
                ) == Err::<Seq<(Seq<char>, Seq<char>)>, _>(msg@),
            },
        decreases args@.len() - arg_i,
    {
        let ghost namedv = named_views(named@);
        let ghost posv = name_views(self.positional@).skip(pos_i as int);
        let ghost argvs = args@.map_values(|a: String| a@).skip(arg_i as int);
        if arg_i >= args.len() {
            proof {
                assert(argvs.len() == 0);
            }
            if pos_i < self.positional.len() {
                let req = collect_required(&named);
                let cause = build_missing("Missing positional arguments: ", &self.positional, pos_i);
                let msg = build_with_context_cause(cause, &self.positional, pos_i, &req);
                proof {
                    assert(posv.len() > 0);
                }
                return Err(msg);
            }
            let req = collect_required(&named);
            proof {
                assert(posv.len() == 0);
            }
            if req.len() > 0 {
                let alln = collect_all(&named);
                let cause = build_missing_names("Missing named arguments: ", &alln);
                let msg = build_with_context_cause(cause, &self.positional, pos_i, &req);
                return Err(msg);
            }
            return Ok(acc);
        }
        let arg = &args[arg_i];
        proof {
            assert(argvs[0] == args@[arg_i as int]@);
        }
        let argc = chars_of(arg.as_str());
        let alen = argc.len();
        match find_dashes(&argc) {
            Some(d) => {
                proof {
                    assert(d + 2 <= alen);
                }
                let flag_chars = crate::text::string_from(&argc, d + 2);
                let ghost flagv = args@[arg_i as int]@.skip(d + 2);
                proof {
                    assert(flag_chars@ == flagv);
                }
                let k = find_named(&named, &flag_chars);
                if k >= named.len() {
                    let req = collect_required(&named);
                    let mut cause = String::new();
                    cause.append("Invalid named argument \"");
                    cause.append(flag_chars.as_str());
                    cause.append("\"");
                    let msg = build_with_context_cause(cause, &self.positional, pos_i, &req);
                    return Err(msg);
                }
                let mut named2 = named;
                let entry = named2.remove(k);
                proof {
                    assert(named_views(named2@) =~= namedv.remove(k as int));
                }
                if entry.1.takes_value {
                    if arg_i + 1 >= args.len() {
                        let req = collect_required(&named2);
                        let mut cause = String::new();
                        cause.append("Missing value for flag \"");
                        cause.append(flag_chars.as_str());
                        cause.append("\"");
                        let msg = build_with_context_cause(cause, &self.positional, pos_i, &req);
                        proof {
                            assert(argvs.len() < 2);
                        }
                        return Err(msg);
                    }
                    let value = args[arg_i + 1].clone();
                    let mut acc2 = acc;
                    let ghost prev = acc2@;
                    acc2.push((flag_chars, value));
                    proof {
                        assert(pair_views(acc2@) =~= pair_views(prev).push(
                            (flagv, args@[arg_i + 1]@),
                        ));
                        assert(args@.map_values(|a: String| a@).skip(arg_i + 2) =~= argvs.skip(2));
                        assert(argvs[1] == args@[arg_i + 1]@);
                    }
                    self.parse_rec(named2, pos_i, args, arg_i + 2, acc2)
                } else {
                    let mut acc2 = acc;
                    let ghost prev = acc2@;
                    acc2.push((flag_chars, String::new()));
                    proof {
                        assert(pair_views(acc2@) =~= pair_views(prev).push(
                            (flagv, Seq::<char>::empty()),
                        ));
                        assert(args@.map_values(|a: String| a@).skip(arg_i + 1) =~= argvs.skip(1));
                    }
                    self.parse_rec(named2, pos_i, args, arg_i + 1, acc2)
                }
            },
            None => {
                if pos_i >= self.positional.len() {
                    let req = collect_required(&named);
                    let mut cause = String::new();
                    cause.append("Invalid positional argument \"");
                    cause.append(arg.as_str());
                    cause.append("\"");
                    let msg = build_with_context_cause(cause, &self.positional, pos_i, &req);
                    proof {
                        assert(posv.len() == 0);
                    }
                    return Err(msg);
                }
                let name = self.positional[pos_i].clone();
                let mut acc2 = acc;
                let ghost prev = acc2@;
                acc2.push((name, arg.clone()));
                proof {
                    assert(posv[0] == self.positional@[pos_i as int]@);
                    assert(pair_views(acc2@) =~= pair_views(prev).push(
                        (self.positional@[pos_i as int]@, args@[arg_i as int]@),
                    ));
                    assert(name_views(self.positional@).skip(pos_i + 1) =~= posv.drop_first());
                    assert(args@.map_values(|a: String| a@).skip(arg_i + 1) =~= argvs.skip(1));
                }
                self.parse_rec(named, pos_i + 1, args, arg_i + 1, acc2)
            },
        }
    }
}

/// Finds the first `--` in `v`.
fn find_dashes(v: &Vec<char>) -> (r: Option<usize>)
    ensures
        match r {
            Some(d) => Some(d as int) == spec_dashes_at(v@, 0) && d + 2 <= v@.len(),
            None => spec_dashes_at(v@, 0) is None,
        },
{
    let n = v.len();
    if n < 2 {
        proof {
            lemma_dashes_none(v@, 0);
        }
        return None;
    }
    for i in 0..n - 1
        invariant
            n == v@.len(),
            n >= 2,
            spec_dashes_at(v@, i as int) == spec_dashes_at(v@, 0),
        decreases n - 1 - i,
    {
        if v[i] == '-' && v[i + 1] == '-' {
            return Some(i);
        }
    }
    proof {
        lemma_dashes_none(v@, n - 1);
    }
    None
}

proof fn lemma_dashes_none(s: Seq<char>, from: int)
    requires
        from + 1 >= s.len(),
        from >= 0,
    ensures
        spec_dashes_at(s, from) is None,
{
}

/// Finds the first named argument called `flag`, or the length.
fn find_named(named: &Vec<(String, NamedArg)>, flag: &String) -> (k: usize)
    ensures
        k as int == spec_find_named(named_views(named@), flag@),
        k <= named@.len(),
{
    let n = named.len();
    proof {
        assert(named_views(named@).skip(0) =~= named_views(named@));
        lemma_find_named_nonneg(named_views(named@), flag@);
    }
    for k in 0..n
        invariant
            n == named@.len(),
            spec_find_named(named_views(named@), flag@) == k as int + spec_find_named(
                named_views(named@).skip(k as int),
                flag@,
            ),
            spec_find_named(named_views(named@).skip(k as int), flag@) >= 0,
    {
        proof {
            assert(named_views(named@).skip(k as int)[0] == named_views(named@)[k as int]);
            assert(named_views(named@).skip(k as int).drop_first() =~= named_views(named@).skip(
                k + 1,
            ));
            lemma_find_named_nonneg(named_views(named@).skip(k + 1), flag@);
        }
        if named[k].0 == *flag {
            return k;
        }
    }
    proof {
        assert(named_views(named@).skip(n as int) =~= Seq::<NamedV>::empty());
    }
    n
}

proof fn lemma_find_named_nonneg(named: Seq<NamedV>, flag: Seq<char>)
    ensures
        spec_find_named(named, flag) >= 0,
    decreases named.len(),
{
    if named.len() > 0 && named[0].name != flag {
        lemma_find_named_nonneg(named.drop_first(), flag);
    }
}

/// The names of the required named arguments that remain.
fn collect_required(named: &Vec<(String, NamedArg)>) -> (r: Vec<String>)
    ensures
        name_views(r@) == required_names(named_views(named@)),
{
    let n = named.len();
    let mut out: Vec<String> = Vec::new();
    proof {
        assert(named_views(named@).skip(0) =~= named_views(named@));
        assert(name_views(out@) =~= Seq::<Seq<char>>::empty());
        assert(name_views(out@) + required_names(named_views(named@)) =~= required_names(
            named_views(named@),
        ));
    }
    for k in 0..n
        invariant
            n == named@.len(),
            name_views(out@) + required_names(named_views(named@).skip(k as int))
                =~= required_names(named_views(named@)),
    {
        proof {
            assert(named_views(named@).skip(k as int)[0] == named_views(named@)[k as int]);
            assert(named_views(named@).skip(k as int).drop_first() =~= named_views(named@).skip(
                k + 1,
            ));
        }
        if named[k].1.required {
            let ghost prev = out@;
            out.push(named[k].0.clone());
            proof {
                assert(name_views(out@) =~= name_views(prev).push(named@[k as int].0@));
                assert(name_views(out@) + required_names(named_views(named@).skip(k + 1))
                    =~= required_names(named_views(named@)));
            }
        } else {
            proof {
                assert(name_views(out@) + required_names(named_views(named@).skip(k + 1))
                    =~= required_names(named_views(named@)));
            }
        }
    }
    proof {
        assert(named_views(named@).skip(n as int) =~= Seq::<NamedV>::empty());
        assert(name_views(out@) + Seq::<Seq<char>>::empty() =~= name_views(out@));
    }
    out
}

/// The names of all named arguments that remain.
fn collect_all(named: &Vec<(String, NamedArg)>) -> (r: Vec<String>)
    ensures
        name_views(r@) == all_names(named_views(named@)),
{
    let n = named.len();
    let mut out: Vec<String> = Vec::new();
    proof {
        assert(named_views(named@).skip(0) =~= named_views(named@));
        assert(name_views(out@) =~= Seq::<Seq<char>>::empty());
        assert(name_views(out@) + all_names(named_views(named@)) =~= all_names(
            named_views(named@),
        ));
    }
    for k in 0..n
        invariant
            n == named@.len(),
            name_views(out@) + all_names(named_views(named@).skip(k as int)) =~= all_names(
                named_views(named@),
            ),
    {
        proof {
            assert(named_views(named@).skip(k as int)[0] == named_views(named@)[k as int]);
            assert(named_views(named@).skip(k as int).drop_first() =~= named_views(named@).skip(
                k + 1,
            ));
        }
        let ghost prev = out@;
        out.push(named[k].0.clone());
        proof {
            assert(name_views(out@) =~= name_views(prev).push(named@[k as int].0@));
            assert(name_views(out@) + all_names(named_views(named@).skip(k + 1)) =~= all_names(
                named_views(named@),
            ));
        }
    }
    proof {
        assert(named_views(named@).skip(n as int) =~= Seq::<NamedV>::empty());
        assert(name_views(out@) + Seq::<Seq<char>>::empty() =~= name_views(out@));
    }
    out
}

/// Builds the `- name` block for the names.
fn build_block(out: &mut String, names: &Vec<String>, from: usize)
    requires
        from <= names@.len(),
    ensures
        final(out)@ == old(out)@ + names_block(name_views(names@).skip(from as int)),
    decreases names@.len() - from,
{
    if from >= names.len() {
        proof {
            assert(name_views(names@).skip(from as int) =~= Seq::<Seq<char>>::empty());
            assert(old(out)@ + Seq::<char>::empty() =~= old(out)@);
        }
        return ;
    }
    out.append("- ");
    out.append(names[from].as_str());
    out.append("\n");
    proof {
        assert(name_views(names@).skip(from as int)[0] == names@[from as int]@);
        assert(name_views(names@).skip(from as int).drop_first() =~= name_views(names@).skip(
            from + 1,
        ));
    }
    build_block(out, names, from + 1);
    proof {
        assert(final(out)@ =~= old(out)@ + names_block(name_views(names@).skip(from as int)));
    }
}

/// Builds the comma-joined list of names from `from` on, appended to a
/// leading cause text.
fn build_missing(lead: &str, names: &Vec<String>, from: usize) -> (r: String)
    requires
        from <= names@.len(),
    ensures
        r@ == lead@ + comma_join(name_views(names@).skip(from as int)),
{
    let mut out = String::new();
    out.append(lead);
    let n = names.len();
    let mut k = from;
    while k < n
        invariant
            from <= k <= n,
            n == names@.len(),
            out@ + comma_join(name_views(names@).skip(k as int)) =~= lead@ + comma_join(
                name_views(names@).skip(from as int),
            ),
        decreases n - k,
    {
        proof {
            assert(name_views(names@).skip(k as int)[0] == names@[k as int]@);
            assert(name_views(names@).skip(k as int).drop_first() =~= name_views(names@).skip(
                k + 1,
            ));
        }
        out.append(names[k].as_str());
        if k + 1 < n {
            out.append(", ");
        } else {
            proof {
                assert(name_views(names@).skip(k as int).len() == 1);
                assert(comma_join(name_views(names@).skip(k + 1)) =~= Seq::<char>::empty());
            }
        }
        k = k + 1;
    }
    proof {
        assert(name_views(names@).skip(n as int) =~= Seq::<Seq<char>>::empty());
        assert(out@ + Seq::<char>::empty() =~= out@);
    }
    out
}

/// Builds the comma-joined list of the given names after a leading cause
/// text.
fn build_missing_names(lead: &str, names: &Vec<String>) -> (r: String)
    ensures
        r@ == lead@ + comma_join(name_views(names@)),
{
    let r = build_missing(lead, names, 0);
    proof {
        assert(name_views(names@).skip(0) =~= name_views(names@));
    }
    r
}

/// Appends the context block to a cause, from the remaining positional
/// names and the remaining required named arguments.
fn build_with_context_cause(
    cause: String,
    positional: &Vec<String>,
    pos_i: usize,
    req: &Vec<String>,
) -> (r: String)
    requires
        pos_i <= positional@.len(),
    ensures
        r@ == with_context(cause@, name_views(positional@).skip(pos_i as int), name_views(req@)),
{
    let mut ctx = String::new();
    if pos_i < positional.len() {
        ctx.append("Still waiting on positional args:\n");
        build_block(&mut ctx, positional, pos_i);
    } else {
        proof {
            assert(name_views(positional@).skip(pos_i as int) =~= Seq::<Seq<char>>::empty());
        }
    }
    let ghost pos_part = ctx@;
    if req.len() > 0 {
        ctx.append("Still waiting on named args:\n");
        build_block(&mut ctx, req, 0);
        proof {
            assert(name_views(req@).skip(0) =~= name_views(req@));
        }
    }
    proof {
        assert(ctx@ =~= spec_context(
            name_views(positional@).skip(pos_i as int),
            name_views(req@),
        ));
    }
    if ctx.as_str().unicode_len() == 0 {
        proof {
            assert(cause@ =~= with_context(
                cause@,
                name_views(positional@).skip(pos_i as int),
                name_views(req@),
            ));
        }
        cause
    } else {
        let mut out = cause;
        out.append("\n");
        out.append(ctx.as_str());
        out
    }
}

/// Appends the context block to a literal cause.
fn build_with_context(
    cause: &str,
    positional: &Vec<String>,
    pos_i: usize,
    req: &Vec<String>,
) -> (r: String)
    requires
        pos_i <= positional@.len(),
    ensures
        r@ == with_context(cause@, name_views(positional@).skip(pos_i as int), name_views(req@)),
{
    let mut c = String::new();
    c.append(cause);
    build_with_context_cause(c, positional, pos_i, req)
}

} // verus!
