//! A tiny expression interpreter: constants, variables, arithmetic and
//! relational operators, conditionals, lexically scoped bindings, tuples,
//! projections, sums and case analysis.

use vstd::prelude::*;

verus! {

#[derive(Debug, PartialEq, Eq)]
pub enum Const {
    Num(isize),
    Str(String),
    Bool(bool),
    Tuple(Vec<Const>),
    Sum(Direction, Box<Const>),
}

#[derive(Debug, Clone, Copy, PartialEq, Eq, Structural)]
pub enum Direction {
    Left,
    Right,
}

/// The abstract value of a constant: numbers as integers, strings as
/// their characters, tuples as sequences.
pub ghost enum ConstV {
    Num(int),
    Str(Seq<char>),
    Bool(bool),
    Tuple(Seq<ConstV>),
    Sum(Direction, Box<ConstV>),
}

/// The abstract value of a constant.
pub open spec fn const_view(c: Const) -> ConstV
    decreases c,
{
    match c {
        Const::Num(n) => ConstV::Num(n as int),
        Const::Str(s) => ConstV::Str(s@),
        Const::Bool(b) => ConstV::Bool(b),
        Const::Tuple(t) => ConstV::Tuple(const_views(t@)),
        Const::Sum(d, c1) => ConstV::Sum(d, Box::new(const_view(*c1))),
    }
}

/// The abstract values of a sequence of constants.
pub open spec fn const_views(cs: Seq<Const>) -> Seq<ConstV>
    decreases cs,
{
    if cs.len() == 0 {
        Seq::empty()
    } else {
        const_views(cs.drop_last()).push(const_view(cs.last()))
    }
}

proof fn lemma_const_views_index(cs: Seq<Const>, i: int)
    requires
        0 <= i < cs.len(),
    ensures
        const_views(cs).len() == cs.len(),
        const_views(cs)[i] == const_view(cs[i]),
    decreases cs.len(),
{
    if cs.len() > 0 {
        if i < cs.len() - 1 {
            lemma_const_views_index(cs.drop_last(), i);
        } else {
            if cs.len() > 1 {
                lemma_const_views_index(cs.drop_last(), 0);
            }
        }
        assert(const_views(cs.drop_last()).len() == cs.drop_last().len()) by {
            lemma_const_views_len(cs.drop_last());
        }
    }
}

proof fn lemma_const_views_len(cs: Seq<Const>)
    ensures
        const_views(cs).len() == cs.len(),
    decreases cs.len(),
{
    if cs.len() > 0 {
        lemma_const_views_len(cs.drop_last());
    }
}

impl Const {
    /// A structurally equal copy of this constant.
    pub fn duplicate(&self) -> (r: Const)
        ensures
            const_view(r) == const_view(*self),
        decreases *self,
    {
        match self {
            Const::Num(n) => Const::Num(*n),
            Const::Str(s) => Const::Str(s.clone()),
            Const::Bool(b) => Const::Bool(*b),
            Const::Sum(d, c1) => {
                proof {
                    assert(decreases_to!(*self => (*self)->Sum_1));
                }
                Const::Sum(*d, Box::new((**c1).duplicate()))
            },
            Const::Tuple(t) => {
                let n = t.len();
                let mut out: Vec<Const> = Vec::new();
                for i in 0..n
                    invariant
                        *self is Tuple,
                        t == (*self)->Tuple_0,
                        n == t@.len(),
                        out@.len() == i,
                        const_views(out@) == const_views(t@.take(i as int)),
                    decreases n - i,
                {
                    proof {
                        assert(decreases_to!(*self => (*self)->Tuple_0));
                        assert(decreases_to!((*self)->Tuple_0 => (*self)->Tuple_0@));
                        assert(decreases_to!((*self)->Tuple_0@ => (*self)->Tuple_0@[i as int]));
                        assert(decreases_to!(*self => t@[i as int]));
                    }
                    let c = t[i].duplicate();
                    let ghost prev = out@;
                    out.push(c);
                    proof {
                        assert(t@.take(i + 1).drop_last() =~= t@.take(i as int));
                        assert(t@.take(i + 1).last() == t@[i as int]);
                        assert(out@.drop_last() =~= prev);
                        assert(out@.last() == c);
                        assert(const_views(out@) == const_views(prev).push(const_view(c)));
                        assert(const_views(t@.take(i + 1)) == const_views(t@.take(i as int)).push(
                            const_view(t@[i as int]),
                        ));
                        assert(const_views(out@) == const_views(t@.take(i + 1)));
                    }
                }
                proof {
                    assert(t@.take(n as int) =~= t@);
                }
                Const::Tuple(out)
            },
        }
    }

    /// The numeric value of a number.
    pub fn as_num(&self) -> (r: isize)
        requires
            self is Num,
        ensures
            const_view(*self) == ConstV::Num(r as int),
    {
        match self {
            Const::Num(n) => *n,
            _ => 0,
        }
    }

    /// The text of a string.
    pub fn as_str(&self) -> (r: &str)
        requires
            self is Str,
        ensures
            const_view(*self) == ConstV::Str(r@),
    {
        match self {
            Const::Str(s) => s.as_str(),
            _ => "",
        }
    }

    /// The truth value of a boolean.
    pub fn as_bool(&self) -> (r: bool)
        requires
            self is Bool,
        ensures
            const_view(*self) == ConstV::Bool(r),
    {
        match self {
            Const::Bool(b) => *b,
            _ => false,
        }
    }

    /// The components of a tuple.
    pub fn as_tuple(&self) -> (r: &Vec<Const>)
        requires
            self is Tuple,
        ensures
            const_view(*self) == ConstV::Tuple(const_views(r@)),
    {
        match self {
            Const::Tuple(t) => t,
            _ => unreached(),
        }
    }

    /// The direction and payload of a sum.
    pub fn as_sum(&self) -> (r: (&Direction, &Const))
        requires
            self is Sum,
        ensures
            const_view(*self) == ConstV::Sum(*r.0, Box::new(const_view(*r.1))),
    {
        match self {
            Const::Sum(d, c) => (d, &**c),
            _ => unreached(),
        }
    }
}

#[derive(Debug, Clone, Copy, PartialEq, Eq, Structural)]
pub enum Binop {
    Add,
    Sub,
    Mul,
    Div,
}

#[derive(Debug, Clone, Copy, PartialEq, Eq, Structural)]
pub enum Relop {
    And,
    Or,
    Xor,
    Greater,
    Lesser,
}

#[derive(Debug)]
pub enum Expr {
    Const(Const),
    Var(String),
    Binop(Binop, Box<Expr>, Box<Expr>),
    Relop(Relop, Box<Expr>, Box<Expr>),
    If(Box<Expr>, Box<Expr>, Box<Expr>),
    Let(String, Box<Expr>, Box<Expr>),
    Tuple(Vec<Box<Expr>>),
    Proj(Box<Expr>, Box<Expr>),
    Sum(Direction, Box<Expr>),
    Match(Box<Expr>, (String, Box<Expr>), (String, Box<Expr>)),
}

/// The value bound to `name`, under the latest binding.
pub open spec fn spec_env_lookup(env: Seq<(Seq<char>, ConstV)>, name: Seq<char>) -> Option<ConstV>
    decreases env.len(),
{
    if env.len() == 0 {
        None
    } else if env.last().0 == name {
        Some(env.last().1)
    } else {
        spec_env_lookup(env.drop_last(), name)
    }
}

/// The value of a numeric operator, or `None` on overflow or division by
/// zero.
pub open spec fn spec_binop(op: Binop, n1: isize, n2: isize) -> Option<isize> {
    match op {
        Binop::Add => n1.checked_add(n2),
        Binop::Sub => n1.checked_sub(n2),
        Binop::Mul => n1.checked_mul(n2),
        Binop::Div => n1.checked_div(n2),
    }
}

/// The value of `e` under the bindings `env`, or `None` when evaluation
/// fails: an unbound variable, an operand of the wrong shape, numeric
/// overflow, division by zero, or a projection out of range.
pub open spec fn spec_eval(e: Expr, env: Seq<(Seq<char>, ConstV)>) -> Option<ConstV>
    decreases e, 0int,
{
    match e {
        Expr::Const(c) => Some(const_view(c)),
        Expr::Var(x) => spec_env_lookup(env, x@),
        Expr::Binop(op, e1, e2) => match (spec_eval(*e1, env), spec_eval(*e2, env)) {
            (Some(ConstV::Num(n1)), Some(ConstV::Num(n2))) => {
                if isize::MIN <= n1 <= isize::MAX && isize::MIN <= n2 <= isize::MAX {
                    match spec_binop(op, n1 as isize, n2 as isize) {
                        Some(n3) => Some(ConstV::Num(n3 as int)),
                        None => None,
                    }
                } else {
                    None
                }
            },
            _ => None,
        },
        Expr::Relop(op, e1, e2) => match (spec_eval(*e1, env), spec_eval(*e2, env)) {
            (Some(c1), Some(c2)) => spec_relop(op, c1, c2),
            _ => None,
        },
        Expr::If(cond, then_e, else_e) => match spec_eval(*cond, env) {
            Some(ConstV::Bool(b)) => if b {
                spec_eval(*then_e, env)
            } else {
                spec_eval(*else_e, env)
            },
            _ => None,
        },
        Expr::Let(x, x_expr, body) => match spec_eval(*x_expr, env) {
            Some(v) => spec_eval(*body, env.push((x@, v))),
            None => None,
        },
        Expr::Tuple(es) => match spec_eval_list(es@, env) {
            Some(vs) => Some(ConstV::Tuple(vs)),
            None => None,
        },
        Expr::Proj(e1, e2) => match (spec_eval(*e1, env), spec_eval(*e2, env)) {
            (Some(ConstV::Tuple(vs)), Some(ConstV::Num(n))) => if 0 <= n < vs.len() {
                Some(vs[n])
            } else {
                None
            },
            _ => None,
        },
        Expr::Sum(d, e1) => match spec_eval(*e1, env) {
            Some(v) => Some(ConstV::Sum(d, Box::new(v))),
            None => None,
        },
        Expr::Match(discr, arm1, arm2) => match spec_eval(*discr, env) {
            Some(ConstV::Sum(dir, payload)) => {
                let (x, body) = if dir is Left {
                    arm1
                } else {
                    arm2
                };
                spec_eval(*body, env.push((x@, *payload)))
            },
            _ => None,
        },
    }
}

/// The values of a list of expressions, left to right; fails when any
/// fails.
pub open spec fn spec_eval_list(es: Seq<Box<Expr>>, env: Seq<(Seq<char>, ConstV)>) -> Option<
    Seq<ConstV>,
>
    decreases es, 1int,
{
    if es.len() == 0 {
        Some(Seq::empty())
    } else {
        match spec_eval_list(es.drop_last(), env) {
            Some(vs) => match spec_eval(*es.last(), env) {
                Some(v) => Some(vs.push(v)),
                None => None,
            },
            None => None,
        }
    }
}

/// The value of a relational operator; boolean connectives need booleans
/// and comparisons need numbers.
pub open spec fn spec_relop(op: Relop, c1: ConstV, c2: ConstV) -> Option<ConstV> {
    match op {
        Relop::And => match (c1, c2) {
            (ConstV::Bool(b1), ConstV::Bool(b2)) => Some(ConstV::Bool(b1 && b2)),
            _ => None,
        },
        Relop::Or => match (c1, c2) {
            (ConstV::Bool(b1), ConstV::Bool(b2)) => Some(ConstV::Bool(b1 || b2)),
            _ => None,
        },
        Relop::Xor => match (c1, c2) {
            (ConstV::Bool(b1), ConstV::Bool(b2)) => Some(ConstV::Bool(b1 != b2)),
            _ => None,
        },
        Relop::Greater => match (c1, c2) {
            (ConstV::Num(n1), ConstV::Num(n2)) => Some(ConstV::Bool(n1 > n2)),
            _ => None,
        },
        Relop::Lesser => match (c1, c2) {
            (ConstV::Num(n1), ConstV::Num(n2)) => Some(ConstV::Bool(n1 < n2)),
            _ => None,
        },
    }
}

/// The evaluation environment: a stack of name bindings, latest last.
#[derive(Debug)]
pub struct State(Vec<(String, Const)>);

/// The abstract bindings of a state.
pub open spec fn env_view(bindings: Seq<(String, Const)>) -> Seq<(Seq<char>, ConstV)> {
    bindings.map_values(|b: (String, Const)| (b.0@, const_view(b.1)))
}

impl State {
    /// The abstract bindings of this state.
    pub closed spec fn view_env(self) -> Seq<(Seq<char>, ConstV)> {
        env_view(self.0@)
    }

    /// The empty state.
    pub fn empty() -> (s: State)
        ensures
            s.view_env() == Seq::<(Seq<char>, ConstV)>::empty(),
    {
        let s = State(Vec::new());
        proof {
            assert(s.view_env() =~= Seq::<(Seq<char>, ConstV)>::empty());
        }
        s
    }
}

impl Default for State {
    /// The empty state.
    fn default() -> (s: State)
        ensures
            s.view_env() == Seq::<(Seq<char>, ConstV)>::empty(),
    {
        State::empty()
    }
}

impl Expr {
    /// Evaluates this expression under the bindings of `state`, returning
    /// `None` when evaluation fails as `spec_eval` describes; the state
    /// is left as it was found.
    #[verifier::rlimit(100)]
    pub fn eval(&self, state: &mut State) -> (r: Option<Const>)
        ensures
            final(state).view_env() == old(state).view_env(),
            match r {
                Some(c) => spec_eval(*self, old(state).view_env()) == Some(const_view(c)),
                None => spec_eval(*self, old(state).view_env()) is None,
            },
        decreases *self,
    {
        match self {
            Expr::Const(c) => Some(c.duplicate()),
            Expr::Var(x) => {
                let n = state.0.len();
                proof {
                    assert(state.0@.take(n as int) =~= state.0@);
                }
                let mut k = n;
                while k > 0
                    invariant
                        *self is Var && (*self)->Var_0 == *x,
                        n == state.0@.len(),
                        k <= n,
                        *state == *old(state),
                        spec_env_lookup(env_view(state.0@.take(k as int)), x@) == spec_env_lookup(
                            state.view_env(),
                            x@,
                        ),
                    decreases k,
                {
                    proof {
                        assert(env_view(state.0@.take(k as int)).last() == (
                            state.0@[k - 1].0@,
                            const_view(state.0@[k - 1].1),
                        ));
                        assert(env_view(state.0@.take(k as int)).drop_last() =~= env_view(
                            state.0@.take(k - 1),
                        ));
                    }
                    if state.0[k - 1].0 == *x {
                        proof {
                            assert(state.0@[k - 1].0@ == x@);
                            assert(env_view(state.0@.take(k as int)).last().0 == x@);
                            assert(spec_env_lookup(env_view(state.0@.take(k as int)), x@) == Some(
                                const_view(state.0@[k - 1].1),
                            ));
                        }
                        return Some(state.0[k - 1].1.duplicate());
                    }
                    k = k - 1;
                }
                proof {
                    assert(state.0@.take(0) =~= Seq::<(String, Const)>::empty());
                    assert(env_view(state.0@.take(0)) =~= Seq::<(Seq<char>, ConstV)>::empty());
                }
                None
            },
            Expr::Binop(op, e1, e2) => {
                proof {
                    assert(decreases_to!(*self => (*self)->Binop_1));
                    assert(decreases_to!(*self => (*self)->Binop_2));
                }
                let v1 = match e1.eval(state) {
                    Some(c) => c,
                    None => {
                        return None;
                    },
                };
                let v2 = match e2.eval(state) {
                    Some(c) => c,
                    None => {
                        return None;
                    },
                };
                let n1 = match v1 {
                    Const::Num(n) => n,
                    _ => {
                        return None;
                    },
                };
                let n2 = match v2 {
                    Const::Num(n) => n,
                    _ => {
                        return None;
                    },
                };
                let n3 = match op {
                    Binop::Add => n1.checked_add(n2),
                    Binop::Sub => n1.checked_sub(n2),
                    Binop::Mul => n1.checked_mul(n2),
                    Binop::Div => n1.checked_div(n2),
                };
                match n3 {
                    Some(n) => Some(Const::Num(n)),
                    None => None,
                }
            },
            Expr::Relop(op, e1, e2) => {
                proof {
                    assert(decreases_to!(*self => (*self)->Relop_1));
                    assert(decreases_to!(*self => (*self)->Relop_2));
                }
                let v1 = match e1.eval(state) {
                    Some(c) => c,
                    None => {
                        return None;
                    },
                };
                let v2 = match e2.eval(state) {
                    Some(c) => c,
                    None => {
                        return None;
                    },
                };
                match op {
                    Relop::And => match (v1, v2) {
                        (Const::Bool(b1), Const::Bool(b2)) => Some(Const::Bool(b1 && b2)),
                        _ => None,
                    },
                    Relop::Or => match (v1, v2) {
                        (Const::Bool(b1), Const::Bool(b2)) => Some(Const::Bool(b1 || b2)),
                        _ => None,
                    },
                    Relop::Xor => match (v1, v2) {
                        (Const::Bool(b1), Const::Bool(b2)) => Some(Const::Bool(b1 != b2)),
                        _ => None,
                    },
                    Relop::Greater => match (v1, v2) {
                        (Const::Num(n1), Const::Num(n2)) => Some(Const::Bool(n1 > n2)),
                        _ => None,
                    },
                    Relop::Lesser => match (v1, v2) {
                        (Const::Num(n1), Const::Num(n2)) => Some(Const::Bool(n1 < n2)),
                        _ => None,
                    },
                }
            },
            Expr::If(cond, then_e, else_e) => {
                proof {
                    assert(decreases_to!(*self => (*self)->If_0));
                    assert(decreases_to!(*self => (*self)->If_1));
                    assert(decreases_to!(*self => (*self)->If_2));
                }
                let c = match cond.eval(state) {
                    Some(c) => c,
                    None => {
                        return None;
                    },
                };
                let b = match c {
                    Const::Bool(b) => b,
                    _ => {
                        return None;
                    },
                };
                if b {
                    then_e.eval(state)
                } else {
                    else_e.eval(state)
                }
            },
            Expr::Let(x, x_expr, body) => {
                proof {
                    assert(decreases_to!(*self => (*self)->Let_1));
                    assert(decreases_to!(*self => (*self)->Let_2));
                }
                let v = match x_expr.eval(state) {
                    Some(c) => c,
                    None => {
                        return None;
                    },
                };
                let ghost mid = state.0@;
                state.0.push((x.clone(), v));
                proof {
                    assert(env_view(state.0@) =~= env_view(mid).push(
                        (x@, const_view(state.0@.last().1)),
                    ));
                }
                let r = body.eval(state);
                let ghost after_body = state.0@;
                state.0.pop();
                proof {
                    assert(env_view(after_body).drop_last() =~= env_view(
                        after_body.drop_last(),
                    ));
                    assert(env_view(state.0@) =~= env_view(mid));
                }
                r
            },
            Expr::Match(discr, arm1, arm2) => {
                proof {
                    assert(decreases_to!(*self => (*self)->Match_0));
                    assert(decreases_to!(*self => (*self)->Match_1));
                    assert(decreases_to!(*self => (*self)->Match_2));
                }
                let d = match discr.eval(state) {
                    Some(c) => c,
                    None => {
                        return None;
                    },
                };
                let (dir, payload) = match d {
                    Const::Sum(dir, payload) => (dir, payload),
                    _ => {
                        return None;
                    },
                };
                let (x, body) = match dir {
                    Direction::Left => (&arm1.0, &arm1.1),
                    Direction::Right => (&arm2.0, &arm2.1),
                };
                proof {
                    if dir is Left {
                        assert(decreases_to!((*self)->Match_1 => (*self)->Match_1.1));
                    } else {
                        assert(decreases_to!((*self)->Match_2 => (*self)->Match_2.1));
                    }
                }
                let ghost mid = state.0@;
                state.0.push((x.clone(), *payload));
                proof {
                    assert(env_view(state.0@) =~= env_view(mid).push(
                        (x@, const_view(state.0@.last().1)),
                    ));
                }
                let r = body.eval(state);
                let ghost after_body = state.0@;
                state.0.pop();
                proof {
                    assert(env_view(after_body).drop_last() =~= env_view(
                        after_body.drop_last(),
                    ));
                    assert(env_view(state.0@) =~= env_view(mid));
                }
                r
            },
            Expr::Tuple(es) => {
                let n = es.len();
                let mut vs: Vec<Const> = Vec::new();
                for i in 0..n
                    invariant
                        *self is Tuple,
                        es == (*self)->Tuple_0,
                        n == es@.len(),
                        state.view_env() == old(state).view_env(),
                        vs@.len() == i,
                        spec_eval_list(es@.take(i as int), old(state).view_env()) == Some(
                            const_views(vs@),
                        ),
                    decreases n - i,
                {
                    proof {
                        assert(decreases_to!(*self => (*self)->Tuple_0));
                        assert(decreases_to!((*self)->Tuple_0 => (*self)->Tuple_0@));
                        assert(decreases_to!((*self)->Tuple_0@ => (*self)->Tuple_0@[i as int]));
                        assert(decreases_to!(*self => *es@[i as int]));
                    }
                    let v = match es[i].eval(state) {
                        Some(c) => c,
                        None => {
                            proof {
                                assert(es@.take(i + 1).drop_last() =~= es@.take(i as int));
                                assert(es@.take(i + 1).last() == es@[i as int]);
                                lemma_eval_list_fail(es@, i as int, old(state).view_env());
                            }
                            return None;
                        },
                    };
                    let ghost prev = vs@;
                    vs.push(v);
                    proof {
                        assert(es@.take(i + 1).drop_last() =~= es@.take(i as int));
                        assert(es@.take(i + 1).last() == es@[i as int]);
                        assert(vs@.drop_last() =~= prev);
                        assert(vs@.last() == v);
                        assert(const_views(vs@) == const_views(prev).push(const_view(v)));
                    }
                }
                proof {
                    assert(es@.take(n as int) =~= es@);
                }
                Some(Const::Tuple(vs))
            },
            Expr::Proj(e1, e2) => {
                proof {
                    assert(decreases_to!(*self => (*self)->Proj_0));
                    assert(decreases_to!(*self => (*self)->Proj_1));
                }
                let v1 = match e1.eval(state) {
                    Some(c) => c,
                    None => {
                        return None;
                    },
                };
                let v2 = match e2.eval(state) {
                    Some(c) => c,
                    None => {
                        return None;
                    },
                };
                let t = match v1 {
                    Const::Tuple(t) => t,
                    _ => {
                        return None;
                    },
                };
                let n = match v2 {
                    Const::Num(n) => n,
                    _ => {
                        return None;
                    },
                };
                if n >= 0 && (n as usize) < t.len() {
                    proof {
                        lemma_const_views_index(t@, n as int);
                    }
                    Some(t[n as usize].duplicate())
                } else {
                    proof {
                        lemma_const_views_len(t@);
                    }
                    None
                }
            },
            Expr::Sum(d, e1) => {
                proof {
                    assert(decreases_to!(*self => (*self)->Sum_1));
                }
                match e1.eval(state) {
                    Some(v) => Some(Const::Sum(*d, Box::new(v))),
                    None => None,
                }
            },
        }
    }
}

/// A failing element fails the whole list.
proof fn lemma_eval_list_fail(es: Seq<Box<Expr>>, i: int, env: Seq<(Seq<char>, ConstV)>)
    requires
        0 <= i < es.len(),
        spec_eval_list(es.take(i), env) is Some,
        spec_eval(*es[i], env) is None,
    ensures
        spec_eval_list(es, env) is None,
    decreases es.len() - i,
{
    if i == es.len() - 1 {
        assert(es.take(es.len() as int) =~= es);
        assert(es.take(i + 1).drop_last() =~= es.take(i));
        assert(es.take(i + 1).last() == es[i]);
    } else {
        assert(es.take(i + 1).drop_last() =~= es.take(i));
        assert(es.take(i + 1).last() == es[i]);
        assert(spec_eval_list(es.take(i + 1), env) is None);
        lemma_eval_list_none_extends(es, i + 1, env);
    }
}

/// Once a prefix fails, every longer prefix fails.
proof fn lemma_eval_list_none_extends(es: Seq<Box<Expr>>, i: int, env: Seq<(Seq<char>, ConstV)>)
    requires
        0 <= i <= es.len(),
        spec_eval_list(es.take(i), env) is None,
    ensures
        spec_eval_list(es, env) is None,
    decreases es.len() - i,
{
    if i == es.len() {
        assert(es.take(i) =~= es);
    } else {
        assert(es.take(i + 1).drop_last() =~= es.take(i));
        lemma_eval_list_none_extends(es, i + 1, env);
    }
}

} // verus!
