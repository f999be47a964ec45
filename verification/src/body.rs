//! Body enumeration: walking the program's items, filtering out bodies
//! that cannot be analysed, and numbering the eligible ones in a stable
//! order; the single-body restriction; and per-body pointer statistics.

use vstd::prelude::*;

use crate::span::Span;

verus! {

/// A program location: an instruction position within a basic block.
#[derive(Debug, Clone, Copy, PartialEq, Eq, Structural)]
pub struct Loc {
    pub block: usize,
    pub index: usize,
}

/// One function-like item of the program, as reported by the compiler
/// frontend: its path, defining span, and the two predicates that decide
/// whether its source can be correlated.
#[derive(Debug, Clone)]
pub struct ItemInfo {
    pub path: String,
    pub span: Span,
    pub is_fn_like: bool,
    pub from_expansion: bool,
    pub has_source: bool,
}

/// A body is analysed only if it is function-like, does not originate
/// from macro expansion, and its source buffer has recoverable text.
pub open spec fn eligible(it: ItemInfo) -> bool {
    it.is_fn_like && !it.from_expansion && it.has_source
}

/// An eligible body with its 1-based position in enumeration order.
#[derive(Debug, Clone)]
pub struct EligibleBody {
    pub ordinal: usize,
    pub path: String,
    pub span: Span,
}

/// The eligible bodies of `items` in order, numbered from `next` on.
pub open spec fn spec_enumerate(items: Seq<ItemInfo>, next: int) -> Seq<EligibleBody>
    decreases items.len(),
{
    if items.len() == 0 {
        Seq::empty()
    } else if eligible(items[0]) {
        seq![
            EligibleBody { ordinal: next as usize, path: items[0].path, span: items[0].span },
        ] + spec_enumerate(items.drop_first(), next + 1)
    } else {
        spec_enumerate(items.drop_first(), next)
    }
}

/// Every ordinal in an enumeration is consecutive from its start: entry
/// `w` carries ordinal `next + w`.  Together with the enumeration being a
/// pure function of the item list, this makes the numbering stable across
/// repeated runs on the same input.
pub proof fn lemma_enumeration_ordinals(items: Seq<ItemInfo>, next: int, w: int)
    requires
        0 <= next,
        next + items.len() <= usize::MAX,
        0 <= w < spec_enumerate(items, next).len(),
    ensures
        spec_enumerate(items, next)[w].ordinal == next + w,
    decreases items.len(),
{
    lemma_enumeration_len(items, next);
    if items.len() > 0 {
        if eligible(items[0]) {
            if w > 0 {
                lemma_enumeration_ordinals(items.drop_first(), next + 1, w - 1);
            }
        } else {
            lemma_enumeration_ordinals(items.drop_first(), next, w);
        }
    }
}

/// An enumeration never yields more bodies than there are items.
pub proof fn lemma_enumeration_len(items: Seq<ItemInfo>, next: int)
    ensures
        spec_enumerate(items, next).len() <= items.len(),
    decreases items.len(),
{
    if items.len() > 0 {
        lemma_enumeration_len(items.drop_first(), next + 1);
        lemma_enumeration_len(items.drop_first(), next);
    }
}

/// Enumeration is deterministic: two runs over the same unmodified item
/// list produce the same bodies with the same ordinal numbering.
pub proof fn lemma_enumeration_deterministic(
    items: Seq<ItemInfo>,
    r1: Seq<EligibleBody>,
    r2: Seq<EligibleBody>,
)
    requires
        r1 == spec_enumerate(items, 1),
        r2 == spec_enumerate(items, 1),
    ensures
        r1 == r2,
{
}

/// Walks the item list and yields the eligible bodies, numbered from 1 in
/// enumeration order.  Ineligible items are silently skipped.
pub fn enumerate_bodies(items: &Vec<ItemInfo>) -> (r: Vec<EligibleBody>)
    requires
        items@.len() < usize::MAX,
    ensures
        r@ == spec_enumerate(items@, 1),
{
    let n = items.len();
    let mut out: Vec<EligibleBody> = Vec::new();
    let mut next: usize = 1;
    proof {
        assert(items@.skip(0) =~= items@);
        assert(Seq::<EligibleBody>::empty() + spec_enumerate(items@, 1) =~= spec_enumerate(
            items@,
            1,
        ));
    }
    for i in 0..n
        invariant
            n == items@.len(),
            n < usize::MAX,
            next == out@.len() + 1,
            out@.len() <= i,
            spec_enumerate(items@, 1) == out@ + spec_enumerate(
                items@.skip(i as int),
                next as int,
            ),
    {
        proof {
            assert(items@.skip(i as int).len() == n - i);
            assert(items@.skip(i as int)[0] == items@[i as int]);
            assert(items@.skip(i as int).drop_first() =~= items@.skip(i + 1));
        }
        let it = &items[i];
        if it.is_fn_like && !it.from_expansion && it.has_source {
            out.push(EligibleBody { ordinal: next, path: it.path.clone(), span: it.span });
            next = next + 1;
            proof {
                assert(spec_enumerate(items@.skip(i as int), (next - 1) as int) =~= seq![
                    out@.last(),
                ] + spec_enumerate(items@.skip(i + 1), next as int));
                assert(spec_enumerate(items@, 1) =~= out@ + spec_enumerate(
                    items@.skip(i + 1),
                    next as int,
                ));
            }
        } else {
            proof {
                assert(spec_enumerate(items@.skip(i as int), next as int) == spec_enumerate(
                    items@.skip(i + 1),
                    next as int,
                ));
            }
        }
    }
    proof {
        assert(items@.skip(n as int) =~= Seq::<ItemInfo>::empty());
        assert(spec_enumerate(items@.skip(n as int), next as int) =~= Seq::<EligibleBody>::empty());
        assert(out@ + Seq::<EligibleBody>::empty() =~= out@);
    }
    out
}

/// Counts the eligible bodies of the item list.
pub fn count_bodies(items: &Vec<ItemInfo>) -> (n: usize)
    requires
        items@.len() < usize::MAX,
    ensures
        n == spec_enumerate(items@, 1).len(),
{
    let bodies = enumerate_bodies(items);
    bodies.len()
}

/// Counts the eligible bodies as the item tree is walked; the final
/// count is the denominator shown while analysing.
#[derive(Debug)]
pub struct ItemCounter {
    pub count: usize,
}

impl ItemCounter {
    /// Counts one item if it is an eligible body.
    pub fn visit(&mut self, item: &ItemInfo)
        requires
            old(self).count < usize::MAX,
        ensures
            final(self).count == old(self).count + if eligible(*item) {
                1int
            } else {
                0int
            },
    {
        if item.is_fn_like && !item.from_expansion && item.has_source {
            self.count = self.count + 1;
        }
    }
}

/// An optional restriction to a single body, by ordinal position or by
/// path.
#[derive(Debug, Clone)]
pub enum Restriction {
    All,
    Ordinal(usize),
    Named(String),
}

/// Whether a body with the given ordinal and path is selected.
pub open spec fn spec_selected(r: Restriction, ordinal: usize, path: Seq<char>) -> bool {
    match r {
        Restriction::All => true,
        Restriction::Ordinal(n) => ordinal == n,
        Restriction::Named(s) => path == s@,
    }
}

impl Restriction {
    /// Decides whether the body numbered `ordinal` with path `path` is to
    /// be analysed; an unselected body is skipped without side effects.
    pub fn selected(&self, ordinal: usize, path: &String) -> (r: bool)
        ensures
            r == spec_selected(*self, ordinal, path@),
    {
        match self {
            Restriction::All => true,
            Restriction::Ordinal(n) => ordinal == *n,
            Restriction::Named(s) => *path == *s,
        }
    }
}

/// Whether two of the types (by identity) coincide: true when some type
/// occurs at two distinct positions.
pub open spec fn spec_any_same_type(types: Seq<u64>) -> bool {
    exists|i: int, j: int| 0 <= i < types.len() && 0 <= j < types.len() && i != j && types[i] === types[j]
}

/// Decides whether any two of the given pointer types coincide.
pub fn any_same_type_ptrs(types: &Vec<u64>) -> (r: bool)
    ensures
        r == spec_any_same_type(types@),
{
    let n = types.len();
    for i in 0..n
        invariant
            n == types@.len(),
            forall|x: int, y: int|
                0 <= x < i && 0 <= y < n && x != y ==> types@[x] !== types@[y],
    {
        for j in 0..n
            invariant
                n == types@.len(),
                i < n,
                forall|x: int, y: int|
                    0 <= x < i && 0 <= y < n && x != y ==> types@[x] !== types@[y],
                forall|y: int| 0 <= y < j && y != i ==> types@[i as int] !== types@[y],
        {
            if j != i && types[i] == types[j] {
                proof {
                    assert(types@[i as int] === types@[j as int]);
                }
                return true;
            }
        }
    }
    false
}

/// A pointer reaching a call or the body's inputs: the identity of its
/// pointee type and whether it is a mutable pointer.
#[derive(Debug, Clone, Copy, PartialEq, Eq, Structural)]
pub struct PtrInfo {
    pub type_id: u64,
    pub mutable: bool,
}

/// One call site: the pointers among its arguments and the pointers in
/// its output destination.
#[derive(Debug, Clone)]
pub struct CallInfo {
    pub arg_ptrs: Vec<PtrInfo>,
    pub dest_ptrs: Vec<PtrInfo>,
}

/// The pointee types of the mutable pointers among `ptrs`, in order.
pub open spec fn spec_mut_types(ptrs: Seq<PtrInfo>) -> Seq<u64>
    decreases ptrs.len(),
{
    if ptrs.len() == 0 {
        Seq::empty()
    } else {
        spec_mut_types(ptrs.drop_last()) + if ptrs.last().mutable {
            seq![ptrs.last().type_id]
        } else {
            Seq::empty()
        }
    }
}

/// Collects the pointee types of the mutable pointers among `ptrs`.
pub fn mut_types(ptrs: &Vec<PtrInfo>) -> (r: Vec<u64>)
    ensures
        r@ == spec_mut_types(ptrs@),
{
    let n = ptrs.len();
    let mut out: Vec<u64> = Vec::new();
    for i in 0..n
        invariant
            n == ptrs@.len(),
            out@ == spec_mut_types(ptrs@.take(i as int)),
    {
        proof {
            assert(ptrs@.take(i + 1).drop_last() =~= ptrs@.take(i as int));
            assert(ptrs@.take(i + 1).last() == ptrs@[i as int]);
        }
        if ptrs[i].mutable {
            out.push(ptrs[i].type_id);
        }
        proof {
            assert(out@ =~= spec_mut_types(ptrs@.take(i + 1)));
        }
    }
    proof {
        assert(ptrs@.take(n as int) =~= ptrs@);
    }
    out
}

/// Whether a call passes any immutable pointer among its arguments.
pub open spec fn spec_has_immut_arg(c: CallInfo) -> bool {
    exists|i: int| 0 <= i < c.arg_ptrs@.len() && !(#[trigger] c.arg_ptrs@[i]).mutable
}

/// Whether a call has two mutable pointers of the same type among its
/// arguments and destination together.
pub open spec fn spec_call_same_type(c: CallInfo) -> bool {
    spec_any_same_type(spec_mut_types(c.arg_ptrs@ + c.dest_ptrs@))
}

/// The pointer statistics of one body, derived from its input pointers
/// and its call sites.
#[derive(Debug, Clone, Copy, PartialEq, Eq, Structural)]
pub struct PtrStats {
    pub has_immut_ptr_in_call: bool,
    pub has_same_type_ptrs_in_call: bool,
    pub has_same_type_ptrs_in_input: bool,
}

/// Computes the per-body pointer statistics: whether any call takes an
/// immutable pointer, whether any call sees two mutable pointers of one
/// type, and whether the body's own inputs hold two mutable pointers of
/// one type.
pub fn body_ptr_stats(input_ptrs: &Vec<PtrInfo>, calls: &Vec<CallInfo>) -> (r: PtrStats)
    ensures
        r.has_immut_ptr_in_call == exists|i: int|
            0 <= i < calls@.len() && spec_has_immut_arg(#[trigger] calls@[i]),
        r.has_same_type_ptrs_in_call == exists|i: int|
            0 <= i < calls@.len() && spec_call_same_type(#[trigger] calls@[i]),
        r.has_same_type_ptrs_in_input == spec_any_same_type(spec_mut_types(input_ptrs@)),
{
    let input_mut = mut_types(input_ptrs);
    let has_same_type_ptrs_in_input = any_same_type_ptrs(&input_mut);
    let mut has_immut_ptr_in_call = false;
    let mut has_same_type_ptrs_in_call = false;
    let n = calls.len();
    for i in 0..n
        invariant
            n == calls@.len(),
            has_immut_ptr_in_call == exists|x: int|
                0 <= x < i && spec_has_immut_arg(#[trigger] calls@[x]),
            has_same_type_ptrs_in_call == exists|x: int|
                0 <= x < i && spec_call_same_type(#[trigger] calls@[x]),
    {
        let call = &calls[i];
        let mut combined: Vec<PtrInfo> = Vec::new();
        let na = call.arg_ptrs.len();
        let mut immut_here = false;
        for a in 0..na
            invariant
                na == call.arg_ptrs@.len(),
                combined@ == call.arg_ptrs@.take(a as int),
                immut_here == exists|x: int|
                    0 <= x < a && !(#[trigger] call.arg_ptrs@[x]).mutable,
        {
            combined.push(call.arg_ptrs[a]);
            if !call.arg_ptrs[a].mutable {
                immut_here = true;
            }
            proof {
                assert(combined@ =~= call.arg_ptrs@.take(a + 1));
            }
        }
        let nd = call.dest_ptrs.len();
        for d in 0..nd
            invariant
                na == call.arg_ptrs@.len(),
                nd == call.dest_ptrs@.len(),
                combined@ == call.arg_ptrs@.take(na as int) + call.dest_ptrs@.take(d as int),
        {
            combined.push(call.dest_ptrs[d]);
            proof {
                assert(combined@ =~= call.arg_ptrs@.take(na as int) + call.dest_ptrs@.take(d + 1));
            }
        }
        proof {
            assert(call.arg_ptrs@.take(na as int) =~= call.arg_ptrs@);
            assert(call.dest_ptrs@.take(nd as int) =~= call.dest_ptrs@);
            assert(combined@ =~= call.arg_ptrs@ + call.dest_ptrs@);
        }
        let combined_mut = mut_types(&combined);
        let same_here = any_same_type_ptrs(&combined_mut);
        proof {
            assert(immut_here == spec_has_immut_arg(calls@[i as int]));
            assert(same_here == spec_call_same_type(calls@[i as int]));
        }
        if immut_here {
            has_immut_ptr_in_call = true;
        }
        if same_here {
            has_same_type_ptrs_in_call = true;
        }
        proof {
            if has_immut_ptr_in_call && !immut_here {
                let w = choose|x: int| 0 <= x < i && spec_has_immut_arg(#[trigger] calls@[x]);
                assert(0 <= w < i + 1 && spec_has_immut_arg(calls@[w]));
            }
            if has_same_type_ptrs_in_call && !same_here {
                let w = choose|x: int| 0 <= x < i && spec_call_same_type(#[trigger] calls@[x]);
                assert(0 <= w < i + 1 && spec_call_same_type(calls@[w]));
            }
        }
    }
    PtrStats { has_immut_ptr_in_call, has_same_type_ptrs_in_call, has_same_type_ptrs_in_input }
}

} // verus!
