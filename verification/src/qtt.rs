//! Resource checking of terms: how often a variable is used, whether a
//! usage count agrees with a multiplicity, and the structural check that
//! constant buffer accesses stay in bounds.
use vstd::prelude::*;
use crate::multiplicity::Multiplicity;
use crate::term::{
    SpecBranch, SpecTerm, Term, branches_view, lemma_branches_view_len, lemma_branches_view_step,
    lemma_branches_view_take, lemma_terms_view_len, lemma_terms_view_step, lemma_terms_view_take,
    names_view, term_view, terms_view,
};
use crate::text::{contains_name, str_eq};
use crate::substitution::{branch_free_vars, branches_free_vars, free_vars, lemma_contains_add, lemma_without_all_contains, terms_free_vars, without_all};

verus! {

/// Whether `count` uses are allowed by multiplicity `q`.
pub open spec fn usage_allowed(q: Multiplicity, count: int) -> bool {
    match q {
        Multiplicity::Zero => count == 0,
        Multiplicity::One => count == 1,
        Multiplicity::Many => true,
    }
}

/// The larger of two counts.
pub open spec fn max_nat(a: nat, b: nat) -> nat {
    if a >= b { a } else { b }
}

/// How many times `name` is used in `t`. Uses in the two branches of a
/// conditional, and in the branches of a case, are alternatives: the larger
/// count is taken. A binder of the same name shadows it.
pub open spec fn usage(name: Seq<char>, t: SpecTerm) -> nat
    decreases t,
{
    match t {
        SpecTerm::Var(v) => if v == name { 1 } else { 0 },
        SpecTerm::Add(l, r) => usage(name, *l) + usage(name, *r),
        SpecTerm::Sub(l, r) => usage(name, *l) + usage(name, *r),
        SpecTerm::Mul(l, r) => usage(name, *l) + usage(name, *r),
        SpecTerm::Div(l, r) => usage(name, *l) + usage(name, *r),
        SpecTerm::Append(l, r) => usage(name, *l) + usage(name, *r),
        SpecTerm::Eq(l, r) => usage(name, *l) + usage(name, *r),
        SpecTerm::Lt(l, r) => usage(name, *l) + usage(name, *r),
        SpecTerm::Gt(l, r) => usage(name, *l) + usage(name, *r),
        SpecTerm::App(l, r) => usage(name, *l) + usage(name, *r),
        SpecTerm::BitXor(l, r) => usage(name, *l) + usage(name, *r),
        SpecTerm::BitAnd(l, r) => usage(name, *l) + usage(name, *r),
        SpecTerm::BitOr(l, r) => usage(name, *l) + usage(name, *r),
        SpecTerm::Shl(l, r) => usage(name, *l) + usage(name, *r),
        SpecTerm::Shr(l, r) => usage(name, *l) + usage(name, *r),
        SpecTerm::BufferLoad(l, r) => usage(name, *l) + usage(name, *r),
        SpecTerm::BitNot(b) => usage(name, *b),
        SpecTerm::BufferStore(b, i, v) => usage(name, *b) + usage(name, *i) + usage(name, *v),
        SpecTerm::If(c, a, b) => usage(name, *c) + max_nat(usage(name, *a), usage(name, *b)),
        SpecTerm::Lambda(n, _, b) => if n == name { 0 } else { usage(name, *b) },
        SpecTerm::Pi(n, _, _, b) => if n == name { 0 } else { usage(name, *b) },
        SpecTerm::LetRec(n, _, b) => if n == name { 0 } else { usage(name, *b) },
        SpecTerm::Let(n, _, b) => if n == name { 0 } else { usage(name, *b) },
        SpecTerm::Case(target, bs) => usage(name, *target) + branches_usage(name, bs),
        SpecTerm::Do(ts) => terms_usage(name, ts),
        SpecTerm::Mutual(ts) => terms_usage(name, ts),
        SpecTerm::Where(b, ds) => usage(name, *b) + terms_usage(name, ds),
        SpecTerm::Bind(_, a) => usage(name, *a),
        SpecTerm::Def(n, args, b) => if n == name || args.contains(name) {
            0
        } else {
            usage(name, *b)
        },
        _ => 0,
    }
}

/// Whether a case branch binds `name`, so that uses in its body are not counted.
pub open spec fn branch_binds(name: Seq<char>, b: SpecBranch) -> bool {
    b.pattern == name || b.args.contains(name)
}

/// The use of `name` in one case branch.
pub open spec fn branch_usage(name: Seq<char>, b: SpecBranch) -> nat
    decreases b,
{
    if branch_binds(name, b) { 0 } else { usage(name, b.body) }
}

/// The largest use of `name` over the branches (zero when there are none).
pub open spec fn branches_usage(name: Seq<char>, bs: Seq<SpecBranch>) -> nat
    decreases bs,
{
    if bs.len() == 0 {
        0
    } else {
        max_nat(branches_usage(name, bs.drop_last()), branch_usage(name, bs.last()))
    }
}

/// The total use of `name` over a sequence of terms.
pub open spec fn terms_usage(name: Seq<char>, ts: Seq<SpecTerm>) -> nat
    decreases ts,
{
    if ts.len() == 0 {
        0
    } else {
        terms_usage(name, ts.drop_last()) + usage(name, ts.last())
    }
}

/// Whether a constant buffer access stays inside the buffer: a load or store
/// whose buffer is a literal `Buffer(size)` and whose index is a literal
/// integer must have `0 <= index < size`; other accesses are not judged.
pub open spec fn access_in_bounds(buffer: SpecTerm, index: SpecTerm) -> bool {
    match (buffer, index) {
        (SpecTerm::Buffer(size), SpecTerm::Integer(idx)) => !(idx < 0 || idx >= size as i64),
        _ => true,
    }
}

/// The structural resource check of a term: every constant buffer access in
/// it stays in bounds. The binder types of lambdas, pi types and recursive
/// lets are not inspected.
pub open spec fn term_ok(t: SpecTerm) -> bool
    decreases t,
{
    match t {
        SpecTerm::Add(l, r) => term_ok(*l) && term_ok(*r),
        SpecTerm::Sub(l, r) => term_ok(*l) && term_ok(*r),
        SpecTerm::Mul(l, r) => term_ok(*l) && term_ok(*r),
        SpecTerm::Div(l, r) => term_ok(*l) && term_ok(*r),
        SpecTerm::Append(l, r) => term_ok(*l) && term_ok(*r),
        SpecTerm::Eq(l, r) => term_ok(*l) && term_ok(*r),
        SpecTerm::Lt(l, r) => term_ok(*l) && term_ok(*r),
        SpecTerm::Gt(l, r) => term_ok(*l) && term_ok(*r),
        SpecTerm::App(l, r) => term_ok(*l) && term_ok(*r),
        SpecTerm::BitXor(l, r) => term_ok(*l) && term_ok(*r),
        SpecTerm::BitAnd(l, r) => term_ok(*l) && term_ok(*r),
        SpecTerm::BitOr(l, r) => term_ok(*l) && term_ok(*r),
        SpecTerm::Shl(l, r) => term_ok(*l) && term_ok(*r),
        SpecTerm::Shr(l, r) => term_ok(*l) && term_ok(*r),
        SpecTerm::BitNot(b) => term_ok(*b),
        SpecTerm::BufferLoad(b, i) => term_ok(*b) && term_ok(*i) && access_in_bounds(*b, *i),
        SpecTerm::BufferStore(b, i, v) => term_ok(*b) && term_ok(*i) && term_ok(*v)
            && access_in_bounds(*b, *i),
        SpecTerm::If(c, a, b) => term_ok(*c) && term_ok(*a) && term_ok(*b),
        SpecTerm::Lambda(_, _, b) => term_ok(*b),
        SpecTerm::Pi(_, _, _, b) => term_ok(*b),
        SpecTerm::LetRec(_, _, b) => term_ok(*b),
        SpecTerm::Let(_, v, b) => term_ok(*v) && term_ok(*b),
        SpecTerm::Case(target, bs) => term_ok(*target) && branches_ok(bs),
        SpecTerm::Do(ts) => terms_ok(ts),
        SpecTerm::Mutual(ts) => terms_ok(ts),
        SpecTerm::Where(b, ds) => term_ok(*b) && terms_ok(ds),
        SpecTerm::Bind(_, a) => term_ok(*a),
        SpecTerm::Def(_, _, b) => term_ok(*b),
        _ => true,
    }
}

/// Every branch body passes the structural check.
pub open spec fn branches_ok(bs: Seq<SpecBranch>) -> bool
    decreases bs,
{
    if bs.len() == 0 {
        true
    } else {
        branches_ok(bs.drop_last()) && term_ok(bs.last().body)
    }
}

/// Every term of the sequence passes the structural check.
pub open spec fn terms_ok(ts: Seq<SpecTerm>) -> bool
    decreases ts,
{
    if ts.len() == 0 {
        true
    } else {
        terms_ok(ts.drop_last()) && term_ok(ts.last())
    }
}



proof fn lemma_push_facts(name: Seq<char>, ts: Seq<SpecTerm>, t: SpecTerm, bs: Seq<SpecBranch>, b: SpecBranch)
    ensures
        terms_ok(ts.push(t)) == (terms_ok(ts) && term_ok(t)),
        terms_usage(name, ts.push(t)) == terms_usage(name, ts) + usage(name, t),
        branches_ok(bs.push(b)) == (branches_ok(bs) && term_ok(b.body)),
        branches_usage(name, bs.push(b)) == max_nat(branches_usage(name, bs), branch_usage(name, b)),
{
    assert(ts.push(t).drop_last() =~= ts);
    assert(bs.push(b).drop_last() =~= bs);
}

proof fn lemma_branches_ok_prefix(bs: Seq<SpecBranch>, i: int)
    requires
        0 <= i <= bs.len(),
        branches_ok(bs),
    ensures
        branches_ok(bs.take(i)),
    decreases bs.len(),
{
    if i == bs.len() {
        assert(bs.take(i) =~= bs);
    } else {
        lemma_branches_ok_prefix(bs.drop_last(), i);
        assert(bs.drop_last().take(i) =~= bs.take(i));
    }
}

proof fn lemma_terms_ok_prefix(ts: Seq<SpecTerm>, i: int)
    requires
        0 <= i <= ts.len(),
        terms_ok(ts),
    ensures
        terms_ok(ts.take(i)),
    decreases ts.len(),
{
    if i == ts.len() {
        assert(ts.take(i) =~= ts);
    } else {
        lemma_terms_ok_prefix(ts.drop_last(), i);
        assert(ts.drop_last().take(i) =~= ts.take(i));
    }
}

proof fn lemma_terms_usage_prefix(name: Seq<char>, ts: Seq<SpecTerm>, i: int)
    requires
        0 <= i <= ts.len(),
    ensures
        terms_usage(name, ts.take(i)) <= terms_usage(name, ts),
    decreases ts.len(),
{
    if i == ts.len() {
        assert(ts.take(i) =~= ts);
    } else {
        lemma_terms_usage_prefix(name, ts.drop_last(), i);
        assert(ts.drop_last().take(i) =~= ts.take(i));
    }
}

proof fn lemma_branches_usage_prefix(name: Seq<char>, bs: Seq<SpecBranch>, i: int)
    requires
        0 <= i <= bs.len(),
    ensures
        branches_usage(name, bs.take(i)) <= branches_usage(name, bs),
    decreases bs.len(),
{
    if i == bs.len() {
        assert(bs.take(i) =~= bs);
    } else {
        lemma_branches_usage_prefix(name, bs.drop_last(), i);
        assert(bs.drop_last().take(i) =~= bs.take(i));
    }
}

/// Any number of uses is allowed under the unrestricted multiplicity.
pub proof fn law_many_allows_any_use(name: Seq<char>, body: SpecTerm)
    ensures
        usage_allowed(Multiplicity::Many, usage(name, body) as int),
{
}

/// The uses of a name in the operands of an operation add up, so `x + x`
/// uses `x` twice and a linear `x` is refused there.
pub proof fn law_operands_add_up(name: Seq<char>, l: SpecTerm, r: SpecTerm)
    ensures
        usage(name, SpecTerm::Add(Box::new(l), Box::new(r))) == usage(name, l) + usage(name, r),
        usage(name, l) == 1 && usage(name, r) == 1 ==> !usage_allowed(
            Multiplicity::One,
            usage(name, SpecTerm::Add(Box::new(l), Box::new(r))) as int,
        ),
{
}

/// The uses of a name in the function and in the argument of an
/// application add up, as they do in the operands of every operator that
/// is not a choice: so `f x x` uses `x` twice, and a name that both sides
/// of an application use is refused when it is linear.
pub proof fn law_application_uses_add_up(name: Seq<char>, l: SpecTerm, r: SpecTerm)
    ensures
        usage(name, SpecTerm::App(Box::new(l), Box::new(r))) == usage(name, l) + usage(name, r),
        usage(name, SpecTerm::Sub(Box::new(l), Box::new(r))) == usage(name, l) + usage(name, r),
        usage(name, SpecTerm::Mul(Box::new(l), Box::new(r))) == usage(name, l) + usage(name, r),
        usage(name, SpecTerm::Div(Box::new(l), Box::new(r))) == usage(name, l) + usage(name, r),
        usage(name, SpecTerm::Eq(Box::new(l), Box::new(r))) == usage(name, l) + usage(name, r),
        usage(name, SpecTerm::Lt(Box::new(l), Box::new(r))) == usage(name, l) + usage(name, r),
        usage(name, SpecTerm::Gt(Box::new(l), Box::new(r))) == usage(name, l) + usage(name, r),
        usage(name, l) >= 1 && usage(name, r) >= 1 ==> !usage_allowed(
            Multiplicity::One,
            usage(name, SpecTerm::App(Box::new(l), Box::new(r))) as int,
        ),
        usage(name, l) >= 1 && usage(name, r) >= 1 ==> usage_allowed(
            Multiplicity::Many,
            usage(name, SpecTerm::App(Box::new(l), Box::new(r))) as int,
        ),
        usage(name, SpecTerm::App(Box::new(l), Box::new(l))) == 2 * usage(name, l),
{
}

/// A name that a term uses is free in it.
#[verifier::rlimit(100)]
proof fn lemma_used_is_free(name: Seq<char>, t: SpecTerm)
    ensures
        usage(name, t) > 0 ==> free_vars(t).contains(name),
    decreases t, 0int,
{
    match t {
        SpecTerm::Var(v) => {
            if v == name {
                assert(free_vars(t)[0] == name);
            }
        },
        SpecTerm::Add(a, b) => {
            lemma_used_is_free(name, *a);
            lemma_used_is_free(name, *b);
            lemma_contains_add(free_vars(*a), free_vars(*b), name);
        },
        SpecTerm::Sub(a, b) => {
            lemma_used_is_free(name, *a);
            lemma_used_is_free(name, *b);
            lemma_contains_add(free_vars(*a), free_vars(*b), name);
        },
        SpecTerm::Mul(a, b) => {
            lemma_used_is_free(name, *a);
            lemma_used_is_free(name, *b);
            lemma_contains_add(free_vars(*a), free_vars(*b), name);
        },
        SpecTerm::Div(a, b) => {
            lemma_used_is_free(name, *a);
            lemma_used_is_free(name, *b);
            lemma_contains_add(free_vars(*a), free_vars(*b), name);
        },
        SpecTerm::Append(a, b) => {
            lemma_used_is_free(name, *a);
            lemma_used_is_free(name, *b);
            lemma_contains_add(free_vars(*a), free_vars(*b), name);
        },
        SpecTerm::Eq(a, b) => {
            lemma_used_is_free(name, *a);
            lemma_used_is_free(name, *b);
            lemma_contains_add(free_vars(*a), free_vars(*b), name);
        },
        SpecTerm::Lt(a, b) => {
            lemma_used_is_free(name, *a);
            lemma_used_is_free(name, *b);
            lemma_contains_add(free_vars(*a), free_vars(*b), name);
        },
        SpecTerm::Gt(a, b) => {
            lemma_used_is_free(name, *a);
            lemma_used_is_free(name, *b);
            lemma_contains_add(free_vars(*a), free_vars(*b), name);
        },
        SpecTerm::App(a, b) => {
            lemma_used_is_free(name, *a);
            lemma_used_is_free(name, *b);
            lemma_contains_add(free_vars(*a), free_vars(*b), name);
        },
        SpecTerm::BitXor(a, b) => {
            lemma_used_is_free(name, *a);
            lemma_used_is_free(name, *b);
            lemma_contains_add(free_vars(*a), free_vars(*b), name);
        },
        SpecTerm::BitAnd(a, b) => {
            lemma_used_is_free(name, *a);
            lemma_used_is_free(name, *b);
            lemma_contains_add(free_vars(*a), free_vars(*b), name);
        },
        SpecTerm::BitOr(a, b) => {
            lemma_used_is_free(name, *a);
            lemma_used_is_free(name, *b);
            lemma_contains_add(free_vars(*a), free_vars(*b), name);
        },
        SpecTerm::Shl(a, b) => {
            lemma_used_is_free(name, *a);
            lemma_used_is_free(name, *b);
            lemma_contains_add(free_vars(*a), free_vars(*b), name);
        },
        SpecTerm::Shr(a, b) => {
            lemma_used_is_free(name, *a);
            lemma_used_is_free(name, *b);
            lemma_contains_add(free_vars(*a), free_vars(*b), name);
        },
        SpecTerm::BufferLoad(a, b) => {
            lemma_used_is_free(name, *a);
            lemma_used_is_free(name, *b);
            lemma_contains_add(free_vars(*a), free_vars(*b), name);
        },
        SpecTerm::BitNot(a) => {
            lemma_used_is_free(name, *a);
        },
        SpecTerm::Bind(_, a) => {
            lemma_used_is_free(name, *a);
        },
        SpecTerm::Def(_, _, b) => {
            lemma_used_is_free(name, *b);
        },
        SpecTerm::BufferStore(a, b, c) => {
            lemma_used_is_free(name, *a);
            lemma_used_is_free(name, *b);
            lemma_used_is_free(name, *c);
            lemma_contains_add(free_vars(*a), free_vars(*b), name);
            lemma_contains_add(free_vars(*a) + free_vars(*b), free_vars(*c), name);
        },
        SpecTerm::If(a, b, c) => {
            lemma_used_is_free(name, *a);
            lemma_used_is_free(name, *b);
            lemma_used_is_free(name, *c);
            lemma_contains_add(free_vars(*a), free_vars(*b), name);
            lemma_contains_add(free_vars(*a) + free_vars(*b), free_vars(*c), name);
        },
        SpecTerm::Lambda(n, ty, b) => {
            lemma_used_is_free(name, *b);
            lemma_without_all_contains(free_vars(*b), seq![n], name);
            lemma_contains_add(free_vars(*ty), without_all(free_vars(*b), seq![n]), name);
        },
        SpecTerm::Pi(n, _, ty, b) => {
            lemma_used_is_free(name, *b);
            lemma_without_all_contains(free_vars(*b), seq![n], name);
            lemma_contains_add(free_vars(*ty), without_all(free_vars(*b), seq![n]), name);
        },
        SpecTerm::Let(n, v, b) => {
            lemma_used_is_free(name, *b);
            lemma_without_all_contains(free_vars(*b), seq![n], name);
            lemma_contains_add(free_vars(*v), without_all(free_vars(*b), seq![n]), name);
        },
        SpecTerm::LetRec(n, v, b) => {
            lemma_used_is_free(name, *b);
            lemma_without_all_contains(free_vars(*b), seq![n], name);
            lemma_contains_add(free_vars(*v), without_all(free_vars(*b), seq![n]), name);
        },
        SpecTerm::Case(target, bs) => {
            lemma_used_is_free(name, *target);
            lemma_branches_used_is_free(name, bs);
            lemma_contains_add(free_vars(*target), branches_free_vars(bs), name);
        },
        SpecTerm::Do(ts) => {
            lemma_terms_used_is_free(name, ts);
        },
        SpecTerm::Mutual(ts) => {
            lemma_terms_used_is_free(name, ts);
        },
        SpecTerm::Where(b, ds) => {
            lemma_used_is_free(name, *b);
            lemma_terms_used_is_free(name, ds);
            lemma_contains_add(free_vars(*b), terms_free_vars(ds), name);
        },
        _ => {},
    }
}

proof fn lemma_terms_used_is_free(name: Seq<char>, ts: Seq<SpecTerm>)
    ensures
        terms_usage(name, ts) > 0 ==> terms_free_vars(ts).contains(name),
    decreases ts, 1int,
{
    if ts.len() > 0 {
        lemma_terms_used_is_free(name, ts.drop_last());
        lemma_used_is_free(name, ts.last());
        lemma_contains_add(terms_free_vars(ts.drop_last()), free_vars(ts.last()), name);
    }
}

proof fn lemma_branches_used_is_free(name: Seq<char>, bs: Seq<SpecBranch>)
    ensures
        branches_usage(name, bs) > 0 ==> branches_free_vars(bs).contains(name),
    decreases bs, 1int,
{
    if bs.len() > 0 {
        let b = bs.last();
        lemma_branches_used_is_free(name, bs.drop_last());
        lemma_used_is_free(name, b.body);
        lemma_without_all_contains(free_vars(b.body), seq![b.pattern] + b.args, name);
        lemma_contains_add(seq![b.pattern], b.args, name);
        if seq![b.pattern].contains(name) {
            let k = choose|k: int| 0 <= k < seq![b.pattern].len() && seq![b.pattern][k] == name;
        }
        assert(branch_free_vars(b) == without_all(free_vars(b.body), seq![b.pattern] + b.args));
        assert(branch_usage(name, b) == if branch_binds(name, b) { 0 } else { usage(name, b.body) });
        lemma_contains_add(branches_free_vars(bs.drop_last()), branch_free_vars(b), name);
    }
}

/// Usage counts uses of the name itself: a variable is one use of its own
/// name and none of any other, and a name that a term uses is free in it,
/// so a binder of the name hides every use below it.
pub proof fn law_usage_counts_free_uses(name: Seq<char>, other: Seq<char>, t: SpecTerm)
    ensures
        usage(name, SpecTerm::Var(name)) == 1,
        other != name ==> usage(name, SpecTerm::Var(other)) == 0,
        usage(name, t) > 0 ==> free_vars(t).contains(name),
{
    lemma_used_is_free(name, t);
}

/// The two branches of a conditional are alternatives: a name that the
/// condition does not use and that each branch uses once is used once, so a
/// linear variable may appear in both branches.
pub proof fn law_linear_in_both_branches(name: Seq<char>, c: SpecTerm, a: SpecTerm, b: SpecTerm)
    requires
        usage(name, c) == 0,
        usage(name, a) == 1,
        usage(name, b) == 1,
    ensures
        usage(name, SpecTerm::If(Box::new(c), Box::new(a), Box::new(b))) == 1,
        usage_allowed(Multiplicity::One, usage(name, SpecTerm::If(Box::new(c), Box::new(a), Box::new(b))) as int),
{
}

/// A binder of the same name shadows: nothing under a lambda, a let or a
/// recursive let that binds `name` is a use of `name`.
pub proof fn law_binder_shadows(name: Seq<char>, ty: SpecTerm, body: SpecTerm)
    ensures
        usage(name, SpecTerm::Lambda(name, Box::new(ty), Box::new(body))) == 0,
        usage(name, SpecTerm::Let(name, Box::new(ty), Box::new(body))) == 0,
        usage(name, SpecTerm::LetRec(name, Box::new(ty), Box::new(body))) == 0,
{
}

/// A constant access into a literal buffer passes the check exactly when
/// the index lies within the buffer.
pub proof fn law_constant_access_in_bounds(size: usize, index: i64)
    ensures
        term_ok(SpecTerm::BufferLoad(Box::new(SpecTerm::Buffer(size)), Box::new(SpecTerm::Integer(index))))
            <==> (0 <= index && index < size as i64),
{
    reveal_with_fuel(term_ok, 2);
}

/// A count, or the largest `i64` when it is larger.
pub open spec fn capped(n: nat) -> int {
    if n <= i64::MAX { n as int } else { i64::MAX as int }
}

/// The sum of two counts, or the largest `i64` when it is larger.
fn sat_add(a: i64, b: i64) -> (r: i64)
    requires
        a >= 0,
        b >= 0,
    ensures
        r == (if a + b <= i64::MAX { a + b } else { i64::MAX as int }),
{
    if a > i64::MAX - b { i64::MAX } else { a + b }
}

/// Checks terms against resource constraints.
pub struct QttChecker {}

impl QttChecker {
    /// Creates a checker.
    pub fn new() -> (r: Self) {
        QttChecker {}
    }

    /// Checks the term structurally: every constant buffer access in it stays
    /// in bounds.
    #[verifier::loop_isolation(false)]
    pub fn check_term(&self, term: &Term) -> (r: bool)
        ensures
            r == term_ok(term@),
        decreases term, 2int,
    {
        match term {
            Term::Add(l, r) => self.check_term(l) && self.check_term(r),
            Term::Sub(l, r) => self.check_term(l) && self.check_term(r),
            Term::Mul(l, r) => self.check_term(l) && self.check_term(r),
            Term::Div(l, r) => self.check_term(l) && self.check_term(r),
            Term::Append(l, r) => self.check_term(l) && self.check_term(r),
            Term::Eq(l, r) => self.check_term(l) && self.check_term(r),
            Term::Lt(l, r) => self.check_term(l) && self.check_term(r),
            Term::Gt(l, r) => self.check_term(l) && self.check_term(r),
            Term::App(l, r) => self.check_term(l) && self.check_term(r),
            Term::BitXor(l, r) => self.check_term(l) && self.check_term(r),
            Term::BitAnd(l, r) => self.check_term(l) && self.check_term(r),
            Term::BitOr(l, r) => self.check_term(l) && self.check_term(r),
            Term::Shl(l, r) => self.check_term(l) && self.check_term(r),
            Term::Shr(l, r) => self.check_term(l) && self.check_term(r),
            Term::BitNot(b) => self.check_term(b),
            Term::BufferLoad(buffer, index) => {
                if !self.check_term(buffer) || !self.check_term(index) {
                    return false;
                }
                self.check_buffer_bounds(buffer, index)
            },
            Term::BufferStore(buffer, index, value) => {
                if !self.check_term(buffer) || !self.check_term(index) || !self.check_term(value) {
                    return false;
                }
                self.check_buffer_bounds(buffer, index)
            },
            Term::If(c, t, e) => self.check_term(c) && self.check_term(t) && self.check_term(e),
            Term::Lambda(_, _, b) => self.check_term(b),
            Term::Pi(_, _, _, b) => self.check_term(b),
            Term::LetRec(_, _, b) => self.check_term(b),
            Term::Let(_, v, b) => self.check_term(v) && self.check_term(b),
            Term::Case(target, branches) => {
                if !self.check_term(target) {
                    return false;
                }
                let mut i: usize = 0;
                while i < branches.len()
                    invariant
                        i <= branches.len(),
                        branches_ok(branches_view(branches@.take(i as int))),
                    decreases branches.len() - i,
                {
                    proof {
                        assert(decreases_to!(term => *branches));
                        assert(decreases_to!(*branches => branches@));
                        assert(decreases_to!(branches@ => branches@[i as int]));
                        assert(decreases_to!(branches@[i as int] => branches@[i as int].2));
                    }
                    let ok = self.check_term(&branches[i].2);
                    proof {
                        let bs = branches@;
                        lemma_branches_view_step(bs, i as int);
                        lemma_push_facts(Seq::empty(), Seq::empty(), SpecTerm::IntegerType,
                            branches_view(bs.take(i as int)),
                            SpecBranch { pattern: bs[i as int].0@, args: names_view(bs[i as int].1@), body: term_view(*bs[i as int].2) });
                        lemma_branches_view_len(bs);
                        lemma_branches_view_take(bs, i + 1);
                        if branches_ok(branches_view(bs)) {
                            lemma_branches_ok_prefix(branches_view(bs), i + 1);
                        }
                    }
                    if !ok {
                        return false;
                    }
                    i += 1;
                }
                proof {
                    assert(branches@.take(branches@.len() as int) =~= branches@);
                }
                true
            },
            Term::Do(ts) => self.check_terms(ts),
            Term::Mutual(ts) => self.check_terms(ts),
            Term::Where(b, ds) => self.check_term(b) && self.check_terms(ds),
            Term::Bind(_, a) => self.check_term(a),
            Term::Def(_, _, b) => self.check_term(b),
            _ => true,
        }
    }

    /// Checks every term of the list.
    fn check_terms(&self, ts: &Vec<Term>) -> (r: bool)
        ensures
            r == terms_ok(terms_view(ts@)),
        decreases ts, 2int,
    {
        let mut i: usize = 0;
        while i < ts.len()
            invariant
                i <= ts.len(),
                terms_ok(terms_view(ts@.take(i as int))),
            decreases ts.len() - i,
        {
            proof {
                assert(decreases_to!(ts => ts@[i as int]));
            }
            let ok = self.check_term(&ts[i]);
            proof {
                lemma_terms_view_step(ts@, i as int);
                lemma_push_facts(Seq::empty(), terms_view(ts@.take(i as int)), term_view(ts@[i as int]),
                    Seq::empty(), SpecBranch { pattern: Seq::empty(), args: Seq::empty(), body: SpecTerm::IntegerType });
                lemma_terms_view_len(ts@);
                lemma_terms_view_take(ts@, i + 1);
                if terms_ok(terms_view(ts@)) {
                    lemma_terms_ok_prefix(terms_view(ts@), i + 1);
                }
            }
            if !ok {
                return false;
            }
            i += 1;
        }
        proof {
            assert(ts@.take(ts@.len() as int) =~= ts@);
        }
        true
    }

    /// Whether a constant access into a literal buffer stays in bounds.
    fn check_buffer_bounds(&self, buffer: &Term, index: &Term) -> (r: bool)
        ensures
            r == access_in_bounds(buffer@, index@),
    {
        match (buffer, index) {
            (Term::Buffer(size), Term::Integer(idx)) => {
                if *idx < 0 || *idx >= (*size as i64) {
                    return false;
                }
            },
            _ => (),
        }
        true
    }

    /// Whether `name` is used in `body` as often as `quantity` allows.
    pub fn check_multiplicity(&self, name: &str, quantity: Multiplicity, body: &Term) -> (r: bool)
        ensures
            r == usage_allowed(quantity, usage(name@, body@) as int),
    {
        let count = self.count_usage(name, body);
        match quantity {
            Multiplicity::Zero => count == 0,
            Multiplicity::One => count == 1,
            Multiplicity::Many => true,
        }
    }

    /// The uses of `name` in the two terms together.
    fn count_binary(&self, name: &str, l: &Term, r: &Term, Ghost(parent): Ghost<&Term>) -> (c: i64)
        requires
            decreases_to!(parent => *l),
            decreases_to!(parent => *r),
        ensures
            c == capped(usage(name@, l@) + usage(name@, r@)),
        decreases parent, 1int,
    {
        sat_add(self.count_usage(name, l), self.count_usage(name, r))
    }

    /// How many times `name` is used in `term`, up to the largest `i64`.
    #[verifier::loop_isolation(false)]
    fn count_usage(&self, name: &str, term: &Term) -> (c: i64)
        ensures
            c == capped(usage(name@, term@)),
        decreases term, 2int,
    {
        match term {
            Term::Var(v) => if str_eq(v.as_str(), name) { 1 } else { 0 },
            Term::Add(l, r) => self.count_binary(name, l, r, Ghost(term)),
            Term::Sub(l, r) => self.count_binary(name, l, r, Ghost(term)),
            Term::Mul(l, r) => self.count_binary(name, l, r, Ghost(term)),
            Term::Div(l, r) => self.count_binary(name, l, r, Ghost(term)),
            Term::Append(l, r) => self.count_binary(name, l, r, Ghost(term)),
            Term::Eq(l, r) => self.count_binary(name, l, r, Ghost(term)),
            Term::Lt(l, r) => self.count_binary(name, l, r, Ghost(term)),
            Term::Gt(l, r) => self.count_binary(name, l, r, Ghost(term)),
            Term::App(l, r) => self.count_binary(name, l, r, Ghost(term)),
            Term::BitXor(l, r) => self.count_binary(name, l, r, Ghost(term)),
            Term::BitAnd(l, r) => self.count_binary(name, l, r, Ghost(term)),
            Term::BitOr(l, r) => self.count_binary(name, l, r, Ghost(term)),
            Term::Shl(l, r) => self.count_binary(name, l, r, Ghost(term)),
            Term::Shr(l, r) => self.count_binary(name, l, r, Ghost(term)),
            Term::BufferLoad(l, r) => self.count_binary(name, l, r, Ghost(term)),
            Term::BitNot(b) => self.count_usage(name, b),
            Term::BufferStore(b, i, v) => {
                let bu = self.count_usage(name, b);
                let iu = self.count_usage(name, i);
                let vu = self.count_usage(name, v);
                sat_add(sat_add(bu, iu), vu)
            },
            Term::If(c, t, e) => {
                let cu = self.count_usage(name, c);
                let tu = self.count_usage(name, t);
                let eu = self.count_usage(name, e);
                sat_add(cu, if tu >= eu { tu } else { eu })
            },
            Term::Lambda(n, _, b) => if str_eq(n.as_str(), name) { 0 } else { self.count_usage(name, b) },
            Term::Pi(n, _, _, b) => if str_eq(n.as_str(), name) { 0 } else { self.count_usage(name, b) },
            Term::LetRec(n, _, b) => if str_eq(n.as_str(), name) { 0 } else { self.count_usage(name, b) },
            Term::Let(n, _, b) => if str_eq(n.as_str(), name) { 0 } else { self.count_usage(name, b) },
            Term::Case(target, branches) => {
                let target_usage = self.count_usage(name, target);
                let max_branch_usage = self.count_branches(name, branches, Ghost(term));
                sat_add(target_usage, max_branch_usage)
            },
            Term::Do(ts) => self.count_terms(name, ts),
            Term::Mutual(ts) => self.count_terms(name, ts),
            Term::Where(b, ds) => {
                let bu = self.count_usage(name, b);
                let du = self.count_terms(name, ds);
                sat_add(bu, du)
            },
            Term::Bind(_, a) => self.count_usage(name, a),
            Term::Def(n, args, b) => {
                if str_eq(n.as_str(), name) || contains_name(args, name) {
                    0
                } else {
                    self.count_usage(name, b)
                }
            },
            _ => 0,
        }
    }


    /// The largest use of `name` over the branches that do not bind it.
    #[verifier::loop_isolation(false)]
    fn count_branches(
        &self,
        name: &str,
        branches: &Vec<(String, Vec<String>, Box<Term>)>,
        Ghost(parent): Ghost<&Term>,
    ) -> (c: i64)
        requires
            decreases_to!(parent => *branches),
        ensures
            c == capped(branches_usage(name@, branches_view(branches@))),
        decreases parent, 1int,
    {
        let mut max_branch_usage: i64 = 0;
        let mut i: usize = 0;
        proof {
            lemma_branches_view_len(branches@);
            assert(branches@.take(branches@.len() as int) =~= branches@);
            assert(branches@.take(0) =~= Seq::<(String, Vec<String>, Box<Term>)>::empty());
        }
        while i < branches.len()
            invariant
                i <= branches.len(),
                max_branch_usage == capped(branches_usage(name@, branches_view(branches@.take(i as int)))),
            decreases branches.len() - i,
        {
            let (pat_name, pat_args, body) = (&branches[i].0, &branches[i].1, &branches[i].2);
            let ghost bs = branches@;
            let ghost sb = SpecBranch {
                pattern: bs[i as int].0@,
                args: names_view(bs[i as int].1@),
                body: term_view(*bs[i as int].2),
            };
            proof {
                lemma_branches_view_step(bs, i as int);
                lemma_branches_view_take(bs, i + 1);
                lemma_branches_usage_prefix(name@, branches_view(bs), i + 1);
                lemma_push_facts(name@, Seq::empty(), SpecTerm::IntegerType,
                    branches_view(bs.take(i as int)), sb);
            }
            if !str_eq(pat_name.as_str(), name) && !contains_name(pat_args, name) {
                proof {
                    assert(decreases_to!(parent => *branches));
                    assert(decreases_to!(*branches => branches@));
                    assert(decreases_to!(branches@ => branches@[i as int]));
                    assert(decreases_to!(branches@[i as int] => branches@[i as int].2));
                }
                let u = self.count_usage(name, body);
                if u > max_branch_usage {
                    max_branch_usage = u;
                }
            }
            i += 1;
        }
        max_branch_usage
    }

    /// The uses of `name` over a list of terms.
    fn count_terms(&self, name: &str, ts: &Vec<Term>) -> (c: i64)
        ensures
            c == capped(terms_usage(name@, terms_view(ts@))),
        decreases ts, 2int,
    {
        let mut total: i64 = 0;
        let mut i: usize = 0;
        while i < ts.len()
            invariant
                i <= ts.len(),
                total == capped(terms_usage(name@, terms_view(ts@.take(i as int)))),
            decreases ts.len() - i,
        {
            proof {
                assert(decreases_to!(ts => ts@[i as int]));
                lemma_terms_view_step(ts@, i as int);
                lemma_push_facts(name@, terms_view(ts@.take(i as int)), term_view(ts@[i as int]),
                    Seq::empty(), SpecBranch { pattern: Seq::empty(), args: Seq::empty(), body: SpecTerm::IntegerType });
                lemma_terms_view_len(ts@);
                lemma_terms_view_take(ts@, i + 1);
                lemma_terms_usage_prefix(name@, terms_view(ts@), i + 1);
            }
            let u = self.count_usage(name, &ts[i]);
            total = sat_add(total, u);
            i += 1;
        }
        proof {
            assert(ts@.take(ts@.len() as int) =~= ts@);
        }
        total
    }

    /// Whether `count` uses are allowed by `multiplicity`.
    pub fn check_usage(&self, multiplicity: Multiplicity, count: usize) -> (r: bool)
        ensures
            r == usage_allowed(multiplicity, count as int),
    {
        match multiplicity {
            Multiplicity::Zero => count == 0,
            Multiplicity::One => count == 1,
            Multiplicity::Many => true,
        }
    }

    /// Elaborates a data type definition; every definition is accepted.
    pub fn elaborate_adt(&self, _name: &str) -> (r: bool)
        ensures
            r,
    {
        true
    }

    /// Elaborates an interface definition; every definition is accepted.
    pub fn elaborate_interface(&self, _name: &str) -> (r: bool)
        ensures
            r,
    {
        true
    }
}

} // verus!
