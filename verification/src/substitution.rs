//! Capture-avoiding substitution of terms for variables.
//!
//! A substitution is a list of bindings from names to terms, applied to all
//! of them at once. Where a binder of the term would capture a free variable
//! of a term put under it, the binder is renamed to a fresh name: the name
//! followed by primes, with as few primes as make it differ from every name
//! it must avoid.
use vstd::prelude::*;
use crate::term::{
    SpecBranch, SpecTerm, Term, branches_view, copy_names, lemma_branches_view_len,
    lemma_branches_view_step, lemma_terms_view_len, lemma_terms_view_step, names_view, term_view,
    terms_view,
};
use crate::text::{contains_name, str_eq};
use crate::chars::push_char;
use vstd::string::StrSliceExecFns;

verus! {

/// Bindings from names to the terms that replace them.
pub type Bindings = Seq<(Seq<char>, SpecTerm)>;

/// The entries of `names` that do not occur in `bound`, in order.
pub open spec fn without_all(names: Seq<Seq<char>>, bound: Seq<Seq<char>>) -> Seq<Seq<char>>
    decreases names.len(),
{
    if names.len() == 0 {
        Seq::empty()
    } else {
        let rest = without_all(names.drop_last(), bound);
        if bound.contains(names.last()) { rest } else { rest.push(names.last()) }
    }
}

/// The names of the variables that occur free in `t`. A lambda, a pi type,
/// a let and a recursive let bind their name in their body; a case branch
/// binds its pattern and its pattern arguments in its body. Declarations
/// (modules, imports, data types, interfaces, implementations, records) and
/// literals have none.
pub open spec fn free_vars(t: SpecTerm) -> Seq<Seq<char>>
    decreases t,
{
    match t {
        SpecTerm::Var(v) => seq![v],
        SpecTerm::Lambda(n, ty, b) => free_vars(*ty) + without_all(free_vars(*b), seq![n]),
        SpecTerm::Pi(n, _, ty, b) => free_vars(*ty) + without_all(free_vars(*b), seq![n]),
        SpecTerm::Let(n, v, b) => free_vars(*v) + without_all(free_vars(*b), seq![n]),
        SpecTerm::LetRec(n, v, b) => free_vars(*v) + without_all(free_vars(*b), seq![n]),
        SpecTerm::App(a, b) => free_vars(*a) + free_vars(*b),
        SpecTerm::Add(a, b) => free_vars(*a) + free_vars(*b),
        SpecTerm::Sub(a, b) => free_vars(*a) + free_vars(*b),
        SpecTerm::Mul(a, b) => free_vars(*a) + free_vars(*b),
        SpecTerm::Div(a, b) => free_vars(*a) + free_vars(*b),
        SpecTerm::Append(a, b) => free_vars(*a) + free_vars(*b),
        SpecTerm::BitXor(a, b) => free_vars(*a) + free_vars(*b),
        SpecTerm::BitAnd(a, b) => free_vars(*a) + free_vars(*b),
        SpecTerm::BitOr(a, b) => free_vars(*a) + free_vars(*b),
        SpecTerm::Shl(a, b) => free_vars(*a) + free_vars(*b),
        SpecTerm::Shr(a, b) => free_vars(*a) + free_vars(*b),
        SpecTerm::Eq(a, b) => free_vars(*a) + free_vars(*b),
        SpecTerm::Lt(a, b) => free_vars(*a) + free_vars(*b),
        SpecTerm::Gt(a, b) => free_vars(*a) + free_vars(*b),
        SpecTerm::BufferLoad(a, b) => free_vars(*a) + free_vars(*b),
        SpecTerm::BitNot(a) => free_vars(*a),
        SpecTerm::If(a, b, c) => free_vars(*a) + free_vars(*b) + free_vars(*c),
        SpecTerm::BufferStore(a, b, c) => free_vars(*a) + free_vars(*b) + free_vars(*c),
        SpecTerm::Case(target, bs) => free_vars(*target) + branches_free_vars(bs),
        SpecTerm::Do(ts) => terms_free_vars(ts),
        SpecTerm::Mutual(ts) => terms_free_vars(ts),
        SpecTerm::Where(b, ds) => free_vars(*b) + terms_free_vars(ds),
        SpecTerm::Bind(_, a) => free_vars(*a),
        SpecTerm::Def(_, _, b) => free_vars(*b),
        _ => Seq::empty(),
    }
}

/// The free variables of each term of a sequence, one after another.
pub open spec fn terms_free_vars(ts: Seq<SpecTerm>) -> Seq<Seq<char>>
    decreases ts,
{
    if ts.len() == 0 {
        Seq::empty()
    } else {
        terms_free_vars(ts.drop_last()) + free_vars(ts.last())
    }
}

/// The free variables of a case branch: those of its body that its pattern
/// and its arguments do not bind.
pub open spec fn branch_free_vars(b: SpecBranch) -> Seq<Seq<char>>
    decreases b,
{
    without_all(free_vars(b.body), seq![b.pattern] + b.args)
}

/// The free variables of each branch, one after another.
pub open spec fn branches_free_vars(bs: Seq<SpecBranch>) -> Seq<Seq<char>>
    decreases bs,
{
    if bs.len() == 0 {
        Seq::empty()
    } else {
        branches_free_vars(bs.drop_last()) + branch_free_vars(bs.last())
    }
}

/// The term bound to `v`, by the last binding of that name.
pub open spec fn lookup(s: Bindings, v: Seq<char>) -> Option<SpecTerm>
    decreases s.len(),
{
    if s.len() == 0 {
        None
    } else if s.last().0 == v {
        Some(s.last().1)
    } else {
        lookup(s.drop_last(), v)
    }
}

/// The bindings whose names do not occur in `bound`, in order.
pub open spec fn drop_bound(s: Bindings, bound: Seq<Seq<char>>) -> Bindings
    decreases s.len(),
{
    if s.len() == 0 {
        Seq::empty()
    } else {
        let rest = drop_bound(s.drop_last(), bound);
        if bound.contains(s.last().0) { rest } else { rest.push(s.last()) }
    }
}

/// The free variables of the bound terms, one after another.
pub open spec fn values_free_vars(s: Bindings) -> Seq<Seq<char>>
    decreases s.len(),
{
    if s.len() == 0 {
        Seq::empty()
    } else {
        values_free_vars(s.drop_last()) + free_vars(s.last().1)
    }
}

/// Whether a binder named `n` over a body whose free variables are `body_fv`
/// would capture a variable of a term that replaces one of them: some
/// binding's name is free in the body and `n` is free in its term.
pub open spec fn captures(n: Seq<char>, s: Bindings, body_fv: Seq<Seq<char>>) -> bool
    decreases s.len(),
{
    s.len() > 0 && (captures(n, s.drop_last(), body_fv) || (body_fv.contains(s.last().0) && free_vars(
        s.last().1,
    ).contains(n)))
}

/// `k` primes.
pub open spec fn primes(k: nat) -> Seq<char> {
    Seq::new(k, |_i: int| '\'')
}

/// The length of the longest name in `names` (zero when there is none).
pub open spec fn max_len(names: Seq<Seq<char>>) -> nat
    decreases names.len(),
{
    if names.len() == 0 {
        0
    } else {
        let m = max_len(names.drop_last());
        if names.last().len() > m { names.last().len() } else { m }
    }
}

/// The first of `n` followed by `i + 1`, `i + 2`, ... primes that is not in
/// `avoid`; the search stops at `max_len(avoid) + 1` primes, a name longer
/// than any in `avoid`.
pub open spec fn fresh_from(n: Seq<char>, avoid: Seq<Seq<char>>, i: nat) -> Seq<char>
    decreases max_len(avoid) - i,
{
    let candidate = n + primes(i + 1);
    if i >= max_len(avoid) || !avoid.contains(candidate) {
        candidate
    } else {
        fresh_from(n, avoid, i + 1)
    }
}

/// No name in `names` is longer than `max_len(names)`.
proof fn lemma_max_len(names: Seq<Seq<char>>, j: int)
    requires
        0 <= j < names.len(),
    ensures
        names[j].len() <= max_len(names),
    decreases names.len(),
{
    if j < names.len() - 1 {
        lemma_max_len(names.drop_last(), j);
    }
}

/// A fresh name is not in what it avoids, and differs from the name it was
/// made from.
pub proof fn lemma_fresh(n: Seq<char>, avoid: Seq<Seq<char>>)
    ensures
        !avoid.contains(fresh(n, avoid)),
        fresh(n, avoid) != n,
{
    lemma_fresh_from(n, avoid, 0);
}

proof fn lemma_fresh_from(n: Seq<char>, avoid: Seq<Seq<char>>, i: nat)
    ensures
        !avoid.contains(fresh_from(n, avoid, i)),
        fresh_from(n, avoid, i).len() > n.len(),
    decreases max_len(avoid) - i,
{
    let candidate = n + primes(i + 1);
    if i >= max_len(avoid) {
        if avoid.contains(candidate) {
            let j = choose|j: int| 0 <= j < avoid.len() && avoid[j] == candidate;
            lemma_max_len(avoid, j);
        }
    } else if avoid.contains(candidate) {
        lemma_fresh_from(n, avoid, i + 1);
    }
}

/// A name made from `n` that is not in `avoid`.
pub open spec fn fresh(n: Seq<char>, avoid: Seq<Seq<char>>) -> Seq<char> {
    fresh_from(n, avoid, 0)
}

/// Brings the binders `args` (the last `args.len()` of `all`, all of them
/// binders of the same body) into scope over `body`: each binder that would
/// capture a variable of a bound term is renamed to a fresh name, and its
/// old name is bound to the new one. Gives the binders as they stand after
/// renaming, and the bindings to apply to the body.
pub open spec fn bind_args(args: Seq<Seq<char>>, s: Bindings, body: SpecTerm, all: Seq<Seq<char>>) -> (Seq<Seq<char>>, Bindings)
    decreases args.len(),
{
    if args.len() == 0 {
        (Seq::empty(), s)
    } else {
        let (prev, s1) = bind_args(args.drop_last(), s, body, all);
        let a = args.last();
        if captures(a, s1, free_vars(body)) {
            let a2 = fresh(a, free_vars(body) + values_free_vars(s1) + all);
            (prev.push(a2), s1.push((a, SpecTerm::Var(a2))))
        } else {
            (prev.push(a), s1)
        }
    }
}

/// Applies the bindings `s` to `t` at once, renaming binders that would
/// capture. A binder shields its body from the bindings of its own name;
/// when no binding is left the body is kept as it is. A pi type, a let and
/// a recursive let have their domain or bound term substituted with all of
/// `s`. A lambda's type and the operands of an append are kept as they are,
/// and so are declarations and literals.
pub open spec fn msubst(t: SpecTerm, s: Bindings) -> SpecTerm
    decreases t,
{
    match t {
        SpecTerm::Var(v) => match lookup(s, v) {
            Some(r) => r,
            None => t,
        },
        SpecTerm::Lambda(n, ty, b) => {
            let s0 = drop_bound(s, seq![n]);
            if s0.len() == 0 {
                t
            } else {
                let (ns, s1) = bind_args(seq![n], s0, *b, seq![n]);
                SpecTerm::Lambda(ns[0], ty, Box::new(msubst(*b, s1)))
            }
        },
        SpecTerm::Pi(n, q, ty, b) => {
            let ty2 = msubst(*ty, s);
            let s0 = drop_bound(s, seq![n]);
            if s0.len() == 0 {
                SpecTerm::Pi(n, q, Box::new(ty2), b)
            } else {
                let (ns, s1) = bind_args(seq![n], s0, *b, seq![n]);
                SpecTerm::Pi(ns[0], q, Box::new(ty2), Box::new(msubst(*b, s1)))
            }
        },
        SpecTerm::Let(n, v, b) => {
            let v2 = msubst(*v, s);
            let s0 = drop_bound(s, seq![n]);
            if s0.len() == 0 {
                SpecTerm::Let(n, Box::new(v2), b)
            } else {
                let (ns, s1) = bind_args(seq![n], s0, *b, seq![n]);
                SpecTerm::Let(ns[0], Box::new(v2), Box::new(msubst(*b, s1)))
            }
        },
        SpecTerm::LetRec(n, v, b) => {
            let v2 = msubst(*v, s);
            let s0 = drop_bound(s, seq![n]);
            if s0.len() == 0 {
                SpecTerm::LetRec(n, Box::new(v2), b)
            } else {
                let (ns, s1) = bind_args(seq![n], s0, *b, seq![n]);
                SpecTerm::LetRec(ns[0], Box::new(v2), Box::new(msubst(*b, s1)))
            }
        },
        SpecTerm::App(a, b) => SpecTerm::App(Box::new(msubst(*a, s)), Box::new(msubst(*b, s))),
        SpecTerm::Add(a, b) => SpecTerm::Add(Box::new(msubst(*a, s)), Box::new(msubst(*b, s))),
        SpecTerm::Sub(a, b) => SpecTerm::Sub(Box::new(msubst(*a, s)), Box::new(msubst(*b, s))),
        SpecTerm::Mul(a, b) => SpecTerm::Mul(Box::new(msubst(*a, s)), Box::new(msubst(*b, s))),
        SpecTerm::Div(a, b) => SpecTerm::Div(Box::new(msubst(*a, s)), Box::new(msubst(*b, s))),
        SpecTerm::BitXor(a, b) => SpecTerm::BitXor(Box::new(msubst(*a, s)), Box::new(msubst(*b, s))),
        SpecTerm::BitAnd(a, b) => SpecTerm::BitAnd(Box::new(msubst(*a, s)), Box::new(msubst(*b, s))),
        SpecTerm::BitOr(a, b) => SpecTerm::BitOr(Box::new(msubst(*a, s)), Box::new(msubst(*b, s))),
        SpecTerm::BitNot(a) => SpecTerm::BitNot(Box::new(msubst(*a, s))),
        SpecTerm::Shl(a, b) => SpecTerm::Shl(Box::new(msubst(*a, s)), Box::new(msubst(*b, s))),
        SpecTerm::Shr(a, b) => SpecTerm::Shr(Box::new(msubst(*a, s)), Box::new(msubst(*b, s))),
        SpecTerm::Eq(a, b) => SpecTerm::Eq(Box::new(msubst(*a, s)), Box::new(msubst(*b, s))),
        SpecTerm::Lt(a, b) => SpecTerm::Lt(Box::new(msubst(*a, s)), Box::new(msubst(*b, s))),
        SpecTerm::Gt(a, b) => SpecTerm::Gt(Box::new(msubst(*a, s)), Box::new(msubst(*b, s))),
        SpecTerm::If(a, b, c) => SpecTerm::If(
            Box::new(msubst(*a, s)),
            Box::new(msubst(*b, s)),
            Box::new(msubst(*c, s)),
        ),
        SpecTerm::BufferLoad(a, b) => SpecTerm::BufferLoad(Box::new(msubst(*a, s)), Box::new(msubst(*b, s))),
        SpecTerm::BufferStore(a, b, c) => SpecTerm::BufferStore(
            Box::new(msubst(*a, s)),
            Box::new(msubst(*b, s)),
            Box::new(msubst(*c, s)),
        ),
        SpecTerm::Case(target, bs) => SpecTerm::Case(Box::new(msubst(*target, s)), msubst_branches(bs, s)),
        SpecTerm::Do(ts) => SpecTerm::Do(msubst_terms(ts, s)),
        SpecTerm::Bind(n, a) => SpecTerm::Bind(n, Box::new(msubst(*a, s))),
        SpecTerm::Where(b, ds) => SpecTerm::Where(Box::new(msubst(*b, s)), msubst_terms(ds, s)),
        SpecTerm::Mutual(ts) => SpecTerm::Mutual(msubst_terms(ts, s)),
        SpecTerm::Def(n, args, b) => SpecTerm::Def(n, args, Box::new(msubst(*b, s))),
        _ => t,
    }
}

/// The bindings applied to each term of a sequence.
pub open spec fn msubst_terms(ts: Seq<SpecTerm>, s: Bindings) -> Seq<SpecTerm>
    decreases ts,
{
    if ts.len() == 0 {
        Seq::empty()
    } else {
        msubst_terms(ts.drop_last(), s).push(msubst(ts.last(), s))
    }
}

/// The bindings applied to one case branch: its pattern and arguments
/// shield the body, and arguments that would capture are renamed.
pub open spec fn msubst_branch(b: SpecBranch, s: Bindings) -> SpecBranch
    decreases b,
{
    let s0 = drop_bound(s, seq![b.pattern] + b.args);
    if s0.len() == 0 {
        b
    } else {
        let (args2, s1) = bind_args(b.args, s0, b.body, b.args);
        SpecBranch { pattern: b.pattern, args: args2, body: msubst(b.body, s1) }
    }
}

/// The bindings applied to each case branch.
pub open spec fn msubst_branches(bs: Seq<SpecBranch>, s: Bindings) -> Seq<SpecBranch>
    decreases bs,
{
    if bs.len() == 0 {
        Seq::empty()
    } else {
        msubst_branches(bs.drop_last(), s).push(msubst_branch(bs.last(), s))
    }
}

/// Substitutes `r` for the free uses of `name` in `t`, renaming binders of
/// `t` that would capture a free variable of `r`.
pub open spec fn subst(t: SpecTerm, name: Seq<char>, r: SpecTerm) -> SpecTerm {
    msubst(t, seq![(name, r)])
}

/// Substitution avoids capture: when the binder `n` of a lambda, other than
/// `name`, is free in the replacement `r` and `name` is free in the body,
/// the binder is renamed to a name that is free neither in the body nor in
/// `r`, and the body has `r` for `name` and the new name for `n`.
pub proof fn law_substitution_avoids_capture(n: Seq<char>, ty: SpecTerm, b: SpecTerm, name: Seq<char>, r: SpecTerm)
    requires
        n != name,
        free_vars(b).contains(name),
        free_vars(r).contains(n),
    ensures
        ({
            let n2 = fresh(n, free_vars(b) + free_vars(r) + seq![n]);
            &&& subst(SpecTerm::Lambda(n, Box::new(ty), Box::new(b)), name, r) == SpecTerm::Lambda(
                n2,
                Box::new(ty),
                Box::new(msubst(b, seq![(name, r), (n, SpecTerm::Var(n2))])),
            )
            &&& !free_vars(r).contains(n2)
            &&& !free_vars(b).contains(n2)
            &&& n2 != n
        }),
{
    let s: Bindings = seq![(name, r)];
    let bound: Seq<Seq<char>> = seq![n];
    assert(s.drop_last() =~= Seq::<(Seq<char>, SpecTerm)>::empty());
    assert(!bound.contains(name));
    let e = Seq::<(Seq<char>, SpecTerm)>::empty();
    assert(drop_bound(s.drop_last(), bound) == drop_bound(e, bound));
    assert(drop_bound(s, bound) == e.push(s.last()));
    assert(e.push(s.last()) =~= s);
    assert(values_free_vars(s.drop_last()) == values_free_vars(e));
    assert(values_free_vars(s) == Seq::<Seq<char>>::empty() + free_vars(r));
    assert(Seq::<Seq<char>>::empty() + free_vars(r) =~= free_vars(r));
    assert(bound.drop_last() =~= Seq::<Seq<char>>::empty());
    assert(captures(n, s, free_vars(b)));
    let avoid = free_vars(b) + free_vars(r) + seq![n];
    let n2 = fresh(n, avoid);
    assert(bind_args(bound.drop_last(), s, b, bound) == bind_args(Seq::<Seq<char>>::empty(), s, b, bound));
    assert(bound.last() == n);
    assert(free_vars(b) + values_free_vars(s) + bound == avoid);
    assert(Seq::<Seq<char>>::empty().push(n2) =~= seq![n2]);
    assert(bind_args(bound, s, b, bound) == (seq![n2], s.push((n, SpecTerm::Var(n2)))));
    assert(s.push((n, SpecTerm::Var(n2))) =~= seq![(name, r), (n, SpecTerm::Var(n2))]);
    lemma_fresh(n, avoid);
    if free_vars(r).contains(n2) {
        let j = choose|j: int| 0 <= j < free_vars(r).len() && free_vars(r)[j] == n2;
        assert(avoid[free_vars(b).len() + j] == n2);
    }
    if free_vars(b).contains(n2) {
        let j = choose|j: int| 0 <= j < free_vars(b).len() && free_vars(b)[j] == n2;
        assert(avoid[j] == n2);
    }
}

/// The free variables of `t` at the places that substitution reaches: as
/// `free_vars`, but without the operands of appends and the parameter types
/// of lambdas, which substitution keeps as they are.
pub open spec fn reach_vars(t: SpecTerm) -> Seq<Seq<char>>
    decreases t,
{
    match t {
        SpecTerm::Var(v) => seq![v],
        SpecTerm::Lambda(n, _, b) => without_all(reach_vars(*b), seq![n]),
        SpecTerm::Pi(n, _, ty, b) => reach_vars(*ty) + without_all(reach_vars(*b), seq![n]),
        SpecTerm::Let(n, v, b) => reach_vars(*v) + without_all(reach_vars(*b), seq![n]),
        SpecTerm::LetRec(n, v, b) => reach_vars(*v) + without_all(reach_vars(*b), seq![n]),
        SpecTerm::App(a, b) => reach_vars(*a) + reach_vars(*b),
        SpecTerm::Add(a, b) => reach_vars(*a) + reach_vars(*b),
        SpecTerm::Sub(a, b) => reach_vars(*a) + reach_vars(*b),
        SpecTerm::Mul(a, b) => reach_vars(*a) + reach_vars(*b),
        SpecTerm::Div(a, b) => reach_vars(*a) + reach_vars(*b),
        SpecTerm::BitXor(a, b) => reach_vars(*a) + reach_vars(*b),
        SpecTerm::BitAnd(a, b) => reach_vars(*a) + reach_vars(*b),
        SpecTerm::BitOr(a, b) => reach_vars(*a) + reach_vars(*b),
        SpecTerm::Shl(a, b) => reach_vars(*a) + reach_vars(*b),
        SpecTerm::Shr(a, b) => reach_vars(*a) + reach_vars(*b),
        SpecTerm::Eq(a, b) => reach_vars(*a) + reach_vars(*b),
        SpecTerm::Lt(a, b) => reach_vars(*a) + reach_vars(*b),
        SpecTerm::Gt(a, b) => reach_vars(*a) + reach_vars(*b),
        SpecTerm::BufferLoad(a, b) => reach_vars(*a) + reach_vars(*b),
        SpecTerm::BitNot(a) => reach_vars(*a),
        SpecTerm::If(a, b, c) => reach_vars(*a) + reach_vars(*b) + reach_vars(*c),
        SpecTerm::BufferStore(a, b, c) => reach_vars(*a) + reach_vars(*b) + reach_vars(*c),
        SpecTerm::Case(target, bs) => reach_vars(*target) + branches_reach_vars(bs),
        SpecTerm::Do(ts) => terms_reach_vars(ts),
        SpecTerm::Mutual(ts) => terms_reach_vars(ts),
        SpecTerm::Where(b, ds) => reach_vars(*b) + terms_reach_vars(ds),
        SpecTerm::Bind(_, a) => reach_vars(*a),
        SpecTerm::Def(_, _, b) => reach_vars(*b),
        _ => Seq::empty(),
    }
}

/// The reachable free variables of each term of a sequence.
pub open spec fn terms_reach_vars(ts: Seq<SpecTerm>) -> Seq<Seq<char>>
    decreases ts,
{
    if ts.len() == 0 {
        Seq::empty()
    } else {
        terms_reach_vars(ts.drop_last()) + reach_vars(ts.last())
    }
}

/// The reachable free variables of a case branch.
pub open spec fn branch_reach_vars(b: SpecBranch) -> Seq<Seq<char>>
    decreases b,
{
    without_all(reach_vars(b.body), seq![b.pattern] + b.args)
}

/// The reachable free variables of each branch.
pub open spec fn branches_reach_vars(bs: Seq<SpecBranch>) -> Seq<Seq<char>>
    decreases bs,
{
    if bs.len() == 0 {
        Seq::empty()
    } else {
        branches_reach_vars(bs.drop_last()) + branch_reach_vars(bs.last())
    }
}

/// No bound term has `name` free.
pub open spec fn values_avoid(s: Bindings, name: Seq<char>) -> bool {
    forall|i: int| 0 <= i < s.len() ==> !(#[trigger] free_vars(s[i].1)).contains(name)
}

pub proof fn lemma_contains_add(p: Seq<Seq<char>>, q: Seq<Seq<char>>, x: Seq<char>)
    ensures
        (p + q).contains(x) <==> (p.contains(x) || q.contains(x)),
{
    if (p + q).contains(x) {
        let k = choose|k: int| 0 <= k < (p + q).len() && (p + q)[k] == x;
        if k < p.len() {
            assert(p[k] == x);
        } else {
            assert(q[k - p.len()] == x);
        }
    }
    if p.contains(x) {
        let k = choose|k: int| 0 <= k < p.len() && p[k] == x;
        assert((p + q)[k] == x);
    }
    if q.contains(x) {
        let k = choose|k: int| 0 <= k < q.len() && q[k] == x;
        assert((p + q)[p.len() + k] == x);
    }
}

pub proof fn lemma_without_all_contains(ns: Seq<Seq<char>>, bound: Seq<Seq<char>>, x: Seq<char>)
    ensures
        without_all(ns, bound).contains(x) <==> (ns.contains(x) && !bound.contains(x)),
    decreases ns.len(),
{
    if ns.len() > 0 {
        let rest = without_all(ns.drop_last(), bound);
        lemma_without_all_contains(ns.drop_last(), bound, x);
        lemma_contains_add(ns.drop_last(), seq![ns.last()], x);
        assert(ns.drop_last() + seq![ns.last()] =~= ns);
        lemma_contains_add(rest, seq![ns.last()], x);
        assert(rest.push(ns.last()) =~= rest + seq![ns.last()]);
        if seq![ns.last()].contains(x) {
            let k = choose|k: int| 0 <= k < seq![ns.last()].len() && seq![ns.last()][k] == x;
        }
        assert(ns.last() == x ==> seq![ns.last()].contains(x)) by {
            if ns.last() == x {
                assert(seq![ns.last()][0] == x);
            }
        }
    } else {
        assert(!without_all(ns, bound).contains(x));
    }
}

proof fn lemma_lookup_index(s: Bindings, v: Seq<char>) -> (i: int)
    requires
        lookup(s, v) is Some,
    ensures
        0 <= i < s.len(),
        s[i].0 == v,
        s[i].1 == lookup(s, v)->Some_0,
    decreases s.len(),
{
    if s.last().0 == v {
        s.len() - 1
    } else {
        let j = lemma_lookup_index(s.drop_last(), v);
        assert(s.drop_last()[j] == s[j]);
        j
    }
}

proof fn lemma_lookup_skip(s: Bindings, k: int, name: Seq<char>)
    requires
        0 <= k <= s.len(),
        forall|i: int| k <= i < s.len() ==> (#[trigger] s[i]).0 != name,
    ensures
        lookup(s, name) == lookup(s.take(k), name),
    decreases s.len() - k,
{
    if k < s.len() {
        assert(s[s.len() - 1] == s.last());
        assert forall|i: int| k <= i < s.drop_last().len() implies (#[trigger] s.drop_last()[i]).0 != name by {
            assert(s.drop_last()[i] == s[i]);
        }
        lemma_lookup_skip(s.drop_last(), k, name);
        assert(s.drop_last().take(k) =~= s.take(k));
    } else {
        assert(s.take(k) =~= s);
    }
}

proof fn lemma_drop_bound(s: Bindings, bound: Seq<Seq<char>>, name: Seq<char>)
    ensures
        values_avoid(s, name) ==> values_avoid(drop_bound(s, bound), name),
        lookup(s, name) is Some && !bound.contains(name) ==> lookup(drop_bound(s, bound), name) is Some,
    decreases s.len(),
{
    if s.len() > 0 {
        lemma_drop_bound(s.drop_last(), bound, name);
        let rest = drop_bound(s.drop_last(), bound);
        if values_avoid(s, name) {
            assert(values_avoid(s.drop_last(), name)) by {
                assert forall|i: int| 0 <= i < s.drop_last().len() implies !(#[trigger] free_vars(
                    s.drop_last()[i].1,
                )).contains(name) by {
                    assert(s.drop_last()[i] == s[i]);
                }
            }
            if !bound.contains(s.last().0) {
                assert forall|i: int| 0 <= i < rest.push(s.last()).len() implies !(#[trigger] free_vars(
                    rest.push(s.last())[i].1,
                )).contains(name) by {
                    if i == rest.len() {
                        assert(s[s.len() - 1] == s.last());
                    }
                }
            }
        }
        if lookup(s, name) is Some && !bound.contains(name) {
            if s.last().0 == name {
                lemma_push_last(rest, s.last());
            } else if !bound.contains(s.last().0) {
                lemma_push_last(rest, s.last());
            }
        }
    }
}

proof fn lemma_no_capture(name: Seq<char>, s: Bindings, body_fv: Seq<Seq<char>>)
    requires
        values_avoid(s, name),
    ensures
        !captures(name, s, body_fv),
    decreases s.len(),
{
    if s.len() > 0 {
        assert(values_avoid(s.drop_last(), name)) by {
            assert forall|i: int| 0 <= i < s.drop_last().len() implies !(#[trigger] free_vars(
                s.drop_last()[i].1,
            )).contains(name) by {
                assert(s.drop_last()[i] == s[i]);
            }
        }
        lemma_no_capture(name, s.drop_last(), body_fv);
        assert(s[s.len() - 1] == s.last());
    }
}

proof fn lemma_bind_args_facts(args: Seq<Seq<char>>, s: Bindings, body: SpecTerm, all: Seq<Seq<char>>, name: Seq<char>)
    requires
        values_avoid(s, name),
    ensures
        ({
            let (args2, s1) = bind_args(args, s, body, all);
            &&& args2.len() == args.len()
            &&& s.len() <= s1.len()
            &&& s1.take(s.len() as int) == s
            &&& forall|i: int| s.len() <= i < s1.len() ==> args.contains((#[trigger] s1[i]).0)
            &&& args2.contains(name) || values_avoid(s1, name)
            &&& all.contains(name) ==> values_avoid(s1, name)
            &&& all.contains(name) && args.contains(name) ==> args2.contains(name)
        }),
    decreases args.len(),
{
    if args.len() == 0 {
        assert(s.take(s.len() as int) =~= s);
    } else {
        lemma_bind_args_facts(args.drop_last(), s, body, all, name);
        let (prev, s1) = bind_args(args.drop_last(), s, body, all);
        let a = args.last();
        assert(args.drop_last() + seq![a] =~= args);
        assert forall|x: Seq<char>| args.drop_last().contains(x) implies args.contains(x) by {
            let k = choose|k: int| 0 <= k < args.drop_last().len() && args.drop_last()[k] == x;
            assert(args[k] == x);
        }
        assert(args[args.len() - 1] == a);
        if captures(a, s1, free_vars(body)) {
            let avoid = free_vars(body) + values_free_vars(s1) + all;
            let a2 = fresh(a, avoid);
            lemma_fresh(a, avoid);
            let s2 = s1.push((a, SpecTerm::Var(a2)));
            assert(s2.take(s.len() as int) =~= s1.take(s.len() as int));
            assert(free_vars(SpecTerm::Var(a2)) == seq![a2]);
            if all.contains(name) {
                lemma_contains_add(free_vars(body) + values_free_vars(s1), all, name);
                assert(a2 != name);
            }
            if a2 != name {
                assert(!seq![a2].contains(name)) by {
                    if seq![a2].contains(name) {
                        let k = choose|k: int| 0 <= k < seq![a2].len() && seq![a2][k] == name;
                    }
                }
            } else {
                assert(prev.push(a2)[prev.len() as int] == name);
            }
            if values_avoid(s1, name) && a2 != name {
                assert forall|i: int| 0 <= i < s2.len() implies !(#[trigger] free_vars(s2[i].1)).contains(name) by {
                    if i < s1.len() {
                        assert(s2[i] == s1[i]);
                    }
                }
            }
            if prev.contains(name) {
                let k = choose|k: int| 0 <= k < prev.len() && prev[k] == name;
                assert(prev.push(a2)[k] == name);
            }
            if all.contains(name) && args.contains(name) {
                if a == name {
                    lemma_no_capture(name, s1, free_vars(body));
                } else {
                    let k = choose|k: int| 0 <= k < args.len() && args[k] == name;
                    assert(args.drop_last()[k] == name);
                }
            }
        } else {
            if prev.contains(name) {
                let k = choose|k: int| 0 <= k < prev.len() && prev[k] == name;
                assert(prev.push(a)[k] == name);
            }
            if all.contains(name) && args.contains(name) {
                if a == name {
                    assert(prev.push(a)[prev.len() as int] == name);
                } else {
                    let k = choose|k: int| 0 <= k < args.len() && args[k] == name;
                    assert(args.drop_last()[k] == name);
                }
            }
        }
    }
}

/// Every reachable free variable is a free variable.
proof fn lemma_reach_in_free(t: SpecTerm, x: Seq<char>)
    ensures
        reach_vars(t).contains(x) ==> free_vars(t).contains(x),
    decreases t, 0int,
{
    match t {
        SpecTerm::Lambda(n, ty, b) => {
            lemma_without_all_contains(reach_vars(*b), seq![n], x);
            lemma_without_all_contains(free_vars(*b), seq![n], x);
            lemma_reach_in_free(*b, x);
            lemma_contains_add(free_vars(*ty), without_all(free_vars(*b), seq![n]), x);
        },
        SpecTerm::Pi(n, _, ty, b) => {
            lemma_without_all_contains(reach_vars(*b), seq![n], x);
            lemma_without_all_contains(free_vars(*b), seq![n], x);
            lemma_reach_in_free(*b, x);
            lemma_reach_in_free(*ty, x);
            lemma_contains_add(reach_vars(*ty), without_all(reach_vars(*b), seq![n]), x);
            lemma_contains_add(free_vars(*ty), without_all(free_vars(*b), seq![n]), x);
        },
        SpecTerm::Let(n, v, b) => {
            lemma_without_all_contains(reach_vars(*b), seq![n], x);
            lemma_without_all_contains(free_vars(*b), seq![n], x);
            lemma_reach_in_free(*b, x);
            lemma_reach_in_free(*v, x);
            lemma_contains_add(reach_vars(*v), without_all(reach_vars(*b), seq![n]), x);
            lemma_contains_add(free_vars(*v), without_all(free_vars(*b), seq![n]), x);
        },
        SpecTerm::LetRec(n, v, b) => {
            lemma_without_all_contains(reach_vars(*b), seq![n], x);
            lemma_without_all_contains(free_vars(*b), seq![n], x);
            lemma_reach_in_free(*b, x);
            lemma_reach_in_free(*v, x);
            lemma_contains_add(reach_vars(*v), without_all(reach_vars(*b), seq![n]), x);
            lemma_contains_add(free_vars(*v), without_all(free_vars(*b), seq![n]), x);
        },
        SpecTerm::App(a, b) => {
            lemma_reach_in_free(*a, x);
            lemma_reach_in_free(*b, x);
            lemma_contains_add(reach_vars(*a), reach_vars(*b), x);
            lemma_contains_add(free_vars(*a), free_vars(*b), x);
        },
        SpecTerm::Add(a, b) => {
            lemma_reach_in_free(*a, x);
            lemma_reach_in_free(*b, x);
            lemma_contains_add(reach_vars(*a), reach_vars(*b), x);
            lemma_contains_add(free_vars(*a), free_vars(*b), x);
        },
        SpecTerm::Sub(a, b) => {
            lemma_reach_in_free(*a, x);
            lemma_reach_in_free(*b, x);
            lemma_contains_add(reach_vars(*a), reach_vars(*b), x);
            lemma_contains_add(free_vars(*a), free_vars(*b), x);
        },
        SpecTerm::Mul(a, b) => {
            lemma_reach_in_free(*a, x);
            lemma_reach_in_free(*b, x);
            lemma_contains_add(reach_vars(*a), reach_vars(*b), x);
            lemma_contains_add(free_vars(*a), free_vars(*b), x);
        },
        SpecTerm::Div(a, b) => {
            lemma_reach_in_free(*a, x);
            lemma_reach_in_free(*b, x);
            lemma_contains_add(reach_vars(*a), reach_vars(*b), x);
            lemma_contains_add(free_vars(*a), free_vars(*b), x);
        },
        SpecTerm::BitXor(a, b) => {
            lemma_reach_in_free(*a, x);
            lemma_reach_in_free(*b, x);
            lemma_contains_add(reach_vars(*a), reach_vars(*b), x);
            lemma_contains_add(free_vars(*a), free_vars(*b), x);
        },
        SpecTerm::BitAnd(a, b) => {
            lemma_reach_in_free(*a, x);
            lemma_reach_in_free(*b, x);
            lemma_contains_add(reach_vars(*a), reach_vars(*b), x);
            lemma_contains_add(free_vars(*a), free_vars(*b), x);
        },
        SpecTerm::BitOr(a, b) => {
            lemma_reach_in_free(*a, x);
            lemma_reach_in_free(*b, x);
            lemma_contains_add(reach_vars(*a), reach_vars(*b), x);
            lemma_contains_add(free_vars(*a), free_vars(*b), x);
        },
        SpecTerm::Shl(a, b) => {
            lemma_reach_in_free(*a, x);
            lemma_reach_in_free(*b, x);
            lemma_contains_add(reach_vars(*a), reach_vars(*b), x);
            lemma_contains_add(free_vars(*a), free_vars(*b), x);
        },
        SpecTerm::Shr(a, b) => {
            lemma_reach_in_free(*a, x);
            lemma_reach_in_free(*b, x);
            lemma_contains_add(reach_vars(*a), reach_vars(*b), x);
            lemma_contains_add(free_vars(*a), free_vars(*b), x);
        },
        SpecTerm::Eq(a, b) => {
            lemma_reach_in_free(*a, x);
            lemma_reach_in_free(*b, x);
            lemma_contains_add(reach_vars(*a), reach_vars(*b), x);
            lemma_contains_add(free_vars(*a), free_vars(*b), x);
        },
        SpecTerm::Lt(a, b) => {
            lemma_reach_in_free(*a, x);
            lemma_reach_in_free(*b, x);
            lemma_contains_add(reach_vars(*a), reach_vars(*b), x);
            lemma_contains_add(free_vars(*a), free_vars(*b), x);
        },
        SpecTerm::Gt(a, b) => {
            lemma_reach_in_free(*a, x);
            lemma_reach_in_free(*b, x);
            lemma_contains_add(reach_vars(*a), reach_vars(*b), x);
            lemma_contains_add(free_vars(*a), free_vars(*b), x);
        },
        SpecTerm::BufferLoad(a, b) => {
            lemma_reach_in_free(*a, x);
            lemma_reach_in_free(*b, x);
            lemma_contains_add(reach_vars(*a), reach_vars(*b), x);
            lemma_contains_add(free_vars(*a), free_vars(*b), x);
        },
        SpecTerm::If(a, b, c) => {
            lemma_reach_in_free(*a, x);
            lemma_reach_in_free(*b, x);
            lemma_reach_in_free(*c, x);
            lemma_contains_add(reach_vars(*a), reach_vars(*b), x);
            lemma_contains_add(reach_vars(*a) + reach_vars(*b), reach_vars(*c), x);
            lemma_contains_add(free_vars(*a), free_vars(*b), x);
            lemma_contains_add(free_vars(*a) + free_vars(*b), free_vars(*c), x);
        },
        SpecTerm::BufferStore(a, b, c) => {
            lemma_reach_in_free(*a, x);
            lemma_reach_in_free(*b, x);
            lemma_reach_in_free(*c, x);
            lemma_contains_add(reach_vars(*a), reach_vars(*b), x);
            lemma_contains_add(reach_vars(*a) + reach_vars(*b), reach_vars(*c), x);
            lemma_contains_add(free_vars(*a), free_vars(*b), x);
            lemma_contains_add(free_vars(*a) + free_vars(*b), free_vars(*c), x);
        },
        SpecTerm::BitNot(a) => {
            lemma_reach_in_free(*a, x);
        },
        SpecTerm::Bind(_, a) => {
            lemma_reach_in_free(*a, x);
        },
        SpecTerm::Def(_, _, b) => {
            lemma_reach_in_free(*b, x);
        },
        SpecTerm::Case(target, bs) => {
            lemma_reach_in_free(*target, x);
            lemma_branches_reach_in_free(bs, x);
            lemma_contains_add(reach_vars(*target), branches_reach_vars(bs), x);
            lemma_contains_add(free_vars(*target), branches_free_vars(bs), x);
        },
        SpecTerm::Do(ts) => {
            lemma_terms_reach_in_free(ts, x);
        },
        SpecTerm::Mutual(ts) => {
            lemma_terms_reach_in_free(ts, x);
        },
        SpecTerm::Where(b, ds) => {
            lemma_reach_in_free(*b, x);
            lemma_terms_reach_in_free(ds, x);
            lemma_contains_add(reach_vars(*b), terms_reach_vars(ds), x);
            lemma_contains_add(free_vars(*b), terms_free_vars(ds), x);
        },
        _ => {},
    }
}

proof fn lemma_terms_reach_in_free(ts: Seq<SpecTerm>, x: Seq<char>)
    ensures
        terms_reach_vars(ts).contains(x) ==> terms_free_vars(ts).contains(x),
    decreases ts, 1int,
{
    if ts.len() > 0 {
        lemma_terms_reach_in_free(ts.drop_last(), x);
        lemma_reach_in_free(ts.last(), x);
        lemma_contains_add(terms_reach_vars(ts.drop_last()), reach_vars(ts.last()), x);
        lemma_contains_add(terms_free_vars(ts.drop_last()), free_vars(ts.last()), x);
    }
}

proof fn lemma_branches_reach_in_free(bs: Seq<SpecBranch>, x: Seq<char>)
    ensures
        branches_reach_vars(bs).contains(x) ==> branches_free_vars(bs).contains(x),
    decreases bs, 1int,
{
    if bs.len() > 0 {
        let b = bs.last();
        lemma_branches_reach_in_free(bs.drop_last(), x);
        lemma_reach_in_free(b.body, x);
        lemma_without_all_contains(reach_vars(b.body), seq![b.pattern] + b.args, x);
        lemma_without_all_contains(free_vars(b.body), seq![b.pattern] + b.args, x);
        lemma_contains_add(branches_reach_vars(bs.drop_last()), branch_reach_vars(b), x);
        lemma_contains_add(branches_free_vars(bs.drop_last()), branch_free_vars(b), x);
    }
}

/// Under bindings that bind `name` to terms without a free `name`, no
/// reachable free `name` is left after substitution.
#[verifier::rlimit(100)]
proof fn lemma_msubst_removes(t: SpecTerm, s: Bindings, name: Seq<char>)
    requires
        lookup(s, name) is Some,
        values_avoid(s, name),
    ensures
        !reach_vars(msubst(t, s)).contains(name),
    decreases t, 0int,
{
    match t {
        SpecTerm::Var(v) => {
            if lookup(s, v) is Some {
                let i = lemma_lookup_index(s, v);
                lemma_reach_in_free(s[i].1, name);
            } else {
                assert(v != name);
                assert(!seq![v].contains(name)) by {
                    if seq![v].contains(name) {
                        let k = choose|k: int| 0 <= k < seq![v].len() && seq![v][k] == name;
                    }
                }
            }
        },
        SpecTerm::Lambda(n, ty, b) => {
            lemma_binder_removes(n, *b, s, name);
        },
        SpecTerm::Pi(n, q, ty, b) => {
            lemma_msubst_removes(*ty, s, name);
            lemma_binder_removes(n, *b, s, name);
            let s0 = drop_bound(s, seq![n]);
            let rest = if s0.len() == 0 {
                without_all(reach_vars(*b), seq![n])
            } else {
                let bound = bind_args(seq![n], s0, *b, seq![n]);
                without_all(reach_vars(msubst(*b, bound.1)), seq![bound.0[0]])
            };
            lemma_contains_add(reach_vars(msubst(*ty, s)), rest, name);
        },
        SpecTerm::Let(n, v, b) => {
            lemma_msubst_removes(*v, s, name);
            lemma_binder_removes(n, *b, s, name);
            let s0 = drop_bound(s, seq![n]);
            let rest = if s0.len() == 0 {
                without_all(reach_vars(*b), seq![n])
            } else {
                let bound = bind_args(seq![n], s0, *b, seq![n]);
                without_all(reach_vars(msubst(*b, bound.1)), seq![bound.0[0]])
            };
            lemma_contains_add(reach_vars(msubst(*v, s)), rest, name);
        },
        SpecTerm::LetRec(n, v, b) => {
            lemma_msubst_removes(*v, s, name);
            lemma_binder_removes(n, *b, s, name);
            let s0 = drop_bound(s, seq![n]);
            let rest = if s0.len() == 0 {
                without_all(reach_vars(*b), seq![n])
            } else {
                let bound = bind_args(seq![n], s0, *b, seq![n]);
                without_all(reach_vars(msubst(*b, bound.1)), seq![bound.0[0]])
            };
            lemma_contains_add(reach_vars(msubst(*v, s)), rest, name);
        },
        SpecTerm::App(a, b) => {
            lemma_msubst_removes(*a, s, name);
            lemma_msubst_removes(*b, s, name);
            lemma_contains_add(reach_vars(msubst(*a, s)), reach_vars(msubst(*b, s)), name);
        },
        SpecTerm::Add(a, b) => {
            lemma_msubst_removes(*a, s, name);
            lemma_msubst_removes(*b, s, name);
            lemma_contains_add(reach_vars(msubst(*a, s)), reach_vars(msubst(*b, s)), name);
        },
        SpecTerm::Sub(a, b) => {
            lemma_msubst_removes(*a, s, name);
            lemma_msubst_removes(*b, s, name);
            lemma_contains_add(reach_vars(msubst(*a, s)), reach_vars(msubst(*b, s)), name);
        },
        SpecTerm::Mul(a, b) => {
            lemma_msubst_removes(*a, s, name);
            lemma_msubst_removes(*b, s, name);
            lemma_contains_add(reach_vars(msubst(*a, s)), reach_vars(msubst(*b, s)), name);
        },
        SpecTerm::Div(a, b) => {
            lemma_msubst_removes(*a, s, name);
            lemma_msubst_removes(*b, s, name);
            lemma_contains_add(reach_vars(msubst(*a, s)), reach_vars(msubst(*b, s)), name);
        },
        SpecTerm::BitXor(a, b) => {
            lemma_msubst_removes(*a, s, name);
            lemma_msubst_removes(*b, s, name);
            lemma_contains_add(reach_vars(msubst(*a, s)), reach_vars(msubst(*b, s)), name);
        },
        SpecTerm::BitAnd(a, b) => {
            lemma_msubst_removes(*a, s, name);
            lemma_msubst_removes(*b, s, name);
            lemma_contains_add(reach_vars(msubst(*a, s)), reach_vars(msubst(*b, s)), name);
        },
        SpecTerm::BitOr(a, b) => {
            lemma_msubst_removes(*a, s, name);
            lemma_msubst_removes(*b, s, name);
            lemma_contains_add(reach_vars(msubst(*a, s)), reach_vars(msubst(*b, s)), name);
        },
        SpecTerm::Shl(a, b) => {
            lemma_msubst_removes(*a, s, name);
            lemma_msubst_removes(*b, s, name);
            lemma_contains_add(reach_vars(msubst(*a, s)), reach_vars(msubst(*b, s)), name);
        },
        SpecTerm::Shr(a, b) => {
            lemma_msubst_removes(*a, s, name);
            lemma_msubst_removes(*b, s, name);
            lemma_contains_add(reach_vars(msubst(*a, s)), reach_vars(msubst(*b, s)), name);
        },
        SpecTerm::Eq(a, b) => {
            lemma_msubst_removes(*a, s, name);
            lemma_msubst_removes(*b, s, name);
            lemma_contains_add(reach_vars(msubst(*a, s)), reach_vars(msubst(*b, s)), name);
        },
        SpecTerm::Lt(a, b) => {
            lemma_msubst_removes(*a, s, name);
            lemma_msubst_removes(*b, s, name);
            lemma_contains_add(reach_vars(msubst(*a, s)), reach_vars(msubst(*b, s)), name);
        },
        SpecTerm::Gt(a, b) => {
            lemma_msubst_removes(*a, s, name);
            lemma_msubst_removes(*b, s, name);
            lemma_contains_add(reach_vars(msubst(*a, s)), reach_vars(msubst(*b, s)), name);
        },
        SpecTerm::BufferLoad(a, b) => {
            lemma_msubst_removes(*a, s, name);
            lemma_msubst_removes(*b, s, name);
            lemma_contains_add(reach_vars(msubst(*a, s)), reach_vars(msubst(*b, s)), name);
        },
        SpecTerm::If(a, b, c) => {
            lemma_msubst_removes(*a, s, name);
            lemma_msubst_removes(*b, s, name);
            lemma_msubst_removes(*c, s, name);
            lemma_contains_add(reach_vars(msubst(*a, s)), reach_vars(msubst(*b, s)), name);
            lemma_contains_add(reach_vars(msubst(*a, s)) + reach_vars(msubst(*b, s)), reach_vars(msubst(*c, s)), name);
        },
        SpecTerm::BufferStore(a, b, c) => {
            lemma_msubst_removes(*a, s, name);
            lemma_msubst_removes(*b, s, name);
            lemma_msubst_removes(*c, s, name);
            lemma_contains_add(reach_vars(msubst(*a, s)), reach_vars(msubst(*b, s)), name);
            lemma_contains_add(reach_vars(msubst(*a, s)) + reach_vars(msubst(*b, s)), reach_vars(msubst(*c, s)), name);
        },
        SpecTerm::BitNot(a) => {
            lemma_msubst_removes(*a, s, name);
        },
        SpecTerm::Bind(_, a) => {
            lemma_msubst_removes(*a, s, name);
        },
        SpecTerm::Def(_, _, b) => {
            lemma_msubst_removes(*b, s, name);
        },
        SpecTerm::Case(target, bs) => {
            lemma_msubst_removes(*target, s, name);
            lemma_branches_removes(bs, s, name);
            lemma_contains_add(reach_vars(msubst(*target, s)), branches_reach_vars(msubst_branches(bs, s)), name);
        },
        SpecTerm::Do(ts) => {
            lemma_terms_removes(ts, s, name);
        },
        SpecTerm::Mutual(ts) => {
            lemma_terms_removes(ts, s, name);
        },
        SpecTerm::Where(b, ds) => {
            lemma_msubst_removes(*b, s, name);
            lemma_terms_removes(ds, s, name);
            lemma_contains_add(reach_vars(msubst(*b, s)), terms_reach_vars(msubst_terms(ds, s)), name);
        },
        _ => {},
    }
}

/// Binders `binders` (the pattern and the arguments `args` of a branch, or
/// a single binder as both) over `body`: after substitution no reachable
/// free `name` is left in the body that the binders do not bind.
proof fn lemma_binders_remove(binders: Seq<Seq<char>>, args: Seq<Seq<char>>, pattern: Seq<Seq<char>>, body: SpecTerm, s: Bindings, name: Seq<char>)
    requires
        lookup(s, name) is Some,
        values_avoid(s, name),
        binders == pattern + args,
    ensures
        drop_bound(s, binders).len() == 0 ==> !without_all(reach_vars(body), binders).contains(name),
        drop_bound(s, binders).len() > 0 ==> ({
            let bound = bind_args(args, drop_bound(s, binders), body, args);
            &&& bound.0.len() == args.len()
            &&& !without_all(reach_vars(msubst(body, bound.1)), pattern + bound.0).contains(name)
        }),
    decreases body, 1int,
{
    let s0 = drop_bound(s, binders);
    lemma_drop_bound(s, binders, name);
    lemma_without_all_contains(reach_vars(body), binders, name);
    if s0.len() > 0 {
        let (args2, s1) = bind_args(args, s0, body, args);
        lemma_bind_args_facts(args, s0, body, args, name);
        lemma_without_all_contains(reach_vars(msubst(body, s1)), pattern + args2, name);
        lemma_contains_add(pattern, args2, name);
        lemma_contains_add(pattern, args, name);
        if binders.contains(name) {
            if args.contains(name) {
                assert(args2.contains(name));
            }
        } else if !args2.contains(name) {
            assert forall|i: int| s0.len() <= i < s1.len() implies (#[trigger] s1[i]).0 != name by {
                assert(args.contains(s1[i].0));
            }
            lemma_lookup_skip(s1, s0.len() as int, name);
            lemma_msubst_removes(body, s1, name);
        }
    }
}

proof fn lemma_binder_removes(n: Seq<char>, b: SpecTerm, s: Bindings, name: Seq<char>)
    requires
        lookup(s, name) is Some,
        values_avoid(s, name),
    ensures
        drop_bound(s, seq![n]).len() == 0 ==> !without_all(reach_vars(b), seq![n]).contains(name),
        drop_bound(s, seq![n]).len() > 0 ==> ({
            let bound = bind_args(seq![n], drop_bound(s, seq![n]), b, seq![n]);
            &&& bound.0.len() == 1
            &&& !without_all(reach_vars(msubst(b, bound.1)), seq![bound.0[0]]).contains(name)
        }),
    decreases b, 2int,
{
    let e = Seq::<Seq<char>>::empty();
    assert(e + seq![n] =~= seq![n]);
    lemma_binders_remove(seq![n], seq![n], e, b, s, name);
    if drop_bound(s, seq![n]).len() > 0 {
        let bound = bind_args(seq![n], drop_bound(s, seq![n]), b, seq![n]);
        assert(e + bound.0 =~= seq![bound.0[0]]);
    }
}

proof fn lemma_terms_removes(ts: Seq<SpecTerm>, s: Bindings, name: Seq<char>)
    requires
        lookup(s, name) is Some,
        values_avoid(s, name),
    ensures
        !terms_reach_vars(msubst_terms(ts, s)).contains(name),
    decreases ts, 1int,
{
    if ts.len() > 0 {
        lemma_terms_removes(ts.drop_last(), s, name);
        lemma_msubst_removes(ts.last(), s, name);
        let m = msubst_terms(ts, s);
        lemma_push_last(msubst_terms(ts.drop_last(), s), msubst(ts.last(), s));
        lemma_contains_add(terms_reach_vars(msubst_terms(ts.drop_last(), s)), reach_vars(msubst(ts.last(), s)), name);
    }
}

proof fn lemma_branches_removes(bs: Seq<SpecBranch>, s: Bindings, name: Seq<char>)
    requires
        lookup(s, name) is Some,
        values_avoid(s, name),
    ensures
        !branches_reach_vars(msubst_branches(bs, s)).contains(name),
    decreases bs, 3int,
{
    if bs.len() > 0 {
        let b = bs.last();
        lemma_branches_removes(bs.drop_last(), s, name);
        lemma_binders_remove(seq![b.pattern] + b.args, b.args, seq![b.pattern], b.body, s, name);
        lemma_push_last(msubst_branches(bs.drop_last(), s), msubst_branch(b, s));
        lemma_contains_add(
            branches_reach_vars(msubst_branches(bs.drop_last(), s)),
            branch_reach_vars(msubst_branch(b, s)),
            name,
        );
    }
}

/// Substitution leaves no free use of the name it replaces: when `name` is
/// not free in `r`, it is free in `subst(t, name, r)` nowhere that
/// substitution reaches (appends and lambda parameter types are kept as
/// they are). In particular a let's bound value and body both lose it.
pub proof fn law_substitution_removes_name(t: SpecTerm, name: Seq<char>, r: SpecTerm)
    requires
        !free_vars(r).contains(name),
    ensures
        !reach_vars(subst(t, name, r)).contains(name),
{
    let s: Bindings = seq![(name, r)];
    assert(lookup(s, name) == Some(r));
    assert(values_avoid(s, name)) by {
        assert forall|i: int| 0 <= i < s.len() implies !(#[trigger] free_vars(s[i].1)).contains(name) by {
            assert(s[i] == (name, r));
        }
    }
    lemma_msubst_removes(t, s, name);
}

/// No binding's name is among `names`.
pub open spec fn keys_absent(s: Bindings, names: Seq<Seq<char>>) -> bool {
    forall|i: int| 0 <= i < s.len() ==> !names.contains((#[trigger] s[i]).0)
}

proof fn lemma_keys_absent_part(s: Bindings, t: SpecTerm, part: Seq<Seq<char>>, other: Seq<Seq<char>>, second: bool)
    requires
        keys_absent(s, free_vars(t)),
        free_vars(t) == (if second { other + part } else { part + other }),
    ensures
        keys_absent(s, part),
{
    assert forall|i: int| 0 <= i < s.len() implies !part.contains((#[trigger] s[i]).0) by {
        lemma_contains_add(part, other, s[i].0);
        lemma_contains_add(other, part, s[i].0);
    }
}

proof fn lemma_keys_absent_split(s: Bindings, a: Seq<Seq<char>>, b: Seq<Seq<char>>)
    requires
        keys_absent(s, a + b),
    ensures
        keys_absent(s, a),
        keys_absent(s, b),
{
    assert forall|i: int| 0 <= i < s.len() implies !a.contains((#[trigger] s[i]).0) && !b.contains(s[i].0) by {
        lemma_contains_add(a, b, s[i].0);
    }
}

proof fn lemma_drop_bound_keys(s: Bindings, bound: Seq<Seq<char>>, names: Seq<Seq<char>>)
    ensures
        forall|j: int| 0 <= j < drop_bound(s, bound).len() ==> !bound.contains((#[trigger] drop_bound(s, bound)[j]).0),
        keys_absent(s, without_all(names, bound)) ==> keys_absent(drop_bound(s, bound), names),
    decreases s.len(),
{
    if s.len() > 0 {
        lemma_drop_bound_keys(s.drop_last(), bound, names);
        let rest = drop_bound(s.drop_last(), bound);
        assert(s[s.len() - 1] == s.last());
        if keys_absent(s, without_all(names, bound)) {
            assert(keys_absent(s.drop_last(), without_all(names, bound))) by {
                assert forall|i: int| 0 <= i < s.drop_last().len() implies !without_all(names, bound).contains(
                    (#[trigger] s.drop_last()[i]).0,
                ) by {
                    assert(s.drop_last()[i] == s[i]);
                }
            }
            if !bound.contains(s.last().0) {
                lemma_without_all_contains(names, bound, s.last().0);
                assert forall|i: int| 0 <= i < rest.push(s.last()).len() implies !names.contains(
                    (#[trigger] rest.push(s.last())[i]).0,
                ) by {
                    if i < rest.len() {
                        assert(rest.push(s.last())[i] == rest[i]);
                    }
                }
            }
        }
        if !bound.contains(s.last().0) {
            assert forall|j: int| 0 <= j < rest.push(s.last()).len() implies !bound.contains(
                (#[trigger] rest.push(s.last())[j]).0,
            ) by {
                if j < rest.len() {
                    assert(rest.push(s.last())[j] == rest[j]);
                }
            }
        }
    }
}

proof fn lemma_keys_absent_no_capture(n: Seq<char>, s: Bindings, body_fv: Seq<Seq<char>>)
    requires
        keys_absent(s, body_fv),
    ensures
        !captures(n, s, body_fv),
    decreases s.len(),
{
    if s.len() > 0 {
        assert(keys_absent(s.drop_last(), body_fv)) by {
            assert forall|i: int| 0 <= i < s.drop_last().len() implies !body_fv.contains(
                (#[trigger] s.drop_last()[i]).0,
            ) by {
                assert(s.drop_last()[i] == s[i]);
            }
        }
        lemma_keys_absent_no_capture(n, s.drop_last(), body_fv);
        assert(s[s.len() - 1] == s.last());
    }
}

proof fn lemma_bind_args_identity(args: Seq<Seq<char>>, s: Bindings, body: SpecTerm, all: Seq<Seq<char>>)
    requires
        keys_absent(s, free_vars(body)),
    ensures
        bind_args(args, s, body, all) == (args, s),
    decreases args.len(),
{
    if args.len() > 0 {
        lemma_bind_args_identity(args.drop_last(), s, body, all);
        lemma_keys_absent_no_capture(args.last(), s, free_vars(body));
        assert(args.drop_last().push(args.last()) =~= args);
    }
}

/// Substitution with bindings whose names are not free in `t` gives `t`.
#[verifier::rlimit(100)]
proof fn lemma_msubst_identity(t: SpecTerm, s: Bindings)
    requires
        keys_absent(s, free_vars(t)),
    ensures
        msubst(t, s) == t,
    decreases t, 0int,
{
    match t {
        SpecTerm::Var(v) => {
            if lookup(s, v) is Some {
                let i = lemma_lookup_index(s, v);
                assert(free_vars(t)[0] == v);
                assert(!free_vars(t).contains(s[i].0));
            }
        },
        SpecTerm::Lambda(n, ty, b) => {
            lemma_keys_absent_part(s, t, without_all(free_vars(*b), seq![n]), free_vars(*ty), true);
            lemma_binder_identity(n, *b, s);
        },
        SpecTerm::Pi(n, q, ty, b) => {
            lemma_keys_absent_part(s, t, free_vars(*ty), without_all(free_vars(*b), seq![n]), false);
            lemma_keys_absent_part(s, t, without_all(free_vars(*b), seq![n]), free_vars(*ty), true);
            lemma_msubst_identity(*ty, s);
            lemma_binder_identity(n, *b, s);
        },
        SpecTerm::Let(n, v, b) => {
            lemma_keys_absent_part(s, t, free_vars(*v), without_all(free_vars(*b), seq![n]), false);
            lemma_keys_absent_part(s, t, without_all(free_vars(*b), seq![n]), free_vars(*v), true);
            lemma_msubst_identity(*v, s);
            lemma_binder_identity(n, *b, s);
        },
        SpecTerm::LetRec(n, v, b) => {
            lemma_keys_absent_part(s, t, free_vars(*v), without_all(free_vars(*b), seq![n]), false);
            lemma_keys_absent_part(s, t, without_all(free_vars(*b), seq![n]), free_vars(*v), true);
            lemma_msubst_identity(*v, s);
            lemma_binder_identity(n, *b, s);
        },
        SpecTerm::App(a, b) => {
            lemma_keys_absent_part(s, t, free_vars(*a), free_vars(*b), false);
            lemma_keys_absent_part(s, t, free_vars(*b), free_vars(*a), true);
            lemma_msubst_identity(*a, s);
            lemma_msubst_identity(*b, s);
        },
        SpecTerm::Add(a, b) => {
            lemma_keys_absent_part(s, t, free_vars(*a), free_vars(*b), false);
            lemma_keys_absent_part(s, t, free_vars(*b), free_vars(*a), true);
            lemma_msubst_identity(*a, s);
            lemma_msubst_identity(*b, s);
        },
        SpecTerm::Sub(a, b) => {
            lemma_keys_absent_part(s, t, free_vars(*a), free_vars(*b), false);
            lemma_keys_absent_part(s, t, free_vars(*b), free_vars(*a), true);
            lemma_msubst_identity(*a, s);
            lemma_msubst_identity(*b, s);
        },
        SpecTerm::Mul(a, b) => {
            lemma_keys_absent_part(s, t, free_vars(*a), free_vars(*b), false);
            lemma_keys_absent_part(s, t, free_vars(*b), free_vars(*a), true);
            lemma_msubst_identity(*a, s);
            lemma_msubst_identity(*b, s);
        },
        SpecTerm::Div(a, b) => {
            lemma_keys_absent_part(s, t, free_vars(*a), free_vars(*b), false);
            lemma_keys_absent_part(s, t, free_vars(*b), free_vars(*a), true);
            lemma_msubst_identity(*a, s);
            lemma_msubst_identity(*b, s);
        },
        SpecTerm::BitXor(a, b) => {
            lemma_keys_absent_part(s, t, free_vars(*a), free_vars(*b), false);
            lemma_keys_absent_part(s, t, free_vars(*b), free_vars(*a), true);
            lemma_msubst_identity(*a, s);
            lemma_msubst_identity(*b, s);
        },
        SpecTerm::BitAnd(a, b) => {
            lemma_keys_absent_part(s, t, free_vars(*a), free_vars(*b), false);
            lemma_keys_absent_part(s, t, free_vars(*b), free_vars(*a), true);
            lemma_msubst_identity(*a, s);
            lemma_msubst_identity(*b, s);
        },
        SpecTerm::BitOr(a, b) => {
            lemma_keys_absent_part(s, t, free_vars(*a), free_vars(*b), false);
            lemma_keys_absent_part(s, t, free_vars(*b), free_vars(*a), true);
            lemma_msubst_identity(*a, s);
            lemma_msubst_identity(*b, s);
        },
        SpecTerm::Shl(a, b) => {
            lemma_keys_absent_part(s, t, free_vars(*a), free_vars(*b), false);
            lemma_keys_absent_part(s, t, free_vars(*b), free_vars(*a), true);
            lemma_msubst_identity(*a, s);
            lemma_msubst_identity(*b, s);
        },
        SpecTerm::Shr(a, b) => {
            lemma_keys_absent_part(s, t, free_vars(*a), free_vars(*b), false);
            lemma_keys_absent_part(s, t, free_vars(*b), free_vars(*a), true);
            lemma_msubst_identity(*a, s);
            lemma_msubst_identity(*b, s);
        },
        SpecTerm::Eq(a, b) => {
            lemma_keys_absent_part(s, t, free_vars(*a), free_vars(*b), false);
            lemma_keys_absent_part(s, t, free_vars(*b), free_vars(*a), true);
            lemma_msubst_identity(*a, s);
            lemma_msubst_identity(*b, s);
        },
        SpecTerm::Lt(a, b) => {
            lemma_keys_absent_part(s, t, free_vars(*a), free_vars(*b), false);
            lemma_keys_absent_part(s, t, free_vars(*b), free_vars(*a), true);
            lemma_msubst_identity(*a, s);
            lemma_msubst_identity(*b, s);
        },
        SpecTerm::Gt(a, b) => {
            lemma_keys_absent_part(s, t, free_vars(*a), free_vars(*b), false);
            lemma_keys_absent_part(s, t, free_vars(*b), free_vars(*a), true);
            lemma_msubst_identity(*a, s);
            lemma_msubst_identity(*b, s);
        },
        SpecTerm::BufferLoad(a, b) => {
            lemma_keys_absent_part(s, t, free_vars(*a), free_vars(*b), false);
            lemma_keys_absent_part(s, t, free_vars(*b), free_vars(*a), true);
            lemma_msubst_identity(*a, s);
            lemma_msubst_identity(*b, s);
        },
        SpecTerm::If(a, b, c) => {
            lemma_keys_absent_part(s, t, free_vars(*a) + free_vars(*b), free_vars(*c), false);
            lemma_keys_absent_part(s, t, free_vars(*c), free_vars(*a) + free_vars(*b), true);
            assert(keys_absent(s, free_vars(*a) + free_vars(*b)));
            lemma_keys_absent_split(s, free_vars(*a), free_vars(*b));
            lemma_msubst_identity(*a, s);
            lemma_msubst_identity(*b, s);
            lemma_msubst_identity(*c, s);
        },
        SpecTerm::BufferStore(a, b, c) => {
            lemma_keys_absent_part(s, t, free_vars(*a) + free_vars(*b), free_vars(*c), false);
            lemma_keys_absent_part(s, t, free_vars(*c), free_vars(*a) + free_vars(*b), true);
            assert(keys_absent(s, free_vars(*a) + free_vars(*b)));
            lemma_keys_absent_split(s, free_vars(*a), free_vars(*b));
            lemma_msubst_identity(*a, s);
            lemma_msubst_identity(*b, s);
            lemma_msubst_identity(*c, s);
        },
        SpecTerm::BitNot(a) => {
            lemma_msubst_identity(*a, s);
        },
        SpecTerm::Bind(_, a) => {
            lemma_msubst_identity(*a, s);
        },
        SpecTerm::Def(_, _, b) => {
            lemma_msubst_identity(*b, s);
        },
        SpecTerm::Case(target, bs) => {
            lemma_keys_absent_part(s, t, free_vars(*target), branches_free_vars(bs), false);
            lemma_keys_absent_part(s, t, branches_free_vars(bs), free_vars(*target), true);
            lemma_msubst_identity(*target, s);
            lemma_branches_identity(bs, s);
        },
        SpecTerm::Do(ts) => {
            lemma_terms_identity(ts, s);
        },
        SpecTerm::Mutual(ts) => {
            lemma_terms_identity(ts, s);
        },
        SpecTerm::Where(b, ds) => {
            lemma_keys_absent_part(s, t, free_vars(*b), terms_free_vars(ds), false);
            lemma_keys_absent_part(s, t, terms_free_vars(ds), free_vars(*b), true);
            lemma_msubst_identity(*b, s);
            lemma_terms_identity(ds, s);
        },
        _ => {},
    }
}

proof fn lemma_binder_identity(n: Seq<char>, b: SpecTerm, s: Bindings)
    requires
        keys_absent(s, without_all(free_vars(b), seq![n])),
    ensures
        drop_bound(s, seq![n]).len() > 0 ==> bind_args(seq![n], drop_bound(s, seq![n]), b, seq![n]) == (
            seq![n],
            drop_bound(s, seq![n]),
        ) && msubst(b, drop_bound(s, seq![n])) == b,
    decreases b, 1int,
{
    let s0 = drop_bound(s, seq![n]);
    lemma_drop_bound_keys(s, seq![n], free_vars(b));
    lemma_bind_args_identity(seq![n], s0, b, seq![n]);
    lemma_msubst_identity(b, s0);
}

proof fn lemma_branch_identity(br: SpecBranch, s: Bindings)
    requires
        keys_absent(s, branch_free_vars(br)),
    ensures
        msubst_branch(br, s) == br,
    decreases br, 1int,
{
    let bound = seq![br.pattern] + br.args;
    let s0 = drop_bound(s, bound);
    lemma_drop_bound_keys(s, bound, free_vars(br.body));
    if s0.len() > 0 {
        lemma_bind_args_identity(br.args, s0, br.body, br.args);
        lemma_msubst_identity(br.body, s0);
    }
}

proof fn lemma_branches_identity(bs: Seq<SpecBranch>, s: Bindings)
    requires
        keys_absent(s, branches_free_vars(bs)),
    ensures
        msubst_branches(bs, s) == bs,
    decreases bs, 2int,
{
    if bs.len() > 0 {
        lemma_keys_absent_split(s, branches_free_vars(bs.drop_last()), branch_free_vars(bs.last()));
        lemma_branches_identity(bs.drop_last(), s);
        lemma_branch_identity(bs.last(), s);
        assert(bs.drop_last().push(bs.last()) =~= bs);
    }
}

proof fn lemma_terms_identity(ts: Seq<SpecTerm>, s: Bindings)
    requires
        keys_absent(s, terms_free_vars(ts)),
    ensures
        msubst_terms(ts, s) == ts,
    decreases ts, 1int,
{
    if ts.len() > 0 {
        lemma_keys_absent_split(s, terms_free_vars(ts.drop_last()), free_vars(ts.last()));
        lemma_terms_identity(ts.drop_last(), s);
        lemma_msubst_identity(ts.last(), s);
        assert(ts.drop_last().push(ts.last()) =~= ts);
    }
}

/// Substituting for a name that is not free in `t` leaves `t` as it is:
/// nothing is replaced and no binder is renamed.
pub proof fn law_substitution_of_absent_name(t: SpecTerm, name: Seq<char>, r: SpecTerm)
    requires
        !free_vars(t).contains(name),
    ensures
        subst(t, name, r) == t,
{
    let s: Bindings = seq![(name, r)];
    assert(keys_absent(s, free_vars(t))) by {
        assert forall|i: int| 0 <= i < s.len() implies !free_vars(t).contains((#[trigger] s[i]).0) by {
            assert(s[i] == (name, r));
        }
    }
    lemma_msubst_identity(t, s);
}

proof fn lemma_absent_lookup(s: Bindings, x: Seq<char>)
    requires
        keys_absent(s, seq![x]),
    ensures
        lookup(s, x) is None,
{
    if lookup(s, x) is Some {
        let i = lemma_lookup_index(s, x);
        assert(seq![x][0] == x);
        assert(seq![x].contains(s[i].0));
    }
}

proof fn lemma_not_in_single(x: Seq<char>, y: Seq<char>)
    ensures
        seq![x].contains(y) <==> x == y,
{
    if seq![x].contains(y) {
        let k = choose|k: int| 0 <= k < seq![x].len() && seq![x][k] == y;
    }
    if x == y {
        assert(seq![x][0] == y);
    }
}

proof fn lemma_bind_args_names(args: Seq<Seq<char>>, s: Bindings, body: SpecTerm, all: Seq<Seq<char>>)
    ensures
        ({
            let (args2, s1) = bind_args(args, s, body, all);
            &&& args2.len() == args.len()
            &&& forall|i: int| 0 <= i < args.len() ==> (#[trigger] args2[i]) == args[i] || !free_vars(body).contains(args2[i])
            &&& s.len() <= s1.len()
            &&& s1.take(s.len() as int) == s
            &&& forall|i: int| s.len() <= i < s1.len() ==> args.contains((#[trigger] s1[i]).0)
        }),
    decreases args.len(),
{
    if args.len() == 0 {
        assert(s.take(s.len() as int) =~= s);
    } else {
        lemma_bind_args_names(args.drop_last(), s, body, all);
        let (prev, s1) = bind_args(args.drop_last(), s, body, all);
        let a = args.last();
        assert forall|y: Seq<char>| args.drop_last().contains(y) implies args.contains(y) by {
            let k = choose|k: int| 0 <= k < args.drop_last().len() && args.drop_last()[k] == y;
            assert(args[k] == y);
        }
        assert(args[args.len() - 1] == a);
        if captures(a, s1, free_vars(body)) {
            let avoid = free_vars(body) + values_free_vars(s1) + all;
            let a2 = fresh(a, avoid);
            lemma_fresh(a, avoid);
            lemma_contains_add(free_vars(body), values_free_vars(s1), a2);
            lemma_contains_add(free_vars(body) + values_free_vars(s1), all, a2);
            let s2 = s1.push((a, SpecTerm::Var(a2)));
            assert(s2.take(s.len() as int) =~= s1.take(s.len() as int));
            assert forall|i: int| 0 <= i < args.len() implies (#[trigger] prev.push(a2)[i]) == args[i] || !free_vars(
                body,
            ).contains(prev.push(a2)[i]) by {
                if i < prev.len() {
                    assert(prev.push(a2)[i] == prev[i]);
                    assert(args.drop_last()[i] == args[i]);
                }
            }
            assert forall|i: int| s.len() <= i < s2.len() implies args.contains((#[trigger] s2[i]).0) by {
                if i < s1.len() {
                    assert(s2[i] == s1[i]);
                }
            }
        } else {
            assert forall|i: int| 0 <= i < args.len() implies (#[trigger] prev.push(a)[i]) == args[i] || !free_vars(
                body,
            ).contains(prev.push(a)[i]) by {
                if i < prev.len() {
                    assert(prev.push(a)[i] == prev[i]);
                    assert(args.drop_last()[i] == args[i]);
                }
            }
        }
    }
}

proof fn lemma_binders_keep(binders: Seq<Seq<char>>, args: Seq<Seq<char>>, pattern: Seq<Seq<char>>, body: SpecTerm, s: Bindings, x: Seq<char>)
    requires
        keys_absent(s, seq![x]),
        binders == pattern + args,
        without_all(reach_vars(body), binders).contains(x),
    ensures
        drop_bound(s, binders).len() > 0 ==> ({
            let bound = bind_args(args, drop_bound(s, binders), body, args);
            &&& bound.0.len() == args.len()
            &&& without_all(reach_vars(msubst(body, bound.1)), pattern + bound.0).contains(x)
        }),
    decreases body, 1int,
{
    let s0 = drop_bound(s, binders);
    lemma_without_all_contains(reach_vars(body), binders, x);
    lemma_contains_add(pattern, args, x);
    assert(seq![x].drop_last() =~= Seq::<Seq<char>>::empty());
    assert(!binders.contains(x));
    assert(seq![x].last() == x);
    assert(without_all(seq![x].drop_last(), binders) == without_all(Seq::<Seq<char>>::empty(), binders));
    assert(without_all(seq![x], binders) == Seq::<Seq<char>>::empty().push(x));
    assert(without_all(seq![x], binders) =~= seq![x]);
    lemma_drop_bound_keys(s, binders, seq![x]);
    if s0.len() > 0 {
        let (args2, s1) = bind_args(args, s0, body, args);
        lemma_bind_args_names(args, s0, body, args);
        lemma_reach_in_free(body, x);
        assert(keys_absent(s1, seq![x])) by {
            assert forall|i: int| 0 <= i < s1.len() implies !seq![x].contains((#[trigger] s1[i]).0) by {
                if i < s0.len() {
                    assert(s1.take(s0.len() as int)[i] == s1[i]);
                } else {
                    assert(args.contains(s1[i].0));
                    lemma_not_in_single(x, s1[i].0);
                }
            }
        }
        lemma_msubst_keeps(body, s1, x);
        assert(!args2.contains(x)) by {
            if args2.contains(x) {
                let k = choose|k: int| 0 <= k < args2.len() && args2[k] == x;
                assert(args2[k] == args[k] || !free_vars(body).contains(args2[k]));
                assert(args.contains(args[k]));
            }
        }
        lemma_contains_add(pattern, args2, x);
        lemma_without_all_contains(reach_vars(msubst(body, s1)), pattern + args2, x);
    }
}

proof fn lemma_binder_keeps(n: Seq<char>, b: SpecTerm, s: Bindings, x: Seq<char>)
    requires
        keys_absent(s, seq![x]),
        without_all(reach_vars(b), seq![n]).contains(x),
    ensures
        drop_bound(s, seq![n]).len() > 0 ==> ({
            let bound = bind_args(seq![n], drop_bound(s, seq![n]), b, seq![n]);
            &&& bound.0.len() == 1
            &&& without_all(reach_vars(msubst(b, bound.1)), seq![bound.0[0]]).contains(x)
        }),
    decreases b, 2int,
{
    let e = Seq::<Seq<char>>::empty();
    assert(e + seq![n] =~= seq![n]);
    lemma_binders_keep(seq![n], seq![n], e, b, s, x);
    if drop_bound(s, seq![n]).len() > 0 {
        let bound = bind_args(seq![n], drop_bound(s, seq![n]), b, seq![n]);
        assert(e + bound.0 =~= seq![bound.0[0]]);
    }
}

/// Substitution with bindings that do not bind `x` keeps every reachable
/// free `x`.
#[verifier::rlimit(100)]
proof fn lemma_msubst_keeps(t: SpecTerm, s: Bindings, x: Seq<char>)
    requires
        keys_absent(s, seq![x]),
        reach_vars(t).contains(x),
    ensures
        reach_vars(msubst(t, s)).contains(x),
    decreases t, 0int,
{
    match t {
        SpecTerm::Var(v) => {
            if v == x {
                lemma_absent_lookup(s, x);
            } else {
                assert(seq![v].contains(x) ==> false) by {
                    if seq![v].contains(x) {
                        let k = choose|k: int| 0 <= k < seq![v].len() && seq![v][k] == x;
                    }
                }
            }
        },
        SpecTerm::Lambda(n, ty, b) => {
            lemma_binder_keeps(n, *b, s, x);
        },
        SpecTerm::Pi(n, q, ty, b) => {
            lemma_contains_add(reach_vars(*ty), without_all(reach_vars(*b), seq![n]), x);
            if reach_vars(*ty).contains(x) {
                lemma_msubst_keeps(*ty, s, x);
            }
            if without_all(reach_vars(*b), seq![n]).contains(x) {
                lemma_binder_keeps(n, *b, s, x);
            }
            let s0 = drop_bound(s, seq![n]);
            let rest = if s0.len() == 0 {
                without_all(reach_vars(*b), seq![n])
            } else {
                let bound = bind_args(seq![n], s0, *b, seq![n]);
                without_all(reach_vars(msubst(*b, bound.1)), seq![bound.0[0]])
            };
            lemma_contains_add(reach_vars(msubst(*ty, s)), rest, x);
        },
        SpecTerm::Let(n, v, b) => {
            lemma_contains_add(reach_vars(*v), without_all(reach_vars(*b), seq![n]), x);
            if reach_vars(*v).contains(x) {
                lemma_msubst_keeps(*v, s, x);
            }
            if without_all(reach_vars(*b), seq![n]).contains(x) {
                lemma_binder_keeps(n, *b, s, x);
            }
            let s0 = drop_bound(s, seq![n]);
            let rest = if s0.len() == 0 {
                without_all(reach_vars(*b), seq![n])
            } else {
                let bound = bind_args(seq![n], s0, *b, seq![n]);
                without_all(reach_vars(msubst(*b, bound.1)), seq![bound.0[0]])
            };
            lemma_contains_add(reach_vars(msubst(*v, s)), rest, x);
        },
        SpecTerm::LetRec(n, v, b) => {
            lemma_contains_add(reach_vars(*v), without_all(reach_vars(*b), seq![n]), x);
            if reach_vars(*v).contains(x) {
                lemma_msubst_keeps(*v, s, x);
            }
            if without_all(reach_vars(*b), seq![n]).contains(x) {
                lemma_binder_keeps(n, *b, s, x);
            }
            let s0 = drop_bound(s, seq![n]);
            let rest = if s0.len() == 0 {
                without_all(reach_vars(*b), seq![n])
            } else {
                let bound = bind_args(seq![n], s0, *b, seq![n]);
                without_all(reach_vars(msubst(*b, bound.1)), seq![bound.0[0]])
            };
            lemma_contains_add(reach_vars(msubst(*v, s)), rest, x);
        },
        SpecTerm::App(a, b) => {
            lemma_contains_add(reach_vars(*a), reach_vars(*b), x);
            if reach_vars(*a).contains(x) {
                lemma_msubst_keeps(*a, s, x);
            } else {
                lemma_msubst_keeps(*b, s, x);
            }
            lemma_contains_add(reach_vars(msubst(*a, s)), reach_vars(msubst(*b, s)), x);
        },
        SpecTerm::Add(a, b) => {
            lemma_contains_add(reach_vars(*a), reach_vars(*b), x);
            if reach_vars(*a).contains(x) {
                lemma_msubst_keeps(*a, s, x);
            } else {
                lemma_msubst_keeps(*b, s, x);
            }
            lemma_contains_add(reach_vars(msubst(*a, s)), reach_vars(msubst(*b, s)), x);
        },
        SpecTerm::Sub(a, b) => {
            lemma_contains_add(reach_vars(*a), reach_vars(*b), x);
            if reach_vars(*a).contains(x) {
                lemma_msubst_keeps(*a, s, x);
            } else {
                lemma_msubst_keeps(*b, s, x);
            }
            lemma_contains_add(reach_vars(msubst(*a, s)), reach_vars(msubst(*b, s)), x);
        },
        SpecTerm::Mul(a, b) => {
            lemma_contains_add(reach_vars(*a), reach_vars(*b), x);
            if reach_vars(*a).contains(x) {
                lemma_msubst_keeps(*a, s, x);
            } else {
                lemma_msubst_keeps(*b, s, x);
            }
            lemma_contains_add(reach_vars(msubst(*a, s)), reach_vars(msubst(*b, s)), x);
        },
        SpecTerm::Div(a, b) => {
            lemma_contains_add(reach_vars(*a), reach_vars(*b), x);
            if reach_vars(*a).contains(x) {
                lemma_msubst_keeps(*a, s, x);
            } else {
                lemma_msubst_keeps(*b, s, x);
            }
            lemma_contains_add(reach_vars(msubst(*a, s)), reach_vars(msubst(*b, s)), x);
        },
        SpecTerm::BitXor(a, b) => {
            lemma_contains_add(reach_vars(*a), reach_vars(*b), x);
            if reach_vars(*a).contains(x) {
                lemma_msubst_keeps(*a, s, x);
            } else {
                lemma_msubst_keeps(*b, s, x);
            }
            lemma_contains_add(reach_vars(msubst(*a, s)), reach_vars(msubst(*b, s)), x);
        },
        SpecTerm::BitAnd(a, b) => {
            lemma_contains_add(reach_vars(*a), reach_vars(*b), x);
            if reach_vars(*a).contains(x) {
                lemma_msubst_keeps(*a, s, x);
            } else {
                lemma_msubst_keeps(*b, s, x);
            }
            lemma_contains_add(reach_vars(msubst(*a, s)), reach_vars(msubst(*b, s)), x);
        },
        SpecTerm::BitOr(a, b) => {
            lemma_contains_add(reach_vars(*a), reach_vars(*b), x);
            if reach_vars(*a).contains(x) {
                lemma_msubst_keeps(*a, s, x);
            } else {
                lemma_msubst_keeps(*b, s, x);
            }
            lemma_contains_add(reach_vars(msubst(*a, s)), reach_vars(msubst(*b, s)), x);
        },
        SpecTerm::Shl(a, b) => {
            lemma_contains_add(reach_vars(*a), reach_vars(*b), x);
            if reach_vars(*a).contains(x) {
                lemma_msubst_keeps(*a, s, x);
            } else {
                lemma_msubst_keeps(*b, s, x);
            }
            lemma_contains_add(reach_vars(msubst(*a, s)), reach_vars(msubst(*b, s)), x);
        },
        SpecTerm::Shr(a, b) => {
            lemma_contains_add(reach_vars(*a), reach_vars(*b), x);
            if reach_vars(*a).contains(x) {
                lemma_msubst_keeps(*a, s, x);
            } else {
                lemma_msubst_keeps(*b, s, x);
            }
            lemma_contains_add(reach_vars(msubst(*a, s)), reach_vars(msubst(*b, s)), x);
        },
        SpecTerm::Eq(a, b) => {
            lemma_contains_add(reach_vars(*a), reach_vars(*b), x);
            if reach_vars(*a).contains(x) {
                lemma_msubst_keeps(*a, s, x);
            } else {
                lemma_msubst_keeps(*b, s, x);
            }
            lemma_contains_add(reach_vars(msubst(*a, s)), reach_vars(msubst(*b, s)), x);
        },
        SpecTerm::Lt(a, b) => {
            lemma_contains_add(reach_vars(*a), reach_vars(*b), x);
            if reach_vars(*a).contains(x) {
                lemma_msubst_keeps(*a, s, x);
            } else {
                lemma_msubst_keeps(*b, s, x);
            }
            lemma_contains_add(reach_vars(msubst(*a, s)), reach_vars(msubst(*b, s)), x);
        },
        SpecTerm::Gt(a, b) => {
            lemma_contains_add(reach_vars(*a), reach_vars(*b), x);
            if reach_vars(*a).contains(x) {
                lemma_msubst_keeps(*a, s, x);
            } else {
                lemma_msubst_keeps(*b, s, x);
            }
            lemma_contains_add(reach_vars(msubst(*a, s)), reach_vars(msubst(*b, s)), x);
        },
        SpecTerm::BufferLoad(a, b) => {
            lemma_contains_add(reach_vars(*a), reach_vars(*b), x);
            if reach_vars(*a).contains(x) {
                lemma_msubst_keeps(*a, s, x);
            } else {
                lemma_msubst_keeps(*b, s, x);
            }
            lemma_contains_add(reach_vars(msubst(*a, s)), reach_vars(msubst(*b, s)), x);
        },
        SpecTerm::If(a, b, c) => {
            lemma_contains_add(reach_vars(*a), reach_vars(*b), x);
            lemma_contains_add(reach_vars(*a) + reach_vars(*b), reach_vars(*c), x);
            if reach_vars(*a).contains(x) {
                lemma_msubst_keeps(*a, s, x);
            } else if reach_vars(*b).contains(x) {
                lemma_msubst_keeps(*b, s, x);
            } else {
                lemma_msubst_keeps(*c, s, x);
            }
            lemma_contains_add(reach_vars(msubst(*a, s)), reach_vars(msubst(*b, s)), x);
            lemma_contains_add(reach_vars(msubst(*a, s)) + reach_vars(msubst(*b, s)), reach_vars(msubst(*c, s)), x);
        },
        SpecTerm::BufferStore(a, b, c) => {
            lemma_contains_add(reach_vars(*a), reach_vars(*b), x);
            lemma_contains_add(reach_vars(*a) + reach_vars(*b), reach_vars(*c), x);
            if reach_vars(*a).contains(x) {
                lemma_msubst_keeps(*a, s, x);
            } else if reach_vars(*b).contains(x) {
                lemma_msubst_keeps(*b, s, x);
            } else {
                lemma_msubst_keeps(*c, s, x);
            }
            lemma_contains_add(reach_vars(msubst(*a, s)), reach_vars(msubst(*b, s)), x);
            lemma_contains_add(reach_vars(msubst(*a, s)) + reach_vars(msubst(*b, s)), reach_vars(msubst(*c, s)), x);
        },
        SpecTerm::BitNot(a) => {
            lemma_msubst_keeps(*a, s, x);
        },
        SpecTerm::Bind(_, a) => {
            lemma_msubst_keeps(*a, s, x);
        },
        SpecTerm::Def(_, _, b) => {
            lemma_msubst_keeps(*b, s, x);
        },
        SpecTerm::Case(target, bs) => {
            lemma_contains_add(reach_vars(*target), branches_reach_vars(bs), x);
            if reach_vars(*target).contains(x) {
                lemma_msubst_keeps(*target, s, x);
            } else {
                lemma_branches_keeps(bs, s, x);
            }
            lemma_contains_add(reach_vars(msubst(*target, s)), branches_reach_vars(msubst_branches(bs, s)), x);
        },
        SpecTerm::Do(ts) => {
            lemma_terms_keeps(ts, s, x);
        },
        SpecTerm::Mutual(ts) => {
            lemma_terms_keeps(ts, s, x);
        },
        SpecTerm::Where(b, ds) => {
            lemma_contains_add(reach_vars(*b), terms_reach_vars(ds), x);
            if reach_vars(*b).contains(x) {
                lemma_msubst_keeps(*b, s, x);
            } else {
                lemma_terms_keeps(ds, s, x);
            }
            lemma_contains_add(reach_vars(msubst(*b, s)), terms_reach_vars(msubst_terms(ds, s)), x);
        },
        _ => {},
    }
}

proof fn lemma_terms_keeps(ts: Seq<SpecTerm>, s: Bindings, x: Seq<char>)
    requires
        keys_absent(s, seq![x]),
        terms_reach_vars(ts).contains(x),
    ensures
        terms_reach_vars(msubst_terms(ts, s)).contains(x),
    decreases ts, 1int,
{
    if ts.len() > 0 {
        lemma_contains_add(terms_reach_vars(ts.drop_last()), reach_vars(ts.last()), x);
        if terms_reach_vars(ts.drop_last()).contains(x) {
            lemma_terms_keeps(ts.drop_last(), s, x);
        } else {
            lemma_msubst_keeps(ts.last(), s, x);
        }
        lemma_push_last(msubst_terms(ts.drop_last(), s), msubst(ts.last(), s));
        lemma_contains_add(terms_reach_vars(msubst_terms(ts.drop_last(), s)), reach_vars(msubst(ts.last(), s)), x);
    }
}

proof fn lemma_branches_keeps(bs: Seq<SpecBranch>, s: Bindings, x: Seq<char>)
    requires
        keys_absent(s, seq![x]),
        branches_reach_vars(bs).contains(x),
    ensures
        branches_reach_vars(msubst_branches(bs, s)).contains(x),
    decreases bs, 3int,
{
    if bs.len() > 0 {
        let b = bs.last();
        lemma_contains_add(branches_reach_vars(bs.drop_last()), branch_reach_vars(b), x);
        if branches_reach_vars(bs.drop_last()).contains(x) {
            lemma_branches_keeps(bs.drop_last(), s, x);
        } else {
            lemma_binders_keep(seq![b.pattern] + b.args, b.args, seq![b.pattern], b.body, s, x);
        }
        lemma_push_last(msubst_branches(bs.drop_last(), s), msubst_branch(b, s));
        lemma_contains_add(
            branches_reach_vars(msubst_branches(bs.drop_last(), s)),
            branch_reach_vars(msubst_branch(b, s)),
            x,
        );
    }
}

/// Substitution keeps the other free variables: a name other than the one
/// replaced that is free in `t`, where substitution reaches, is still free
/// in `subst(t, name, r)`; binders renamed to avoid capture never take it.
pub proof fn law_substitution_keeps_other_names(t: SpecTerm, name: Seq<char>, r: SpecTerm, x: Seq<char>)
    requires
        x != name,
        reach_vars(t).contains(x),
    ensures
        reach_vars(subst(t, name, r)).contains(x),
{
    let s: Bindings = seq![(name, r)];
    assert(keys_absent(s, seq![x])) by {
        assert forall|i: int| 0 <= i < s.len() implies !seq![x].contains((#[trigger] s[i]).0) by {
            assert(s[i] == (name, r));
            lemma_not_in_single(x, name);
        }
    }
    lemma_msubst_keeps(t, s, x);
}

/// Whether no case branch in `t`, where substitution reaches, has the
/// pattern `y`; a branch's pattern shields its body like a binder but is a
/// constructor's name and is never renamed.
pub open spec fn no_pattern(y: Seq<char>, t: SpecTerm) -> bool
    decreases t,
{
    match t {
        SpecTerm::Lambda(_, _, b) => no_pattern(y, *b),
        SpecTerm::Pi(_, _, ty, b) => no_pattern(y, *ty) && no_pattern(y, *b),
        SpecTerm::Let(_, v, b) => no_pattern(y, *v) && no_pattern(y, *b),
        SpecTerm::LetRec(_, v, b) => no_pattern(y, *v) && no_pattern(y, *b),
        SpecTerm::App(a, b) => no_pattern(y, *a) && no_pattern(y, *b),
        SpecTerm::Add(a, b) => no_pattern(y, *a) && no_pattern(y, *b),
        SpecTerm::Sub(a, b) => no_pattern(y, *a) && no_pattern(y, *b),
        SpecTerm::Mul(a, b) => no_pattern(y, *a) && no_pattern(y, *b),
        SpecTerm::Div(a, b) => no_pattern(y, *a) && no_pattern(y, *b),
        SpecTerm::BitXor(a, b) => no_pattern(y, *a) && no_pattern(y, *b),
        SpecTerm::BitAnd(a, b) => no_pattern(y, *a) && no_pattern(y, *b),
        SpecTerm::BitOr(a, b) => no_pattern(y, *a) && no_pattern(y, *b),
        SpecTerm::Shl(a, b) => no_pattern(y, *a) && no_pattern(y, *b),
        SpecTerm::Shr(a, b) => no_pattern(y, *a) && no_pattern(y, *b),
        SpecTerm::Eq(a, b) => no_pattern(y, *a) && no_pattern(y, *b),
        SpecTerm::Lt(a, b) => no_pattern(y, *a) && no_pattern(y, *b),
        SpecTerm::Gt(a, b) => no_pattern(y, *a) && no_pattern(y, *b),
        SpecTerm::BufferLoad(a, b) => no_pattern(y, *a) && no_pattern(y, *b),
        SpecTerm::BitNot(a) => no_pattern(y, *a),
        SpecTerm::If(a, b, c) => no_pattern(y, *a) && no_pattern(y, *b) && no_pattern(y, *c),
        SpecTerm::BufferStore(a, b, c) => no_pattern(y, *a) && no_pattern(y, *b) && no_pattern(y, *c),
        SpecTerm::Case(target, bs) => no_pattern(y, *target) && branches_no_pattern(y, bs),
        SpecTerm::Do(ts) => terms_no_pattern(y, ts),
        SpecTerm::Mutual(ts) => terms_no_pattern(y, ts),
        SpecTerm::Where(b, ds) => no_pattern(y, *b) && terms_no_pattern(y, ds),
        SpecTerm::Bind(_, a) => no_pattern(y, *a),
        SpecTerm::Def(_, _, b) => no_pattern(y, *b),
        _ => true,
    }
}

/// Whether no term of a sequence has a case branch with the pattern `y`.
pub open spec fn terms_no_pattern(y: Seq<char>, ts: Seq<SpecTerm>) -> bool
    decreases ts,
{
    ts.len() == 0 || (terms_no_pattern(y, ts.drop_last()) && no_pattern(y, ts.last()))
}

/// Whether no branch has the pattern `y`, in itself or in its body.
pub open spec fn branches_no_pattern(y: Seq<char>, bs: Seq<SpecBranch>) -> bool
    decreases bs,
{
    bs.len() == 0 || (branches_no_pattern(y, bs.drop_last()) && bs.last().pattern != y && no_pattern(
        y,
        bs.last().body,
    ))
}

proof fn lemma_lookup_drop_bound(s: Bindings, bound: Seq<Seq<char>>, name: Seq<char>)
    requires
        !bound.contains(name),
    ensures
        lookup(drop_bound(s, bound), name) == lookup(s, name),
    decreases s.len(),
{
    if s.len() > 0 {
        lemma_lookup_drop_bound(s.drop_last(), bound, name);
        let rest = drop_bound(s.drop_last(), bound);
        if !bound.contains(s.last().0) {
            lemma_push_last(rest, s.last());
        }
    }
}

proof fn lemma_captures_entry(n: Seq<char>, s: Bindings, body_fv: Seq<Seq<char>>, i: int)
    requires
        0 <= i < s.len(),
        body_fv.contains(s[i].0),
        free_vars(s[i].1).contains(n),
    ensures
        captures(n, s, body_fv),
    decreases s.len(),
{
    if i < s.len() - 1 {
        assert(s.drop_last()[i] == s[i]);
        lemma_captures_entry(n, s.drop_last(), body_fv, i);
    } else {
        assert(s[i] == s.last());
    }
}

proof fn lemma_values_fv_entry(s: Bindings, i: int, y: Seq<char>)
    requires
        0 <= i < s.len(),
        free_vars(s[i].1).contains(y),
    ensures
        values_free_vars(s).contains(y),
    decreases s.len(),
{
    lemma_contains_add(values_free_vars(s.drop_last()), free_vars(s.last().1), y);
    if i < s.len() - 1 {
        assert(s.drop_last()[i] == s[i]);
        lemma_values_fv_entry(s.drop_last(), i, y);
    } else {
        assert(s[i] == s.last());
    }
}

proof fn lemma_bind_args_carries(
    args: Seq<Seq<char>>,
    s: Bindings,
    body: SpecTerm,
    all: Seq<Seq<char>>,
    name: Seq<char>,
    r: SpecTerm,
    y: Seq<char>,
)
    requires
        lookup(s, name) == Some(r),
        free_vars(body).contains(name),
        free_vars(r).contains(y),
        !args.contains(name),
    ensures
        ({
            let (args2, s1) = bind_args(args, s, body, all);
            &&& !args2.contains(y)
            &&& lookup(s1, name) == Some(r)
        }),
    decreases args.len(),
{
    if args.len() > 0 {
        assert forall|z: Seq<char>| args.drop_last().contains(z) implies args.contains(z) by {
            let k = choose|k: int| 0 <= k < args.drop_last().len() && args.drop_last()[k] == z;
            assert(args[k] == z);
        }
        lemma_bind_args_carries(args.drop_last(), s, body, all, name, r, y);
        let (prev, s1) = bind_args(args.drop_last(), s, body, all);
        let a = args.last();
        assert(args[args.len() - 1] == a);
        assert(a != name);
        let i = lemma_lookup_index(s1, name);
        if captures(a, s1, free_vars(body)) {
            let avoid = free_vars(body) + values_free_vars(s1) + all;
            let a2 = fresh(a, avoid);
            lemma_fresh(a, avoid);
            lemma_values_fv_entry(s1, i, y);
            lemma_contains_add(free_vars(body), values_free_vars(s1), y);
            lemma_contains_add(free_vars(body) + values_free_vars(s1), all, y);
            assert(a2 != y);
            lemma_push_last(s1, (a, SpecTerm::Var(a2)));
            assert(!prev.push(a2).contains(y)) by {
                if prev.push(a2).contains(y) {
                    let k = choose|k: int| 0 <= k < prev.push(a2).len() && prev.push(a2)[k] == y;
                    if k < prev.len() {
                        assert(prev[k] == y);
                    }
                }
            }
        } else {
            if a == y {
                lemma_captures_entry(y, s1, free_vars(body), i);
            }
            assert(!prev.push(a).contains(y)) by {
                if prev.push(a).contains(y) {
                    let k = choose|k: int| 0 <= k < prev.push(a).len() && prev.push(a)[k] == y;
                    if k < prev.len() {
                        assert(prev[k] == y);
                    }
                }
            }
        }
    }
}

proof fn lemma_binders_carry(
    binders: Seq<Seq<char>>,
    args: Seq<Seq<char>>,
    pattern: Seq<Seq<char>>,
    body: SpecTerm,
    s: Bindings,
    name: Seq<char>,
    r: SpecTerm,
    y: Seq<char>,
)
    requires
        lookup(s, name) == Some(r),
        reach_vars(r).contains(y),
        binders == pattern + args,
        !pattern.contains(y),
        no_pattern(y, body),
        without_all(reach_vars(body), binders).contains(name),
    ensures
        drop_bound(s, binders).len() > 0,
        ({
            let bound = bind_args(args, drop_bound(s, binders), body, args);
            &&& bound.0.len() == args.len()
            &&& without_all(reach_vars(msubst(body, bound.1)), pattern + bound.0).contains(y)
        }),
    decreases body, 1int,
{
    let s0 = drop_bound(s, binders);
    lemma_without_all_contains(reach_vars(body), binders, name);
    lemma_contains_add(pattern, args, name);
    lemma_lookup_drop_bound(s, binders, name);
    let i0 = lemma_lookup_index(s0, name);
    lemma_reach_in_free(body, name);
    lemma_reach_in_free(r, y);
    let (args2, s1) = bind_args(args, s0, body, args);
    lemma_bind_args_carries(args, s0, body, args, name, r, y);
    lemma_bind_args_names(args, s0, body, args);
    lemma_msubst_carries(body, s1, name, r, y);
    lemma_contains_add(pattern, args2, y);
    lemma_without_all_contains(reach_vars(msubst(body, s1)), pattern + args2, y);
}

proof fn lemma_binder_carries(n: Seq<char>, b: SpecTerm, s: Bindings, name: Seq<char>, r: SpecTerm, y: Seq<char>)
    requires
        lookup(s, name) == Some(r),
        reach_vars(r).contains(y),
        no_pattern(y, b),
        without_all(reach_vars(b), seq![n]).contains(name),
    ensures
        drop_bound(s, seq![n]).len() > 0,
        ({
            let bound = bind_args(seq![n], drop_bound(s, seq![n]), b, seq![n]);
            &&& bound.0.len() == 1
            &&& without_all(reach_vars(msubst(b, bound.1)), seq![bound.0[0]]).contains(y)
        }),
    decreases b, 2int,
{
    let e = Seq::<Seq<char>>::empty();
    assert(e + seq![n] =~= seq![n]);
    lemma_binders_carry(seq![n], seq![n], e, b, s, name, r, y);
    let bound = bind_args(seq![n], drop_bound(s, seq![n]), b, seq![n]);
    assert(e + bound.0 =~= seq![bound.0[0]]);
}

/// Substitution carries the free variables of the replacement: where
/// `name` is reachable-free in `t`, each reachable free variable `y` of the
/// term bound to `name` is free in the result, unless a case pattern `y`
/// shields it.
#[verifier::rlimit(100)]
proof fn lemma_msubst_carries(t: SpecTerm, s: Bindings, name: Seq<char>, r: SpecTerm, y: Seq<char>)
    requires
        lookup(s, name) == Some(r),
        reach_vars(r).contains(y),
        reach_vars(t).contains(name),
        no_pattern(y, t),
    ensures
        reach_vars(msubst(t, s)).contains(y),
    decreases t, 0int,
{
    match t {
        SpecTerm::Var(v) => {
            lemma_not_in_single(v, name);
        },
        SpecTerm::Lambda(n, ty, b) => {
            lemma_binder_carries(n, *b, s, name, r, y);
        },
        SpecTerm::Pi(n, q, ty, b) => {
            lemma_contains_add(reach_vars(*ty), without_all(reach_vars(*b), seq![n]), name);
            let s0 = drop_bound(s, seq![n]);
            let rest = if s0.len() == 0 {
                without_all(reach_vars(*b), seq![n])
            } else {
                let bound = bind_args(seq![n], s0, *b, seq![n]);
                without_all(reach_vars(msubst(*b, bound.1)), seq![bound.0[0]])
            };
            if reach_vars(*ty).contains(name) {
                lemma_msubst_carries(*ty, s, name, r, y);
            } else {
                lemma_binder_carries(n, *b, s, name, r, y);
            }
            lemma_contains_add(reach_vars(msubst(*ty, s)), rest, y);
        },
        SpecTerm::Let(n, v, b) => {
            lemma_contains_add(reach_vars(*v), without_all(reach_vars(*b), seq![n]), name);
            let s0 = drop_bound(s, seq![n]);
            let rest = if s0.len() == 0 {
                without_all(reach_vars(*b), seq![n])
            } else {
                let bound = bind_args(seq![n], s0, *b, seq![n]);
                without_all(reach_vars(msubst(*b, bound.1)), seq![bound.0[0]])
            };
            if reach_vars(*v).contains(name) {
                lemma_msubst_carries(*v, s, name, r, y);
            } else {
                lemma_binder_carries(n, *b, s, name, r, y);
            }
            lemma_contains_add(reach_vars(msubst(*v, s)), rest, y);
        },
        SpecTerm::LetRec(n, v, b) => {
            lemma_contains_add(reach_vars(*v), without_all(reach_vars(*b), seq![n]), name);
            let s0 = drop_bound(s, seq![n]);
            let rest = if s0.len() == 0 {
                without_all(reach_vars(*b), seq![n])
            } else {
                let bound = bind_args(seq![n], s0, *b, seq![n]);
                without_all(reach_vars(msubst(*b, bound.1)), seq![bound.0[0]])
            };
            if reach_vars(*v).contains(name) {
                lemma_msubst_carries(*v, s, name, r, y);
            } else {
                lemma_binder_carries(n, *b, s, name, r, y);
            }
            lemma_contains_add(reach_vars(msubst(*v, s)), rest, y);
        },
        SpecTerm::App(a, b) => {
            lemma_contains_add(reach_vars(*a), reach_vars(*b), name);
            if reach_vars(*a).contains(name) {
                lemma_msubst_carries(*a, s, name, r, y);
            } else {
                lemma_msubst_carries(*b, s, name, r, y);
            }
            lemma_contains_add(reach_vars(msubst(*a, s)), reach_vars(msubst(*b, s)), y);
        },
        SpecTerm::Add(a, b) => {
            lemma_contains_add(reach_vars(*a), reach_vars(*b), name);
            if reach_vars(*a).contains(name) {
                lemma_msubst_carries(*a, s, name, r, y);
            } else {
                lemma_msubst_carries(*b, s, name, r, y);
            }
            lemma_contains_add(reach_vars(msubst(*a, s)), reach_vars(msubst(*b, s)), y);
        },
        SpecTerm::Sub(a, b) => {
            lemma_contains_add(reach_vars(*a), reach_vars(*b), name);
            if reach_vars(*a).contains(name) {
                lemma_msubst_carries(*a, s, name, r, y);
            } else {
                lemma_msubst_carries(*b, s, name, r, y);
            }
            lemma_contains_add(reach_vars(msubst(*a, s)), reach_vars(msubst(*b, s)), y);
        },
        SpecTerm::Mul(a, b) => {
            lemma_contains_add(reach_vars(*a), reach_vars(*b), name);
            if reach_vars(*a).contains(name) {
                lemma_msubst_carries(*a, s, name, r, y);
            } else {
                lemma_msubst_carries(*b, s, name, r, y);
            }
            lemma_contains_add(reach_vars(msubst(*a, s)), reach_vars(msubst(*b, s)), y);
        },
        SpecTerm::Div(a, b) => {
            lemma_contains_add(reach_vars(*a), reach_vars(*b), name);
            if reach_vars(*a).contains(name) {
                lemma_msubst_carries(*a, s, name, r, y);
            } else {
                lemma_msubst_carries(*b, s, name, r, y);
            }
            lemma_contains_add(reach_vars(msubst(*a, s)), reach_vars(msubst(*b, s)), y);
        },
        SpecTerm::BitXor(a, b) => {
            lemma_contains_add(reach_vars(*a), reach_vars(*b), name);
            if reach_vars(*a).contains(name) {
                lemma_msubst_carries(*a, s, name, r, y);
            } else {
                lemma_msubst_carries(*b, s, name, r, y);
            }
            lemma_contains_add(reach_vars(msubst(*a, s)), reach_vars(msubst(*b, s)), y);
        },
        SpecTerm::BitAnd(a, b) => {
            lemma_contains_add(reach_vars(*a), reach_vars(*b), name);
            if reach_vars(*a).contains(name) {
                lemma_msubst_carries(*a, s, name, r, y);
            } else {
                lemma_msubst_carries(*b, s, name, r, y);
            }
            lemma_contains_add(reach_vars(msubst(*a, s)), reach_vars(msubst(*b, s)), y);
        },
        SpecTerm::BitOr(a, b) => {
            lemma_contains_add(reach_vars(*a), reach_vars(*b), name);
            if reach_vars(*a).contains(name) {
                lemma_msubst_carries(*a, s, name, r, y);
            } else {
                lemma_msubst_carries(*b, s, name, r, y);
            }
            lemma_contains_add(reach_vars(msubst(*a, s)), reach_vars(msubst(*b, s)), y);
        },
        SpecTerm::Shl(a, b) => {
            lemma_contains_add(reach_vars(*a), reach_vars(*b), name);
            if reach_vars(*a).contains(name) {
                lemma_msubst_carries(*a, s, name, r, y);
            } else {
                lemma_msubst_carries(*b, s, name, r, y);
            }
            lemma_contains_add(reach_vars(msubst(*a, s)), reach_vars(msubst(*b, s)), y);
        },
        SpecTerm::Shr(a, b) => {
            lemma_contains_add(reach_vars(*a), reach_vars(*b), name);
            if reach_vars(*a).contains(name) {
                lemma_msubst_carries(*a, s, name, r, y);
            } else {
                lemma_msubst_carries(*b, s, name, r, y);
            }
            lemma_contains_add(reach_vars(msubst(*a, s)), reach_vars(msubst(*b, s)), y);
        },
        SpecTerm::Eq(a, b) => {
            lemma_contains_add(reach_vars(*a), reach_vars(*b), name);
            if reach_vars(*a).contains(name) {
                lemma_msubst_carries(*a, s, name, r, y);
            } else {
                lemma_msubst_carries(*b, s, name, r, y);
            }
            lemma_contains_add(reach_vars(msubst(*a, s)), reach_vars(msubst(*b, s)), y);
        },
        SpecTerm::Lt(a, b) => {
            lemma_contains_add(reach_vars(*a), reach_vars(*b), name);
            if reach_vars(*a).contains(name) {
                lemma_msubst_carries(*a, s, name, r, y);
            } else {
                lemma_msubst_carries(*b, s, name, r, y);
            }
            lemma_contains_add(reach_vars(msubst(*a, s)), reach_vars(msubst(*b, s)), y);
        },
        SpecTerm::Gt(a, b) => {
            lemma_contains_add(reach_vars(*a), reach_vars(*b), name);
            if reach_vars(*a).contains(name) {
                lemma_msubst_carries(*a, s, name, r, y);
            } else {
                lemma_msubst_carries(*b, s, name, r, y);
            }
            lemma_contains_add(reach_vars(msubst(*a, s)), reach_vars(msubst(*b, s)), y);
        },
        SpecTerm::BufferLoad(a, b) => {
            lemma_contains_add(reach_vars(*a), reach_vars(*b), name);
            if reach_vars(*a).contains(name) {
                lemma_msubst_carries(*a, s, name, r, y);
            } else {
                lemma_msubst_carries(*b, s, name, r, y);
            }
            lemma_contains_add(reach_vars(msubst(*a, s)), reach_vars(msubst(*b, s)), y);
        },
        SpecTerm::If(a, b, c) => {
            lemma_contains_add(reach_vars(*a), reach_vars(*b), name);
            lemma_contains_add(reach_vars(*a) + reach_vars(*b), reach_vars(*c), name);
            if reach_vars(*a).contains(name) {
                lemma_msubst_carries(*a, s, name, r, y);
            } else if reach_vars(*b).contains(name) {
                lemma_msubst_carries(*b, s, name, r, y);
            } else {
                lemma_msubst_carries(*c, s, name, r, y);
            }
            lemma_contains_add(reach_vars(msubst(*a, s)), reach_vars(msubst(*b, s)), y);
            lemma_contains_add(reach_vars(msubst(*a, s)) + reach_vars(msubst(*b, s)), reach_vars(msubst(*c, s)), y);
        },
        SpecTerm::BufferStore(a, b, c) => {
            lemma_contains_add(reach_vars(*a), reach_vars(*b), name);
            lemma_contains_add(reach_vars(*a) + reach_vars(*b), reach_vars(*c), name);
            if reach_vars(*a).contains(name) {
                lemma_msubst_carries(*a, s, name, r, y);
            } else if reach_vars(*b).contains(name) {
                lemma_msubst_carries(*b, s, name, r, y);
            } else {
                lemma_msubst_carries(*c, s, name, r, y);
            }
            lemma_contains_add(reach_vars(msubst(*a, s)), reach_vars(msubst(*b, s)), y);
            lemma_contains_add(reach_vars(msubst(*a, s)) + reach_vars(msubst(*b, s)), reach_vars(msubst(*c, s)), y);
        },
        SpecTerm::BitNot(a) => {
            lemma_msubst_carries(*a, s, name, r, y);
        },
        SpecTerm::Bind(_, a) => {
            lemma_msubst_carries(*a, s, name, r, y);
        },
        SpecTerm::Def(_, _, b) => {
            lemma_msubst_carries(*b, s, name, r, y);
        },
        SpecTerm::Case(target, bs) => {
            lemma_contains_add(reach_vars(*target), branches_reach_vars(bs), name);
            if reach_vars(*target).contains(name) {
                lemma_msubst_carries(*target, s, name, r, y);
            } else {
                lemma_branches_carries(bs, s, name, r, y);
            }
            lemma_contains_add(reach_vars(msubst(*target, s)), branches_reach_vars(msubst_branches(bs, s)), y);
        },
        SpecTerm::Do(ts) => {
            lemma_terms_carries(ts, s, name, r, y);
        },
        SpecTerm::Mutual(ts) => {
            lemma_terms_carries(ts, s, name, r, y);
        },
        SpecTerm::Where(b, ds) => {
            lemma_contains_add(reach_vars(*b), terms_reach_vars(ds), name);
            if reach_vars(*b).contains(name) {
                lemma_msubst_carries(*b, s, name, r, y);
            } else {
                lemma_terms_carries(ds, s, name, r, y);
            }
            lemma_contains_add(reach_vars(msubst(*b, s)), terms_reach_vars(msubst_terms(ds, s)), y);
        },
        _ => {},
    }
}

proof fn lemma_terms_carries(ts: Seq<SpecTerm>, s: Bindings, name: Seq<char>, r: SpecTerm, y: Seq<char>)
    requires
        lookup(s, name) == Some(r),
        reach_vars(r).contains(y),
        terms_reach_vars(ts).contains(name),
        terms_no_pattern(y, ts),
    ensures
        terms_reach_vars(msubst_terms(ts, s)).contains(y),
    decreases ts, 1int,
{
    if ts.len() > 0 {
        lemma_contains_add(terms_reach_vars(ts.drop_last()), reach_vars(ts.last()), name);
        if terms_reach_vars(ts.drop_last()).contains(name) {
            lemma_terms_carries(ts.drop_last(), s, name, r, y);
        } else {
            lemma_msubst_carries(ts.last(), s, name, r, y);
        }
        lemma_push_last(msubst_terms(ts.drop_last(), s), msubst(ts.last(), s));
        lemma_contains_add(terms_reach_vars(msubst_terms(ts.drop_last(), s)), reach_vars(msubst(ts.last(), s)), y);
    }
}

proof fn lemma_branches_carries(bs: Seq<SpecBranch>, s: Bindings, name: Seq<char>, r: SpecTerm, y: Seq<char>)
    requires
        lookup(s, name) == Some(r),
        reach_vars(r).contains(y),
        branches_reach_vars(bs).contains(name),
        branches_no_pattern(y, bs),
    ensures
        branches_reach_vars(msubst_branches(bs, s)).contains(y),
    decreases bs, 3int,
{
    if bs.len() > 0 {
        let b = bs.last();
        lemma_contains_add(branches_reach_vars(bs.drop_last()), branch_reach_vars(b), name);
        if branches_reach_vars(bs.drop_last()).contains(name) {
            lemma_branches_carries(bs.drop_last(), s, name, r, y);
        } else {
            lemma_not_in_single(b.pattern, y);
            lemma_binders_carry(seq![b.pattern] + b.args, b.args, seq![b.pattern], b.body, s, name, r, y);
        }
        lemma_push_last(msubst_branches(bs.drop_last(), s), msubst_branch(b, s));
        lemma_contains_add(
            branches_reach_vars(msubst_branches(bs.drop_last(), s)),
            branch_reach_vars(msubst_branch(b, s)),
            y,
        );
    }
}

/// Substitution avoids capture: where `name` is free in `t` (where
/// substitution reaches), every free variable `y` of the replacement `r` is
/// free in `subst(t, name, r)`; no binder that the replacement lands under
/// captures it, since a lambda, pi, let, recursive let or case argument of
/// that name is renamed. Only a case branch whose pattern is `y`, which is
/// never renamed, is left out.
pub proof fn law_substitution_captures_nothing(t: SpecTerm, name: Seq<char>, r: SpecTerm, y: Seq<char>)
    requires
        reach_vars(t).contains(name),
        reach_vars(r).contains(y),
        no_pattern(y, t),
    ensures
        reach_vars(subst(t, name, r)).contains(y),
{
    let s: Bindings = seq![(name, r)];
    assert(lookup(s, name) == Some(r));
    lemma_msubst_carries(t, s, name, r, y);
}

/// The model of a list of bindings.
pub open spec fn bindings_view(s: Seq<(String, Term)>) -> Bindings {
    s.map_values(|p: (String, Term)| (p.0@, p.1@))
}

proof fn lemma_push_last<A>(s: Seq<A>, x: A)
    ensures
        s.push(x).drop_last() == s,
        s.push(x).last() == x,
{
    assert(s.push(x).drop_last() =~= s);
}

proof fn lemma_names_step(v: Seq<String>, i: int)
    requires
        0 <= i < v.len(),
    ensures
        names_view(v.take(i + 1)).len() == i + 1,
        names_view(v.take(i + 1)).drop_last() == names_view(v.take(i)),
        names_view(v.take(i + 1)).last() == v[i]@,
{
    assert(names_view(v.take(i + 1)).drop_last() =~= names_view(v.take(i)));
}

proof fn lemma_bindings_step(v: Seq<(String, Term)>, i: int)
    requires
        0 <= i < v.len(),
    ensures
        bindings_view(v.take(i + 1)).len() == i + 1,
        bindings_view(v.take(i + 1)).drop_last() == bindings_view(v.take(i)),
        bindings_view(v.take(i + 1)).last() == (v[i].0@, v[i].1@),
{
    assert(bindings_view(v.take(i + 1)).drop_last() =~= bindings_view(v.take(i)));
}

proof fn lemma_names_push(v: Seq<String>, x: String)
    ensures
        names_view(v.push(x)) == names_view(v).push(x@),
{
    assert(names_view(v.push(x)) =~= names_view(v).push(x@));
}

proof fn lemma_bindings_push(v: Seq<(String, Term)>, x: (String, Term))
    ensures
        bindings_view(v.push(x)) == bindings_view(v).push((x.0@, x.1@)),
{
    assert(bindings_view(v.push(x)) =~= bindings_view(v).push((x.0@, x.1@)));
}

/// The names of `bind_args` come one for each binder.
proof fn lemma_bind_args_len(args: Seq<Seq<char>>, s: Bindings, body: SpecTerm, all: Seq<Seq<char>>)
    ensures
        bind_args(args, s, body, all).0.len() == args.len(),
    decreases args.len(),
{
    if args.len() > 0 {
        lemma_bind_args_len(args.drop_last(), s, body, all);
    }
}

/// Appends copies of `more` to `out`.
fn append_names(out: &mut Vec<String>, more: &Vec<String>)
    ensures
        names_view(final(out)@) == names_view(old(out)@) + names_view(more@),
{
    let ghost start = names_view(out@);
    let mut i: usize = 0;
    while i < more.len()
        invariant
            i <= more.len(),
            names_view(out@) == start + names_view(more@.take(i as int)),
        decreases more.len() - i,
    {
        let ghost before = out@;
        out.push(more[i].clone());
        proof {
            lemma_names_push(before, more@[i as int]);
            lemma_names_step(more@, i as int);
            assert(start + names_view(more@.take(i + 1)) =~= (start + names_view(more@.take(i as int))).push(
                more@[i as int]@,
            ));
        }
        i += 1;
    }
    proof {
        assert(more@.take(more@.len() as int) =~= more@);
    }
}

/// The entries of `names` that do not occur in `bound`.
fn without_names(names: &Vec<String>, bound: &Vec<String>) -> (r: Vec<String>)
    ensures
        names_view(r@) == without_all(names_view(names@), names_view(bound@)),
{
    let mut r: Vec<String> = Vec::new();
    let mut i: usize = 0;
    while i < names.len()
        invariant
            i <= names.len(),
            names_view(r@) == without_all(names_view(names@.take(i as int)), names_view(bound@)),
        decreases names.len() - i,
    {
        proof {
            lemma_names_step(names@, i as int);
        }
        if !contains_name(bound, names[i].as_str()) {
            let ghost before = r@;
            r.push(names[i].clone());
            proof {
                lemma_names_push(before, names@[i as int]);
            }
        }
        i += 1;
    }
    proof {
        assert(names@.take(names@.len() as int) =~= names@);
    }
    r
}

/// The names of the variables that occur free in `t`.
pub fn free_vars_of(t: &Term) -> (r: Vec<String>)
    ensures
        names_view(r@) == free_vars(t@),
    decreases t, 2int,
{
    match t {
        Term::Var(v) => {
            let r = vec![v.clone()];
            proof {
                assert(names_view(r@) =~= seq![v@]);
            }
            r
        },
        Term::Lambda(n, ty, b) => free_vars_binder(ty, n, b, Ghost(t)),
        Term::Pi(n, _, ty, b) => free_vars_binder(ty, n, b, Ghost(t)),
        Term::Let(n, v, b) => free_vars_binder(v, n, b, Ghost(t)),
        Term::LetRec(n, v, b) => free_vars_binder(v, n, b, Ghost(t)),
        Term::App(a, b) => free_vars_pair(a, b, Ghost(t)),
        Term::Add(a, b) => free_vars_pair(a, b, Ghost(t)),
        Term::Sub(a, b) => free_vars_pair(a, b, Ghost(t)),
        Term::Mul(a, b) => free_vars_pair(a, b, Ghost(t)),
        Term::Div(a, b) => free_vars_pair(a, b, Ghost(t)),
        Term::Append(a, b) => free_vars_pair(a, b, Ghost(t)),
        Term::BitXor(a, b) => free_vars_pair(a, b, Ghost(t)),
        Term::BitAnd(a, b) => free_vars_pair(a, b, Ghost(t)),
        Term::BitOr(a, b) => free_vars_pair(a, b, Ghost(t)),
        Term::Shl(a, b) => free_vars_pair(a, b, Ghost(t)),
        Term::Shr(a, b) => free_vars_pair(a, b, Ghost(t)),
        Term::Eq(a, b) => free_vars_pair(a, b, Ghost(t)),
        Term::Lt(a, b) => free_vars_pair(a, b, Ghost(t)),
        Term::Gt(a, b) => free_vars_pair(a, b, Ghost(t)),
        Term::BufferLoad(a, b) => free_vars_pair(a, b, Ghost(t)),
        Term::BitNot(a) => free_vars_of(a),
        Term::If(a, b, c) => {
            let mut r = free_vars_pair(a, b, Ghost(t));
            let z = free_vars_of(c);
            append_names(&mut r, &z);
            r
        },
        Term::BufferStore(a, b, c) => {
            let mut r = free_vars_pair(a, b, Ghost(t));
            let z = free_vars_of(c);
            append_names(&mut r, &z);
            r
        },
        Term::Case(target, bs) => {
            let mut r = free_vars_of(target);
            let z = branches_free_vars_of(bs, Ghost(t));
            append_names(&mut r, &z);
            r
        },
        Term::Do(ts) => terms_free_vars_of(ts),
        Term::Mutual(ts) => terms_free_vars_of(ts),
        Term::Where(b, ds) => {
            let mut r = free_vars_of(b);
            let z = terms_free_vars_of(ds);
            append_names(&mut r, &z);
            r
        },
        Term::Bind(_, a) => free_vars_of(a),
        Term::Def(_, _, b) => free_vars_of(b),
        _ => Vec::new(),
    }
}

/// The free variables of two terms, one after the other.
fn free_vars_pair(a: &Term, b: &Term, Ghost(parent): Ghost<&Term>) -> (r: Vec<String>)
    requires
        decreases_to!(parent => *a),
        decreases_to!(parent => *b),
    ensures
        names_view(r@) == free_vars(a@) + free_vars(b@),
    decreases parent, 1int,
{
    let mut r = free_vars_of(a);
    let z = free_vars_of(b);
    append_names(&mut r, &z);
    r
}

/// The free variables of `first` followed by those of `body` other than `n`.
fn free_vars_binder(first: &Term, n: &String, body: &Term, Ghost(parent): Ghost<&Term>) -> (r: Vec<String>)
    requires
        decreases_to!(parent => *first),
        decreases_to!(parent => *body),
    ensures
        names_view(r@) == free_vars(first@) + without_all(free_vars(body@), seq![n@]),
    decreases parent, 1int,
{
    let mut r = free_vars_of(first);
    let inner = free_vars_of(body);
    let bound = vec![n.clone()];
    proof {
        assert(names_view(bound@) =~= seq![n@]);
    }
    let z = without_names(&inner, &bound);
    append_names(&mut r, &z);
    r
}

/// The free variables of each term of a list, one after another.
fn terms_free_vars_of(ts: &Vec<Term>) -> (r: Vec<String>)
    ensures
        names_view(r@) == terms_free_vars(terms_view(ts@)),
    decreases ts, 2int,
{
    let mut r: Vec<String> = Vec::new();
    let mut i: usize = 0;
    while i < ts.len()
        invariant
            i <= ts.len(),
            names_view(r@) == terms_free_vars(terms_view(ts@.take(i as int))),
        decreases ts.len() - i,
    {
        proof {
            assert(decreases_to!(ts => ts@[i as int]));
            lemma_terms_view_step(ts@, i as int);
            lemma_push_last(terms_view(ts@.take(i as int)), term_view(ts@[i as int]));
        }
        let z = free_vars_of(&ts[i]);
        append_names(&mut r, &z);
        i += 1;
    }
    proof {
        assert(ts@.take(ts@.len() as int) =~= ts@);
    }
    r
}

/// The free variables of each case branch, one after another.
fn branches_free_vars_of(bs: &Vec<(String, Vec<String>, Box<Term>)>, Ghost(parent): Ghost<&Term>) -> (r: Vec<String>)
    requires
        decreases_to!(parent => *bs),
    ensures
        names_view(r@) == branches_free_vars(branches_view(bs@)),
    decreases parent, 1int,
{
    let mut r: Vec<String> = Vec::new();
    let mut i: usize = 0;
    while i < bs.len()
        invariant
            i <= bs.len(),
            decreases_to!(parent => *bs),
            names_view(r@) == branches_free_vars(branches_view(bs@.take(i as int))),
        decreases bs.len() - i,
    {
        let ghost sb = SpecBranch { pattern: bs@[i as int].0@, args: names_view(bs@[i as int].1@), body: term_view(*bs@[i as int].2) };
        proof {
            assert(decreases_to!(*bs => bs@));
            assert(decreases_to!(bs@ => bs@[i as int]));
            assert(decreases_to!(bs@[i as int] => bs@[i as int].2));
            lemma_branches_view_step(bs@, i as int);
            lemma_push_last(branches_view(bs@.take(i as int)), sb);
        }
        let body_fv = free_vars_of(&bs[i].2);
        let mut bound = vec![bs[i].0.clone()];
        proof {
            assert(names_view(bound@) =~= seq![bs@[i as int].0@]);
        }
        append_names(&mut bound, &bs[i].1);
        let z = without_names(&body_fv, &bound);
        proof {
            assert(branch_free_vars(sb) == without_all(free_vars(sb.body), seq![sb.pattern] + sb.args));
            assert(names_view(z@) == branch_free_vars(sb));
        }
        append_names(&mut r, &z);
        i += 1;
    }
    proof {
        assert(bs@.take(bs@.len() as int) =~= bs@);
    }
    r
}

/// The term bound to `v` by the last binding of that name.
fn lookup_binding(s: &Vec<(String, Term)>, v: &str) -> (r: Option<Term>)
    ensures
        match lookup(bindings_view(s@), v@) {
            Some(x) => r is Some && r->Some_0@ == x,
            None => r is None,
        },
{
    let mut i: usize = s.len();
    proof {
        assert(s@.take(s@.len() as int) =~= s@);
    }
    while i > 0
        invariant
            i <= s.len(),
            lookup(bindings_view(s@), v@) == lookup(bindings_view(s@.take(i as int)), v@),
        decreases i,
    {
        proof {
            lemma_bindings_step(s@, i - 1);
        }
        if str_eq(s[i - 1].0.as_str(), v) {
            return Some(s[i - 1].1.copy());
        }
        i -= 1;
    }
    None
}

/// The bindings whose names are not in `bound`.
fn drop_bound_of(s: &Vec<(String, Term)>, bound: &Vec<String>) -> (r: Vec<(String, Term)>)
    ensures
        bindings_view(r@) == drop_bound(bindings_view(s@), names_view(bound@)),
{
    let mut r: Vec<(String, Term)> = Vec::new();
    let mut i: usize = 0;
    while i < s.len()
        invariant
            i <= s.len(),
            bindings_view(r@) == drop_bound(bindings_view(s@.take(i as int)), names_view(bound@)),
        decreases s.len() - i,
    {
        proof {
            lemma_bindings_step(s@, i as int);
        }
        if !contains_name(bound, s[i].0.as_str()) {
            let entry = (s[i].0.clone(), s[i].1.copy());
            let ghost before = r@;
            r.push(entry);
            proof {
                lemma_bindings_push(before, entry);
            }
        }
        i += 1;
    }
    proof {
        assert(s@.take(s@.len() as int) =~= s@);
    }
    r
}

/// The free variables of the bound terms.
fn values_free_vars_of(s: &Vec<(String, Term)>) -> (r: Vec<String>)
    ensures
        names_view(r@) == values_free_vars(bindings_view(s@)),
{
    let mut r: Vec<String> = Vec::new();
    let mut i: usize = 0;
    while i < s.len()
        invariant
            i <= s.len(),
            names_view(r@) == values_free_vars(bindings_view(s@.take(i as int))),
        decreases s.len() - i,
    {
        proof {
            lemma_bindings_step(s@, i as int);
        }
        let z = free_vars_of(&s[i].1);
        append_names(&mut r, &z);
        i += 1;
    }
    proof {
        assert(s@.take(s@.len() as int) =~= s@);
    }
    r
}

proof fn lemma_captures_prefix(n: Seq<char>, s: Bindings, body_fv: Seq<Seq<char>>, j: int)
    requires
        0 <= j <= s.len(),
        captures(n, s.take(j), body_fv),
    ensures
        captures(n, s, body_fv),
    decreases s.len() - j,
{
    if j < s.len() {
        assert(s.take(j + 1).drop_last() =~= s.take(j));
        lemma_captures_prefix(n, s, body_fv, j + 1);
    } else {
        assert(s.take(j) =~= s);
    }
}

/// Whether a binder named `n` over a body with free variables `body_fv`
/// would capture a variable of a bound term.
fn captures_of(n: &str, s: &Vec<(String, Term)>, body_fv: &Vec<String>) -> (r: bool)
    ensures
        r == captures(n@, bindings_view(s@), names_view(body_fv@)),
{
    let mut i: usize = 0;
    while i < s.len()
        invariant
            i <= s.len(),
            !captures(n@, bindings_view(s@.take(i as int)), names_view(body_fv@)),
        decreases s.len() - i,
    {
        proof {
            lemma_bindings_step(s@, i as int);
        }
        if contains_name(body_fv, s[i].0.as_str()) {
            let value_fv = free_vars_of(&s[i].1);
            if contains_name(&value_fv, n) {
                proof {
                    lemma_captures_prefix(n@, bindings_view(s@), names_view(body_fv@), i + 1);
                    assert(bindings_view(s@.take(i + 1)) == bindings_view(s@).take(i + 1));
                }
                return true;
            }
        }
        i += 1;
    }
    proof {
        assert(s@.take(s@.len() as int) =~= s@);
    }
    false
}

/// The length of the longest name in `names`.
fn max_len_of(names: &Vec<String>) -> (r: usize)
    ensures
        r == max_len(names_view(names@)),
{
    let mut m: usize = 0;
    let mut i: usize = 0;
    while i < names.len()
        invariant
            i <= names.len(),
            m == max_len(names_view(names@.take(i as int))),
        decreases names.len() - i,
    {
        proof {
            lemma_names_step(names@, i as int);
        }
        let l = names[i].as_str().unicode_len();
        if l > m {
            m = l;
        }
        i += 1;
    }
    proof {
        assert(names@.take(names@.len() as int) =~= names@);
    }
    m
}

/// A name made from `n` that is not in `avoid`: `n` followed by as few
/// primes as make it so.
fn fresh_name(n: &str, avoid: &Vec<String>) -> (r: String)
    ensures
        r@ == fresh(n@, names_view(avoid@)),
{
    let ghost a = names_view(avoid@);
    let bound = max_len_of(avoid);
    let mut candidate = n.to_owned();
    push_char(&mut candidate, '\'');
    proof {
        assert(candidate@ =~= n@ + primes(1));
    }
    let mut i: usize = 0;
    let mut taken = contains_name(avoid, candidate.as_str());
    while i < bound && taken
        invariant
            i <= bound,
            bound == max_len(a),
            candidate@ == n@ + primes((i + 1) as nat),
            taken == a.contains(candidate@),
            a == names_view(avoid@),
            fresh(n@, a) == fresh_from(n@, a, i as nat),
        decreases bound - i,
    {
        push_char(&mut candidate, '\'');
        proof {
            assert(candidate@ =~= n@ + primes((i + 2) as nat));
        }
        i += 1;
        taken = contains_name(avoid, candidate.as_str());
    }
    candidate
}

/// Brings the binders `args` into scope over `body` under the bindings `s`,
/// renaming those that would capture: the binders as they stand after, and
/// the bindings to apply to the body.
fn bind_args_of(args: &Vec<String>, s: Vec<(String, Term)>, body: &Term, all: &Vec<String>) -> (r: (
    Vec<String>,
    Vec<(String, Term)>,
))
    ensures
        (names_view(r.0@), bindings_view(r.1@)) == bind_args(names_view(args@), bindings_view(s@), body@, names_view(all@)),
{
    let ghost s_in = bindings_view(s@);
    let body_fv = free_vars_of(body);
    let mut out: Vec<String> = Vec::new();
    let mut cur = s;
    let mut i: usize = 0;
    proof {
        assert(names_view(args@.take(0)) =~= Seq::<Seq<char>>::empty());
        assert(names_view(out@) =~= Seq::<Seq<char>>::empty());
    }
    while i < args.len()
        invariant
            i <= args.len(),
            names_view(body_fv@) == free_vars(body@),
            (names_view(out@), bindings_view(cur@)) == bind_args(names_view(args@.take(i as int)), s_in, body@, names_view(all@)),
        decreases args.len() - i,
    {
        proof {
            lemma_names_step(args@, i as int);
        }
        let a = &args[i];
        let ghost before_out = out@;
        let ghost before_cur = cur@;
        if captures_of(a.as_str(), &cur, &body_fv) {
            let mut avoid = copy_names(&body_fv);
            let vfv = values_free_vars_of(&cur);
            append_names(&mut avoid, &vfv);
            append_names(&mut avoid, all);
            let a2 = fresh_name(a.as_str(), &avoid);
            let entry = (a.clone(), Term::Var(a2.clone()));
            out.push(a2);
            cur.push(entry);
            proof {
                lemma_names_push(before_out, out@.last());
                assert(out@ == before_out.push(out@.last()));
                lemma_bindings_push(before_cur, entry);
            }
        } else {
            out.push(a.clone());
            proof {
                lemma_names_push(before_out, args@[i as int]);
            }
        }
        i += 1;
    }
    proof {
        assert(args@.take(args@.len() as int) =~= args@);
    }
    (out, cur)
}

/// Applies the bindings `s` to `t` at once, renaming binders that would
/// capture.
#[verifier::rlimit(80)]
pub fn subst_with(t: &Term, s: &Vec<(String, Term)>) -> (r: Term)
    ensures
        r@ == msubst(t@, bindings_view(s@)),
    decreases t, 2int,
{
    match t {
        Term::Var(v) => match lookup_binding(s, v.as_str()) {
            Some(x) => x,
            None => t.copy(),
        },
        Term::Lambda(n, ty, b) => match subst_under(n, b, s, Ghost(t)) {
            Some((n2, b2)) => Term::Lambda(n2, Box::new(ty.copy()), Box::new(b2)),
            None => t.copy(),
        },
        Term::Pi(n, q, ty, b) => {
            let ty2 = subst_with(ty, s);
            match subst_under(n, b, s, Ghost(t)) {
                Some((n2, b2)) => Term::Pi(n2, *q, Box::new(ty2), Box::new(b2)),
                None => Term::Pi(n.clone(), *q, Box::new(ty2), Box::new(b.copy())),
            }
        },
        Term::Let(n, v, b) => {
            let v2 = subst_with(v, s);
            match subst_under(n, b, s, Ghost(t)) {
                Some((n2, b2)) => Term::Let(n2, Box::new(v2), Box::new(b2)),
                None => Term::Let(n.clone(), Box::new(v2), Box::new(b.copy())),
            }
        },
        Term::LetRec(n, v, b) => {
            let v2 = subst_with(v, s);
            match subst_under(n, b, s, Ghost(t)) {
                Some((n2, b2)) => Term::LetRec(n2, Box::new(v2), Box::new(b2)),
                None => Term::LetRec(n.clone(), Box::new(v2), Box::new(b.copy())),
            }
        },
        Term::App(a, b) => Term::App(Box::new(subst_with(a, s)), Box::new(subst_with(b, s))),
        Term::Add(a, b) => Term::Add(Box::new(subst_with(a, s)), Box::new(subst_with(b, s))),
        Term::Sub(a, b) => Term::Sub(Box::new(subst_with(a, s)), Box::new(subst_with(b, s))),
        Term::Mul(a, b) => Term::Mul(Box::new(subst_with(a, s)), Box::new(subst_with(b, s))),
        Term::Div(a, b) => Term::Div(Box::new(subst_with(a, s)), Box::new(subst_with(b, s))),
        Term::BitXor(a, b) => Term::BitXor(Box::new(subst_with(a, s)), Box::new(subst_with(b, s))),
        Term::BitAnd(a, b) => Term::BitAnd(Box::new(subst_with(a, s)), Box::new(subst_with(b, s))),
        Term::BitOr(a, b) => Term::BitOr(Box::new(subst_with(a, s)), Box::new(subst_with(b, s))),
        Term::BitNot(a) => Term::BitNot(Box::new(subst_with(a, s))),
        Term::Shl(a, b) => Term::Shl(Box::new(subst_with(a, s)), Box::new(subst_with(b, s))),
        Term::Shr(a, b) => Term::Shr(Box::new(subst_with(a, s)), Box::new(subst_with(b, s))),
        Term::Eq(a, b) => Term::Eq(Box::new(subst_with(a, s)), Box::new(subst_with(b, s))),
        Term::Lt(a, b) => Term::Lt(Box::new(subst_with(a, s)), Box::new(subst_with(b, s))),
        Term::Gt(a, b) => Term::Gt(Box::new(subst_with(a, s)), Box::new(subst_with(b, s))),
        Term::If(a, b, c) => Term::If(
            Box::new(subst_with(a, s)),
            Box::new(subst_with(b, s)),
            Box::new(subst_with(c, s)),
        ),
        Term::BufferLoad(a, b) => Term::BufferLoad(Box::new(subst_with(a, s)), Box::new(subst_with(b, s))),
        Term::BufferStore(a, b, c) => Term::BufferStore(
            Box::new(subst_with(a, s)),
            Box::new(subst_with(b, s)),
            Box::new(subst_with(c, s)),
        ),
        Term::Case(target, bs) => {
            let target2 = subst_with(target, s);
            let bs2 = subst_branches_with(bs, s, Ghost(t));
            Term::Case(Box::new(target2), bs2)
        },
        Term::Do(ts) => Term::Do(subst_terms_with(ts, s)),
        Term::Bind(n, a) => Term::Bind(n.clone(), Box::new(subst_with(a, s))),
        Term::Where(b, ds) => {
            let b2 = subst_with(b, s);
            Term::Where(Box::new(b2), subst_terms_with(ds, s))
        },
        Term::Mutual(ts) => Term::Mutual(subst_terms_with(ts, s)),
        Term::Def(n, args, b) => {
            let b2 = subst_with(b, s);
            Term::Def(n.clone(), copy_names(args), Box::new(b2))
        },
        _ => t.copy(),
    }
}

/// The bindings applied under a binder `n` over `body`: `None` when the
/// binder shields the body from all of them, else the binder's name after
/// renaming and the substituted body.
fn subst_under(n: &String, body: &Term, s: &Vec<(String, Term)>, Ghost(parent): Ghost<&Term>) -> (r: Option<(String, Term)>)
    requires
        decreases_to!(parent => *body),
    ensures
        ({
            let s0 = drop_bound(bindings_view(s@), seq![n@]);
            let bound = bind_args(seq![n@], s0, body@, seq![n@]);
            &&& r is None <==> s0.len() == 0
            &&& r is Some ==> r->Some_0.0@ == bound.0[0] && r->Some_0.1@ == msubst(body@, bound.1)
        }),
    decreases parent, 1int,
{
    let bound = vec![n.clone()];
    proof {
        assert(names_view(bound@) =~= seq![n@]);
    }
    let s0 = drop_bound_of(s, &bound);
    if s0.len() == 0 {
        return None;
    }
    let (ns, s1) = bind_args_of(&bound, s0, body, &bound);
    proof {
        lemma_bind_args_len(seq![n@], bindings_view(s0@), body@, seq![n@]);
        assert(names_view(ns@)[0] == ns@[0]@);
    }
    let b2 = subst_with(body, &s1);
    Some((ns[0].clone(), b2))
}

/// The bindings applied to each term of a list.
fn subst_terms_with(ts: &Vec<Term>, s: &Vec<(String, Term)>) -> (r: Vec<Term>)
    ensures
        terms_view(r@) == msubst_terms(terms_view(ts@), bindings_view(s@)),
    decreases ts, 2int,
{
    let mut out: Vec<Term> = Vec::new();
    let mut i: usize = 0;
    while i < ts.len()
        invariant
            i <= ts.len(),
            terms_view(out@) == msubst_terms(terms_view(ts@.take(i as int)), bindings_view(s@)),
        decreases ts.len() - i,
    {
        proof {
            assert(decreases_to!(ts => ts@[i as int]));
            lemma_terms_view_step(ts@, i as int);
            lemma_push_last(terms_view(ts@.take(i as int)), term_view(ts@[i as int]));
        }
        let x = subst_with(&ts[i], s);
        let ghost before = out@;
        out.push(x);
        proof {
            assert(out@ == before.push(x));
            assert(out@.drop_last() =~= before);
            lemma_terms_view_len(before);
        }
        i += 1;
    }
    proof {
        assert(ts@.take(ts@.len() as int) =~= ts@);
    }
    out
}

/// The bindings applied to each case branch.
fn subst_branches_with(
    bs: &Vec<(String, Vec<String>, Box<Term>)>,
    s: &Vec<(String, Term)>,
    Ghost(parent): Ghost<&Term>,
) -> (r: Vec<(String, Vec<String>, Box<Term>)>)
    requires
        decreases_to!(parent => *bs),
    ensures
        branches_view(r@) == msubst_branches(branches_view(bs@), bindings_view(s@)),
    decreases parent, 1int,
{
    let mut out: Vec<(String, Vec<String>, Box<Term>)> = Vec::new();
    let mut i: usize = 0;
    while i < bs.len()
        invariant
            i <= bs.len(),
            decreases_to!(parent => *bs),
            branches_view(out@) == msubst_branches(branches_view(bs@.take(i as int)), bindings_view(s@)),
        decreases bs.len() - i,
    {
        let ghost sb = SpecBranch { pattern: bs@[i as int].0@, args: names_view(bs@[i as int].1@), body: term_view(*bs@[i as int].2) };
        proof {
            assert(decreases_to!(*bs => bs@));
            assert(decreases_to!(bs@ => bs@[i as int]));
            assert(decreases_to!(bs@[i as int] => bs@[i as int].2));
            lemma_branches_view_step(bs@, i as int);
            lemma_push_last(branches_view(bs@.take(i as int)), sb);
        }
        let mut bound = vec![bs[i].0.clone()];
        proof {
            assert(names_view(bound@) =~= seq![bs@[i as int].0@]);
        }
        append_names(&mut bound, &bs[i].1);
        let s0 = drop_bound_of(s, &bound);
        let entry = if s0.len() == 0 {
            (bs[i].0.clone(), copy_names(&bs[i].1), Box::new(bs[i].2.copy()))
        } else {
            let (args2, s1) = bind_args_of(&bs[i].1, s0, &bs[i].2, &bs[i].1);
            let b2 = subst_with(&bs[i].2, &s1);
            (bs[i].0.clone(), args2, Box::new(b2))
        };
        proof {
            assert(msubst_branch(sb, bindings_view(s@)) == SpecBranch {
                pattern: entry.0@,
                args: names_view(entry.1@),
                body: term_view(*entry.2),
            });
        }
        let ghost before = out@;
        out.push(entry);
        proof {
            assert(out@.drop_last() =~= before);
            lemma_branches_view_len(before);
        }
        i += 1;
    }
    proof {
        assert(bs@.take(bs@.len() as int) =~= bs@);
    }
    out
}

} // verus!
