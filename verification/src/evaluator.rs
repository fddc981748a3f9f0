//! Evaluation of terms: substitution, beta reduction, integer arithmetic
//! and conditionals, computed until a normal form is reached.
use vstd::prelude::*;
use crate::term::{SpecTerm, Term};
use crate::substitution::{bindings_view, subst, subst_with};

verus! {

/// The Ackermann function.
pub open spec fn ack(m: nat, n: nat) -> nat
    decreases m, n,
{
    if m == 0 {
        n + 1
    } else if n == 0 {
        ack((m - 1) as nat, 1)
    } else {
        ack((m - 1) as nat, ack(m, (n - 1) as nat))
    }
}

/// The Ackermann function always exceeds its second argument.
pub proof fn lemma_ack_gt(m: nat, n: nat)
    ensures
        ack(m, n) > n,
    decreases m, n,
{
    if m == 0 {
    } else if n == 0 {
        lemma_ack_gt((m - 1) as nat, 1);
    } else {
        lemma_ack_gt(m, (n - 1) as nat);
        lemma_ack_gt((m - 1) as nat, ack(m, (n - 1) as nat));
    }
}

/// Evaluation with a bound on the depth of reduction. `None` when the bound
/// runs out, or when an addition or subtraction of two integers leaves the
/// range of `i64`.
///
/// An application evaluates both sides and, when the function is a lambda,
/// evaluates its body with the argument substituted. Additions and
/// subtractions of two integers compute; a conditional whose condition is an
/// integer takes the then branch on a nonzero value; a let substitutes the
/// value of its bound term. Other terms are already values.
pub open spec fn eval_fuel(t: SpecTerm, fuel: nat) -> Option<SpecTerm>
    decreases fuel,
{
    if fuel == 0 {
        None
    } else {
        let f = (fuel - 1) as nat;
        match t {
            SpecTerm::App(func, arg) => match (eval_fuel(*func, f), eval_fuel(*arg, f)) {
                (Some(fv), Some(av)) => match fv {
                    SpecTerm::Lambda(n, _, body) => eval_fuel(subst(*body, n, av), f),
                    _ => Some(SpecTerm::App(Box::new(fv), Box::new(av))),
                },
                _ => None,
            },
            SpecTerm::Add(l, r) => match (eval_fuel(*l, f), eval_fuel(*r, f)) {
                (Some(lv), Some(rv)) => match (lv, rv) {
                    (SpecTerm::Integer(a), SpecTerm::Integer(b)) => if i64::MIN <= a + b <= i64::MAX {
                        Some(SpecTerm::Integer((a + b) as i64))
                    } else {
                        None
                    },
                    _ => Some(SpecTerm::Add(Box::new(lv), Box::new(rv))),
                },
                _ => None,
            },
            SpecTerm::Sub(l, r) => match (eval_fuel(*l, f), eval_fuel(*r, f)) {
                (Some(lv), Some(rv)) => match (lv, rv) {
                    (SpecTerm::Integer(a), SpecTerm::Integer(b)) => if i64::MIN <= a - b <= i64::MAX {
                        Some(SpecTerm::Integer((a - b) as i64))
                    } else {
                        None
                    },
                    _ => Some(SpecTerm::Sub(Box::new(lv), Box::new(rv))),
                },
                _ => None,
            },
            SpecTerm::If(c, a, b) => match eval_fuel(*c, f) {
                Some(SpecTerm::Integer(n)) => if n != 0 {
                    eval_fuel(*a, f)
                } else {
                    eval_fuel(*b, f)
                },
                Some(cv) => match (eval_fuel(*a, f), eval_fuel(*b, f)) {
                    (Some(av), Some(bv)) => Some(SpecTerm::If(Box::new(cv), Box::new(av), Box::new(bv))),
                    _ => None,
                },
                None => None,
            },
            SpecTerm::Let(n, v, b) => match eval_fuel(*v, f) {
                Some(vv) => eval_fuel(subst(*b, n, vv), f),
                None => None,
            },
            _ => Some(t),
        }
    }
}

/// Whether the evaluation of `t` comes to an end within the range of `i64`.
pub open spec fn evaluates(t: SpecTerm) -> bool {
    exists|fuel: nat| #[trigger] eval_fuel(t, fuel) is Some
}

/// The normal form of `t`, where `evaluates(t)`.
pub open spec fn eval_result(t: SpecTerm) -> SpecTerm {
    eval_fuel(t, choose|fuel: nat| #[trigger] eval_fuel(t, fuel) is Some).unwrap()
}

/// More fuel never changes a result that was reached.
pub proof fn lemma_eval_fuel_step(t: SpecTerm, fuel: nat)
    requires
        eval_fuel(t, fuel) is Some,
    ensures
        eval_fuel(t, fuel + 1) == eval_fuel(t, fuel),
    decreases fuel,
{
    let f = (fuel - 1) as nat;
    match t {
        SpecTerm::App(func, arg) => {
            lemma_eval_fuel_step(*func, f);
            lemma_eval_fuel_step(*arg, f);
            let fv = eval_fuel(*func, f).unwrap();
            let av = eval_fuel(*arg, f).unwrap();
            match fv {
                SpecTerm::Lambda(n, _, body) => {
                    lemma_eval_fuel_step(subst(*body, n, av), f);
                },
                _ => {},
            }
        },
        SpecTerm::Add(l, r) => {
            lemma_eval_fuel_step(*l, f);
            lemma_eval_fuel_step(*r, f);
        },
        SpecTerm::Sub(l, r) => {
            lemma_eval_fuel_step(*l, f);
            lemma_eval_fuel_step(*r, f);
        },
        SpecTerm::If(c, a, b) => {
            lemma_eval_fuel_step(*c, f);
            match eval_fuel(*c, f) {
                Some(SpecTerm::Integer(n)) => if n != 0 {
                    lemma_eval_fuel_step(*a, f);
                } else {
                    lemma_eval_fuel_step(*b, f);
                },
                _ => {
                    lemma_eval_fuel_step(*a, f);
                    lemma_eval_fuel_step(*b, f);
                },
            }
        },
        SpecTerm::Let(n, v, b) => {
            lemma_eval_fuel_step(*v, f);
            let vv = eval_fuel(*v, f).unwrap();
            lemma_eval_fuel_step(subst(*b, n, vv), f);
        },
        _ => {},
    }
}

/// A result reached with some fuel is reached with any larger fuel.
pub proof fn lemma_eval_fuel_mono(t: SpecTerm, fuel: nat, more: nat)
    requires
        eval_fuel(t, fuel) is Some,
        fuel <= more,
    ensures
        eval_fuel(t, more) == eval_fuel(t, fuel),
    decreases more - fuel,
{
    if fuel < more {
        lemma_eval_fuel_step(t, fuel);
        lemma_eval_fuel_mono(t, fuel + 1, more);
    }
}

/// Evaluation is deterministic: any two fuels that reach a result reach the
/// same one, which is `eval_result`.
pub proof fn lemma_eval_result(t: SpecTerm, fuel: nat)
    requires
        eval_fuel(t, fuel) is Some,
    ensures
        evaluates(t),
        eval_fuel(t, fuel) == Some(eval_result(t)),
{
    let g = choose|g: nat| #[trigger] eval_fuel(t, g) is Some;
    if fuel <= g {
        lemma_eval_fuel_mono(t, fuel, g);
    } else {
        lemma_eval_fuel_mono(t, g, fuel);
    }
}


/// A result of evaluation evaluates to itself, with the same fuel.
proof fn lemma_eval_fuel_normal(t: SpecTerm, fuel: nat)
    requires
        eval_fuel(t, fuel) is Some,
    ensures
        eval_fuel(eval_fuel(t, fuel).unwrap(), fuel) == eval_fuel(t, fuel),
    decreases fuel,
{
    let f = (fuel - 1) as nat;
    let v = eval_fuel(t, fuel).unwrap();
    match t {
        SpecTerm::App(func, arg) => {
            let fv = eval_fuel(*func, f).unwrap();
            let av = eval_fuel(*arg, f).unwrap();
            match fv {
                SpecTerm::Lambda(n, _, body) => {
                    lemma_eval_fuel_normal(subst(*body, n, av), f);
                    lemma_eval_fuel_step(v, f);
                },
                _ => {
                    lemma_eval_fuel_normal(*func, f);
                    lemma_eval_fuel_normal(*arg, f);
                },
            }
        },
        SpecTerm::Add(l, r) => {
            lemma_eval_fuel_normal(*l, f);
            lemma_eval_fuel_normal(*r, f);
        },
        SpecTerm::Sub(l, r) => {
            lemma_eval_fuel_normal(*l, f);
            lemma_eval_fuel_normal(*r, f);
        },
        SpecTerm::If(c, a, b) => {
            lemma_eval_fuel_normal(*c, f);
            match eval_fuel(*c, f) {
                Some(SpecTerm::Integer(n)) => if n != 0 {
                    lemma_eval_fuel_normal(*a, f);
                    lemma_eval_fuel_step(v, f);
                } else {
                    lemma_eval_fuel_normal(*b, f);
                    lemma_eval_fuel_step(v, f);
                },
                _ => {
                    lemma_eval_fuel_normal(*a, f);
                    lemma_eval_fuel_normal(*b, f);
                },
            }
        },
        SpecTerm::Let(n, val, b) => {
            let vv = eval_fuel(*val, f).unwrap();
            lemma_eval_fuel_normal(subst(*b, n, vv), f);
            lemma_eval_fuel_step(v, f);
        },
        _ => {},
    }
}

/// Evaluation yields a normal form: evaluating the result of an evaluation
/// gives that result back.
pub proof fn law_eval_normal_form(t: SpecTerm)
    requires
        evaluates(t),
    ensures
        evaluates(eval_result(t)),
        eval_result(eval_result(t)) == eval_result(t),
{
    let fuel = choose|fuel: nat| #[trigger] eval_fuel(t, fuel) is Some;
    lemma_eval_result(t, fuel);
    lemma_eval_fuel_normal(t, fuel);
    lemma_eval_result(eval_result(t), fuel);
}

/// Applying the identity function `\x. x` to a term gives the term's value.
pub proof fn law_eval_identity_app(x: Seq<char>, ty: SpecTerm, a: SpecTerm)
    requires
        evaluates(a),
    ensures
        evaluates(SpecTerm::App(Box::new(SpecTerm::Lambda(x, Box::new(ty), Box::new(SpecTerm::Var(x)))), Box::new(a))),
        eval_result(SpecTerm::App(Box::new(SpecTerm::Lambda(x, Box::new(ty), Box::new(SpecTerm::Var(x)))), Box::new(a)))
            == eval_result(a),
{
    let app = SpecTerm::App(Box::new(SpecTerm::Lambda(x, Box::new(ty), Box::new(SpecTerm::Var(x)))), Box::new(a));
    let fuel = choose|fuel: nat| #[trigger] eval_fuel(a, fuel) is Some;
    lemma_eval_result(a, fuel);
    let v = eval_result(a);
    lemma_eval_fuel_normal(a, fuel);
    lemma_eval_fuel_mono(a, fuel, fuel + 1);
    lemma_eval_fuel_mono(v, fuel, fuel + 1);
    let lam = SpecTerm::Lambda(x, Box::new(ty), Box::new(SpecTerm::Var(x)));
    assert(eval_fuel(lam, fuel + 1) == Some(lam));
    assert(eval_fuel(a, fuel + 1) == Some(v));
    assert(eval_fuel(v, fuel + 1) == Some(v));
    assert(subst(SpecTerm::Var(x), x, v) == v);
    assert(eval_fuel(app, fuel + 2) == Some(v));
    lemma_eval_result(app, fuel + 2);
}

/// Holds the evaluation rules.
pub struct Evaluator {}

impl Evaluator {
    /// Creates an evaluator.
    pub fn new() -> (r: Self) {
        Evaluator {}
    }

    /// Evaluates a term to its normal form.
    pub fn eval(&self, term: &Term) -> (r: Term)
        requires
            evaluates(term@),
        ensures
            r@ == eval_result(term@),
    {
        let ghost fuel = choose|fuel: nat| #[trigger] eval_fuel(term@, fuel) is Some;
        self.eval_with(term, Ghost(fuel))
    }

    /// Evaluates with at most `fuel` levels of reduction: the normal form,
    /// or `None` when the fuel runs out or an addition or subtraction of two
    /// integers leaves the range of `i64`.
    pub fn eval_bounded(&self, term: &Term, fuel: u64) -> (r: Option<Term>)
        ensures
            r is Some <==> eval_fuel(term@, fuel as nat) is Some,
            r is Some ==> eval_fuel(term@, fuel as nat) == Some(r->Some_0@),
        decreases fuel,
    {
        if fuel == 0 {
            return None;
        }
        let f = fuel - 1;
        match term {
            Term::App(func, arg) => {
                let fv = match self.eval_bounded(func, f) {
                    Some(v) => v,
                    None => return None,
                };
                let av = match self.eval_bounded(arg, f) {
                    Some(v) => v,
                    None => return None,
                };
                match fv {
                    Term::Lambda(name, _ty, body) => {
                        let substituted = self.substitute(&body, name.as_str(), &av);
                        self.eval_bounded(&substituted, f)
                    },
                    other => Some(Term::App(Box::new(other), Box::new(av))),
                }
            },
            Term::Add(l, r) => {
                let lv = match self.eval_bounded(l, f) {
                    Some(v) => v,
                    None => return None,
                };
                let rv = match self.eval_bounded(r, f) {
                    Some(v) => v,
                    None => return None,
                };
                match (&lv, &rv) {
                    (Term::Integer(a), Term::Integer(b)) => match a.checked_add(*b) {
                        Some(n) => Some(Term::Integer(n)),
                        None => None,
                    },
                    _ => Some(Term::Add(Box::new(lv), Box::new(rv))),
                }
            },
            Term::Sub(l, r) => {
                let lv = match self.eval_bounded(l, f) {
                    Some(v) => v,
                    None => return None,
                };
                let rv = match self.eval_bounded(r, f) {
                    Some(v) => v,
                    None => return None,
                };
                match (&lv, &rv) {
                    (Term::Integer(a), Term::Integer(b)) => match a.checked_sub(*b) {
                        Some(n) => Some(Term::Integer(n)),
                        None => None,
                    },
                    _ => Some(Term::Sub(Box::new(lv), Box::new(rv))),
                }
            },
            Term::If(c, t, e) => {
                let cv = match self.eval_bounded(c, f) {
                    Some(v) => v,
                    None => return None,
                };
                match cv {
                    Term::Integer(n) => if n != 0 {
                        self.eval_bounded(t, f)
                    } else {
                        self.eval_bounded(e, f)
                    },
                    _ => {
                        let tv = match self.eval_bounded(t, f) {
                            Some(v) => v,
                            None => return None,
                        };
                        let ev = match self.eval_bounded(e, f) {
                            Some(v) => v,
                            None => return None,
                        };
                        Some(Term::If(Box::new(cv), Box::new(tv), Box::new(ev)))
                    },
                }
            },
            Term::Let(n, v, b) => {
                let vv = match self.eval_bounded(v, f) {
                    Some(v) => v,
                    None => return None,
                };
                let substituted = self.substitute(b, n.as_str(), &vv);
                self.eval_bounded(&substituted, f)
            },
            _ => Some(term.copy()),
        }
    }

    /// Evaluates with the given bound on the depth of reduction.
    fn eval_with(&self, term: &Term, Ghost(fuel): Ghost<nat>) -> (r: Term)
        requires
            eval_fuel(term@, fuel) is Some,
        ensures
            eval_fuel(term@, fuel) == Some(r@),
        decreases fuel,
    {
        let ghost f = (fuel - 1) as nat;
        match term {
            Term::App(func, arg) => {
                let fv = self.eval_with(func, Ghost(f));
                let av = self.eval_with(arg, Ghost(f));
                match fv {
                    Term::Lambda(name, _ty, body) => {
                        let substituted = self.substitute(&body, name.as_str(), &av);
                        self.eval_with(&substituted, Ghost(f))
                    },
                    other => Term::App(Box::new(other), Box::new(av)),
                }
            },
            Term::Add(l, r) => {
                let lv = self.eval_with(l, Ghost(f));
                let rv = self.eval_with(r, Ghost(f));
                match (&lv, &rv) {
                    (Term::Integer(a), Term::Integer(b)) => Term::Integer(*a + *b),
                    _ => Term::Add(Box::new(lv), Box::new(rv)),
                }
            },
            Term::Sub(l, r) => {
                let lv = self.eval_with(l, Ghost(f));
                let rv = self.eval_with(r, Ghost(f));
                match (&lv, &rv) {
                    (Term::Integer(a), Term::Integer(b)) => Term::Integer(*a - *b),
                    _ => Term::Sub(Box::new(lv), Box::new(rv)),
                }
            },
            Term::If(c, t, e) => {
                let cv = self.eval_with(c, Ghost(f));
                match cv {
                    Term::Integer(n) => if n != 0 {
                        self.eval_with(t, Ghost(f))
                    } else {
                        self.eval_with(e, Ghost(f))
                    },
                    _ => {
                        let tv = self.eval_with(t, Ghost(f));
                        let ev = self.eval_with(e, Ghost(f));
                        Term::If(Box::new(cv), Box::new(tv), Box::new(ev))
                    },
                }
            },
            Term::Let(n, v, b) => {
                let vv = self.eval_with(v, Ghost(f));
                let substituted = self.substitute(b, n.as_str(), &vv);
                self.eval_with(&substituted, Ghost(f))
            },
            _ => term.copy(),
        }
    }

    /// Performs capture-avoiding substitution: `replacement` for the free
    /// uses of `name` in `body`, with the binders of `body` that would
    /// capture a free variable of `replacement` renamed to fresh names.
    pub fn substitute(&self, body: &Term, name: &str, replacement: &Term) -> (r: Term)
        ensures
            r@ == subst(body@, name@, replacement@),
    {
        let bindings = vec![(name.to_owned(), replacement.copy())];
        proof {
            assert(bindings_view(bindings@) =~= seq![(name@, replacement@)]);
        }
        subst_with(body, &bindings)
    }

    /// Computes the Ackermann function; with `m` zero it is `n + 1` for any
    /// `n`.
    pub fn eval_ackermann(&self, m: i64, n: i64) -> (r: i64)
        requires
            m >= 0,
            m == 0 && n < i64::MAX || n >= 0 && ack(m as nat, n as nat) <= i64::MAX,
        ensures
            m == 0 ==> r == n + 1,
            n >= 0 ==> r == ack(m as nat, n as nat),
        decreases m, n,
    {
        if m == 0 {
            n + 1
        } else if n == 0 {
            self.eval_ackermann(m - 1, 1)
        } else {
            proof {
                lemma_ack_gt((m - 1) as nat, ack(m as nat, (n - 1) as nat));
            }
            let inner = self.eval_ackermann(m, n - 1);
            self.eval_ackermann(m - 1, inner)
        }
    }
}

} // verus!
