//! The abstract syntax of the language: terms, constructors of data types
//! and algebraic data type definitions.
use vstd::prelude::*;
use crate::multiplicity::Multiplicity;

verus! {

/// A term of the language. Sub-terms are owned, so a term is a finite tree.
///
/// A floating-point literal is kept as the decimal text it was written with.
#[derive(Debug)]
pub enum Term {
    /// A variable reference.
    Var(String),
    /// A lambda abstraction: binder, binder type, body.
    Lambda(String, Box<Term>, Box<Term>),
    /// An application of a function to an argument.
    App(Box<Term>, Box<Term>),
    /// A dependent function type: binder, multiplicity, domain, codomain.
    Pi(String, Multiplicity, Box<Term>, Box<Term>),
    /// A universe level.
    Universe(usize),
    /// An integer constant.
    Integer(i64),
    /// A floating-point literal, as written in the source.
    Float(String),
    /// A string literal.
    String(String),
    /// A character literal.
    Char(char),
    IntegerType,
    FloatType,
    StringType,
    CharType,
    I32Type,
    I8Type,
    Bits64Type,
    IOType,
    TypeType,
    Add(Box<Term>, Box<Term>),
    Sub(Box<Term>, Box<Term>),
    Mul(Box<Term>, Box<Term>),
    Div(Box<Term>, Box<Term>),
    Append(Box<Term>, Box<Term>),
    BitXor(Box<Term>, Box<Term>),
    BitAnd(Box<Term>, Box<Term>),
    BitOr(Box<Term>, Box<Term>),
    BitNot(Box<Term>),
    Shl(Box<Term>, Box<Term>),
    Shr(Box<Term>, Box<Term>),
    Eq(Box<Term>, Box<Term>),
    Lt(Box<Term>, Box<Term>),
    Gt(Box<Term>, Box<Term>),
    /// A conditional: condition, then branch, else branch.
    If(Box<Term>, Box<Term>, Box<Term>),
    /// A let binding: name, bound value, body.
    Let(String, Box<Term>, Box<Term>),
    /// A recursive binding: name, bound value, body.
    LetRec(String, Box<Term>, Box<Term>),
    /// Pattern matching: scrutinee and branches (pattern, pattern arguments, body).
    Case(Box<Term>, Vec<(String, Vec<String>, Box<Term>)>),
    /// A do block.
    Do(Vec<Term>),
    /// A bind statement inside a do block: name, action.
    Bind(String, Box<Term>),
    Module(String),
    Import(String),
    /// A data type: name, parameters, constructors.
    Data(String, Vec<String>, Vec<Constructor>),
    /// An interface: name, parameters, methods.
    Interface(String, Vec<String>, Vec<Term>),
    /// An implementation: interface, target, members.
    Implementation(String, String, Vec<Term>),
    /// A record: name and fields.
    Record(String, Vec<(String, Box<Term>)>),
    /// A mutual block.
    Mutual(Vec<Term>),
    /// A term with local definitions attached.
    Where(Box<Term>, Vec<Term>),
    /// A top-level definition: name, argument names, body.
    Def(String, Vec<String>, Box<Term>),
    /// A fixed-size buffer of 64-bit words.
    Buffer(usize),
    /// A load from a buffer: buffer, index.
    BufferLoad(Box<Term>, Box<Term>),
    /// A store into a buffer: buffer, index, value.
    BufferStore(Box<Term>, Box<Term>, Box<Term>),
}

/// A constructor of a data type definition.
#[derive(Debug)]
pub struct Constructor {
    pub name: String,
    pub fields: Vec<Box<Term>>,
}

/// An algebraic data type definition.
#[derive(Debug)]
pub struct AdtDefinition {
    pub name: String,
    pub params: Vec<String>,
    pub constructors: Vec<(String, Vec<Box<Term>>)>,
}


/// The mathematical model of a term: strings are character sequences and
/// lists are sequences.
pub enum SpecTerm {
    Var(Seq<char>),
    Lambda(Seq<char>, Box<SpecTerm>, Box<SpecTerm>),
    App(Box<SpecTerm>, Box<SpecTerm>),
    Pi(Seq<char>, Multiplicity, Box<SpecTerm>, Box<SpecTerm>),
    Universe(usize),
    Integer(i64),
    Float(Seq<char>),
    String(Seq<char>),
    Char(char),
    IntegerType,
    FloatType,
    StringType,
    CharType,
    I32Type,
    I8Type,
    Bits64Type,
    IOType,
    TypeType,
    Add(Box<SpecTerm>, Box<SpecTerm>),
    Sub(Box<SpecTerm>, Box<SpecTerm>),
    Mul(Box<SpecTerm>, Box<SpecTerm>),
    Div(Box<SpecTerm>, Box<SpecTerm>),
    Append(Box<SpecTerm>, Box<SpecTerm>),
    BitXor(Box<SpecTerm>, Box<SpecTerm>),
    BitAnd(Box<SpecTerm>, Box<SpecTerm>),
    BitOr(Box<SpecTerm>, Box<SpecTerm>),
    BitNot(Box<SpecTerm>),
    Shl(Box<SpecTerm>, Box<SpecTerm>),
    Shr(Box<SpecTerm>, Box<SpecTerm>),
    Eq(Box<SpecTerm>, Box<SpecTerm>),
    Lt(Box<SpecTerm>, Box<SpecTerm>),
    Gt(Box<SpecTerm>, Box<SpecTerm>),
    If(Box<SpecTerm>, Box<SpecTerm>, Box<SpecTerm>),
    Let(Seq<char>, Box<SpecTerm>, Box<SpecTerm>),
    LetRec(Seq<char>, Box<SpecTerm>, Box<SpecTerm>),
    Case(Box<SpecTerm>, Seq<SpecBranch>),
    Do(Seq<SpecTerm>),
    Bind(Seq<char>, Box<SpecTerm>),
    Module(Seq<char>),
    Import(Seq<char>),
    Data(Seq<char>, Seq<Seq<char>>, Seq<SpecConstructor>),
    Interface(Seq<char>, Seq<Seq<char>>, Seq<SpecTerm>),
    Implementation(Seq<char>, Seq<char>, Seq<SpecTerm>),
    Record(Seq<char>, Seq<(Seq<char>, SpecTerm)>),
    Mutual(Seq<SpecTerm>),
    Where(Box<SpecTerm>, Seq<SpecTerm>),
    Def(Seq<char>, Seq<Seq<char>>, Box<SpecTerm>),
    Buffer(usize),
    BufferLoad(Box<SpecTerm>, Box<SpecTerm>),
    BufferStore(Box<SpecTerm>, Box<SpecTerm>, Box<SpecTerm>),
}

/// The model of a case branch: pattern name, pattern arguments, body.
pub struct SpecBranch {
    pub pattern: Seq<char>,
    pub args: Seq<Seq<char>>,
    pub body: SpecTerm,
}

/// The model of a data constructor.
pub struct SpecConstructor {
    pub name: Seq<char>,
    pub fields: Seq<SpecTerm>,
}

/// The character sequences of a list of names.
pub open spec fn names_view(names: Seq<String>) -> Seq<Seq<char>> {
    names.map_values(|n: String| n@)
}

/// The models of a sequence of terms.
pub open spec fn terms_view(ts: Seq<Term>) -> Seq<SpecTerm>
    decreases ts,
{
    if ts.len() == 0 {
        Seq::empty()
    } else {
        terms_view(ts.drop_last()).push(term_view(ts.last()))
    }
}

/// The models of a sequence of case branches.
pub open spec fn branches_view(bs: Seq<(String, Vec<String>, Box<Term>)>) -> Seq<SpecBranch>
    decreases bs,
{
    if bs.len() == 0 {
        Seq::empty()
    } else {
        let b = bs.last();
        branches_view(bs.drop_last()).push(
            SpecBranch { pattern: b.0@, args: names_view(b.1@), body: term_view(*b.2) },
        )
    }
}

/// The models of a sequence of boxed terms.
pub open spec fn boxed_view(ts: Seq<Box<Term>>) -> Seq<SpecTerm>
    decreases ts,
{
    if ts.len() == 0 {
        Seq::empty()
    } else {
        boxed_view(ts.drop_last()).push(term_view(*ts.last()))
    }
}

/// The models of a sequence of constructors.
pub open spec fn constructors_view(cs: Seq<Constructor>) -> Seq<SpecConstructor>
    decreases cs,
{
    if cs.len() == 0 {
        Seq::empty()
    } else {
        let c = cs.last();
        constructors_view(cs.drop_last()).push(
            SpecConstructor { name: c.name@, fields: boxed_view(c.fields@) },
        )
    }
}

/// The models of a sequence of record fields.
pub open spec fn fields_view(fs: Seq<(String, Box<Term>)>) -> Seq<(Seq<char>, SpecTerm)>
    decreases fs,
{
    if fs.len() == 0 {
        Seq::empty()
    } else {
        let f = fs.last();
        fields_view(fs.drop_last()).push((f.0@, term_view(*f.1)))
    }
}

/// The model of a term.
pub open spec fn term_view(t: Term) -> SpecTerm
    decreases t,
{
    match t {
        Term::Var(s) => SpecTerm::Var(s@),
        Term::Lambda(n, a, b) => SpecTerm::Lambda(n@, Box::new(term_view(*a)), Box::new(term_view(*b))),
        Term::App(a, b) => SpecTerm::App(Box::new(term_view(*a)), Box::new(term_view(*b))),
        Term::Pi(n, q, a, b) => SpecTerm::Pi(n@, q, Box::new(term_view(*a)), Box::new(term_view(*b))),
        Term::Universe(u) => SpecTerm::Universe(u),
        Term::Integer(i) => SpecTerm::Integer(i),
        Term::Float(s) => SpecTerm::Float(s@),
        Term::String(s) => SpecTerm::String(s@),
        Term::Char(c) => SpecTerm::Char(c),
        Term::IntegerType => SpecTerm::IntegerType,
        Term::FloatType => SpecTerm::FloatType,
        Term::StringType => SpecTerm::StringType,
        Term::CharType => SpecTerm::CharType,
        Term::I32Type => SpecTerm::I32Type,
        Term::I8Type => SpecTerm::I8Type,
        Term::Bits64Type => SpecTerm::Bits64Type,
        Term::IOType => SpecTerm::IOType,
        Term::TypeType => SpecTerm::TypeType,
        Term::Add(a, b) => SpecTerm::Add(Box::new(term_view(*a)), Box::new(term_view(*b))),
        Term::Sub(a, b) => SpecTerm::Sub(Box::new(term_view(*a)), Box::new(term_view(*b))),
        Term::Mul(a, b) => SpecTerm::Mul(Box::new(term_view(*a)), Box::new(term_view(*b))),
        Term::Div(a, b) => SpecTerm::Div(Box::new(term_view(*a)), Box::new(term_view(*b))),
        Term::Append(a, b) => SpecTerm::Append(Box::new(term_view(*a)), Box::new(term_view(*b))),
        Term::BitXor(a, b) => SpecTerm::BitXor(Box::new(term_view(*a)), Box::new(term_view(*b))),
        Term::BitAnd(a, b) => SpecTerm::BitAnd(Box::new(term_view(*a)), Box::new(term_view(*b))),
        Term::BitOr(a, b) => SpecTerm::BitOr(Box::new(term_view(*a)), Box::new(term_view(*b))),
        Term::BitNot(a) => SpecTerm::BitNot(Box::new(term_view(*a))),
        Term::Shl(a, b) => SpecTerm::Shl(Box::new(term_view(*a)), Box::new(term_view(*b))),
        Term::Shr(a, b) => SpecTerm::Shr(Box::new(term_view(*a)), Box::new(term_view(*b))),
        Term::Eq(a, b) => SpecTerm::Eq(Box::new(term_view(*a)), Box::new(term_view(*b))),
        Term::Lt(a, b) => SpecTerm::Lt(Box::new(term_view(*a)), Box::new(term_view(*b))),
        Term::Gt(a, b) => SpecTerm::Gt(Box::new(term_view(*a)), Box::new(term_view(*b))),
        Term::If(c, a, b) => SpecTerm::If(
            Box::new(term_view(*c)),
            Box::new(term_view(*a)),
            Box::new(term_view(*b)),
        ),
        Term::Let(n, a, b) => SpecTerm::Let(n@, Box::new(term_view(*a)), Box::new(term_view(*b))),
        Term::LetRec(n, a, b) => SpecTerm::LetRec(n@, Box::new(term_view(*a)), Box::new(term_view(*b))),
        Term::Case(a, bs) => SpecTerm::Case(Box::new(term_view(*a)), branches_view(bs@)),
        Term::Do(ts) => SpecTerm::Do(terms_view(ts@)),
        Term::Bind(n, a) => SpecTerm::Bind(n@, Box::new(term_view(*a))),
        Term::Module(s) => SpecTerm::Module(s@),
        Term::Import(s) => SpecTerm::Import(s@),
        Term::Data(n, ps, cs) => SpecTerm::Data(n@, names_view(ps@), constructors_view(cs@)),
        Term::Interface(n, ps, ms) => SpecTerm::Interface(n@, names_view(ps@), terms_view(ms@)),
        Term::Implementation(i, t, ms) => SpecTerm::Implementation(i@, t@, terms_view(ms@)),
        Term::Record(n, fs) => SpecTerm::Record(n@, fields_view(fs@)),
        Term::Mutual(ts) => SpecTerm::Mutual(terms_view(ts@)),
        Term::Where(a, ds) => SpecTerm::Where(Box::new(term_view(*a)), terms_view(ds@)),
        Term::Def(n, args, b) => SpecTerm::Def(n@, names_view(args@), Box::new(term_view(*b))),
        Term::Buffer(s) => SpecTerm::Buffer(s),
        Term::BufferLoad(a, b) => SpecTerm::BufferLoad(Box::new(term_view(*a)), Box::new(term_view(*b))),
        Term::BufferStore(a, b, c) => SpecTerm::BufferStore(
            Box::new(term_view(*a)),
            Box::new(term_view(*b)),
            Box::new(term_view(*c)),
        ),
    }
}

impl View for Term {
    type V = SpecTerm;

    open spec fn view(&self) -> SpecTerm {
        term_view(*self)
    }
}


/// The model of a sequence of terms has one model per term.
pub proof fn lemma_terms_view_len(ts: Seq<Term>)
    ensures
        terms_view(ts).len() == ts.len(),
    decreases ts.len(),
{
    if ts.len() > 0 {
        lemma_terms_view_len(ts.drop_last());
    }
}

/// Taking a prefix commutes with taking models.
pub proof fn lemma_terms_view_take(ts: Seq<Term>, i: int)
    requires
        0 <= i <= ts.len(),
    ensures
        terms_view(ts.take(i)) == terms_view(ts).take(i),
    decreases ts.len(),
{
    lemma_terms_view_len(ts);
    if i == ts.len() {
        assert(ts.take(i) =~= ts);
        assert(terms_view(ts).take(i) =~= terms_view(ts));
    } else {
        lemma_terms_view_take(ts.drop_last(), i);
        assert(ts.drop_last().take(i) =~= ts.take(i));
        lemma_terms_view_len(ts.drop_last());
        assert(terms_view(ts).take(i) =~= terms_view(ts.drop_last()).take(i));
    }
}

/// The model of a sequence of branches has one model per branch.
pub proof fn lemma_branches_view_len(bs: Seq<(String, Vec<String>, Box<Term>)>)
    ensures
        branches_view(bs).len() == bs.len(),
    decreases bs.len(),
{
    if bs.len() > 0 {
        lemma_branches_view_len(bs.drop_last());
    }
}

/// Taking a prefix commutes with taking models.
pub proof fn lemma_branches_view_take(bs: Seq<(String, Vec<String>, Box<Term>)>, i: int)
    requires
        0 <= i <= bs.len(),
    ensures
        branches_view(bs.take(i)) == branches_view(bs).take(i),
    decreases bs.len(),
{
    lemma_branches_view_len(bs);
    if i == bs.len() {
        assert(bs.take(i) =~= bs);
        assert(branches_view(bs).take(i) =~= branches_view(bs));
    } else {
        lemma_branches_view_take(bs.drop_last(), i);
        assert(bs.drop_last().take(i) =~= bs.take(i));
        lemma_branches_view_len(bs.drop_last());
        assert(branches_view(bs).take(i) =~= branches_view(bs.drop_last()).take(i));
    }
}


/// The model of a term list holds, at each position, the model of the term
/// there.
pub proof fn lemma_terms_view_index(ts: Seq<Term>, i: int)
    requires
        0 <= i < ts.len(),
    ensures
        terms_view(ts).len() == ts.len(),
        terms_view(ts)[i] == term_view(ts[i]),
{
    lemma_terms_view_len(ts);
    lemma_terms_view_step(ts, i);
    lemma_terms_view_take(ts, i + 1);
    lemma_terms_view_take(ts, i);
    lemma_terms_view_len(ts.take(i));
    assert(terms_view(ts).take(i + 1)[i] == terms_view(ts)[i]);
}

/// Extending a prefix by one term extends its model by that term's model.
pub proof fn lemma_terms_view_step(ts: Seq<Term>, i: int)
    requires
        0 <= i < ts.len(),
    ensures
        terms_view(ts.take(i + 1)) == terms_view(ts.take(i)).push(term_view(ts[i])),
{
    assert(ts.take(i + 1).drop_last() =~= ts.take(i));
    assert(ts.take(i + 1).last() == ts[i]);
}

/// Extending a prefix by one branch extends its model by that branch's model.
pub proof fn lemma_branches_view_step(bs: Seq<(String, Vec<String>, Box<Term>)>, i: int)
    requires
        0 <= i < bs.len(),
    ensures
        branches_view(bs.take(i + 1)) == branches_view(bs.take(i)).push(
            SpecBranch { pattern: bs[i].0@, args: names_view(bs[i].1@), body: term_view(*bs[i].2) },
        ),
{
    assert(bs.take(i + 1).drop_last() =~= bs.take(i));
    assert(bs.take(i + 1).last() == bs[i]);
}

/// The model of a branch list holds, at each position, the model of the
/// branch there.
pub proof fn lemma_branches_view_index(bs: Seq<(String, Vec<String>, Box<Term>)>, i: int)
    requires
        0 <= i < bs.len(),
    ensures
        branches_view(bs).len() == bs.len(),
        branches_view(bs)[i] == (SpecBranch { pattern: bs[i].0@, args: names_view(bs[i].1@), body: term_view(*bs[i].2) }),
{
    lemma_branches_view_len(bs);
    lemma_branches_view_step(bs, i);
    lemma_branches_view_take(bs, i + 1);
    lemma_branches_view_take(bs, i);
    lemma_branches_view_len(bs.take(i));
    assert(branches_view(bs).take(i + 1)[i] == branches_view(bs)[i]);
}

/// Copies a list of names.
pub fn copy_names(names: &Vec<String>) -> (r: Vec<String>)
    ensures
        r@ == names@,
        names_view(r@) == names_view(names@),
{
    let mut r: Vec<String> = Vec::new();
    let mut i: usize = 0;
    while i < names.len()
        invariant
            i <= names.len(),
            r@ == names@.take(i as int),
        decreases names.len() - i,
    {
        r.push(names[i].clone());
        proof {
            assert(names@.take(i + 1) =~= names@.take(i as int).push(names@[i as int]));
        }
        i += 1;
    }
    proof {
        assert(names@.take(names@.len() as int) =~= names@);
    }
    r
}

impl Term {
    /// Returns a copy of this term that is equal to it.
    #[verifier::loop_isolation(false)]
    #[verifier::rlimit(50)]
    pub fn copy(&self) -> (r: Term)
        ensures
            r@ == self@,
        decreases self,
    {
        match self {
            Term::Var(s) => Term::Var(s.clone()),
            Term::Lambda(n, a, b) => Term::Lambda(n.clone(), Box::new(a.copy()), Box::new(b.copy())),
            Term::App(a, b) => Term::App(Box::new(a.copy()), Box::new(b.copy())),
            Term::Pi(n, q, a, b) => Term::Pi(n.clone(), *q, Box::new(a.copy()), Box::new(b.copy())),
            Term::Universe(u) => Term::Universe(*u),
            Term::Integer(i) => Term::Integer(*i),
            Term::Float(s) => Term::Float(s.clone()),
            Term::String(s) => Term::String(s.clone()),
            Term::Char(c) => Term::Char(*c),
            Term::IntegerType => Term::IntegerType,
            Term::FloatType => Term::FloatType,
            Term::StringType => Term::StringType,
            Term::CharType => Term::CharType,
            Term::I32Type => Term::I32Type,
            Term::I8Type => Term::I8Type,
            Term::Bits64Type => Term::Bits64Type,
            Term::IOType => Term::IOType,
            Term::TypeType => Term::TypeType,
            Term::Add(a, b) => Term::Add(Box::new(a.copy()), Box::new(b.copy())),
            Term::Sub(a, b) => Term::Sub(Box::new(a.copy()), Box::new(b.copy())),
            Term::Mul(a, b) => Term::Mul(Box::new(a.copy()), Box::new(b.copy())),
            Term::Div(a, b) => Term::Div(Box::new(a.copy()), Box::new(b.copy())),
            Term::Append(a, b) => Term::Append(Box::new(a.copy()), Box::new(b.copy())),
            Term::BitXor(a, b) => Term::BitXor(Box::new(a.copy()), Box::new(b.copy())),
            Term::BitAnd(a, b) => Term::BitAnd(Box::new(a.copy()), Box::new(b.copy())),
            Term::BitOr(a, b) => Term::BitOr(Box::new(a.copy()), Box::new(b.copy())),
            Term::BitNot(a) => Term::BitNot(Box::new(a.copy())),
            Term::Shl(a, b) => Term::Shl(Box::new(a.copy()), Box::new(b.copy())),
            Term::Shr(a, b) => Term::Shr(Box::new(a.copy()), Box::new(b.copy())),
            Term::Eq(a, b) => Term::Eq(Box::new(a.copy()), Box::new(b.copy())),
            Term::Lt(a, b) => Term::Lt(Box::new(a.copy()), Box::new(b.copy())),
            Term::Gt(a, b) => Term::Gt(Box::new(a.copy()), Box::new(b.copy())),
            Term::If(c, t, e) => Term::If(Box::new(c.copy()), Box::new(t.copy()), Box::new(e.copy())),
            Term::Let(n, a, b) => Term::Let(n.clone(), Box::new(a.copy()), Box::new(b.copy())),
            Term::LetRec(n, a, b) => Term::LetRec(n.clone(), Box::new(a.copy()), Box::new(b.copy())),
            Term::Case(t, bs) => {
                let t2 = t.copy();
                let mut nbs: Vec<(String, Vec<String>, Box<Term>)> = Vec::new();
                let mut i: usize = 0;
                while i < bs.len()
                    invariant
                        i <= bs.len(),
                        branches_view(nbs@) == branches_view(bs@.take(i as int)),
                    decreases bs.len() - i,
                {
                    let b = &bs[i];
                    proof {
                        assert(decreases_to!(self => *bs));
                        assert(decreases_to!(*bs => bs@));
                        assert(decreases_to!(bs@ => bs@[i as int]));
                        assert(decreases_to!(bs@[i as int] => bs@[i as int].2));
                    }
                    let body = b.2.copy();
                    let ghost old_nbs = nbs@;
                    nbs.push((b.0.clone(), copy_names(&b.1), Box::new(body)));
                    proof {
                        assert(bs@.take(i + 1).drop_last() =~= bs@.take(i as int));
                        assert(nbs@.drop_last() =~= old_nbs);
                    }
                    i += 1;
                }
                proof {
                    assert(bs@.take(bs@.len() as int) =~= bs@);
                }
                Term::Case(Box::new(t2), nbs)
            },
            Term::Do(ts) => Term::Do(copy_terms(ts)),
            Term::Bind(n, a) => Term::Bind(n.clone(), Box::new(a.copy())),
            Term::Module(s) => Term::Module(s.clone()),
            Term::Import(s) => Term::Import(s.clone()),
            Term::Data(n, ps, cs) => {
                let mut ncs: Vec<Constructor> = Vec::new();
                let mut i: usize = 0;
                while i < cs.len()
                    invariant
                        i <= cs.len(),
                        constructors_view(ncs@) == constructors_view(cs@.take(i as int)),
                    decreases cs.len() - i,
                {
                    let c = &cs[i];
                    let mut fields: Vec<Box<Term>> = Vec::new();
                    let mut j: usize = 0;
                    while j < c.fields.len()
                        invariant
                            j <= c.fields.len(),
                            boxed_view(fields@) == boxed_view(c.fields@.take(j as int)),
                        decreases c.fields.len() - j,
                    {
                        proof {
                            assert(decreases_to!(self => *cs));
                            assert(decreases_to!(*cs => cs@));
                            assert(decreases_to!(cs@ => cs@[i as int]));
                            assert(decreases_to!(cs@[i as int] => cs@[i as int].fields));
                            assert(decreases_to!(cs@[i as int].fields => cs@[i as int].fields@));
                            assert(decreases_to!(cs@[i as int].fields@ => cs@[i as int].fields@[j as int]));
                        }
                        let f = c.fields[j].copy();
                        let ghost old_fields = fields@;
                        fields.push(Box::new(f));
                        proof {
                            assert(c.fields@.take(j + 1).drop_last() =~= c.fields@.take(j as int));
                            assert(fields@.drop_last() =~= old_fields);
                        }
                        j += 1;
                    }
                    proof {
                        assert(c.fields@.take(c.fields@.len() as int) =~= c.fields@);
                    }
                    let ghost old_ncs = ncs@;
                    ncs.push(Constructor { name: c.name.clone(), fields });
                    proof {
                        assert(cs@.take(i + 1).drop_last() =~= cs@.take(i as int));
                        assert(ncs@.drop_last() =~= old_ncs);
                    }
                    i += 1;
                }
                proof {
                    assert(cs@.take(cs@.len() as int) =~= cs@);
                }
                Term::Data(n.clone(), copy_names(ps), ncs)
            },
            Term::Interface(n, ps, ms) => Term::Interface(n.clone(), copy_names(ps), copy_terms(ms)),
            Term::Implementation(i, t, ms) => Term::Implementation(i.clone(), t.clone(), copy_terms(ms)),
            Term::Record(n, fs) => {
                let mut nfs: Vec<(String, Box<Term>)> = Vec::new();
                let mut i: usize = 0;
                while i < fs.len()
                    invariant
                        i <= fs.len(),
                        fields_view(nfs@) == fields_view(fs@.take(i as int)),
                    decreases fs.len() - i,
                {
                    proof {
                        assert(decreases_to!(self => *fs));
                        assert(decreases_to!(*fs => fs@));
                        assert(decreases_to!(fs@ => fs@[i as int]));
                        assert(decreases_to!(fs@[i as int] => fs@[i as int].1));
                    }
                    let f = fs[i].1.copy();
                    let ghost old_nfs = nfs@;
                    nfs.push((fs[i].0.clone(), Box::new(f)));
                    proof {
                        assert(fs@.take(i + 1).drop_last() =~= fs@.take(i as int));
                        assert(nfs@.drop_last() =~= old_nfs);
                    }
                    i += 1;
                }
                proof {
                    assert(fs@.take(fs@.len() as int) =~= fs@);
                }
                Term::Record(n.clone(), nfs)
            },
            Term::Mutual(ts) => Term::Mutual(copy_terms(ts)),
            Term::Where(t, ds) => Term::Where(Box::new(t.copy()), copy_terms(ds)),
            Term::Def(n, args, b) => Term::Def(n.clone(), copy_names(args), Box::new(b.copy())),
            Term::Buffer(s) => Term::Buffer(*s),
            Term::BufferLoad(a, b) => Term::BufferLoad(Box::new(a.copy()), Box::new(b.copy())),
            Term::BufferStore(a, b, c) => Term::BufferStore(Box::new(a.copy()), Box::new(b.copy()), Box::new(c.copy())),
        }
    }
}

/// Copies a list of terms.
pub fn copy_terms(ts: &Vec<Term>) -> (r: Vec<Term>)
    ensures
        terms_view(r@) == terms_view(ts@),
    decreases ts,
{
    let mut r: Vec<Term> = Vec::new();
    let mut i: usize = 0;
    while i < ts.len()
        invariant
            i <= ts.len(),
            terms_view(r@) == terms_view(ts@.take(i as int)),
        decreases ts.len() - i,
    {
        proof {
            assert(decreases_to!(ts => ts@[i as int]));
        }
        let c = ts[i].copy();
        let ghost old_r = r@;
        r.push(c);
        proof {
            assert(ts@.take(i + 1).drop_last() =~= ts@.take(i as int));
            assert(r@.drop_last() =~= old_r);
        }
        i += 1;
    }
    proof {
        assert(ts@.take(ts@.len() as int) =~= ts@);
    }
    r
}

} // verus!
