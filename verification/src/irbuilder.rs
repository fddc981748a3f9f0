//! Lowering of terms to LLVM-style instructions: each operation gets a
//! fresh register, conditionals get labelled blocks joined by a phi node,
//! and applications become calls of global functions.
use vstd::prelude::*;
use crate::chars::{chars_of, int_text, is_digit, nat_digits, u64_to_text, usize_to_text, i64_to_text};
use crate::term::{SpecBranch, SpecTerm, Term, branches_view, lemma_branches_view_index, lemma_branches_view_len};
use crate::text::str_eq;

verus! {

/// The map that a list of bindings denotes: a later binding of a name
/// replaces an earlier one.
pub open spec fn env_map(s: Seq<(String, String)>) -> Map<Seq<char>, Seq<char>>
    decreases s.len(),
{
    if s.len() == 0 {
        Map::empty()
    } else {
        env_map(s.drop_last()).insert(s.last().0@, s.last().1@)
    }
}

/// Bindings of names to the registers or values that hold them.
pub struct Env {
    entries: Vec<(String, String)>,
}

impl View for Env {
    type V = Map<Seq<char>, Seq<char>>;

    closed spec fn view(&self) -> Map<Seq<char>, Seq<char>> {
        env_map(self.entries@)
    }
}

impl Env {
    /// An empty environment.
    pub fn new() -> (r: Self)
        ensures
            r@ == Map::<Seq<char>, Seq<char>>::empty(),
    {
        Env { entries: Vec::new() }
    }

    /// Binds `key` to `value`, replacing any binding of `key`.
    pub fn insert(&mut self, key: String, value: String)
        ensures
            final(self)@ == old(self)@.insert(key@, value@),
    {
        let ghost old_entries = self.entries@;
        self.entries.push((key, value));
        proof {
            assert(self.entries@.drop_last() =~= old_entries);
        }
    }

    /// The value bound to `key`, if there is one.
    pub fn get(&self, key: &str) -> (r: Option<&String>)
        ensures
            r is Some <==> self@.contains_key(key@),
            r is Some ==> r->Some_0@ == self@[key@],
    {
        let mut j: usize = self.entries.len();
        proof {
            assert(self.entries@.take(self.entries@.len() as int) =~= self.entries@);
        }
        while j > 0
            invariant
                j <= self.entries@.len(),
                env_map(self.entries@).contains_key(key@) == env_map(self.entries@.take(j as int)).contains_key(key@),
                env_map(self.entries@).contains_key(key@) ==> env_map(self.entries@)[key@]
                    == env_map(self.entries@.take(j as int))[key@],
            decreases j,
        {
            proof {
                assert(self.entries@.take(j as int).drop_last() =~= self.entries@.take(j - 1));
            }
            if str_eq(self.entries[j - 1].0.as_str(), key) {
                return Some(&self.entries[j - 1].1);
            }
            j = j - 1;
        }
        proof {
            assert(self.entries@.take(0) =~= Seq::<(String, String)>::empty());
        }
        None
    }
}

/// The state of lowering: the instructions so far, the next register
/// number, the next label number and the current block.
pub struct IrState {
    pub instrs: Seq<Seq<char>>,
    pub next_reg: nat,
    pub labels: nat,
    pub block: Seq<char>,
}

/// The register numbered `n`.
pub open spec fn reg_name(n: nat) -> Seq<char> {
    "%"@ + nat_digits(n)
}

/// The label numbered `n` with a prefix.
pub open spec fn label_name(prefix: Seq<char>, n: nat) -> Seq<char> {
    prefix + "_"@ + nat_digits(n)
}

/// The integer type of a bit width.
pub open spec fn type_text(width: nat) -> Seq<char> {
    "i"@ + nat_digits(width)
}

/// Whether a term can be lowered: literals, variables, arithmetic and
/// bitwise operations, equality, conditionals, applications of a named
/// function, buffers and the word types.
pub open spec fn lowerable(t: SpecTerm) -> bool
    decreases t,
{
    match t {
        SpecTerm::Integer(_) => true,
        SpecTerm::Var(_) => true,
        SpecTerm::Buffer(_) => true,
        SpecTerm::Bits64Type => true,
        SpecTerm::I32Type => true,
        SpecTerm::I8Type => true,
        SpecTerm::Add(l, r) => lowerable(*l) && lowerable(*r),
        SpecTerm::Sub(l, r) => lowerable(*l) && lowerable(*r),
        SpecTerm::Eq(l, r) => lowerable(*l) && lowerable(*r),
        SpecTerm::BitXor(l, r) => lowerable(*l) && lowerable(*r),
        SpecTerm::BitAnd(l, r) => lowerable(*l) && lowerable(*r),
        SpecTerm::BitOr(l, r) => lowerable(*l) && lowerable(*r),
        SpecTerm::Shl(l, r) => lowerable(*l) && lowerable(*r),
        SpecTerm::Shr(l, r) => lowerable(*l) && lowerable(*r),
        SpecTerm::BitNot(b) => lowerable(*b),
        SpecTerm::If(c, a, b) => lowerable(*c) && lowerable(*a) && lowerable(*b),
        SpecTerm::Case(target, bs) => lowerable(*target) && bs.len() > 0 && arms_lowerable(bs),
        SpecTerm::App(f, a) => spine_lowerable(*f) && lowerable(*a),
        SpecTerm::BufferLoad(b, i) => lowerable(*b) && lowerable(*i),
        SpecTerm::BufferStore(b, i, v) => lowerable(*b) && lowerable(*i) && lowerable(*v),
        _ => false,
    }
}

/// Whether the function part of an application is a name applied to
/// lowerable arguments.
pub open spec fn spine_lowerable(t: SpecTerm) -> bool
    decreases t,
{
    match t {
        SpecTerm::Var(_) => true,
        SpecTerm::App(f, a) => spine_lowerable(*f) && lowerable(*a),
        _ => false,
    }
}

/// Whether a case pattern is a decimal literal.
pub open spec fn is_digits(p: Seq<char>) -> bool {
    p.len() > 0 && forall|i: int| 0 <= i < p.len() ==> '0' <= #[trigger] p[i] <= '9'
}

/// Whether a case pattern matches anything.
pub open spec fn is_wildcard(p: Seq<char>) -> bool {
    p == "_"@
}

/// Whether the branches of a case can be lowered, up to the first one that
/// matches anything: each binds no names, matches a decimal literal or
/// anything, and has a lowerable body.
pub open spec fn arms_lowerable(bs: Seq<SpecBranch>) -> bool
    decreases bs,
{
    if bs.len() == 0 {
        true
    } else if is_wildcard(bs[0].pattern) {
        bs[0].args.len() == 0 && lowerable(bs[0].body)
    } else {
        &&& bs[0].args.len() == 0
        &&& is_digits(bs[0].pattern)
        &&& lowerable(bs[0].body)
        &&& arms_lowerable(bs.subrange(1, bs.len() as int))
    }
}

/// The registers that lowering the branches of a case takes: one comparison
/// per literal branch, and what the bodies take.
pub open spec fn arms_regs(bs: Seq<SpecBranch>) -> nat
    decreases bs,
{
    if bs.len() == 0 {
        0
    } else if is_wildcard(bs[0].pattern) {
        regs_needed(bs[0].body)
    } else {
        regs_needed(bs[0].body) + 1 + arms_regs(bs.subrange(1, bs.len() as int))
    }
}

/// The labels that lowering the branches of a case takes: two per literal
/// branch, and what the bodies take.
pub open spec fn arms_labels(bs: Seq<SpecBranch>) -> nat
    decreases bs,
{
    if bs.len() == 0 {
        0
    } else if is_wildcard(bs[0].pattern) {
        labels_needed(bs[0].body)
    } else {
        labels_needed(bs[0].body) + 2 + arms_labels(bs.subrange(1, bs.len() as int))
    }
}

/// The registers that lowering a term takes.
pub open spec fn regs_needed(t: SpecTerm) -> nat
    decreases t,
{
    match t {
        SpecTerm::Add(l, r) => regs_needed(*l) + regs_needed(*r) + 1,
        SpecTerm::Sub(l, r) => regs_needed(*l) + regs_needed(*r) + 1,
        SpecTerm::Eq(l, r) => regs_needed(*l) + regs_needed(*r) + 1,
        SpecTerm::BitXor(l, r) => regs_needed(*l) + regs_needed(*r) + 1,
        SpecTerm::BitAnd(l, r) => regs_needed(*l) + regs_needed(*r) + 1,
        SpecTerm::BitOr(l, r) => regs_needed(*l) + regs_needed(*r) + 1,
        SpecTerm::Shl(l, r) => regs_needed(*l) + regs_needed(*r) + 1,
        SpecTerm::Shr(l, r) => regs_needed(*l) + regs_needed(*r) + 1,
        SpecTerm::BitNot(b) => regs_needed(*b) + 1,
        SpecTerm::If(c, a, b) => regs_needed(*c) + regs_needed(*a) + regs_needed(*b) + 1,
        SpecTerm::Case(target, bs) => regs_needed(*target) + arms_regs(bs) + 1,
        SpecTerm::App(f, a) => spine_regs(*f) + regs_needed(*a) + 1,
        SpecTerm::Buffer(_) => 1,
        SpecTerm::BufferLoad(b, i) => regs_needed(*b) + regs_needed(*i) + 2,
        SpecTerm::BufferStore(b, i, v) => regs_needed(*b) + regs_needed(*i) + regs_needed(*v) + 1,
        _ => 0,
    }
}

/// The registers that lowering the arguments of an application takes.
pub open spec fn spine_regs(t: SpecTerm) -> nat
    decreases t,
{
    match t {
        SpecTerm::App(f, a) => spine_regs(*f) + regs_needed(*a),
        _ => 0,
    }
}

/// The labels that lowering a term takes: three per conditional.
pub open spec fn labels_needed(t: SpecTerm) -> nat
    decreases t,
{
    match t {
        SpecTerm::Add(l, r) => labels_needed(*l) + labels_needed(*r),
        SpecTerm::Sub(l, r) => labels_needed(*l) + labels_needed(*r),
        SpecTerm::Eq(l, r) => labels_needed(*l) + labels_needed(*r),
        SpecTerm::BitXor(l, r) => labels_needed(*l) + labels_needed(*r),
        SpecTerm::BitAnd(l, r) => labels_needed(*l) + labels_needed(*r),
        SpecTerm::BitOr(l, r) => labels_needed(*l) + labels_needed(*r),
        SpecTerm::Shl(l, r) => labels_needed(*l) + labels_needed(*r),
        SpecTerm::Shr(l, r) => labels_needed(*l) + labels_needed(*r),
        SpecTerm::BitNot(b) => labels_needed(*b),
        SpecTerm::If(c, a, b) => labels_needed(*c) + labels_needed(*a) + labels_needed(*b) + 3,
        SpecTerm::Case(target, bs) => labels_needed(*target) + arms_labels(bs) + 1,
        SpecTerm::App(f, a) => spine_labels(*f) + labels_needed(*a),
        SpecTerm::BufferLoad(b, i) => labels_needed(*b) + labels_needed(*i),
        SpecTerm::BufferStore(b, i, v) => labels_needed(*b) + labels_needed(*i) + labels_needed(*v),
        _ => 0,
    }
}

/// The labels that lowering the arguments of an application takes.
pub open spec fn spine_labels(t: SpecTerm) -> nat
    decreases t,
{
    match t {
        SpecTerm::App(f, a) => spine_labels(*f) + labels_needed(*a),
        _ => 0,
    }
}

/// Adds an instruction `res = op ty lhs, rhs` with a fresh register.
pub open spec fn emit_binop(st: IrState, op: Seq<char>, ty: Seq<char>, lv: Seq<char>, rv: Seq<char>) -> (IrState, Seq<char>) {
    let res = reg_name(st.next_reg);
    (
        IrState {
            instrs: st.instrs.push("  "@ + res + " = "@ + op + " "@ + ty + " "@ + lv + ", "@ + rv),
            next_reg: st.next_reg + 1,
            ..st
        },
        res,
    )
}

/// The size of the buffer that a load or store addresses: the size of a
/// literal buffer, else 64.
pub open spec fn buffer_size(b: SpecTerm) -> nat {
    match b {
        SpecTerm::Buffer(s) => s as nat,
        _ => 64,
    }
}

/// The address computation of element `idx` of a buffer.
pub open spec fn gep_text(ptr: Seq<char>, size: nat, ty: Seq<char>, buf: Seq<char>, idx: Seq<char>) -> Seq<char> {
    "  "@ + ptr + " = getelementptr ["@ + nat_digits(size) + " x "@ + ty + "], ptr "@ + buf
        + ", i32 0, i64 "@ + idx
}

/// The name of the function that an application calls.
pub open spec fn callee_name(t: SpecTerm) -> Seq<char>
    decreases t,
{
    match t {
        SpecTerm::App(f, _) => callee_name(*f),
        SpecTerm::Var(n) => "@"@ + n,
        _ => Seq::empty(),
    }
}

/// The arguments of a call, each with its type, separated by commas.
pub open spec fn call_args_text(ty: Seq<char>, regs: Seq<Seq<char>>) -> Seq<char>
    decreases regs.len(),
{
    if regs.len() == 0 {
        Seq::empty()
    } else if regs.len() == 1 {
        ty + " "@ + regs[0]
    } else {
        call_args_text(ty, regs.drop_last()) + ", "@ + ty + " "@ + regs.last()
    }
}

/// Lowering of a term: the state after it, and the register or value that
/// holds its result.
pub open spec fn lower(t: SpecTerm, env: Map<Seq<char>, Seq<char>>, ty: Seq<char>, st: IrState) -> (IrState, Seq<char>)
    decreases t, 1int,
{
    match t {
        SpecTerm::Integer(v) => (st, int_text(v as int)),
        SpecTerm::Var(name) => (st, if env.contains_key(name) { env[name] } else { "@"@ + name }),
        SpecTerm::Add(l, r) => {
            let (s1, lv) = lower(*l, env, ty, st);
            let (s2, rv) = lower(*r, env, ty, s1);
            emit_binop(s2, "add"@, ty, lv, rv)
        },
        SpecTerm::Sub(l, r) => {
            let (s1, lv) = lower(*l, env, ty, st);
            let (s2, rv) = lower(*r, env, ty, s1);
            emit_binop(s2, "sub"@, ty, lv, rv)
        },
        SpecTerm::Eq(l, r) => {
            let (s1, lv) = lower(*l, env, ty, st);
            let (s2, rv) = lower(*r, env, ty, s1);
            emit_binop(s2, "icmp eq"@, ty, lv, rv)
        },
        SpecTerm::BitXor(l, r) => {
            let (s1, lv) = lower(*l, env, ty, st);
            let (s2, rv) = lower(*r, env, ty, s1);
            emit_binop(s2, "xor"@, ty, lv, rv)
        },
        SpecTerm::BitAnd(l, r) => {
            let (s1, lv) = lower(*l, env, ty, st);
            let (s2, rv) = lower(*r, env, ty, s1);
            emit_binop(s2, "and"@, ty, lv, rv)
        },
        SpecTerm::BitOr(l, r) => {
            let (s1, lv) = lower(*l, env, ty, st);
            let (s2, rv) = lower(*r, env, ty, s1);
            emit_binop(s2, "or"@, ty, lv, rv)
        },
        SpecTerm::Shl(l, r) => {
            let (s1, lv) = lower(*l, env, ty, st);
            let (s2, rv) = lower(*r, env, ty, s1);
            emit_binop(s2, "shl"@, ty, lv, rv)
        },
        SpecTerm::Shr(l, r) => {
            let (s1, lv) = lower(*l, env, ty, st);
            let (s2, rv) = lower(*r, env, ty, s1);
            emit_binop(s2, "lshr"@, ty, lv, rv)
        },
        SpecTerm::BitNot(b) => {
            let (s1, v) = lower(*b, env, ty, st);
            emit_binop(s1, "xor"@, ty, v, "-1"@)
        },
        SpecTerm::If(c, a, b) => {
            let (s1, cv) = lower(*c, env, ty, st);
            let then_label = label_name("then"@, s1.labels);
            let else_label = label_name("else"@, s1.labels + 1);
            let merge_label = label_name("merge"@, s1.labels + 2);
            let s2 = IrState {
                instrs: s1.instrs.push("  br i1 "@ + cv + ", label %"@ + then_label + ", label %"@ + else_label).push(
                    "\n"@ + then_label + ":"@,
                ),
                labels: s1.labels + 3,
                block: then_label,
                ..s1
            };
            let (s3, tv) = lower(*a, env, ty, s2);
            let then_block = s3.block;
            let s4 = IrState {
                instrs: s3.instrs.push("  br label %"@ + merge_label).push("\n"@ + else_label + ":"@),
                block: else_label,
                ..s3
            };
            let (s5, ev) = lower(*b, env, ty, s4);
            let else_block = s5.block;
            let res = reg_name(s5.next_reg);
            (
                IrState {
                    instrs: s5.instrs.push("  br label %"@ + merge_label).push("\n"@ + merge_label + ":"@).push(
                        "  "@ + res + " = phi "@ + ty + " [ "@ + tv + ", %"@ + then_block + " ], [ "@ + ev
                            + ", %"@ + else_block + " ]"@,
                    ),
                    next_reg: s5.next_reg + 1,
                    block: merge_label,
                    ..s5
                },
                res,
            )
        },
        SpecTerm::Case(target, bs) => {
            let (s1, tv) = lower(*target, env, ty, st);
            let end_label = label_name("case_end"@, s1.labels);
            let s2 = IrState { labels: s1.labels + 1, ..s1 };
            let (s3, incoming) = lower_arms(bs, env, ty, s2, tv, end_label);
            let res = reg_name(s3.next_reg);
            (
                IrState {
                    instrs: s3.instrs.push("\n"@ + end_label + ":"@).push(
                        "  "@ + res + " = phi "@ + ty + " "@ + phi_text(incoming),
                    ),
                    next_reg: s3.next_reg + 1,
                    block: end_label,
                    ..s3
                },
                res,
            )
        },
        SpecTerm::App(f, a) => {
            let (s1, regs) = lower_spine(t, env, ty, st);
            let res = reg_name(s1.next_reg);
            (
                IrState {
                    instrs: s1.instrs.push(
                        "  "@ + res + " = call "@ + ty + " "@ + callee_name(t) + "( "@ + call_args_text(ty, regs)
                            + " )"@,
                    ),
                    next_reg: s1.next_reg + 1,
                    ..s1
                },
                res,
            )
        },
        SpecTerm::Buffer(size) => {
            let res = reg_name(st.next_reg);
            (
                IrState {
                    instrs: st.instrs.push("  "@ + res + " = alloca ["@ + nat_digits(size as nat) + " x "@ + ty + "]"@),
                    next_reg: st.next_reg + 1,
                    ..st
                },
                res,
            )
        },
        SpecTerm::BufferLoad(b, i) => {
            let (s1, bv) = lower(*b, env, ty, st);
            let (s2, iv) = lower(*i, env, ty, s1);
            let ptr = reg_name(s2.next_reg);
            let res = reg_name(s2.next_reg + 1);
            (
                IrState {
                    instrs: s2.instrs.push(gep_text(ptr, buffer_size(*b), ty, bv, iv)).push(
                        "  "@ + res + " = load "@ + ty + ", ptr "@ + ptr,
                    ),
                    next_reg: s2.next_reg + 2,
                    ..s2
                },
                res,
            )
        },
        SpecTerm::BufferStore(b, i, v) => {
            let (s1, bv) = lower(*b, env, ty, st);
            let (s2, iv) = lower(*i, env, ty, s1);
            let (s3, vv) = lower(*v, env, ty, s2);
            let ptr = reg_name(s3.next_reg);
            (
                IrState {
                    instrs: s3.instrs.push(gep_text(ptr, buffer_size(*b), ty, bv, iv)).push(
                        "  store "@ + ty + " "@ + vv + ", ptr "@ + ptr,
                    ),
                    next_reg: s3.next_reg + 1,
                    ..s3
                },
                bv,
            )
        },
        SpecTerm::Bits64Type => (st, "i64"@),
        SpecTerm::I32Type => (st, "i32"@),
        SpecTerm::I8Type => (st, "i8"@),
        _ => (st, Seq::empty()),
    }
}

/// The incoming values of a phi node, each with the block it comes from,
/// separated by commas.
pub open spec fn phi_text(incoming: Seq<(Seq<char>, Seq<char>)>) -> Seq<char>
    decreases incoming.len(),
{
    if incoming.len() == 0 {
        Seq::empty()
    } else if incoming.len() == 1 {
        "[ "@ + incoming[0].0 + ", %"@ + incoming[0].1 + " ]"@
    } else {
        phi_text(incoming.drop_last()) + ", [ "@ + incoming.last().0 + ", %"@ + incoming.last().1 + " ]"@
    }
}

/// Lowering of the branches of a case on the value `tv`, first branch
/// first: a literal branch compares `tv` with its literal and branches to
/// its body or to the next test; a branch that matches anything is lowered
/// where the tests have got to; every body ends with a jump to `end_label`,
/// and when no branch matches the code is unreachable. The result is the
/// state after them, and the value and final block of each body.
pub open spec fn lower_arms(
    bs: Seq<SpecBranch>,
    env: Map<Seq<char>, Seq<char>>,
    ty: Seq<char>,
    st: IrState,
    tv: Seq<char>,
    end_label: Seq<char>,
) -> (IrState, Seq<(Seq<char>, Seq<char>)>)
    decreases bs, 0int,
{
    if bs.len() == 0 {
        (IrState { instrs: st.instrs.push("  unreachable"@), ..st }, Seq::empty())
    } else if is_wildcard(bs[0].pattern) {
        let (s1, v) = lower(bs[0].body, env, ty, st);
        (IrState { instrs: s1.instrs.push("  br label %"@ + end_label), ..s1 }, seq![(v, s1.block)])
    } else {
        let c = reg_name(st.next_reg);
        let arm = label_name("case_arm"@, st.labels);
        let next = label_name("case_next"@, st.labels + 1);
        let s1 = IrState {
            instrs: st.instrs.push("  "@ + c + " = icmp eq "@ + ty + " "@ + tv + ", "@ + bs[0].pattern).push(
                "  br i1 "@ + c + ", label %"@ + arm + ", label %"@ + next,
            ).push("\n"@ + arm + ":"@),
            next_reg: st.next_reg + 1,
            labels: st.labels + 2,
            block: arm,
        };
        let (s2, v) = lower(bs[0].body, env, ty, s1);
        let s3 = IrState {
            instrs: s2.instrs.push("  br label %"@ + end_label).push("\n"@ + next + ":"@),
            block: next,
            ..s2
        };
        let (s4, rest) = lower_arms(bs.subrange(1, bs.len() as int), env, ty, s3, tv, end_label);
        (s4, seq![(v, s2.block)] + rest)
    }
}

/// Lowering of the arguments of an application, first argument first: the
/// state after them, and their registers.
pub open spec fn lower_spine(t: SpecTerm, env: Map<Seq<char>, Seq<char>>, ty: Seq<char>, st: IrState) -> (IrState, Seq<Seq<char>>)
    decreases t, 0int,
{
    match t {
        SpecTerm::App(f, a) => {
            let (s1, regs) = lower_spine(*f, env, ty, st);
            let (s2, v) = lower(*a, env, ty, s1);
            (s2, regs.push(v))
        },
        _ => (st, Seq::empty()),
    }
}

/// Whether `a` is a prefix of `b`.
pub open spec fn prefix_of(a: Seq<Seq<char>>, b: Seq<Seq<char>>) -> bool {
    a.len() <= b.len() && forall|i: int| 0 <= i < a.len() ==> #[trigger] b[i] == a[i]
}

proof fn lemma_prefix_trans(a: Seq<Seq<char>>, b: Seq<Seq<char>>, c: Seq<Seq<char>>)
    requires
        prefix_of(a, b),
        prefix_of(b, c),
    ensures
        prefix_of(a, c),
{
    assert forall|i: int| 0 <= i < a.len() implies #[trigger] c[i] == a[i] by {
        assert(c[i] == b[i]);
    }
}

proof fn lemma_prefix_push(a: Seq<Seq<char>>, x: Seq<char>)
    ensures
        prefix_of(a, a.push(x)),
{
}

/// Lowering only adds instructions: those already there stay as they were.
pub proof fn law_lowering_appends(t: SpecTerm, env: Map<Seq<char>, Seq<char>>, ty: Seq<char>, st: IrState)
    ensures
        prefix_of(st.instrs, lower(t, env, ty, st).0.instrs),
    decreases t, 1int,
{
    match t {
        SpecTerm::Add(l, r) | SpecTerm::Sub(l, r) | SpecTerm::Eq(l, r) | SpecTerm::BitXor(l, r)
        | SpecTerm::BitAnd(l, r) | SpecTerm::BitOr(l, r) | SpecTerm::Shl(l, r) | SpecTerm::Shr(l, r) => {
            let s1 = lower(*l, env, ty, st).0;
            let s2 = lower(*r, env, ty, s1).0;
            law_lowering_appends(*l, env, ty, st);
            law_lowering_appends(*r, env, ty, s1);
            lemma_prefix_trans(st.instrs, s1.instrs, s2.instrs);
            lemma_prefix_push(s2.instrs, lower(t, env, ty, st).0.instrs.last());
            lemma_prefix_trans(st.instrs, s2.instrs, lower(t, env, ty, st).0.instrs);
        },
        SpecTerm::BitNot(b) => {
            let s1 = lower(*b, env, ty, st).0;
            law_lowering_appends(*b, env, ty, st);
            lemma_prefix_trans(st.instrs, s1.instrs, lower(t, env, ty, st).0.instrs);
        },
        SpecTerm::If(c, a, b) => {
            let (s1, cv) = lower(*c, env, ty, st);
            law_lowering_appends(*c, env, ty, st);
            let then_label = label_name("then"@, s1.labels);
            let else_label = label_name("else"@, s1.labels + 1);
            let merge_label = label_name("merge"@, s1.labels + 2);
            let s2 = IrState {
                instrs: s1.instrs.push("  br i1 "@ + cv + ", label %"@ + then_label + ", label %"@ + else_label).push(
                    "\n"@ + then_label + ":"@,
                ),
                labels: s1.labels + 3,
                block: then_label,
                ..s1
            };
            let s3 = lower(*a, env, ty, s2).0;
            law_lowering_appends(*a, env, ty, s2);
            let s4 = IrState {
                instrs: s3.instrs.push("  br label %"@ + merge_label).push("\n"@ + else_label + ":"@),
                block: else_label,
                ..s3
            };
            let s5 = lower(*b, env, ty, s4).0;
            law_lowering_appends(*b, env, ty, s4);
            let fin = lower(t, env, ty, st).0;
            assert(prefix_of(s1.instrs, s2.instrs));
            assert(prefix_of(s3.instrs, s4.instrs));
            assert(prefix_of(s5.instrs, fin.instrs));
            lemma_prefix_trans(st.instrs, s1.instrs, s2.instrs);
            lemma_prefix_trans(st.instrs, s2.instrs, s3.instrs);
            lemma_prefix_trans(st.instrs, s3.instrs, s4.instrs);
            lemma_prefix_trans(st.instrs, s4.instrs, s5.instrs);
            lemma_prefix_trans(st.instrs, s5.instrs, fin.instrs);
        },
        SpecTerm::Case(target, bs) => {
            let (s1, tv) = lower(*target, env, ty, st);
            law_lowering_appends(*target, env, ty, st);
            let end_label = label_name("case_end"@, s1.labels);
            let s2 = IrState { labels: s1.labels + 1, ..s1 };
            let s3 = lower_arms(bs, env, ty, s2, tv, end_label).0;
            lemma_arms_appends(bs, env, ty, s2, tv, end_label);
            let fin = lower(t, env, ty, st).0;
            assert(prefix_of(s3.instrs, fin.instrs));
            lemma_prefix_trans(st.instrs, s1.instrs, s3.instrs);
            lemma_prefix_trans(st.instrs, s3.instrs, fin.instrs);
        },
        SpecTerm::App(_, _) => {
            let s1 = lower_spine(t, env, ty, st).0;
            lemma_spine_appends(t, env, ty, st);
            lemma_prefix_trans(st.instrs, s1.instrs, lower(t, env, ty, st).0.instrs);
        },
        SpecTerm::BufferLoad(b, i) => {
            let s1 = lower(*b, env, ty, st).0;
            let s2 = lower(*i, env, ty, s1).0;
            law_lowering_appends(*b, env, ty, st);
            law_lowering_appends(*i, env, ty, s1);
            let fin = lower(t, env, ty, st).0;
            assert(prefix_of(s2.instrs, fin.instrs));
            lemma_prefix_trans(st.instrs, s1.instrs, s2.instrs);
            lemma_prefix_trans(st.instrs, s2.instrs, fin.instrs);
        },
        SpecTerm::BufferStore(b, i, v) => {
            let s1 = lower(*b, env, ty, st).0;
            let s2 = lower(*i, env, ty, s1).0;
            let s3 = lower(*v, env, ty, s2).0;
            law_lowering_appends(*b, env, ty, st);
            law_lowering_appends(*i, env, ty, s1);
            law_lowering_appends(*v, env, ty, s2);
            let fin = lower(t, env, ty, st).0;
            assert(prefix_of(s3.instrs, fin.instrs));
            lemma_prefix_trans(st.instrs, s1.instrs, s2.instrs);
            lemma_prefix_trans(st.instrs, s2.instrs, s3.instrs);
            lemma_prefix_trans(st.instrs, s3.instrs, fin.instrs);
        },
        _ => {},
    }
}

/// Lowering the branches of a case only adds instructions.
proof fn lemma_arms_appends(
    bs: Seq<SpecBranch>,
    env: Map<Seq<char>, Seq<char>>,
    ty: Seq<char>,
    st: IrState,
    tv: Seq<char>,
    end_label: Seq<char>,
)
    ensures
        prefix_of(st.instrs, lower_arms(bs, env, ty, st, tv, end_label).0.instrs),
    decreases bs, 0int,
{
    let fin = lower_arms(bs, env, ty, st, tv, end_label).0;
    if bs.len() == 0 {
        assert(prefix_of(st.instrs, fin.instrs));
    } else if is_wildcard(bs[0].pattern) {
        let s1 = lower(bs[0].body, env, ty, st).0;
        law_lowering_appends(bs[0].body, env, ty, st);
        assert(prefix_of(s1.instrs, fin.instrs));
        lemma_prefix_trans(st.instrs, s1.instrs, fin.instrs);
    } else {
        let c = reg_name(st.next_reg);
        let arm = label_name("case_arm"@, st.labels);
        let next = label_name("case_next"@, st.labels + 1);
        let s1 = IrState {
            instrs: st.instrs.push("  "@ + c + " = icmp eq "@ + ty + " "@ + tv + ", "@ + bs[0].pattern).push(
                "  br i1 "@ + c + ", label %"@ + arm + ", label %"@ + next,
            ).push("\n"@ + arm + ":"@),
            next_reg: st.next_reg + 1,
            labels: st.labels + 2,
            block: arm,
        };
        let s2 = lower(bs[0].body, env, ty, s1).0;
        law_lowering_appends(bs[0].body, env, ty, s1);
        let s3 = IrState {
            instrs: s2.instrs.push("  br label %"@ + end_label).push("\n"@ + next + ":"@),
            block: next,
            ..s2
        };
        let rest = bs.subrange(1, bs.len() as int);
        lemma_arms_appends(rest, env, ty, s3, tv, end_label);
        assert(prefix_of(st.instrs, s1.instrs));
        assert(prefix_of(s2.instrs, s3.instrs));
        lemma_prefix_trans(st.instrs, s1.instrs, s2.instrs);
        lemma_prefix_trans(st.instrs, s2.instrs, s3.instrs);
        lemma_prefix_trans(st.instrs, s3.instrs, fin.instrs);
    }
}

/// Lowering the arguments of an application only adds instructions.
proof fn lemma_spine_appends(t: SpecTerm, env: Map<Seq<char>, Seq<char>>, ty: Seq<char>, st: IrState)
    ensures
        prefix_of(st.instrs, lower_spine(t, env, ty, st).0.instrs),
    decreases t, 0int,
{
    match t {
        SpecTerm::App(f, a) => {
            let s1 = lower_spine(*f, env, ty, st).0;
            lemma_spine_appends(*f, env, ty, st);
            law_lowering_appends(*a, env, ty, s1);
            lemma_prefix_trans(st.instrs, s1.instrs, lower_spine(t, env, ty, st).0.instrs);
        },
        _ => {},
    }
}

/// Different numbers have different decimal digits.
proof fn lemma_nat_digits_injective(n: nat, m: nat)
    requires
        n != m,
    ensures
        nat_digits(n) != nat_digits(m),
    decreases n + m,
{
    if n < 10 && m < 10 {
        assert(nat_digits(n)[0] != nat_digits(m)[0]);
    } else if n < 10 {
        assert(nat_digits(m).len() >= 2) by {
            lemma_nat_digits_nonempty(m / 10);
        }
    } else if m < 10 {
        assert(nat_digits(n).len() >= 2) by {
            lemma_nat_digits_nonempty(n / 10);
        }
    } else {
        if n % 10 != m % 10 {
            assert(nat_digits(n).last() != nat_digits(m).last());
        } else {
            assert(n / 10 != m / 10);
            lemma_nat_digits_injective(n / 10, m / 10);
            if nat_digits(n) == nat_digits(m) {
                assert(nat_digits(n).drop_last() =~= nat_digits(n / 10));
                assert(nat_digits(m).drop_last() =~= nat_digits(m / 10));
            }
        }
    }
}

proof fn lemma_nat_digits_nonempty(n: nat)
    ensures
        nat_digits(n).len() >= 1,
    decreases n,
{
    if n >= 10 {
        lemma_nat_digits_nonempty(n / 10);
    }
}

/// The state of a new builder: no instructions, register 1 next, no
/// labels, in the entry block.
pub open spec fn initial_state() -> IrState {
    IrState { instrs: Seq::empty(), next_reg: 1, labels: 0, block: "entry"@ }
}

/// The state after one register is handed out.
pub open spec fn after_fresh_reg(s: IrState) -> IrState {
    IrState { next_reg: s.next_reg + 1, ..s }
}

/// The state after `k` registers are handed out.
pub open spec fn after_fresh_regs(s: IrState, k: nat) -> IrState
    decreases k,
{
    if k == 0 { s } else { after_fresh_reg(after_fresh_regs(s, (k - 1) as nat)) }
}

/// Registers are numbered from 1 in a new builder: after `k` registers have
/// been handed out, the next one is `%` followed by `k + 1`, and nothing
/// else of the state has changed.
pub proof fn law_registers_count_up(k: nat)
    ensures
        after_fresh_regs(initial_state(), k) == (IrState { next_reg: k + 1, ..initial_state() }),
        reg_name(after_fresh_regs(initial_state(), k).next_reg) == "%"@ + nat_digits(k + 1),
    decreases k,
{
    if k > 0 {
        law_registers_count_up((k - 1) as nat);
    }
}

/// Registers with different numbers have different names, so the
/// registers that `fresh_reg` hands out never repeat.
pub proof fn law_register_names_differ(n: nat, m: nat)
    requires
        n != m,
    ensures
        reg_name(n) != reg_name(m),
{
    lemma_nat_digits_injective(n, m);
    reveal_strlit("%");
    if reg_name(n) == reg_name(m) {
        assert(reg_name(n).subrange(1, reg_name(n).len() as int) =~= nat_digits(n));
        assert(reg_name(m).subrange(1, reg_name(m).len() as int) =~= nat_digits(m));
    }
}

/// The character sequences of a list of strings.
pub open spec fn strings_view(v: Seq<String>) -> Seq<Seq<char>> {
    v.map_values(|s: String| s@)
}

/// Lowering of a binary operation: both operands, then the operation.
pub open spec fn lower_binop(op: Seq<char>, l: SpecTerm, r: SpecTerm, env: Map<Seq<char>, Seq<char>>, ty: Seq<char>, st: IrState) -> (IrState, Seq<char>) {
    let (s1, lv) = lower(l, env, ty, st);
    let (s2, rv) = lower(r, env, ty, s1);
    emit_binop(s2, op, ty, lv, rv)
}

/// `prefix` followed by the texts in `parts`.
fn concat(parts: &Vec<&str>) -> (r: String)
    ensures
        r@ == concat_spec(parts@),
{
    let mut out = String::new();
    let mut i: usize = 0;
    while i < parts.len()
        invariant
            i <= parts@.len(),
            out@ == concat_spec(parts@.take(i as int)),
        decreases parts.len() - i,
    {
        out.append(parts[i]);
        proof {
            assert(parts@.take(i + 1).drop_last() =~= parts@.take(i as int));
        }
        i += 1;
    }
    proof {
        assert(parts@.take(parts@.len() as int) =~= parts@);
    }
    out
}

/// The concatenation of the views of some texts.
pub open spec fn concat_spec(parts: Seq<&str>) -> Seq<char>
    decreases parts.len(),
{
    if parts.len() == 0 {
        Seq::empty()
    } else {
        concat_spec(parts.drop_last()) + parts.last()@
    }
}

/// Lowers terms to instructions.
pub struct IRBuilder {
    pub instructions: Vec<String>,
    next_reg: usize,
    label_counter: usize,
    current_block: String,
    bit_width: u32,
}

impl IRBuilder {
    /// The state of lowering.
    pub closed spec fn state(&self) -> IrState {
        IrState {
            instrs: strings_view(self.instructions@),
            next_reg: self.next_reg as nat,
            labels: self.label_counter as nat,
            block: self.current_block@,
        }
    }

    /// The width of the integers that instructions operate on.
    pub closed spec fn width(&self) -> nat {
        self.bit_width as nat
    }

    /// A builder with no instructions, registers from 1, labels from 0, the
    /// `entry` block and 64-bit integers.
    pub fn new() -> (r: Self)
        ensures
            r.state() == initial_state(),
            r.width() == 64,
    {
        let r = IRBuilder {
            instructions: Vec::new(),
            next_reg: 1,
            label_counter: 0,
            current_block: "entry".to_owned(),
            bit_width: 64,
        };
        proof {
            assert(strings_view(r.instructions@) =~= Seq::empty());
        }
        r
    }

    /// Sets the width of the integers.
    pub fn set_bit_width(&mut self, width: u32)
        ensures
            final(self).width() == width,
            final(self).state() == old(self).state(),
    {
        self.bit_width = width;
    }

    /// The integer type of the current width, such as `i64`.
    fn get_type_str(&self) -> (r: String)
        ensures
            r@ == type_text(self.width()),
    {
        let digits = u64_to_text(self.bit_width as u64);
        let mut s = "i".to_owned();
        s.append(digits.as_str());
        s
    }

    /// A fresh register name `%n`.
    pub fn fresh_reg(&mut self) -> (r: String)
        requires
            old(self).state().next_reg < usize::MAX,
        ensures
            r@ == reg_name(old(self).state().next_reg),
            final(self).state() == after_fresh_reg(old(self).state()),
            final(self).width() == old(self).width(),
    {
        let digits = usize_to_text(self.next_reg);
        let mut reg = "%".to_owned();
        reg.append(digits.as_str());
        self.next_reg = self.next_reg + 1;
        reg
    }

    /// A fresh label `prefix_n`.
    pub fn fresh_label(&mut self, prefix: &str) -> (r: String)
        requires
            old(self).state().labels < usize::MAX,
        ensures
            r@ == label_name(prefix@, old(self).state().labels),
            final(self).state() == (IrState { labels: old(self).state().labels + 1, ..old(self).state() }),
            final(self).width() == old(self).width(),
    {
        let digits = usize_to_text(self.label_counter);
        let mut label = prefix.to_owned();
        label.append("_");
        label.append(digits.as_str());
        self.label_counter = self.label_counter + 1;
        label
    }

    /// Adds an instruction.
    pub fn emit(&mut self, instr: String)
        ensures
            final(self).state() == (IrState { instrs: old(self).state().instrs.push(instr@), ..old(self).state() }),
            final(self).width() == old(self).width(),
    {
        let ghost old_instrs = self.instructions@;
        self.instructions.push(instr);
        proof {
            assert(strings_view(self.instructions@) =~= strings_view(old_instrs).push(instr@));
        }
    }

    /// The instructions so far.
    pub fn instructions(&self) -> (r: &Vec<String>)
        ensures
            strings_view(r@) == self.state().instrs,
    {
        &self.instructions
    }

    /// Makes `block` the current block.
    fn enter_block(&mut self, block: &String)
        ensures
            final(self).state() == (IrState { block: block@, ..old(self).state() }),
            final(self).width() == old(self).width(),
    {
        self.current_block = block.clone();
    }

    /// Lowers a term and returns the register or value that holds its
    /// result. Literals and variables take no instruction: a variable is
    /// its binding in `env`, or the global of its name.
    pub fn lower_term(&mut self, term: &Term, env: &Env) -> (r: String)
        requires
            lowerable(term@),
            old(self).state().next_reg + regs_needed(term@) <= usize::MAX,
            old(self).state().labels + labels_needed(term@) <= usize::MAX,
        ensures
            (final(self).state(), r@) == lower(term@, env@, type_text(old(self).width()), old(self).state()),
            final(self).width() == old(self).width(),
            final(self).state().next_reg == old(self).state().next_reg + regs_needed(term@),
            final(self).state().labels == old(self).state().labels + labels_needed(term@),
        decreases term, 2int,
    {
        match term {
            Term::Integer(val) => i64_to_text(*val),
            Term::Var(name) => match env.get(name.as_str()) {
                Some(v) => v.clone(),
                None => {
                    let mut global = "@".to_owned();
                    global.append(name.as_str());
                    global
                },
            },
            Term::Add(l, r) => self.lower_binary("add", l, r, env, Ghost(term)),
            Term::Sub(l, r) => self.lower_binary("sub", l, r, env, Ghost(term)),
            Term::Eq(l, r) => self.lower_binary("icmp eq", l, r, env, Ghost(term)),
            Term::BitXor(l, r) => self.lower_binary("xor", l, r, env, Ghost(term)),
            Term::BitAnd(l, r) => self.lower_binary("and", l, r, env, Ghost(term)),
            Term::BitOr(l, r) => self.lower_binary("or", l, r, env, Ghost(term)),
            Term::Shl(l, r) => self.lower_binary("shl", l, r, env, Ghost(term)),
            Term::Shr(l, r) => self.lower_binary("lshr", l, r, env, Ghost(term)),
            Term::BitNot(body) => self.lower_not(body, env, Ghost(term)),
            Term::If(c, t, e) => self.lower_if(c, t, e, env, Ghost(term)),
            Term::Case(target, branches) => self.lower_case(target, branches, env, Ghost(term)),
            Term::App(_, _) => self.lower_app(term, env),
            Term::Buffer(size) => self.lower_alloca(*size),
            Term::BufferLoad(buffer, index) => self.lower_load(buffer, index, env, Ghost(term)),
            Term::BufferStore(buffer, index, value) => self.lower_store(buffer, index, value, env, Ghost(term)),
            Term::Bits64Type => "i64".to_owned(),
            Term::I32Type => "i32".to_owned(),
            Term::I8Type => "i8".to_owned(),
            _ => String::new(),
        }
    }

    /// Lowers a complement: `xor` with -1.
    fn lower_not(&mut self, body: &Term, env: &Env, Ghost(parent): Ghost<&Term>) -> (r: String)
        requires
            lowerable(body@),
            old(self).state().next_reg + regs_needed(body@) + 1 <= usize::MAX,
            old(self).state().labels + labels_needed(body@) <= usize::MAX,
            decreases_to!(parent => *body),
        ensures
            (final(self).state(), r@) == lower(SpecTerm::BitNot(Box::new(body@)), env@, type_text(old(self).width()), old(self).state()),
            final(self).width() == old(self).width(),
            final(self).state().next_reg == old(self).state().next_reg + regs_needed(body@) + 1,
            final(self).state().labels == old(self).state().labels + labels_needed(body@),
        decreases parent, 1int,
    {
        let ty = self.get_type_str();
        let reg = self.lower_term(body, env);
        let res = self.fresh_reg();
        let instr = concat(&vec!["  ", res.as_str(), " = ", "xor", " ", ty.as_str(), " ", reg.as_str(), ", ", "-1"]);
        proof {
            reveal_with_fuel(concat_spec, 11);
        }
        self.emit(instr);
        res
    }

    /// Lowers a conditional: a branch on the condition to a block for each
    /// branch, and a phi node in the block where they meet.
    #[verifier::rlimit(60)]
    fn lower_if(&mut self, c: &Term, t: &Term, e: &Term, env: &Env, Ghost(parent): Ghost<&Term>) -> (res: String)
        requires
            lowerable(c@),
            lowerable(t@),
            lowerable(e@),
            old(self).state().next_reg + regs_needed(c@) + regs_needed(t@) + regs_needed(e@) + 1 <= usize::MAX,
            old(self).state().labels + labels_needed(c@) + labels_needed(t@) + labels_needed(e@) + 3 <= usize::MAX,
            decreases_to!(parent => *c),
            decreases_to!(parent => *t),
            decreases_to!(parent => *e),
        ensures
            (final(self).state(), res@) == lower(SpecTerm::If(Box::new(c@), Box::new(t@), Box::new(e@)), env@,
                type_text(old(self).width()), old(self).state()),
            final(self).width() == old(self).width(),
            final(self).state().next_reg == old(self).state().next_reg + regs_needed(c@) + regs_needed(t@) + regs_needed(e@) + 1,
            final(self).state().labels == old(self).state().labels + labels_needed(c@) + labels_needed(t@) + labels_needed(e@) + 3,
        decreases parent, 1int,
    {
        let ty = self.get_type_str();
        let cond_reg = self.lower_term(c, env);
        let then_label = self.fresh_label("then");
        let else_label = self.fresh_label("else");
        let merge_label = self.fresh_label("merge");
        self.emit(concat(&vec!["  br i1 ", cond_reg.as_str(), ", label %", then_label.as_str(), ", label %", else_label.as_str()]));
        self.emit(concat(&vec!["\n", then_label.as_str(), ":"]));
        self.enter_block(&then_label);
        let then_reg = self.lower_term(t, env);
        let final_then_block = self.current_block.clone();
        self.emit(concat(&vec!["  br label %", merge_label.as_str()]));
        self.emit(concat(&vec!["\n", else_label.as_str(), ":"]));
        self.enter_block(&else_label);
        let else_reg = self.lower_term(e, env);
        let final_else_block = self.current_block.clone();
        self.emit(concat(&vec!["  br label %", merge_label.as_str()]));
        self.emit(concat(&vec!["\n", merge_label.as_str(), ":"]));
        self.enter_block(&merge_label);
        let res = self.fresh_reg();
        self.emit(concat(&vec![
            "  ", res.as_str(), " = phi ", ty.as_str(), " [ ", then_reg.as_str(), ", %",
            final_then_block.as_str(), " ], [ ", else_reg.as_str(), ", %", final_else_block.as_str(), " ]",
        ]));
        proof {
            reveal_with_fuel(concat_spec, 14);
        }
        res
    }

    /// Lowers a case on decimal literals: the target once, a test and a
    /// block per literal branch, and a phi node in the block where the
    /// bodies meet.
    fn lower_case(
        &mut self,
        target: &Term,
        branches: &Vec<(String, Vec<String>, Box<Term>)>,
        env: &Env,
        Ghost(parent): Ghost<&Term>,
    ) -> (res: String)
        requires
            lowerable(target@),
            branches_view(branches@).len() > 0,
            arms_lowerable(branches_view(branches@)),
            old(self).state().next_reg + regs_needed(target@) + arms_regs(branches_view(branches@)) + 1 <= usize::MAX,
            old(self).state().labels + labels_needed(target@) + arms_labels(branches_view(branches@)) + 1 <= usize::MAX,
            decreases_to!(parent => *target),
            decreases_to!(parent => *branches),
        ensures
            (final(self).state(), res@) == lower(SpecTerm::Case(Box::new(target@), branches_view(branches@)), env@,
                type_text(old(self).width()), old(self).state()),
            final(self).width() == old(self).width(),
            final(self).state().next_reg == old(self).state().next_reg + regs_needed(target@) + arms_regs(branches_view(branches@)) + 1,
            final(self).state().labels == old(self).state().labels + labels_needed(target@) + arms_labels(branches_view(branches@)) + 1,
        decreases parent, 1int,
    {
        let ty = self.get_type_str();
        let tv = self.lower_term(target, env);
        let end_label = self.fresh_label("case_end");
        let phi = self.lower_arms(branches, &ty, &tv, &end_label, env, Ghost(parent));
        self.emit(concat(&vec!["\n", end_label.as_str(), ":"]));
        self.enter_block(&end_label);
        let res = self.fresh_reg();
        self.emit(concat(&vec!["  ", res.as_str(), " = phi ", ty.as_str(), " ", phi.as_str()]));
        proof {
            reveal_with_fuel(concat_spec, 7);
        }
        res
    }

    /// Lowers the branches of a case on the value `tv`, and returns the
    /// incoming values of the phi node that joins them.
    fn lower_arms(
        &mut self,
        branches: &Vec<(String, Vec<String>, Box<Term>)>,
        ty: &String,
        tv: &String,
        end_label: &String,
        env: &Env,
        Ghost(parent): Ghost<&Term>,
    ) -> (phi: String)
        requires
            ty@ == type_text(old(self).width()),
            arms_lowerable(branches_view(branches@)),
            old(self).state().next_reg + arms_regs(branches_view(branches@)) <= usize::MAX,
            old(self).state().labels + arms_labels(branches_view(branches@)) <= usize::MAX,
            decreases_to!(parent => *branches),
        ensures
            final(self).state() == lower_arms(branches_view(branches@), env@, ty@, old(self).state(), tv@, end_label@).0,
            phi@ == phi_text(lower_arms(branches_view(branches@), env@, ty@, old(self).state(), tv@, end_label@).1),
            final(self).width() == old(self).width(),
            final(self).state().next_reg == old(self).state().next_reg + arms_regs(branches_view(branches@)),
            final(self).state().labels == old(self).state().labels + arms_labels(branches_view(branches@)),
        decreases parent, 0int,
    {
        let ghost bv = branches_view(branches@);
        let ghost start = self.state();
        let ghost mut acc: Seq<(Seq<char>, Seq<char>)> = Seq::empty();
        let mut phi = String::new();
        let mut i: usize = 0;
        proof {
            lemma_branches_view_len(branches@);
            assert(bv.subrange(0, bv.len() as int) =~= bv);
        }
        while i < branches.len()
            invariant
                i <= branches@.len(),
                start == old(self).state(),
                bv.len() == branches@.len(),
                bv == branches_view(branches@),
                ty@ == type_text(self.width()),
                self.width() == old(self).width(),
                acc.len() == i,
                arms_lowerable(bv.subrange(i as int, bv.len() as int)),
                self.state().next_reg + arms_regs(bv.subrange(i as int, bv.len() as int)) == start.next_reg + arms_regs(bv),
                self.state().labels + arms_labels(bv.subrange(i as int, bv.len() as int)) == start.labels + arms_labels(bv),
                start.next_reg + arms_regs(bv) <= usize::MAX,
                start.labels + arms_labels(bv) <= usize::MAX,
                lower_arms(bv, env@, ty@, start, tv@, end_label@).0 == lower_arms(
                    bv.subrange(i as int, bv.len() as int), env@, ty@, self.state(), tv@, end_label@).0,
                lower_arms(bv, env@, ty@, start, tv@, end_label@).1 == acc + lower_arms(
                    bv.subrange(i as int, bv.len() as int), env@, ty@, self.state(), tv@, end_label@).1,
                phi@ == phi_text(acc),
                decreases_to!(parent => *branches),
            decreases branches.len() - i,
        {
            let ghost suffix = bv.subrange(i as int, bv.len() as int);
            let ghost cur = self.state();
            proof {
                lemma_branches_view_index(branches@, i as int);
                assert(suffix[0] == bv[i as int]);
                assert(suffix.subrange(1, suffix.len() as int) =~= bv.subrange(i + 1, bv.len() as int));
                assert(decreases_to!(parent => *branches));
                assert(decreases_to!(*branches => branches@));
                assert(decreases_to!(branches@ => branches@[i as int]));
                assert(decreases_to!(branches@[i as int] => branches@[i as int].2));
            }
            let pattern = &branches[i].0;
            let body = &branches[i].2;
            if str_eq(pattern.as_str(), "_") {
                proof {
                    assert(is_wildcard(suffix[0].pattern));
                }
                let v = self.lower_term(body, env);
                let ghost s1 = self.state();
                let blk = self.current_block.clone();
                self.emit(concat(&vec!["  br label %", end_label.as_str()]));
                proof {
                    reveal_with_fuel(concat_spec, 3);
                    assert((s1, v@) == lower(suffix[0].body, env@, ty@, cur));
                    assert(lower_arms(suffix, env@, ty@, cur, tv@, end_label@) == (
                        IrState { instrs: s1.instrs.push("  br label %"@ + end_label@), ..s1 },
                        seq![(v@, s1.block)],
                    ));
                    assert(self.state() == IrState { instrs: s1.instrs.push("  br label %"@ + end_label@), ..s1 });
                }
                push_incoming(&mut phi, i == 0, &v, &blk, Ghost(acc));
                proof {
                    assert(acc + seq![(v@, blk@)] =~= acc.push((v@, blk@)));
                }
                return phi;
            }
            let c = self.fresh_reg();
            let arm = self.fresh_label("case_arm");
            let next = self.fresh_label("case_next");
            self.emit(concat(&vec!["  ", c.as_str(), " = icmp eq ", ty.as_str(), " ", tv.as_str(), ", ", pattern.as_str()]));
            self.emit(concat(&vec!["  br i1 ", c.as_str(), ", label %", arm.as_str(), ", label %", next.as_str()]));
            self.emit(concat(&vec!["\n", arm.as_str(), ":"]));
            self.enter_block(&arm);
            proof {
                reveal_with_fuel(concat_spec, 9);
            }
            let v = self.lower_term(body, env);
            let blk = self.current_block.clone();
            self.emit(concat(&vec!["  br label %", end_label.as_str()]));
            self.emit(concat(&vec!["\n", next.as_str(), ":"]));
            self.enter_block(&next);
            proof {
                reveal_with_fuel(concat_spec, 4);
            }
            push_incoming(&mut phi, i == 0, &v, &blk, Ghost(acc));
            proof {
                let rest = lower_arms(bv.subrange(i + 1, bv.len() as int), env@, ty@, self.state(), tv@, end_label@).1;
                assert(acc + (seq![(v@, blk@)] + rest) =~= acc.push((v@, blk@)) + rest);
                acc = acc.push((v@, blk@));
            }
            i += 1;
        }
        self.emit("  unreachable".to_owned());
        proof {
            assert(bv.subrange(i as int, bv.len() as int) =~= Seq::<SpecBranch>::empty());
            assert(acc + Seq::<(Seq<char>, Seq<char>)>::empty() =~= acc);
        }
        phi
    }

    /// Lowers an application of a named function: its arguments, then a call.
    fn lower_app(&mut self, term: &Term, env: &Env) -> (res: String)
        requires
            lowerable(term@),
            term@ is App,
            old(self).state().next_reg + regs_needed(term@) <= usize::MAX,
            old(self).state().labels + labels_needed(term@) <= usize::MAX,
        ensures
            (final(self).state(), res@) == lower(term@, env@, type_text(old(self).width()), old(self).state()),
            final(self).width() == old(self).width(),
            final(self).state().next_reg == old(self).state().next_reg + regs_needed(term@),
            final(self).state().labels == old(self).state().labels + labels_needed(term@),
        decreases term, 1int,
    {
        let ty = self.get_type_str();
        let func_name = self.flatten_app(term);
        let regs = self.lower_spine(term, env);
        let res = self.fresh_reg();
        let args = call_args(&ty, &regs);
        self.emit(concat(&vec!["  ", res.as_str(), " = call ", ty.as_str(), " ", func_name.as_str(), "( ", args.as_str(), " )"]));
        proof {
            reveal_with_fuel(concat_spec, 10);
        }
        res
    }

    /// Lowers a buffer: a stack allocation of its words.
    fn lower_alloca(&mut self, size: usize) -> (res: String)
        requires
            old(self).state().next_reg + 1 <= usize::MAX,
        ensures
            (final(self).state(), res@) == lower(SpecTerm::Buffer(size), Map::empty(), type_text(old(self).width()), old(self).state()),
            final(self).width() == old(self).width(),
            final(self).state().next_reg == old(self).state().next_reg + 1,
            final(self).state().labels == old(self).state().labels,
    {
        let ty = self.get_type_str();
        let res = self.fresh_reg();
        let digits = usize_to_text(size);
        self.emit(concat(&vec!["  ", res.as_str(), " = alloca [", digits.as_str(), " x ", ty.as_str(), "]"]));
        proof {
            reveal_with_fuel(concat_spec, 8);
        }
        res
    }

    /// Lowers a load: the address of the element, then a load from it.
    #[verifier::rlimit(40)]
    fn lower_load(&mut self, buffer: &Term, index: &Term, env: &Env, Ghost(parent): Ghost<&Term>) -> (res: String)
        requires
            lowerable(buffer@),
            lowerable(index@),
            old(self).state().next_reg + regs_needed(buffer@) + regs_needed(index@) + 2 <= usize::MAX,
            old(self).state().labels + labels_needed(buffer@) + labels_needed(index@) <= usize::MAX,
            decreases_to!(parent => *buffer),
            decreases_to!(parent => *index),
        ensures
            (final(self).state(), res@) == lower(SpecTerm::BufferLoad(Box::new(buffer@), Box::new(index@)), env@,
                type_text(old(self).width()), old(self).state()),
            final(self).width() == old(self).width(),
            final(self).state().next_reg == old(self).state().next_reg + regs_needed(buffer@) + regs_needed(index@) + 2,
            final(self).state().labels == old(self).state().labels + labels_needed(buffer@) + labels_needed(index@),
        decreases parent, 1int,
    {
        let ty = self.get_type_str();
        let buf_reg = self.lower_term(buffer, env);
        let idx_reg = self.lower_term(index, env);
        let size: usize = match buffer {
            Term::Buffer(s) => *s,
            _ => 64,
        };
        let ptr_reg = self.fresh_reg();
        let digits = usize_to_text(size);
        self.emit(concat(&vec![
            "  ", ptr_reg.as_str(), " = getelementptr [", digits.as_str(), " x ", ty.as_str(), "], ptr ",
            buf_reg.as_str(), ", i32 0, i64 ", idx_reg.as_str(),
        ]));
        let res = self.fresh_reg();
        self.emit(concat(&vec!["  ", res.as_str(), " = load ", ty.as_str(), ", ptr ", ptr_reg.as_str()]));
        proof {
            reveal_with_fuel(concat_spec, 11);
        }
        res
    }

    /// Lowers a store: the address of the element, then a store to it; the
    /// result is the buffer.
    #[verifier::rlimit(40)]
    fn lower_store(&mut self, buffer: &Term, index: &Term, value: &Term, env: &Env, Ghost(parent): Ghost<&Term>) -> (res: String)
        requires
            lowerable(buffer@),
            lowerable(index@),
            lowerable(value@),
            old(self).state().next_reg + regs_needed(buffer@) + regs_needed(index@) + regs_needed(value@) + 1 <= usize::MAX,
            old(self).state().labels + labels_needed(buffer@) + labels_needed(index@) + labels_needed(value@) <= usize::MAX,
            decreases_to!(parent => *buffer),
            decreases_to!(parent => *index),
            decreases_to!(parent => *value),
        ensures
            (final(self).state(), res@) == lower(SpecTerm::BufferStore(Box::new(buffer@), Box::new(index@), Box::new(value@)),
                env@, type_text(old(self).width()), old(self).state()),
            final(self).width() == old(self).width(),
            final(self).state().next_reg == old(self).state().next_reg + regs_needed(buffer@) + regs_needed(index@) + regs_needed(value@) + 1,
            final(self).state().labels == old(self).state().labels + labels_needed(buffer@) + labels_needed(index@) + labels_needed(value@),
        decreases parent, 1int,
    {
        let ty = self.get_type_str();
        let buf_reg = self.lower_term(buffer, env);
        let idx_reg = self.lower_term(index, env);
        let val_reg = self.lower_term(value, env);
        let size: usize = match buffer {
            Term::Buffer(s) => *s,
            _ => 64,
        };
        let ptr_reg = self.fresh_reg();
        let digits = usize_to_text(size);
        self.emit(concat(&vec![
            "  ", ptr_reg.as_str(), " = getelementptr [", digits.as_str(), " x ", ty.as_str(), "], ptr ",
            buf_reg.as_str(), ", i32 0, i64 ", idx_reg.as_str(),
        ]));
        self.emit(concat(&vec!["  store ", ty.as_str(), " ", val_reg.as_str(), ", ptr ", ptr_reg.as_str()]));
        proof {
            reveal_with_fuel(concat_spec, 11);
        }
        buf_reg
    }

    /// Lowers both operands and then the operation.
    fn lower_binary(&mut self, op: &str, l: &Term, r: &Term, env: &Env, Ghost(parent): Ghost<&Term>) -> (res: String)
        requires
            lowerable(l@),
            lowerable(r@),
            old(self).state().next_reg + regs_needed(l@) + regs_needed(r@) + 1 <= usize::MAX,
            old(self).state().labels + labels_needed(l@) + labels_needed(r@) <= usize::MAX,
            decreases_to!(parent => *l),
            decreases_to!(parent => *r),
        ensures
            (final(self).state(), res@) == lower_binop(op@, l@, r@, env@, type_text(old(self).width()), old(self).state()),
            final(self).width() == old(self).width(),
            final(self).state().next_reg == old(self).state().next_reg + regs_needed(l@) + regs_needed(r@) + 1,
            final(self).state().labels == old(self).state().labels + labels_needed(l@) + labels_needed(r@),
        decreases parent, 1int,
    {
        let ty = self.get_type_str();
        let l_reg = self.lower_term(l, env);
        let r_reg = self.lower_term(r, env);
        let res = self.fresh_reg();
        let instr = concat(&vec!["  ", res.as_str(), " = ", op, " ", ty.as_str(), " ", l_reg.as_str(), ", ", r_reg.as_str()]);
        proof {
            reveal_with_fuel(concat_spec, 11);
        }
        self.emit(instr);
        res
    }

    /// The global function that an application calls.
    fn flatten_app(&self, term: &Term) -> (r: String)
        ensures
            r@ == callee_name(term@),
        decreases term,
    {
        match term {
            Term::App(f, _) => self.flatten_app(f),
            Term::Var(name) => {
                let mut global = "@".to_owned();
                global.append(name.as_str());
                global
            },
            _ => String::new(),
        }
    }

    /// Lowers the arguments of an application, the first one first.
    fn lower_spine(&mut self, term: &Term, env: &Env) -> (regs: Vec<String>)
        requires
            spine_lowerable(term@) || lowerable(term@) && term@ is App,
            old(self).state().next_reg + spine_regs(term@) <= usize::MAX,
            old(self).state().labels + spine_labels(term@) <= usize::MAX,
        ensures
            (final(self).state(), strings_view(regs@)) == lower_spine(term@, env@, type_text(old(self).width()), old(self).state()),
            final(self).width() == old(self).width(),
            final(self).state().next_reg == old(self).state().next_reg + spine_regs(term@),
            final(self).state().labels == old(self).state().labels + spine_labels(term@),
        decreases term, 0int,
    {
        match term {
            Term::App(f, a) => {
                let mut regs = self.lower_spine(f, env);
                let v = self.lower_term(a, env);
                let ghost old_regs = regs@;
                regs.push(v);
                proof {
                    assert(strings_view(regs@) =~= strings_view(old_regs).push(v@));
                }
                regs
            },
            _ => {
                let regs: Vec<String> = Vec::new();
                proof {
                    assert(strings_view(regs@) =~= Seq::empty());
                }
                regs
            },
        }
    }
}

/// Adds one incoming value and its block to the text of a phi node.
fn push_incoming(
    phi: &mut String,
    first: bool,
    v: &String,
    blk: &String,
    Ghost(acc): Ghost<Seq<(Seq<char>, Seq<char>)>>,
)
    requires
        old(phi)@ == phi_text(acc),
        first == (acc.len() == 0),
    ensures
        final(phi)@ == phi_text(acc.push((v@, blk@))),
{
    let ghost before = phi@;
    if first {
        phi.append("[ ");
    } else {
        phi.append(", [ ");
    }
    phi.append(v.as_str());
    phi.append(", %");
    phi.append(blk.as_str());
    phi.append(" ]");
    proof {
        let all = acc.push((v@, blk@));
        assert(all.drop_last() =~= acc);
        if first {
            assert(phi@ =~= "[ "@ + all[0].0 + ", %"@ + all[0].1 + " ]"@);
        } else {
            assert(phi@ =~= before + ", [ "@ + all.last().0 + ", %"@ + all.last().1 + " ]"@);
        }
    }
}

/// Whether a term can be lowered, and if so the registers and labels that
/// lowering it takes, when both fit in a `usize`.
pub fn lowering_cost(term: &Term) -> (r: Option<(usize, usize)>)
    ensures
        r is Some <==> (lowerable(term@) && regs_needed(term@) <= usize::MAX && labels_needed(term@) <= usize::MAX),
        r is Some ==> r->Some_0.0 == regs_needed(term@) && r->Some_0.1 == labels_needed(term@),
    decreases term, 1int,
{
    match term {
        Term::Integer(_) | Term::Var(_) | Term::Bits64Type | Term::I32Type | Term::I8Type => Some((0, 0)),
        Term::Buffer(_) => Some((1, 0)),
        Term::Add(l, r) | Term::Sub(l, r) | Term::Eq(l, r) | Term::BitXor(l, r) | Term::BitAnd(l, r)
        | Term::BitOr(l, r) | Term::Shl(l, r) | Term::Shr(l, r) => {
            let (lr, ll) = lowering_cost(l)?;
            let (rr, rl) = lowering_cost(r)?;
            let regs = lr.checked_add(rr)?.checked_add(1)?;
            let labels = ll.checked_add(rl)?;
            Some((regs, labels))
        },
        Term::BitNot(b) => {
            let (br, bl) = lowering_cost(b)?;
            Some((br.checked_add(1)?, bl))
        },
        Term::If(c, a, b) => {
            let (cr, cl) = lowering_cost(c)?;
            let (ar, al) = lowering_cost(a)?;
            let (br, bl) = lowering_cost(b)?;
            let regs = cr.checked_add(ar)?.checked_add(br)?.checked_add(1)?;
            let labels = cl.checked_add(al)?.checked_add(bl)?.checked_add(3)?;
            Some((regs, labels))
        },
        Term::Case(target, branches) => {
            proof {
                lemma_branches_view_len(branches@);
            }
            if branches.len() == 0 {
                return None;
            }
            let (tr, tl) = lowering_cost(target)?;
            let (ar, al) = arms_cost(branches, Ghost(term))?;
            let regs = tr.checked_add(ar)?.checked_add(1)?;
            let labels = tl.checked_add(al)?.checked_add(1)?;
            Some((regs, labels))
        },
        Term::App(f, a) => {
            let (fr, fl) = spine_cost(f)?;
            let (ar, al) = lowering_cost(a)?;
            let regs = fr.checked_add(ar)?.checked_add(1)?;
            let labels = fl.checked_add(al)?;
            Some((regs, labels))
        },
        Term::BufferLoad(b, i) => {
            let (br, bl) = lowering_cost(b)?;
            let (ir, il) = lowering_cost(i)?;
            let regs = br.checked_add(ir)?.checked_add(2)?;
            let labels = bl.checked_add(il)?;
            Some((regs, labels))
        },
        Term::BufferStore(b, i, v) => {
            let (br, bl) = lowering_cost(b)?;
            let (ir, il) = lowering_cost(i)?;
            let (vr, vl) = lowering_cost(v)?;
            let regs = br.checked_add(ir)?.checked_add(vr)?.checked_add(1)?;
            let labels = bl.checked_add(il)?.checked_add(vl)?;
            Some((regs, labels))
        },
        _ => None,
    }
}

/// Whether the branches of a case can be lowered, and if so the registers
/// and labels that lowering them takes, when both fit in a `usize`.
fn arms_cost(branches: &Vec<(String, Vec<String>, Box<Term>)>, Ghost(parent): Ghost<&Term>) -> (r: Option<(usize, usize)>)
    requires
        decreases_to!(parent => *branches),
    ensures
        r is Some <==> (arms_lowerable(branches_view(branches@)) && arms_regs(branches_view(branches@)) <= usize::MAX
            && arms_labels(branches_view(branches@)) <= usize::MAX),
        r is Some ==> r->Some_0.0 == arms_regs(branches_view(branches@)) && r->Some_0.1 == arms_labels(
            branches_view(branches@),
        ),
    decreases parent, 0int,
{
    let ghost bv = branches_view(branches@);
    let mut regs: usize = 0;
    let mut labels: usize = 0;
    let mut i: usize = 0;
    proof {
        lemma_branches_view_len(branches@);
        assert(bv.subrange(0, bv.len() as int) =~= bv);
    }
    while i < branches.len()
        invariant
            i <= branches@.len(),
            bv.len() == branches@.len(),
            bv == branches_view(branches@),
            arms_lowerable(bv) == arms_lowerable(bv.subrange(i as int, bv.len() as int)),
            arms_regs(bv) == regs + arms_regs(bv.subrange(i as int, bv.len() as int)),
            arms_labels(bv) == labels + arms_labels(bv.subrange(i as int, bv.len() as int)),
            decreases_to!(parent => *branches),
        decreases branches.len() - i,
    {
        let ghost suffix = bv.subrange(i as int, bv.len() as int);
        proof {
            lemma_branches_view_index(branches@, i as int);
            assert(suffix[0] == bv[i as int]);
            assert(suffix.subrange(1, suffix.len() as int) =~= bv.subrange(i + 1, bv.len() as int));
            assert(decreases_to!(parent => *branches));
            assert(decreases_to!(*branches => branches@));
            assert(decreases_to!(branches@ => branches@[i as int]));
            assert(decreases_to!(branches@[i as int] => branches@[i as int].2));
        }
        if branches[i].1.len() != 0 {
            return None;
        }
        let wildcard = str_eq(branches[i].0.as_str(), "_");
        if !wildcard && !is_decimal(branches[i].0.as_str()) {
            return None;
        }
        let (br, bl) = lowering_cost(&branches[i].2)?;
        regs = regs.checked_add(br)?;
        labels = labels.checked_add(bl)?;
        if wildcard {
            return Some((regs, labels));
        }
        regs = regs.checked_add(1)?;
        labels = labels.checked_add(2)?;
        i += 1;
    }
    proof {
        assert(bv.subrange(i as int, bv.len() as int) =~= Seq::<SpecBranch>::empty());
    }
    Some((regs, labels))
}

/// Whether a text is a decimal literal.
fn is_decimal(p: &str) -> (r: bool)
    ensures
        r == is_digits(p@),
{
    let cs = chars_of(p);
    if cs.len() == 0 {
        return false;
    }
    let mut i: usize = 0;
    while i < cs.len()
        invariant
            i <= cs@.len(),
            cs@ == p@,
            forall|j: int| 0 <= j < i ==> '0' <= #[trigger] cs@[j] <= '9',
        decreases cs.len() - i,
    {
        if !is_digit(cs[i]) {
            return false;
        }
        i += 1;
    }
    true
}

/// Whether the function part of an application can be lowered, and if so
/// what lowering its arguments takes.
fn spine_cost(term: &Term) -> (r: Option<(usize, usize)>)
    ensures
        r is Some <==> (spine_lowerable(term@) && spine_regs(term@) <= usize::MAX && spine_labels(term@) <= usize::MAX),
        r is Some ==> r->Some_0.0 == spine_regs(term@) && r->Some_0.1 == spine_labels(term@),
    decreases term, 0int,
{
    match term {
        Term::Var(_) => Some((0, 0)),
        Term::App(f, a) => {
            let (fr, fl) = spine_cost(f)?;
            let (ar, al) = lowering_cost(a)?;
            Some((fr.checked_add(ar)?, fl.checked_add(al)?))
        },
        _ => None,
    }
}

/// The arguments of a call, each with its type, separated by commas.
fn call_args(ty: &String, regs: &Vec<String>) -> (r: String)
    ensures
        r@ == call_args_text(ty@, strings_view(regs@)),
{
    let mut out = String::new();
    let mut i: usize = 0;
    while i < regs.len()
        invariant
            i <= regs@.len(),
            out@ == call_args_text(ty@, strings_view(regs@.take(i as int))),
        decreases regs.len() - i,
    {
        let ghost prefix = strings_view(regs@.take(i as int));
        let ghost next = strings_view(regs@.take(i + 1));
        proof {
            assert(next.drop_last() =~= prefix);
            assert(next.last() == regs@[i as int]@);
            assert(next.len() == i + 1);
        }
        if i > 0 {
            out.append(", ");
        }
        out.append(ty.as_str());
        out.append(" ");
        out.append(regs[i].as_str());
        proof {
            if i == 0 {
                assert(next[0] == regs@[0]@);
            }
        }
        i += 1;
    }
    proof {
        assert(regs@.take(regs@.len() as int) =~= regs@);
    }
    out
}

} // verus!
