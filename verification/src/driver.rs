//! Compilation of a program made of a single function definition: the
//! definition is checked for linear use of its parameters and for buffer
//! bounds, lowered to a function, and joined with printing routines and a
//! `main` that calls it.
use vstd::prelude::*;
use crate::decl_grammar::plain_def_spec;
use crate::declarations::plain_arguments;
use crate::errors::Spanned;
use crate::irbuilder::{
    Env, IRBuilder, IrState, labels_needed, lower, lowerable, lowering_cost, regs_needed, strings_view, type_text,
};
use crate::multiplicity::Multiplicity;
use crate::parser::{Parser, kind_at};
use crate::qtt::{QttChecker, term_ok, usage, usage_allowed};
use crate::scanner::{Token, TokenKind, lex, scan, spanned_models};
use crate::term::{SpecTerm, names_view};

verus! {

/// The routine that prints a 64-bit integer in decimal with a system call.
pub fn print_int_ir() -> (r: String)
    ensures
        r@ == print_int_text(),
{
    "
define void @print_int(i64 %n) {
entry:
  %is_zero = icmp eq i64 %n, 0
  br i1 %is_zero, label %zero, label %nonzero

zero:
  %buf0 = alloca [2 x i8]
  %p0 = getelementptr [2 x i8], ptr %buf0, i32 0, i32 0
  store i8 48, ptr %p0
  %p1 = getelementptr [2 x i8], ptr %buf0, i32 0, i32 1
  store i8 10, ptr %p1
  call void asm sideeffect \\\"syscall\\\", \\\"{rax},{rdi},{rsi},{rdx},~{rcx},~{r11}\\\"(i64 1, i64 1, ptr %buf0, i64 2)
  ret void

nonzero:
  %buf = alloca [21 x i8] ; space for i64 and newline
  %end_ptr = getelementptr [21 x i8], ptr %buf, i32 0, i32 20
  store i8 10, ptr %end_ptr ; newline
  br label %loop

loop:
  %n_val = phi i64 [ %n, %nonzero ], [ %n_next, %loop ]
  %curr_ptr = phi ptr [ %end_ptr, %nonzero ], [ %next_ptr, %loop ]
  
  %rem = urem i64 %n_val, 10
  %n_next = udiv i64 %n_val, 10
  
  %char_val = add i64 %rem, 48
  %char = trunc i64 %char_val to i8
  
  %next_ptr = getelementptr i8, ptr %curr_ptr, i32 -1
  store i8 %char, ptr %next_ptr
  
  %done = icmp eq i64 %n_next, 0
  br i1 %done, label %exit, label %loop

exit:
  %final_ptr = phi ptr [ %next_ptr, %loop ]
  %ptr_int = ptrtoint ptr %end_ptr to i64
  %start_int = ptrtoint ptr %final_ptr to i64
  %len = sub i64 %ptr_int, %start_int
  %total_len = add i64 %len, 1
  call void asm sideeffect \\\"syscall\\\", \\\"{rax},{rdi},{rsi},{rdx},~{rcx},~{r11}\\\"(i64 1, i64 1, ptr %final_ptr, i64 %total_len)
  ret void
}
".to_owned()
}

/// The text of the decimal printing routine.
pub open spec fn print_int_text() -> Seq<char> {
    "
define void @print_int(i64 %n) {
entry:
  %is_zero = icmp eq i64 %n, 0
  br i1 %is_zero, label %zero, label %nonzero

zero:
  %buf0 = alloca [2 x i8]
  %p0 = getelementptr [2 x i8], ptr %buf0, i32 0, i32 0
  store i8 48, ptr %p0
  %p1 = getelementptr [2 x i8], ptr %buf0, i32 0, i32 1
  store i8 10, ptr %p1
  call void asm sideeffect \\\"syscall\\\", \\\"{rax},{rdi},{rsi},{rdx},~{rcx},~{r11}\\\"(i64 1, i64 1, ptr %buf0, i64 2)
  ret void

nonzero:
  %buf = alloca [21 x i8] ; space for i64 and newline
  %end_ptr = getelementptr [21 x i8], ptr %buf, i32 0, i32 20
  store i8 10, ptr %end_ptr ; newline
  br label %loop

loop:
  %n_val = phi i64 [ %n, %nonzero ], [ %n_next, %loop ]
  %curr_ptr = phi ptr [ %end_ptr, %nonzero ], [ %next_ptr, %loop ]
  
  %rem = urem i64 %n_val, 10
  %n_next = udiv i64 %n_val, 10
  
  %char_val = add i64 %rem, 48
  %char = trunc i64 %char_val to i8
  
  %next_ptr = getelementptr i8, ptr %curr_ptr, i32 -1
  store i8 %char, ptr %next_ptr
  
  %done = icmp eq i64 %n_next, 0
  br i1 %done, label %exit, label %loop

exit:
  %final_ptr = phi ptr [ %next_ptr, %loop ]
  %ptr_int = ptrtoint ptr %end_ptr to i64
  %start_int = ptrtoint ptr %final_ptr to i64
  %len = sub i64 %ptr_int, %start_int
  %total_len = add i64 %len, 1
  call void asm sideeffect \\\"syscall\\\", \\\"{rax},{rdi},{rsi},{rdx},~{rcx},~{r11}\\\"(i64 1, i64 1, ptr %final_ptr, i64 %total_len)
  ret void
}
"@
}

/// The routine that prints a 64-bit integer in hexadecimal with a system call.
pub fn print_hex_ir() -> (r: String)
    ensures
        r@ == print_hex_text(),
{
    "
define void @print_hex(i64 %n) {
entry:
  %buf = alloca [19 x i8] ; space for '0x' + 16 hex digits + newline
  %p0 = getelementptr [19 x i8], ptr %buf, i32 0, i32 0
  store i8 48, ptr %p0 ; '0'
  %p1 = getelementptr [19 x i8], ptr %buf, i32 0, i32 1
  store i8 120, ptr %p1 ; 'x'
  %p_newline = getelementptr [19 x i8], ptr %buf, i32 0, i32 18
  store i8 10, ptr %p_newline ; newline
  
  br label %loop

loop:
  %i = phi i32 [ 0, %entry ], [ %i_next, %loop ]
  %curr_n = phi i64 [ %n, %entry ], [ %n_next, %loop ]
  
  %shift = mul i32 %i, 4
  %shift_64 = zext i32 %shift to i64
  %bits = lshr i64 %curr_n, 60 ; extract top 4 bits
  %digit = trunc i64 %bits to i8
  
  %is_less_10 = icmp ult i8 %digit, 10
  %base = select i1 %is_less_10, i8 48, i8 87 ; '0' or 'a'-10
  %char = add i8 %digit, %base
  
  ; Store from left to right (after '0x')
  %pos = add i32 %i, 2
  %ptr = getelementptr [19 x i8], ptr %buf, i32 0, i32 %pos
  store i8 %char, ptr %ptr
  
  %n_next = shl i64 %curr_n, 4
  %i_next = add i32 %i, 1
  %done = icmp eq i32 %i_next, 16
  br i1 %done, label %exit, label %loop

exit:
  call void asm sideeffect \\\"syscall\\\", \\\"{rax},{rdi},{rsi},{rdx},~{rcx},~{r11}\\\"(i64 1, i64 1, ptr %buf, i64 19)
  ret void
}
".to_owned()
}

/// The text of the hexadecimal printing routine.
pub open spec fn print_hex_text() -> Seq<char> {
    "
define void @print_hex(i64 %n) {
entry:
  %buf = alloca [19 x i8] ; space for '0x' + 16 hex digits + newline
  %p0 = getelementptr [19 x i8], ptr %buf, i32 0, i32 0
  store i8 48, ptr %p0 ; '0'
  %p1 = getelementptr [19 x i8], ptr %buf, i32 0, i32 1
  store i8 120, ptr %p1 ; 'x'
  %p_newline = getelementptr [19 x i8], ptr %buf, i32 0, i32 18
  store i8 10, ptr %p_newline ; newline
  
  br label %loop

loop:
  %i = phi i32 [ 0, %entry ], [ %i_next, %loop ]
  %curr_n = phi i64 [ %n, %entry ], [ %n_next, %loop ]
  
  %shift = mul i32 %i, 4
  %shift_64 = zext i32 %shift to i64
  %bits = lshr i64 %curr_n, 60 ; extract top 4 bits
  %digit = trunc i64 %bits to i8
  
  %is_less_10 = icmp ult i8 %digit, 10
  %base = select i1 %is_less_10, i8 48, i8 87 ; '0' or 'a'-10
  %char = add i8 %digit, %base
  
  ; Store from left to right (after '0x')
  %pos = add i32 %i, 2
  %ptr = getelementptr [19 x i8], ptr %buf, i32 0, i32 %pos
  store i8 %char, ptr %ptr
  
  %n_next = shl i64 %curr_n, 4
  %i_next = add i32 %i, 1
  %done = icmp eq i32 %i_next, 16
  br i1 %done, label %exit, label %loop

exit:
  call void asm sideeffect \\\"syscall\\\", \\\"{rax},{rdi},{rsi},{rdx},~{rcx},~{r11}\\\"(i64 1, i64 1, ptr %buf, i64 19)
  ret void
}
"@
}

/// Whether `needle` occurs in `hay`.
pub open spec fn contains_text(hay: Seq<char>, needle: Seq<char>) -> bool {
    exists|i: int| 0 <= i && i + needle.len() <= hay.len() && #[trigger] hay.subrange(i, i + needle.len()) == needle
}

/// Whether `needle` occurs in `hay`.
fn contains(hay: &str, needle: &str) -> (r: bool)
    ensures
        r == contains_text(hay@, needle@),
{
    let h = crate::chars::chars_of(hay);
    let n = crate::chars::chars_of(needle);
    if n.len() > h.len() {
        proof {
            assert forall|i: int| 0 <= i && i + n@.len() <= h@.len() implies #[trigger] h@.subrange(i, i + n@.len())
                != n@ by {}
        }
        return false;
    }
    let mut i: usize = 0;
    let last = h.len() - n.len();
    while i <= last
        invariant
            n@.len() <= h@.len(),
            last == h@.len() - n@.len(),
            i <= last + 1,
            h@ == hay@,
            n@ == needle@,
            forall|k: int| 0 <= k < i ==> #[trigger] h@.subrange(k, k + n@.len()) != n@,
            h@.len() <= usize::MAX,
        decreases h.len() - i,
    {
        let mut j: usize = 0;
        let mut same = true;
        while j < n.len()
            invariant
                i + n@.len() <= h@.len(),
                h@.len() <= usize::MAX,
                h@ == hay@,
                n@ == needle@,
                j <= n@.len(),
                same == (forall|k: int| 0 <= k < j ==> h@[i + k] == n@[k]),
            decreases n.len() - j,
        {
            if h[i + j] != n[j] {
                same = false;
            }
            j += 1;
        }
        if same {
            proof {
                assert(h@.subrange(i as int, i + n@.len()) =~= n@);
            }
            return true;
        }
        proof {
            assert(!same);
            let k = choose|k: int| 0 <= k < n@.len() && h@[i + k] != n@[k];
            assert(h@.subrange(i as int, i + n@.len())[k] != n@[k]);
        }
        i += 1;
    }
    proof {
        assert forall|k: int| 0 <= k && k + n@.len() <= h@.len() implies #[trigger] h@.subrange(k, k + n@.len())
            != n@ by {}
    }
    false
}

/// The lines joined with line breaks.
pub open spec fn join_lines(lines: Seq<Seq<char>>) -> Seq<char>
    decreases lines.len(),
{
    if lines.len() == 0 {
        Seq::empty()
    } else if lines.len() == 1 {
        lines[0]
    } else {
        join_lines(lines.drop_last()) + "\n"@ + lines.last()
    }
}

/// The lines joined with line breaks.
fn join(lines: &Vec<String>) -> (r: String)
    ensures
        r@ == join_lines(strings_view(lines@)),
{
    let mut out = String::new();
    let mut i: usize = 0;
    while i < lines.len()
        invariant
            i <= lines@.len(),
            out@ == join_lines(strings_view(lines@.take(i as int))),
        decreases lines.len() - i,
    {
        proof {
            let next = strings_view(lines@.take(i + 1));
            assert(next.drop_last() =~= strings_view(lines@.take(i as int)));
            assert(next.len() == i + 1);
        }
        if i > 0 {
            out.append("\n");
        }
        out.append(lines[i].as_str());
        i += 1;
    }
    proof {
        assert(lines@.take(lines@.len() as int) =~= lines@);
    }
    out
}

/// The `main` function: calls `name` with 2 and 2 and prints the result,
/// in hexadecimal when the name mentions `sha256` or `hex`.
pub open spec fn main_text(name: Seq<char>) -> Seq<char> {
    let print_call = if contains_text(name, "sha256"@) || contains_text(name, "hex"@) {
        "call void @print_hex(i64 %res)"@
    } else {
        "call void @print_int(i64 %res)"@
    };
    "define i32 @main() {\nentry:\n  %res = call i64 @"@ + name + "(i64 2, i64 2)\n  "@ + print_call
        + "\n  ret i32 0\n}"@
}

/// The `main` function that calls `name`.
fn main_ir(name: &str) -> (r: String)
    ensures
        r@ == main_text(name@),
{
    let print_call = if contains(name, "sha256") || contains(name, "hex") {
        "call void @print_hex(i64 %res)"
    } else {
        "call void @print_int(i64 %res)"
    };
    let mut out = "define i32 @main() {\nentry:\n  %res = call i64 @".to_owned();
    out.append(name);
    out.append("(i64 2, i64 2)\n  ");
    out.append(print_call);
    out.append("\n  ret i32 0\n}");
    out
}

/// The message for a parameter that is not used exactly once.
pub open spec fn linearity_error_text(arg: Seq<char>) -> Seq<char> {
    "QTT Multiplicity Error: Linear variable '"@ + arg + "' is not used exactly once."@
}

/// The bindings of the parameters to their registers `%name`; a later
/// parameter of the same name replaces an earlier one.
pub open spec fn params_env(args: Seq<Seq<char>>) -> Map<Seq<char>, Seq<char>>
    decreases args.len(),
{
    if args.len() == 0 {
        Map::empty()
    } else {
        params_env(args.drop_last()).insert(args.last(), "%"@ + args.last())
    }
}

/// The parameter list of the function: `i64 %a, i64 %b`.
pub open spec fn params_text(args: Seq<Seq<char>>) -> Seq<char>
    decreases args.len(),
{
    if args.len() == 0 {
        Seq::empty()
    } else if args.len() == 1 {
        "i64 %"@ + args[0]
    } else {
        params_text(args.drop_last()) + ", "@ + "i64 %"@ + args.last()
    }
}

/// The index of the first parameter from `i` on that the body does not
/// use exactly once.
pub open spec fn first_misused(args: Seq<Seq<char>>, body: SpecTerm, i: int) -> Option<int>
    decreases args.len() - i,
{
    if i < 0 || i >= args.len() {
        None
    } else if !usage_allowed(Multiplicity::One, usage(args[i], body) as int) {
        Some(i)
    } else {
        first_misused(args, body, i + 1)
    }
}

/// The state of a builder that has lowered nothing.
pub open spec fn fresh_state() -> IrState {
    IrState { instrs: Seq::empty(), next_reg: 1, labels: 0, block: "entry"@ }
}

/// The definition of the function: its body lowered with the parameters
/// in registers and the function itself as a global, and its result
/// returned.
pub open spec fn function_text(name: Seq<char>, args: Seq<Seq<char>>, body: SpecTerm) -> Seq<char> {
    let env = params_env(args).insert(name, "@"@ + name);
    let (st, res) = lower(body, env, type_text(64), fresh_state());
    "define i64 @"@ + name + "("@ + params_text(args) + ") {\nentry:\n"@ + join_lines(
        st.instrs.push("  ret i64 "@ + res),
    ) + "\n}"@
}

/// Whether `r` is what compiling the definition `name args = body` gives:
/// the error for the first parameter not used exactly once, for a failed
/// resource check, or for a body that cannot be lowered; else the function,
/// the two printing routines and `main`.
pub open spec fn definition_outcome(name: Seq<char>, args: Seq<Seq<char>>, body: SpecTerm, r: Result<Vec<String>, String>) -> bool {
    match first_misused(args, body, 0) {
        Some(i) => r is Err && r->Err_0@ == linearity_error_text(args[i]),
        None => if !term_ok(body) {
            r is Err && r->Err_0@ == "QTT Error: Boundary or structural constraint violated."@
        } else if !(lowerable(body) && regs_needed(body) < usize::MAX - 1 && labels_needed(body) <= usize::MAX) {
            r is Err && r->Err_0@ == "Unsupported term for lowering"@
        } else {
            &&& r is Ok
            &&& r->Ok_0@.len() == 4
            &&& r->Ok_0@[0]@ == function_text(name, args, body)
            &&& r->Ok_0@[1]@ == print_int_text()
            &&& r->Ok_0@[2]@ == print_hex_text()
            &&& r->Ok_0@[3]@ == main_text(name)
        },
    }
}

/// Whether `r` is what compiling the program whose tokens are `ts` gives.
pub open spec fn module_outcome(ts: Seq<Spanned<Token>>, r: Result<Vec<String>, String>) -> bool {
    if ts.len() >= usize::MAX {
        r is Err && r->Err_0@ == "Parsing failed"@
    } else if !(kind_at(ts, 0) == TokenKind::Identifier && plain_arguments(ts, 1)) {
        r is Err && r->Err_0@ == "Expected identifier in definition"@
    } else {
        match plain_def_spec(ts, 0) {
            Err(_) => r is Err && r->Err_0@ == "Parsing failed"@,
            Ok((b, n, args, _)) => definition_outcome(n, args, b, r),
        }
    }
}

/// Compiles a program made of one function definition `name args = body`
/// to the definitions of a module: the function, the two printing routines,
/// and `main`. Each parameter must be used exactly once, and constant
/// buffer accesses must stay in bounds.
#[verifier::loop_isolation(false)]
#[verifier::rlimit(60)]
pub fn definition_module(source: &str) -> (r: Result<Vec<String>, String>)
    requires
        4 * source@.len() + 8 <= usize::MAX,
    ensures
        match scan(source@) {
            Err(_) => r is Err && r->Err_0@ == "Lexing failed"@,
            Ok(models) => exists|ts: Seq<Spanned<Token>>| #[trigger] spanned_models(ts) == models && module_outcome(ts, r),
        },
{
    let tokens = match lex(source) {
        Ok(t) => t,
        Err(_) => {
            return Err("Lexing failed".to_owned());
        },
    };
    let ghost tokens_model = tokens@;
    if tokens.len() == usize::MAX {
        return Err("Parsing failed".to_owned());
    }
    let mut parser = Parser::new(tokens);
    if !parser.starts_plain_definition() {
        return Err("Expected identifier in definition".to_owned());
    }
    let (body, name, args) = match parser.parse_def() {
        Ok(d) => d,
        Err(_) => {
            return Err("Parsing failed".to_owned());
        },
    };
    let ghost ts = tokens_model;
    let ghost sargs = names_view(args@);
    let checker = QttChecker::new();
    let mut i: usize = 0;
    while i < args.len()
        invariant
            i <= args@.len(),
            sargs == names_view(args@),
            first_misused(sargs, body@, 0) == first_misused(sargs, body@, i as int),
        decreases args.len() - i,
    {
        if !checker.check_multiplicity(args[i].as_str(), Multiplicity::One, &body) {
            let mut msg = "QTT Multiplicity Error: Linear variable '".to_owned();
            msg.append(args[i].as_str());
            msg.append("' is not used exactly once.");
            return Err(msg);
        }
        i += 1;
    }
    if !checker.check_term(&body) {
        return Err("QTT Error: Boundary or structural constraint violated.".to_owned());
    }
    let (regs, labels) = match lowering_cost(&body) {
        Some(c) => c,
        None => {
            return Err("Unsupported term for lowering".to_owned());
        },
    };
    if regs >= usize::MAX - 1 {
        return Err("Unsupported term for lowering".to_owned());
    }
    let mut env = Env::new();
    let mut j: usize = 0;
    while j < args.len()
        invariant
            j <= args@.len(),
            sargs == names_view(args@),
            env@ == params_env(sargs.take(j as int)),
        decreases args.len() - j,
    {
        let mut reg = "%".to_owned();
        reg.append(args[j].as_str());
        let key = args[j].clone();
        proof {
            assert(sargs.take(j + 1).drop_last() =~= sargs.take(j as int));
        }
        env.insert(key, reg);
        j += 1;
    }
    proof {
        assert(sargs.take(args@.len() as int) =~= sargs);
    }
    let mut global = "@".to_owned();
    global.append(name.as_str());
    env.insert(name.clone(), global);
    let mut builder = IRBuilder::new();
    let res_reg = builder.lower_term(&body, &env);
    let mut ret = "  ret i64 ".to_owned();
    ret.append(res_reg.as_str());
    builder.emit(ret);
    let mut args_str = String::new();
    let mut k: usize = 0;
    while k < args.len()
        invariant
            k <= args@.len(),
            sargs == names_view(args@),
            args_str@ == params_text(sargs.take(k as int)),
        decreases args.len() - k,
    {
        let ghost before = args_str@;
        if k > 0 {
            args_str.append(", ");
        }
        args_str.append("i64 %");
        args_str.append(args[k].as_str());
        proof {
            let t = sargs.take(k + 1);
            assert(t.drop_last() =~= sargs.take(k as int));
            if k > 0 {
                assert(args_str@ =~= before + ", "@ + "i64 %"@ + t.last());
            } else {
                assert(args_str@ =~= "i64 %"@ + t[0]);
            }
        }
        k += 1;
    }
    proof {
        assert(sargs.take(args@.len() as int) =~= sargs);
    }
    let mut func_ir = "define i64 @".to_owned();
    func_ir.append(name.as_str());
    func_ir.append("(");
    func_ir.append(args_str.as_str());
    func_ir.append(") {\nentry:\n");
    let body_text = join(builder.instructions());
    func_ir.append(body_text.as_str());
    func_ir.append("\n}");
    let mut defs: Vec<String> = Vec::new();
    defs.push(func_ir);
    defs.push(print_int_ir());
    defs.push(print_hex_ir());
    defs.push(main_ir(name.as_str()));
    Ok(defs)
}

} // verus!
