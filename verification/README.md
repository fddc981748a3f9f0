# idris_native

A front end for a small dependently typed language with quantitative
multiplicities, written in Verus. The functions of the library under `src/`
carry contracts that Verus proves, except a few small wrappers around std
calls (character classes, string equality, `String::push` and the `Debug`
quoting of strings and characters), whose contracts are trusted.

- `scanner`: the tokenizer, proved equal to a character-level specification
  (`scan`).
- `parser`, `expressions`, `types`, `declarations`: a recursive-descent
  parser, proved to compute the grammar written as functions on token
  sequences in `grammar` and `decl_grammar` — the term parsed, the position
  where parsing stops, or the error with its token, span and message.
- `qtt`: the multiplicity (usage) and buffer-bounds checks, with laws about
  usage counts.
- `substitution`: capture-avoiding substitution, renaming binders that
  would capture a free variable of the replacement.
- `evaluator`: a fuel-bounded evaluator, with determinism and normal-form
  laws.
- `show`: the text of terms in the layout of `Debug`, as the REPL shows
  them.
- `irbuilder`: lowering of terms to LLVM-style instructions, proved equal to
  the `lower` specification, with laws on register naming and on lowering
  only appending instructions.
- `compiler`, `driver`, `repl`: the pipeline from source text to parsed
  declarations, checked declarations and IR, the places searched for an
  import, and the interactive session.

`app/` holds the command-line program: reading files, writing the IR and
calling the system toolchain, which the library does not do itself.
