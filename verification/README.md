# Adder

Adder is a small language that keeps Python's readability (significant
indentation, low punctuation, string interpolation) and adds algebraic data
types, exhaustive pattern matching and nullable types. This crate is its
interpreter as a Verus library: lexing, checking and running each have a contract
that says exactly what they give, and Verus proves that the code keeps it. Parsing
is not part of the library: it is a function that the host hands in, with no
contract of its own.

```adder
enum Expr:
    Num(Float)
    Add(Expr, Expr)
    Mul(Expr, Expr)

fn eval(e: Expr) -> Float:
    return match e:
        .Num(n):    n
        .Add(a, b): eval(a) + eval(b)
        .Mul(a, b): eval(a) * eval(b)

print("= {eval(Expr.Mul(Expr.Num(2.0), Expr.Num(4.5)))}")     # = 9.0
```

## Layout

| Path | Holds |
| ---- | ----- |
| `src/lexer.rs` | source text to tokens, with layout and interpolation |
| `src/ast.rs` | the syntax tree |
| `src/checks/` | match exhaustiveness and null narrowing |
| `src/interp/semantics.rs` | what programs mean |
| `src/interp/` | the tree-walker, proved to do what programs mean |
| `src/error.rs` | diagnostics and their rendering |
| `src/docs.rs` | declarations with their doc comments |
| `src/integer.rs` | integers of any size, over `num_bigint` |
| `*_laws.rs`, `laws.rs`, `soundness.rs`, `source_places.rs`, `interp/places.rs`, `interp/progress.rs`, `interp/printing.rs`, `interp/replay.rs` | laws of the above, and what their proofs need |
| `app/` | the `adder` command: files, output, floating point, the parse stage |
| `tests/` | tests |

## How a run works

`run_source` takes a source text through lex, parse, check and run. The parse stage
is a function of the host. Floats are kept as their bits; where a run needs float
arithmetic or a float's text and the table of answers does not hold it, the run
ends with a question. The host answers it and starts the run again: a run that
needs no more answers, and whose budget lasts, gives the same result under every
larger table and budget, and what a run printed before it stopped is what the next
one prints first (`interp/replay.rs`).
