# Sai

Sai is a small Lisp-like language with static types. This crate holds its front end,
verified with Verus, and a REPL around it.

```lisp
(let [string name] "Yubai")   ;; immutable
(mut [int age] 18)            ;; mutable
(set! age 19)
(if (> 2 1) 2 :else 1)
(def twice ([int n] int) (+ n n))
((fn ([int a] int) a) 2)
```

## Layout

- `src/` — the verified library:
  - `parser/lexer.rs`: characters to tokens, with a model `lex_from` of what the
    lexer produces;
  - `parser/tree.rs`: tokens grouped into trees by parentheses;
  - `parser/grammar.rs` (the model) and `parser/forms.rs` (the code): trees to
    expressions;
  - `parser/validator.rs`: where declarations, closures and `else` may stand;
  - `parser/parser.rs`: the three steps above, behind `Parser::parse`;
  - `types/`: the type checker (`checking.rs` is its model, `type_checker.rs` the code);
  - `diagnostics.rs`: diagnostics and how the terminal shows them;
  - `cli.rs`: what the REPL decides — what a read line amounts to, and how a
    submission is checked before it runs.
- `app/` — the REPL itself (terminal input through `rustyline`) and the evaluator,
  which works on floating-point values and shared environments.
- `tests/` — tests of the library.

Each public function states its result in terms of the models, and the laws of the
language (a `let` variable cannot be assigned, a name once declared stays known,
parsing gives a program exactly when no diagnostic is left, ...) are proof
functions next to the models.
