# expert_system

A propositional expert system. Rules such as `A + !B => C | D` are read
line by line, normalised, and conjoined; lines starting with `=` give the
facts known to be true; lines starting with `?` ask whether facts are true,
false or undetermined.

Layout:

- `src/` — the verified library.
  - `charset.rs`, `fact_values.rs`: sets of fact names and partial truth
    assignments.
  - `rule.rs`: rules, their meaning under a valuation, and the exhaustive
    satisfiability search.
  - `simplify.rs`, `negation.rs`: conjunction, substitution of known facts,
    De Morgan's laws, removal of double negations, each proved to keep the
    meaning of a rule.
  - `parse.rs`: tokens, structural checks, shunting-yard conversion and the
    building of rules.
  - `infix.rs`: how an expression is meant to be read (precedence, left
    grouping, parentheses), and the proof that parsing reads it so.
  - `line.rs`: blanks and comments.
  - `inference.rs`: models of the rules under the facts, and what the
    answers to queries mean.
  - `exec.rs`: the session state and how each line changes it.
  - `program.rs`: the single-pass reader of a whole program.
  - `error.rs`: errors and how an interactive session treats them.
- `app/` — the command-line program: arguments, files, the prompt, printing.
- `tests/` — tests of the library.
