# calcrux

The verified core of a calculator: expressions are tokenized, parsed with a
six-level precedence grammar (implicit multiplication such as `2π` and
`3(4+1)`, right-associative `^`, postfix `!` and `%`), and evaluated on
exact rationals until a transcendental function or an irrational power
needs an arbitrary-precision real. Results are shown as decimal strings of a
chosen number of significant digits; for reading, a repeating fraction
is shown with its period overlined (`0.3̅`), and for typing in again a
rational is written exactly (`0.125`, `(1/3)`, `(-2/7)`) so that evaluating
the text gives the same number back.

Every public function in `src/` carries a Verus contract over a mathematical model:
token sequences and expression trees for the front end, fractions in lowest
terms for rationals, and the parts of an `astro_float` value for reals.
`malachite` does the rational arithmetic and `astro_float` the real
arithmetic; their results are stated (rationals) or named (reals) by small
trusted wrappers in `rational.rs` and `bigfloat.rs`.

Layout of `src/`:

- `lexer.rs`, `parser.rs`, `parse_print.rs`: tokens, the grammar, and the
  round trip of a fully parenthesised printout through the parser.
- `rational.rs`, `fraction.rs`, `bigfloat.rs`, `number.rs`: the numbers,
  lowest-terms facts (Bézout, Euclid, uniqueness), decimal literals.
- `eval.rs`, `display.rs`: evaluation and decimal formatting.
- `refeed.rs`, `repeating.rs`: text that evaluates back to the number, and
  the overlined display of repeating decimals.
- `api.rs`: `calc_eval` and the error types handed to callers.
- `units.rs`, `fx.rs`, `loan.rs`: routing of unit conversions, the checks of
  currency conversions and of loan terms.
- `laws.rs`, `eval_laws.rs`, `lexer_laws.rs`: properties proved for all
  inputs (exact rational arithmetic, `(x ÷ y) × y = x`, percent semantics,
  powers, factorials, function domains, parse errors, token spans and
  re-lexing, lexing errors); `refeed.rs` proves that the refeed text of
  every rational evaluates back to it. Real comparisons are stated as the
  order of the values that the `astro_float` parts denote, so the domains
  of `asin`, `acos`, `ln` and `log` read as `−1 ≤ x ≤ 1` and `x > 0`.

`app/` holds what works in `f64` or reads data files (unit and currency
conversion, loan schedules) and the UniFFI exports.
