# optpy

A compiler from a subset of Python to Rust, with its contracts proved by Verus.

- `parser`: reads Python source with `rustpython-parser` (`parser::source`) into a syntax
  tree (`parser::python`), then into statements, lowering list comprehensions, `for` loops
  and tuple assignments; `parser::ready` tells which programs it takes.
- `resolver`: names the variables and functions (`__v<k>`, `__f<k>`), rewrites the calls of
  built-ins and of imported modules, passes the variables that functions share, and
  repeats these rounds until nothing changes.
- `generator`: writes the resolved statements as Rust tokens over the runtime's `Value`.
- `compiler`: a smaller, earlier compiler that names each function's variables and writes
  them as `let` bindings.
- `dump`: prints statements back as Python source.
- `runtime`: parts of the runtime that the generated code calls: `heapq`, iterators,
  typed lists, `collections.deque`, strings, booleans, the typed built-ins on integers,
  `pow` with a modulus and `math.gcd`.
- `text`: strings and decimal numbers.

`app/` shows the errors as messages and turns the generated tokens into a `proc_macro2`
token stream.
