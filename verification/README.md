# hyper

The front end of Hyper, a small Python-shaped language, as a Verus library:
every function in `src/` carries a contract that Verus proves.

- `scanner`, `grammar`, `parser`, `ast`, `render`: source text to tokens to
  syntax trees (the grammar as spec functions, which the parser is proved to
  follow exactly), and the printed form of a tree.
- `types`, `semantic`: the static type checker; `scoping`: what checking a
  statement may change (findings only appended, the expected return type
  given back, names of enclosing scopes kept).
- `strings`, `unicode`: the string methods programs call (`split`, `center`,
  `title`, ...), stated over character sequences.
- `json`: reading and writing the text of the `json` module.
- `fileio`: the decisions of the file handles (modes, line splitting,
  positions, seeks); `filebuf`: a handle's read-ahead and write-behind
  buffers, which `app/file_handle.rs` drives against the operating system.
- `builtins`: the integer builtins of the compiled runtime (`bin`, `oct`,
  `hex`, `**`, `//`, `divmod`, `chr`, `ord`); `rtlist`: `bool`, `all`,
  `any`, `abs`, `int`, `float`, `sum`, `min`, `max`, `sorted`, `reversed` and `==`;
  `rtcollections`: list and dict reads and writes; `values`: how runtime
  values print.
- `lower`: lowering statements and expressions to the intermediate
  representation (`hyper compile --emit-ir` prints it), proved equal to its
  spec functions; the code of an imported module is not lowered here.
- `module`: where imported modules live, and a loader that parses each file
  once and refuses import cycles.
- `error`, `driver`, `cli`, `ir`, `literals`, `text`: diagnostics, the
  scanning-and-parsing pipeline, command-line options and shared helpers.

`app/main.rs` is the `hyper` command (`tokenize`, `parse`, `typecheck`,
`compile`); it reads files and prints what the library returns.  Machine-code
generation is not part of this crate: `compile` prints the lowered program.
