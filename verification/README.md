# ty_unnecessary

Finds tests in Python code whose result is statically known: comparisons and membership
tests between types without overlap, `isinstance`/`issubclass` calls that always or never
hold, and conditions that test a function or a coroutine. It also answers what a type
checker would reveal for an expression, which definitions a call leads to, and what a
change of some files would add to the diagnostics.

The library (`src/`) is written in Verus: every function has a contract, and every contract
is proved. The type checker itself is not part of it. What the library needs to know of
types, classes, functions and syntax trees is plain data (`types`, `syntax`); where it needs
a type that only the type checker can build, it stops with a `Query`, and is asked again
once the answer is recorded.

| Modules | What they do |
| --- | --- |
| `text`, `display` | character sequences; type displays in the consumer's form |
| `syntax`, `types` | the data that the checks read |
| `unnecessary`, `checker` | when types are comparable; the pass over a module |
| `inferred_return` | the return types that functions without an annotation reveal |
| `callee`, `edges` | the definitions that calls lead to |
| `span` | the type of the expression at a span |
| `diagnostics` | diagnostics as the consumer reads them |
| `reveals`, `batch`, `session`, `serving` | the batch protocol |
| `args`, `config` | the command line and the project configuration |
| `laws`, `display_laws`, `queries` | what holds of the library as a whole |

`app/` is the program around the library: arguments, files, JSON, and the calls into the type
checker. Before it calls a library function that needs a well-formed store, it asks
`TypeStore::is_wf`.

`--version` prints the commit that the program was built from: the value of
`TY_UNNECESSARY_COMMIT` during the build. `extras/with_commit.sh` runs a build command with
the commit that is checked out, unless the caller has set another.
