# zerobrew

The rules of a package manager for Homebrew packages, as a verified Verus library:
what a Brewfile, a formula file or a cask file says, which requests are made to the
API and what their answers mean, which formulas a package needs, and what is done, in
which order, to install or remove it.

- `src/` is the library. It computes on plain values and decides on the next step;
  every function states what it returns, and Verus proves it. Functions whose names
  start with `law_` state what holds of several of them together.
- `app/` carries the decisions out: files, processes, the network and the parts that
  store, link and record packages.
- `tests/` runs the library, with tree-sitter, serde_json and reqwest linked.

What the library takes on trust stands in `ruby.rs` (tree-sitter with its Ruby
grammar), `json.rs` (serde_json), `api.rs` (the words of an HTTP status) and
`stand_in.rs` (a method of std's `String`).

The scanner of the Ruby grammar can save only so much of the heredocs that are open.
`heredoc.rs` says which sources it is known to be safe with. For any other source
`stand_in.rs` makes a text in which the words of the heredocs have short names, and
every character keeps its place: tree-sitter parses that text, and what its nodes span
is read from the source.
