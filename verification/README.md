# satysfi-formatter

A formatter for SATySFi source code, written in Verus: the layout of every node of the
syntax tree is stated as spec functions, and the code that writes the output is proved to
produce exactly that layout.

`format(input, option)` parses the text with `satysfi_parser`, builds the tree in character
positions, puts the branches of each conditional under `then` and `else` nodes and each
comment into the tree, lays the tree out, and removes the white space at the end of every
line. A text that does not parse is given back as it is.

Layout of `src/`:

- `text.rs`: white space, trimming, splitting and joining of character sequences.
- `width.rs`: display widths of lines, through `unicode_width`.
- `rule.rs`: the rules that tree nodes are labelled with.
- `parse.rs`: the call into `satysfi_parser`.
- `cst.rs`: trees, their model, and their well-formedness.
- `comment.rs`: finding comments and putting them into the tree.
- `source.rs`: a parsed text made ready for layout.
- `layout.rs`: the layout rules, as spec functions.
- `options.rs`: formatting options and the preferred line width.
- `formatter.rs`: the executable layout, proved against `layout.rs`.
- `lib.rs`: `format`, and the laws of its output.

`app/main.rs` is the command-line program: it reads a file, formats it and writes the
result.
