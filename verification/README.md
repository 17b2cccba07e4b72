# clap_generate_zsh

Zsh completion scripts for command-line programs, verified with Verus.

- `src/model.rs`: the command tree a script is written for (`App`, `Arg`, `Switch`,
  `ValueHint`) and the search of a command by its binary name.
- `src/text.rs`: joining, character-wise replacement, decimal numbers.
- `src/escape.rs`: escaping of help texts and possible values, with the proofs that the
  chained replacements escape character by character, lose nothing, and leave no bare
  bracket, parenthesis or space.
- `src/order.rs`: the order of strings and of pairs of strings, and the sorted list of
  distinct pairs.
- `src/args.rs`: the `_arguments` call of one command.
- `src/zsh.rs`: the `case` blocks, the functions listing subcommands, and the whole script.
- `app/lib.rs`: reads a `clap::App` into the model and writes the script to a writer.
