# maram

`maram` manages *worktree sets*: a base branch with its worktree under
`<maram dir>/<repo>/<branch>/base`, and variant branches `<variant>/<branch>`
with their worktrees beside it, each set with a Zellij session
`<repo>-<branch>` that has a tab per worktree.

The crate has two parts:

- `src/` is the library, written in Verus. It holds the decisions of every
  command (branch names, the directory layout, the record of a set and how
  each command changes it, the session layout, the repository name, the
  meaning of libgit2's answers) with their contracts and proofs.
  - `text`: characters, lines, splitting and trimming strings.
  - `path`: paths as a root flag and components, compared component-wise.
    A path keeps the text it was written as, and joining extends that text
    as `PathBuf::push` does; the components, without `.` and empty pieces,
    are what paths are compared by. A parent or a stripped path is written
    in normal form.
  - `path_map`: the map from variant names to worktree paths. vstd specifies
    `HashMap` only for keys whose hashing it models (integers, `bool`, and
    boxes of them); `String` is not among them, so a `HashMap<String, _>`
    would carry no provable contract. `PathMap` is a vector of pairs whose
    invariant is that no name occurs twice.
  - `naming`: sanitized branch names, variant branches, session names.
  - `metadata`: the record of a worktree set and its consistency.
  - `worktree_set`: where sets live and which one the current directory is in.
  - `zellij`: session names, the layout text, and the session list.
  - `git`: repository names, commit ids, and libgit2 outcomes.
  - `config`: the configuration and where its file is.
  - `cli`: the plans of the commands.
  - `commands`, `error`: the commands and the errors.
- `app/` is the program around it: the command line (clap), the terminal
  (dialoguer, indicatif, console), the disk (metadata in JSON, configuration
  in TOML), git (git2 and the `git` binary) and Zellij.

`tests/` exercises the library on concrete values.
