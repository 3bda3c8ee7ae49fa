# remnem

Finds every nested `node_modules` directory in a project and deletes them all.

Each directory is renamed out of the repository into a staging directory below the system's
temporary directory, which takes no time however large it is, and a background process removes
the staging directory. With `--sync`, or where the temporary directory is on another filesystem,
the directories are removed where they are.

## Layout

- `src/` is the library, verified with Verus. It does no input or output: it decides what is
  done with each directory listing, each file operation and each answer, and what is printed.
  - `path`, `order`, `text`: paths as lists of names, their order, text and numbers
  - `walk`, `tree`: one step of the walk, and what a walk over a whole tree comes to
  - `finder`: the directories that were found, in order
  - `disposal`: the states of a deletion
  - `trash`: moving directories to the trash
  - `glob`, `workspace`: patterns for paths, and the layout of bun and pnpm workspaces
  - `size`, `json`, `report`: byte counts, JSON, and what is reported
  - `cli`, `run`, `api`: the command line, a run of the program, and the JavaScript interface
- `app/` is the program: it reads directories, renames, removes, asks and prints.
- `tests/` runs the library on examples.
