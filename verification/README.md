# mcospkg

A package manager for MinecraftOS, with its core verified by Verus.

- `src/` is the verified library: the repository configuration format,
  the installed-package database, dependency resolution for installing
  and for removing, the stages of an installation and of a removal, and
  the installer's and remover's step-by-step decisions (`InstallRun`,
  `RemoveRun`). Its contracts and laws are stated over `Seq`s of
  characters and proved.
- `app/` is the executable: command lines, files, downloads, archives,
  running scripts. It performs the actions the library decides on.
- `tests/` runs the library on concrete values.

The library calls `sha2`, `hex`, `serde_json`, `chrono` and `rand` through
a few small trusted wrappers whose contracts say what those crates do.
