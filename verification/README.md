# kyberfrog

KyberFrog orchestrates Kyber streaming on a show network: it generates one
`kyber_config.toml` per transmitter, supervises the `kycontroller` and
`kyclient` processes, announces them over mDNS and serves a small web UI.
A companion bench instrument measures glass-to-glass latency by painting a
machine-readable frame id into every frame and reading it back.

## Layout

- `src/` is the library, written in Verus. Every function carries a contract
  that Verus proves: configuration documents and their validation
  (`config`, `legacy`, `client`), the generated instance config (`gen`,
  `table`), operator commands on the show (`ops`, `naming`), the restart
  policy of a child process (`supervisor`), tray menus and commands (`tray`),
  discovery records (`discovery`), filesystem locations (`paths`,
  `launch`), encoder selection (`encoder`, `gpu`), capture-device listings
  (`cameras`, `session`, `spout`), the web API's decisions (`web`, `status`),
  and the bench: frame-id bands (`idcode`), the overlay (`hud`), the scrolling
  background (`backdrop`), argument parsing (`args`) and the schedules, rows
  and pixel-format rules of the instrument (`bench`). Laws that relate several
  functions are public proof functions named `lemma_*`.
- `tests/` runs the library on concrete values.
- `app/` is the program around the library: process spawning, files,
  sockets, mDNS, the web server and serde copies of the library's types.

Maps keyed by text are held in the library's own verified containers:
`StrMap` (string keys) and `StatusTable` (child keys) are vectors of
key/value pairs with unique keys, viewed as a `Map`, and `TomlTable` models a
TOML document as plain values. vstd gives `HashMap` a useful specification
for integer keys only, and the logic reads the TOML documents field by field,
so an opaque `toml::Table` could not be reasoned about; app/ converts between
`toml::Table` and `TomlTable` at the file edge. Entry order is not part of
these views: nothing depends on it.

Calls into `sha2`, `hex`, `url` and the standard library's lossy UTF-8/UTF-16
decoders go through a handful of trusted wrappers whose contracts are stated
next to them.
