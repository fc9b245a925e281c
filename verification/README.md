# LanBeam

LanBeam sends files and quick texts between the devices of a local network. This
crate is its core, written in [Verus](https://github.com/verus-lang/verus): the
rules by which it names and places received files, finds and lists devices,
pairs with them, limits and serves browser shares, keeps its settings and
partial files, and strips metadata from images. Every function states in its
contract what it returns, and the contracts are proved.

## Layout

- `src/` is the verified library.
  - `sanitize`, `placement`: names of received files, and where they end up.
  - `share`, `share_links`, `pages`: browser shares, their links and pages.
  - `discovery`, `commands`, `pairing`, `sending`, `state`: devices, pairing and
    transfers.
  - `settings`, `startup`, `paths`, `partials`, `identity`, `diagnostics`: what
    is kept on disk and decided at launch.
  - `protocol`, `exif`, `encoding`, `percent`, `calendar`, `net`: formats.
  - `text`, `order`, `keymap`, `time`, `error`, `consts`: what the others share.
- `tests/` runs the library on concrete values.
- `app/` is the program around it: sockets, files, the keychain, the HTTP server
  and a line-by-line command interface for a user interface to drive. The
  transport that dials a peer and streams the files is not part of it; `sending`,
  `protocol` and `wire` are what it builds on.

## Conventions

Time is a parameter: a function that depends on it takes an `Instant`, or a
`Clock` where a wall-clock time is shown as well. Work on the network or on disk
that alternates with decisions is split into steps: a function takes a step and
its outcome and returns the next step, and `app/` carries the steps out.

Public proof functions whose names begin with `law_` state what holds across
calls. Contracts of outside functions are believed, not proved; each of them
stands at a wrapper marked `external_body`, or at an `assume_specification`, with
a comment that says what is claimed.
