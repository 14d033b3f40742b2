# frostwall

Encrypted file transfer between two devices, and the small rendezvous service
that lets them find each other across networks. The rules of both are a library
whose behaviour Verus proves; everything that touches a socket, a disk or a
clock is ordinary Rust around it.

| Directory | What it holds |
| --- | --- |
| `src/` | the verified library |
| `tests/` | tests of the library on concrete values |
| `app/` | the programs: the mailbox service, and the desktop commands |

## The library

| Modules | What they decide |
| --- | --- |
| `text`, `path`, `table` | characters, paths and tables that the rest speaks of |
| `wire`, `protocol` | the bytes of a message, both ways |
| `crypto`, `hashing` | key schedule, sealing, MACs and file hashes |
| `pairing`, `session`, `liveness`, `host`, `joiner` | pairing two devices with a six-digit code |
| `transfer`, `sender`, `receiver`, `collect` | what is sent, and what is accepted |
| `coordinator`, `commands`, `config` | one session, its commands and settings |
| `mailbox`, `internet`, `discovery` | finding the other device |
| `messages` | what the user is told |

Each step that needs the outside world is asked for by the library and performed
by its caller: a state machine takes what happened and says what to do next.

Public proof functions named `law_...` state what holds across functions: that
a transfer arrives as it was sent, that no received file leaves its directory,
that nothing is received without consent, that guessing a code is bounded.

Ciphers, hashes, key agreement and the encoding of integers and lists come from
their own crates. The functions that call them carry the contracts that are
believed and not proved, each with a comment that says what it claims.
