# hurl

The HTTP client of Hurl, written and proved in Verus.

- `src/` is the library. `Client` collects the calls that its curl handle is owed,
  `Exchange` takes the events of a transfer, and both give back what to log. Every
  function states in its contract what it returns.
- `src/outside.rs` holds the functions of other crates and of the standard library that
  the logic calls, each with a contract that is taken on trust.
- `tests/` runs the library, together with the crates that it calls.
- `app/` puts the library on a real curl handle.

What holds of the library as a whole stands beside the functions it speaks of, as public
proof functions: a header, a cookie or header data that is written is read back, encoded
values hold no separator, no given header is added again, the number of redirections is
limited, a cleared cookie storage reads as empty, reading it loses no cookie without an
expiry, and the verbosity changes nothing but the log.
