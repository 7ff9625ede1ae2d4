# heel_gun

A tester of HTTP servers' robustness: it requests a server's endpoints with
arguments generated at random from configurable rules and records the
requests that end in a server error (5xx) or a broken connection.

- `src/` is the verified library (Verus):
  - `text.rs`: splitting text on a separator and into words, comments,
    decimal formatting, each proved against its definition;
  - `target.rs`: HTTP methods, argument generators and their sampling, and
    the construction of request URIs from the drawn texts;
  - `config.rs`: configuration formats and the reading of Play Framework
    "routes" files into test targets;
  - `outcome.rs`: the outcome of a request and which outcomes are failures;
  - `rng.rs`, `http_types.rs`: the calls into `rand` and `http`.
- `app/` is the command-line program: argument parsing, JSON/YAML reading,
  the HTTP client and the failure log.
- `tests/` runs the library on concrete values.
