# ldap3

The core of an LDAP client, written in Verus: BER reading and writing under limits, search
filters, request constructors, message framing, admission of requests, and the decisions of a
connection about requests and responses. Verus proves that the functions in `src/` do what their
contracts say; what other crates do is stated in trusted items, each with a comment that names the
outside function.

- `src/` is the library. `src/lib.rs` lists the modules. Laws that span several functions stand
  in `roundtrip`, `framing`, `filter_laws`, `request_laws`, `raw_laws`, `allocation` and `ids`.
- `tests/` runs the library on concrete values. `tests/grammar.rs` compares the filter reader with
  a second one out of parser combinators.
- `app/` is ordinary Rust around the library: sockets, TLS, tasks, and the loop that hands events
  to `conn::Exchange::step`. It is a crate of its own and depends on the library. The feature
  `tls-native` selects the TLS library of the operating system in place of Rustls, and `gssapi`
  adds Kerberos security layers.
