# acheron

Configuration readers for a reverse proxy and load balancer, written in Verus.
Each reader is an executable function whose result is pinned down by a
specification over sequences of characters and maps, and proved by Verus.

- `src/`: the verified library. `lexer` and `nom_parser_impl` hold the
  keyword-style grammar; `combined_parser`, `manual`, `load_balancer` and `idk`
  the line-oriented readers; `sections` and `ini` fold parsed records into
  maps; `chars`, `text`, `headers` and `str_map` the shared text and map
  helpers.
- `tests/`: scenario tests run against the compiled library.
- `app/`: the program around it (file reading, printing, TOML input).
