# Janus

A proxy that compresses requests to a language model before it forwards them,
and answers from a semantic cache where it can.

`src/` is the library, verified with Verus:

- `pipeline`: the compression stages. `dedup` replaces repeated tool results,
  `regex_compress` removes docstrings, comments, white space, long stack traces
  and repeated code blocks, `ast_prune` cuts the bodies of functions that the
  user does not ask about. `laws` holds what the stages guarantee together, and
  `shape` what of a request body they keep.
- `proxy`: the course of a request as a state machine, from what has happened
  to what is to be done.
- `stream_reassemble`: event streams into responses and back;
  `stream_round_trip` shows that the one undoes the other.
- `cache`: the commands and replies of the semantic cache, and the course of a
  lookup and of a store.
- `session`, `tokenizer`, `json`, `patterns`, `hashing`, `text`, `metrics`,
  `config`: what these rest on.
- `tui`: the state of the dashboard and what it shows.

`app/` is the program around it: the command line, the HTTP server, Redis, the
embedding model and the drawing of the dashboard. `tests/` runs the library.
