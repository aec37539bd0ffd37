# turtl_core

The core of an encrypted note store, as a verified library.

- `src/models`: protected models. `content` says what a model is and what each operation makes
  of it; `model` and `protected` are the code; `laws` and `roundtrip` state what holds of all of
  it, above all that deserializing undoes serializing.
- `src/json`, `src/crypto`, `src/text`: JSON values, encryption and text, each over a crate or
  the standard library, with what is taken for granted of those said beside each call.
- `src/messaging`, `src/capi`, `src/startup`, `src/sock`: by which channel a message goes, what
  the C functions return, how the core comes up, and what a socket connection does in turn.
- `app`: threads, files, pointers and sockets around the library. The program that embeds the
  core supplies its configuration, its channels and its dispatcher as a `Host`.
- `tests`: the library on concrete values.
