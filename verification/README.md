# Tokamak

Tokamak runs local language models with llama.cpp. This repository holds the part
of it that decides and computes, as a verified library, and the application around
it.

- `src/` is the library. Every function states in its contract what it returns,
  and Verus proves it. What follows for the library as a whole is stated in the
  proof functions whose names begin with `law_`: that migrating a session keeps
  its transcript, that a recommendation stays within the memory of the GPU, that
  a slower draft is never shown as a gain, and so on.
- `app/` is ordinary Rust: files, processes, requests and events. It hands plain
  values to the library and carries out what the library decides. Its window is
  only built by Tauri's own build script.
- `tests/` run the library on concrete values.

Floating point numbers are held as their IEEE 754 encodings and computed with
integers, so that rounding is part of the contracts. JSON is read by `serde_json`
and then turned into a tree of the library's own; what is trusted of `serde_json`
and of the standard library is stated beside each call, in `json.rs` and `text.rs`.
