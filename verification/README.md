# Gaze

Facial authentication for Linux: the rules and decisions, verified with Verus.

- `src/` is the library. Its functions take what was gathered as plain values and decide: what
  `gaze doctor` concludes, which camera is opened and what it may fall back to, how a face in a
  frame can be used, when an infrared emitter is switched and how, what a credential record
  holds and who may read it, and what the windows show and write. Every function has a contract
  that Verus proves.
- `tests/` runs the library on concrete machines, frames and records.
- `app/` is the program around it: the command line, the files, the bus, the cameras, the TPM
  and the windows.

What is believed without proof stands in `src/secret.rs` (hashing, authenticated encryption,
random bytes and wiped memory) and in `src/text.rs` (one character appended, one text quoted).
