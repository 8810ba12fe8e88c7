# evm_loader

Verified parts of an EVM loader that runs as a Solana program, written in Verus: executable
Rust whose behaviour is stated in `requires` / `ensures` contracts and proved. The library
holds the instructions of the interpreter, its frames, memory and stack, the EOF format and
its validation, the account layouts and the application of storage changes; the loop that
dispatches instructions one after the other, and the call and create instructions, are not
part of it.

## Layout

- `src/` — the verified library.
  - `buffer`, `stack`, `memory`: the byte buffers, the word stack and the growing memory
    of an EVM frame, with laws such as what a read gives back of a write.
  - `opcode`, `opcode_host`: the instructions; those in `opcode_host` consult or change the
    account `database` and move between frames (`machine::fork` and `machine::join`).
  - `analysis`, `eof`, `eof_laws`, `validate`: jump-destination analysis, the EOF container
    format, with its encoding and decoding proved inverse to each other, and the validation
    of its code sections.
  - `precompile`: `ecrecover`, `sha256`, `bigModExp` and the bn256 operations.
  - `account`, `account_storage`, `executor`: the layouts and tags of the program's
    accounts over a plain model of an account (key, owner, data), the holder and storage
    cell accounts, and the plan and application of the storage changes an execution leaves.
  - `struct_logger`, `tracing`: the tracer that records every step.
  - `error`: the error type and Solidity revert data.
  - `uint`, `solana`: what the library has from `ethnum` and `solana-program`, each behind
    a function whose contract states what the crate's code does.
- `tests/` — tests of the library, run with the real outside crates.
- `app/` — what runs around the library: serialized forms of its types, the program log,
  the system-program calls that create accounts, and the conversion of runtime accounts
  into the library's account model.
