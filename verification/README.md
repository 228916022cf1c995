# cretonne

Two parts of a code generator, written in Rust and verified with Verus.

- `src/ir/stackslot.rs` keeps track of the stack slots of a function. Outgoing argument slots are
  kept in order and reused. `src/ir/frame.rs` is the mathematical model, with the laws of the slots.
- `src/wasm/func_translator.rs` translates a binary WebAssembly function: the normal arguments and
  the declared locals become numbered variables, and the operators of the body are handed one after
  the other to a `FuncEnvironment`, until the outermost control block is closed. `translate` takes
  code that ends there; `translate_prefix` leaves what comes after it in the reader.
  `src/wasm/laws.rs` states what holds of the variables and of the outcome.

The other modules hold the types that these two work on: `src/ir/types.rs`, `src/ir/entities.rs`
and `src/ir/function.rs` for the intermediate language, `src/frontend.rs` for a function body under
construction, `src/wasm/state.rs` for the stacks of the WebAssembly code, `src/wasm/environ.rs` for
the environment, and `src/text.rs` for numbers as text.

Bytes are decoded by the `wasmparser` crate, behind the three functions in `src/wasm/reader.rs`
whose contracts are taken on trust.
