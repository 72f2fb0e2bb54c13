# wasm_plugins

The verified core of a set of WebAssembly component experiments.

- `src/counting.rs`: counting a byte in a buffer (the counting components'
  exports and the hosts' native baseline), building the benchmark buffer, and
  the laws of counting.
- `src/plugin.rs`: how a DLT parser plugin turns the parser's answer for a
  slice into the plugin interface's result.
- `src/session.rs`: the plugins' parse loop over a buffer, as a cursor fed
  with the parser's answers.
- `app/`: the wasmtime hosts, the components' export glue and the DLT
  plugins' calls into the parser.
