# onesol_swap

The verified core of a Solana token-swap aggregator program, written in Verus.

- `src/distribution.rs`: splitting a trade volume into parts and finding the
  best distribution of the parts over several exchanges and a second reserve
  (a dynamic program),
  with proofs that the distribution hands out every part and that no other
  split is worth more, and that scaling every return by a positive factor
  leaves the distribution unchanged.
- `src/processor.rs`: the program's checks and decisions. A swap is a state
  machine: `Processor::process_swap` checks the accounts and asks for the
  first token transfer, `Processor::continue_swap` takes the outcome of each
  call into another program and says what to do next.
- `src/accounts.rs`: plain-value models of accounts and instructions.
- `src/spl.rs`: the calls into `solana-program`, `spl-token` and
  `spl-token-swap`, with the contracts the rest relies on.
- `src/error.rs`: the program's errors.
- `app/`: the runtime side: converts `AccountInfo`s to plain values, performs
  the calls that the state machine asks for, logs, and maps errors.
