# Block Confidence Monitor

Analyzes parachain collator logs: which blocks a collator built, which of them were included on the
relay chain, why the others were dropped, and, with the logs of several collators, whose blocks were
rebuilt by whom.

The library in `src/` is written in Verus and holds all the logic, with contracts:

- `patterns`, `log_parser` — from log lines to events; `logs`, `types` — what a log, and the logs of
  several collators, hold
- `hash`, `hex` — hashes, whole or with the middle left out, and the registry that finds the whole
  hash for a truncated one
- `scale`, `chain_client` — values and events of the relay chain, head data, the search for session
  boundaries
- `built_blocks`, `drops`, `collations` — built blocks, drops and their reasons
- `authorship`, `rebuilds`, `slot_boundaries`, `duplicates` — the comparison of collators
- `document`, `report`, `multi_report` — the report
- `search`, `text`, `time`, `model` — the vocabulary of the contracts

`app/` is the command line program: it reads files, queries the relay chain, and computes the
quotients of the report in floating point.
