# kobold-bench

Synthetic COBOL corpora, parity re-checks and run receipts for measuring the conversions of
`gnucobol-rs` and the reconciliation pipeline of `kobold-data-shim`. The rule behind every
measurement: a number is reported only after the output has been shown to be the expected one, byte
for byte.

The library under `src/` is verified with Verus:

| Module | Content |
| --- | --- |
| `lcg` | the generator behind every corpus, and its stream |
| `field` | field attributes and the zoned, packed and binary storage forms |
| `cobol` | the calls into `gnucobol-rs`, with what is relied on of each |
| `batch` | batches of money fields, their conversion and the parity re-check |
| `text` | decimal and hexadecimal text, JSON string fields, number parsing |
| `encode` | a number, given as text, in the storage form of a picture |
| `literal` | which decimal literals write the same number |
| `amount`, `corpus` | the digits and fields that the synthetic records are made of |
| `digest`, `recon` | the calls into `sha2` and `kobold-data-shim` |
| `bench`, `stages` | the end-to-end benchmark: corpus, reference hash, stage profile |
| `scale` | the scale measurement: corpus, hash chain, manifest, block-wise scan |
| `baseline` | pinned output hashes, and whether a measurement is admitted |
| `receipt` | the receipts of the measurements |
| `procfs` | what a receipt takes from the process file system |

`app/` is the program around it: files, clocks, floating-point rates and console output.

```sh
kobold-bench kobold-throughput 10000000   # DISPLAY S9(7)V99 -> COMP-3, with a parity re-check
kobold-bench bench2 50000                 # the reconciliation pipeline, end to end
kobold-bench scale 1g                     # the same over a corpus on disk, serial and parallel
kobold-bench cob_move                     # Criterion micro-benchmarks, both directions
```

Linked under the name of a measurement, the program runs that one: `kobold-throughput 10000000`.
