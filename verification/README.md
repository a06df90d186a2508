# eternalist-foundry

Foundry turns a product-owned evidence contract into CI proof jobs, checks that
every planned proof returned a receipt, and derives the public support ledger
from judged evidence only.

The library under `src/` is verified with Verus:

- `contract` — coordinates, profiles, delivery, trust, proofs and laws; `Contract::validate`
  accepts exactly the valid contracts and names a true defect otherwise.
- `plan` — `Plan::forge` expands a contract into one node per proof and placement.
- `receipt` — what an executed proof seals, and how an execution is located.
- `digest` — SHA-256 content addressing and the sorted artifact inventory.
- `support` — judgment of evidence against the plan, the support ledger, staging names.
- `toolchain` — the exact Rust toolchain declaration and its install commands.
- `manifest` — the repository boundary for path dependencies and Cargo configuration.
- `laws` — properties of the library as a whole, proved.

`app/` is the `foundry` command: it reads and writes files, runs processes and
serialises values, and leaves every decision to the library.
