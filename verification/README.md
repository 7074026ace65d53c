# azure_vm_info

Lists the virtual machines of every Azure subscription, gives each one its
instance size flexibility group (from the `isfratioblob.csv` table published
at https://aka.ms/isf), looks up the retail prices of each group's base size
and prints a CSV summary of the reservations that would cover the machines.

## Layout

- `src/` is the library, written in Verus and verified:
  - `read_csv.rs` parses the flexibility table and keeps the base sizes of
    each group;
  - `lib.rs` gives machines their flex group (`enrich_vm_fields`), plans the
    summary (`plan_summary`, `sorted_flex_groups`) and escapes CSV fields;
  - `pricing_data.rs` builds the price query and decides, record by record,
    what a retail price record contributes (`choose_price_actions`);
  - `cleanup_vm_name.rs` splits and cleans size names;
  - `cmd.rs` splits a command line into its words and reads a command's
    output as JSON;
  - `text.rs` and `numbers.rs` hold the string operations and the grammar of
    a decimal number that the rest is specified with;
  - `patterns.rs`, `sorting.rs` and `json_text.rs` are the calls into
    `regex`, `itertools` and `json`, with the contracts that the proofs rely on.
- `app/` is the program around it: signing in with the Azure CLI, listing
  subscriptions and machines, spawning `az`, reading the CSV file, and the
  floating point amounts of the price summary.
- `tests/` runs the library on concrete values.
