# parser

A Verus-verified library for reports of financial transactions and the
smaller programs that grew around it.

- `transaction`, `text_record`, `report`: a transaction and a report in the
  comma-separated, key-value text and big-endian binary formats, with
  readers and writers whose contracts say byte for byte what is read and
  written, and laws that every format reads back what was written.
- `converter`: the format converter behind the command-line program in
  `app/`.
- `plugins`: the blur and mirror image plugins (parameter strings and the
  pixel work on RGBA buffers).
- `bank`: deposits, withdrawals, transfers and chains of them over account
  balances.
- `blog`: the blog service's errors, requests, checks and the client's
  reading of answers.
- `quotes`: the `STREAM` command of the quote streaming service and the
  decisions of its server and client.
- `broken_app`: small numeric and text helpers.
- `bytes`, `chars`, `strings`, `reader`: the byte, character and input
  handling the rest is built on.

`app/main.rs` is the converter: it reads the input file and prints the
report in the requested format.
