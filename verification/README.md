# moneylens-converter-rs

Converts the sheets of a MoneyLens personal-finance workbook (OpenDocument
spreadsheet) into the normalized JSON payload of the MoneyLens bulk upload.

```bash
moneylens-converter-rs --input path/to/workbook.ods --output output.json --month 3
```

`--month` accepts 1 through 12 and limits the payload to that month: savings
by their date, earnings and spending by the month's sheet. Categories, bank
accounts and tags in the payload are derived from the transactions it holds.

## Layout

- `src/` — the library, verified with Verus.
  - `text.rs` — characters, trimming and searching of text.
  - `parsers/sheet.rs` — how a `spreadsheet_ods::Sheet` is read: the calls into
    spreadsheet-ods and chrono, with their contracts.
  - `parsers/utils.rs` — month names, the month of a date, bank account
    symbols, typed cell values.
  - `parsers/{save,earn,spend}.rs` — the three kinds of sheet.
  - `payload/` — the payload records, the builder that deduplicates entries
    and splits `Parent/Child` categories, and the laws it obeys.
  - `lib.rs` — the month filter and the assembly of a workbook's payload.
  - `options.rs` — the command-line options.
- `app/` — the command-line program: argument parsing, reading the workbook,
  JSON output.
- `tests/` — tests of the library.
