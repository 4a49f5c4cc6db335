# operations_toolkit

Tools for the spreadsheets of a marketplace seller: supplier lists, restock
lists, order forms, invoices, stock reports and the shipment register with its
first-in-first-out stock analysis.

- `src/` is the library, verified with Verus. Each module states what its
  functions return in `requires`/`ensures` contracts over mathematical models
  (`Seq<char>` for texts, integers for quantities and dates):
  - `text`: trimming, splitting, searching, integer reading;
  - `calendar`: the Gregorian calendar and the calls into `chrono`;
  - `columns`: finding columns by the names the settings allow;
  - `inventory`: FIFO attribution of marketplace stock to shipment lots;
  - `stock`: reading the marketplace stock report;
  - `register`, `dates`: reading the master workbook of shipments;
  - `restock`: choosing the cheapest offer of every UPC;
  - `shipment`: joining invoices with restock lists and order forms;
  - `future_price`, `cost`, `invoice`, `order`, `tsv`, `conversion`: the
    other jobs.
  Laws that span functions are public proof functions named `law_*`.
- `app/` is the command-line program around the library: workbook and CSV
  reading and writing, the SQLite register, settings files, and the
  computations in floating point.
- `tests/` runs the library on concrete values.
