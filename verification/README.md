# qsoripper

The logic of the QsoRipper amateur-radio tools, written in Verus and proved
against its contracts:

- `src/` — the verified library:
  - `textual`, `snapshot`, `stabilizer`, `baseline`: whitespace tokens,
    snapshot normalisation, the append-only transcript merge, the prefix
    stabiliser and the rolling-window decode schedule of the CW decoder;
  - `morse`, `append_decode`, `rhythm`, `ring`, `stats_line`: the Morse
    table, the event-stream decoder that consumes each on/off event once,
    the rhythm filter's hysteresis, the confidence gate, the capture ring
    buffer and the reading of the decoder's calibration log lines;
  - `geodesy`, `duration`, `form`, `header`, `storage`: Maidenhead locators
    in exact 1/480-degree units, coordinate validation on binary64 bit
    patterns, duration columns, the advanced form panel, header indicators
    and the logbook database settings;
  - `stress`, `catalog`, `requests`, `preview`, `ledger`: the stress
    harness's vector tables, worker fan-out, adversarial inputs, the
    requests each vector sends, UTF-8-aware previews and the run ledger with
    its snapshots, rates and event log;
  - `rng`: the evaluator's xorshift* generator and the character edit
    distance.
- `tests/` — tests of the library on concrete values.
- `app/` — the command-line front end and everything the library leaves
  out: floating-point geometry and signal judgements, JSON output, SQLite,
  the asynchronous stress session and process sampling.
