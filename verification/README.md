# wavly

A terminal browser for a music library: it scans paths for audio files,
analyses each track's tempo, key and length in the background, and shows
the results in a table that can be sorted, filtered and shown in three key
notations (standard, Camelot, Open Key).

The logic is a Verus library whose behaviour is stated in contracts and
proved:

- `src/key_format.rs`: reading a key written in any notation and writing it
  in another; laws on round trips between notations.
- `src/filter.rs`: the filter query language (`120-128 Am`, `bpm=120-128,
  key=8A`), what a filter lets through, and how it is described.
- `src/number.rs`, `src/tempo.rs`, `src/digits.rs`: reading a typed tempo
  in the forms `f64` accepts (a sign, then `nan`, `inf`, `infinity` or a
  decimal number with an optional point and exponent), holding a finite
  value as its exact decimal cut to thousandths (digits of any length),
  and comparing, choosing and showing such bounds on those thousandths.
- `src/sort.rs`, `src/order.rs`, `src/positions.rs`: the table's order and a
  stable merge sort, with laws on what sorting keeps and produces.
- `src/scanner.rs`: which files a scan reports (audio files by extension,
  sorted by path, without repeats) and which error it stops on.
- `src/tui.rs`: the browser's state and how worker messages and key presses
  change it; what is drawn.
- `src/audio.rs`: the decisions of the decoding loop.
- `src/analysis.rs`, `src/text.rs`: track lengths and tempos as text, and
  character-level helpers.

Analysed tempos are held in thousandths of a beat per minute (the program
rounds the analyser's floating-point value to them) and shown by rounding
those thousandths to hundredths. The program around the
library (`app/`) reads the file system, decodes and analyses audio, runs the
worker threads and draws the terminal; it hands the library plain values.
