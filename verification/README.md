# macos_candles

A system monitor that samples CPU, memory, disk, temperature and network
activity every five seconds, stores the samples, and shows them as
candlestick (K-line) charts.

- `src/` is the verified library (Verus): candle period names, grouping of
  time-ordered samples into candle windows, metric selection, disk and
  temperature-sensor choice, network counter bookkeeping and the run flag of
  the sampling loop. Metric values travel through it as binary64 bit patterns.
- `app/` is the desktop shell: SQLite storage, reading the system, the
  floating-point parts of each sample and candle, and the window's commands.
- `tests/` exercises the library.
