# crash_analyse

De-duplicates and triages the crashes found in core dumps of an application.

- `src/` is the verified library: the model of a crash (threads and their
  frames), the two ways of deciding that two crashes are the same (`ALLEqual`:
  every frame; `RootEqual`: the outermost frame of each thread), the store of
  unique crashes, the report text and the command line.
- `app/` is the program around it: it reads core files through LLDB, hands the
  threads and frames it finds to the library as plain values, prints to the
  terminal and writes the report file.
- `tests/` runs the library on concrete crashes.
