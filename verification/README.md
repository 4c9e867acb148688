# flocking_lib

Bookkeeping for a Vicsek-style flocking simulation on the surface of a sphere.

`src/` is a Verus library, every function with a contract proved by Verus:

- `text`: decimal text of `usize` and reading it back (as `to_string` and `parse` do).
- `io`: the folder of each kind of data, the paths of binary and JSON data files,
  reading a tag and an id back from a file name, choosing and sorting the `.bin`
  files of a folder, grouping saved simulations by tag and picking the ids of one tag,
  and (`io::collect`) the table of open simulation runs that collects their frames
  from `Init`, `Snapshot` and `Finalize` messages.
- `ensemble`: the split of a batch of ensemble entries over worker threads (an empty
  batch needs none; entries without a thread are an error), and the check that a batch
  is complete.
- `simulation`: the run clock that decides after which steps a frame is recorded,
  and the number of frames a run records.

`app/` is the program around it: vectors and bird physics in floating point,
random sampling of ensembles, the parallel simulation engine, files, threads and
the command line.
