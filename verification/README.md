# rsh

An interactive Unix shell that runs external commands either as OS
processes joined by OS pipes (`mode process`) or with the data between
pipeline stages carried by threads (`mode thread`).

- `src/` is the verified library: the command-line grammar (`parser`, with
  its laws in `parse_laws`), character and number helpers (`text`), the
  builtin commands (`builtins`), the background job table (`job`), the two
  operating-system calls it makes through `nix` (`os`: polling and killing
  one process, each returning a record of the process it was made for) and
  the I/O plan of each command and pipeline stage (`plan`).
- `app/` is the shell itself: the read loop, process creation, files,
  pipes, threads and printing.
- `tests/` exercises the library on concrete inputs.
