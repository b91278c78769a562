# bacteria

An artificial-life simulation of bacteria that explore a 32 × 32 toroidal
grid, leave chemical signals, eat, mate and pass their genomes on.

- `src/` is the verified library (Verus): the xorshift32 generator, grid
  geometry and moves, windows of recent cells, crowding counts, mating
  candidates, the integer random decisions of inheritance, the board's byte
  memory, the snapshot schedule, and the binary population format with its
  save/load round trip.
- `app/` is the program around it: the floating-point networks, rewards and
  fields, the async board and bacterium tasks (tokio), terminal and file
  output.
- `tests/` runs the library on concrete values.
