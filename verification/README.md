# terminal_toys

A collection of terminal toys whose game logic is verified with Verus.

## Layout

- `src/` is the verified library.
  - `lightcycle/`: the arena of the lightcycle game: grid, cycles, the
    rules of a tick, the AI drivers (a free heading weighed by the open
    space ahead), wall placement, input state and the cells of a frame.
  - `blackjack/`: the blackjack table as a state machine over a
    mathematical model (`model.rs`), the invariant every move keeps
    (`keeps.rs`), the laws of the table (`laws.rs`) and the drawing of a
    frame.
  - `toys/`: the integer logic of the smaller toys: the ant colony's
    ground, food and brood; frogger's board, rules and picture; the digital
    rain; the ghost scene's braille canvas and screen; the pipe walker; the
    maze walker; the lander's ground; the orrery's panels; the themes and
    limits of the other toys.
  - `pixels.rs`: braille cells, code points and packed colours.
  - `rng.rs`: the random number generators of `rand` and `rand_chacha`,
    each call with the contract the crate's source supports.
- `tests/` runs the library on concrete values.
- `app/` is the program around the library: terminal I/O, timing, the
  command line, and the floating-point motion and shading of the toys that
  have a runner there (blackjack, lightcycle, rain, ants, frogger, ghosts).
  The other toys compute their picture in floating point throughout and
  have no runner. The aquarium, aurora, fluid, fountain, Gray-Scott, lander,
  maze, Newton's cradle, orrery, pipes and ray-marched orbits have their
  integer logic (themes, limits, grids, panels, the maze's and pipes'
  decisions) in `src/`; boids, the lava lamp and the library are floating
  point throughout and have none.
