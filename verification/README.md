# pearl_calculator

A calculator for Minecraft ender-pearl cannons, with its logic verified by Verus.

A cannon config describes the pearl, the four firing directions, and a *code rule*: the
switches of the cannon, each adding red TNT, blue TNT or a direction bit, with cap groups
that bound what some switches add together. The library turns switch codes into TNT counts
and back, checks configs, and makes every decision of the flight calculation; the command
line around it does the floating-point flight simulation, file reading and printing.

## Layout

- `src/` — the verified library
  - `model.rs`, `error.rs` — the data (dimensions, times, counts, code rules) and errors
  - `rule.rs` — compiling a code rule: slots, cap groups and the first refused cap
  - `search.rs`, `sums.rs` — the exhaustive search for the first code of given counts
  - `codec.rs` — code ↔ counts where cap groups are disjoint and of one kind (sums capped)
  - `convert.rs` — code ↔ counts where over-full cap groups are thinned, highest counts kept
  - `api.rs` — the codec with calculator errors; config checks
  - `direction.rs`, `basis.rs` — directions as unit-vector bases; counts ↔ diagonal counts
  - `motion.rs` — dimension transitions, teleports, the flight times a calculation tries
  - `candidates.rs` — the counts searched around estimated centres
  - `text.rs`, `input.rs`, `form.rs` — reading numbers, codes and form fields
  - `display.rs`, `messages.rs`, `localize.rs`, `status.rs` — what users are shown
- `tests/` — tests of the library
- `app/` — the command line: argument parsing, config files, the pearl's flight in floating
  point, tables and CSV
