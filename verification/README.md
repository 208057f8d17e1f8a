# Sector Dynasties simulation core

A seeded, deterministic grand-strategy simulation about an intergenerational
family dynasty in a small procedurally generated star sector. Same seed, same
world, same future.

## Layout

- `src/` — the verified library. Every function carries a contract proved by
  Verus: the random streams (splitmix64 seeding, xoshiro256**), the clock,
  sector generation (ids, names, counts, resource tags, backstories, and the raw
  draws behind every fractional figure), trade route planning, portraits and
  traits, births, aging and mortality rolls, migration bookkeeping, sector
  census (city count, total population), careers and their weekly settlement,
  businesses, favors, lobbying admission and policy names, the event framework (catalog, yearly
  scan, resolution, history), save-version checks and migration, argument
  parsing for the command-line runner, UI views, and a structural JSON diff for
  comparing saved states. Laws that span functions are stated and proved as
  public proof functions next to the code they are about.
- `tests/` — tests of the library on concrete values.
- `app/` — the host: the command-line runner (`run`, `load`, `diff`), the
  browser bridge, file I/O, serde copies of the library's types, and the parts of
  the simulation that compute with floating point (economy, wages, promotion
  odds, migration weighting, route economics, government components).
