# permute_mmo_rs_ui

A desktop front end for permuting Pokémon Legends: Arceus mass outbreaks and
massive mass outbreaks: drop a spawner description (`.json`/`.txt`) or a save
block onto the window and it lists the paths that lead to shiny spawns.

The logic of the interface is a library verified with Verus (`src/`):

- `text`: word lists split into lines, trimming, `|` spacing, decimal digits;
- `hex`: hexadecimal fields as spawner files write them, and fixed-width
  upper-case hexadecimal output;
- `spawner`: the spawner description and the request it makes of the
  permutation engine;
- `results`: the result lines and seed text shown for a permutation;
- `session`: the results the window holds, what a dropped file holds, and
  which spawners of a block are reported.

`app/` holds the window (egui/eframe), the file and JSON reading, and the calls
into the permutation engine (`permute_mmo_rs`), which hands the library its
findings as plain values. `tests/` runs the library on concrete values.
