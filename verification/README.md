# aram_brawl

A terminal game of the ARAM "brawl" augment mode: a random champion, four
rounds of three augment cards (each card can be rerolled once per round),
special augments that draw more augments, and synergies that grow as their
augments are picked.

`src/` is the library, verified with Verus:

- `text`, `wrap`: escape stripping, display widths, padding, centring and
  greedy word wrapping;
- `style`, `model`: tiers' frames, colours, icons and labels; the game data;
- `card`: drawing cards and laying them side by side at one height;
- `synergy`, `panel`: synergy membership, progress, stages and the panels;
- `draw`: random tiers, random augments and the special augments' effects;
- `input`, `game`: command reading, dealing, rerolls, picks, headers and the
  final build;
- `laws`: properties of the library as a whole.

`app/main.rs` loads `champions.json`, `augments.json` and `synergies.json`
from the working directory, reads the player's input and prints what the
library computes.
