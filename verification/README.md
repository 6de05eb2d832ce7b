# tower_defense

The rules of a small tower-defense game, written in Verus and proved
against their contracts, with the game around them.

- `src/` is the verified library: the grid and the breadth-first flow field
  that enemies follow to the base (distances are shortest, parents are the
  first neighbour the search meets, and the field is the only one with these
  properties), the waypoints along it, target choice, relic slots, the
  selection, the wave cycle, the score, the base's life, projectile flight,
  button enabling, the verdict on the player's layout and the shop's list.
- `tests/` runs the library on concrete values.
- `app/` is the Bevy game: rendering, input, physics queries and the
  floating-point parts (positions, health, coins), which call the library for
  every decision above.
