# subsurface

A side-scrolling submarine shooter built on Bevy. The rules of the game that
work on whole numbers live in the verified library under `src/`; the Bevy
plugins, rendering, input and all floating-point motion and geometry live in
`app/`.

- `src/pixels.rs`: an image as a grid of per-pixel byte strings.
- `src/level.rs`: which terrain tiles (water surface, rock squares, rock
  slopes) each cell of the level bitmap spawns, with the tile rules and the
  spawn order proved.
- `src/enemies.rs`: where ships stand in the enemies bitmap.
- `src/colliders.rs`: collision layers, which pairs are tested, and the
  collision event.
- `src/player.rs`: lives, the life icons shown for them, and when to fire.
- `src/bubbles.rs`, `src/random.rs`: the random wiggle of rising bubbles.
