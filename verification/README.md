# road_fighter

A Road Fighter style racing game (a car on a four-lane road, enemy cars to
avoid, fuel cans to collect, three lives, score, levels and a high score),
with its rules and rendering verified with Verus.

- `src/` is the verified library:
  - `screen`: the frame buffer model and rectangle painting, clipped to the
    screen;
  - `font` and `text`: the 5x7 bitmap font and the text renderer;
  - `sprites`: the small car of the lives display;
  - `road`: the road background and the lane positions;
  - `spawn`: random lanes and colors of new enemy cars and fuel cans;
  - `session`: title / playing / game-over screens, lives, score, levels
    and high score, with the laws they keep;
  - `display` and `display_roundtrip`: reading the display size from the
    output of `xrandr` and `xdpyinfo`, and centering the window.
- `app/` is the program: the window and keyboard (minifb), the cars'
  floating-point positions, collisions and fuel, and the main loop.
- `tests/` runs the library on concrete values.
