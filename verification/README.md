# dino_game

An endless-runner game built on macroquad. The rules that need no floating
point live in the verified library under `src/`:

- `text`: lines, words, trimming and decimal numbers over character
  sequences, with the behaviour of the standard `str` and integer parsing
  functions as specifications;
- `github_gate`: reading `gh` output and deciding the support mode;
- `persistence`: the high-score file contents and when to rewrite it;
- `obstacle`: which obstacle comes next and what the spawner does;
- `hud`: the score line and the game-over panel text;
- `config`: window dimensions from their settings.

`app/` is the game itself: window, input, drawing, physics in `f32`, the
`gh` processes and file access.
