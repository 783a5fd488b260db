# rusty_invades

A terminal space-invaders game. The rules live in the library under `src/`,
verified with Verus; `app/` is the terminal program around it (keyboard,
sound, drawing to the screen, the render thread).

- `frame`: the playing field, its cells, and which cells to write out.
- `timer`: countdowns driven by elapsed time, computed by `rusty_time`.
- `random`: draws from `rand`'s thread-local generator.
- `bullet`: bullets and explosions.
- `alien`: the alien army: forming, marching, firing, being shot.
- `player`: the cannon, its bullets and the score.
- `game`: one round of play, commands, and the outcome.
- `sound`: the sound effects the game asks for; `app/` plays them.
