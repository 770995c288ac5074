# river_power

A small physics scene: drops of a river fall onto a conveyor belt, the belt
turns a rotor, and the rotor's speed lights the lanterns of the scene.

- `src/` is the verified library: the decisions the scene makes with plain
  values. `game_state` ends loading once no not-ready marker is left;
  `transporter` lays out the closed track belt (which pieces bend, how far each
  is turned, how the pieces are hinged into a ring); `generator` decides when
  the generator's parts are spawned and which conveyor roll each hangs on,
  ordering the rolls by index; `env` recognises scene nodes by their extras
  text and the hill by its collider's name; `river` finishes the river's
  setup; `scenario` cycles the camera through its targets.
- `app/` is the program around it: the ECS systems, rendering, physics and
  every floating-point placement.
- `tests/` runs the library on concrete scenes.
