# rust_physics_sim

A 2D physics sandbox (boxes and balls, drag / rectangle / circle tools) built
on macroquad.

- `src/` is the verified library: the decisions the sandbox makes, proved with
  Verus.
  - `collider`: which pairs of bodies one contact-solver pass tests, the
    separating-axis decision of the box-box test, and the clipping of an
    incident edge into a contact manifold (generic over the point type; the
    application supplies the side test, crossing point, edge direction and
    negation).
  - `physics`: the world settings and what a frame runs (paused or not, how
    many solver passes).
  - `sandbox::tools`: the active tool, the nearest-body pick, the drag tool's
    grab / pull / release cycle, the shape tools' press / drag / release
    gesture, and the colour of a new body (random from a palette through
    `rand`).
  - `sandbox::ui`: the captions of the tool buttons.
- `app/` is the program: the window, input, drawing, UI widgets, and all
  floating-point vector arithmetic (forces, integration, collision geometry,
  impulses), which calls into the library for the decisions above.
- `tests/` exercises the library on concrete values.
