# inox2d_mcp

The verified core of an MCP server that loads Inochi2D puppets, keeps the
parameter values its client sets, and renders frames to PNG.

- `src/` — the library, verified with Verus:
  - `params.rs`: the tools' arguments and what each asks for (default render
    size, the `y` default of a parameter value, when a render resizes);
  - `session.rs`: the server's state between calls — no puppet or one loaded
    puppet with its parameter names, the values set and the render size — and
    the answer to each tool call, including refusals;
  - `frame.rs`: reversing the rows of a frame read back from OpenGL and encoding
    it as PNG (through the `image` crate);
  - `output.rs`: saving the PNG to a file or returning it base64-encoded
    (through the `base64` crate, whose output is stated in full).
- `app/` — the program around it: MCP over stdio (`rmcp`, `tokio`), file I/O,
  headless OpenGL through EGL on Linux or CGL on macOS (`glow`, `khronos-egl`,
  `cgl`), the puppet model and its
  OpenGL renderer (`inox2d`, `inox2d-opengl`), JSON answers and floating-point
  work (camera scale, physics steps).
- `tests/` — tests of the library.
