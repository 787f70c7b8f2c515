# a_z

The engine of the A-Z browser, verified with Verus: an arena DOM built from
html5ever's tree, its serializer, selector queries and text walker; page
asset and video discovery; framework data extraction for single-page
applications; the request pipeline's stages and the BitFox request rules;
the DevTools (CDP) and tool-server (MCP) protocol handlers; the terminal
front end's state and key handling; and the rules for finding external
renderers.

Layout:

- `src/` — the verified library. Each module states its behaviour in
  `requires`/`ensures` contracts over spec models (`Seq`, `Map`, views of
  the library's types), and the laws that span several functions are public
  proof functions (`lemma_*`). Calls into outside crates (`url`,
  `serde_json`, html5ever/markup5ever_rcdom, std's `Mutex` and clock) sit
  behind small trusted wrappers whose contracts name or state what those
  crates return.
- The laws that span functions:
  - the document: `dom::document` (attributes read back, append then
    remove, siblings, text read back, slot reuse), `dom::frame` (a second
    base injection changes nothing, a title reads back as set) and
    `dom::copy` (a deep copy and a replaced inner HTML serialize as their
    sources);
  - the walker's link table: `dom::walker`;
  - navigation history: `browser::session` and `tui::app`;
  - caches: `http::cache` and `browser::nav_cache`;
  - the protocol servers: `cdp::session`, `cdp::server` and `mcp::server`.
- `app/` — the program around it: sockets and WebSocket framing for the
  CDP and MCP servers, the QuickJS runtime and its DOM bindings, HTTP with
  reqwest and the cookie jar, the ratatui front end, external media players
  and renderer processes, and the `f32` layout and rasteriser of the
  software renderer.
- `tests/` — tests of the library through its public functions.
