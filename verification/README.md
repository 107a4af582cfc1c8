# Foundry

The core of a small game engine, written in Verus with its contracts proved.

- `src/ecs.rs` — the entity-component store. Entities are grouped into
  archetypes by the ascending set of their component kinds; each archetype
  keeps one column per kind and one row per entity. Building an entity and
  reading or changing its components are specified over a map from entity to
  kind to component.
- `src/commands.rs` — the commands scripts send, the buffer that sorts them
  into one queue per kind, and the order in which they are carried out.
- `src/delegator.rs` — the keyboard state, its shared snapshots, and what an
  entity command does.
- `src/components.rs` — built-in components, their kinds, and the message
  broadcaster.
- `src/serializer.rs` — scene documents, the YAML text of component
  documents, and reading a scene from its YAML text.
- `src/game_data.rs` — where a loaded model sits in the shared buffers.

`app/` is the program around the library: the window and its events, Lua
scripting, floating-point components and maths, and file input and output.
