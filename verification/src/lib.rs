//! Foundry: the entity-component store, command buffers, input state and
//! scene-document building of a small game engine, with their contracts.

pub mod commands;
pub mod components;
pub mod delegator;
pub mod ecs;
pub mod game_data;
pub mod serializer;
