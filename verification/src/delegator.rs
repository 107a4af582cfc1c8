//! The engine's input state and the decisions it takes when it carries out
//! the commands that scripts send.

use vstd::prelude::*;
use std::collections::HashSet;
use std::sync::Arc;
use crate::commands::EntityCommand;
use crate::components::MESH_ALLOCATION_KIND;
use crate::ecs::{EntityBuilder, World};

verus! {

/// Copies a set of key codes with std's `HashSet::clone`. The contract
/// claims that the copy holds exactly the keys of the original.
#[verifier::external_body]
fn clone_key_set(keys: &HashSet<u32>) -> (r: HashSet<u32>)
    ensures
        r@ == keys@,
{
    keys.clone()
}

/// Whether a key went down or came up.
#[derive(Clone, Copy, PartialEq, Eq, Structural)]
pub enum ElementState {
    Pressed,
    Released,
}

/// An axis of mouse movement.
#[derive(Clone, Copy, PartialEq, Eq, Structural)]
pub enum MouseAxis {
    X,
    Y,
}

/// The keyboard state of the current frame: the keys that went down and
/// came up during the frame, and the keys held.
pub struct InputBuffer {
    key_down_list: HashSet<u32>,
    key_up_list: HashSet<u32>,
    keys_held: HashSet<u32>,
}

impl InputBuffer {
    /// The keys that went down this frame.
    pub closed spec fn down(&self) -> Set<u32> {
        self.key_down_list@
    }

    /// The keys that came up this frame.
    pub closed spec fn up(&self) -> Set<u32> {
        self.key_up_list@
    }

    /// The keys held.
    pub closed spec fn held(&self) -> Set<u32> {
        self.keys_held@
    }

    /// A buffer with no key down, up or held.
    pub fn new() -> (r: Self)
        ensures
            r.down() == Set::<u32>::empty(),
            r.up() == Set::<u32>::empty(),
            r.held() == Set::<u32>::empty(),
    {
        InputBuffer { key_down_list: HashSet::new(), key_up_list: HashSet::new(), keys_held: HashSet::new() }
    }

    /// A copy of this buffer.
    pub fn snapshot(&self) -> (r: Self)
        ensures
            r.down() == self.down(),
            r.up() == self.up(),
            r.held() == self.held(),
    {
        InputBuffer {
            key_down_list: clone_key_set(&self.key_down_list),
            key_up_list: clone_key_set(&self.key_up_list),
            keys_held: clone_key_set(&self.keys_held),
        }
    }

    /// Forgets the keys that went down or came up; the held keys stay.
    pub fn clear_discrete_inputs(&mut self)
        ensures
            final(self).down() == Set::<u32>::empty(),
            final(self).up() == Set::<u32>::empty(),
            final(self).held() == old(self).held(),
    {
        self.key_down_list.clear();
        self.key_up_list.clear();
    }

    /// Whether the key `code` is held.
    pub fn get_key(&self, code: u32) -> (r: bool)
        ensures
            r == self.held().contains(code),
    {
        broadcast use vstd::std_specs::hash::group_hash_axioms;
        self.keys_held.contains(&code)
    }

    /// Whether the key `code` went down this frame.
    pub fn get_key_down(&self, code: u32) -> (r: bool)
        ensures
            r == self.down().contains(code),
    {
        broadcast use vstd::std_specs::hash::group_hash_axioms;
        self.key_down_list.contains(&code)
    }

    /// Whether the key `code` came up this frame.
    pub fn get_key_up(&self, code: u32) -> (r: bool)
        ensures
            r == self.up().contains(code),
    {
        broadcast use vstd::std_specs::hash::group_hash_axioms;
        self.key_up_list.contains(&code)
    }

    /// Whether `after` is `before` with the event of key `code` going to
    /// `state` recorded: a pressed key goes down and is held, a released
    /// key comes up and is no longer held.
    pub open spec fn key_event_applied(before: InputBuffer, after: InputBuffer, code: u32, state: ElementState) -> bool {
        match state {
            ElementState::Pressed => {
                &&& after.down() == before.down().insert(code)
                &&& after.up() == before.up()
                &&& after.held() == before.held().insert(code)
            },
            ElementState::Released => {
                &&& after.down() == before.down()
                &&& after.up() == before.up().insert(code)
                &&& after.held() == before.held().remove(code)
            },
        }
    }

    /// Records a key event; an event without a key code changes nothing.
    pub fn handle_keyboard_event(&mut self, code: Option<u32>, state: ElementState)
        ensures
            match code {
                None => final(self).down() == old(self).down() && final(self).up() == old(self).up()
                    && final(self).held() == old(self).held(),
                Some(c) => Self::key_event_applied(*old(self), *final(self), c, state),
            },
    {
        broadcast use vstd::std_specs::hash::group_hash_axioms;
        let code = match code {
            Some(c) => c,
            None => {
                return;
            },
        };
        match state {
            ElementState::Pressed => {
                self.key_down_list.insert(code);
                self.keys_held.insert(code);
            },
            ElementState::Released => {
                self.key_up_list.insert(code);
                self.keys_held.remove(&code);
            },
        }
    }
}


/// What one key event does: a pressed key is held and reported as having
/// gone down, a released key is not held and is reported as having come
/// up; the other list of the frame is unchanged, and so is what is known of
/// every other key.
pub proof fn law_key_event(b0: InputBuffer, b1: InputBuffer, code: u32, state: ElementState)
    requires
        InputBuffer::key_event_applied(b0, b1, code, state),
    ensures
        state == ElementState::Pressed ==> b1.held().contains(code) && b1.down().contains(code) && b1.up()
            == b0.up(),
        state == ElementState::Released ==> !b1.held().contains(code) && b1.up().contains(code) && b1.down()
            == b0.down(),
        forall|other: u32|
            other != code ==> (#[trigger] b1.held().contains(other) == b0.held().contains(other)
                && b1.down().contains(other) == b0.down().contains(other) && b1.up().contains(other)
                == b0.up().contains(other)),
{
}

/// A key is held from the event that presses it to the event that releases
/// it: events of other keys leave it held, and after it is released it is
/// no longer held but is reported as having gone down and come up.
pub proof fn law_key_held_until_released(
    b0: InputBuffer,
    b1: InputBuffer,
    b2: InputBuffer,
    key: u32,
    other: u32,
    other_state: ElementState,
    b3: InputBuffer,
)
    requires
        InputBuffer::key_event_applied(b0, b1, key, ElementState::Pressed),
        other != key,
        InputBuffer::key_event_applied(b1, b2, other, other_state),
        InputBuffer::key_event_applied(b2, b3, key, ElementState::Released),
    ensures
        b1.held().contains(key),
        b2.held().contains(key),
        !b3.held().contains(key),
        b3.down().contains(key),
        b3.up().contains(key),
{
}

/// A shared, read-only snapshot of an input buffer.
#[derive(Clone)]
pub struct InputBufferRef(pub Arc<InputBuffer>);

impl InputBufferRef {
    /// A snapshot of an empty buffer.
    pub fn new() -> (r: Self)
        ensures
            r.0.down() == Set::<u32>::empty(),
            r.0.up() == Set::<u32>::empty(),
            r.0.held() == Set::<u32>::empty(),
    {
        InputBufferRef(Arc::new(InputBuffer::new()))
    }

    /// Replaces the snapshot by a copy of `other`.
    pub fn copy_local(&mut self, other: &InputBuffer)
        ensures
            final(self).0.down() == other.down(),
            final(self).0.up() == other.up(),
            final(self).0.held() == other.held(),
    {
        self.0 = Arc::new(other.snapshot());
    }

    /// Whether the key `code` is held.
    pub fn get_key(&self, code: u32) -> (r: bool)
        ensures
            r == self.0.held().contains(code),
    {
        self.0.get_key(code)
    }

    /// Whether the key `code` went down.
    pub fn get_key_down(&self, code: u32) -> (r: bool)
        ensures
            r == self.0.down().contains(code),
    {
        self.0.get_key_down(code)
    }

    /// Whether the key `code` came up.
    pub fn get_key_up(&self, code: u32) -> (r: bool)
        ensures
            r == self.0.up().contains(code),
    {
        self.0.get_key_up(code)
    }
}

impl Default for InputBuffer {
    /// A buffer with no key down, up or held.
    fn default() -> (r: Self)
        ensures
            r.down() == Set::<u32>::empty(),
            r.up() == Set::<u32>::empty(),
            r.held() == Set::<u32>::empty(),
    {
        InputBuffer::new()
    }
}

/// A value shared with scripts.
pub struct Test(pub u64);

/// What carrying out an entity command does.
pub enum EntityAction<V> {
    /// Move the camera by the vector.
    TranslateCamera(V),
    /// Move the entity's transform by the vector.
    TranslateEntity(u64, V),
    /// Set the entity's transform position to the vector.
    SetEntityPosition(u64, V),
    /// Rotate the camera by the vector.
    RotateCamera(V),
    /// The command cannot be carried out for this entity.
    Unsupported,
}

/// What the entity command `command` for `entity` does, where `camera` is
/// the camera's entity.
pub open spec fn entity_action<V>(camera: u64, entity: u64, command: EntityCommand<V>) -> EntityAction<V> {
    match command {
        EntityCommand::Translate(v) => if entity == camera {
            EntityAction::TranslateCamera(v)
        } else {
            EntityAction::TranslateEntity(entity, v)
        },
        EntityCommand::SetPos(v) => EntityAction::SetEntityPosition(entity, v),
        EntityCommand::Rotate(v) => if entity == camera {
            EntityAction::RotateCamera(v)
        } else {
            EntityAction::Unsupported
        },
        _ => EntityAction::Unsupported,
    }
}

/// What each entity command does, for every camera, entity and vector: a
/// position is set on the entity itself whether or not it is the camera; a
/// translation moves the camera when the entity is the camera and the
/// entity's transform otherwise; a rotation turns the camera and is not
/// supported for any other entity; the other commands are not supported.
pub proof fn law_entity_command_actions<V>(camera: u64, entity: u64, v: V)
    ensures
        entity_action(camera, entity, EntityCommand::SetPos(v)) == EntityAction::SetEntityPosition(entity, v),
        entity == camera ==> entity_action(camera, entity, EntityCommand::Translate(v))
            == EntityAction::TranslateCamera(v),
        entity != camera ==> entity_action(camera, entity, EntityCommand::Translate(v))
            == EntityAction::TranslateEntity(entity, v),
        entity == camera ==> entity_action(camera, entity, EntityCommand::Rotate(v)) == EntityAction::RotateCamera(
            v,
        ),
        entity != camera ==> entity_action(camera, entity, EntityCommand::Rotate(v))
            == EntityAction::<V>::Unsupported,
        entity_action(camera, entity, EntityCommand::<V>::LookAt()) == EntityAction::<V>::Unsupported,
        entity_action(camera, entity, EntityCommand::<V>::RotateAround()) == EntityAction::<V>::Unsupported,
        entity_action(camera, entity, EntityCommand::<V>::SetRotation()) == EntityAction::<V>::Unsupported,
{
}

/// Decides what the entity command `command` for `entity` does, where
/// `camera` is the camera's entity.
pub fn route_entity_command<V>(camera: u64, entity: u64, command: EntityCommand<V>) -> (r: EntityAction<V>)
    ensures
        r == entity_action(camera, entity, command),
{
    match command {
        EntityCommand::Translate(pos) => {
            if entity == camera {
                EntityAction::TranslateCamera(pos)
            } else {
                EntityAction::TranslateEntity(entity, pos)
            }
        },
        EntityCommand::SetPos(pos) => EntityAction::SetEntityPosition(entity, pos),
        EntityCommand::Rotate(rot) => {
            if entity == camera {
                EntityAction::RotateCamera(rot)
            } else {
                EntityAction::Unsupported
            }
        },
        _ => EntityAction::Unsupported,
    }
}

/// Carries out the world command that instantiates the entity of
/// `builder`: stores it in `world` and, when it has a mesh allocation,
/// calls `make_mesh` once for the mesh data made for it and puts that in
/// place of the allocation it was built with; `make_mesh` is not called
/// otherwise. Returns the entity's identifier.
pub fn instantiate_entity<C, F: FnOnce() -> C>(world: &mut World<C>, builder: EntityBuilder<C>, make_mesh: F) -> (id: u64)
    requires
        old(world).wf(),
        builder.wf(),
        builder.kinds().no_duplicates(),
        make_mesh.requires(()),
    ensures
        id == builder.spec_id(),
        final(world).wf(),
        final(world).registered() == old(world).registered().union(builder.kinds().to_set()),
        final(world).next_entity_id() == old(world).next_entity_id(),
        !builder.kinds().contains(MESH_ALLOCATION_KIND) ==> final(world).components() == old(
            world,
        ).components().insert(id, builder.component_map()),
        builder.kinds().contains(MESH_ALLOCATION_KIND) ==> exists|m: C|
            #[trigger] make_mesh.ensures((), m) && final(world).components() == old(world).components().insert(
                id,
                builder.component_map().insert(MESH_ALLOCATION_KIND, m),
            ),
{
    let has_mesh = builder.has_component(MESH_ALLOCATION_KIND);
    proof {
        builder.lemma_kinds_map();
    }
    let id = builder.build(world);
    if has_mesh {
        let m = make_mesh();
        let slot = world.get_component_as_mut(id, MESH_ALLOCATION_KIND);
        *slot = m;
    }
    id
}

} // verus!
