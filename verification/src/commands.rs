//! Commands that scripts send to the engine and the buffer that collects
//! them, one queue per kind of command.

use vstd::prelude::*;
use crate::ecs::EntityBuilder;

verus! {

/// A message for the whole game.
#[derive(PartialEq, Eq, Structural)]
pub enum Message {
    GameOver,
    GameStart,
}

/// A command, addressed to an entity, the world, the camera, the message
/// system or the audio system; `V` is the vector type of entity commands,
/// `C` the component type of new entities, `F` the type of custom world
/// functions.
pub enum Command<V, C, F> {
    Entity(u64, EntityCommand<V>),
    World(WorldCommand<C, F>),
    Camera(CameraCommand),
    Message(MessageCommand),
    Audio(AudioCommand),
}

/// A command to the world: add an entity built with components of type
/// `C`, delete one, send a message, or run a function of the caller's.
pub enum WorldCommand<C, F> {
    Instantiate(EntityBuilder<C>),
    Delete(),
    SendMessage(Message),
    Custom(F),
}

/// A command to an entity, with vectors of type `V`.
pub enum EntityCommand<V> {
    Translate(V),
    SetPos(V),
    Rotate(V),
    LookAt(),
    RotateAround(),
    SetRotation(),
}

/// A command to the camera.
#[derive(PartialEq, Eq, Structural)]
pub enum CameraCommand {
    SetFov(u32),
    Custom(),
}

/// A command to the user interface.
#[derive(PartialEq, Eq, Structural)]
pub enum UICommand {
    ShowUI(),
    HideUI(),
}

/// A message to broadcast to the listeners registered under its name.
pub enum MessageCommand {
    BroadcastMessage(String),
    BroadcastMessages(Vec<&'static str>),
}

/// A command to the audio system.
pub enum AudioCommand {
    Play(&'static str),
}

/// The commands a script sends during one update, one queue per kind.
pub struct CommandBuffer<V, C, F> {
    pub entity_commands: Vec<(u64, EntityCommand<V>)>,
    pub world_commands: Vec<WorldCommand<C, F>>,
    pub broadcast_commands: Vec<MessageCommand>,
    pub camera_commands: Vec<CameraCommand>,
    pub audio_commands: Vec<AudioCommand>,
}

impl<V, C, F> CommandBuffer<V, C, F> {
    /// A buffer with every queue empty.
    pub open spec fn is_empty(self) -> bool {
        &&& self.entity_commands@.len() == 0
        &&& self.world_commands@.len() == 0
        &&& self.broadcast_commands@.len() == 0
        &&& self.camera_commands@.len() == 0
        &&& self.audio_commands@.len() == 0
    }

    /// An empty buffer.
    pub fn new() -> (b: Self)
        ensures
            b.is_empty(),
    {
        CommandBuffer {
            entity_commands: Vec::new(),
            world_commands: Vec::new(),
            broadcast_commands: Vec::new(),
            camera_commands: Vec::new(),
            audio_commands: Vec::new(),
        }
    }

    /// Whether `after` is `before` with `command` appended to the queue of
    /// its kind and the other queues as they were.
    pub open spec fn pushed(before: Self, command: Command<V, C, F>, after: Self) -> bool {
        match command {
            Command::Entity(target, c) => {
                &&& after.entity_commands@ == before.entity_commands@.push((target, c))
                &&& after.world_commands@ == before.world_commands@
                &&& after.broadcast_commands@ == before.broadcast_commands@
                &&& after.camera_commands@ == before.camera_commands@
                &&& after.audio_commands@ == before.audio_commands@
            },
            Command::World(c) => {
                &&& after.entity_commands@ == before.entity_commands@
                &&& after.world_commands@ == before.world_commands@.push(c)
                &&& after.broadcast_commands@ == before.broadcast_commands@
                &&& after.camera_commands@ == before.camera_commands@
                &&& after.audio_commands@ == before.audio_commands@
            },
            Command::Message(c) => {
                &&& after.entity_commands@ == before.entity_commands@
                &&& after.world_commands@ == before.world_commands@
                &&& after.broadcast_commands@ == before.broadcast_commands@.push(c)
                &&& after.camera_commands@ == before.camera_commands@
                &&& after.audio_commands@ == before.audio_commands@
            },
            Command::Camera(c) => {
                &&& after.entity_commands@ == before.entity_commands@
                &&& after.world_commands@ == before.world_commands@
                &&& after.broadcast_commands@ == before.broadcast_commands@
                &&& after.camera_commands@ == before.camera_commands@.push(c)
                &&& after.audio_commands@ == before.audio_commands@
            },
            Command::Audio(c) => {
                &&& after.entity_commands@ == before.entity_commands@
                &&& after.world_commands@ == before.world_commands@
                &&& after.broadcast_commands@ == before.broadcast_commands@
                &&& after.camera_commands@ == before.camera_commands@
                &&& after.audio_commands@ == before.audio_commands@.push(c)
            },
        }
    }

    /// Appends `command` to the queue of its kind; the other queues stay
    /// as they are.
    pub fn push(&mut self, command: Command<V, C, F>)
        ensures
            Self::pushed(*old(self), command, *final(self)),
    {
        match command {
            Command::Entity(target, command) => self.entity_commands.push((target, command)),
            Command::World(command) => self.world_commands.push(command),
            Command::Message(command) => self.broadcast_commands.push(command),
            Command::Camera(command) => self.camera_commands.push(command),
            Command::Audio(command) => self.audio_commands.push(command),
        }
    }
}

} // verus!

verus! {

/// The commands of `buffer` in the order they are carried out: the entity
/// commands, then the world, message, camera and audio commands, each
/// queue in the order it was filled.
pub open spec fn dispatch_sequence<V, C, F>(buffer: CommandBuffer<V, C, F>) -> Seq<Command<V, C, F>> {
    buffer.entity_commands@.map_values(|p: (u64, EntityCommand<V>)| Command::<V, C, F>::Entity(p.0, p.1))
        + buffer.world_commands@.map_values(|c: WorldCommand<C, F>| Command::<V, C, F>::World(c))
        + buffer.broadcast_commands@.map_values(|c: MessageCommand| Command::<V, C, F>::Message(c))
        + buffer.camera_commands@.map_values(|c: CameraCommand| Command::<V, C, F>::Camera(c))
        + buffer.audio_commands@.map_values(|c: AudioCommand| Command::<V, C, F>::Audio(c))
}


/// How many commands of `buffer` are carried out up to and including the
/// queue that a command like `command` goes to.
pub open spec fn group_end<V, C, F>(buffer: CommandBuffer<V, C, F>, command: Command<V, C, F>) -> int {
    let e = buffer.entity_commands@.len() as int;
    let w = e + buffer.world_commands@.len();
    let m = w + buffer.broadcast_commands@.len();
    let c = m + buffer.camera_commands@.len();
    let a = c + buffer.audio_commands@.len();
    match command {
        Command::Entity(_, _) => e,
        Command::World(_) => w,
        Command::Message(_) => m,
        Command::Camera(_) => c,
        Command::Audio(_) => a,
    }
}

/// A pushed command is carried out after every command already in the
/// buffer that is of its kind or of a kind carried out earlier, and before
/// the rest; the order of the others does not change.
pub proof fn law_push_then_dispatch<V, C, F>(
    before: CommandBuffer<V, C, F>,
    command: Command<V, C, F>,
    after: CommandBuffer<V, C, F>,
)
    requires
        CommandBuffer::pushed(before, command, after),
    ensures
        dispatch_sequence(after) == dispatch_sequence(before).insert(group_end(before, command), command),
{
    let fe = |p: (u64, EntityCommand<V>)| Command::<V, C, F>::Entity(p.0, p.1);
    let fw = |c: WorldCommand<C, F>| Command::<V, C, F>::World(c);
    let fm = |c: MessageCommand| Command::<V, C, F>::Message(c);
    let fc = |c: CameraCommand| Command::<V, C, F>::Camera(c);
    let fa = |c: AudioCommand| Command::<V, C, F>::Audio(c);
    let e0 = before.entity_commands@.map_values(fe);
    let w0 = before.world_commands@.map_values(fw);
    let m0 = before.broadcast_commands@.map_values(fm);
    let c0 = before.camera_commands@.map_values(fc);
    let a0 = before.audio_commands@.map_values(fa);
    let e1 = after.entity_commands@.map_values(fe);
    let w1 = after.world_commands@.map_values(fw);
    let m1 = after.broadcast_commands@.map_values(fm);
    let c1 = after.camera_commands@.map_values(fc);
    let a1 = after.audio_commands@.map_values(fa);
    assert(dispatch_sequence(before) == e0 + w0 + m0 + c0 + a0);
    assert(dispatch_sequence(after) == e1 + w1 + m1 + c1 + a1);
    match command {
        Command::Entity(t, c) => {
            assert(e1 =~= e0.push(command));
            assert(w1 =~= w0);
            assert(m1 =~= m0);
            assert(c1 =~= c0);
            assert(a1 =~= a0);
        },
        Command::World(c) => {
            assert(e1 =~= e0);
            assert(w1 =~= w0.push(command));
            assert(m1 =~= m0);
            assert(c1 =~= c0);
            assert(a1 =~= a0);
        },
        Command::Message(c) => {
            assert(e1 =~= e0);
            assert(w1 =~= w0);
            assert(m1 =~= m0.push(command));
            assert(c1 =~= c0);
            assert(a1 =~= a0);
        },
        Command::Camera(c) => {
            assert(e1 =~= e0);
            assert(w1 =~= w0);
            assert(m1 =~= m0);
            assert(c1 =~= c0.push(command));
            assert(a1 =~= a0);
        },
        Command::Audio(c) => {
            assert(e1 =~= e0);
            assert(w1 =~= w0);
            assert(m1 =~= m0);
            assert(c1 =~= c0);
            assert(a1 =~= a0.push(command));
        },
    }
    assert(dispatch_sequence(after) =~= dispatch_sequence(before).insert(group_end(before, command), command));
}

/// The elements of `v` in reverse order.
fn reversed<T>(v: Vec<T>) -> (r: Vec<T>)
    ensures
        r@ == v@.reverse(),
{
    let ghost orig = v@;
    let mut v = v;
    let mut r: Vec<T> = Vec::new();
    while v.len() > 0
        invariant
            v@.len() <= orig.len(),
            v@ == orig.subrange(0, v@.len() as int),
            r@ == orig.subrange(v@.len() as int, orig.len() as int).reverse(),
        decreases v.len(),
    {
        let x = v.pop().unwrap();
        proof {
            let n = v@.len() as int;
            assert(x == orig[n]);
            assert(orig.subrange(n, orig.len() as int).reverse() =~= orig.subrange(
                n + 1,
                orig.len() as int,
            ).reverse().push(orig[n]));
        }
        r.push(x);
    }
    assert(orig.subrange(0, orig.len() as int) =~= orig);
    r
}

/// Appends the commands of `queue`, each made a command by `f`, to `out`
/// in the order of the queue.
fn append_all<T, V, C, F>(
    out: &mut Vec<Command<V, C, F>>,
    queue: Vec<T>,
    Ghost(f): Ghost<spec_fn(T) -> Command<V, C, F>>,
    g: impl Fn(T) -> Command<V, C, F>,
)
    requires
        forall|t: T, r: Command<V, C, F>| call_ensures(g, (t,), r) ==> r == f(t),
        forall|t: T| call_requires(g, (t,)),
    ensures
        final(out)@ == old(out)@ + queue@.map_values(f),
{
    let ghost q = queue@;
    let mut rev = reversed(queue);
    let ghost base = out@;
    while rev.len() > 0
        invariant
            forall|t: T, r: Command<V, C, F>| call_ensures(g, (t,), r) ==> r == f(t),
            forall|t: T| call_requires(g, (t,)),
            rev@.len() <= q.len(),
            rev@ == q.reverse().subrange(0, rev@.len() as int),
            out@ == base + q.subrange(0, q.len() - rev@.len()).map_values(f),
        decreases rev.len(),
    {
        let ghost k: int = q.len() - rev@.len();
        let x = rev.pop().unwrap();
        proof {
            assert(x == q[k]);
        }
        out.push(g(x));
        proof {
            assert(q.subrange(0, k + 1).map_values(f) =~= q.subrange(0, k).map_values(f).push(f(q[k])));
        }
    }
    assert(q.subrange(0, q.len() as int) =~= q);
}

/// Takes the commands out of `buffer` in the order they are carried out.
pub fn dispatch_order<V, C, F>(buffer: CommandBuffer<V, C, F>) -> (r: Vec<Command<V, C, F>>)
    ensures
        r@ == dispatch_sequence(buffer),
{
    let ghost b = buffer;
    let CommandBuffer { entity_commands, world_commands, broadcast_commands, camera_commands, audio_commands } = buffer;
    let mut out: Vec<Command<V, C, F>> = Vec::new();
    append_all(&mut out, entity_commands, Ghost(|p: (u64, EntityCommand<V>)| Command::<V, C, F>::Entity(p.0, p.1)), |p: (u64, EntityCommand<V>)| -> (r: Command<V, C, F>) ensures r == Command::<V, C, F>::Entity(p.0, p.1) { Command::Entity(p.0, p.1) });
    append_all(&mut out, world_commands, Ghost(|c: WorldCommand<C, F>| Command::<V, C, F>::World(c)), |c: WorldCommand<C, F>| -> (r: Command<V, C, F>) ensures r == Command::<V, C, F>::World(c) { Command::World(c) });
    append_all(&mut out, broadcast_commands, Ghost(|c: MessageCommand| Command::<V, C, F>::Message(c)), |c: MessageCommand| -> (r: Command<V, C, F>) ensures r == Command::<V, C, F>::Message(c) { Command::Message(c) });
    append_all(&mut out, camera_commands, Ghost(|c: CameraCommand| Command::<V, C, F>::Camera(c)), |c: CameraCommand| -> (r: Command<V, C, F>) ensures r == Command::<V, C, F>::Camera(c) { Command::Camera(c) });
    append_all(&mut out, audio_commands, Ghost(|c: AudioCommand| Command::<V, C, F>::Audio(c)), |c: AudioCommand| -> (r: Command<V, C, F>) ensures r == Command::<V, C, F>::Audio(c) { Command::Audio(c) });
    assert(out@ =~= dispatch_sequence(b));
    out
}

} // verus!
