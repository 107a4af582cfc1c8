use foundry::commands::{
    dispatch_order, AudioCommand, CameraCommand, Command, CommandBuffer, EntityCommand,
    MessageCommand, WorldCommand,
};
use foundry::delegator::{route_entity_command, EntityAction};

type Buffer = CommandBuffer<i32, u32, u8>;
type Cmd = Command<i32, u32, u8>;

fn describe(c: &Cmd) -> String {
    match c {
        Command::Entity(id, EntityCommand::Translate(v)) => format!("entity {} translate {}", id, v),
        Command::Entity(id, _) => format!("entity {} other", id),
        Command::World(WorldCommand::Custom(f)) => format!("world custom {}", f),
        Command::World(_) => "world other".to_string(),
        Command::Message(MessageCommand::BroadcastMessage(m)) => format!("message {}", m),
        Command::Message(_) => "messages".to_string(),
        Command::Camera(CameraCommand::SetFov(f)) => format!("camera fov {}", f),
        Command::Camera(_) => "camera custom".to_string(),
        Command::Audio(AudioCommand::Play(p)) => format!("audio {}", p),
    }
}

#[test]
fn new_buffer_is_empty() {
    let b: Buffer = CommandBuffer::new();
    assert!(b.entity_commands.is_empty());
    assert!(b.world_commands.is_empty());
    assert!(b.broadcast_commands.is_empty());
    assert!(b.camera_commands.is_empty());
    assert!(b.audio_commands.is_empty());
}

#[test]
fn push_routes_each_kind_to_its_queue() {
    let mut b: Buffer = CommandBuffer::new();
    b.push(Command::Entity(1, EntityCommand::Translate(5)));
    b.push(Command::Audio(AudioCommand::Play("boom.mp3")));
    b.push(Command::Message(MessageCommand::BroadcastMessage("Test".to_string())));
    b.push(Command::Camera(CameraCommand::SetFov(90)));
    b.push(Command::World(WorldCommand::Custom(7)));
    b.push(Command::Entity(2, EntityCommand::SetPos(6)));
    assert_eq!(b.entity_commands.len(), 2);
    assert_eq!(b.entity_commands[0].0, 1);
    assert_eq!(b.entity_commands[1].0, 2);
    assert_eq!(b.world_commands.len(), 1);
    assert_eq!(b.broadcast_commands.len(), 1);
    assert_eq!(b.camera_commands.len(), 1);
    assert_eq!(b.audio_commands.len(), 1);
}

#[test]
fn dispatch_runs_queues_in_engine_order() {
    let mut b: Buffer = CommandBuffer::new();
    b.push(Command::Audio(AudioCommand::Play("a.mp3")));
    b.push(Command::Camera(CameraCommand::SetFov(60)));
    b.push(Command::Message(MessageCommand::BroadcastMessage("hi".to_string())));
    b.push(Command::World(WorldCommand::Custom(3)));
    b.push(Command::Entity(4, EntityCommand::Translate(1)));
    b.push(Command::Entity(5, EntityCommand::Translate(2)));
    let order: Vec<String> = dispatch_order(b).iter().map(describe).collect();
    assert_eq!(
        order,
        vec![
            "entity 4 translate 1",
            "entity 5 translate 2",
            "world custom 3",
            "message hi",
            "camera fov 60",
            "audio a.mp3",
        ]
    );
}

#[test]
fn dispatch_of_empty_buffer_is_empty() {
    let b: Buffer = CommandBuffer::new();
    assert!(dispatch_order(b).is_empty());
}

#[test]
fn translate_of_camera_moves_camera() {
    match route_entity_command(7, 7, EntityCommand::Translate(3)) {
        EntityAction::TranslateCamera(v) => assert_eq!(v, 3),
        _ => panic!("expected a camera move"),
    }
}

#[test]
fn translate_of_entity_moves_entity() {
    match route_entity_command(7, 2, EntityCommand::Translate(3)) {
        EntityAction::TranslateEntity(e, v) => {
            assert_eq!(e, 2);
            assert_eq!(v, 3);
        }
        _ => panic!("expected an entity move"),
    }
}

#[test]
fn set_pos_sets_entity_position_even_for_camera() {
    match route_entity_command(7, 7, EntityCommand::SetPos(9)) {
        EntityAction::SetEntityPosition(e, v) => {
            assert_eq!(e, 7);
            assert_eq!(v, 9);
        }
        _ => panic!("expected a position change"),
    }
}

#[test]
fn rotate_is_for_the_camera_only() {
    assert!(matches!(route_entity_command(7, 7, EntityCommand::Rotate(1)), EntityAction::RotateCamera(1)));
    assert!(matches!(route_entity_command(7, 8, EntityCommand::Rotate(1)), EntityAction::Unsupported));
}

#[test]
fn unsupported_entity_commands() {
    assert!(matches!(route_entity_command::<i32>(7, 8, EntityCommand::LookAt()), EntityAction::Unsupported));
    assert!(matches!(route_entity_command::<i32>(7, 8, EntityCommand::RotateAround()), EntityAction::Unsupported));
    assert!(matches!(route_entity_command::<i32>(7, 7, EntityCommand::SetRotation()), EntityAction::Unsupported));
}
