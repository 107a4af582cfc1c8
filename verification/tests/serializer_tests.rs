use foundry::components::{BroadCaster, MeshAllocation};
use foundry::game_data::loaded_mesh_allocation;
use foundry::serializer::{
    integer_text, read_scene_event, read_scene_events, read_scene_text, SceneError, DocumentBuilder, DocumentType, ReadStep, YamlEvent,
    YamlSerializer,
};

#[test]
fn integer_text_matches_to_string() {
    for v in [0i64, 7, 10, 42, -1, -10, 1234567890, i64::MAX, i64::MIN] {
        assert_eq!(integer_text(v), v.to_string());
    }
}

#[test]
fn component_document_text() {
    let mut s: YamlSerializer<u8> = YamlSerializer::new();
    let fields = vec![
        ("thing".to_string(), "1.1110".to_string()),
        ("test".to_string(), "3".to_string()),
    ];
    s.serialize_component(1, &"TestStruct".to_string(), &fields);
    assert_eq!(
        s.output_buffer().as_str(),
        "\n---Component: &1\n    id: 1\n    type: TestStruct\n    data:        thing: 1.1110\n        test: 3\n..."
    );
}

#[test]
fn component_documents_accumulate() {
    let mut s: YamlSerializer<u8> = YamlSerializer::new();
    s.serialize_component(250, &"A".to_string(), &vec![]);
    s.serialize_component(7, &"B".to_string(), &vec![]);
    assert_eq!(
        s.output_buffer().as_str(),
        "\n---Component: &250\n    id: 1\n    type: A\n    data:...\n---Component: &7\n    id: 1\n    type: B\n    data:..."
    );
}

#[test]
fn document_builder_collects_fields() {
    let mut d: DocumentBuilder<i64> = DocumentBuilder::new(DocumentType::Component);
    d.set_type_id(4);
    d.set_f_name("Health".to_string());
    d.set_local_file_id(uuid::Uuid::nil());
    d.push_data_field(("current".to_string(), 20));
    d.push_data_field(("max".to_string(), 30));
    assert!(d.doc_type() == DocumentType::Component);
    assert_eq!(d.type_id(), Some(4));
    assert_eq!(d.f_name(), Some(&"Health".to_string()));
    assert_eq!(d.local_file_id(), Some(&uuid::Uuid::nil()));
    assert!(d.components().is_none());
    let fields = d.data_fields().unwrap();
    assert_eq!(fields.len(), 2);
    assert_eq!(fields[0], ("current".to_string(), 20));
    assert_eq!(fields[1], ("max".to_string(), 30));
    let mut o: DocumentBuilder<i64> = DocumentBuilder::new(DocumentType::default());
    assert!(o.doc_type() == DocumentType::GameObject);
    let id = uuid::Uuid::from_u128(5);
    o.push_component(uuid::Uuid::nil());
    o.push_component(id);
    assert_eq!(o.components(), Some(&vec![uuid::Uuid::nil(), id]));
    assert!(o.data_fields().is_none());
}

#[test]
fn scene_reader_steps() {
    match read_scene_event(true, YamlEvent::DocumentStart) {
        (false, ReadStep::Report(lines)) => assert_eq!(lines, vec!["Found doc start".to_string()]),
        _ => panic!("expected a report"),
    }
    match read_scene_event(false, YamlEvent::MappingStart(Some("Health".to_string()))) {
        (true, ReadStep::Report(lines)) => assert_eq!(
            lines,
            vec![
                "Found object mapping".to_string(),
                "found tag: Health".to_string(),
                "Found data mapping".to_string()
            ]
        ),
        _ => panic!("expected a report"),
    }
    match read_scene_event(false, YamlEvent::MappingStart(None)) {
        (false, ReadStep::Report(lines)) => assert_eq!(lines, vec!["Found data mapping".to_string()]),
        _ => panic!("expected a report"),
    }
    match read_scene_event(true, YamlEvent::Scalar("name".to_string())) {
        (true, ReadStep::Report(lines)) => assert_eq!(lines, vec!["name".to_string()]),
        _ => panic!("expected a report"),
    }
    assert!(matches!(read_scene_event(true, YamlEvent::StreamEnd), (true, ReadStep::EndOfStream)));
    match read_scene_event(false, YamlEvent::Other) {
        (false, ReadStep::Report(lines)) => assert!(lines.is_empty()),
        _ => panic!("expected a report"),
    }
}

#[test]
fn broadcaster_keeps_listeners_in_order() {
    let mut b: BroadCaster<u32> = BroadCaster::new();
    assert!(b.listeners_for(&"Test".to_string()).is_none());
    b.add_listener("Test".to_string(), 1);
    b.add_listener("Other".to_string(), 2);
    b.add_listener("Test".to_string(), 3);
    assert_eq!(b.listeners_for(&"Test".to_string()), Some(&vec![1, 3]));
    assert_eq!(b.listeners_for(&"Other".to_string()), Some(&vec![2]));
    assert!(b.listeners_for(&"None".to_string()).is_none());
}

#[test]
fn loaded_mesh_allocation_counts() {
    let m = loaded_mesh_allocation(120, 180, 40);
    assert_eq!(m.index_count, 60);
    assert_eq!(m.first_index, 120);
    assert_eq!(m.first_vertex, 40);
    let e = MeshAllocation::default();
    assert_eq!(e.index_count, 0);
}

fn lines(v: &[&str]) -> Vec<String> {
    v.iter().map(|l| l.to_string()).collect()
}

#[test]
fn scene_text_reports_each_event_and_ends_at_the_stream_end() {
    match read_scene_text("hp: 3") {
        Err(SceneError::EndOfStream(got)) => {
            assert_eq!(got, lines(&["Found doc start", "Found data mapping", "hp", "3"]))
        }
        Ok(_) => panic!("a complete stream ends with its end"),
    }
}

#[test]
fn scene_text_reports_tagged_mappings() {
    match read_scene_text("--- !Health\ncurrent: 20\n") {
        Err(SceneError::EndOfStream(got)) => assert_eq!(
            got,
            lines(&[
                "Found doc start",
                "Found object mapping",
                "found tag: Health",
                "Found data mapping",
                "current",
                "20"
            ])
        ),
        Ok(_) => panic!("a complete stream ends with its end"),
    }
}

#[test]
fn empty_scene_text_ends_at_once() {
    match read_scene_text("") {
        Err(SceneError::EndOfStream(got)) => assert!(got.is_empty()),
        Ok(_) => panic!("an empty stream still ends"),
    }
}

#[test]
fn scene_text_with_an_error_stops_quietly() {
    match read_scene_text("a: [1, 2") {
        Ok(got) => assert_eq!(got, lines(&["Found doc start", "Found data mapping", "a", "1", "2"])),
        Err(_) => panic!("a parse error is not the end of the stream"),
    }
}

#[test]
fn scene_events_stop_at_the_first_end() {
    let events = vec![
        YamlEvent::DocumentStart,
        YamlEvent::Scalar("x".to_string()),
        YamlEvent::StreamEnd,
        YamlEvent::Scalar("never".to_string()),
    ];
    match read_scene_events(events) {
        Err(SceneError::EndOfStream(got)) => assert_eq!(got, lines(&["Found doc start", "x"])),
        Ok(_) => panic!("expected the end of the stream"),
    }
    match read_scene_events(vec![YamlEvent::Other, YamlEvent::Scalar("y".to_string())]) {
        Ok(got) => assert_eq!(got, lines(&["y"])),
        Err(_) => panic!("no end in these events"),
    }
}

#[test]
fn component_document_written_piece_by_piece() {
    let mut whole: YamlSerializer<u8> = YamlSerializer::new();
    whole.serialize_component(7, &"Health".to_string(), &vec![("max".to_string(), "20".to_string())]);
    let mut parts: YamlSerializer<u8> = YamlSerializer::new();
    parts.begin_component(7, &"Health".to_string());
    parts.push_field(&"max".to_string(), &"20".to_string());
    parts.end_component();
    assert_eq!(parts.output_buffer(), whole.output_buffer());
    assert_eq!(
        parts.output_buffer(),
        "\n---Component: &7\n    id: 1\n    type: Health\n    data:        max: 20\n..."
    );
}
