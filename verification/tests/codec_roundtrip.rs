use audiobench::bytes::{bytes_eq, deserialize_string, DecodeError};
use audiobench::patch::{Patch, PatchSource};
use audiobench::saved::{
    SavedAutomationLane, SavedComplexControl, SavedControl, SavedInputConnection, SavedModule,
    SavedModuleGraph,
};

fn lane(module_index: u16, output_index: u8, range_min: f32, range_max: f32) -> SavedAutomationLane {
    SavedAutomationLane {
        module_index,
        output_index,
        range_min: range_min.to_bits(),
        range_max: range_max.to_bits(),
    }
}

fn sample_module() -> SavedModule {
    SavedModule {
        resource_name: b"base:oscillator".to_vec(),
        controls: vec![
            SavedControl {
                value: (0.25f32).to_bits(),
                automation_lanes: vec![lane(1, 0, -1.0, 1.0), lane(0, 1, 0.0, 0.5)],
            },
            SavedControl { value: (8000.0f32).to_bits(), automation_lanes: vec![] },
        ],
        complex_controls: vec![
            SavedComplexControl { value: b"TRUE".to_vec() },
            SavedComplexControl { value: b"".to_vec() },
        ],
        input_connections: vec![
            SavedInputConnection::Default(3),
            SavedInputConnection::Output { module_index: 1, output_index: 2 },
        ],
        pos_x: -17,
        pos_y: 4200,
    }
}

#[test]
fn lane_exact_bytes() {
    let l = lane(0x0102, 3, 1.0, -1.0);
    let mut out = Vec::new();
    l.serialize(&mut out);
    let mut expected = vec![0x01u8, 0x02, 0x03];
    expected.extend_from_slice(&(1.0f32).to_bits().to_be_bytes());
    expected.extend_from_slice(&(-1.0f32).to_bits().to_be_bytes());
    assert_eq!(out, expected);
}

#[test]
fn lane_roundtrip() {
    let l = lane(513, 7, 0.125, 220.5);
    let mut out = Vec::new();
    l.serialize(&mut out);
    let mut pos = 0;
    let back = SavedAutomationLane::deserialize(&out, &mut pos).unwrap();
    assert_eq!(back, l);
    assert_eq!(pos, out.len());
}

#[test]
fn control_roundtrip() {
    let c = SavedControl {
        value: (0.75f32).to_bits(),
        automation_lanes: vec![lane(0, 0, 0.0, 1.0), lane(2, 1, -4.0, 4.0)],
    };
    let mut out = Vec::new();
    c.serialize(&mut out);
    let mut pos = 0;
    let back = SavedControl::deserialize(&out, &mut pos).unwrap();
    assert_eq!(back, c);
    assert_eq!(pos, out.len());
}

#[test]
fn complex_control_exact_bytes_and_roundtrip() {
    let c = SavedComplexControl { value: b"AB".to_vec() };
    let mut out = Vec::new();
    c.serialize(&mut out);
    assert_eq!(out, vec![0x00u8, 0x02, 0x41, 0x42]);
    let mut pos = 0;
    let back = SavedComplexControl::deserialize(&out, &mut pos).unwrap();
    assert_eq!(back, c);
}

#[test]
fn input_connection_default_tag() {
    let c = SavedInputConnection::Default(9);
    let mut out = Vec::new();
    c.serialize(&mut out);
    assert_eq!(out, vec![0xFFu8, 0x00, 0x09]);
    let mut pos = 0;
    assert_eq!(SavedInputConnection::deserialize(&out, &mut pos).unwrap(), c);
}

#[test]
fn input_connection_wire_roundtrip() {
    let c = SavedInputConnection::Output { module_index: 0x7FFF, output_index: 0xFE };
    let mut out = Vec::new();
    c.serialize(&mut out);
    assert_eq!(out, vec![0x7Fu8, 0xFF, 0xFE]);
    let mut pos = 0;
    assert_eq!(SavedInputConnection::deserialize(&out, &mut pos).unwrap(), c);
}

#[test]
fn module_roundtrip_with_negative_position() {
    let m = sample_module();
    let mut out = Vec::new();
    m.serialize(&mut out);
    // pos_x = -17 as big-endian two's complement
    assert_eq!(&out[0..4], &[0xFF, 0xFF, 0xFF, 0xEF]);
    let mut pos = 0;
    let back = SavedModule::deserialize(&out, &mut pos).unwrap();
    assert_eq!(back, m);
    assert_eq!(pos, out.len());
}

#[test]
fn graph_roundtrip() {
    let g = SavedModuleGraph { modules: vec![sample_module(), sample_module()] };
    let mut out = Vec::new();
    g.serialize(&mut out);
    assert_eq!(&out[0..2], &[0x00, 0x02]);
    let mut pos = 0;
    let back = SavedModuleGraph::deserialize(&out, &mut pos).unwrap();
    assert_eq!(back, g);
    assert_eq!(pos, out.len());
}

#[test]
fn patch_roundtrip_keeps_name_and_graph() {
    let mut p = Patch::writable(String::from("patches/demo.abpatch"));
    p.set_name(b"My Patch".to_vec());
    p.note_graph = SavedModuleGraph { modules: vec![sample_module()] };
    let mut image = Vec::new();
    p.serialize(&mut image);
    let back = Patch::load_readable(String::from("factory:demo"), &image).unwrap();
    assert_eq!(back.borrow_name(), &b"My Patch".to_vec());
    assert_eq!(back.note_graph, p.note_graph);
    assert!(!back.is_writable());
}

#[test]
fn patch_roundtrip_ignores_trailing_bytes() {
    let mut p = Patch::writable(String::from("x"));
    p.set_name(b"N".to_vec());
    let mut image = Vec::new();
    p.serialize(&mut image);
    image.extend_from_slice(&[1, 2, 3, 4]);
    let back = Patch::load_writable(String::from("x"), &image).unwrap();
    assert_eq!(back.borrow_name(), &b"N".to_vec());
    assert!(back.is_writable());
}

#[test]
fn truncated_lane_is_rejected() {
    let l = lane(1, 2, 0.0, 1.0);
    let mut out = Vec::new();
    l.serialize(&mut out);
    out.truncate(10);
    let mut pos = 0;
    assert_eq!(
        SavedAutomationLane::deserialize(&out, &mut pos),
        Err(DecodeError::UnexpectedEnd)
    );
}

#[test]
fn truncated_module_is_rejected() {
    let m = sample_module();
    let mut out = Vec::new();
    m.serialize(&mut out);
    out.truncate(out.len() - 1);
    let mut pos = 0;
    assert_eq!(SavedModule::deserialize(&out, &mut pos), Err(DecodeError::UnexpectedEnd));
}

#[test]
fn truncated_patch_is_rejected() {
    let mut p = Patch::writable(String::from("x"));
    p.note_graph = SavedModuleGraph { modules: vec![sample_module()] };
    let mut image = Vec::new();
    p.serialize(&mut image);
    image.truncate(image.len() / 2);
    assert!(Patch::load_writable(String::from("x"), &image).is_err());
}

#[test]
fn deserialize_string_reads_exact_window() {
    let data = vec![10u8, 11, 12, 13, 14];
    let mut pos = 1;
    let s = deserialize_string(&data, &mut pos, 3).unwrap();
    assert_eq!(s, vec![11, 12, 13]);
    assert_eq!(pos, 4);
    let mut pos = 3;
    assert_eq!(deserialize_string(&data, &mut pos, 3), Err(DecodeError::UnexpectedEnd));
}

#[test]
fn bytes_eq_compares_contents() {
    assert!(bytes_eq(&b"abc".to_vec(), &b"abc".to_vec()));
    assert!(!bytes_eq(&b"abc".to_vec(), &b"abd".to_vec()));
    assert!(!bytes_eq(&b"abc".to_vec(), &b"ab".to_vec()));
}

#[test]
fn fresh_writable_patch_is_unnamed_and_empty() {
    let p = Patch::writable(String::from("fresh.abpatch"));
    assert_eq!(p.borrow_name(), &b"Unnamed".to_vec());
    assert_eq!(p.note_graph.modules.len(), 0);
    assert!(p.is_writable());
    assert!(matches!(p.source, PatchSource::Writable(_)));
}

#[test]
fn counts_at_the_byte_caps_roundtrip() {
    let mut lanes = Vec::new();
    for i in 0..255u16 {
        lanes.push(lane(i, (i % 0xFE) as u8, i as f32, (i + 1) as f32));
    }
    let m = SavedModule {
        resource_name: vec![b'n'; 255],
        controls: vec![SavedControl { value: 0, automation_lanes: lanes }],
        complex_controls: vec![SavedComplexControl { value: vec![b'x'; 0xFFFF] }],
        input_connections: vec![SavedInputConnection::Default(0xFF); 255],
        pos_x: i32::MIN,
        pos_y: i32::MAX,
    };
    let mut out = Vec::new();
    m.serialize(&mut out);
    let mut pos = 0;
    let back = SavedModule::deserialize(&out, &mut pos).unwrap();
    assert_eq!(back, m);
    assert_eq!(pos, out.len());
}

#[test]
fn empty_graph_roundtrips() {
    let g = SavedModuleGraph { modules: vec![] };
    let mut out = Vec::new();
    g.serialize(&mut out);
    assert_eq!(out, vec![0u8, 0]);
    let mut pos = 0;
    assert_eq!(SavedModuleGraph::deserialize(&out, &mut pos).unwrap(), g);
}
