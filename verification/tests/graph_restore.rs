use audiobench::codegen::generate_code;
use audiobench::graph::{
    AutomationLane, ComplexControl, Control, IOType, InputConnection, JackType, Module,
    ModuleGraph, Registry,
};
use audiobench::patch::Patch;
use audiobench::perf::{CompilerSectionTimes, PerfTally};
use audiobench::persist::RestoreError;
use audiobench::saved::{SavedAutomationLane, SavedInputConnection, SavedModuleGraph};
use audiobench::timing::{TimingAction, TimingSelector};

fn control(min: f32, max: f32, default: f32) -> Control {
    Control::new(min.to_bits(), max.to_bits(), default.to_bits())
}

/// A template with one audio input, one audio and one pitch output, one
/// control and one complex control.
fn osc_template() -> Module {
    Module {
        resource_name: b"base:osc".to_vec(),
        input_types: vec![JackType::Audio],
        output_types: vec![JackType::Audio, JackType::Pitch],
        controls: vec![control(-1.0, 1.0, 0.0)],
        complex_controls: vec![ComplexControl { value: b"FALSE".to_vec() }],
        input_connections: vec![InputConnection::Default(0)],
        pos_x: 0,
        pos_y: 0,
    }
}

/// A template with one pitch input and one audio output.
fn filter_template() -> Module {
    Module {
        resource_name: b"base:filter".to_vec(),
        input_types: vec![JackType::Pitch],
        output_types: vec![JackType::Audio],
        controls: vec![control(0.0, 22000.0, 8000.0)],
        complex_controls: vec![],
        input_connections: vec![InputConnection::Default(0)],
        pos_x: 0,
        pos_y: 0,
    }
}

fn registry() -> Registry {
    Registry { templates: vec![osc_template(), filter_template()] }
}

/// A two-module graph: an oscillator wired into a filter, with an
/// automation lane from the oscillator's audio output.
fn sample_graph() -> ModuleGraph {
    let mut osc = osc_template();
    osc.controls[0].value = (0.5f32).to_bits();
    osc.complex_controls[0].value = b"TRUE".to_vec();
    osc.pos_x = -30;
    osc.pos_y = 12;
    let mut flt = filter_template();
    flt.controls[0].value = (440.0f32).to_bits();
    flt.controls[0].automation.push(AutomationLane {
        module_index: 0,
        output_index: 0,
        range_min: (100.0f32).to_bits(),
        range_max: (200.0f32).to_bits(),
    });
    flt.input_connections[0] = InputConnection::Wire(0, 1);
    flt.pos_x = 40;
    flt.pos_y = 7;
    ModuleGraph { modules: vec![osc, flt] }
}

fn save_restore(graph: &ModuleGraph, reg: &Registry) -> Result<ModuleGraph, RestoreError> {
    let mut patch = Patch::writable(String::from("t.abpatch"));
    patch.save_note_graph(graph);
    let mut image = Vec::new();
    patch.serialize(&mut image);
    let loaded = Patch::load_writable(String::from("t.abpatch"), &image).unwrap();
    let mut target = ModuleGraph { modules: vec![] };
    loaded.restore_note_graph(&mut target, reg).map(|_| target)
}

#[test]
fn save_restore_reproduces_graph() {
    let graph = sample_graph();
    let reg = registry();
    let restored = save_restore(&graph, &reg).unwrap();
    assert_eq!(restored.modules.len(), 2);
    let osc = &restored.modules[0];
    assert_eq!(osc.resource_name, b"base:osc".to_vec());
    assert_eq!(osc.controls[0].value, (0.5f32).to_bits());
    assert_eq!(osc.complex_controls[0].value, b"TRUE".to_vec());
    assert_eq!((osc.pos_x, osc.pos_y), (-30, 12));
    let flt = &restored.modules[1];
    assert_eq!(flt.controls[0].value, (440.0f32).to_bits());
    assert_eq!(flt.controls[0].automation.len(), 1);
    let lane = flt.controls[0].automation[0];
    assert_eq!((lane.module_index, lane.output_index), (0, 0));
    assert_eq!(lane.range_min, (100.0f32).to_bits());
    assert_eq!(lane.range_max, (200.0f32).to_bits());
    assert_eq!(flt.input_connections[0], InputConnection::Wire(0, 1));
    assert_eq!((flt.pos_x, flt.pos_y), (40, 7));
    // ranges and defaults come back from the template
    assert_eq!(flt.controls[0].range_max, (22000.0f32).to_bits());
    assert_eq!(flt.controls[0].default, (8000.0f32).to_bits());
}

#[test]
fn restore_fails_on_unknown_module() {
    let graph = sample_graph();
    let reg = Registry { templates: vec![filter_template()] };
    assert_eq!(save_restore(&graph, &reg).err(), Some(RestoreError::UnknownModule));
}

#[test]
fn restore_fails_when_control_count_drifts() {
    let graph = sample_graph();
    let mut reg = registry();
    reg.templates[0].controls.push(control(0.0, 1.0, 0.0));
    assert_eq!(save_restore(&graph, &reg).err(), Some(RestoreError::ControlCountMismatch));
}

#[test]
fn restore_fails_when_complex_count_drifts() {
    let graph = sample_graph();
    let mut reg = registry();
    reg.templates[0].complex_controls.clear();
    assert_eq!(save_restore(&graph, &reg).err(), Some(RestoreError::ComplexControlCountMismatch));
}

#[test]
fn restore_fails_when_input_count_drifts() {
    let graph = sample_graph();
    let mut reg = registry();
    reg.templates[1].input_types.push(JackType::Audio);
    reg.templates[1].input_connections.push(InputConnection::Default(0));
    assert_eq!(save_restore(&graph, &reg).err(), Some(RestoreError::InputCountMismatch));
}

#[test]
fn restore_fails_on_wire_module_index_out_of_bounds() {
    let mut patch = Patch::writable(String::from("t"));
    patch.save_note_graph(&sample_graph());
    // point the filter's wire at a module handle past the module count
    patch.note_graph.modules[1].input_connections[0] =
        SavedInputConnection::Output { module_index: 2, output_index: 0 };
    let mut target = ModuleGraph { modules: vec![] };
    assert_eq!(
        patch.restore_note_graph(&mut target, &registry()),
        Err(RestoreError::ModuleIndexOutOfBounds)
    );
    assert_eq!(target.modules.len(), 0);
}

#[test]
fn restore_fails_on_wire_output_index_out_of_bounds() {
    let mut patch = Patch::writable(String::from("t"));
    patch.save_note_graph(&sample_graph());
    patch.note_graph.modules[1].input_connections[0] =
        SavedInputConnection::Output { module_index: 0, output_index: 2 };
    let mut target = ModuleGraph { modules: vec![] };
    assert_eq!(
        patch.restore_note_graph(&mut target, &registry()),
        Err(RestoreError::OutputIndexOutOfBounds)
    );
}

#[test]
fn restore_fails_on_wire_type_mismatch() {
    let mut patch = Patch::writable(String::from("t"));
    patch.save_note_graph(&sample_graph());
    // the filter's input is pitch-typed; output 0 of the oscillator is audio
    patch.note_graph.modules[1].input_connections[0] =
        SavedInputConnection::Output { module_index: 0, output_index: 0 };
    let mut target = ModuleGraph { modules: vec![] };
    assert_eq!(
        patch.restore_note_graph(&mut target, &registry()),
        Err(RestoreError::WireTypeMismatch)
    );
}

#[test]
fn restore_fails_on_non_audio_automation_source() {
    let mut patch = Patch::writable(String::from("t"));
    patch.save_note_graph(&sample_graph());
    // retarget the filter's lane at the oscillator's pitch output
    patch.note_graph.modules[1].controls[0].automation_lanes[0] =
        SavedAutomationLane {
            module_index: 0,
            output_index: 1,
            range_min: 0,
            range_max: 0,
        };
    let mut target = ModuleGraph { modules: vec![] };
    assert_eq!(
        patch.restore_note_graph(&mut target, &registry()),
        Err(RestoreError::AutomationTypeMismatch)
    );
}

#[test]
fn failed_restore_leaves_previous_graph_untouched() {
    let reg = registry();
    let mut target = ModuleGraph { modules: vec![] };
    let mut good = Patch::writable(String::from("t"));
    good.save_note_graph(&sample_graph());
    good.restore_note_graph(&mut target, &reg).unwrap();
    assert_eq!(target.modules.len(), 2);
    let mut bad = good;
    bad.note_graph.modules[1].input_connections[0] =
        SavedInputConnection::Output { module_index: 5, output_index: 0 };
    assert!(bad.restore_note_graph(&mut target, &reg).is_err());
    assert_eq!(target.modules.len(), 2);
    assert_eq!(target.modules[0].complex_controls[0].value, b"TRUE".to_vec());
}

#[test]
fn connect_automation_freezes_current_range() {
    let mut c = control(2.0, 6.0, 3.0);
    c.connect_automation(4, 1);
    c.set_range((100.0f32).to_bits(), (200.0f32).to_bits());
    c.connect_automation(5, 0);
    assert_eq!(c.automation.len(), 2);
    assert_eq!(c.automation[0].range_min, (2.0f32).to_bits());
    assert_eq!(c.automation[0].range_max, (6.0f32).to_bits());
    assert_eq!(c.automation[1].range_min, (100.0f32).to_bits());
    assert_eq!(c.automation[1].range_max, (200.0f32).to_bits());
    assert_eq!((c.automation[0].module_index, c.automation[0].output_index), (4, 1));
    let conns = c.get_connected_automation();
    assert_eq!(conns, vec![(4, 1), (5, 0)]);
}

#[test]
fn control_accepts_only_audio_automation() {
    let c = control(0.0, 1.0, 0.0);
    assert_eq!(c.acceptable_automation(), vec![JackType::Audio]);
    assert_eq!(c.get_parameter_types(), vec![IOType::FloatArray]);
}

#[test]
fn parameter_values_layout_is_value_then_lane_pairs() {
    let mut c = control(0.0, 1.0, 0.25);
    c.connect_automation(0, 0);
    c.connect_automation(1, 0);
    let coeffs = vec![
        ((0.5f32).to_bits(), (0.5f32).to_bits()),
        ((2.0f32).to_bits(), (3.0f32).to_bits()),
    ];
    let values = c.get_parameter_values(&coeffs);
    assert_eq!(
        values,
        vec![
            (0.25f32).to_bits(),
            (0.5f32).to_bits(),
            (0.5f32).to_bits(),
            (2.0f32).to_bits(),
            (3.0f32).to_bits(),
        ]
    );
}

#[test]
fn generate_code_without_lanes_is_constant_signal() {
    let c = control(0.0, 1.0, 0.5);
    let code = generate_code(&c, &b"auto_0".to_vec(), &vec![]);
    assert_eq!(code, b"StaticControlSignal(auto_0[1])".to_vec());
}

#[test]
fn generate_code_sums_lane_terms_in_order() {
    let mut c = control(0.0, 1.0, 0.5);
    c.connect_automation(0, 0);
    c.connect_automation(1, 0);
    let lane_values = vec![b"mod0_out0".to_vec(), b"mod1_out0".to_vec()];
    let code = generate_code(&c, &b"auto_3".to_vec(), &lane_values);
    assert_eq!(
        code,
        b"(a2cs(mod0_out0) .* auto_3[2] .+ auto_3[3]) .+ (a2cs(mod1_out0) .* auto_3[4] .+ auto_3[5])"
            .to_vec()
    );
}

#[test]
fn timing_selector_reads_and_toggles() {
    let sel = TimingSelector::create(
        ComplexControl { value: b"TRUE".to_vec() },
        ComplexControl { value: b"FALSE".to_vec() },
    );
    assert!(sel.source_value());
    assert!(!sel.type_value());
    match sel.respond_to_mouse_press(true) {
        TimingAction::SetSource(v) => assert_eq!(v, b"FALSE".to_vec()),
        _ => panic!("left half must toggle the source"),
    }
    match sel.respond_to_mouse_press(false) {
        TimingAction::SetType(v) => assert_eq!(v, b"TRUE".to_vec()),
        _ => panic!("right half must toggle the type"),
    }
    assert_eq!(
        sel.get_tooltip_at(true),
        "Change timing source, current value is \"song\""
    );
    assert_eq!(
        sel.get_tooltip_at(false),
        "Change timing type, current value is \"seconds\""
    );
}

#[test]
fn tally_counts_each_measurement_once() {
    let mut tally = PerfTally::new();
    let mut counters = CompilerSectionTimes::new();
    counters.ast = 10;
    counters.vague = 20;
    counters.resolved = 30;
    counters.trivial = 40;
    counters.llvmir = 50;
    tally.tally_performance_counters(&mut counters);
    assert_eq!((tally.ast, tally.vague, tally.resolved), (10, 20, 30));
    assert_eq!((tally.trivial, tally.llvmir), (40, 50));
    // the read reset the source counters, so a second tally adds nothing
    tally.tally_performance_counters(&mut counters);
    assert_eq!((tally.ast, tally.vague, tally.resolved), (10, 20, 30));
    assert_eq!((tally.trivial, tally.llvmir), (40, 50));
}
