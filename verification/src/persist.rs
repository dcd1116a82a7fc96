//! Saving a live graph into its persistable form and restoring it back.
//!
//! Save assigns each module the handle it already has in the arena and
//! narrows every reference to wire width. Restore is two-pass: pass one
//! clones templates from the registry and applies saved values; pass two
//! resolves every wire and automation lane against the fully instantiated
//! module list, validating handle bounds, output bounds and jack types.
//! Restore is all-or-nothing: any validation failure leaves the graph
//! untouched.

use crate::graph::{
    graph_wf, lanes_in_arena, spec_lookup, AutomationLane, ComplexControl, Control, ControlV,
    InputConnection, JackType, Module, ModuleGraph, ModuleV, Registry,
};
use crate::saved::{
    SavedAutomationLane, SavedComplexControl, SavedComplexControlV, SavedControl, SavedControlV,
    SavedInputConnection, SavedModule, SavedModuleGraph, SavedModuleGraphV, SavedModuleV,
};
use vstd::prelude::*;

verus! {

/// The ways restoring a saved graph can fail; any of them aborts the whole
/// restore and names a corrupt or out-of-date patch.
#[derive(Clone, Copy, Debug, PartialEq, Eq, Structural)]
pub enum RestoreError {
    /// No template of the saved resource name is registered.
    UnknownModule,
    /// The template's control count differs from the saved count.
    ControlCountMismatch,
    /// The template's complex-control count differs from the saved count.
    ComplexControlCountMismatch,
    /// The template's input count differs from the saved count.
    InputCountMismatch,
    /// A wire or lane names a module handle at or past the module count.
    ModuleIndexOutOfBounds,
    /// A wire or lane names an output its source module does not have.
    OutputIndexOutOfBounds,
    /// A wire's source output type differs from its destination input type.
    WireTypeMismatch,
    /// An automation lane's source output is not audio-rate.
    AutomationTypeMismatch,
}

// --- save: live values narrowed to wire width ---
pub open spec fn saved_lane_of(l: AutomationLane) -> SavedAutomationLane {
    SavedAutomationLane {
        module_index: l.module_index as u16,
        output_index: l.output_index as u8,
        range_min: l.range_min,
        range_max: l.range_max,
    }
}

pub open spec fn saved_control_of(c: ControlV) -> SavedControlV {
    SavedControlV {
        value: c.value,
        automation_lanes: c.automation.map_values(|l: AutomationLane| saved_lane_of(l)),
    }
}

pub open spec fn saved_input_of(ic: InputConnection) -> SavedInputConnection {
    match ic {
        InputConnection::Default(d) => SavedInputConnection::Default(d as u8),
        InputConnection::Wire(m, o) => SavedInputConnection::Output {
            module_index: m as u16,
            output_index: o as u8,
        },
    }
}

pub open spec fn saved_module_of(m: ModuleV) -> SavedModuleV {
    SavedModuleV {
        resource_name: m.resource_name,
        controls: m.controls.map_values(|c: ControlV| saved_control_of(c)),
        complex_controls: m.complex_controls.map_values(
            |v: Seq<u8>| SavedComplexControlV { value: v },
        ),
        input_connections: m.input_connections.map_values(
            |ic: InputConnection| saved_input_of(ic),
        ),
        pos_x: m.pos_x,
        pos_y: m.pos_y,
    }
}

pub open spec fn saved_graph_of(g: Seq<ModuleV>) -> SavedModuleGraphV {
    SavedModuleGraphV { modules: g.map_values(|m: ModuleV| saved_module_of(m)) }
}

impl SavedModuleGraph {
    /// One control narrowed to its saved form.
    pub fn save_control(control: &Control) -> (r: SavedControl)
        requires
            control@.wf(),
            lanes_in_arena(control@.automation, 0x400),
        ensures
            r@ == saved_control_of(control@),
            r@.wf(),
    {
        let mut lanes: Vec<SavedAutomationLane> = Vec::new();
        let mut k: usize = 0;
        while k < control.automation.len()
            invariant
                control@.wf(),
                lanes_in_arena(control@.automation, 0x400),
                k <= control@.automation.len(),
                lanes@.len() == k,
                forall|j: int|
                    0 <= j < k ==> lanes@[j] == saved_lane_of(#[trigger] control@.automation[j]),
            decreases control@.automation.len() - k,
        {
            let lane = control.automation[k];
            assert(control@.automation[k as int] == lane);
            lanes.push(
                SavedAutomationLane {
                    module_index: lane.module_index as u16,
                    output_index: lane.output_index as u8,
                    range_min: lane.range_min,
                    range_max: lane.range_max,
                },
            );
            k = k + 1;
        }
        let r = SavedControl { value: control.value, automation_lanes: lanes };
        proof {
            let target = saved_control_of(control@);
            assert forall|j: int| 0 <= j < lanes@.len() implies r@.automation_lanes[j]
                == target.automation_lanes[j] by {
                assert(target.automation_lanes[j] == saved_lane_of(control@.automation[j]));
            }
            assert(r@.automation_lanes =~= target.automation_lanes);
            assert(r@ =~= target);
        }
        r
    }

    /// One input wiring choice narrowed to its saved form.
    pub fn save_input(input: &InputConnection) -> (r: SavedInputConnection)
        requires
            match *input {
                InputConnection::Default(d) => d <= 0xFF,
                InputConnection::Wire(m, o) => m < 0x400 && o <= 0xFF,
            },
        ensures
            r == saved_input_of(*input),
            r.wf(),
    {
        match input {
            InputConnection::Default(d) => SavedInputConnection::Default(*d as u8),
            InputConnection::Wire(m, o) => SavedInputConnection::Output {
                module_index: *m as u16,
                output_index: *o as u8,
            },
        }
    }

    /// One module narrowed to its saved form, under the handle assignment
    /// the arena already fixes.
    pub fn save_module(module: &Module) -> (r: SavedModule)
        requires
            module@.wf(),
            forall|j: int|
                0 <= j < module@.controls.len() ==> lanes_in_arena(
                    (#[trigger] module@.controls[j]).automation,
                    0x400,
                ),
            forall|j: int|
                0 <= j < module@.input_connections.len() ==> match (
                #[trigger] module@.input_connections[j]) {
                    InputConnection::Default(_) => true,
                    InputConnection::Wire(m, _) => m < 0x400,
                },
        ensures
            r@ == saved_module_of(module@),
            r@.wf(),
    {
        let mut controls: Vec<SavedControl> = Vec::new();
        let mut k: usize = 0;
        while k < module.controls.len()
            invariant
                module@.wf(),
                forall|j: int|
                    0 <= j < module@.controls.len() ==> lanes_in_arena(
                        (#[trigger] module@.controls[j]).automation,
                        0x400,
                    ),
                k <= module@.controls.len(),
                controls@.len() == k,
                forall|j: int|
                    0 <= j < k ==> (#[trigger] controls@[j])@ == saved_control_of(
                        module@.controls[j],
                    ) && controls@[j]@.wf(),
            decreases module@.controls.len() - k,
        {
            assert(module@.controls[k as int] == module.controls@.map_values(|c: Control| c@)[k as int]);
            let sc = Self::save_control(&module.controls[k]);
            controls.push(sc);
            k = k + 1;
        }
        let mut complex_controls: Vec<SavedComplexControl> = Vec::new();
        let mut k: usize = 0;
        while k < module.complex_controls.len()
            invariant
                module@.wf(),
                k <= module@.complex_controls.len(),
                complex_controls@.len() == k,
                forall|j: int|
                    0 <= j < k ==> (#[trigger] complex_controls@[j])@ == (SavedComplexControlV {
                        value: module@.complex_controls[j],
                    }),
            decreases module@.complex_controls.len() - k,
        {
            assert(module@.complex_controls[k as int] == module.complex_controls@.map_values(
                |c: ComplexControl| c@,
            )[k as int]);
            let value = crate::bytes::copy_bytes(&module.complex_controls[k].value);
            complex_controls.push(SavedComplexControl { value });
            k = k + 1;
        }
        let mut input_connections: Vec<SavedInputConnection> = Vec::new();
        let mut k: usize = 0;
        while k < module.input_connections.len()
            invariant
                module@.wf(),
                forall|j: int|
                    0 <= j < module@.input_connections.len() ==> match (
                    #[trigger] module@.input_connections[j]) {
                        InputConnection::Default(_) => true,
                        InputConnection::Wire(m, _) => m < 0x400,
                    },
                k <= module@.input_connections.len(),
                input_connections@.len() == k,
                forall|j: int|
                    0 <= j < k ==> #[trigger] input_connections@[j] == saved_input_of(
                        module@.input_connections[j],
                    ) && input_connections@[j].wf(),
            decreases module@.input_connections.len() - k,
        {
            let ic = module.input_connections[k];
            assert(module@.input_connections[k as int] == ic);
            let sic = Self::save_input(&ic);
            input_connections.push(sic);
            k = k + 1;
        }
        let resource_name = crate::bytes::copy_bytes(&module.resource_name);
        let r = SavedModule {
            resource_name,
            controls,
            complex_controls,
            input_connections,
            pos_x: module.pos_x,
            pos_y: module.pos_y,
        };
        proof {
            let target = saved_module_of(module@);
            assert forall|j: int| 0 <= j < r@.controls.len() implies r@.controls[j]
                == target.controls[j] by {
                assert(r@.controls[j] == controls@[j]@);
                assert(target.controls[j] == saved_control_of(module@.controls[j]));
            }
            assert(r@.controls =~= target.controls);
            assert forall|j: int| 0 <= j < r@.complex_controls.len() implies r@.complex_controls[j]
                == target.complex_controls[j] by {
                assert(r@.complex_controls[j] == complex_controls@[j]@);
                assert(target.complex_controls[j] == (SavedComplexControlV {
                    value: module@.complex_controls[j],
                }));
            }
            assert(r@.complex_controls =~= target.complex_controls);
            assert forall|j: int| 0 <= j < r@.input_connections.len() implies r@.input_connections[j]
                == target.input_connections[j] by {
                assert(target.input_connections[j] == saved_input_of(
                    module@.input_connections[j],
                ));
            }
            assert(r@.input_connections =~= target.input_connections);
            assert(r@ =~= target);
        }
        r
    }

    /// The whole graph narrowed to its saved form; the saved module list
    /// keeps the arena's order, which is what gives every wire its handle.
    pub fn save(graph: &ModuleGraph) -> (r: SavedModuleGraph)
        requires
            graph_wf(graph@),
        ensures
            r@ == saved_graph_of(graph@),
            r@.wf(),
    {
        let mut modules: Vec<SavedModule> = Vec::new();
        let mut k: usize = 0;
        while k < graph.modules.len()
            invariant
                graph_wf(graph@),
                k <= graph@.len(),
                modules@.len() == k,
                forall|j: int|
                    0 <= j < k ==> (#[trigger] modules@[j])@ == saved_module_of(graph@[j])
                        && modules@[j]@.wf(),
            decreases graph@.len() - k,
        {
            assert(graph@[k as int] == graph.modules@.map_values(|m: Module| m@)[k as int]);
            assert(graph@[k as int].wf());
            let sm = Self::save_module(&graph.modules[k]);
            modules.push(sm);
            k = k + 1;
        }
        let r = SavedModuleGraph { modules };
        proof {
            let target = saved_graph_of(graph@);
            assert forall|j: int| 0 <= j < r@.modules.len() implies r@.modules[j]
                == target.modules[j] by {
                assert(r@.modules[j] == modules@[j]@);
                assert(target.modules[j] == saved_module_of(graph@[j]));
            }
            assert(r@.modules =~= target.modules);
            assert(r@ =~= target);
        }
        r
    }
}

// --- restore: saved references widened back to live handles ---
pub open spec fn live_lane_of(l: SavedAutomationLane) -> AutomationLane {
    AutomationLane {
        module_index: l.module_index as usize,
        output_index: l.output_index as usize,
        range_min: l.range_min,
        range_max: l.range_max,
    }
}

pub open spec fn live_input_of(ic: SavedInputConnection) -> InputConnection {
    match ic {
        SavedInputConnection::Default(d) => InputConnection::Default(d as usize),
        SavedInputConnection::Output { module_index, output_index } => InputConnection::Wire(
            module_index as usize,
            output_index as usize,
        ),
    }
}

/// The template a saved module names; meaningful only when the lookup hits.
pub open spec fn spec_template(reg: Seq<ModuleV>, name: Seq<u8>) -> ModuleV {
    match spec_lookup(reg, name) {
        Some(i) => reg[i],
        None => reg[0],
    }
}

/// Pass one succeeds: the template exists and its control and
/// complex-control counts still match the saved counts.
pub open spec fn spec_pass1_ok(sm: SavedModuleV, reg: Seq<ModuleV>) -> bool {
    &&& spec_lookup(reg, sm.resource_name) is Some
    &&& spec_template(reg, sm.resource_name).controls.len() == sm.controls.len()
    &&& spec_template(reg, sm.resource_name).complex_controls.len() == sm.complex_controls.len()
}

/// The error pass one reports, checked in the order the checks run.
pub open spec fn spec_pass1_err(sm: SavedModuleV, reg: Seq<ModuleV>) -> RestoreError {
    if spec_lookup(reg, sm.resource_name) is None {
        RestoreError::UnknownModule
    } else if spec_template(reg, sm.resource_name).controls.len() != sm.controls.len() {
        RestoreError::ControlCountMismatch
    } else {
        RestoreError::ComplexControlCountMismatch
    }
}

/// The module pass one produces: the template's clone with the saved
/// control values, complex-control strings and position applied.
pub open spec fn spec_pass1(sm: SavedModuleV, reg: Seq<ModuleV>) -> ModuleV {
    let t = spec_template(reg, sm.resource_name);
    ModuleV {
        resource_name: t.resource_name,
        input_types: t.input_types,
        output_types: t.output_types,
        controls: Seq::new(
            t.controls.len(),
            |i: int| ControlV { value: sm.controls[i].value, ..t.controls[i] },
        ),
        complex_controls: Seq::new(t.complex_controls.len(), |i: int| sm.complex_controls[i].value),
        input_connections: t.input_connections,
        pos_x: sm.pos_x,
        pos_y: sm.pos_y,
    }
}

/// The per-handle output jack types of the instantiated module list.
pub open spec fn jack_table_view(outs: Seq<Vec<JackType>>) -> Seq<Seq<JackType>> {
    outs.map_values(|v: Vec<JackType>| v@)
}

/// A saved automation lane resolves: its source module exists, that module
/// has the named output, and the output is audio-rate.
pub open spec fn spec_lane_ok(l: SavedAutomationLane, outs: Seq<Seq<JackType>>) -> bool {
    &&& (l.module_index as int) < outs.len()
    &&& (l.output_index as int) < outs[l.module_index as int].len()
    &&& outs[l.module_index as int][l.output_index as int] == JackType::Audio
}

/// A saved input resolves: a default always does; a wire's source module
/// exists, has the named output, and matches the destination input's type.
pub open spec fn spec_input_ok(
    ic: SavedInputConnection,
    dest: JackType,
    outs: Seq<Seq<JackType>>,
) -> bool {
    match ic {
        SavedInputConnection::Default(_) => true,
        SavedInputConnection::Output { module_index, output_index } => {
            &&& (module_index as int) < outs.len()
            &&& (output_index as int) < outs[module_index as int].len()
            &&& outs[module_index as int][output_index as int] == dest
        },
    }
}

/// Pass two succeeds for one module: the input count still matches, every
/// wire resolves with the right type, and every lane resolves to audio.
pub open spec fn spec_pass2_ok(sm: SavedModuleV, m1: ModuleV, outs: Seq<Seq<JackType>>) -> bool {
    &&& m1.input_connections.len() == sm.input_connections.len()
    &&& forall|j: int|
        0 <= j < sm.input_connections.len() ==> spec_input_ok(
            #[trigger] sm.input_connections[j],
            m1.input_types[j],
            outs,
        )
    &&& forall|ci: int, li: int|
        0 <= ci < sm.controls.len() && 0 <= li < sm.controls[ci].automation_lanes.len()
            ==> spec_lane_ok(#[trigger] sm.controls[ci].automation_lanes[li], outs)
}

/// The module pass two produces: the saved wiring installed and the saved
/// lanes appended to each control.
pub open spec fn spec_pass2(sm: SavedModuleV, m1: ModuleV) -> ModuleV {
    ModuleV {
        controls: Seq::new(
            m1.controls.len(),
            |i: int| ControlV {
                automation: m1.controls[i].automation + sm.controls[i].automation_lanes.map_values(
                    |l: SavedAutomationLane| live_lane_of(l),
                ),
                ..m1.controls[i]
            },
        ),
        input_connections: sm.input_connections.map_values(
            |ic: SavedInputConnection| live_input_of(ic),
        ),
        ..m1
    }
}

pub open spec fn spec_pass1_all(sg: SavedModuleGraphV, reg: Seq<ModuleV>) -> Seq<ModuleV> {
    sg.modules.map_values(|sm: SavedModuleV| spec_pass1(sm, reg))
}

pub open spec fn spec_outs_of(ms: Seq<ModuleV>) -> Seq<Seq<JackType>> {
    ms.map_values(|m: ModuleV| m.output_types)
}

/// The whole restore succeeds: both passes succeed for every saved module.
pub open spec fn spec_restorable(sg: SavedModuleGraphV, reg: Seq<ModuleV>) -> bool {
    &&& forall|i: int| 0 <= i < sg.modules.len() ==> spec_pass1_ok(#[trigger] sg.modules[i], reg)
    &&& forall|i: int|
        0 <= i < sg.modules.len() ==> spec_pass2_ok(
            #[trigger] sg.modules[i],
            spec_pass1(sg.modules[i], reg),
            spec_outs_of(spec_pass1_all(sg, reg)),
        )
}

/// The module list a successful restore installs.
pub open spec fn spec_restored(sg: SavedModuleGraphV, reg: Seq<ModuleV>) -> Seq<ModuleV> {
    sg.modules.map_values(|sm: SavedModuleV| spec_pass2(sm, spec_pass1(sm, reg)))
}

impl SavedModule {
    /// Pass one for this module: clone the named template and apply the
    /// saved control values, complex-control strings and position.
    pub fn restore(&self, registry: &Registry) -> (r: Result<Module, RestoreError>)
        ensures
            r is Ok <==> spec_pass1_ok(self@, registry@),
            r matches Ok(m) ==> m@ == spec_pass1(self@, registry@),
            r matches Err(e) ==> e == spec_pass1_err(self@, registry@),
    {
        let template = match registry.borrow_module(&self.resource_name) {
            Some(t) => t,
            None => {
                return Err(RestoreError::UnknownModule);
            },
        };
        proof {
            assert(template@ == spec_template(registry@, self@.resource_name));
        }
        if template.controls.len() != self.controls.len() {
            return Err(RestoreError::ControlCountMismatch);
        }
        if template.complex_controls.len() != self.complex_controls.len() {
            return Err(RestoreError::ComplexControlCountMismatch);
        }
        let mut controls: Vec<Control> = Vec::new();
        let mut ci: usize = 0;
        while ci < template.controls.len()
            invariant
                ci <= template@.controls.len(),
                template@.controls.len() == self@.controls.len(),
                controls@.len() == ci,
                forall|j: int|
                    0 <= j < ci ==> (#[trigger] controls@[j])@ == (ControlV {
                        value: self@.controls[j].value,
                        ..template@.controls[j]
                    }),
            decreases template@.controls.len() - ci,
        {
            let tc = &template.controls[ci];
            assert(tc@ == template@.controls[ci as int]);
            let sc = &self.controls[ci];
            assert(sc@ == self@.controls[ci as int]);
            let c = Control {
                range_min: tc.range_min,
                range_max: tc.range_max,
                value: sc.value,
                default: tc.default,
                automation: crate::graph::copy_vec(&tc.automation),
            };
            proof {
                assert(c@ =~= ControlV {
                    value: self@.controls[ci as int].value,
                    ..template@.controls[ci as int]
                });
            }
            controls.push(c);
            ci = ci + 1;
        }
        let mut complex_controls: Vec<ComplexControl> = Vec::new();
        let mut ci: usize = 0;
        while ci < template.complex_controls.len()
            invariant
                ci <= template@.complex_controls.len(),
                template@.complex_controls.len() == self@.complex_controls.len(),
                complex_controls@.len() == ci,
                forall|j: int|
                    0 <= j < ci ==> (#[trigger] complex_controls@[j])@
                        == self@.complex_controls[j].value,
            decreases template@.complex_controls.len() - ci,
        {
            assert(self.complex_controls@[ci as int]@ == self@.complex_controls[ci as int]);
            let value = crate::bytes::copy_bytes(&self.complex_controls[ci].value);
            complex_controls.push(ComplexControl { value });
            ci = ci + 1;
        }
        let m = Module {
            resource_name: crate::bytes::copy_bytes(&template.resource_name),
            input_types: crate::graph::copy_vec(&template.input_types),
            output_types: crate::graph::copy_vec(&template.output_types),
            controls,
            complex_controls,
            input_connections: crate::graph::copy_vec(&template.input_connections),
            pos_x: self.pos_x,
            pos_y: self.pos_y,
        };
        proof {
            let target = spec_pass1(self@, registry@);
            assert forall|j: int| 0 <= j < m@.controls.len() implies m@.controls[j]
                == target.controls[j] by {
                assert(m@.controls[j] == controls@[j]@);
            }
            assert(m@.controls =~= target.controls);
            assert forall|j: int| 0 <= j < m@.complex_controls.len() implies m@.complex_controls[j]
                == target.complex_controls[j] by {
                assert(m@.complex_controls[j] == complex_controls@[j]@);
            }
            assert(m@.complex_controls =~= target.complex_controls);
            assert(m@ =~= target);
        }
        Ok(m)
    }

    /// Pass two for this module: validate and install the saved wiring, and
    /// append the saved automation lanes. On failure the module is left as
    /// pass one built it.
    pub fn restore_connections(&self, on: &mut Module, outs: &Vec<Vec<JackType>>) -> (r: Result<
        (),
        RestoreError,
    >)
        requires
            old(on)@.controls.len() == self@.controls.len(),
            old(on)@.input_types.len() == old(on)@.input_connections.len(),
        ensures
            r is Ok <==> spec_pass2_ok(self@, old(on)@, jack_table_view(outs@)),
            r is Ok ==> final(on)@ == spec_pass2(self@, old(on)@),
            r is Err ==> *final(on) == *old(on),
    {
        let ghost gouts = jack_table_view(outs@);
        if on.input_connections.len() != self.input_connections.len() {
            return Err(RestoreError::InputCountMismatch);
        }
        let mut news: Vec<InputConnection> = Vec::new();
        let mut j: usize = 0;
        while j < self.input_connections.len()
            invariant
                j <= self@.input_connections.len(),
                on@.input_types.len() == self@.input_connections.len(),
                gouts == jack_table_view(outs@),
                news@.len() == j,
                forall|k: int|
                    0 <= k < j ==> spec_input_ok(
                        #[trigger] self@.input_connections[k],
                        on@.input_types[k],
                        gouts,
                    ) && news@[k] == live_input_of(self@.input_connections[k]),
            decreases self@.input_connections.len() - j,
        {
            let ic = self.input_connections[j];
            assert(ic == self@.input_connections[j as int]);
            match ic {
                SavedInputConnection::Default(d) => {
                    news.push(InputConnection::Default(d as usize));
                },
                SavedInputConnection::Output { module_index, output_index } => {
                    let mi = module_index as usize;
                    let oi = output_index as usize;
                    if mi >= outs.len() {
                        assert(!spec_input_ok(ic, on@.input_types[j as int], gouts));
                        return Err(RestoreError::ModuleIndexOutOfBounds);
                    }
                    assert(outs@[mi as int]@ == gouts[mi as int]);
                    if oi >= outs[mi].len() {
                        assert(!spec_input_ok(ic, on@.input_types[j as int], gouts));
                        return Err(RestoreError::OutputIndexOutOfBounds);
                    }
                    if outs[mi][oi] != on.input_types[j] {
                        assert(!spec_input_ok(ic, on@.input_types[j as int], gouts));
                        return Err(RestoreError::WireTypeMismatch);
                    }
                    news.push(InputConnection::Wire(mi, oi));
                },
            }
            j = j + 1;
        }
        let mut ci: usize = 0;
        while ci < self.controls.len()
            invariant
                ci <= self@.controls.len(),
                gouts == jack_table_view(outs@),
                forall|c: int, li: int|
                    0 <= c < ci && 0 <= li < self@.controls[c].automation_lanes.len()
                        ==> spec_lane_ok(#[trigger] self@.controls[c].automation_lanes[li], gouts),
            decreases self@.controls.len() - ci,
        {
            assert(self.controls@[ci as int]@ == self@.controls[ci as int]);
            let lanes = &self.controls[ci].automation_lanes;
            let mut li: usize = 0;
            while li < lanes.len()
                invariant
                    li <= lanes@.len(),
                    lanes@ == self@.controls[ci as int].automation_lanes,
                    ci < self@.controls.len(),
                    gouts == jack_table_view(outs@),
                    forall|k: int|
                        0 <= k < li ==> spec_lane_ok(
                            #[trigger] self@.controls[ci as int].automation_lanes[k],
                            gouts,
                        ),
                decreases lanes@.len() - li,
            {
                let l = lanes[li];
                assert(l == self@.controls[ci as int].automation_lanes[li as int]);
                let mi = l.module_index as usize;
                if mi >= outs.len() {
                    assert(!spec_lane_ok(l, gouts));
                    return Err(RestoreError::ModuleIndexOutOfBounds);
                }
                assert(outs@[mi as int]@ == gouts[mi as int]);
                if (l.output_index as usize) >= outs[mi].len() {
                    assert(!spec_lane_ok(l, gouts));
                    return Err(RestoreError::OutputIndexOutOfBounds);
                }
                if outs[mi][l.output_index as usize] != JackType::Audio {
                    assert(!spec_lane_ok(l, gouts));
                    return Err(RestoreError::AutomationTypeMismatch);
                }
                li = li + 1;
            }
            ci = ci + 1;
        }
        let mut rebuilt: Vec<Control> = Vec::new();
        let mut ci: usize = 0;
        while ci < self.controls.len()
            invariant
                ci <= self@.controls.len(),
                on@.controls.len() == self@.controls.len(),
                on@ == old(on)@,
                rebuilt@.len() == ci,
                forall|j2: int|
                    0 <= j2 < ci ==> (#[trigger] rebuilt@[j2])@ == (ControlV {
                        automation: old(on)@.controls[j2].automation + self@.controls[
                            j2
                        ].automation_lanes.map_values(|l: SavedAutomationLane| live_lane_of(l)),
                        ..old(on)@.controls[j2]
                    }),
            decreases self@.controls.len() - ci,
        {
            let oc = &on.controls[ci];
            assert(oc@ == on@.controls[ci as int]);
            let mut automation = crate::graph::copy_vec(&oc.automation);
            let lanes = &self.controls[ci].automation_lanes;
            assert(lanes@ == self@.controls[ci as int].automation_lanes);
            let mut li: usize = 0;
            while li < lanes.len()
                invariant
                    li <= lanes@.len(),
                    automation@.len() == on@.controls[ci as int].automation.len() + li,
                    ci < on@.controls.len(),
                    automation@ == on@.controls[ci as int].automation + lanes@.take(
                        li as int,
                    ).map_values(|l: SavedAutomationLane| live_lane_of(l)),
                decreases lanes@.len() - li,
            {
                let l = lanes[li];
                automation.push(
                    AutomationLane {
                        module_index: l.module_index as usize,
                        output_index: l.output_index as usize,
                        range_min: l.range_min,
                        range_max: l.range_max,
                    },
                );
                li = li + 1;
                proof {
                    assert(automation@ =~= on@.controls[ci as int].automation + lanes@.take(
                        li as int,
                    ).map_values(|l: SavedAutomationLane| live_lane_of(l)));
                }
            }
            proof {
                assert(lanes@.take(lanes@.len() as int) =~= lanes@);
            }
            let c = Control {
                range_min: oc.range_min,
                range_max: oc.range_max,
                value: oc.value,
                default: oc.default,
                automation,
            };
            rebuilt.push(c);
            ci = ci + 1;
        }
        on.input_connections = news;
        on.controls = rebuilt;
        proof {
            let target = spec_pass2(self@, old(on)@);
            assert forall|j2: int| 0 <= j2 < on@.controls.len() implies on@.controls[j2]
                == target.controls[j2] by {
                assert(on@.controls[j2] == rebuilt@[j2]@);
            }
            assert(on@.controls =~= target.controls);
            assert forall|j2: int| 0 <= j2 < on@.input_connections.len() implies on@.input_connections[j2]
                == target.input_connections[j2] by {
                assert(on@.input_connections[j2] == news@[j2]);
                assert(target.input_connections[j2] == live_input_of(
                    self@.input_connections[j2],
                ));
            }
            assert(on@.input_connections =~= target.input_connections);
            assert(on@ =~= target);
        }
        Ok(())
    }
}

impl SavedModuleGraph {
    /// Two-pass, all-or-nothing restore: instantiate every saved module from
    /// the registry, then resolve every wire and lane against the full list.
    /// Any failure leaves the graph exactly as it was.
    pub fn restore(&self, graph: &mut ModuleGraph, registry: &Registry) -> (r: Result<
        (),
        RestoreError,
    >)
        requires
            registry.wf(),
        ensures
            r is Ok <==> spec_restorable(self@, registry@),
            r is Ok ==> final(graph)@ == spec_restored(self@, registry@),
            r is Err ==> *final(graph) == *old(graph),
    {
        let n = self.modules.len();
        let mut modules: Vec<Module> = Vec::new();
        let mut i: usize = 0;
        while i < n
            invariant
                i <= n,
                n == self@.modules.len(),
                modules@.len() == i,
                forall|j: int|
                    0 <= j < i ==> spec_pass1_ok(#[trigger] self@.modules[j], registry@) && (
                    modules@[j])@ == spec_pass1(self@.modules[j], registry@),
            decreases n - i,
        {
            assert(self.modules@[i as int]@ == self@.modules[i as int]);
            let m = match self.modules[i].restore(registry) {
                Ok(m) => m,
                Err(e) => {
                    assert(!spec_pass1_ok(self@.modules[i as int], registry@));
                    return Err(e);
                },
            };
            modules.push(m);
            i = i + 1;
        }
        let mut outs: Vec<Vec<JackType>> = Vec::new();
        let mut i: usize = 0;
        while i < n
            invariant
                i <= n,
                n == self@.modules.len(),
                modules@.len() == n,
                forall|j: int|
                    0 <= j < n ==> spec_pass1_ok(#[trigger] self@.modules[j], registry@) && (
                    modules@[j])@ == spec_pass1(self@.modules[j], registry@),
                outs@.len() == i,
                forall|j: int| 0 <= j < i ==> (#[trigger] outs@[j])@ == (modules@[j])@.output_types,
            decreases n - i,
        {
            let o = crate::graph::copy_vec(&modules[i].output_types);
            assert(o@ == modules@[i as int]@.output_types);
            outs.push(o);
            i = i + 1;
        }
        proof {
            let target = spec_outs_of(spec_pass1_all(self@, registry@));
            assert forall|j: int| 0 <= j < n implies jack_table_view(outs@)[j] == target[j] by {
                assert(jack_table_view(outs@)[j] == outs@[j]@);
                assert(spec_pass1_all(self@, registry@)[j] == spec_pass1(
                    self@.modules[j],
                    registry@,
                ));
                assert(target[j] == spec_pass1_all(self@, registry@)[j].output_types);
            }
            assert(jack_table_view(outs@) =~= target);
        }
        let ghost gouts = jack_table_view(outs@);
        let mut connected: Vec<Module> = Vec::new();
        let mut i: usize = 0;
        while i < n
            invariant
                i <= n,
                n == self@.modules.len(),
                registry.wf(),
                gouts == jack_table_view(outs@),
                gouts == spec_outs_of(spec_pass1_all(self@, registry@)),
                modules@.len() == n - i,
                forall|j: int|
                    0 <= j < n ==> spec_pass1_ok(#[trigger] self@.modules[j], registry@),
                forall|j: int|
                    0 <= j < n - i ==> (#[trigger] modules@[j])@ == spec_pass1(
                        self@.modules[i + j],
                        registry@,
                    ),
                connected@.len() == i,
                forall|j: int|
                    0 <= j < i ==> spec_pass2_ok(
                        #[trigger] self@.modules[j],
                        spec_pass1(self@.modules[j], registry@),
                        gouts,
                    ) && (connected@[j])@ == spec_pass2(
                        self@.modules[j],
                        spec_pass1(self@.modules[j], registry@),
                    ),
            decreases n - i,
        {
            let mut m = modules.remove(0);
            assert(m@ == spec_pass1(self@.modules[i as int], registry@));
            proof {
                let t = spec_template(registry@, self@.modules[i as int].resource_name);
                let li = spec_lookup(registry@, self@.modules[i as int].resource_name);
                crate::graph::lemma_lookup_valid(
                    registry@,
                    self@.modules[i as int].resource_name,
                );
                assert(registry@[li.unwrap()].wf());
                assert(t == registry@[li.unwrap()]);
                assert(m@.input_types.len() == m@.input_connections.len());
                assert(m@.controls.len() == self@.modules[i as int].controls.len());
            }
            assert(self.modules@[i as int]@ == self@.modules[i as int]);
            match self.modules[i].restore_connections(&mut m, &outs) {
                Ok(_) => {},
                Err(e) => {
                    assert(!spec_pass2_ok(
                        self@.modules[i as int],
                        spec_pass1(self@.modules[i as int], registry@),
                        gouts,
                    ));
                    return Err(e);
                },
            }
            connected.push(m);
            i = i + 1;
        }
        graph.modules = connected;
        proof {
            let target = spec_restored(self@, registry@);
            assert forall|j: int| 0 <= j < graph@.len() implies graph@[j] == target[j] by {
                assert(graph@[j] == connected@[j]@);
                assert(target[j] == spec_pass2(
                    self@.modules[j],
                    spec_pass1(self@.modules[j], registry@),
                ));
            }
            assert(graph@ =~= target);
        }
        Ok(())
    }
}

// --- the save/restore round trip ---
/// Every template is well formed.
pub open spec fn registry_wf(reg: Seq<ModuleV>) -> bool {
    forall|i: int| 0 <= i < reg.len() ==> (#[trigger] reg[i]).wf()
}

/// A control is a configured instance of a template control: same range and
/// default, and the template side carries no lanes of its own.
pub open spec fn control_instance_of(c: ControlV, t: ControlV) -> bool {
    &&& c.range_min == t.range_min
    &&& c.range_max == t.range_max
    &&& c.default == t.default
    &&& t.automation.len() == 0
}

/// A module is an instance of a registered template: the registry still
/// offers its name, with the same jack types and the same parameter shape.
pub open spec fn module_instance_of(m: ModuleV, reg: Seq<ModuleV>) -> bool {
    &&& spec_lookup(reg, m.resource_name) is Some
    &&& spec_template(reg, m.resource_name).input_types == m.input_types
    &&& spec_template(reg, m.resource_name).output_types == m.output_types
    &&& spec_template(reg, m.resource_name).controls.len() == m.controls.len()
    &&& forall|ci: int|
        0 <= ci < m.controls.len() ==> control_instance_of(
            #[trigger] m.controls[ci],
            spec_template(reg, m.resource_name).controls[ci],
        )
    &&& spec_template(reg, m.resource_name).complex_controls.len() == m.complex_controls.len()
}

pub open spec fn graph_instance_of(g: Seq<ModuleV>, reg: Seq<ModuleV>) -> bool {
    forall|i: int| 0 <= i < g.len() ==> module_instance_of(#[trigger] g[i], reg)
}

/// Every wire and lane of the module points at a real, type-compatible
/// output inside the arena; lanes point at audio-rate outputs.
pub open spec fn module_typed(m: ModuleV, g: Seq<ModuleV>) -> bool {
    &&& forall|j: int|
        0 <= j < m.input_connections.len() ==> match #[trigger] m.input_connections[j] {
            InputConnection::Default(_) => true,
            InputConnection::Wire(mi, oi) => {
                &&& mi < g.len()
                &&& oi < g[mi as int].output_types.len()
                &&& g[mi as int].output_types[oi as int] == m.input_types[j]
            },
        }
    &&& forall|ci: int, li: int|
        0 <= ci < m.controls.len() && 0 <= li < m.controls[ci].automation.len() ==> {
            let l = #[trigger] m.controls[ci].automation[li];
            &&& l.module_index < g.len()
            &&& l.output_index < g[l.module_index as int].output_types.len()
            &&& g[l.module_index as int].output_types[l.output_index as int] == JackType::Audio
        }
}

pub open spec fn graph_typed(g: Seq<ModuleV>) -> bool {
    forall|i: int| 0 <= i < g.len() ==> module_typed(#[trigger] g[i], g)
}

/// One module of a well-formed, well-typed graph built from registry
/// templates survives saving and the two restore passes unchanged.
#[verifier::rlimit(60)]
proof fn lemma_module_save_restore(m: ModuleV, reg: Seq<ModuleV>, g: Seq<ModuleV>, outs: Seq<
    Seq<JackType>,
>)
    requires
        registry_wf(reg),
        m.wf(),
        module_instance_of(m, reg),
        module_typed(m, g),
        forall|j: int, ci: int|
            0 <= j < m.controls.len() && 0 <= ci < m.controls[j].automation.len() ==> (
            #[trigger] m.controls[j].automation[ci]).module_index < 0x400,
        forall|j: int|
            0 <= j < m.input_connections.len() ==> match #[trigger] m.input_connections[j] {
                InputConnection::Default(d) => d <= 0xFF,
                InputConnection::Wire(mi, oi) => mi < 0x400 && oi <= 0xFF,
            },
        outs.len() == g.len(),
        forall|k: int| 0 <= k < g.len() ==> outs[k] == (#[trigger] g[k]).output_types,
    ensures
        spec_pass1_ok(saved_module_of(m), reg),
        spec_pass1(saved_module_of(m), reg).output_types == m.output_types,
        spec_pass2_ok(saved_module_of(m), spec_pass1(saved_module_of(m), reg), outs),
        spec_pass2(saved_module_of(m), spec_pass1(saved_module_of(m), reg)) == m,
{
    let sm = saved_module_of(m);
    let t = spec_template(reg, m.resource_name);
    lemma_lookup_valid_here(reg, m.resource_name);
    assert(t.wf());
    let m1 = spec_pass1(sm, reg);
    assert(sm.resource_name == m.resource_name);
    assert(sm.controls.len() == m.controls.len());
    assert(sm.complex_controls.len() == m.complex_controls.len());
    assert(sm.input_connections.len() == m.input_connections.len());
    assert(spec_pass1_ok(sm, reg));
    assert(m1.input_connections.len() == t.input_connections.len());
    assert(t.input_types.len() == t.input_connections.len());
    assert(m.input_types.len() == m.input_connections.len());
    assert(m1.input_connections.len() == sm.input_connections.len());
    assert forall|j: int| 0 <= j < sm.input_connections.len() implies spec_input_ok(
        #[trigger] sm.input_connections[j],
        m1.input_types[j],
        outs,
    ) by {
        assert(sm.input_connections[j] == saved_input_of(m.input_connections[j]));
        match m.input_connections[j] {
            InputConnection::Default(_) => {},
            InputConnection::Wire(mi, oi) => {
                assert(outs[mi as int] == g[mi as int].output_types);
            },
        }
    }
    assert forall|ci: int, li: int|
        0 <= ci < sm.controls.len() && 0 <= li < sm.controls[ci].automation_lanes.len() implies
        spec_lane_ok(#[trigger] sm.controls[ci].automation_lanes[li], outs) by {
        assert(sm.controls[ci] == saved_control_of(m.controls[ci]));
        assert(sm.controls[ci].automation_lanes[li] == saved_lane_of(m.controls[ci].automation[li]));
        let l = m.controls[ci].automation[li];
        assert(outs[l.module_index as int] == g[l.module_index as int].output_types);
    }
    assert(spec_pass2_ok(sm, m1, outs));
    let m2 = spec_pass2(sm, m1);
    assert forall|ci: int| 0 <= ci < m2.controls.len() implies m2.controls[ci]
        == m.controls[ci] by {
        assert(sm.controls[ci] == saved_control_of(m.controls[ci]));
        assert(control_instance_of(m.controls[ci], t.controls[ci]));
        let restored_lanes = m1.controls[ci].automation + sm.controls[
            ci
        ].automation_lanes.map_values(|l: SavedAutomationLane| live_lane_of(l));
        assert(m1.controls[ci].automation.len() == 0);
        assert forall|li: int| 0 <= li < m.controls[ci].automation.len() implies restored_lanes[li]
            == m.controls[ci].automation[li] by {
            assert(sm.controls[ci].automation_lanes[li] == saved_lane_of(
                m.controls[ci].automation[li],
            ));
            assert(m.controls[ci].automation[li].module_index < 0x400);
            assert(m.controls[ci].automation[li].output_index < 0xFF);
        }
        assert(restored_lanes =~= m.controls[ci].automation);
        assert(m2.controls[ci] =~= m.controls[ci]);
    }
    assert(m2.controls =~= m.controls);
    assert forall|j: int| 0 <= j < m2.input_connections.len() implies m2.input_connections[j]
        == m.input_connections[j] by {
        assert(m2.input_connections[j] == live_input_of(sm.input_connections[j]));
        assert(sm.input_connections[j] == saved_input_of(m.input_connections[j]));
    }
    assert(m2.input_connections =~= m.input_connections);
    assert forall|j: int| 0 <= j < m2.complex_controls.len() implies m2.complex_controls[j]
        == m.complex_controls[j] by {
        assert(sm.complex_controls[j] == (SavedComplexControlV { value: m.complex_controls[j] }));
    }
    assert(m2.complex_controls =~= m.complex_controls);
    assert(m2 =~= m);
}

proof fn lemma_lookup_valid_here(reg: Seq<ModuleV>, name: Seq<u8>)
    requires
        spec_lookup(reg, name) is Some,
    ensures
        0 <= spec_lookup(reg, name).unwrap() < reg.len(),
        reg[spec_lookup(reg, name).unwrap()].resource_name == name,
        spec_template(reg, name).resource_name == name,
{
    crate::graph::lemma_lookup_valid(reg, name);
}

/// Saving a well-formed, well-typed graph built from registry templates and
/// restoring the result reproduces the graph exactly: control values,
/// complex-control strings, wiring, lanes and positions included.
pub proof fn lemma_save_restore_roundtrip(g: Seq<ModuleV>, reg: Seq<ModuleV>)
    requires
        graph_wf(g),
        graph_typed(g),
        graph_instance_of(g, reg),
        registry_wf(reg),
    ensures
        spec_restorable(saved_graph_of(g), reg),
        spec_restored(saved_graph_of(g), reg) == g,
{
    let sg = saved_graph_of(g);
    assert(sg.modules.len() == g.len());
    let p1 = spec_pass1_all(sg, reg);
    let outs = spec_outs_of(p1);
    assert(outs.len() == g.len());
    assert forall|k: int| 0 <= k < g.len() implies outs[k] == (#[trigger] g[k]).output_types by {
        assert(sg.modules[k] == saved_module_of(g[k]));
        assert(p1[k] == spec_pass1(sg.modules[k], reg));
        lemma_lookup_valid_here(reg, g[k].resource_name);
        assert(spec_pass1(saved_module_of(g[k]), reg).output_types == spec_template(
            reg,
            g[k].resource_name,
        ).output_types);
    }
    assert forall|i: int| 0 <= i < sg.modules.len() implies spec_pass1_ok(
        #[trigger] sg.modules[i],
        reg,
    ) && spec_pass2_ok(sg.modules[i], spec_pass1(sg.modules[i], reg), outs) && spec_pass2(
        sg.modules[i],
        spec_pass1(sg.modules[i], reg),
    ) == g[i] by {
        assert(sg.modules[i] == saved_module_of(g[i]));
        assert(g[i].wf());
        assert(module_typed(g[i], g));
        lemma_module_save_restore(g[i], reg, g, outs);
    }
    assert(spec_restorable(sg, reg));
    let r = spec_restored(sg, reg);
    assert forall|i: int| 0 <= i < r.len() implies r[i] == g[i] by {
        assert(r[i] == spec_pass2(sg.modules[i], spec_pass1(sg.modules[i], reg)));
    }
    assert(r =~= g);
}

} // verus!
