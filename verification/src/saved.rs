//! The saved form of a module graph: the data that the binary patch format
//! carries, with the well-formedness bounds the format's fixed-width count
//! fields impose.
//!
//! Wire references are stored at wire width (`u16` module handles, `u8`
//! output and default indices); float-valued fields are stored as IEEE 754
//! bit patterns.

use vstd::prelude::*;

verus! {

/// One automation connection as saved: source module handle, source output,
/// and the remap range (min, max) captured when the lane was connected.
#[derive(Clone, Copy, Debug, PartialEq, Eq, Structural)]
pub struct SavedAutomationLane {
    pub module_index: u16,
    pub output_index: u8,
    pub range_min: u32,
    pub range_max: u32,
}

impl SavedAutomationLane {
    /// Bounds the format asks of a lane: the module handle must leave the
    /// all-ones pattern free and the output index must fit strictly below
    /// the byte maximum.
    pub open spec fn wf(self) -> bool {
        self.module_index < 0xFFFF && self.output_index < 0xFF
    }
}

/// One control as saved: its value (float bits) and its automation lanes.
#[derive(Clone, Debug, PartialEq, Eq)]
pub struct SavedControl {
    pub value: u32,
    pub automation_lanes: Vec<SavedAutomationLane>,
}

#[verifier::ext_equal]
pub ghost struct SavedControlV {
    pub value: u32,
    pub automation_lanes: Seq<SavedAutomationLane>,
}

impl View for SavedControl {
    type V = SavedControlV;

    open spec fn view(&self) -> SavedControlV {
        SavedControlV { value: self.value, automation_lanes: self.automation_lanes@ }
    }
}

impl SavedControlV {
    pub open spec fn wf(self) -> bool {
        &&& self.automation_lanes.len() <= 0xFF
        &&& forall|i: int|
            0 <= i < self.automation_lanes.len() ==> #[trigger] self.automation_lanes[i].wf()
    }
}

/// One string-valued control as saved: its UTF-8 bytes.
#[derive(Clone, Debug, PartialEq, Eq)]
pub struct SavedComplexControl {
    pub value: Vec<u8>,
}

#[verifier::ext_equal]
pub ghost struct SavedComplexControlV {
    pub value: Seq<u8>,
}

impl View for SavedComplexControl {
    type V = SavedComplexControlV;

    open spec fn view(&self) -> SavedComplexControlV {
        SavedComplexControlV { value: self.value@ }
    }
}

impl SavedComplexControlV {
    pub open spec fn wf(self) -> bool {
        self.value.len() <= 0xFFFF
    }
}

/// One input wiring choice as saved: a built-in default, or another module's
/// output.
#[derive(Clone, Copy, Debug, PartialEq, Eq, Structural)]
pub enum SavedInputConnection {
    Default(u8),
    Output { module_index: u16, output_index: u8 },
}

impl SavedInputConnection {
    /// A wire's module handle stays below `0x8000` so that its high byte can
    /// never collide with the `0xFF` tag that marks the default variant.
    pub open spec fn wf(self) -> bool {
        match self {
            SavedInputConnection::Default(_) => true,
            SavedInputConnection::Output { module_index, output_index: _ } => module_index
                <= 0x7FFF,
        }
    }
}

/// One module as saved: which template it instantiates (by resource name),
/// its control values, its complex-control strings, its input wiring, and
/// its layout position.
#[derive(Clone, Debug, PartialEq, Eq)]
pub struct SavedModule {
    pub resource_name: Vec<u8>,
    pub controls: Vec<SavedControl>,
    pub complex_controls: Vec<SavedComplexControl>,
    pub input_connections: Vec<SavedInputConnection>,
    pub pos_x: i32,
    pub pos_y: i32,
}

#[verifier::ext_equal]
pub ghost struct SavedModuleV {
    pub resource_name: Seq<u8>,
    pub controls: Seq<SavedControlV>,
    pub complex_controls: Seq<SavedComplexControlV>,
    pub input_connections: Seq<SavedInputConnection>,
    pub pos_x: i32,
    pub pos_y: i32,
}

impl View for SavedModule {
    type V = SavedModuleV;

    open spec fn view(&self) -> SavedModuleV {
        SavedModuleV {
            resource_name: self.resource_name@,
            controls: self.controls@.map_values(|c: SavedControl| c@),
            complex_controls: self.complex_controls@.map_values(|c: SavedComplexControl| c@),
            input_connections: self.input_connections@,
            pos_x: self.pos_x,
            pos_y: self.pos_y,
        }
    }
}

impl SavedModuleV {
    pub open spec fn wf(self) -> bool {
        &&& self.resource_name.len() <= 0xFF
        &&& self.controls.len() <= 0xFF
        &&& self.complex_controls.len() <= 0xFF
        &&& self.input_connections.len() <= 0xFF
        &&& forall|i: int| 0 <= i < self.controls.len() ==> #[trigger] self.controls[i].wf()
        &&& forall|i: int|
            0 <= i < self.complex_controls.len() ==> #[trigger] self.complex_controls[i].wf()
        &&& forall|i: int|
            0 <= i < self.input_connections.len() ==> #[trigger] self.input_connections[i].wf()
    }
}

/// The saved form of a whole module graph: the module list, in the order
/// that assigns each module its wire handle.
#[derive(Clone, Debug, PartialEq, Eq)]
pub struct SavedModuleGraph {
    pub modules: Vec<SavedModule>,
}

#[verifier::ext_equal]
pub ghost struct SavedModuleGraphV {
    pub modules: Seq<SavedModuleV>,
}

impl View for SavedModuleGraph {
    type V = SavedModuleGraphV;

    open spec fn view(&self) -> SavedModuleGraphV {
        SavedModuleGraphV { modules: self.modules@.map_values(|m: SavedModule| m@) }
    }
}

impl SavedModuleGraphV {
    pub open spec fn wf(self) -> bool {
        &&& self.modules.len() <= 0x400
        &&& forall|i: int| 0 <= i < self.modules.len() ==> #[trigger] self.modules[i].wf()
    }
}

} // verus!
