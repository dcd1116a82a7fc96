//! The live module graph: an arena of modules addressed by stable integer
//! handles. Wires and automation lanes name their source as a handle plus an
//! output index, which matches the patch format's own index-based
//! addressing.
//!
//! Float-valued control data (values, ranges, defaults) is carried as IEEE
//! 754 bit patterns; the graph never interprets those bits, it only stores,
//! wires and persists them.

use vstd::prelude::*;

verus! {

/// A fresh vector holding the same elements.
pub fn copy_vec<T: Copy>(v: &Vec<T>) -> (r: Vec<T>)
    ensures
        r@ == v@,
{
    let mut r: Vec<T> = Vec::new();
    let mut i: usize = 0;
    while i < v.len()
        invariant
            i <= v@.len(),
            r@ == v@.take(i as int),
        decreases v@.len() - i,
    {
        r.push(v[i]);
        i = i + 1;
        assert(r@ =~= v@.take(i as int));
    }
    assert(v@.take(v@.len() as int) =~= v@);
    r
}

/// The signal kind of a module's input or output jack.
#[derive(Clone, Copy, Debug, PartialEq, Eq, Structural)]
pub enum JackType {
    Time,
    Pitch,
    Waveform,
    Audio,
    Trigger,
}

/// The type of one slot of the numeric payload handed to compiled code.
#[derive(Clone, Copy, Debug, PartialEq, Eq, Structural)]
pub enum IOType {
    Bool,
    Int,
    Float,
    FloatArray,
}

/// A live automation connection: source module handle, source output index,
/// and the remap range captured when the lane was connected.
#[derive(Clone, Copy, Debug, PartialEq, Eq, Structural)]
pub struct AutomationLane {
    pub module_index: usize,
    pub output_index: usize,
    pub range_min: u32,
    pub range_max: u32,
}

/// A typed parameter with a range, a default, and automation lanes.
#[derive(Clone, Debug)]
pub struct Control {
    pub range_min: u32,
    pub range_max: u32,
    pub value: u32,
    pub default: u32,
    pub automation: Vec<AutomationLane>,
}

#[verifier::ext_equal]
pub ghost struct ControlV {
    pub range_min: u32,
    pub range_max: u32,
    pub value: u32,
    pub default: u32,
    pub automation: Seq<AutomationLane>,
}

impl View for Control {
    type V = ControlV;

    open spec fn view(&self) -> ControlV {
        ControlV {
            range_min: self.range_min,
            range_max: self.range_max,
            value: self.value,
            default: self.default,
            automation: self.automation@,
        }
    }
}

/// A string-valued control for discrete settings, kept as UTF-8 bytes.
#[derive(Clone, Debug)]
pub struct ComplexControl {
    pub value: Vec<u8>,
}

impl View for ComplexControl {
    type V = Seq<u8>;

    open spec fn view(&self) -> Seq<u8> {
        self.value@
    }
}

/// One input's wiring: a built-in default value, or another module's output.
#[derive(Clone, Copy, Debug, PartialEq, Eq, Structural)]
pub enum InputConnection {
    Default(usize),
    Wire(usize, usize),
}

/// A module instance: its template identity and jack types, its parameters,
/// its input wiring, and its layout position.
#[derive(Clone, Debug)]
pub struct Module {
    pub resource_name: Vec<u8>,
    pub input_types: Vec<JackType>,
    pub output_types: Vec<JackType>,
    pub controls: Vec<Control>,
    pub complex_controls: Vec<ComplexControl>,
    pub input_connections: Vec<InputConnection>,
    pub pos_x: i32,
    pub pos_y: i32,
}

#[verifier::ext_equal]
pub ghost struct ModuleV {
    pub resource_name: Seq<u8>,
    pub input_types: Seq<JackType>,
    pub output_types: Seq<JackType>,
    pub controls: Seq<ControlV>,
    pub complex_controls: Seq<Seq<u8>>,
    pub input_connections: Seq<InputConnection>,
    pub pos_x: i32,
    pub pos_y: i32,
}

impl View for Module {
    type V = ModuleV;

    open spec fn view(&self) -> ModuleV {
        ModuleV {
            resource_name: self.resource_name@,
            input_types: self.input_types@,
            output_types: self.output_types@,
            controls: self.controls@.map_values(|c: Control| c@),
            complex_controls: self.complex_controls@.map_values(|c: ComplexControl| c@),
            input_connections: self.input_connections@,
            pos_x: self.pos_x,
            pos_y: self.pos_y,
        }
    }
}

/// The arena of live modules; a module's handle is its position here.
pub struct ModuleGraph {
    pub modules: Vec<Module>,
}

impl View for ModuleGraph {
    type V = Seq<ModuleV>;

    open spec fn view(&self) -> Seq<ModuleV> {
        self.modules@.map_values(|m: Module| m@)
    }
}

impl ModuleGraph {
    /// Replaces the whole arena at once; how a restore installs its result.
    pub fn set_modules(&mut self, modules: Vec<Module>)
        ensures
            final(self).modules == modules,
    {
        self.modules = modules;
    }

    pub fn borrow_modules(&self) -> (r: &Vec<Module>)
        ensures
            r == self.modules,
    {
        &self.modules
    }
}

/// Named module templates; restoring a patch clones them.
pub struct Registry {
    pub templates: Vec<Module>,
}

impl View for Registry {
    type V = Seq<ModuleV>;

    open spec fn view(&self) -> Seq<ModuleV> {
        self.templates@.map_values(|m: Module| m@)
    }
}

impl ControlV {
    /// Format bounds on one control's persistable data.
    pub open spec fn wf(self) -> bool {
        &&& self.automation.len() <= 0xFF
        &&& forall|i: int|
            0 <= i < self.automation.len() ==> (#[trigger] self.automation[i]).output_index < 0xFF
    }
}

impl ModuleV {
    /// A jack type for every input slot, and every count within the format's
    /// one-byte fields.
    pub open spec fn wf(self) -> bool {
        &&& self.resource_name.len() <= 0xFF
        &&& self.controls.len() <= 0xFF
        &&& self.complex_controls.len() <= 0xFF
        &&& self.input_connections.len() <= 0xFF
        &&& self.input_types.len() == self.input_connections.len()
        &&& forall|i: int| 0 <= i < self.controls.len() ==> (#[trigger] self.controls[i]).wf()
        &&& forall|i: int|
            0 <= i < self.complex_controls.len() ==> (#[trigger] self.complex_controls[i]).len()
                <= 0xFFFF
        &&& forall|i: int|
            0 <= i < self.input_connections.len() ==> match #[trigger] self.input_connections[i] {
                InputConnection::Default(d) => d <= 0xFF,
                InputConnection::Wire(_, o) => o <= 0xFF,
            }
    }
}

/// A graph the format can persist: every module well formed, and every
/// handle a lane or wire carries inside the arena.
pub open spec fn graph_wf(g: Seq<ModuleV>) -> bool {
    &&& g.len() <= 0x400
    &&& forall|i: int| 0 <= i < g.len() ==> (#[trigger] g[i]).wf()
    &&& forall|i: int, j: int|
        0 <= i < g.len() && 0 <= j < g[i].controls.len() ==> lanes_in_arena(
            (#[trigger] g[i].controls[j]).automation,
            g.len(),
        )
    &&& forall|i: int, j: int|
        0 <= i < g.len() && 0 <= j < g[i].input_connections.len() ==> match (
        #[trigger] g[i].input_connections[j]) {
            InputConnection::Default(_) => true,
            InputConnection::Wire(m, _) => m < g.len(),
        }
}

pub open spec fn lanes_in_arena(lanes: Seq<AutomationLane>, arena_len: nat) -> bool {
    forall|k: int| 0 <= k < lanes.len() ==> (#[trigger] lanes[k]).module_index < arena_len
}

impl Control {
    /// A fresh control holding its configured default.
    pub fn new(range_min: u32, range_max: u32, default: u32) -> (r: Control)
        ensures
            r@ == (ControlV {
                range_min,
                range_max,
                value: default,
                default,
                automation: Seq::empty(),
            }),
    {
        let r = Control { range_min, range_max, value: default, default, automation: Vec::new() };
        proof {
            assert(r@ =~= ControlV {
                range_min,
                range_max,
                value: default,
                default,
                automation: Seq::empty(),
            });
        }
        r
    }

    /// The signal kinds this control accepts as automation sources: only
    /// audio-rate outputs.
    pub fn acceptable_automation(&self) -> (r: Vec<JackType>)
        ensures
            r@ == seq![JackType::Audio],
    {
        let mut v = Vec::new();
        v.push(JackType::Audio);
        proof {
            assert(v@ =~= seq![JackType::Audio]);
        }
        v
    }

    /// Appends a lane that captures the control's current range. The remap
    /// is frozen here: later range edits do not touch existing lanes.
    pub fn connect_automation(&mut self, module_index: usize, output_index: usize)
        ensures
            final(self)@ == (ControlV {
                automation: old(self)@.automation.push(
                    AutomationLane {
                        module_index,
                        output_index,
                        range_min: old(self).range_min,
                        range_max: old(self).range_max,
                    },
                ),
                ..old(self)@
            }),
    {
        let lane = AutomationLane {
            module_index,
            output_index,
            range_min: self.range_min,
            range_max: self.range_max,
        };
        self.automation.push(lane);
    }

    /// Reconfigures the range; existing lanes keep the range they captured.
    pub fn set_range(&mut self, range_min: u32, range_max: u32)
        ensures
            final(self)@ == (ControlV { range_min, range_max, ..old(self)@ }),
    {
        self.range_min = range_min;
        self.range_max = range_max;
    }

    /// The connected automation sources, in lane order.
    pub fn get_connected_automation(&self) -> (r: Vec<(usize, usize)>)
        ensures
            r@.len() == self@.automation.len(),
            forall|k: int|
                0 <= k < r@.len() ==> #[trigger] r@[k] == (
                self@.automation[k].module_index,
                self@.automation[k].output_index,
                ),
    {
        let mut v: Vec<(usize, usize)> = Vec::new();
        let mut k: usize = 0;
        while k < self.automation.len()
            invariant
                k <= self.automation@.len(),
                v@.len() == k,
                forall|j: int|
                    0 <= j < k ==> #[trigger] v@[j] == (
                    self@.automation[j].module_index,
                    self@.automation[j].output_index,
                    ),
            decreases self.automation@.len() - k,
        {
            let lane = self.automation[k];
            v.push((lane.module_index, lane.output_index));
            k = k + 1;
        }
        v
    }

    /// The payload slot types for this control: one float array.
    pub fn get_parameter_types(&self) -> (r: Vec<IOType>)
        ensures
            r@ == seq![IOType::FloatArray],
    {
        let mut v = Vec::new();
        v.push(IOType::FloatArray);
        proof {
            assert(v@ =~= seq![IOType::FloatArray]);
        }
        v
    }

    /// The flat numeric payload, as float bits: the stored value first, then
    /// per lane its two affine coefficients, in lane-connection order. The
    /// coefficients themselves are float work and are handed in, one pair
    /// per lane.
    pub fn get_parameter_values(&self, lane_coefficients: &Vec<(u32, u32)>) -> (r: Vec<u32>)
        requires
            lane_coefficients@.len() == self@.automation.len(),
        ensures
            r@.len() == 1 + 2 * self@.automation.len(),
            r@[0] == self@.value,
            forall|k: int|
                0 <= k < self@.automation.len() ==> r@[1 + 2 * k]
                    == (#[trigger] lane_coefficients@[k]).0 && r@[2 + 2 * k]
                    == lane_coefficients@[k].1,
    {
        let mut v: Vec<u32> = Vec::new();
        v.push(self.value);
        let mut k: usize = 0;
        while k < lane_coefficients.len()
            invariant
                k <= lane_coefficients@.len(),
                v@.len() == 1 + 2 * k,
                v@[0] == self@.value,
                forall|j: int|
                    0 <= j < k ==> v@[1 + 2 * j] == (#[trigger] lane_coefficients@[j]).0 && v@[2 + 2
                        * j] == lane_coefficients@[j].1,
            decreases lane_coefficients@.len() - k,
        {
            let (a, b) = lane_coefficients[k];
            v.push(a);
            v.push(b);
            k = k + 1;
        }
        v
    }
}

impl Registry {
    /// Every template offers a jack type for each of its inputs.
    pub open spec fn wf(self) -> bool {
        forall|i: int| 0 <= i < self@.len() ==> (#[trigger] self@[i]).wf()
    }
}

/// The handle of the first template whose resource name is `name`.
pub open spec fn spec_lookup(reg: Seq<ModuleV>, name: Seq<u8>) -> Option<int>
    decreases reg.len(),
{
    if reg.len() == 0 {
        None
    } else if reg[0].resource_name == name {
        Some(0)
    } else {
        match spec_lookup(reg.drop_first(), name) {
            None => None,
            Some(i) => Some(i + 1),
        }
    }
}

impl Registry {
    /// The template registered under `name`, if any.
    pub fn borrow_module(&self, name: &Vec<u8>) -> (r: Option<&Module>)
        ensures
            r is Some <==> spec_lookup(self@, name@) is Some,
            r matches Some(m) ==> {
                &&& spec_lookup(self@, name@) matches Some(i) && m@ == self@[i]
                &&& m@.resource_name == name@
            },
    {
        let mut k: usize = 0;
        while k < self.templates.len()
            invariant
                k <= self.templates@.len(),
                spec_lookup(self@.take(k as int), name@) is None,
            decreases self.templates@.len() - k,
        {
            if crate::bytes::bytes_eq(&self.templates[k].resource_name, name) {
                proof {
                    lemma_lookup_extend_hit(self@, name@, k as int);
                }
                return Some(&self.templates[k]);
            }
            proof {
                lemma_lookup_extend_miss(self@, name@, k as int);
            }
            k = k + 1;
        }
        proof {
            assert(self@.take(self.templates@.len() as int) =~= self@);
        }
        None
    }
}

/// A successful lookup names a real template, and that template carries the
/// looked-up name.
pub proof fn lemma_lookup_valid(reg: Seq<ModuleV>, name: Seq<u8>)
    requires
        spec_lookup(reg, name) is Some,
    ensures
        0 <= spec_lookup(reg, name).unwrap() < reg.len(),
        reg[spec_lookup(reg, name).unwrap()].resource_name == name,
    decreases reg.len(),
{
    if reg.len() == 0 {
    } else if reg[0].resource_name == name {
    } else {
        lemma_lookup_valid(reg.drop_first(), name);
    }
}

/// If the first `k` templates miss and template `k` matches, the lookup
/// lands on `k`.
proof fn lemma_lookup_extend_hit(reg: Seq<ModuleV>, name: Seq<u8>, k: int)
    requires
        0 <= k < reg.len(),
        spec_lookup(reg.take(k), name) is None,
        reg[k].resource_name == name,
    ensures
        spec_lookup(reg, name) == Some(k),
    decreases k,
{
    if k == 0 {
        assert(reg[0].resource_name == name);
    } else {
        assert(reg.take(k)[0] == reg[0]);
        assert(reg[0].resource_name != name) by {
            assert(spec_lookup(reg.take(k), name) is None);
        }
        assert(reg.take(k).drop_first() =~= reg.drop_first().take(k - 1));
        lemma_lookup_extend_hit(reg.drop_first(), name, k - 1);
    }
}

/// If the first `k` templates miss and template `k` misses too, the first
/// `k + 1` templates miss.
proof fn lemma_lookup_extend_miss(reg: Seq<ModuleV>, name: Seq<u8>, k: int)
    requires
        0 <= k < reg.len(),
        spec_lookup(reg.take(k), name) is None,
        reg[k].resource_name != name,
    ensures
        spec_lookup(reg.take(k + 1), name) is None,
    decreases k,
{
    if k == 0 {
        assert(reg.take(1)[0] == reg[0]);
        assert(reg.take(1).drop_first() =~= Seq::<ModuleV>::empty());
        assert(spec_lookup(Seq::<ModuleV>::empty(), name) is None);
        assert(spec_lookup(reg.take(1), name) is None);
    } else {
        assert(reg.take(k)[0] == reg[0]);
        assert(reg.take(k + 1)[0] == reg[0]);
        assert(reg.take(k).drop_first() =~= reg.drop_first().take(k - 1));
        assert(reg.take(k + 1).drop_first() =~= reg.drop_first().take(k));
        lemma_lookup_extend_miss(reg.drop_first(), name, k - 1);
    }
}

} // verus!
