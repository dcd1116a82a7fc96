//! A named snapshot of a module graph, bound to the place it came from: a
//! writable file path or a read-only embedded resource.

use crate::bytes::{deserialize_string, push_bytes, push_u16_be, read_u16_be, DecodeError};
use crate::codec::{lemma_patch_wire_roundtrip, spec_parse_patch, spec_ser_patch};
use crate::graph::{graph_wf, ModuleGraph, ModuleV, Registry};
use crate::persist::{
    graph_instance_of, graph_typed, lemma_save_restore_roundtrip, registry_wf, saved_graph_of,
    spec_restorable, spec_restored, RestoreError,
};
use crate::saved::{SavedModuleGraph, SavedModuleGraphV};
use vstd::prelude::*;

verus! {

/// Where a patch lives: a writable file path, or the name of a read-only
/// embedded resource.
pub enum PatchSource {
    Writable(String),
    Readable(String),
}

/// The name every fresh writable patch starts with.
pub open spec fn default_patch_name() -> Seq<u8> {
    seq![85u8, 110u8, 110u8, 97u8, 109u8, 101u8, 100u8]
}

/// A named, serializable snapshot of a module graph.
pub struct Patch {
    pub source: PatchSource,
    pub name: Vec<u8>,
    pub note_graph: SavedModuleGraph,
}

impl Patch {
    /// What the format asks before this patch can be written out.
    pub open spec fn wf(self) -> bool {
        &&& self.name@.len() < 0xFFFF
        &&& self.note_graph@.wf()
    }

    /// A fresh, unnamed, empty patch that will save to `save_path`.
    pub fn writable(save_path: String) -> (r: Patch)
        ensures
            r.source == PatchSource::Writable(save_path),
            r.name@ == default_patch_name(),
            r.note_graph@.modules.len() == 0,
            r.wf(),
    {
        let mut name: Vec<u8> = Vec::new();
        name.push(85);
        name.push(110);
        name.push(110);
        name.push(97);
        name.push(109);
        name.push(101);
        name.push(100);
        proof {
            assert(name@ =~= default_patch_name());
        }
        Patch {
            source: PatchSource::Writable(save_path),
            name,
            note_graph: SavedModuleGraph::blank(),
        }
    }

    /// Reads a patch image that came from a read-only embedded resource.
    pub fn load_readable(source: String, data: &Vec<u8>) -> (r: Result<Patch, DecodeError>)
        ensures
            r is Ok <==> spec_parse_patch(data@, 0) is Some,
            r matches Ok(p) ==> {
                &&& spec_parse_patch(data@, 0) matches Some(((name, g), _)) && p.name@ == name
                    && p.note_graph@ == g
                &&& p.source == PatchSource::Readable(source)
            },
    {
        Self::deserialize(PatchSource::Readable(source), data)
    }

    /// Reads a patch image that came from a writable file.
    pub fn load_writable(source: String, data: &Vec<u8>) -> (r: Result<Patch, DecodeError>)
        ensures
            r is Ok <==> spec_parse_patch(data@, 0) is Some,
            r matches Ok(p) ==> {
                &&& spec_parse_patch(data@, 0) matches Some(((name, g), _)) && p.name@ == name
                    && p.note_graph@ == g
                &&& p.source == PatchSource::Writable(source)
            },
    {
        Self::deserialize(PatchSource::Writable(source), data)
    }

    fn deserialize(source: PatchSource, data: &Vec<u8>) -> (r: Result<Patch, DecodeError>)
        ensures
            r is Ok <==> spec_parse_patch(data@, 0) is Some,
            r matches Ok(p) ==> {
                &&& spec_parse_patch(data@, 0) matches Some(((name, g), _)) && p.name@ == name
                    && p.note_graph@ == g
                &&& p.source == source
            },
    {
        let mut pos: usize = 0;
        let name_len = match read_u16_be(data, &mut pos) {
            Ok(v) => v,
            Err(e) => {
                return Err(e);
            },
        };
        let name = match deserialize_string(data, &mut pos, name_len as usize) {
            Ok(v) => v,
            Err(e) => {
                return Err(e);
            },
        };
        let note_graph = match SavedModuleGraph::deserialize(data, &mut pos) {
            Ok(v) => v,
            Err(e) => {
                return Err(e);
            },
        };
        Ok(Patch { source, name, note_graph })
    }

    /// Whether this patch can be written back where it came from.
    pub fn is_writable(&self) -> (r: bool)
        ensures
            r <==> self.source is Writable,
    {
        match &self.source {
            PatchSource::Writable(_) => true,
            PatchSource::Readable(_) => false,
        }
    }

    pub fn set_name(&mut self, name: Vec<u8>)
        ensures
            final(self).name == name,
            final(self).source == old(self).source,
            final(self).note_graph == old(self).note_graph,
    {
        self.name = name;
    }

    pub fn borrow_name(&self) -> (r: &Vec<u8>)
        ensures
            r == self.name,
    {
        &self.name
    }

    /// Snapshots the graph into this patch.
    pub fn save_note_graph(&mut self, graph: &ModuleGraph)
        requires
            graph_wf(graph@),
        ensures
            final(self).note_graph@ == saved_graph_of(graph@),
            final(self).note_graph@.wf(),
            final(self).name == old(self).name,
            final(self).source == old(self).source,
    {
        self.note_graph = SavedModuleGraph::save(graph);
    }

    /// Rebuilds the live graph from this patch's snapshot; all-or-nothing.
    pub fn restore_note_graph(&self, graph: &mut ModuleGraph, registry: &Registry) -> (r: Result<
        (),
        RestoreError,
    >)
        requires
            registry.wf(),
        ensures
            r is Ok <==> spec_restorable(self.note_graph@, registry@),
            r is Ok ==> final(graph)@ == spec_restored(self.note_graph@, registry@),
            r is Err ==> *final(graph) == *old(graph),
    {
        self.note_graph.restore(graph, registry)
    }

    /// Appends this patch's byte image: length-prefixed name, then graph.
    pub fn serialize(&self, out: &mut Vec<u8>)
        requires
            self.wf(),
        ensures
            final(out)@ == old(out)@ + spec_ser_patch(self.name@, self.note_graph@),
    {
        push_u16_be(out, self.name.len() as u16);
        push_bytes(out, &self.name);
        self.note_graph.serialize(out);
        assert(out@ =~= old(out)@ + spec_ser_patch(self.name@, self.note_graph@));
    }
}

/// A well-formed graph narrows to a saved form that satisfies every bound
/// the format's count fields impose.
pub proof fn lemma_saved_graph_wf(g: Seq<ModuleV>)
    requires
        graph_wf(g),
    ensures
        saved_graph_of(g).wf(),
{
    let sg = saved_graph_of(g);
    assert forall|i: int| 0 <= i < sg.modules.len() implies (#[trigger] sg.modules[i]).wf() by {
        let m = g[i];
        assert(m.wf());
        let sm = sg.modules[i];
        assert(sm == crate::persist::saved_module_of(m));
        assert forall|j: int| 0 <= j < sm.controls.len() implies (#[trigger] sm.controls[j]).wf() by {
            assert(sm.controls[j] == crate::persist::saved_control_of(m.controls[j]));
            assert(m.controls[j].wf());
            assert(crate::graph::lanes_in_arena(m.controls[j].automation, g.len()));
            assert forall|k: int| 0 <= k < sm.controls[j].automation_lanes.len() implies (
            #[trigger] sm.controls[j].automation_lanes[k]).wf() by {
                assert(sm.controls[j].automation_lanes[k] == crate::persist::saved_lane_of(
                    m.controls[j].automation[k],
                ));
            }
        }
        assert forall|j: int| 0 <= j < sm.complex_controls.len() implies (
        #[trigger] sm.complex_controls[j]).wf() by {
            assert(sm.complex_controls[j].value == m.complex_controls[j]);
        }
        assert forall|j: int| 0 <= j < sm.input_connections.len() implies (
        #[trigger] sm.input_connections[j]).wf() by {
            assert(sm.input_connections[j] == crate::persist::saved_input_of(
                m.input_connections[j],
            ));
        }
    }
}

/// The whole round trip, bytes included: serializing a saved graph under a
/// name and parsing the image back yields the same name and saved graph,
/// whatever bytes follow; and restoring that saved graph against the
/// registry its modules came from succeeds and reproduces the graph — its
/// control values, complex-control strings, wiring and positions — exactly.
pub proof fn lemma_patch_image_roundtrip(
    name: Seq<u8>,
    g: Seq<ModuleV>,
    reg: Seq<ModuleV>,
    rest: Seq<u8>,
)
    requires
        name.len() < 0xFFFF,
        graph_wf(g),
        graph_typed(g),
        graph_instance_of(g, reg),
        registry_wf(reg),
    ensures
        ({
            let image = spec_ser_patch(name, saved_graph_of(g)) + rest;
            &&& spec_parse_patch(image, 0) == Some(
                ((name, saved_graph_of(g)), spec_ser_patch(name, saved_graph_of(g)).len() as int),
            )
            &&& spec_restorable(saved_graph_of(g), reg)
            &&& spec_restored(saved_graph_of(g), reg) == g
        }),
{
    let sg = saved_graph_of(g);
    lemma_saved_graph_wf(g);
    let ser = spec_ser_patch(name, sg);
    let image = ser + rest;
    assert(image.subrange(0, ser.len() as int) =~= ser);
    lemma_patch_wire_roundtrip(name, sg, image, 0);
    lemma_save_restore_roundtrip(g, reg);
}

} // verus!
