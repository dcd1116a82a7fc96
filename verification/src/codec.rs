//! The binary patch codec: big-endian, fixed-width, versionless.
//!
//! Every wire record has a spec-level serializer (a byte sequence) and a
//! spec-level parser (a deterministic cursor function); the executable
//! methods are proved to produce and consume exactly those bytes, and the
//! round-trip lemmas show that parsing what the serializer wrote yields the
//! record back, whatever bytes follow it.

use crate::bytes::{
    be16, be32, deserialize_string, i32_to_bits, lemma_be16_of_bytes, lemma_be32_of_bytes,
    push_bytes, push_i32_be, push_u16_be, push_u32_be, push_u8, read_i32_be, read_u16_be,
    read_u32_be, read_u8,
    u16_be_bytes, u32_be_bytes, DecodeError,
};
use crate::saved::{
    SavedAutomationLane, SavedComplexControl, SavedComplexControlV, SavedControl, SavedControlV,
    SavedInputConnection, SavedModule, SavedModuleGraph, SavedModuleGraphV, SavedModuleV,
};
use vstd::prelude::*;

verus! {

// --- automation lanes ---
pub open spec fn spec_ser_lane(l: SavedAutomationLane) -> Seq<u8> {
    u16_be_bytes(l.module_index) + seq![l.output_index] + u32_be_bytes(l.range_min) + u32_be_bytes(
        l.range_max,
    )
}

pub open spec fn spec_ser_lanes(ls: Seq<SavedAutomationLane>) -> Seq<u8>
    decreases ls.len(),
{
    if ls.len() == 0 {
        Seq::empty()
    } else {
        spec_ser_lane(ls[0]) + spec_ser_lanes(ls.drop_first())
    }
}

pub open spec fn spec_parse_lane(s: Seq<u8>, i: int) -> Option<(SavedAutomationLane, int)> {
    if 0 <= i && i + 11 <= s.len() {
        Some(
            (
                SavedAutomationLane {
                    module_index: be16(s[i], s[i + 1]),
                    output_index: s[i + 2],
                    range_min: be32(s[i + 3], s[i + 4], s[i + 5], s[i + 6]),
                    range_max: be32(s[i + 7], s[i + 8], s[i + 9], s[i + 10]),
                },
                i + 11,
            ),
        )
    } else {
        None
    }
}

pub open spec fn spec_parse_lanes(s: Seq<u8>, i: int, n: nat) -> Option<
    (Seq<SavedAutomationLane>, int),
>
    decreases n,
{
    if n == 0 {
        Some((Seq::empty(), i))
    } else {
        match spec_parse_lane(s, i) {
            None => None,
            Some((l, j)) => match spec_parse_lanes(s, j, (n - 1) as nat) {
                None => None,
                Some((ls, k)) => Some((seq![l] + ls, k)),
            },
        }
    }
}

pub proof fn lemma_ser_lanes_take_step(ls: Seq<SavedAutomationLane>, i: int)
    requires
        0 <= i < ls.len(),
    ensures
        spec_ser_lanes(ls.take(i + 1)) == spec_ser_lanes(ls.take(i)) + spec_ser_lane(ls[i]),
    decreases i,
{
    let a = ls.take(i + 1);
    if i == 0 {
        assert(a.drop_first() =~= Seq::<SavedAutomationLane>::empty());
        assert(ls.take(0) =~= Seq::<SavedAutomationLane>::empty());
        assert(spec_ser_lanes(ls.take(i + 1)) =~= spec_ser_lanes(ls.take(i)) + spec_ser_lane(
            ls[0],
        ));
    } else {
        lemma_ser_lanes_take_step(ls.drop_first(), i - 1);
        assert(a.drop_first() =~= ls.drop_first().take(i));
        assert(ls.take(i).drop_first() =~= ls.drop_first().take(i - 1));
        assert(spec_ser_lanes(ls.take(i + 1)) =~= spec_ser_lanes(ls.take(i)) + spec_ser_lane(
            ls[i],
        ));
    }
}

pub proof fn lemma_lane_roundtrip(l: SavedAutomationLane, s: Seq<u8>, i: int)
    requires
        0 <= i,
        i + 11 <= s.len(),
        s.subrange(i, i + 11) == spec_ser_lane(l),
    ensures
        spec_parse_lane(s, i) == Some((l, i + 11)),
{
    let ser = spec_ser_lane(l);
    assert forall|k: int| 0 <= k < 11 implies s[i + k] == ser[k] by {
        assert(s.subrange(i, i + 11)[k] == s[i + k]);
    }
    lemma_be16_of_bytes(l.module_index);
    lemma_be32_of_bytes(l.range_min);
    lemma_be32_of_bytes(l.range_max);
    assert(s[i] == ser[0] && s[i + 1] == ser[1] && s[i + 2] == ser[2]);
    assert(s[i + 3] == ser[3] && s[i + 4] == ser[4] && s[i + 5] == ser[5] && s[i + 6] == ser[6]);
    assert(s[i + 7] == ser[7] && s[i + 8] == ser[8] && s[i + 9] == ser[9] && s[i + 10] == ser[10]);
}

pub proof fn lemma_lanes_roundtrip(ls: Seq<SavedAutomationLane>, s: Seq<u8>, i: int)
    requires
        0 <= i,
        i + spec_ser_lanes(ls).len() <= s.len(),
        s.subrange(i, i + spec_ser_lanes(ls).len()) == spec_ser_lanes(ls),
    ensures
        spec_parse_lanes(s, i, ls.len()) == Some((ls, i + spec_ser_lanes(ls).len())),
    decreases ls.len(),
{
    let ser = spec_ser_lanes(ls);
    if ls.len() == 0 {
        assert(spec_parse_lanes(s, i, 0) == Some((Seq::<SavedAutomationLane>::empty(), i)));
        assert(ls =~= Seq::<SavedAutomationLane>::empty());
    } else {
        let head = spec_ser_lane(ls[0]);
        let tail = spec_ser_lanes(ls.drop_first());
        assert(ser == head + tail);
        assert(head.len() == 11);
        assert(s.subrange(i, i + 11) =~= head) by {
            assert forall|k: int| 0 <= k < 11 implies s.subrange(i, i + 11)[k] == head[k] by {
                assert(s.subrange(i, i + ser.len())[k] == (head + tail)[k]);
            }
        }
        lemma_lane_roundtrip(ls[0], s, i);
        assert(s.subrange(i + 11, i + 11 + tail.len()) =~= tail) by {
            assert forall|k: int| 0 <= k < tail.len() implies s.subrange(
                i + 11,
                i + 11 + tail.len(),
            )[k] == tail[k] by {
                assert(s.subrange(i, i + ser.len())[11 + k] == (head + tail)[11 + k]);
            }
        }
        lemma_lanes_roundtrip(ls.drop_first(), s, i + 11);
        assert(ls =~= seq![ls[0]] + ls.drop_first());
    }
}

impl SavedAutomationLane {
    pub fn serialize(&self, out: &mut Vec<u8>)
        requires
            self.wf(),
        ensures
            final(out)@ == old(out)@ + spec_ser_lane(*self),
    {
        push_u16_be(out, self.module_index);
        push_u8(out, self.output_index);
        push_u32_be(out, self.range_min);
        push_u32_be(out, self.range_max);
        assert(out@ =~= old(out)@ + spec_ser_lane(*self));
    }

    pub fn deserialize(data: &Vec<u8>, pos: &mut usize) -> (r: Result<Self, DecodeError>)
        ensures
            r is Ok <==> spec_parse_lane(data@, *old(pos) as int) is Some,
            r matches Ok(l) ==> spec_parse_lane(data@, *old(pos) as int) == Some(
                (l, *final(pos) as int),
            ),
    {
        let module_index = match read_u16_be(data, pos) {
            Ok(v) => v,
            Err(e) => {
                return Err(e);
            },
        };
        let output_index = match read_u8(data, pos) {
            Ok(v) => v,
            Err(e) => {
                return Err(e);
            },
        };
        let range_min = match read_u32_be(data, pos) {
            Ok(v) => v,
            Err(e) => {
                return Err(e);
            },
        };
        let range_max = match read_u32_be(data, pos) {
            Ok(v) => v,
            Err(e) => {
                return Err(e);
            },
        };
        Ok(SavedAutomationLane { module_index, output_index, range_min, range_max })
    }
}

// --- controls ---
pub open spec fn spec_ser_control(c: SavedControlV) -> Seq<u8> {
    u32_be_bytes(c.value) + seq![c.automation_lanes.len() as u8] + spec_ser_lanes(
        c.automation_lanes,
    )
}

pub open spec fn spec_parse_control(s: Seq<u8>, i: int) -> Option<(SavedControlV, int)> {
    if 0 <= i && i + 5 <= s.len() {
        match spec_parse_lanes(s, i + 5, s[i + 4] as nat) {
            None => None,
            Some((ls, j)) => Some(
                (SavedControlV { value: be32(s[i], s[i + 1], s[i + 2], s[i + 3]), automation_lanes: ls }, j),
            ),
        }
    } else {
        None
    }
}

#[verifier::rlimit(30)]
pub proof fn lemma_control_roundtrip(c: SavedControlV, s: Seq<u8>, i: int)
    requires
        c.wf(),
        0 <= i,
        i + spec_ser_control(c).len() <= s.len(),
        s.subrange(i, i + spec_ser_control(c).len()) == spec_ser_control(c),
    ensures
        spec_parse_control(s, i) == Some((c, i + spec_ser_control(c).len())),
{
    let ser = spec_ser_control(c);
    let head = u32_be_bytes(c.value) + seq![c.automation_lanes.len() as u8];
    let tail = spec_ser_lanes(c.automation_lanes);
    assert(ser == head + tail);
    let w = s.subrange(i, i + ser.len());
    assert(w[0] == s[i] && w[1] == s[i + 1] && w[2] == s[i + 2] && w[3] == s[i + 3] && w[4] == s[i
        + 4]);
    assert(ser[0] == head[0] && ser[1] == head[1] && ser[2] == head[2] && ser[3] == head[3]
        && ser[4] == head[4]);
    lemma_be32_of_bytes(c.value);
    assert(be32(s[i], s[i + 1], s[i + 2], s[i + 3]) == c.value);
    assert(s[i + 4] == c.automation_lanes.len() as u8);
    assert(s[i + 4] as nat == c.automation_lanes.len());
    assert(s.subrange(i + 5, i + 5 + tail.len()) =~= tail) by {
        assert forall|k: int| 0 <= k < tail.len() implies s.subrange(i + 5, i + 5 + tail.len())[k]
            == tail[k] by {
            assert(w[5 + k] == ser[5 + k]);
            assert(s[i + 5 + k] == tail[k]);
        }
    }
    lemma_lanes_roundtrip(c.automation_lanes, s, i + 5);
    let parsed = spec_parse_control(s, i).unwrap().0;
    assert(parsed =~= c);
}

impl SavedControl {
    pub fn serialize(&self, out: &mut Vec<u8>)
        requires
            self@.wf(),
        ensures
            final(out)@ == old(out)@ + spec_ser_control(self@),
    {
        push_u32_be(out, self.value);
        push_u8(out, self.automation_lanes.len() as u8);
        let ghost base = out@;
        let n = self.automation_lanes.len();
        let mut k: usize = 0;
        while k < n
            invariant
                self@.wf(),
                k <= n,
                n == self.automation_lanes@.len(),
                out@ == base + spec_ser_lanes(self.automation_lanes@.take(k as int)),
            decreases n - k,
        {
            let lane = self.automation_lanes[k];
            assert(lane.wf());
            lane.serialize(out);
            proof {
                lemma_ser_lanes_take_step(self.automation_lanes@, k as int);
            }
            k = k + 1;
        }
        proof {
            assert(self.automation_lanes@.take(n as int) =~= self.automation_lanes@);
            assert(out@ =~= old(out)@ + spec_ser_control(self@));
        }
    }

    #[verifier::loop_isolation(false)]
    pub fn deserialize(data: &Vec<u8>, pos: &mut usize) -> (r: Result<Self, DecodeError>)
        ensures
            r is Ok <==> spec_parse_control(data@, *old(pos) as int) is Some,
            r matches Ok(c) ==> spec_parse_control(data@, *old(pos) as int) == Some(
                (c@, *final(pos) as int),
            ),
    {
        let ghost start = *pos as int;
        let value = match read_u32_be(data, pos) {
            Ok(v) => v,
            Err(e) => {
                return Err(e);
            },
        };
        let count = match read_u8(data, pos) {
            Ok(v) => v,
            Err(e) => {
                return Err(e);
            },
        };
        let n = count as usize;
        let mut lanes: Vec<SavedAutomationLane> = Vec::new();
        let mut k: usize = 0;
        while k < n
            invariant
                k <= n,
                ({
                    let whole = spec_parse_lanes(data@, start + 5, n as nat);
                    let rest = spec_parse_lanes(data@, *pos as int, (n - k) as nat);
                    match rest {
                        Some((ls, j)) => whole == Some((lanes@ + ls, j)),
                        None => whole is None,
                    }
                }),
            decreases n - k,
        {
            let ghost p0 = *pos as int;
            let lane = match SavedAutomationLane::deserialize(data, pos) {
                Ok(l) => l,
                Err(e) => {
                    proof {
                        assert(spec_parse_lane(data@, p0) is None);
                        assert(spec_parse_lanes(data@, p0, (n - k) as nat) is None);
                    }
                    return Err(e);
                },
            };
            lanes.push(lane);
            proof {
                let rest = spec_parse_lanes(data@, *pos as int, (n - k - 1) as nat);
                if rest is Some {
                    let (ls, j) = rest.unwrap();
                    assert(lanes@ + ls =~= lanes@.drop_last() + (seq![lane] + ls));
                }
            }
            k = k + 1;
        }
        assert(spec_parse_lanes(data@, *pos as int, 0) == Some(
            (Seq::<SavedAutomationLane>::empty(), *pos as int),
        ));
        assert(lanes@ + Seq::<SavedAutomationLane>::empty() =~= lanes@);
        let c = SavedControl { value, automation_lanes: lanes };
        assert(spec_parse_control(data@, start).unwrap().0 =~= c@);
        Ok(c)
    }
}

// --- complex controls ---
pub open spec fn spec_ser_complex(c: SavedComplexControlV) -> Seq<u8> {
    u16_be_bytes(c.value.len() as u16) + c.value
}

pub open spec fn spec_parse_complex(s: Seq<u8>, i: int) -> Option<(SavedComplexControlV, int)> {
    if 0 <= i && i + 2 <= s.len() {
        let len = be16(s[i], s[i + 1]) as int;
        if i + 2 + len <= s.len() {
            Some((SavedComplexControlV { value: s.subrange(i + 2, i + 2 + len) }, i + 2 + len))
        } else {
            None
        }
    } else {
        None
    }
}

pub proof fn lemma_complex_roundtrip(c: SavedComplexControlV, s: Seq<u8>, i: int)
    requires
        c.wf(),
        0 <= i,
        i + spec_ser_complex(c).len() <= s.len(),
        s.subrange(i, i + spec_ser_complex(c).len()) == spec_ser_complex(c),
    ensures
        spec_parse_complex(s, i) == Some((c, i + spec_ser_complex(c).len())),
{
    let ser = spec_ser_complex(c);
    let head = u16_be_bytes(c.value.len() as u16);
    assert(ser == head + c.value);
    let w = s.subrange(i, i + ser.len());
    assert(w[0] == s[i] && w[1] == s[i + 1]);
    assert(ser[0] == head[0] && ser[1] == head[1]);
    lemma_be16_of_bytes(c.value.len() as u16);
    assert(be16(s[i], s[i + 1]) == c.value.len() as u16);
    assert(be16(s[i], s[i + 1]) as int == c.value.len());
    assert(s.subrange(i + 2, i + 2 + c.value.len()) =~= c.value) by {
        assert forall|k: int| 0 <= k < c.value.len() implies s.subrange(
            i + 2,
            i + 2 + c.value.len(),
        )[k] == c.value[k] by {
            assert(w[2 + k] == ser[2 + k]);
            assert(s[i + 2 + k] == c.value[k]);
        }
    }
    let parsed = spec_parse_complex(s, i).unwrap().0;
    assert(parsed =~= c);
}

impl SavedComplexControl {
    pub fn serialize(&self, out: &mut Vec<u8>)
        requires
            self@.wf(),
        ensures
            final(out)@ == old(out)@ + spec_ser_complex(self@),
    {
        push_u16_be(out, self.value.len() as u16);
        push_bytes(out, &self.value);
        assert(out@ =~= old(out)@ + spec_ser_complex(self@));
    }

    pub fn deserialize(data: &Vec<u8>, pos: &mut usize) -> (r: Result<Self, DecodeError>)
        ensures
            r is Ok <==> spec_parse_complex(data@, *old(pos) as int) is Some,
            r matches Ok(c) ==> spec_parse_complex(data@, *old(pos) as int) == Some(
                (c@, *final(pos) as int),
            ),
    {
        let len = match read_u16_be(data, pos) {
            Ok(v) => v,
            Err(e) => {
                return Err(e);
            },
        };
        let value = match deserialize_string(data, pos, len as usize) {
            Ok(v) => v,
            Err(e) => {
                return Err(e);
            },
        };
        Ok(SavedComplexControl { value })
    }
}

// --- input connections ---
pub open spec fn spec_ser_input(ic: SavedInputConnection) -> Seq<u8> {
    match ic {
        SavedInputConnection::Default(idx) => seq![0xFFu8, 0x00u8, idx],
        SavedInputConnection::Output { module_index, output_index } => u16_be_bytes(module_index)
            + seq![output_index],
    }
}

pub open spec fn spec_parse_input(s: Seq<u8>, i: int) -> Option<(SavedInputConnection, int)> {
    if 0 <= i && i + 3 <= s.len() {
        if s[i] == 0xFF {
            Some((SavedInputConnection::Default(s[i + 2]), i + 3))
        } else {
            Some(
                (
                    SavedInputConnection::Output {
                        module_index: be16(s[i], s[i + 1]),
                        output_index: s[i + 2],
                    },
                    i + 3,
                ),
            )
        }
    } else {
        None
    }
}

pub proof fn lemma_input_roundtrip(ic: SavedInputConnection, s: Seq<u8>, i: int)
    requires
        ic.wf(),
        0 <= i,
        i + 3 <= s.len(),
        s.subrange(i, i + 3) == spec_ser_input(ic),
    ensures
        spec_parse_input(s, i) == Some((ic, i + 3)),
{
    let ser = spec_ser_input(ic);
    let w = s.subrange(i, i + 3);
    assert(w[0] == s[i] && w[1] == s[i + 1] && w[2] == s[i + 2]);
    match ic {
        SavedInputConnection::Default(idx) => {
            assert(s[i] == 0xFF && s[i + 2] == idx);
        },
        SavedInputConnection::Output { module_index, output_index } => {
            lemma_be16_of_bytes(module_index);
            assert(module_index / 0x100 <= 0x7F) by (nonlinear_arith)
                requires
                    module_index <= 0x7FFF,
            ;
            assert(s[i] != 0xFF);
        },
    }
}

impl SavedInputConnection {
    pub fn serialize(&self, out: &mut Vec<u8>)
        requires
            self.wf(),
        ensures
            final(out)@ == old(out)@ + spec_ser_input(*self),
    {
        match self {
            SavedInputConnection::Default(idx) => {
                push_u8(out, 0xFF);
                push_u8(out, 0x00);
                push_u8(out, *idx);
            },
            SavedInputConnection::Output { module_index, output_index } => {
                push_u16_be(out, *module_index);
                push_u8(out, *output_index);
            },
        }
        assert(out@ =~= old(out)@ + spec_ser_input(*self));
    }

    pub fn deserialize(data: &Vec<u8>, pos: &mut usize) -> (r: Result<Self, DecodeError>)
        ensures
            r is Ok <==> spec_parse_input(data@, *old(pos) as int) is Some,
            r matches Ok(ic) ==> spec_parse_input(data@, *old(pos) as int) == Some(
                (ic, *final(pos) as int),
            ),
    {
        let b0 = match read_u8(data, pos) {
            Ok(v) => v,
            Err(e) => {
                return Err(e);
            },
        };
        let b1 = match read_u8(data, pos) {
            Ok(v) => v,
            Err(e) => {
                return Err(e);
            },
        };
        let b2 = match read_u8(data, pos) {
            Ok(v) => v,
            Err(e) => {
                return Err(e);
            },
        };
        if b0 == 0xFF {
            Ok(SavedInputConnection::Default(b2))
        } else {
            Ok(SavedInputConnection::Output {
                module_index: (b0 as u16) * 0x100 + (b1 as u16),
                output_index: b2,
            })
        }
    }
}

// --- record lists ---
pub open spec fn spec_ser_controls(cs: Seq<SavedControlV>) -> Seq<u8>
    decreases cs.len(),
{
    if cs.len() == 0 {
        Seq::empty()
    } else {
        spec_ser_control(cs[0]) + spec_ser_controls(cs.drop_first())
    }
}

pub open spec fn spec_parse_controls(s: Seq<u8>, i: int, n: nat) -> Option<(Seq<SavedControlV>, int)>
    decreases n,
{
    if n == 0 {
        Some((Seq::empty(), i))
    } else {
        match spec_parse_control(s, i) {
            None => None,
            Some((c, j)) => match spec_parse_controls(s, j, (n - 1) as nat) {
                None => None,
                Some((cs, k)) => Some((seq![c] + cs, k)),
            },
        }
    }
}

pub open spec fn spec_ser_complexes(cs: Seq<SavedComplexControlV>) -> Seq<u8>
    decreases cs.len(),
{
    if cs.len() == 0 {
        Seq::empty()
    } else {
        spec_ser_complex(cs[0]) + spec_ser_complexes(cs.drop_first())
    }
}

pub open spec fn spec_parse_complexes(s: Seq<u8>, i: int, n: nat) -> Option<
    (Seq<SavedComplexControlV>, int),
>
    decreases n,
{
    if n == 0 {
        Some((Seq::empty(), i))
    } else {
        match spec_parse_complex(s, i) {
            None => None,
            Some((c, j)) => match spec_parse_complexes(s, j, (n - 1) as nat) {
                None => None,
                Some((cs, k)) => Some((seq![c] + cs, k)),
            },
        }
    }
}

pub open spec fn spec_ser_inputs(ins: Seq<SavedInputConnection>) -> Seq<u8>
    decreases ins.len(),
{
    if ins.len() == 0 {
        Seq::empty()
    } else {
        spec_ser_input(ins[0]) + spec_ser_inputs(ins.drop_first())
    }
}

pub open spec fn spec_parse_inputs(s: Seq<u8>, i: int, n: nat) -> Option<
    (Seq<SavedInputConnection>, int),
>
    decreases n,
{
    if n == 0 {
        Some((Seq::empty(), i))
    } else {
        match spec_parse_input(s, i) {
            None => None,
            Some((ic, j)) => match spec_parse_inputs(s, j, (n - 1) as nat) {
                None => None,
                Some((ins, k)) => Some((seq![ic] + ins, k)),
            },
        }
    }
}

pub proof fn lemma_ser_controls_take_step(cs: Seq<SavedControlV>, i: int)
    requires
        0 <= i < cs.len(),
    ensures
        spec_ser_controls(cs.take(i + 1)) == spec_ser_controls(cs.take(i)) + spec_ser_control(
            cs[i],
        ),
    decreases i,
{
    let a = cs.take(i + 1);
    if i == 0 {
        assert(a.drop_first() =~= Seq::<SavedControlV>::empty());
        assert(cs.take(0) =~= Seq::<SavedControlV>::empty());
        assert(spec_ser_controls(cs.take(i + 1)) =~= spec_ser_controls(cs.take(i))
            + spec_ser_control(cs[0]));
    } else {
        lemma_ser_controls_take_step(cs.drop_first(), i - 1);
        assert(a.drop_first() =~= cs.drop_first().take(i));
        assert(cs.take(i).drop_first() =~= cs.drop_first().take(i - 1));
        assert(spec_ser_controls(cs.take(i + 1)) =~= spec_ser_controls(cs.take(i))
            + spec_ser_control(cs[i]));
    }
}

pub proof fn lemma_ser_complexes_take_step(cs: Seq<SavedComplexControlV>, i: int)
    requires
        0 <= i < cs.len(),
    ensures
        spec_ser_complexes(cs.take(i + 1)) == spec_ser_complexes(cs.take(i)) + spec_ser_complex(
            cs[i],
        ),
    decreases i,
{
    let a = cs.take(i + 1);
    if i == 0 {
        assert(a.drop_first() =~= Seq::<SavedComplexControlV>::empty());
        assert(cs.take(0) =~= Seq::<SavedComplexControlV>::empty());
        assert(spec_ser_complexes(cs.take(i + 1)) =~= spec_ser_complexes(cs.take(i))
            + spec_ser_complex(cs[0]));
    } else {
        lemma_ser_complexes_take_step(cs.drop_first(), i - 1);
        assert(a.drop_first() =~= cs.drop_first().take(i));
        assert(cs.take(i).drop_first() =~= cs.drop_first().take(i - 1));
        assert(spec_ser_complexes(cs.take(i + 1)) =~= spec_ser_complexes(cs.take(i))
            + spec_ser_complex(cs[i]));
    }
}

pub proof fn lemma_ser_inputs_take_step(ins: Seq<SavedInputConnection>, i: int)
    requires
        0 <= i < ins.len(),
    ensures
        spec_ser_inputs(ins.take(i + 1)) == spec_ser_inputs(ins.take(i)) + spec_ser_input(ins[i]),
    decreases i,
{
    let a = ins.take(i + 1);
    if i == 0 {
        assert(a.drop_first() =~= Seq::<SavedInputConnection>::empty());
        assert(ins.take(0) =~= Seq::<SavedInputConnection>::empty());
        assert(spec_ser_inputs(ins.take(i + 1)) =~= spec_ser_inputs(ins.take(i)) + spec_ser_input(
            ins[0],
        ));
    } else {
        lemma_ser_inputs_take_step(ins.drop_first(), i - 1);
        assert(a.drop_first() =~= ins.drop_first().take(i));
        assert(ins.take(i).drop_first() =~= ins.drop_first().take(i - 1));
        assert(spec_ser_inputs(ins.take(i + 1)) =~= spec_ser_inputs(ins.take(i)) + spec_ser_input(
            ins[i],
        ));
    }
}

pub proof fn lemma_controls_roundtrip(cs: Seq<SavedControlV>, s: Seq<u8>, i: int)
    requires
        0 <= i,
        forall|k: int| 0 <= k < cs.len() ==> #[trigger] cs[k].wf(),
        i + spec_ser_controls(cs).len() <= s.len(),
        s.subrange(i, i + spec_ser_controls(cs).len()) == spec_ser_controls(cs),
    ensures
        spec_parse_controls(s, i, cs.len()) == Some((cs, i + spec_ser_controls(cs).len())),
    decreases cs.len(),
{
    let ser = spec_ser_controls(cs);
    if cs.len() == 0 {
        assert(cs =~= Seq::<SavedControlV>::empty());
    } else {
        let head = spec_ser_control(cs[0]);
        let tail = spec_ser_controls(cs.drop_first());
        let hl = head.len();
        assert(ser == head + tail);
        assert(s.subrange(i, i + hl) =~= head) by {
            assert forall|k: int| 0 <= k < hl implies s.subrange(i, i + hl)[k] == head[k] by {
                assert(s.subrange(i, i + ser.len())[k] == ser[k]);
            }
        }
        lemma_control_roundtrip(cs[0], s, i);
        assert(s.subrange(i + hl, i + hl + tail.len()) =~= tail) by {
            assert forall|k: int| 0 <= k < tail.len() implies s.subrange(
                i + hl,
                i + hl + tail.len(),
            )[k] == tail[k] by {
                assert(s.subrange(i, i + ser.len())[hl + k] == ser[hl + k]);
            }
        }
        lemma_controls_roundtrip(cs.drop_first(), s, i + hl);
        assert(cs =~= seq![cs[0]] + cs.drop_first());
    }
}

pub proof fn lemma_complexes_roundtrip(cs: Seq<SavedComplexControlV>, s: Seq<u8>, i: int)
    requires
        0 <= i,
        forall|k: int| 0 <= k < cs.len() ==> #[trigger] cs[k].wf(),
        i + spec_ser_complexes(cs).len() <= s.len(),
        s.subrange(i, i + spec_ser_complexes(cs).len()) == spec_ser_complexes(cs),
    ensures
        spec_parse_complexes(s, i, cs.len()) == Some((cs, i + spec_ser_complexes(cs).len())),
    decreases cs.len(),
{
    let ser = spec_ser_complexes(cs);
    if cs.len() == 0 {
        assert(cs =~= Seq::<SavedComplexControlV>::empty());
    } else {
        let head = spec_ser_complex(cs[0]);
        let tail = spec_ser_complexes(cs.drop_first());
        let hl = head.len();
        assert(ser == head + tail);
        assert(s.subrange(i, i + hl) =~= head) by {
            assert forall|k: int| 0 <= k < hl implies s.subrange(i, i + hl)[k] == head[k] by {
                assert(s.subrange(i, i + ser.len())[k] == ser[k]);
            }
        }
        lemma_complex_roundtrip(cs[0], s, i);
        assert(s.subrange(i + hl, i + hl + tail.len()) =~= tail) by {
            assert forall|k: int| 0 <= k < tail.len() implies s.subrange(
                i + hl,
                i + hl + tail.len(),
            )[k] == tail[k] by {
                assert(s.subrange(i, i + ser.len())[hl + k] == ser[hl + k]);
            }
        }
        lemma_complexes_roundtrip(cs.drop_first(), s, i + hl);
        assert(cs =~= seq![cs[0]] + cs.drop_first());
    }
}

pub proof fn lemma_inputs_roundtrip(ins: Seq<SavedInputConnection>, s: Seq<u8>, i: int)
    requires
        0 <= i,
        forall|k: int| 0 <= k < ins.len() ==> #[trigger] ins[k].wf(),
        i + spec_ser_inputs(ins).len() <= s.len(),
        s.subrange(i, i + spec_ser_inputs(ins).len()) == spec_ser_inputs(ins),
    ensures
        spec_parse_inputs(s, i, ins.len()) == Some((ins, i + spec_ser_inputs(ins).len())),
    decreases ins.len(),
{
    let ser = spec_ser_inputs(ins);
    if ins.len() == 0 {
        assert(ins =~= Seq::<SavedInputConnection>::empty());
    } else {
        let head = spec_ser_input(ins[0]);
        let tail = spec_ser_inputs(ins.drop_first());
        assert(ser == head + tail);
        assert(head.len() == 3);
        assert(s.subrange(i, i + 3) =~= head) by {
            assert forall|k: int| 0 <= k < 3 implies s.subrange(i, i + 3)[k] == head[k] by {
                assert(s.subrange(i, i + ser.len())[k] == ser[k]);
            }
        }
        lemma_input_roundtrip(ins[0], s, i);
        assert(s.subrange(i + 3, i + 3 + tail.len()) =~= tail) by {
            assert forall|k: int| 0 <= k < tail.len() implies s.subrange(
                i + 3,
                i + 3 + tail.len(),
            )[k] == tail[k] by {
                assert(s.subrange(i, i + ser.len())[3 + k] == ser[3 + k]);
            }
        }
        lemma_inputs_roundtrip(ins.drop_first(), s, i + 3);
        assert(ins =~= seq![ins[0]] + ins.drop_first());
    }
}

// --- modules ---
/// The 12-byte fixed header of a saved module: position, then the four
/// one-byte counts.
pub open spec fn spec_ser_module_header(m: SavedModuleV) -> Seq<u8> {
    u32_be_bytes(i32_to_bits(m.pos_x)) + u32_be_bytes(i32_to_bits(m.pos_y)) + seq![
        m.resource_name.len() as u8,
        m.controls.len() as u8,
        m.complex_controls.len() as u8,
        m.input_connections.len() as u8,
    ]
}

pub open spec fn spec_ser_module(m: SavedModuleV) -> Seq<u8> {
    spec_ser_module_header(m) + m.resource_name + spec_ser_controls(m.controls)
        + spec_ser_complexes(m.complex_controls) + spec_ser_inputs(m.input_connections)
}

pub open spec fn spec_parse_module(s: Seq<u8>, i: int) -> Option<(SavedModuleV, int)> {
    if 0 <= i && i + 12 <= s.len() {
        let name_len = s[i + 8] as int;
        if i + 12 + name_len <= s.len() {
            let name = s.subrange(i + 12, i + 12 + name_len);
            match spec_parse_controls(s, i + 12 + name_len, s[i + 9] as nat) {
                None => None,
                Some((cs, j)) => match spec_parse_complexes(s, j, s[i + 10] as nat) {
                    None => None,
                    Some((xs, k)) => match spec_parse_inputs(s, k, s[i + 11] as nat) {
                        None => None,
                        Some((ins, e)) => Some(
                            (
                                SavedModuleV {
                                    resource_name: name,
                                    controls: cs,
                                    complex_controls: xs,
                                    input_connections: ins,
                                    pos_x: crate::bytes::bits_to_i32(
                                        be32(s[i], s[i + 1], s[i + 2], s[i + 3]),
                                    ),
                                    pos_y: crate::bytes::bits_to_i32(
                                        be32(s[i + 4], s[i + 5], s[i + 6], s[i + 7]),
                                    ),
                                },
                                e,
                            ),
                        ),
                    },
                },
            }
        } else {
            None
        }
    } else {
        None
    }
}

/// Transfers a window of an already-located serialization to its own
/// subrange of the surrounding byte sequence.
pub proof fn lemma_region_transfer(s: Seq<u8>, i: int, ser: Seq<u8>, off: int, part: Seq<u8>)
    requires
        0 <= i,
        i + ser.len() <= s.len(),
        s.subrange(i, i + ser.len()) == ser,
        0 <= off,
        off + part.len() <= ser.len(),
        forall|k: int| 0 <= k < part.len() ==> ser[off + k] == #[trigger] part[k],
    ensures
        s.subrange(i + off, i + off + part.len()) == part,
{
    assert(s.subrange(i + off, i + off + part.len()) =~= part) by {
        assert forall|k: int| 0 <= k < part.len() implies s.subrange(
            i + off,
            i + off + part.len(),
        )[k] == part[k] by {
            assert(s.subrange(i, i + ser.len())[off + k] == ser[off + k]);
        }
    }
}

#[verifier::rlimit(60)]
proof fn lemma_module_regions(m: SavedModuleV, s: Seq<u8>, i: int)
    requires
        m.wf(),
        0 <= i,
        i + spec_ser_module(m).len() <= s.len(),
        s.subrange(i, i + spec_ser_module(m).len()) == spec_ser_module(m),
    ensures
        ({
            let name = m.resource_name;
            let pc = spec_ser_controls(m.controls);
            let px = spec_ser_complexes(m.complex_controls);
            let pi = spec_ser_inputs(m.input_connections);
            let o1 = 12 + name.len() as int;
            let o2 = o1 + pc.len() as int;
            let o3 = o2 + px.len() as int;
            &&& s[i + 8] == name.len() as u8
            &&& s[i + 9] == m.controls.len() as u8
            &&& s[i + 10] == m.complex_controls.len() as u8
            &&& s[i + 11] == m.input_connections.len() as u8
            &&& be32(s[i], s[i + 1], s[i + 2], s[i + 3]) == i32_to_bits(m.pos_x)
            &&& be32(s[i + 4], s[i + 5], s[i + 6], s[i + 7]) == i32_to_bits(m.pos_y)
            &&& s.subrange(i + 12, i + o1) == name
            &&& s.subrange(i + o1, i + o2) == pc
            &&& s.subrange(i + o2, i + o3) == px
            &&& s.subrange(i + o3, i + o3 + pi.len()) == pi
        }),
{
    let ser = spec_ser_module(m);
    let header = spec_ser_module_header(m);
    let name = m.resource_name;
    let pc = spec_ser_controls(m.controls);
    let px = spec_ser_complexes(m.complex_controls);
    let pi = spec_ser_inputs(m.input_connections);
    let o1 = 12 + name.len() as int;
    let o2 = o1 + pc.len() as int;
    let o3 = o2 + px.len() as int;
    assert(header.len() == 12);
    assert(ser == header + name + pc + px + pi);
    let counts = seq![
        m.resource_name.len() as u8,
        m.controls.len() as u8,
        m.complex_controls.len() as u8,
        m.input_connections.len() as u8,
    ];
    assert(header == u32_be_bytes(i32_to_bits(m.pos_x)) + u32_be_bytes(i32_to_bits(m.pos_y))
        + counts);
    assert(header[8] == counts[0] && header[9] == counts[1] && header[10] == counts[2]
        && header[11] == counts[3]);
    let a = u32_be_bytes(i32_to_bits(m.pos_x));
    let b = u32_be_bytes(i32_to_bits(m.pos_y));
    assert(header[0] == a[0] && header[1] == a[1] && header[2] == a[2] && header[3] == a[3]);
    assert(header[4] == b[0] && header[5] == b[1] && header[6] == b[2] && header[7] == b[3]);
    assert forall|k: int| 0 <= k < 12 implies s[i + k] == header[k] by {
        assert(s.subrange(i, i + ser.len())[k] == ser[k]);
        assert(ser[k] == header[k]);
    }
    lemma_be32_of_bytes(i32_to_bits(m.pos_x));
    lemma_be32_of_bytes(i32_to_bits(m.pos_y));
    assert(be32(s[i], s[i + 1], s[i + 2], s[i + 3]) == be32(a[0], a[1], a[2], a[3]));
    assert(be32(s[i + 4], s[i + 5], s[i + 6], s[i + 7]) == be32(b[0], b[1], b[2], b[3]));
    assert forall|k: int| 0 <= k < name.len() implies ser[12 + k] == #[trigger] name[k] by {}
    lemma_region_transfer(s, i, ser, 12, name);
    assert forall|k: int| 0 <= k < pc.len() implies ser[o1 + k] == #[trigger] pc[k] by {}
    lemma_region_transfer(s, i, ser, o1, pc);
    assert forall|k: int| 0 <= k < px.len() implies ser[o2 + k] == #[trigger] px[k] by {}
    lemma_region_transfer(s, i, ser, o2, px);
    assert forall|k: int| 0 <= k < pi.len() implies ser[o3 + k] == #[trigger] pi[k] by {}
    lemma_region_transfer(s, i, ser, o3, pi);
}

#[verifier::rlimit(60)]
pub proof fn lemma_module_roundtrip(m: SavedModuleV, s: Seq<u8>, i: int)
    requires
        m.wf(),
        0 <= i,
        i + spec_ser_module(m).len() <= s.len(),
        s.subrange(i, i + spec_ser_module(m).len()) == spec_ser_module(m),
    ensures
        spec_parse_module(s, i) == Some((m, i + spec_ser_module(m).len())),
{
    let ser = spec_ser_module(m);
    let name = m.resource_name;
    let pc = spec_ser_controls(m.controls);
    let px = spec_ser_complexes(m.complex_controls);
    let pi = spec_ser_inputs(m.input_connections);
    let o1 = 12 + name.len() as int;
    let o2 = o1 + pc.len() as int;
    let o3 = o2 + px.len() as int;
    lemma_module_regions(m, s, i);
    crate::bytes::lemma_i32_bits_roundtrip(m.pos_x);
    crate::bytes::lemma_i32_bits_roundtrip(m.pos_y);
    lemma_controls_roundtrip(m.controls, s, i + o1);
    lemma_complexes_roundtrip(m.complex_controls, s, i + o2);
    lemma_inputs_roundtrip(m.input_connections, s, i + o3);
    assert(ser.len() == 12 + name.len() + pc.len() + px.len() + pi.len());
    let parsed = spec_parse_module(s, i).unwrap().0;
    assert(parsed =~= m);
}

impl SavedModule {
    #[verifier::loop_isolation(false)]
    pub fn serialize(&self, out: &mut Vec<u8>)
        requires
            self@.wf(),
        ensures
            final(out)@ == old(out)@ + spec_ser_module(self@),
    {
        push_i32_be(out, self.pos_x);
        push_i32_be(out, self.pos_y);
        push_u8(out, self.resource_name.len() as u8);
        push_u8(out, self.controls.len() as u8);
        push_u8(out, self.complex_controls.len() as u8);
        push_u8(out, self.input_connections.len() as u8);
        push_bytes(out, &self.resource_name);
        let ghost base = out@;
        let mut k: usize = 0;
        while k < self.controls.len()
            invariant
                out@ == base + spec_ser_controls(self@.controls.take(k as int)),
                k <= self.controls@.len(),
            decreases self.controls@.len() - k,
        {
            assert(self@.controls[k as int].wf());
            self.controls[k].serialize(out);
            proof {
                lemma_ser_controls_take_step(self@.controls, k as int);
                assert(self@.controls[k as int] == self.controls@.map_values(
                    |c: SavedControl| c@,
                )[k as int]);
            }
            k = k + 1;
        }
        proof {
            assert(self@.controls.take(self.controls@.len() as int) =~= self@.controls);
        }
        let ghost base2 = out@;
        let mut k: usize = 0;
        while k < self.complex_controls.len()
            invariant
                out@ == base2 + spec_ser_complexes(self@.complex_controls.take(k as int)),
                k <= self.complex_controls@.len(),
            decreases self.complex_controls@.len() - k,
        {
            assert(self@.complex_controls[k as int].wf());
            self.complex_controls[k].serialize(out);
            proof {
                lemma_ser_complexes_take_step(self@.complex_controls, k as int);
            }
            k = k + 1;
        }
        proof {
            assert(self@.complex_controls.take(self.complex_controls@.len() as int)
                =~= self@.complex_controls);
        }
        let ghost base3 = out@;
        let mut k: usize = 0;
        while k < self.input_connections.len()
            invariant
                out@ == base3 + spec_ser_inputs(self@.input_connections.take(k as int)),
                k <= self.input_connections@.len(),
            decreases self.input_connections@.len() - k,
        {
            assert(self@.input_connections[k as int].wf());
            let ic = self.input_connections[k];
            ic.serialize(out);
            proof {
                lemma_ser_inputs_take_step(self@.input_connections, k as int);
            }
            k = k + 1;
        }
        proof {
            assert(self@.input_connections.take(self.input_connections@.len() as int)
                =~= self@.input_connections);
            assert(out@ =~= old(out)@ + spec_ser_module(self@));
        }
    }

    #[verifier::loop_isolation(false)]
    pub fn deserialize(data: &Vec<u8>, pos: &mut usize) -> (r: Result<Self, DecodeError>)
        ensures
            r is Ok <==> spec_parse_module(data@, *old(pos) as int) is Some,
            r matches Ok(m) ==> spec_parse_module(data@, *old(pos) as int) == Some(
                (m@, *final(pos) as int),
            ),
    {
        let ghost start = *pos as int;
        let pos_x = match read_i32_be(data, pos) {
            Ok(v) => v,
            Err(e) => {
                return Err(e);
            },
        };
        let pos_y = match read_i32_be(data, pos) {
            Ok(v) => v,
            Err(e) => {
                return Err(e);
            },
        };
        let name_len = match read_u8(data, pos) {
            Ok(v) => v,
            Err(e) => {
                return Err(e);
            },
        };
        let n_controls = match read_u8(data, pos) {
            Ok(v) => v,
            Err(e) => {
                return Err(e);
            },
        };
        let n_complex = match read_u8(data, pos) {
            Ok(v) => v,
            Err(e) => {
                return Err(e);
            },
        };
        let n_inputs = match read_u8(data, pos) {
            Ok(v) => v,
            Err(e) => {
                return Err(e);
            },
        };
        proof {
            crate::bytes::lemma_i32_bits_roundtrip(pos_x);
            crate::bytes::lemma_i32_bits_roundtrip(pos_y);
        }
        let resource_name = match deserialize_string(data, pos, name_len as usize) {
            Ok(v) => v,
            Err(e) => {
                return Err(e);
            },
        };
        let nc = n_controls as usize;
        let mut controls: Vec<SavedControl> = Vec::new();
        let mut k: usize = 0;
        let ghost cstart = *pos as int;
        while k < nc
            invariant
                k <= nc,
                ({
                    let whole = spec_parse_controls(data@, cstart, nc as nat);
                    let rest = spec_parse_controls(data@, *pos as int, (nc - k) as nat);
                    match rest {
                        Some((cs, j)) => whole == Some(
                            (controls@.map_values(|c: SavedControl| c@) + cs, j),
                        ),
                        None => whole is None,
                    }
                }),
            decreases nc - k,
        {
            let ghost p0 = *pos as int;
            let c = match SavedControl::deserialize(data, pos) {
                Ok(c) => c,
                Err(e) => {
                    assert(spec_parse_controls(data@, p0, (nc - k) as nat) is None);
                    return Err(e);
                },
            };
            controls.push(c);
            proof {
                let rest = spec_parse_controls(data@, *pos as int, (nc - k - 1) as nat);
                if rest is Some {
                    let (cs, j) = rest.unwrap();
                    assert(controls@.map_values(|c: SavedControl| c@) =~= controls@.drop_last()
                        .map_values(|c: SavedControl| c@).push(c@));
                    assert(controls@.map_values(|c: SavedControl| c@) + cs =~= controls@.drop_last(
                    ).map_values(|c: SavedControl| c@) + (seq![c@] + cs));
                }
            }
            k = k + 1;
        }
        assert(controls@.map_values(|c: SavedControl| c@) + Seq::<SavedControlV>::empty()
            =~= controls@.map_values(|c: SavedControl| c@));
        let nx = n_complex as usize;
        let mut complex_controls: Vec<SavedComplexControl> = Vec::new();
        let mut k: usize = 0;
        let ghost xstart = *pos as int;
        while k < nx
            invariant
                k <= nx,
                ({
                    let whole = spec_parse_complexes(data@, xstart, nx as nat);
                    let rest = spec_parse_complexes(data@, *pos as int, (nx - k) as nat);
                    match rest {
                        Some((cs, j)) => whole == Some(
                            (complex_controls@.map_values(|c: SavedComplexControl| c@) + cs, j),
                        ),
                        None => whole is None,
                    }
                }),
            decreases nx - k,
        {
            let ghost p0 = *pos as int;
            let c = match SavedComplexControl::deserialize(data, pos) {
                Ok(c) => c,
                Err(e) => {
                    assert(spec_parse_complexes(data@, p0, (nx - k) as nat) is None);
                    return Err(e);
                },
            };
            complex_controls.push(c);
            proof {
                let rest = spec_parse_complexes(data@, *pos as int, (nx - k - 1) as nat);
                if rest is Some {
                    let (cs, j) = rest.unwrap();
                    assert(complex_controls@.map_values(|c: SavedComplexControl| c@)
                        =~= complex_controls@.drop_last().map_values(
                        |c: SavedComplexControl| c@,
                    ).push(c@));
                    assert(complex_controls@.map_values(|c: SavedComplexControl| c@) + cs
                        =~= complex_controls@.drop_last().map_values(|c: SavedComplexControl| c@) + (
                    seq![c@] + cs));
                }
            }
            k = k + 1;
        }
        assert(complex_controls@.map_values(|c: SavedComplexControl| c@) + Seq::<
            SavedComplexControlV,
        >::empty() =~= complex_controls@.map_values(|c: SavedComplexControl| c@));
        let ni = n_inputs as usize;
        let mut input_connections: Vec<SavedInputConnection> = Vec::new();
        let mut k: usize = 0;
        let ghost istart = *pos as int;
        while k < ni
            invariant
                k <= ni,
                ({
                    let whole = spec_parse_inputs(data@, istart, ni as nat);
                    let rest = spec_parse_inputs(data@, *pos as int, (ni - k) as nat);
                    match rest {
                        Some((ins, j)) => whole == Some((input_connections@ + ins, j)),
                        None => whole is None,
                    }
                }),
            decreases ni - k,
        {
            let ghost p0 = *pos as int;
            let ic = match SavedInputConnection::deserialize(data, pos) {
                Ok(ic) => ic,
                Err(e) => {
                    assert(spec_parse_inputs(data@, p0, (ni - k) as nat) is None);
                    return Err(e);
                },
            };
            input_connections.push(ic);
            proof {
                let rest = spec_parse_inputs(data@, *pos as int, (ni - k - 1) as nat);
                if rest is Some {
                    let (ins, j) = rest.unwrap();
                    assert(input_connections@ + ins =~= input_connections@.drop_last() + (
                    seq![ic] + ins));
                }
            }
            k = k + 1;
        }
        assert(input_connections@ + Seq::<SavedInputConnection>::empty() =~= input_connections@);
        let m = SavedModule {
            resource_name,
            controls,
            complex_controls,
            input_connections,
            pos_x,
            pos_y,
        };
        assert(spec_parse_module(data@, start).unwrap().0 =~= m@);
        Ok(m)
    }
}

// --- module graphs ---
pub open spec fn spec_ser_modules(ms: Seq<SavedModuleV>) -> Seq<u8>
    decreases ms.len(),
{
    if ms.len() == 0 {
        Seq::empty()
    } else {
        spec_ser_module(ms[0]) + spec_ser_modules(ms.drop_first())
    }
}

pub open spec fn spec_parse_modules(s: Seq<u8>, i: int, n: nat) -> Option<(Seq<SavedModuleV>, int)>
    decreases n,
{
    if n == 0 {
        Some((Seq::empty(), i))
    } else {
        match spec_parse_module(s, i) {
            None => None,
            Some((m, j)) => match spec_parse_modules(s, j, (n - 1) as nat) {
                None => None,
                Some((ms, k)) => Some((seq![m] + ms, k)),
            },
        }
    }
}

pub proof fn lemma_ser_modules_take_step(ms: Seq<SavedModuleV>, i: int)
    requires
        0 <= i < ms.len(),
    ensures
        spec_ser_modules(ms.take(i + 1)) == spec_ser_modules(ms.take(i)) + spec_ser_module(ms[i]),
    decreases i,
{
    let a = ms.take(i + 1);
    if i == 0 {
        assert(a.drop_first() =~= Seq::<SavedModuleV>::empty());
        assert(ms.take(0) =~= Seq::<SavedModuleV>::empty());
        assert(spec_ser_modules(ms.take(i + 1)) =~= spec_ser_modules(ms.take(i)) + spec_ser_module(
            ms[0],
        ));
    } else {
        lemma_ser_modules_take_step(ms.drop_first(), i - 1);
        assert(a.drop_first() =~= ms.drop_first().take(i));
        assert(ms.take(i).drop_first() =~= ms.drop_first().take(i - 1));
        assert(spec_ser_modules(ms.take(i + 1)) =~= spec_ser_modules(ms.take(i)) + spec_ser_module(
            ms[i],
        ));
    }
}

pub proof fn lemma_modules_roundtrip(ms: Seq<SavedModuleV>, s: Seq<u8>, i: int)
    requires
        0 <= i,
        forall|k: int| 0 <= k < ms.len() ==> #[trigger] ms[k].wf(),
        i + spec_ser_modules(ms).len() <= s.len(),
        s.subrange(i, i + spec_ser_modules(ms).len()) == spec_ser_modules(ms),
    ensures
        spec_parse_modules(s, i, ms.len()) == Some((ms, i + spec_ser_modules(ms).len())),
    decreases ms.len(),
{
    let ser = spec_ser_modules(ms);
    if ms.len() == 0 {
        assert(ms =~= Seq::<SavedModuleV>::empty());
    } else {
        let head = spec_ser_module(ms[0]);
        let tail = spec_ser_modules(ms.drop_first());
        let hl = head.len() as int;
        assert(ser == head + tail);
        assert forall|k: int| 0 <= k < hl implies ser[k] == #[trigger] head[k] by {}
        lemma_region_transfer(s, i, ser, 0, head);
        assert(s.subrange(i + 0, i + 0 + hl) == s.subrange(i, i + hl));
        lemma_module_roundtrip(ms[0], s, i);
        assert forall|k: int| 0 <= k < tail.len() implies ser[hl + k] == #[trigger] tail[k] by {}
        lemma_region_transfer(s, i, ser, hl, tail);
        lemma_modules_roundtrip(ms.drop_first(), s, i + hl);
        assert(ms =~= seq![ms[0]] + ms.drop_first());
    }
}

pub open spec fn spec_ser_graph(g: SavedModuleGraphV) -> Seq<u8> {
    u16_be_bytes(g.modules.len() as u16) + spec_ser_modules(g.modules)
}

pub open spec fn spec_parse_graph(s: Seq<u8>, i: int) -> Option<(SavedModuleGraphV, int)> {
    if 0 <= i && i + 2 <= s.len() {
        match spec_parse_modules(s, i + 2, be16(s[i], s[i + 1]) as nat) {
            None => None,
            Some((ms, j)) => Some((SavedModuleGraphV { modules: ms }, j)),
        }
    } else {
        None
    }
}

pub proof fn lemma_graph_roundtrip(g: SavedModuleGraphV, s: Seq<u8>, i: int)
    requires
        g.wf(),
        0 <= i,
        i + spec_ser_graph(g).len() <= s.len(),
        s.subrange(i, i + spec_ser_graph(g).len()) == spec_ser_graph(g),
    ensures
        spec_parse_graph(s, i) == Some((g, i + spec_ser_graph(g).len())),
{
    let ser = spec_ser_graph(g);
    let head = u16_be_bytes(g.modules.len() as u16);
    let tail = spec_ser_modules(g.modules);
    assert(ser == head + tail);
    let w = s.subrange(i, i + ser.len());
    assert(w[0] == s[i] && w[1] == s[i + 1]);
    assert(ser[0] == head[0] && ser[1] == head[1]);
    lemma_be16_of_bytes(g.modules.len() as u16);
    assert(be16(s[i], s[i + 1]) as nat == g.modules.len());
    assert forall|k: int| 0 <= k < tail.len() implies ser[2 + k] == #[trigger] tail[k] by {}
    lemma_region_transfer(s, i, ser, 2, tail);
    lemma_modules_roundtrip(g.modules, s, i + 2);
    let parsed = spec_parse_graph(s, i).unwrap().0;
    assert(parsed =~= g);
}

impl SavedModuleGraph {
    /// An empty graph: what a fresh writable patch holds before a save.
    pub fn blank() -> (r: Self)
        ensures
            r@.modules.len() == 0,
            r@.wf(),
    {
        SavedModuleGraph { modules: Vec::new() }
    }

    #[verifier::loop_isolation(false)]
    pub fn serialize(&self, out: &mut Vec<u8>)
        requires
            self@.wf(),
        ensures
            final(out)@ == old(out)@ + spec_ser_graph(self@),
    {
        push_u16_be(out, self.modules.len() as u16);
        let ghost base = out@;
        let mut k: usize = 0;
        while k < self.modules.len()
            invariant
                out@ == base + spec_ser_modules(self@.modules.take(k as int)),
                k <= self.modules@.len(),
            decreases self.modules@.len() - k,
        {
            assert(self@.modules[k as int].wf());
            self.modules[k].serialize(out);
            proof {
                lemma_ser_modules_take_step(self@.modules, k as int);
            }
            k = k + 1;
        }
        proof {
            assert(self@.modules.take(self.modules@.len() as int) =~= self@.modules);
            assert(out@ =~= old(out)@ + spec_ser_graph(self@));
        }
    }

    #[verifier::loop_isolation(false)]
    pub fn deserialize(data: &Vec<u8>, pos: &mut usize) -> (r: Result<Self, DecodeError>)
        ensures
            r is Ok <==> spec_parse_graph(data@, *old(pos) as int) is Some,
            r matches Ok(g) ==> spec_parse_graph(data@, *old(pos) as int) == Some(
                (g@, *final(pos) as int),
            ),
    {
        let ghost start = *pos as int;
        let count = match read_u16_be(data, pos) {
            Ok(v) => v,
            Err(e) => {
                return Err(e);
            },
        };
        let n = count as usize;
        let mut modules: Vec<SavedModule> = Vec::new();
        let mut k: usize = 0;
        let ghost mstart = *pos as int;
        while k < n
            invariant
                k <= n,
                ({
                    let whole = spec_parse_modules(data@, mstart, n as nat);
                    let rest = spec_parse_modules(data@, *pos as int, (n - k) as nat);
                    match rest {
                        Some((ms, j)) => whole == Some(
                            (modules@.map_values(|m: SavedModule| m@) + ms, j),
                        ),
                        None => whole is None,
                    }
                }),
            decreases n - k,
        {
            let ghost p0 = *pos as int;
            let m = match SavedModule::deserialize(data, pos) {
                Ok(m) => m,
                Err(e) => {
                    assert(spec_parse_modules(data@, p0, (n - k) as nat) is None);
                    return Err(e);
                },
            };
            modules.push(m);
            proof {
                let rest = spec_parse_modules(data@, *pos as int, (n - k - 1) as nat);
                if rest is Some {
                    let (ms, j) = rest.unwrap();
                    assert(modules@.map_values(|m: SavedModule| m@) =~= modules@.drop_last()
                        .map_values(|m: SavedModule| m@).push(m@));
                    assert(modules@.map_values(|m: SavedModule| m@) + ms =~= modules@.drop_last()
                        .map_values(|m: SavedModule| m@) + (seq![m@] + ms));
                }
            }
            k = k + 1;
        }
        assert(modules@.map_values(|m: SavedModule| m@) + Seq::<SavedModuleV>::empty()
            =~= modules@.map_values(|m: SavedModule| m@));
        let g = SavedModuleGraph { modules };
        assert(spec_parse_graph(data@, start).unwrap().0 =~= g@);
        Ok(g)
    }
}

// --- whole patches on the wire ---
/// The byte image of a named patch: length-prefixed name, then the graph.
pub open spec fn spec_ser_patch(name: Seq<u8>, g: SavedModuleGraphV) -> Seq<u8> {
    u16_be_bytes(name.len() as u16) + name + spec_ser_graph(g)
}

pub open spec fn spec_parse_patch(s: Seq<u8>, i: int) -> Option<((Seq<u8>, SavedModuleGraphV), int)> {
    if 0 <= i && i + 2 <= s.len() {
        let name_len = be16(s[i], s[i + 1]) as int;
        if i + 2 + name_len <= s.len() {
            let name = s.subrange(i + 2, i + 2 + name_len);
            match spec_parse_graph(s, i + 2 + name_len) {
                None => None,
                Some((g, j)) => Some(((name, g), j)),
            }
        } else {
            None
        }
    } else {
        None
    }
}

#[verifier::rlimit(30)]
pub proof fn lemma_patch_wire_roundtrip(name: Seq<u8>, g: SavedModuleGraphV, s: Seq<u8>, i: int)
    requires
        name.len() < 0xFFFF,
        g.wf(),
        0 <= i,
        i + spec_ser_patch(name, g).len() <= s.len(),
        s.subrange(i, i + spec_ser_patch(name, g).len()) == spec_ser_patch(name, g),
    ensures
        spec_parse_patch(s, i) == Some(((name, g), i + spec_ser_patch(name, g).len())),
{
    let ser = spec_ser_patch(name, g);
    let head = u16_be_bytes(name.len() as u16);
    let tail = spec_ser_graph(g);
    assert(ser == head + name + tail);
    let w = s.subrange(i, i + ser.len());
    assert(w[0] == s[i] && w[1] == s[i + 1]);
    assert(ser[0] == head[0] && ser[1] == head[1]);
    lemma_be16_of_bytes(name.len() as u16);
    assert(be16(s[i], s[i + 1]) as int == name.len());
    let o1 = 2 + name.len() as int;
    assert forall|k: int| 0 <= k < name.len() implies ser[2 + k] == #[trigger] name[k] by {}
    lemma_region_transfer(s, i, ser, 2, name);
    assert forall|k: int| 0 <= k < tail.len() implies ser[o1 + k] == #[trigger] tail[k] by {}
    lemma_region_transfer(s, i, ser, o1, tail);
    lemma_graph_roundtrip(g, s, i + o1);
    let parsed = spec_parse_patch(s, i).unwrap().0;
    assert(parsed.0 =~= name);
}

} // verus!
