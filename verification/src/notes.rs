//! The voice tracker: held and decaying note instances, their one-shot
//! triggers and timers, and feedback-voice selection.
//!
//! Pitch and velocity are carried as IEEE 754 bit patterns; musical time is
//! exact integer bookkeeping — elapsed audio samples, and beat progress in
//! the caller's beat units — so every lifecycle decision is over plain
//! values. The per-voice persistent memory of the compiled program is an
//! opaque type parameter that the tracker owns and never inspects.

use vstd::prelude::*;

verus! {

/// Saturating addition; elapsed counters never wrap and never panic.
pub open spec fn spec_sat_add_u64(a: u64, b: u64) -> u64 {
    if a + b <= u64::MAX {
        (a + b) as u64
    } else {
        u64::MAX
    }
}

pub open spec fn spec_sat_add_usize(a: usize, b: usize) -> usize {
    if a + b <= usize::MAX {
        (a + b) as usize
    } else {
        usize::MAX
    }
}

pub fn sat_add_u64(a: u64, b: u64) -> (r: u64)
    ensures
        r == spec_sat_add_u64(a, b),
{
    if a <= u64::MAX - b {
        a + b
    } else {
        u64::MAX
    }
}

pub fn sat_add_usize(a: usize, b: usize) -> (r: usize)
    ensures
        r == spec_sat_add_usize(a, b),
{
    if a <= usize::MAX - b {
        a + b
    } else {
        usize::MAX
    }
}

/// The MIDI-style pitch index space offers this many slots.
pub const NUM_MIDI_NOTES: usize = 128;

/// 12-tone equal temperament, A4 (index 69) at 440 Hz: the float bits of
/// the lowest octave, one entry per pitch class of index 0 through 11.
pub open spec fn base_pitch_bits(r: int) -> u32 {
    if r == 0 {
        0x4102D013u32
    } else if r == 1 {
        0x410A9760u32
    } else if r == 2 {
        0x4112D517u32
    } else if r == 3 {
        0x411B9041u32
    } else if r == 4 {
        0x4124D054u32
    } else if r == 5 {
        0x412E9D37u32
    } else if r == 6 {
        0x4138FF49u32
    } else if r == 7 {
        0x4143FF6Au32
    } else if r == 8 {
        0x414FA700u32
    } else if r == 9 {
        0x415C0000u32
    } else if r == 10 {
        0x416914F6u32
    } else {
        0x4176F110u32
    }
}

/// The float bits of `440 * 2^((index - 69) / 12)`: the base pitch class
/// raised by whole octaves, which scales a binary float exactly.
pub open spec fn tuning_bits(index: int) -> u32 {
    (base_pitch_bits(index % 12) + (index / 12) * 0x80_0000) as u32
}

/// The equal-tempered pitch of a MIDI-style index, as float bits.
pub fn equal_tempered_tuning(index: usize) -> (r: u32)
    requires
        index < NUM_MIDI_NOTES,
    ensures
        r == tuning_bits(index as int),
{
    let rem = index % 12;
    let oct = index / 12;
    let base: u32 = if rem == 0 {
        0x4102D013
    } else if rem == 1 {
        0x410A9760
    } else if rem == 2 {
        0x4112D517
    } else if rem == 3 {
        0x411B9041
    } else if rem == 4 {
        0x4124D054
    } else if rem == 5 {
        0x412E9D37
    } else if rem == 6 {
        0x4138FF49
    } else if rem == 7 {
        0x4143FF6A
    } else if rem == 8 {
        0x414FA700
    } else if rem == 9 {
        0x415C0000
    } else if rem == 10 {
        0x416914F6
    } else {
        0x4176F110
    };
    assert(oct <= 10);
    base + (oct as u32) * 0x80_0000
}

/// The buffer layout and sample rate the host currently runs.
#[derive(Clone, Copy, Debug, PartialEq, Eq, Structural)]
pub struct DataFormat {
    pub sample_rate: u32,
    pub buffer_len: usize,
}

/// Notes must sit silent for a tenth of a second, rounded up to whole
/// samples, before they are shut off.
pub open spec fn min_silent_samples(sample_rate: u32) -> int {
    (sample_rate + 9) / 10
}

pub fn compute_min_silent_samples(sample_rate: u32) -> (r: usize)
    ensures
        r == min_silent_samples(sample_rate),
{
    (((sample_rate as u64) + 9) / 10) as usize
}

/// The per-voice input snapshot handed to the compiled program each buffer.
#[derive(Clone, Copy, Debug, PartialEq, Eq, Structural)]
pub struct NoteData {
    /// Pitch in Hz, as float bits.
    pub pitch: u32,
    /// Velocity, as float bits.
    pub velocity: u32,
    pub elapsed_samples: usize,
    /// Beat progress, in the caller's beat units.
    pub elapsed_beat_units: u64,
    pub start_trigger: bool,
    pub release_trigger: bool,
}

/// One voice: its program inputs, its running silent-sample count, and the
/// compiled program's persistent memory, exclusively owned here.
pub struct CompleteNoteData<D> {
    pub input_data: NoteData,
    pub silent_samples: usize,
    pub static_data: D,
}

/// Held and decaying voices across the MIDI-style index space.
pub struct NoteTracker<D> {
    pub held_notes: Vec<Option<CompleteNoteData<D>>>,
    pub decaying_notes: Vec<CompleteNoteData<D>>,
    pub data_format: DataFormat,
}

/// The voices present among a row of optional slots, in slot order.
pub open spec fn slot_actives<D>(s: Seq<Option<CompleteNoteData<D>>>) -> Seq<CompleteNoteData<D>>
    decreases s.len(),
{
    if s.len() == 0 {
        Seq::empty()
    } else {
        (match s[0] {
            Some(n) => seq![n],
            None => Seq::empty(),
        }) + slot_actives(s.drop_first())
    }
}

/// Appending one slot appends its voice, if any.
pub proof fn lemma_slot_actives_take_step<D>(s: Seq<Option<CompleteNoteData<D>>>, i: int)
    requires
        0 <= i < s.len(),
    ensures
        slot_actives(s.take(i + 1)) == slot_actives(s.take(i)) + (match s[i] {
            Some(n) => seq![n],
            None => Seq::empty(),
        }),
    decreases i,
{
    let a = s.take(i + 1);
    if i == 0 {
        assert(a.drop_first() =~= Seq::<Option<CompleteNoteData<D>>>::empty());
        assert(s.take(0) =~= Seq::<Option<CompleteNoteData<D>>>::empty());
        assert(slot_actives(s.take(i + 1)) =~= slot_actives(s.take(i)) + (match s[0] {
            Some(n) => seq![n],
            None => Seq::empty(),
        }));
    } else {
        lemma_slot_actives_take_step(s.drop_first(), i - 1);
        assert(a.drop_first() =~= s.drop_first().take(i));
        assert(s.take(i).drop_first() =~= s.drop_first().take(i - 1));
        assert(slot_actives(s.take(i + 1)) =~= slot_actives(s.take(i)) + (match s[i] {
            Some(n) => seq![n],
            None => Seq::empty(),
        }));
    }
}

impl<D> NoteTracker<D> {
    /// One slot per MIDI-style pitch index.
    pub open spec fn wf(self) -> bool {
        self.held_notes@.len() == NUM_MIDI_NOTES
    }

    /// The held voices, in slot order.
    pub open spec fn held_actives(self) -> Seq<CompleteNoteData<D>> {
        slot_actives(self.held_notes@)
    }

    /// Every active voice, in the stable held-then-decaying order that
    /// drives execution, feedback selection and bookkeeping.
    pub open spec fn active_seq(self) -> Seq<CompleteNoteData<D>> {
        self.held_actives() + self.decaying_notes@
    }

    /// An empty tracker for the given format.
    pub fn new(data_format: DataFormat) -> (r: NoteTracker<D>)
        ensures
            r.wf(),
            r.data_format == data_format,
            forall|i: int| 0 <= i < NUM_MIDI_NOTES ==> r.held_notes@[i] is None,
            r.decaying_notes@.len() == 0,
    {
        let mut held_notes: Vec<Option<CompleteNoteData<D>>> = Vec::new();
        let mut i: usize = 0;
        while i < NUM_MIDI_NOTES
            invariant
                i <= NUM_MIDI_NOTES,
                held_notes@.len() == i,
                forall|j: int| 0 <= j < i ==> held_notes@[j] is None,
            decreases NUM_MIDI_NOTES - i,
        {
            held_notes.push(None);
            i = i + 1;
        }
        NoteTracker { held_notes, decaying_notes: Vec::new(), data_format }
    }

    /// Drops every voice, held and decaying, unconditionally.
    pub fn silence_all(&mut self)
        requires
            old(self).wf(),
        ensures
            final(self).wf(),
            forall|i: int| 0 <= i < NUM_MIDI_NOTES ==> final(self).held_notes@[i] is None,
            final(self).decaying_notes@.len() == 0,
            final(self).data_format == old(self).data_format,
    {
        let mut held_notes: Vec<Option<CompleteNoteData<D>>> = Vec::new();
        let mut i: usize = 0;
        while i < NUM_MIDI_NOTES
            invariant
                i <= NUM_MIDI_NOTES,
                held_notes@.len() == i,
                forall|j: int| 0 <= j < i ==> held_notes@[j] is None,
            decreases NUM_MIDI_NOTES - i,
        {
            held_notes.push(None);
            i = i + 1;
        }
        self.held_notes = held_notes;
        self.decaying_notes = Vec::new();
    }

    /// Adopts a new buffer layout or sample rate. Old voices' static memory
    /// may depend on the old layout, so all voices are dropped.
    pub fn set_data_format(&mut self, data_format: DataFormat)
        requires
            old(self).wf(),
        ensures
            final(self).wf(),
            final(self).data_format == data_format,
            forall|i: int| 0 <= i < NUM_MIDI_NOTES ==> final(self).held_notes@[i] is None,
            final(self).decaying_notes@.len() == 0,
    {
        self.data_format = data_format;
        self.silence_all();
    }

    /// Starts a voice at `index`, unless one is already held there: a
    /// second start without an intervening release changes nothing.
    pub fn start_note(&mut self, static_data: D, index: usize, velocity: u32)
        requires
            old(self).wf(),
            index < NUM_MIDI_NOTES,
        ensures
            final(self).wf(),
            old(self).held_notes@[index as int] is Some ==> *final(self) == *old(self),
            old(self).held_notes@[index as int] is None ==> {
                &&& final(self).held_notes@ == old(self).held_notes@.update(
                    index as int,
                    Some(
                        CompleteNoteData {
                            input_data: NoteData {
                                pitch: tuning_bits(index as int),
                                velocity,
                                elapsed_samples: 0,
                                elapsed_beat_units: 0,
                                start_trigger: true,
                                release_trigger: false,
                            },
                            silent_samples: 0,
                            static_data,
                        },
                    ),
                )
                &&& final(self).decaying_notes == old(self).decaying_notes
                &&& final(self).data_format == old(self).data_format
            },
    {
        if self.held_notes[index].is_some() {
            return ;
        }
        let pitch = equal_tempered_tuning(index);
        let voice = CompleteNoteData {
            input_data: NoteData {
                pitch,
                velocity,
                elapsed_samples: 0,
                elapsed_beat_units: 0,
                start_trigger: true,
                release_trigger: false,
            },
            silent_samples: 0,
            static_data,
        };
        let _ = self.held_notes.remove(index);
        self.held_notes.insert(index, Some(voice));
        proof {
            assert(self.held_notes@ =~= old(self).held_notes@.update(
                index as int,
                Some(voice),
            ));
        }
    }

    /// Moves the voice at `index`, if held, to the decaying list with its
    /// release trigger set; a release with nothing held changes nothing.
    pub fn release_note(&mut self, index: usize)
        requires
            old(self).wf(),
            index < NUM_MIDI_NOTES,
        ensures
            final(self).wf(),
            old(self).held_notes@[index as int] is None ==> *final(self) == *old(self),
            old(self).held_notes@[index as int] matches Some(n) ==> {
                &&& final(self).held_notes@ == old(self).held_notes@.update(index as int, None)
                &&& final(self).decaying_notes@ == old(self).decaying_notes@.push(
                    CompleteNoteData {
                        input_data: NoteData {
                            start_trigger: false,
                            release_trigger: true,
                            ..n.input_data
                        },
                        ..n
                    },
                )
                &&& final(self).data_format == old(self).data_format
            },
    {
        if self.held_notes[index].is_none() {
            return ;
        }
        let slot = self.held_notes.remove(index);
        match slot {
            Some(mut note) => {
                note.input_data.start_trigger = false;
                note.input_data.release_trigger = true;
                self.held_notes.insert(index, None);
                self.decaying_notes.push(note);
                proof {
                    assert(self.held_notes@ =~= old(self).held_notes@.update(index as int, None));
                }
            },
            None => {
                proof {
                    assert(false);
                }
                self.held_notes.insert(index, None);
            },
        }
    }
}

/// A decaying voice after one buffer: counters advanced, both one-shot
/// triggers cleared.
pub open spec fn advance_decaying_note<D>(
    n: CompleteNoteData<D>,
    buffer_len: usize,
    beat_units: u64,
) -> CompleteNoteData<D> {
    CompleteNoteData {
        input_data: NoteData {
            elapsed_samples: spec_sat_add_usize(n.input_data.elapsed_samples, buffer_len),
            elapsed_beat_units: spec_sat_add_u64(n.input_data.elapsed_beat_units, beat_units),
            start_trigger: false,
            release_trigger: false,
            ..n.input_data
        },
        ..n
    }
}

/// A held voice after one buffer: counters advanced, the start trigger
/// cleared.
pub open spec fn advance_held_note<D>(
    n: CompleteNoteData<D>,
    buffer_len: usize,
    beat_units: u64,
) -> CompleteNoteData<D> {
    CompleteNoteData {
        input_data: NoteData {
            elapsed_samples: spec_sat_add_usize(n.input_data.elapsed_samples, buffer_len),
            elapsed_beat_units: spec_sat_add_u64(n.input_data.elapsed_beat_units, beat_units),
            start_trigger: false,
            ..n.input_data
        },
        ..n
    }
}

/// The decaying list after one buffer: voices whose silent-sample count has
/// reached the threshold are dropped, the rest advance in order.
pub open spec fn advanced_decaying<D>(
    s: Seq<CompleteNoteData<D>>,
    buffer_len: usize,
    beat_units: u64,
    min_silent: int,
) -> Seq<CompleteNoteData<D>>
    decreases s.len(),
{
    if s.len() == 0 {
        Seq::empty()
    } else {
        (if s[0].silent_samples >= min_silent {
            Seq::empty()
        } else {
            seq![advance_decaying_note(s[0], buffer_len, beat_units)]
        }) + advanced_decaying(s.drop_first(), buffer_len, beat_units, min_silent)
    }
}

proof fn lemma_advanced_decaying_take_step<D>(
    s: Seq<CompleteNoteData<D>>,
    buffer_len: usize,
    beat_units: u64,
    min_silent: int,
    i: int,
)
    requires
        0 <= i < s.len(),
    ensures
        advanced_decaying(s.take(i + 1), buffer_len, beat_units, min_silent) == advanced_decaying(
            s.take(i),
            buffer_len,
            beat_units,
            min_silent,
        ) + (if s[i].silent_samples >= min_silent {
            Seq::<CompleteNoteData<D>>::empty()
        } else {
            seq![advance_decaying_note(s[i], buffer_len, beat_units)]
        }),
    decreases i,
{
    let a = s.take(i + 1);
    if i == 0 {
        assert(a.drop_first() =~= Seq::<CompleteNoteData<D>>::empty());
        assert(s.take(0) =~= Seq::<CompleteNoteData<D>>::empty());
        assert(advanced_decaying(s.take(i + 1), buffer_len, beat_units, min_silent)
            =~= advanced_decaying(s.take(i), buffer_len, beat_units, min_silent) + (if s[
            0
        ].silent_samples >= min_silent {
            Seq::<CompleteNoteData<D>>::empty()
        } else {
            seq![advance_decaying_note(s[0], buffer_len, beat_units)]
        }));
    } else {
        lemma_advanced_decaying_take_step(s.drop_first(), buffer_len, beat_units, min_silent, i - 1);
        assert(a.drop_first() =~= s.drop_first().take(i));
        assert(s.take(i).drop_first() =~= s.drop_first().take(i - 1));
        assert(advanced_decaying(s.take(i + 1), buffer_len, beat_units, min_silent)
            =~= advanced_decaying(s.take(i), buffer_len, beat_units, min_silent) + (if s[
            i
        ].silent_samples >= min_silent {
            Seq::<CompleteNoteData<D>>::empty()
        } else {
            seq![advance_decaying_note(s[i], buffer_len, beat_units)]
        }));
    }
}

impl<D> NoteTracker<D> {
    /// Once per buffer: drop decaying voices that have sat silent past the
    /// threshold, advance every surviving voice's counters by one buffer's
    /// worth, and clear the one-shot triggers — both for decaying voices,
    /// the start trigger alone for held ones.
    #[verifier::loop_isolation(false)]
    pub fn advance_all_notes(&mut self, beat_units: u64)
        requires
            old(self).wf(),
        ensures
            final(self).wf(),
            final(self).data_format == old(self).data_format,
            final(self).decaying_notes@ == advanced_decaying(
                old(self).decaying_notes@,
                old(self).data_format.buffer_len,
                beat_units,
                min_silent_samples(old(self).data_format.sample_rate),
            ),
            forall|i: int|
                0 <= i < NUM_MIDI_NOTES ==> match #[trigger] old(self).held_notes@[i] {
                    None => final(self).held_notes@[i] is None,
                    Some(n) => final(self).held_notes@[i] == Some(
                        advance_held_note(n, old(self).data_format.buffer_len, beat_units),
                    ),
                },
    {
        let buffer_len = self.data_format.buffer_len;
        let min_silent = compute_min_silent_samples(self.data_format.sample_rate);
        let ghost olds = self.decaying_notes@;
        let ghost gmin = min_silent_samples(self.data_format.sample_rate);
        let n0 = self.decaying_notes.len();
        let mut kept: Vec<CompleteNoteData<D>> = Vec::new();
        let mut k: usize = 0;
        while k < n0
            invariant
                k <= n0,
                self.held_notes == old(self).held_notes,
                self.data_format == old(self).data_format,
                self.decaying_notes@ =~= olds.skip(k as int),
                kept@ == advanced_decaying(olds.take(k as int), buffer_len, beat_units, gmin),
            decreases n0 - k,
        {
            let mut note = self.decaying_notes.remove(0);
            assert(note == olds[k as int]);
            if note.silent_samples < min_silent {
                note.input_data.elapsed_samples = sat_add_usize(
                    note.input_data.elapsed_samples,
                    buffer_len,
                );
                note.input_data.elapsed_beat_units = sat_add_u64(
                    note.input_data.elapsed_beat_units,
                    beat_units,
                );
                note.input_data.start_trigger = false;
                note.input_data.release_trigger = false;
                kept.push(note);
            }
            k = k + 1;
            proof {
                lemma_advanced_decaying_take_step(olds, buffer_len, beat_units, gmin, k - 1);
                assert(self.decaying_notes@ =~= olds.skip(k as int));
            }
        }
        proof {
            assert(olds.take(n0 as int) =~= olds);
        }
        self.decaying_notes = kept;
        let mut i: usize = 0;
        while i < NUM_MIDI_NOTES
            invariant
                i <= NUM_MIDI_NOTES,
                self.held_notes@.len() == NUM_MIDI_NOTES,
                self.data_format == old(self).data_format,
                self.decaying_notes@ == advanced_decaying(olds, buffer_len, beat_units, gmin),
                forall|j: int|
                    0 <= j < i ==> match #[trigger] old(self).held_notes@[j] {
                        None => self.held_notes@[j] is None,
                        Some(n) => self.held_notes@[j] == Some(
                            advance_held_note(n, buffer_len, beat_units),
                        ),
                    },
                forall|j: int|
                    i <= j < NUM_MIDI_NOTES ==> self.held_notes@[j] == old(self).held_notes@[j],
            decreases NUM_MIDI_NOTES - i,
        {
            let slot = self.held_notes.remove(i);
            match slot {
                Some(mut n) => {
                    n.input_data.elapsed_samples = sat_add_usize(
                        n.input_data.elapsed_samples,
                        buffer_len,
                    );
                    n.input_data.elapsed_beat_units = sat_add_u64(
                        n.input_data.elapsed_beat_units,
                        beat_units,
                    );
                    n.input_data.start_trigger = false;
                    self.held_notes.insert(i, Some(n));
                },
                None => {
                    self.held_notes.insert(i, None);
                },
            }
            i = i + 1;
        }
    }
}

/// The smallest elapsed-sample count in a pool of voices; the whole range
/// of the counter if the pool is empty.
pub open spec fn min_elapsed<D>(s: Seq<CompleteNoteData<D>>) -> int
    decreases s.len(),
{
    if s.len() == 0 {
        usize::MAX as int
    } else {
        let rest = min_elapsed(s.drop_first());
        if s[0].input_data.elapsed_samples as int <= rest {
            s[0].input_data.elapsed_samples as int
        } else {
            rest
        }
    }
}

pub proof fn lemma_min_elapsed_bounds<D>(s: Seq<CompleteNoteData<D>>)
    ensures
        min_elapsed(s) <= usize::MAX as int,
        forall|k: int|
            0 <= k < s.len() ==> min_elapsed(s) <= (
            #[trigger] s[k]).input_data.elapsed_samples as int,
        s.len() > 0 ==> exists|k: int|
            0 <= k < s.len() && (#[trigger] s[k]).input_data.elapsed_samples as int == min_elapsed(
                s,
            ),
    decreases s.len(),
{
    if s.len() > 0 {
        lemma_min_elapsed_bounds(s.drop_first());
        let rest = min_elapsed(s.drop_first());
        if s[0].input_data.elapsed_samples as int <= rest {
            assert(s[0].input_data.elapsed_samples as int == min_elapsed(s));
        } else {
            let k = choose|k: int|
                0 <= k < s.drop_first().len() && (
                #[trigger] s.drop_first()[k]).input_data.elapsed_samples as int == rest;
            assert(s[k + 1].input_data.elapsed_samples as int == min_elapsed(s));
        }
        assert forall|k: int| 0 <= k < s.len() implies min_elapsed(s) <= (
        #[trigger] s[k]).input_data.elapsed_samples as int by {
            if k > 0 {
                assert(s[k] == s.drop_first()[k - 1]);
            }
        }
    }
}

pub proof fn lemma_min_elapsed_push<D>(s: Seq<CompleteNoteData<D>>, x: CompleteNoteData<D>)
    ensures
        min_elapsed(s.push(x)) == (if x.input_data.elapsed_samples as int <= min_elapsed(s) {
            x.input_data.elapsed_samples as int
        } else {
            min_elapsed(s)
        }),
    decreases s.len(),
{
    if s.len() == 0 {
        assert(s.push(x).drop_first() =~= Seq::<CompleteNoteData<D>>::empty());
        assert(min_elapsed(Seq::<CompleteNoteData<D>>::empty()) == usize::MAX as int);
        assert(s.push(x)[0] == x);
    } else {
        lemma_min_elapsed_push(s.drop_first(), x);
        assert(s.push(x).drop_first() =~= s.drop_first().push(x));
        assert(s.push(x)[0] == s[0]);
    }
}

/// The position of the first voice in the pool whose elapsed-sample count
/// is `m`.
pub open spec fn first_at<D>(s: Seq<CompleteNoteData<D>>, m: int) -> int
    decreases s.len(),
{
    if s.len() == 0 {
        0
    } else if s[0].input_data.elapsed_samples as int == m {
        0
    } else {
        1 + first_at(s.drop_first(), m)
    }
}

pub proof fn lemma_first_at_props<D>(s: Seq<CompleteNoteData<D>>, m: int)
    requires
        exists|k: int|
            0 <= k < s.len() && (#[trigger] s[k]).input_data.elapsed_samples as int == m,
    ensures
        0 <= first_at(s, m) < s.len(),
        s[first_at(s, m)].input_data.elapsed_samples as int == m,
        forall|j: int|
            0 <= j < first_at(s, m) ==> (#[trigger] s[j]).input_data.elapsed_samples as int != m,
    decreases s.len(),
{
    if s[0].input_data.elapsed_samples as int == m {
    } else {
        let k = choose|k: int|
            0 <= k < s.len() && (#[trigger] s[k]).input_data.elapsed_samples as int == m;
        assert(s.drop_first()[k - 1] == s[k]);
        lemma_first_at_props(s.drop_first(), m);
        assert forall|j: int| 0 <= j < first_at(s, m) implies (
        #[trigger] s[j]).input_data.elapsed_samples as int != m by {
            if j > 0 {
                assert(s[j] == s.drop_first()[j - 1]);
            }
        }
    }
}

/// A slot row never contributes more voices than it has slots.
pub proof fn lemma_slot_actives_len_le<D>(s: Seq<Option<CompleteNoteData<D>>>)
    ensures
        slot_actives(s).len() <= s.len(),
    decreases s.len(),
{
    if s.len() > 0 {
        lemma_slot_actives_len_le(s.drop_first());
    }
}

/// A prefix of the slot row contributes a prefix of the active voices.
pub proof fn lemma_slot_actives_take_prefix<D>(s: Seq<Option<CompleteNoteData<D>>>, i: int)
    requires
        0 <= i <= s.len(),
    ensures
        slot_actives(s.take(i)).len() <= slot_actives(s).len(),
        slot_actives(s.take(i)) == slot_actives(s).take(slot_actives(s.take(i)).len() as int),
    decreases s.len() - i,
{
    if i == s.len() {
        assert(s.take(i) =~= s);
        assert(slot_actives(s).take(slot_actives(s).len() as int) =~= slot_actives(s));
    } else {
        lemma_slot_actives_take_step(s, i);
        lemma_slot_actives_take_prefix(s, i + 1);
        let a = slot_actives(s.take(i));
        let b = slot_actives(s.take(i + 1));
        assert(a.len() <= b.len());
        assert(a =~= slot_actives(s).take(a.len() as int));
    }
}

/// The pool feedback selection draws from: held voices first; decaying
/// voices only when nothing is held; none when no voice is active. The
/// chosen voice is the first, in enumeration order, with the smallest
/// elapsed-sample count in that pool.
pub open spec fn spec_recommend<D>(t: NoteTracker<D>) -> Option<int> {
    if t.held_actives().len() > 0 {
        Some(first_at(t.held_actives(), min_elapsed(t.held_actives())))
    } else if t.decaying_notes@.len() > 0 {
        Some(first_at(t.decaying_notes@, min_elapsed(t.decaying_notes@)))
    } else {
        None
    }
}

impl<D> NoteTracker<D> {
    /// The enumeration-order index of the voice that should report feedback
    /// this buffer: the youngest held voice, or the youngest decaying voice
    /// when nothing is held, or none when no voice is active. Ties resolve
    /// to the first match in held-then-decaying order.
    #[verifier::loop_isolation(false)]
    pub fn recommend_note_for_feedback(&self) -> (r: Option<usize>)
        requires
            self.wf(),
        ensures
            match r {
                Some(k) => spec_recommend(*self) == Some(k as int),
                None => spec_recommend(*self) is None,
            },
    {
        let ghost s = self.held_notes@;
        let ghost h = self.held_actives();
        let mut youngest: usize = usize::MAX;
        let mut any_held = false;
        let mut i: usize = 0;
        while i < NUM_MIDI_NOTES
            invariant
                i <= NUM_MIDI_NOTES,
                youngest as int == min_elapsed(slot_actives(s.take(i as int))),
                any_held <==> slot_actives(s.take(i as int)).len() > 0,
            decreases NUM_MIDI_NOTES - i,
        {
            proof {
                lemma_slot_actives_take_step(s, i as int);
            }
            match &self.held_notes[i] {
                Some(n) => {
                    proof {
                        lemma_min_elapsed_push(slot_actives(s.take(i as int)), s[i as int].unwrap());
                        assert(slot_actives(s.take(i as int)).push(s[i as int].unwrap())
                            =~= slot_actives(s.take(i as int + 1)));
                    }
                    if n.input_data.elapsed_samples < youngest {
                        youngest = n.input_data.elapsed_samples;
                    }
                    any_held = true;
                },
                None => {
                    proof {
                        assert(slot_actives(s.take(i as int + 1)) =~= slot_actives(
                            s.take(i as int),
                        ));
                    }
                },
            }
            i = i + 1;
        }
        proof {
            assert(s.take(NUM_MIDI_NOTES as int) =~= s);
        }
        if any_held {
            let mut index: usize = 0;
            let mut i: usize = 0;
            while i < NUM_MIDI_NOTES
                invariant
                    i <= NUM_MIDI_NOTES,
                    index == slot_actives(s.take(i as int)).len(),
                    forall|j: int|
                        0 <= j < index ==> (#[trigger] h[j]).input_data.elapsed_samples as int
                            != youngest as int,
                decreases NUM_MIDI_NOTES - i,
            {
                proof {
                    lemma_slot_actives_take_step(s, i as int);
                    lemma_slot_actives_take_prefix(s, i as int);
                    lemma_slot_actives_take_prefix(s, i as int + 1);
                }
                match &self.held_notes[i] {
                    Some(n) => {
                        proof {
                            assert(slot_actives(s.take(i as int + 1)) =~= slot_actives(
                                s.take(i as int),
                            ).push(s[i as int].unwrap()));
                            assert(h.take(index as int + 1)[index as int] == h[index as int]);
                            assert(h[index as int] == s[i as int].unwrap());
                            lemma_slot_actives_len_le(s);
                            assert(index as int + 1 <= h.len());
                        }
                        if n.input_data.elapsed_samples == youngest {
                            proof {
                                lemma_first_at_props(h, youngest as int);
                            }
                            return Some(index);
                        }
                        index = index + 1;
                    },
                    None => {},
                }
                i = i + 1;
            }
            proof {
                assert(s.take(NUM_MIDI_NOTES as int) =~= s);
                lemma_min_elapsed_bounds(h);
                assert(false);
            }
            None
        } else {
            let ghost d = self.decaying_notes@;
            assert(h.len() == 0);
            if self.decaying_notes.len() == 0 {
                return None;
            }
            let mut dy: usize = usize::MAX;
            let mut j: usize = 0;
            while j < self.decaying_notes.len()
                invariant
                    j <= d.len(),
                    dy as int == min_elapsed(d.take(j as int)),
                decreases d.len() - j,
            {
                proof {
                    lemma_min_elapsed_push(d.take(j as int), d[j as int]);
                    assert(d.take(j as int).push(d[j as int]) =~= d.take(j as int + 1));
                }
                let e = self.decaying_notes[j].input_data.elapsed_samples;
                if e < dy {
                    dy = e;
                }
                j = j + 1;
            }
            proof {
                assert(d.take(d.len() as int) =~= d);
            }
            let mut j: usize = 0;
            while j < self.decaying_notes.len()
                invariant
                    j <= d.len(),
                    forall|jj: int|
                        0 <= jj < j ==> (#[trigger] d[jj]).input_data.elapsed_samples as int
                            != dy as int,
                decreases d.len() - j,
            {
                if self.decaying_notes[j].input_data.elapsed_samples == dy {
                    proof {
                        lemma_first_at_props(d, dy as int);
                    }
                    return Some(j);
                }
                j = j + 1;
            }
            proof {
                lemma_min_elapsed_bounds(d);
                assert(false);
            }
            None
        }
    }
}


/// Replacing the voice in a filled slot replaces exactly its entry in the
/// active-voice sequence.
pub proof fn lemma_slot_actives_update<D>(
    s: Seq<Option<CompleteNoteData<D>>>,
    i: int,
    x: CompleteNoteData<D>,
)
    requires
        0 <= i < s.len(),
        s[i] is Some,
    ensures
        slot_actives(s.update(i, Some(x))) == slot_actives(s).update(
            slot_actives(s.take(i)).len() as int,
            x,
        ),
        slot_actives(s.take(i)).len() < slot_actives(s).len(),
    decreases i,
{
    let u = s.update(i, Some(x));
    if i == 0 {
        assert(u.drop_first() =~= s.drop_first());
        assert(s.take(0) =~= Seq::<Option<CompleteNoteData<D>>>::empty());
        assert(u[0] == Some(x));
        assert(slot_actives(u) =~= slot_actives(s).update(0, x));
    } else {
        lemma_slot_actives_update(s.drop_first(), i - 1, x);
        assert(u.drop_first() =~= s.drop_first().update(i - 1, Some(x)));
        assert(u[0] == s[0]);
        assert(s.take(i)[0] == s[0]);
        assert(s.take(i).drop_first() =~= s.drop_first().take(i - 1));
        let k0 = slot_actives(s.drop_first().take(i - 1)).len() as int;
        match s[0] {
            Some(n0) => {
                assert(slot_actives(s.take(i)) =~= seq![n0] + slot_actives(
                    s.drop_first().take(i - 1),
                ));
                assert(slot_actives(u) =~= slot_actives(s).update(1 + k0, x));
            },
            None => {
                assert(slot_actives(s.take(i)) =~= slot_actives(s.drop_first().take(i - 1)));
                assert(slot_actives(u) =~= slot_actives(s).update(k0, x));
            },
        }
    }
}

/// One voice after its buffer run: a silent buffer grows the running
/// silent-sample count by the buffer's length; any audible sample resets
/// it to zero.
pub open spec fn with_silence<D>(
    n: CompleteNoteData<D>,
    silent: bool,
    buffer_len: usize,
) -> CompleteNoteData<D> {
    CompleteNoteData {
        silent_samples: if silent {
            spec_sat_add_usize(n.silent_samples, buffer_len)
        } else {
            0
        },
        ..n
    }
}

impl<D> NoteTracker<D> {
    /// Where the `k`-th active voice lives: a held slot, or a position in
    /// the decaying list.
    #[verifier::loop_isolation(false)]
    fn locate_active(&self, k: usize) -> (r: (bool, usize))
        requires
            self.wf(),
            (k as int) < self.active_seq().len(),
        ensures
            ({
                let h = self.held_actives();
                if r.0 {
                    &&& r.1 < NUM_MIDI_NOTES
                    &&& (k as int) < h.len()
                    &&& self.held_notes@[r.1 as int] is Some
                    &&& slot_actives(self.held_notes@.take(r.1 as int)).len() == k as int
                    &&& self.held_notes@[r.1 as int].unwrap() == h[k as int]
                } else {
                    &&& (k as int) >= h.len()
                    &&& r.1 as int == k - h.len()
                    &&& (r.1 as int) < self.decaying_notes@.len()
                }
            }),
    {
        let ghost s = self.held_notes@;
        let ghost h = self.held_actives();
        let mut index: usize = 0;
        let mut i: usize = 0;
        while i < NUM_MIDI_NOTES
            invariant
                i <= NUM_MIDI_NOTES,
                index <= k,
                index == slot_actives(s.take(i as int)).len(),
            decreases NUM_MIDI_NOTES - i,
        {
            proof {
                lemma_slot_actives_take_step(s, i as int);
                lemma_slot_actives_take_prefix(s, i as int);
                lemma_slot_actives_take_prefix(s, i as int + 1);
                lemma_slot_actives_len_le(s);
            }
            if self.held_notes[i].is_some() {
                proof {
                    assert(slot_actives(s.take(i as int + 1)) =~= slot_actives(
                        s.take(i as int),
                    ).push(s[i as int].unwrap()));
                    assert(h.take(index as int + 1)[index as int] == h[index as int]);
                    assert(h[index as int] == s[i as int].unwrap());
                }
                if index == k {
                    return (true, i);
                }
                index = index + 1;
            }
            i = i + 1;
        }
        proof {
            assert(s.take(NUM_MIDI_NOTES as int) =~= s);
        }
        (false, k - index)
    }

    /// How many voices are active, held and decaying together.
    #[verifier::loop_isolation(false)]
    pub fn active_count(&self) -> (r: usize)
        requires
            self.wf(),
            self.active_seq().len() <= usize::MAX,
        ensures
            r as int == self.active_seq().len(),
    {
        let ghost s = self.held_notes@;
        let mut count: usize = 0;
        let mut i: usize = 0;
        while i < NUM_MIDI_NOTES
            invariant
                i <= NUM_MIDI_NOTES,
                count == slot_actives(s.take(i as int)).len(),
                count <= i,
            decreases NUM_MIDI_NOTES - i,
        {
            proof {
                lemma_slot_actives_take_step(s, i as int);
            }
            if self.held_notes[i].is_some() {
                count = count + 1;
            }
            i = i + 1;
        }
        proof {
            assert(s.take(NUM_MIDI_NOTES as int) =~= s);
        }
        count + self.decaying_notes.len()
    }

    /// The program inputs of the `k`-th active voice, in held-then-decaying
    /// enumeration order.
    pub fn active_note_data(&self, k: usize) -> (r: NoteData)
        requires
            self.wf(),
            (k as int) < self.active_seq().len(),
        ensures
            r == self.active_seq()[k as int].input_data,
    {
        let (in_held, i) = self.locate_active(k);
        if in_held {
            match &self.held_notes[i] {
                Some(n) => n.input_data,
                None => {
                    proof {
                        assert(false);
                    }
                    NoteData {
                        pitch: 0,
                        velocity: 0,
                        elapsed_samples: 0,
                        elapsed_beat_units: 0,
                        start_trigger: false,
                        release_trigger: false,
                    }
                },
            }
        } else {
            self.decaying_notes[i].input_data
        }
    }

    /// The persistent program memory of the `k`-th active voice.
    pub fn active_static(&self, k: usize) -> (r: &D)
        requires
            self.wf(),
            (k as int) < self.active_seq().len(),
        ensures
            r == self.active_seq()[k as int].static_data,
    {
        let (in_held, i) = self.locate_active(k);
        if in_held {
            match &self.held_notes[i] {
                Some(n) => &n.static_data,
                None => {
                    proof {
                        assert(false);
                    }
                    &self.decaying_notes[0].static_data
                },
            }
        } else {
            &self.decaying_notes[i].static_data
        }
    }

    /// Records whether the `k`-th active voice's buffer came out entirely
    /// silent, growing or resetting its running silent-sample count.
    pub fn set_voice_silence(&mut self, k: usize, silent: bool)
        requires
            old(self).wf(),
            (k as int) < old(self).active_seq().len(),
        ensures
            final(self).wf(),
            final(self).data_format == old(self).data_format,
            final(self).held_actives().len() == old(self).held_actives().len(),
            final(self).decaying_notes@.len() == old(self).decaying_notes@.len(),
            final(self).active_seq() == old(self).active_seq().update(
                k as int,
                with_silence(
                    old(self).active_seq()[k as int],
                    silent,
                    old(self).data_format.buffer_len,
                ),
            ),
    {
        let buffer_len = self.data_format.buffer_len;
        let (in_held, i) = self.locate_active(k);
        if in_held {
            let slot = self.held_notes.remove(i);
            match slot {
                Some(mut n) => {
                    if silent {
                        n.silent_samples = sat_add_usize(n.silent_samples, buffer_len);
                    } else {
                        n.silent_samples = 0;
                    }
                    self.held_notes.insert(i, Some(n));
                    proof {
                        assert(self.held_notes@ =~= old(self).held_notes@.update(
                            i as int,
                            Some(n),
                        ));
                        lemma_slot_actives_update(old(self).held_notes@, i as int, n);
                        assert(self.active_seq() =~= old(self).active_seq().update(
                            k as int,
                            with_silence(
                                old(self).active_seq()[k as int],
                                silent,
                                buffer_len,
                            ),
                        ));
                    }
                },
                None => {
                    proof {
                        assert(false);
                    }
                    self.held_notes.insert(i, None);
                },
            }
        } else {
            let mut n = self.decaying_notes.remove(i);
            if silent {
                n.silent_samples = sat_add_usize(n.silent_samples, buffer_len);
            } else {
                n.silent_samples = 0;
            }
            self.decaying_notes.insert(i, n);
            proof {
                assert(self.decaying_notes@ =~= old(self).decaying_notes@.update(i as int, n));
                assert(self.active_seq() =~= old(self).active_seq().update(
                    k as int,
                    with_silence(old(self).active_seq()[k as int], silent, buffer_len),
                ));
            }
        }
    }
}

/// Playback context the host refreshes every buffer; the song position is
/// exact integer bookkeeping, in samples and in the caller's beat units.
#[derive(Clone, Copy, Debug, PartialEq, Eq, Structural)]
pub struct HostData {
    /// Tempo in thousandths of a beat per minute.
    pub millibpm: u32,
    pub song_time_samples: u64,
    pub song_beat_units: u64,
}

impl HostData {
    pub fn new(millibpm: u32) -> (r: HostData)
        ensures
            r == (HostData { millibpm, song_time_samples: 0, song_beat_units: 0 }),
    {
        HostData { millibpm, song_time_samples: 0, song_beat_units: 0 }
    }

    /// Once per buffer: the song moves forward by exactly one buffer of
    /// audio, and by the buffer's worth of beats.
    pub fn advance(&mut self, buffer_len: usize, beat_units: u64)
        ensures
            final(self).millibpm == old(self).millibpm,
            final(self).song_time_samples == spec_sat_add_u64(
                old(self).song_time_samples,
                buffer_len as u64,
            ),
            final(self).song_beat_units == spec_sat_add_u64(old(self).song_beat_units, beat_units),
    {
        self.song_time_samples = sat_add_u64(self.song_time_samples, buffer_len as u64);
        self.song_beat_units = sat_add_u64(self.song_beat_units, beat_units);
    }
}

} // verus!
