//! The timing-mode selector: two string-valued controls choose the timing
//! source (note or song) and the timing type (seconds or beats).
//!
//! The discrete settings are encoded as the strings "TRUE" and "FALSE" in
//! the controls, which is also how they persist; the widget chrome around
//! this logic (icons, geometry, drawing) lives with the GUI, which hands in
//! only which half of the widget was pressed.

use crate::bytes::bytes_eq;
use crate::graph::ComplexControl;
use vstd::prelude::*;

verus! {

/// The byte encoding of an enabled discrete setting.
pub open spec fn true_bytes() -> Seq<u8> {
    seq![84u8, 82u8, 85u8, 69u8]
}

/// The byte encoding of a disabled discrete setting.
pub open spec fn false_bytes() -> Seq<u8> {
    seq![70u8, 65u8, 76u8, 83u8, 69u8]
}

pub fn make_true_bytes() -> (r: Vec<u8>)
    ensures
        r@ == true_bytes(),
{
    let mut v: Vec<u8> = Vec::new();
    v.push(84);
    v.push(82);
    v.push(85);
    v.push(69);
    proof {
        assert(v@ =~= true_bytes());
    }
    v
}

pub fn make_false_bytes() -> (r: Vec<u8>)
    ensures
        r@ == false_bytes(),
{
    let mut v: Vec<u8> = Vec::new();
    v.push(70);
    v.push(65);
    v.push(76);
    v.push(83);
    v.push(69);
    proof {
        assert(v@ =~= false_bytes());
    }
    v
}

/// What a press asks the editor to do: store a new string into the timing
/// source control, or into the timing type control.
pub enum TimingAction {
    SetSource(Vec<u8>),
    SetType(Vec<u8>),
}

/// The selector over its two discrete controls.
pub struct TimingSelector {
    pub source_control: ComplexControl,
    pub type_control: ComplexControl,
}

impl TimingSelector {
    pub fn create(source_control: ComplexControl, type_control: ComplexControl) -> (r:
        TimingSelector)
        ensures
            r.source_control@ == source_control@,
            r.type_control@ == type_control@,
    {
        TimingSelector { source_control, type_control }
    }

    /// Whether the timing source is the song rather than the note.
    pub fn source_value(&self) -> (r: bool)
        ensures
            r <==> self.source_control@ == true_bytes(),
    {
        let t = make_true_bytes();
        bytes_eq(&self.source_control.value, &t)
    }

    /// Whether the timing type is beats rather than seconds.
    pub fn type_value(&self) -> (r: bool)
        ensures
            r <==> self.type_control@ == true_bytes(),
    {
        let t = make_true_bytes();
        bytes_eq(&self.type_control.value, &t)
    }

    /// A press on the left half toggles the timing source; one on the right
    /// half toggles the timing type.
    pub fn respond_to_mouse_press(&self, left_half: bool) -> (r: TimingAction)
        ensures
            left_half ==> (r matches TimingAction::SetSource(v) && v@ == (
            if self.source_control@ == true_bytes() {
                false_bytes()
            } else {
                true_bytes()
            })),
            !left_half ==> (r matches TimingAction::SetType(v) && v@ == (
            if self.type_control@ == true_bytes() {
                false_bytes()
            } else {
                true_bytes()
            })),
    {
        if left_half {
            if self.source_value() {
                TimingAction::SetSource(make_false_bytes())
            } else {
                TimingAction::SetSource(make_true_bytes())
            }
        } else {
            if self.type_value() {
                TimingAction::SetType(make_false_bytes())
            } else {
                TimingAction::SetType(make_true_bytes())
            }
        }
    }

    /// The tooltip for the half of the widget under the pointer, naming the
    /// current value.
    pub fn get_tooltip_at(&self, left_half: bool) -> (r: &'static str)
        ensures
            left_half && self.source_control@ == true_bytes() ==> r@ == (
            "Change timing source, current value is \"song\"")@,
            left_half && self.source_control@ != true_bytes() ==> r@ == (
            "Change timing source, current value is \"note\"")@,
            !left_half && self.type_control@ == true_bytes() ==> r@ == (
            "Change timing type, current value is \"beats\"")@,
            !left_half && self.type_control@ != true_bytes() ==> r@ == (
            "Change timing type, current value is \"seconds\"")@,
    {
        if left_half {
            if self.source_value() {
                "Change timing source, current value is \"song\""
            } else {
                "Change timing source, current value is \"note\""
            }
        } else {
            if self.type_value() {
                "Change timing type, current value is \"beats\""
            } else {
                "Change timing type, current value is \"seconds\""
            }
        }
    }
}

} // verus!
