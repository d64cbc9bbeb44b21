use vstd::prelude::*;

use crate::routing::{Input, InputSlot, InputSlots, SpectralInputSlot};

verus! {

/// The last of `inputs` of type `t`: modules take an input's sources from the
/// last entry of its type they are handed.
pub open spec fn last_of_type(inputs: Seq<InputSlots>, t: Input) -> Option<InputSlots>
    decreases inputs.len(),
{
    if inputs.len() == 0 {
        None
    } else if inputs.last().input_type == t {
        Some(inputs.last())
    } else {
        last_of_type(inputs.drop_last(), t)
    }
}

/// The sources of input `t`: those of its last entry, none without one.
pub open spec fn sources_for(inputs: Seq<InputSlots>, t: Input) -> Seq<InputSlot> {
    match last_of_type(inputs, t) {
        Some(s) => s.slots@,
        None => Seq::empty(),
    }
}

/// The slot of the first source of input `t`, for inputs read directly.
pub open spec fn first_source_for(inputs: Seq<InputSlots>, t: Input) -> Option<usize> {
    match last_of_type(inputs, t) {
        Some(s) => if s.slots@.len() > 0 {
            Some(s.slots@[0].src_slot)
        } else {
            None
        },
        None => None,
    }
}

/// The slot of the last spectral input of type `t`.
pub open spec fn spectral_slot_for(spectral_inputs: Seq<SpectralInputSlot>, t: Input) -> Option<usize>
    decreases spectral_inputs.len(),
{
    if spectral_inputs.len() == 0 {
        None
    } else if spectral_inputs.last().input_type == t {
        Some(spectral_inputs.last().slot)
    } else {
        spectral_slot_for(spectral_inputs.drop_last(), t)
    }
}

/// A copy of `s`.
pub fn copy_slots(s: &InputSlots) -> (r: InputSlots)
    ensures
        r.input_type == s.input_type,
        r.slots@ == s.slots@,
{
    let mut slots: Vec<InputSlot> = Vec::new();
    let mut i: usize = 0;
    while i < s.slots.len()
        invariant
            i <= s.slots@.len(),
            slots@ == s.slots@.take(i as int),
        decreases s.slots@.len() - i,
    {
        slots.push(s.slots[i]);
        proof {
            assert(s.slots@.take(i + 1) =~= s.slots@.take(i as int).push(s.slots@[i as int]));
        }
        i = i + 1;
    }
    proof {
        assert(s.slots@.take(s.slots@.len() as int) =~= s.slots@);
    }
    InputSlots { input_type: s.input_type, slots }
}

/// The sources of input `t` among `inputs`.
pub fn slots_for(inputs: &[InputSlots], t: Input) -> (r: InputSlots)
    ensures
        r.input_type == t,
        r.slots@ == sources_for(inputs@, t),
{
    let mut r = InputSlots::new(t);
    let mut i: usize = 0;
    while i < inputs.len()
        invariant
            i <= inputs@.len(),
            r.input_type == t,
            r.slots@ == sources_for(inputs@.take(i as int), t),
        decreases inputs@.len() - i,
    {
        proof {
            assert(inputs@.take(i + 1).drop_last() =~= inputs@.take(i as int));
        }
        if inputs[i].input_type == t {
            r = copy_slots(&inputs[i]);
        }
        i = i + 1;
    }
    proof {
        assert(inputs@.take(inputs@.len() as int) =~= inputs@);
    }
    r
}

/// The slot of the first source of input `t` among `inputs`.
pub fn first_source_slot(inputs: &[InputSlots], t: Input) -> (r: Option<usize>)
    ensures
        r == first_source_for(inputs@, t),
{
    let mut r: Option<usize> = None;
    let mut i: usize = 0;
    while i < inputs.len()
        invariant
            i <= inputs@.len(),
            r == first_source_for(inputs@.take(i as int), t),
        decreases inputs@.len() - i,
    {
        proof {
            assert(inputs@.take(i + 1).drop_last() =~= inputs@.take(i as int));
        }
        if inputs[i].input_type == t {
            r = inputs[i].first_slot();
        }
        i = i + 1;
    }
    proof {
        assert(inputs@.take(inputs@.len() as int) =~= inputs@);
    }
    r
}

/// The slot of spectral input `t` among `spectral_inputs`.
pub fn spectral_slot(spectral_inputs: &[SpectralInputSlot], t: Input) -> (r: Option<usize>)
    ensures
        r == spectral_slot_for(spectral_inputs@, t),
{
    let mut r: Option<usize> = None;
    let mut i: usize = 0;
    while i < spectral_inputs.len()
        invariant
            i <= spectral_inputs@.len(),
            r == spectral_slot_for(spectral_inputs@.take(i as int), t),
        decreases spectral_inputs@.len() - i,
    {
        proof {
            assert(spectral_inputs@.take(i + 1).drop_last() =~= spectral_inputs@.take(i as int));
        }
        if spectral_inputs[i].input_type == t {
            r = Some(spectral_inputs[i].slot);
        }
        i = i + 1;
    }
    proof {
        assert(spectral_inputs@.take(spectral_inputs@.len() as int) =~= spectral_inputs@);
    }
    r
}

} // verus!
