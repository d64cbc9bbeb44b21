use vstd::prelude::*;

use crate::routing::{DataType, InputSlot};

verus! {

/// The state of the output slots: for each samples slot whether it is in use
/// and at which rate (`Some(true)` for control rate), for each spectral slot
/// whether it is in use, and the free lists (the next slot handed out is last).
pub ghost struct ArenaModel {
    pub samples: Seq<Option<bool>>,
    pub spectral: Seq<bool>,
    pub free_samples: Seq<usize>,
    pub free_spectral: Seq<usize>,
}

/// The free lists name slots that exist.
pub open spec fn free_lists_in_range(m: ArenaModel) -> bool {
    &&& forall|i: int| 0 <= i < m.free_samples.len() ==> #[trigger] m.free_samples[i] < m.samples.len()
    &&& forall|i: int| 0 <= i < m.free_spectral.len() ==> #[trigger] m.free_spectral[i] < m.spectral.len()
}

/// The free lists hold exactly the slots not in use, each once.
pub open spec fn arena_consistent(m: ArenaModel) -> bool {
    &&& free_lists_in_range(m)
    &&& m.free_samples.no_duplicates()
    &&& m.free_spectral.no_duplicates()
    &&& forall|s: usize| (s < m.samples.len()) ==> (m.samples[s as int] is None <==> m.free_samples.contains(s))
    &&& forall|s: usize| (s < m.spectral.len()) ==> (!m.spectral[s as int] <==> m.free_spectral.contains(s))
}

/// Slot `slot` holds samples produced at control rate.
pub open spec fn is_control_slot(m: ArenaModel, slot: usize) -> bool {
    slot < m.samples.len() && m.samples[slot as int] == Some(true)
}

/// Slot `slot` holds samples (at either rate).
pub open spec fn is_samples_slot(m: ArenaModel, slot: usize) -> bool {
    slot < m.samples.len() && m.samples[slot as int] is Some
}

/// A source can be read as a control value: the source and its modulator, if
/// any, run at control rate.
pub open spec fn scalar_source_ok(m: ArenaModel, s: InputSlot) -> bool {
    &&& is_control_slot(m, s.src_slot)
    &&& (s.modulation_slot matches Some(mod_slot) ==> is_control_slot(m, mod_slot))
}

/// A source can be read as a buffer at the requested rate: any samples slot
/// for an audio-rate reader, control-rate slots for a control-rate reader.
pub open spec fn buffer_source_ok(m: ArenaModel, s: InputSlot, is_control: bool) -> bool {
    &&& if is_control { is_control_slot(m, s.src_slot) } else { is_samples_slot(m, s.src_slot) }
    &&& (s.modulation_slot matches Some(mod_slot) ==> if is_control {
        is_control_slot(m, mod_slot)
    } else {
        is_samples_slot(m, mod_slot)
    })
}

/// Handing out a samples slot at rate `is_control`: the last one given back,
/// else a new one at the end.
pub open spec fn allocate_samples_step(m: ArenaModel, is_control: bool) -> (ArenaModel, usize) {
    if m.free_samples.len() > 0 {
        let slot = m.free_samples.last();
        (
            ArenaModel {
                samples: m.samples.update(slot as int, Some(is_control)),
                free_samples: m.free_samples.drop_last(),
                ..m
            },
            slot,
        )
    } else {
        (ArenaModel { samples: m.samples.push(Some(is_control)), ..m }, m.samples.len() as usize)
    }
}

/// Handing out a spectral slot: the last one given back, else a new one at the end.
pub open spec fn allocate_spectral_step(m: ArenaModel) -> (ArenaModel, usize) {
    if m.free_spectral.len() > 0 {
        let slot = m.free_spectral.last();
        (
            ArenaModel {
                spectral: m.spectral.update(slot as int, true),
                free_spectral: m.free_spectral.drop_last(),
                ..m
            },
            slot,
        )
    } else {
        (ArenaModel { spectral: m.spectral.push(true), ..m }, m.spectral.len() as usize)
    }
}

/// Giving samples slot `slot` back.
pub open spec fn free_samples_step(m: ArenaModel, slot: usize) -> ArenaModel {
    ArenaModel {
        samples: m.samples.update(slot as int, None),
        free_samples: m.free_samples.push(slot),
        ..m
    }
}

/// Giving spectral slot `slot` back.
pub open spec fn free_spectral_step(m: ArenaModel, slot: usize) -> ArenaModel {
    ArenaModel {
        spectral: m.spectral.update(slot as int, false),
        free_spectral: m.free_spectral.push(slot),
        ..m
    }
}

/// Hands out and takes back the arena's output slots; a slot given back is
/// handed out again before a new one is made.
pub struct OutputsArena {
    samples: Vec<Option<bool>>,
    spectral: Vec<bool>,
    free_samples_slots: Vec<usize>,
    free_spectral_slots: Vec<usize>,
}

impl View for OutputsArena {
    type V = ArenaModel;

    closed spec fn view(&self) -> ArenaModel {
        ArenaModel {
            samples: self.samples@,
            spectral: self.spectral@,
            free_samples: self.free_samples_slots@,
            free_spectral: self.free_spectral_slots@,
        }
    }
}

impl OutputsArena {
    /// An arena without slots.
    pub fn new() -> (r: Self)
        ensures
            r@.samples.len() == 0,
            r@.spectral.len() == 0,
            r@.free_samples.len() == 0,
            r@.free_spectral.len() == 0,
            free_lists_in_range(r@),
            arena_consistent(r@),
    {
        Self {
            samples: Vec::new(),
            spectral: Vec::new(),
            free_samples_slots: Vec::new(),
            free_spectral_slots: Vec::new(),
        }
    }

    /// A samples slot for an output at control rate (`is_control`) or audio rate:
    /// the last one given back, else a new one.
    pub fn allocate_samples_slot(&mut self, is_control: bool) -> (slot: usize)
        requires
            free_lists_in_range(old(self)@),
            old(self)@.samples.len() < usize::MAX,
        ensures
            (final(self)@, slot) == allocate_samples_step(old(self)@, is_control),
            free_lists_in_range(final(self)@),
            arena_consistent(old(self)@) ==> arena_consistent(final(self)@),
            arena_consistent(old(self)@) ==> slot == old(self)@.samples.len() || old(self)@.samples[slot as int] is None,
    {
        let ghost m = self@;
        match self.free_samples_slots.pop() {
            Some(slot) => {
                proof {
                    assert(m.free_samples.contains(slot));
                }
                self.samples.set(slot, Some(is_control));
                proof {
                    if arena_consistent(m) {
                        lemma_pop_free(m.free_samples);
                        assert forall|x: usize| (x < self@.samples.len()) implies (self@.samples[x as int] is None
                            <==> self@.free_samples.contains(x)) by {
                            if x != slot {
                                assert(m.free_samples.contains(x) <==> self@.free_samples.contains(x));
                            }
                        }
                    }
                }
                slot
            },
            None => {
                self.samples.push(Some(is_control));
                proof {
                    if arena_consistent(m) {
                        assert forall|x: usize| (x < self@.samples.len()) implies (self@.samples[x as int] is None
                            <==> self@.free_samples.contains(x)) by {
                            if x < m.samples.len() {
                                assert(self@.samples[x as int] == m.samples[x as int]);
                            }
                        }
                    }
                }
                self.samples.len() - 1
            },
        }
    }

    /// A spectral slot: the last one given back, else a new one.
    pub fn allocate_spectral_slot(&mut self) -> (slot: usize)
        requires
            free_lists_in_range(old(self)@),
            old(self)@.spectral.len() < usize::MAX,
        ensures
            (final(self)@, slot) == allocate_spectral_step(old(self)@),
            free_lists_in_range(final(self)@),
            arena_consistent(old(self)@) ==> arena_consistent(final(self)@),
            arena_consistent(old(self)@) ==> slot == old(self)@.spectral.len() || !old(self)@.spectral[slot as int],
    {
        let ghost m = self@;
        match self.free_spectral_slots.pop() {
            Some(slot) => {
                proof {
                    assert(m.free_spectral.contains(slot));
                }
                self.spectral.set(slot, true);
                proof {
                    if arena_consistent(m) {
                        lemma_pop_free(m.free_spectral);
                        assert forall|x: usize| (x < self@.spectral.len()) implies (!self@.spectral[x as int]
                            <==> self@.free_spectral.contains(x)) by {
                            if x != slot {
                                assert(m.free_spectral.contains(x) <==> self@.free_spectral.contains(x));
                            }
                        }
                    }
                }
                slot
            },
            None => {
                self.spectral.push(true);
                proof {
                    if arena_consistent(m) {
                        assert forall|x: usize| (x < self@.spectral.len()) implies (!self@.spectral[x as int]
                            <==> self@.free_spectral.contains(x)) by {
                            if x < m.spectral.len() {
                                assert(self@.spectral[x as int] == m.spectral[x as int]);
                            }
                        }
                    }
                }
                self.spectral.len() - 1
            },
        }
    }

    /// Gives samples slot `slot` back.
    pub fn free_samples_slot(&mut self, slot: usize)
        requires
            free_lists_in_range(old(self)@),
            slot < old(self)@.samples.len(),
        ensures
            free_lists_in_range(final(self)@),
            arena_consistent(old(self)@) && old(self)@.samples[slot as int] is Some ==> arena_consistent(final(self)@),
            final(self)@ == free_samples_step(old(self)@, slot),
    {
        let ghost m = self@;
        self.samples.set(slot, None);
        self.free_samples_slots.push(slot);
        proof {
            if arena_consistent(m) && m.samples[slot as int] is Some {
                lemma_push_free(m.free_samples, slot);
                assert forall|x: usize| (x < self@.samples.len()) implies (self@.samples[x as int] is None
                    <==> self@.free_samples.contains(x)) by {
                    if x != slot {
                        assert(m.free_samples.contains(x) <==> self@.free_samples.contains(x));
                    } else {
                        assert(self@.free_samples[m.free_samples.len() as int] == slot);
                    }
                }
            }
        }
    }

    /// Gives spectral slot `slot` back.
    pub fn free_spectral_slot(&mut self, slot: usize)
        requires
            free_lists_in_range(old(self)@),
            slot < old(self)@.spectral.len(),
        ensures
            free_lists_in_range(final(self)@),
            arena_consistent(old(self)@) && old(self)@.spectral[slot as int] ==> arena_consistent(final(self)@),
            final(self)@ == free_spectral_step(old(self)@, slot),
    {
        let ghost m = self@;
        self.spectral.set(slot, false);
        self.free_spectral_slots.push(slot);
        proof {
            if arena_consistent(m) && m.spectral[slot as int] {
                lemma_push_free(m.free_spectral, slot);
                assert forall|x: usize| (x < self@.spectral.len()) implies (!self@.spectral[x as int]
                    <==> self@.free_spectral.contains(x)) by {
                    if x != slot {
                        assert(m.free_spectral.contains(x) <==> self@.free_spectral.contains(x));
                    } else {
                        assert(self@.free_spectral[m.free_spectral.len() as int] == slot);
                    }
                }
            }
        }
    }

    /// A slot for the output of a module producing `data_type`.
    pub fn allocate_slot(&mut self, data_type: DataType) -> (slot: usize)
        requires
            free_lists_in_range(old(self)@),
            old(self)@.samples.len() < usize::MAX,
            old(self)@.spectral.len() < usize::MAX,
        ensures
            data_type == DataType::Audio ==> (final(self)@, slot) == allocate_samples_step(old(self)@, false),
            data_type == DataType::Control ==> (final(self)@, slot) == allocate_samples_step(old(self)@, true),
            data_type == DataType::Spectral ==> (final(self)@, slot) == allocate_spectral_step(old(self)@),
            free_lists_in_range(final(self)@),
            arena_consistent(old(self)@) ==> arena_consistent(final(self)@),
    {
        match data_type {
            DataType::Audio => self.allocate_samples_slot(false),
            DataType::Control => self.allocate_samples_slot(true),
            DataType::Spectral => self.allocate_spectral_slot(),
        }
    }

    /// Gives back the output slot `slot` of a module producing `data_type`.
    pub fn free_slot(&mut self, data_type: DataType, slot: usize)
        requires
            free_lists_in_range(old(self)@),
            data_type == DataType::Spectral ==> slot < old(self)@.spectral.len(),
            data_type != DataType::Spectral ==> slot < old(self)@.samples.len(),
        ensures
            data_type == DataType::Spectral ==> final(self)@ == free_spectral_step(old(self)@, slot),
            data_type != DataType::Spectral ==> final(self)@ == free_samples_step(old(self)@, slot),
            free_lists_in_range(final(self)@),
    {
        match data_type {
            DataType::Audio | DataType::Control => self.free_samples_slot(slot),
            DataType::Spectral => self.free_spectral_slot(slot),
        }
    }

    /// Whether samples slot `slot` runs at control rate.
    pub fn is_control(&self, slot: usize) -> (r: bool)
        ensures
            r == is_control_slot(self@, slot),
    {
        slot < self.samples.len() && match self.samples[slot] {
            Some(is_control) => is_control,
            None => false,
        }
    }

    /// Whether samples slot `slot` is in use, at either rate.
    pub fn is_samples(&self, slot: usize) -> (r: bool)
        ensures
            r == is_samples_slot(self@, slot),
    {
        slot < self.samples.len() && self.samples[slot].is_some()
    }

    /// Whether every source can be read as a control value: each source and
    /// each modulator runs at control rate.
    pub fn can_read_scalar(&self, slots: &[InputSlot]) -> (r: bool)
        ensures
            r == forall|i: int| 0 <= i < slots@.len() ==> scalar_source_ok(self@, #[trigger] slots@[i]),
    {
        let mut i: usize = 0;
        while i < slots.len()
            invariant
                i <= slots@.len(),
                forall|j: int| 0 <= j < i ==> scalar_source_ok(self@, #[trigger] slots@[j]),
            decreases slots@.len() - i,
        {
            let s = slots[i];
            let modulator_ok = match s.modulation_slot {
                Some(mod_slot) => self.is_control(mod_slot),
                None => true,
            };
            if !self.is_control(s.src_slot) || !modulator_ok {
                assert(!scalar_source_ok(self@, slots@[i as int]));
                return false;
            }
            i = i + 1;
        }
        true
    }

    /// Whether every source can be read as a buffer by a reader at control rate
    /// (`is_control`) or at audio rate.
    pub fn can_read_buffer(&self, slots: &[InputSlot], is_control: bool) -> (r: bool)
        ensures
            r == forall|i: int| 0 <= i < slots@.len() ==> buffer_source_ok(self@, #[trigger] slots@[i], is_control),
    {
        let mut i: usize = 0;
        while i < slots.len()
            invariant
                i <= slots@.len(),
                forall|j: int| 0 <= j < i ==> buffer_source_ok(self@, #[trigger] slots@[j], is_control),
            decreases slots@.len() - i,
        {
            let s = slots[i];
            let src_ok = if is_control {
                self.is_control(s.src_slot)
            } else {
                self.is_samples(s.src_slot)
            };
            let modulator_ok = match s.modulation_slot {
                Some(mod_slot) => if is_control {
                    self.is_control(mod_slot)
                } else {
                    self.is_samples(mod_slot)
                },
                None => true,
            };
            if !src_ok || !modulator_ok {
                assert(!buffer_source_ok(self@, slots@[i as int], is_control));
                return false;
            }
            i = i + 1;
        }
        true
    }
}

/// A samples slot given back is the next one handed out, now at the new rate;
/// everything else is as before it was given back.
pub proof fn lemma_freed_slot_reused(m: ArenaModel, slot: usize, is_control: bool)
    requires
        slot < m.samples.len(),
    ensures
        allocate_samples_step(free_samples_step(m, slot), is_control) == (
            ArenaModel { samples: m.samples.update(slot as int, Some(is_control)), ..m },
            slot,
        ),
{
    let m1 = free_samples_step(m, slot);
    assert(m1.free_samples.drop_last() =~= m.free_samples);
    assert(m1.samples.update(slot as int, Some(is_control)) =~= m.samples.update(slot as int, Some(is_control)));
}

/// A slot that is handed out was not in use: two outputs never share a slot.
pub proof fn lemma_allocated_slot_was_free(m: ArenaModel, is_control: bool)
    requires
        arena_consistent(m),
        m.samples.len() < usize::MAX,
        m.spectral.len() < usize::MAX,
    ensures
        allocate_samples_step(m, is_control).1 == m.samples.len()
            || m.samples[allocate_samples_step(m, is_control).1 as int] is None,
        allocate_spectral_step(m).1 == m.spectral.len() || !m.spectral[allocate_spectral_step(m).1 as int],
{
    if m.free_samples.len() > 0 {
        let x = m.free_samples.last();
        assert(m.free_samples[m.free_samples.len() - 1] < m.samples.len());
        assert(m.free_samples.contains(x));
        assert(m.samples[x as int] is None <==> m.free_samples.contains(x));
    }
    if m.free_spectral.len() > 0 {
        let x = m.free_spectral.last();
        assert(m.free_spectral[m.free_spectral.len() - 1] < m.spectral.len());
        assert(m.free_spectral.contains(x));
        assert(!m.spectral[x as int] <==> m.free_spectral.contains(x));
    }
}

/// Samples slots handed out for the rates `rates`, one call after another:
/// the arena afterwards and the slots, in order.
pub open spec fn allocate_samples_each(m: ArenaModel, rates: Seq<bool>) -> (ArenaModel, Seq<usize>)
    decreases rates.len(),
{
    if rates.len() == 0 {
        (m, Seq::empty())
    } else {
        let (m1, slots) = allocate_samples_each(m, rates.drop_last());
        let (m2, slot) = allocate_samples_step(m1, rates.last());
        (m2, slots.push(slot))
    }
}

/// Spectral slots handed out by `count` calls, one after another: the arena
/// afterwards and the slots, in order.
pub open spec fn allocate_spectral_each(m: ArenaModel, count: nat) -> (ArenaModel, Seq<usize>)
    decreases count,
{
    if count == 0 {
        (m, Seq::empty())
    } else {
        let (m1, slots) = allocate_spectral_each(m, (count - 1) as nat);
        let (m2, slot) = allocate_spectral_step(m1);
        (m2, slots.push(slot))
    }
}

/// While no samples slot is given back, slots are handed out in order: from
/// an arena with `n` samples slots and none free (a fresh one has none), the
/// `k`-th call returns slot `n + k`, at the rate it asked for.
pub proof fn lemma_samples_slots_in_order(m: ArenaModel, rates: Seq<bool>)
    requires
        m.free_samples.len() == 0,
        m.samples.len() + rates.len() <= usize::MAX,
    ensures
        allocate_samples_each(m, rates).1.len() == rates.len(),
        forall|k: int| 0 <= k < rates.len() ==> #[trigger] allocate_samples_each(m, rates).1[k] == m.samples.len() + k,
        allocate_samples_each(m, rates).0.free_samples.len() == 0,
        allocate_samples_each(m, rates).0.samples == m.samples + rates.map_values(|r: bool| Some(r)),
        allocate_samples_each(m, rates).0.spectral == m.spectral,
        allocate_samples_each(m, rates).0.free_spectral == m.free_spectral,
    decreases rates.len(),
{
    if rates.len() > 0 {
        lemma_samples_slots_in_order(m, rates.drop_last());
        assert(rates.drop_last().map_values(|r: bool| Some(r)).push(Some(rates.last())) =~= rates.map_values(
            |r: bool| Some(r),
        ));
    } else {
        assert(m.samples + rates.map_values(|r: bool| Some(r)) =~= m.samples);
    }
}

/// While no spectral slot is given back, spectral slots are handed out in
/// order: from an arena with `n` spectral slots and none free, the `k`-th call
/// returns slot `n + k`.
pub proof fn lemma_spectral_slots_in_order(m: ArenaModel, count: nat)
    requires
        m.free_spectral.len() == 0,
        m.spectral.len() + count <= usize::MAX,
    ensures
        allocate_spectral_each(m, count).1.len() == count,
        forall|k: int| 0 <= k < count ==> #[trigger] allocate_spectral_each(m, count).1[k] == m.spectral.len() + k,
        allocate_spectral_each(m, count).0.free_spectral.len() == 0,
        allocate_spectral_each(m, count).0.spectral.len() == m.spectral.len() + count,
        allocate_spectral_each(m, count).0.samples == m.samples,
        allocate_spectral_each(m, count).0.free_samples == m.free_samples,
    decreases count,
{
    if count > 0 {
        lemma_spectral_slots_in_order(m, (count - 1) as nat);
    }
}

proof fn lemma_push_free(s: Seq<usize>, x: usize)
    requires
        s.no_duplicates(),
        !s.contains(x),
    ensures
        s.push(x).no_duplicates(),
        forall|y: usize| #[trigger] s.push(x).contains(y) <==> (s.contains(y) || y == x),
{
    assert forall|y: usize| #[trigger] s.push(x).contains(y) implies (s.contains(y) || y == x) by {
        let i = choose|i: int| 0 <= i < s.push(x).len() && s.push(x)[i] == y;
        if i < s.len() {
            assert(s[i] == y);
        }
    }
    assert forall|y: usize| (s.contains(y) || y == x) implies #[trigger] s.push(x).contains(y) by {
        if y == x {
            assert(s.push(x)[s.len() as int] == x);
        } else {
            let i = choose|i: int| 0 <= i < s.len() && s[i] == y;
            assert(s.push(x)[i] == y);
        }
    }
}

proof fn lemma_pop_free(s: Seq<usize>)
    requires
        s.len() > 0,
        s.no_duplicates(),
    ensures
        s.drop_last().no_duplicates(),
        !s.drop_last().contains(s.last()),
        forall|x: usize| #[trigger] s.contains(x) <==> (s.drop_last().contains(x) || x == s.last()),
{
    assert forall|x: usize| #[trigger] s.contains(x) implies (s.drop_last().contains(x) || x == s.last()) by {
        let i = choose|i: int| 0 <= i < s.len() && s[i] == x;
        if i < s.len() - 1 {
            assert(s.drop_last()[i] == x);
        }
    }
    assert forall|x: usize| s.drop_last().contains(x) implies #[trigger] s.contains(x) by {
        let i = choose|i: int| 0 <= i < s.drop_last().len() && s.drop_last()[i] == x;
        assert(s[i] == x);
    }
}

} // verus!
