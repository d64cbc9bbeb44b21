use vstd::prelude::*;

verus! {

/// MIDI note number for middle C (C4).
pub const C4_NOTE: u8 = 60;

/// Selects harmonics `add`, `add + mul`, `add + 2 * mul`, ... (or all
/// others when `inverted`).
pub struct NthElement {
    mul: isize,
    add: isize,
    inverted: bool,
}

/// Harmonic `h` is among `add, add + mul, add + 2 * mul, ...`
/// (for `mul == 0`: is `add`), flipped when `inverted`.
pub open spec fn nth_selects(mul: int, add: int, inverted: bool, h: int) -> bool {
    (if mul == 0 {
        h == add
    } else {
        exists|k: int| k >= 0 && #[trigger] (k * mul) == h - add
    }) != inverted
}

impl NthElement {
    pub closed spec fn spec_mul(&self) -> isize {
        self.mul
    }

    pub closed spec fn spec_add(&self) -> isize {
        self.add
    }

    pub closed spec fn spec_inverted(&self) -> bool {
        self.inverted
    }

    pub fn new(mul: isize, add: isize, inverted: bool) -> (r: Self)
        ensures
            r.spec_mul() == mul,
            r.spec_add() == add,
            r.spec_inverted() == inverted,
    {
        Self { mul, add, inverted }
    }

    /// Whether harmonic number `harmonic` is selected.
    pub fn matches(&self, harmonic: usize) -> (r: bool)
        requires
            isize::MIN <= (harmonic as isize) - self.spec_add() <= isize::MAX,
            !((harmonic as isize) - self.spec_add() == isize::MIN && self.spec_mul() == -1),
        ensures
            r == nth_selects(self.spec_mul() as int, self.spec_add() as int, self.spec_inverted(), (harmonic as isize) as int),
    {
        let harmonic = harmonic as isize;
        let result = if self.mul == 0 {
            harmonic == self.add
        } else {
            let diff = harmonic - self.add;
            // `diff % mul == 0 && diff / mul >= 0` with truncating division:
            // zero, or a multiple of `mul` with the same sign.
            if diff == 0 {
                proof {
                    assert(0 * (self.mul as int) == 0);
                }
                true
            } else if (diff > 0) == (self.mul > 0) {
                let d: u128 = if diff < 0 { (-(diff as i128)) as u128 } else { diff as u128 };
                let m: u128 = if self.mul < 0 { (-(self.mul as i128)) as u128 } else { self.mul as u128 };
                let r = d % m;
                proof {
                    lemma_same_sign_multiple(diff as int, self.mul as int, d as int, m as int);
                }
                r == 0
            } else {
                proof {
                    lemma_opposite_sign_not_multiple(diff as int, self.mul as int);
                }
                false
            }
        };
        result != self.inverted
    }
}

proof fn lemma_same_sign_multiple(d: int, m: int, ad: int, am: int)
    requires
        d != 0,
        m != 0,
        (d > 0) == (m > 0),
        ad == (if d < 0 { -d } else { d }),
        am == (if m < 0 { -m } else { m }),
    ensures
        (ad % am == 0) <==> exists|k: int| k >= 0 && #[trigger] (k * m) == d,
{
    if ad % am == 0 {
        let k = ad / am;
        vstd::arithmetic::div_mod::lemma_fundamental_div_mod(ad, am);
        assert(k * am == ad) by (nonlinear_arith)
            requires
                ad == am * (ad / am) + ad % am,
                ad % am == 0,
                k == ad / am,
        ;
        assert(k >= 0) by (nonlinear_arith)
            requires
                k * am == ad,
                am > 0,
                ad > 0,
        ;
        assert(k * m == d) by (nonlinear_arith)
            requires
                k * am == ad,
                ad == (if d < 0 { -d } else { d }),
                am == (if m < 0 { -m } else { m }),
                (d > 0) == (m > 0),
        ;
    }
    if exists|k: int| k >= 0 && #[trigger] (k * m) == d {
        let k = choose|k: int| k >= 0 && #[trigger] (k * m) == d;
        assert(k * am == ad) by (nonlinear_arith)
            requires
                k * m == d,
                ad == (if d < 0 { -d } else { d }),
                am == (if m < 0 { -m } else { m }),
                (d > 0) == (m > 0),
        ;
        vstd::arithmetic::div_mod::lemma_mod_multiples_basic(k, am);
    }
}

proof fn lemma_opposite_sign_not_multiple(d: int, m: int)
    requires
        d != 0,
        m != 0,
        (d > 0) != (m > 0),
    ensures
        !(exists|k: int| k >= 0 && #[trigger] (k * m) == d),
{
    if exists|k: int| k >= 0 && #[trigger] (k * m) == d {
        let k = choose|k: int| k >= 0 && #[trigger] (k * m) == d;
        assert(false) by (nonlinear_arith)
            requires
                k >= 0,
                k * m == d,
                d != 0,
                (d > 0) != (m > 0),
        ;
    }
}

} // verus!
