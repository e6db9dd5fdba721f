use vstd::prelude::*;

verus! {

/// An address `(layer, y, z)` names a parameter slot of a network with `n` units:
/// layer 0 is `(0, i, 0)` and layer 1 is `(1, 0, i)`, for a unit `i < n`.
pub open spec fn valid_address(n: nat, layer: nat, y: nat, z: nat) -> bool {
    (layer == 0 && z == 0 && y < n) || (layer == 1 && y == 0 && z < n)
}

/// The flat offset of a valid address: unit `i` of layer 0 sits at `i`,
/// unit `i` of layer 1 at `n + i`.
pub open spec fn offset_of(n: nat, layer: nat, y: nat, z: nat) -> nat {
    if layer == 0 {
        y
    } else {
        n + z
    }
}

/// Why a network or a training run cannot be set up.
#[derive(Debug, Clone, Copy, PartialEq, Eq, Structural)]
pub enum ConfigError {
    /// A network needs at least one unit.
    NoUnits,
    /// Twice the unit count must fit in `usize`.
    TooManyUnits,
    /// A batch holds at least one sample.
    NoBatchSize,
}

/// The shape of a network of `n` independent units: two layers of `n`
/// parameter slots each, `2 * n` slots in all.
pub struct Layout {
    units: usize,
}

impl View for Layout {
    type V = nat;

    /// The number of units.
    closed spec fn view(&self) -> nat {
        self.units as nat
    }
}

impl Layout {
    #[verifier::type_invariant]
    spec fn inv(self) -> bool {
        0 < self.units && self.units <= usize::MAX / 2
    }

    /// A layout of `units` units, refused when there are none or when
    /// `2 * units` slots cannot be counted in `usize`.
    pub fn new(units: usize) -> (r: Result<Layout, ConfigError>)
        ensures
            units == 0 ==> r == Err::<Layout, ConfigError>(ConfigError::NoUnits),
            units > usize::MAX / 2 ==> r == Err::<Layout, ConfigError>(ConfigError::TooManyUnits),
            0 < units <= usize::MAX / 2 ==> r is Ok && r->Ok_0@ == units as nat,
    {
        if units == 0 {
            Err(ConfigError::NoUnits)
        } else if units > usize::MAX / 2 {
            Err(ConfigError::TooManyUnits)
        } else {
            Ok(Layout { units })
        }
    }

    /// The number of units.
    pub fn units(&self) -> (r: usize)
        ensures
            r as nat == self@,
            0 < r,
    {
        proof { use_type_invariant(self); }
        self.units
    }

    /// The number of parameter slots, two per unit.
    pub fn slot_count(&self) -> (r: usize)
        ensures
            r as nat == 2 * self@,
    {
        proof { use_type_invariant(self); }
        self.units * 2
    }

    /// Whether `(layer, y, z)` is the address of a slot.
    pub fn is_valid(&self, layer: usize, y: usize, z: usize) -> (r: bool)
        ensures
            r == valid_address(self@, layer as nat, y as nat, z as nat),
    {
        (layer == 0 && z == 0 && y < self.units) || (layer == 1 && y == 0 && z < self.units)
    }

    /// The flat offset of the slot at `(layer, y, z)`.
    pub fn pt(&self, layer: usize, y: usize, z: usize) -> (r: usize)
        requires
            valid_address(self@, layer as nat, y as nat, z as nat),
        ensures
            r as nat == offset_of(self@, layer as nat, y as nat, z as nat),
            r < self.slot_count_spec(),
    {
        proof { use_type_invariant(self); }
        if layer == 0 {
            y
        } else {
            self.units + z
        }
    }

    /// The number of parameter slots, as a specification value.
    pub open spec fn slot_count_spec(&self) -> nat {
        2 * self@
    }
}

/// Every valid address resolves into `[0, 2n)`; layer 0 fills `[0, n)` and layer 1
/// fills `[n, 2n)`, so the layers never collide; distinct addresses get distinct
/// offsets; and each offset in `[0, 2n)` is hit: `i` by `(0, i, 0)` and `n + i`
/// by `(1, 0, i)`.
pub proof fn lemma_address_bijection(n: nat)
    ensures
        forall|layer: nat, y: nat, z: nat|
            #[trigger] valid_address(n, layer, y, z) ==> offset_of(n, layer, y, z) < 2 * n,
        forall|y: nat, z: nat|
            #[trigger] valid_address(n, 0, y, z) ==> offset_of(n, 0, y, z) < n,
        forall|y: nat, z: nat|
            #[trigger] valid_address(n, 1, y, z) ==> n <= offset_of(n, 1, y, z),
        forall|l1: nat, y1: nat, z1: nat, l2: nat, y2: nat, z2: nat|
            #[trigger] valid_address(n, l1, y1, z1) && #[trigger] valid_address(n, l2, y2, z2)
                && offset_of(n, l1, y1, z1) == offset_of(n, l2, y2, z2) ==> l1 == l2 && y1 == y2
                && z1 == z2,
        forall|i: nat|
            i < n ==> #[trigger] valid_address(n, 0, i, 0) && offset_of(n, 0, i, 0) == i,
        forall|i: nat|
            i < n ==> #[trigger] valid_address(n, 1, 0, i) && offset_of(n, 1, 0, i) == n + i,
{
}

} // verus!
