//! Particle kinds and the table of their mutual affinities.

use vstd::prelude::*;
use rand::rngs::ThreadRng;
use crate::helpers::{is_draw, rand_map};

verus! {

/// Number of particle kinds.
pub const KINDS: usize = 5;

/// Largest absolute value of an affinity coefficient: two whole units.
pub const MAX_AFFINITY: i64 = 131072;

/// The kind of a particle. It never changes once the particle exists.
#[derive(Debug, Clone, Copy, PartialEq, Eq, Structural)]
pub enum ParticleKind {
    One,
    Two,
    Three,
    Four,
    Five,
}

impl ParticleKind {
    /// Position of the kind in the enumeration, from zero.
    pub open spec fn index_spec(self) -> int {
        match self {
            ParticleKind::One => 0,
            ParticleKind::Two => 1,
            ParticleKind::Three => 2,
            ParticleKind::Four => 3,
            ParticleKind::Five => 4,
        }
    }

    /// Position of the kind in the enumeration, from zero.
    pub fn index(self) -> (i: usize)
        ensures
            i == self.index_spec(),
            i < KINDS,
    {
        match self {
            ParticleKind::One => 0,
            ParticleKind::Two => 1,
            ParticleKind::Three => 2,
            ParticleKind::Four => 3,
            ParticleKind::Five => 4,
        }
    }

    /// Every kind, in the order of the enumeration.
    pub fn all() -> (kinds: [ParticleKind; 5])
        ensures
            forall|k: ParticleKind| kinds@[k.index_spec()] == k,
    {
        [
            ParticleKind::One,
            ParticleKind::Two,
            ParticleKind::Three,
            ParticleKind::Four,
            ParticleKind::Five,
        ]
    }

    /// The coefficient by which a particle of kind `self` is drawn towards
    /// one of kind `other`.
    pub fn attraction(&self, other: &Self, table: &AffinityTable) -> (c: i64)
        requires
            table.wf(),
        ensures
            c == table.coefficient(*self, *other),
            -MAX_AFFINITY <= c <= MAX_AFFINITY,
    {
        let idx = self.index() * KINDS + other.index();
        table.coefficients[idx]
    }
}

/// One signed coefficient for each ordered pair of kinds, row by row: the
/// row is the kind of the particle that is moved. The table need not be
/// symmetric.
pub struct AffinityTable {
    coefficients: Vec<i64>,
}

impl View for AffinityTable {
    type V = Seq<i64>;

    closed spec fn view(&self) -> Seq<i64> {
        self.coefficients@
    }
}

/// Whether `coefficients` can fill a table: one entry for each ordered pair
/// of kinds, none beyond [`MAX_AFFINITY`] in absolute value.
pub open spec fn fills_table(coefficients: Seq<i64>) -> bool {
    &&& coefficients.len() == KINDS * KINDS
    &&& forall|i: int|
        0 <= i < coefficients.len() ==> -MAX_AFFINITY <= #[trigger] coefficients[i] <= MAX_AFFINITY
}

/// The entry of `table` for a particle of kind `own` next to one of kind
/// `other`.
pub open spec fn coefficient_in(table: Seq<i64>, own: ParticleKind, other: ParticleKind) -> int {
    table[own.index_spec() * KINDS + other.index_spec()] as int
}

impl AffinityTable {
    /// Whether the table is complete and every coefficient is in range.
    pub open spec fn wf(&self) -> bool {
        fills_table(self@)
    }

    /// The coefficient for a particle of kind `own` next to one of kind
    /// `other`.
    pub open spec fn coefficient(&self, own: ParticleKind, other: ParticleKind) -> int {
        coefficient_in(self@, own, other)
    }

    /// The table that holds `coefficients`, if they can fill one.
    pub fn new(coefficients: Vec<i64>) -> (table: Option<AffinityTable>)
        ensures
            table is Some <==> fills_table(coefficients@),
            table is Some ==> table->0@ == coefficients@ && table->0.wf(),
    {
        if coefficients.len() != KINDS * KINDS {
            return None;
        }
        let mut i: usize = 0;
        while i < coefficients.len()
            invariant
                i <= coefficients.len(),
                forall|j: int|
                    0 <= j < i ==> -MAX_AFFINITY <= #[trigger] coefficients@[j] <= MAX_AFFINITY,
            decreases coefficients.len() - i,
        {
            if coefficients[i] < -MAX_AFFINITY || coefficients[i] > MAX_AFFINITY {
                return None;
            }
            i += 1;
        }
        Some(AffinityTable { coefficients })
    }

    /// A table of coefficients drawn independently from `rng`, each between
    /// minus [`MAX_AFFINITY`] and [`MAX_AFFINITY`].
    pub fn generate(rng: &mut ThreadRng) -> (table: AffinityTable)
        ensures
            table.wf(),
            forall|i: int|
                0 <= i < table@.len() ==> is_draw(
                    #[trigger] table@[i] as int,
                    -MAX_AFFINITY as int,
                    MAX_AFFINITY as int,
                ),
    {
        let mut coefficients: Vec<i64> = Vec::new();
        while coefficients.len() < KINDS * KINDS
            invariant
                coefficients.len() <= KINDS * KINDS,
                forall|j: int|
                    0 <= j < coefficients.len() ==> -MAX_AFFINITY <= #[trigger] coefficients@[j]
                        <= MAX_AFFINITY,
                forall|j: int|
                    0 <= j < coefficients.len() ==> is_draw(
                        #[trigger] coefficients@[j] as int,
                        -MAX_AFFINITY as int,
                        MAX_AFFINITY as int,
                    ),
            decreases KINDS * KINDS - coefficients.len(),
        {
            let c = rand_map(rng, -MAX_AFFINITY, MAX_AFFINITY);
            coefficients.push(c);
        }
        AffinityTable { coefficients }
    }

    /// The coefficients, row by row.
    pub fn coefficients(&self) -> (all: &Vec<i64>)
        ensures
            all@ == self@,
    {
        &self.coefficients
    }
}

} // verus!
