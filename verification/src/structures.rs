use vstd::prelude::*;

verus! {

/// Coordinates are held as exact integers in units of 10^-3 angstrom
/// (milliangstrom), so every geometric comparison in this crate is exact
/// integer arithmetic.  `COORD_LIMIT` bounds each coordinate to 500
/// angstrom in magnitude; the bound is what keeps all derived products
/// (squared distances, plane normals, plane offsets) inside `i128`.
pub const COORD_LIMIT: i64 = 500_000;

/// Energies are held as exact integers in units of 10^-6 of the archive's
/// energy unit.  `ENERGY_LIMIT` bounds them so that differences of two
/// energies cannot overflow.
pub const ENERGY_LIMIT: i64 = 1_000_000_000_000_000;

/// Selects one of the three coordinate axes.
#[derive(Clone, Copy, PartialEq, Eq, Structural, Debug)]
pub enum CoordinateChoice {
    X,
    Y,
    Z,
}

/// An exact fixed-point position: (x, y, z) in milliangstrom.
#[derive(Clone, Copy, PartialEq, Eq, Structural, Debug)]
pub struct Coordinate(pub i64, pub i64, pub i64);

impl Coordinate {
    /// Each component is within the global coordinate bound.
    pub open spec fn in_bounds(self) -> bool {
        &&& -COORD_LIMIT <= self.0 <= COORD_LIMIT
        &&& -COORD_LIMIT <= self.1 <= COORD_LIMIT
        &&& -COORD_LIMIT <= self.2 <= COORD_LIMIT
    }
}

/// An atom: an element symbol plus an exact position.
#[derive(Clone, Debug)]
pub struct Atom {
    pub element: String,
    pub coordinate: Coordinate,
}

impl Atom {
    /// The atom's position is within the global coordinate bound.
    pub open spec fn wf(self) -> bool {
        self.coordinate.in_bounds()
    }

    /// Componentwise difference of two atom positions: the displacement
    /// vector from `rhs` to `self`.
    pub fn sub(&self, rhs: &Atom) -> (d: Coordinate)
        requires
            self.wf(),
            rhs.wf(),
        ensures
            d.0 == self.coordinate.0 - rhs.coordinate.0,
            d.1 == self.coordinate.1 - rhs.coordinate.1,
            d.2 == self.coordinate.2 - rhs.coordinate.2,
    {
        Coordinate(
            self.coordinate.0 - rhs.coordinate.0,
            self.coordinate.1 - rhs.coordinate.1,
            self.coordinate.2 - rhs.coordinate.2,
        )
    }
}

/// Cell parameters of one block: three lengths (milliangstrom) and three
/// angles (millidegree).
#[derive(Clone, Copy, PartialEq, Eq, Structural, Debug)]
pub struct CrystalInfo {
    pub x: i64,
    pub y: i64,
    pub z: i64,
    pub alpha: i64,
    pub beta: i64,
    pub gamma: i64,
}

impl CrystalInfo {
    /// Lengths are non-negative and bounded; angles lie in [0, 360) degrees.
    pub open spec fn wf(self) -> bool {
        &&& 0 <= self.x <= COORD_LIMIT
        &&& 0 <= self.y <= COORD_LIMIT
        &&& 0 <= self.z <= COORD_LIMIT
        &&& 0 <= self.alpha < 360_000
        &&& 0 <= self.beta < 360_000
        &&& 0 <= self.gamma < 360_000
    }
}

/// Copy an atom field by field; the copy equals the original exactly.
pub fn clone_atom(a: &Atom) -> (r: Atom)
    ensures
        r == a,
{
    Atom { element: a.element.clone(), coordinate: a.coordinate }
}

/// Copy an atom list element by element; the copy's contents equal the
/// original's exactly.
pub fn clone_atoms(atoms: &Vec<Atom>) -> (r: Vec<Atom>)
    ensures
        r@ == atoms@,
{
    let mut r: Vec<Atom> = Vec::new();
    let mut i: usize = 0;
    while i < atoms.len()
        invariant
            i <= atoms.len(),
            r@ =~= atoms@.subrange(0, i as int),
        decreases atoms.len() - i,
    {
        r.push(clone_atom(&atoms[i]));
        i = i + 1;
    }
    proof {
        assert(r@ =~= atoms@);
    }
    r
}

/// One structural snapshot: an ordered atom list plus its metadata.
#[derive(Clone, Debug)]
pub struct StructureBlock {
    /// Position of this block in the file it came from.
    pub number: u64,
    /// Energy of the snapshot, in 10^-6 energy units.
    pub energy: i64,
    pub symmetry: String,
    pub crystal: CrystalInfo,
    pub atoms: Vec<Atom>,
}

/// Two blocks hold the same data: every field agrees, the atom lists
/// element by element.
pub open spec fn same_block(x: StructureBlock, y: StructureBlock) -> bool {
    &&& x.number == y.number
    &&& x.energy == y.energy
    &&& x.symmetry == y.symmetry
    &&& x.crystal == y.crystal
    &&& x.atoms@ == y.atoms@
}

/// Copy a block field by field; the copy holds the same data.
pub fn clone_block(b: &StructureBlock) -> (r: StructureBlock)
    ensures
        same_block(r, *b),
{
    StructureBlock {
        number: b.number,
        energy: b.energy,
        symmetry: b.symmetry.clone(),
        crystal: b.crystal,
        atoms: clone_atoms(&b.atoms),
    }
}

impl StructureBlock {
    /// All atoms are in bounds and the energy is bounded.
    pub open spec fn wf(self) -> bool {
        &&& forall|i: int| 0 <= i < self.atoms@.len() ==> (#[trigger] self.atoms@[i]).wf()
        &&& -ENERGY_LIMIT <= self.energy <= ENERGY_LIMIT
    }

    /// Append an atom to the block.
    pub fn addatom(&mut self, atom: Atom)
        ensures
            final(self).atoms@ == old(self).atoms@.push(atom),
            final(self).number == old(self).number,
            final(self).energy == old(self).energy,
            final(self).symmetry == old(self).symmetry,
            final(self).crystal == old(self).crystal,
    {
        self.atoms.push(atom);
    }

    /// Replace the cell parameters of the block.
    pub fn set_crystal_info(&mut self, crystal_info: CrystalInfo)
        ensures
            final(self).crystal == crystal_info,
            final(self).atoms@ == old(self).atoms@,
            final(self).number == old(self).number,
            final(self).energy == old(self).energy,
            final(self).symmetry == old(self).symmetry,
    {
        self.crystal = crystal_info;
    }

    /// Scale all three cell lengths by `scale`, given in units of 10^-3
    /// (so 2000 doubles the cell).  Atoms and the other metadata are kept.
    pub fn expand_crystal(&self, scale: i64) -> (new_block: StructureBlock)
        requires
            self.crystal.wf(),
            0 <= scale <= 1_000_000,
        ensures
            new_block.crystal.x == self.crystal.x * scale / 1000,
            new_block.crystal.y == self.crystal.y * scale / 1000,
            new_block.crystal.z == self.crystal.z * scale / 1000,
            new_block.crystal.alpha == self.crystal.alpha,
            new_block.crystal.beta == self.crystal.beta,
            new_block.crystal.gamma == self.crystal.gamma,
            new_block.atoms@ == self.atoms@,
            new_block.number == self.number,
            new_block.energy == self.energy,
            new_block.symmetry == self.symmetry,
    {
        proof {
            lemma_scale_in_range(self.crystal.x, scale);
            lemma_scale_in_range(self.crystal.y, scale);
            lemma_scale_in_range(self.crystal.z, scale);
        }
        StructureBlock {
            number: self.number,
            energy: self.energy,
            symmetry: self.symmetry.clone(),
            crystal: CrystalInfo {
                x: self.crystal.x * scale / 1000,
                y: self.crystal.y * scale / 1000,
                z: self.crystal.z * scale / 1000,
                alpha: self.crystal.alpha,
                beta: self.crystal.beta,
                gamma: self.crystal.gamma,
            },
            atoms: clone_atoms(&self.atoms),
        }
    }

    /// Scale one cell length, chosen by `coordination`, by `scale` (units
    /// of 10^-3).  Everything else is kept.
    pub fn scale_crystal(&self, coordination: CoordinateChoice, scale: i64) -> (new_block:
        StructureBlock)
        requires
            self.crystal.wf(),
            0 <= scale <= 1_000_000,
        ensures
            new_block.crystal.x == (if coordination is X {
                self.crystal.x * scale / 1000
            } else {
                self.crystal.x as int
            }),
            new_block.crystal.y == (if coordination is Y {
                self.crystal.y * scale / 1000
            } else {
                self.crystal.y as int
            }),
            new_block.crystal.z == (if coordination is Z {
                self.crystal.z * scale / 1000
            } else {
                self.crystal.z as int
            }),
            new_block.crystal.alpha == self.crystal.alpha,
            new_block.crystal.beta == self.crystal.beta,
            new_block.crystal.gamma == self.crystal.gamma,
            new_block.atoms@ == self.atoms@,
            new_block.number == self.number,
            new_block.energy == self.energy,
            new_block.symmetry == self.symmetry,
    {
        proof {
            lemma_scale_in_range(self.crystal.x, scale);
            lemma_scale_in_range(self.crystal.y, scale);
            lemma_scale_in_range(self.crystal.z, scale);
        }
        let mut crystal = CrystalInfo {
            x: self.crystal.x,
            y: self.crystal.y,
            z: self.crystal.z,
            alpha: self.crystal.alpha,
            beta: self.crystal.beta,
            gamma: self.crystal.gamma,
        };
        match coordination {
            CoordinateChoice::X => {
                crystal.x = self.crystal.x * scale / 1000;
            },
            CoordinateChoice::Y => {
                crystal.y = self.crystal.y * scale / 1000;
            },
            CoordinateChoice::Z => {
                crystal.z = self.crystal.z * scale / 1000;
            },
        }
        StructureBlock {
            number: self.number,
            energy: self.energy,
            symmetry: self.symmetry.clone(),
            crystal,
            atoms: clone_atoms(&self.atoms),
        }
    }
}

/// A bounded cell length times a bounded scale stays inside `i64`.
proof fn lemma_scale_in_range(x: i64, scale: i64)
    by (nonlinear_arith)
    requires
        0 <= x <= COORD_LIMIT,
        0 <= scale <= 1_000_000,
    ensures
        0 <= x * scale <= 500_000_000_000,
{
}

} // verus!
