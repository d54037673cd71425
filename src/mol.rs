//! The molecule: atoms, bonds and the projection that frames them, built once
//! from a structure text and never changed.

use crate::atoms::{atoms_of, extract_atoms, max_extent, Atom};
use crate::bonds::{
    bond_error, bond_of, bond_records, extract_bonds, Bond, BondRecord, BondSettings, ParseError,
};
use crate::geometry::COORD_LIMIT;
use vstd::prelude::*;
use vstd::string::StringSliceAdditionalSpecFns;

verus! {

/// Room given to each atom, in tenths: positions are drawn this many times
/// apart.
pub const ATOM_SPACING_TENTHS: i64 = 45;

/// Margin around the molecule, in tenths of its extent.
pub const MARGIN_TENTHS: i64 = 20;

/// A symmetric orthographic projection: the box from `-half_extent` to
/// `half_extent` on each axis, in billionths. A renderer builds the matrix
/// from it (right-handed, with OpenGL's clip-space depth range).
#[derive(Clone, Copy, Debug, PartialEq, Eq, Structural)]
pub struct Projection {
    pub half_extent: i64,
}

pub open spec fn half_extent_of(size: int) -> int {
    size * ATOM_SPACING_TENTHS * MARGIN_TENTHS / 100
}

/// The projection that frames a molecule whose largest absolute coordinate is
/// `max_abs`; it is empty where `max_abs` is 0.
pub fn project(max_abs: i64) -> (r: Projection)
    requires
        0 <= max_abs < COORD_LIMIT,
    ensures
        r.half_extent == half_extent_of(max_abs as int),
{
    Projection { half_extent: max_abs * ATOM_SPACING_TENTHS * MARGIN_TENTHS / 100 }
}

/// What a molecule holds.
pub struct MolView {
    pub atoms: Seq<Atom>,
    pub bonds: Seq<Bond>,
    pub bounding_size: int,
    pub projection: Projection,
    pub settings: BondSettings,
}

/// The molecule that a text describes, or the error of its first bad bond
/// record.
pub open spec fn molecule_of(s: Seq<u8>, settings: BondSettings) -> Result<MolView, ParseError> {
    let atoms = atoms_of(s);
    let records = bond_records(s, 0);
    match bond_error(records, atoms.len()) {
        Some(e) => Err(e),
        None => Ok(
            MolView {
                atoms,
                bonds: records.map_values(|r: BondRecord| bond_of(atoms, r, settings)),
                bounding_size: max_extent(atoms),
                projection: Projection { half_extent: half_extent_of(max_extent(atoms)) as i64 },
                settings,
            },
        ),
    }
}

/// A molecule: its atoms in the order of their records (a bond's indices point
/// into this sequence), its bonds in the order of their records, and the
/// largest absolute atom coordinate with the projection sized by it.
pub struct Mol {
    atoms: Vec<Atom>,
    bonds: Vec<Bond>,
    bounding_size: i64,
    bounding_projection: Projection,
    settings: BondSettings,
}

impl View for Mol {
    type V = MolView;

    closed spec fn view(&self) -> MolView {
        MolView {
            atoms: self.atoms@,
            bonds: self.bonds@,
            bounding_size: self.bounding_size as int,
            projection: self.bounding_projection,
            settings: self.settings,
        }
    }
}

impl Mol {
    /// Reads a structure text given as bytes.
    pub fn from_bytes(text: &[u8], settings: BondSettings) -> (r: Result<Mol, ParseError>)
        ensures
            match r {
                Ok(m) => molecule_of(text@, settings) == Ok::<MolView, ParseError>(m@),
                Err(e) => molecule_of(text@, settings) == Err::<MolView, ParseError>(e),
            },
    {
        let (atoms, bounding_size) = extract_atoms(text);
        let bonds = match extract_bonds(text, atoms.as_slice(), settings) {
            Ok(b) => b,
            Err(e) => return Err(e),
        };
        let bounding_projection = project(bounding_size);
        let m = Mol { atoms, bonds, bounding_size, bounding_projection, settings };
        proof {
            assert(m@ == molecule_of(text@, settings)->Ok_0);
        }
        Ok(m)
    }

    /// Reads a structure text.
    pub fn from_str(text: &str, settings: BondSettings) -> (r: Result<Mol, ParseError>)
        ensures
            match r {
                Ok(m) => molecule_of(text.spec_bytes(), settings) == Ok::<MolView, ParseError>(m@),
                Err(e) => molecule_of(text.spec_bytes(), settings) == Err::<MolView, ParseError>(e),
            },
    {
        Mol::from_bytes(text.as_bytes(), settings)
    }

    pub fn atoms(&self) -> (r: &[Atom])
        ensures
            r@ == self@.atoms,
    {
        self.atoms.as_slice()
    }

    pub fn bonds(&self) -> (r: &[Bond])
        ensures
            r@ == self@.bonds,
    {
        self.bonds.as_slice()
    }

    /// The largest absolute coordinate over all atoms, in billionths.
    pub fn bounding_size(&self) -> (r: i64)
        ensures
            r == self@.bounding_size,
    {
        self.bounding_size
    }

    pub fn bounding_projection(&self) -> (r: Projection)
        ensures
            r == self@.projection,
    {
        self.bounding_projection
    }

    pub fn settings(&self) -> (r: BondSettings)
        ensures
            r == self@.settings,
    {
        self.settings
    }
}

} // verus!
