//! Bond records and bond resolution.
//!
//! A bond record is a whole line holding exactly four whitespace-separated
//! non-negative integers: the 1-based indices of the two atoms, the bond order,
//! and a column that is not used.

use crate::atoms::Atom;
use crate::element::{bond_color, neutral_bond_color, style_of, Color};
use crate::geometry::{
    diff, length_squared, norm2, offset, orientation, orientation_of, vector_of, Orientation,
    UpAxis, Vector3,
};
use crate::text::{
    blanks_end, digits_end, digits_value, digits_value_capped, lemma_blanks_end, lemma_digits_end,
    scan_blanks, scan_digits,
};
use vstd::prelude::*;

verus! {

/// How bonds are colored, chosen once per molecule.
#[derive(Clone, Copy, Debug, PartialEq, Eq, Structural)]
pub enum ColorPolicy {
    /// Each half of a bond takes the color of the atom at its end.
    TwoTone,
    /// Every bond takes one neutral color.
    Fixed,
}

/// The choices a molecule is built with: the bond color policy and the axis
/// along which the un-rotated bond mesh lies.
#[derive(Clone, Copy, Debug, PartialEq, Eq, Structural)]
pub struct BondSettings {
    pub colors: ColorPolicy,
    pub up: UpAxis,
}

/// The color of a bond: one per end, or one for the whole bond.
#[derive(Clone, Copy, Debug, PartialEq, Eq, Structural)]
pub enum BondColor {
    TwoTone { from: Color, to: Color },
    Fixed { color: Color },
}

/// A bond between two atoms of the same molecule, held by their 0-based
/// indices in its atom sequence.
#[derive(Clone, Copy, Debug, PartialEq, Eq, Structural)]
pub struct Bond {
    pub first: usize,
    pub second: usize,
    /// The anchor: the position of the first atom.
    pub position: Vector3,
    /// The offset from the first atom to the second.
    pub direction: Vector3,
    /// The squared length of `direction`, in squared billionths.
    pub length_squared: u128,
    /// The rotation that carries the up axis onto `direction`.
    pub rotation: Orientation,
    /// The bond order, as written.
    pub bond_type: u64,
    pub color: BondColor,
}

/// Why a text could not be read into a molecule.
#[derive(Clone, Copy, Debug, PartialEq, Eq, Structural)]
pub enum ParseError {
    /// The bond record at 0-based position `record` among the bond records
    /// names an atom index outside `1..=atom count`.
    DanglingBondReference { record: usize },
    /// No record dangles, and the bond order of the bond record at position
    /// `record` is the first that does not fit a `u64`. (Coordinates never
    /// fail: every matched coordinate has a value.)
    NumericParseFailure { record: usize },
}

/// The numbers of one bond record.
pub struct BondRecord {
    pub first: nat,
    pub second: nat,
    pub order: nat,
}

/// The index of the line break that ends the line starting at `i`, or the
/// length.
pub open spec fn line_end(s: Seq<u8>, i: int) -> int
    decreases s.len() - i,
{
    if 0 <= i < s.len() && s[i] != 10 {
        line_end(s, i + 1)
    } else {
        i
    }
}

/// The spans of the four numbers of a bond record on the line starting at
/// `i`: starts and ends, and where the trailing blanks end.
pub open spec fn bond_spans(s: Seq<u8>, i: int) -> Seq<int> {
    let a1 = blanks_end(s, i);
    let b1 = digits_end(s, a1);
    let a2 = blanks_end(s, b1);
    let b2 = digits_end(s, a2);
    let a3 = blanks_end(s, b2);
    let b3 = digits_end(s, a3);
    let a4 = blanks_end(s, b3);
    let b4 = digits_end(s, a4);
    seq![a1, b1, a2, b2, a3, b3, a4, b4, blanks_end(s, b4)]
}

/// The line starting at `i` is a bond record.
pub open spec fn is_bond_line(s: Seq<u8>, i: int) -> bool {
    let p = bond_spans(s, i);
    &&& p[1] > p[0]
    &&& p[2] > p[1]
    &&& p[3] > p[2]
    &&& p[4] > p[3]
    &&& p[5] > p[4]
    &&& p[6] > p[5]
    &&& p[7] > p[6]
    &&& p[8] == line_end(s, i)
}

pub open spec fn bond_record_at(s: Seq<u8>, i: int) -> BondRecord {
    let p = bond_spans(s, i);
    BondRecord {
        first: digits_value(s, p[0], p[1]),
        second: digits_value(s, p[2], p[3]),
        order: digits_value(s, p[4], p[5]),
    }
}

/// The bond records on the lines from the one starting at `i` on, in order.
pub open spec fn bond_records(s: Seq<u8>, i: int) -> Seq<BondRecord>
    decreases s.len() - i,
{
    if i < 0 || i > s.len() {
        seq![]
    } else {
        let e = line_end(s, i);
        let rest = if i <= e < s.len() {
            bond_records(s, e + 1)
        } else {
            seq![]
        };
        if is_bond_line(s, i) {
            seq![bond_record_at(s, i)] + rest
        } else {
            rest
        }
    }
}

/// The record names an atom index outside `1..=atom_count`.
pub open spec fn is_dangling(r: BondRecord, atom_count: nat) -> bool {
    r.first < 1 || r.first > atom_count || r.second < 1 || r.second > atom_count
}

/// The record's bond order does not fit a `u64`.
pub open spec fn order_overflows(r: BondRecord) -> bool {
    r.order > u64::MAX
}

/// The position of the first dangling record from position `k` on.
pub open spec fn first_dangling(records: Seq<BondRecord>, atom_count: nat, k: int) -> Option<int>
    decreases records.len() - k,
{
    if k < 0 || k >= records.len() {
        None
    } else if is_dangling(records[k], atom_count) {
        Some(k)
    } else {
        first_dangling(records, atom_count, k + 1)
    }
}

/// The position of the first record from position `k` on whose order does not
/// fit a `u64`.
pub open spec fn first_overflow(records: Seq<BondRecord>, k: int) -> Option<int>
    decreases records.len() - k,
{
    if k < 0 || k >= records.len() {
        None
    } else if order_overflows(records[k]) {
        Some(k)
    } else {
        first_overflow(records, k + 1)
    }
}

/// Why the bond records cannot be resolved: the first dangling record where
/// any record dangles, whatever the others hold; else the first record whose
/// order does not fit a `u64`; else nothing.
pub open spec fn bond_error(records: Seq<BondRecord>, atom_count: nat) -> Option<ParseError> {
    match first_dangling(records, atom_count, 0) {
        Some(k) => Some(ParseError::DanglingBondReference { record: k as usize }),
        None => match first_overflow(records, 0) {
            Some(k) => Some(ParseError::NumericParseFailure { record: k as usize }),
            None => None,
        },
    }
}

pub open spec fn bond_color_of(a: Atom, b: Atom, policy: ColorPolicy) -> BondColor {
    match policy {
        ColorPolicy::TwoTone => BondColor::TwoTone {
            from: style_of(a.element).color,
            to: style_of(b.element).color,
        },
        ColorPolicy::Fixed => BondColor::Fixed { color: neutral_bond_color() },
    }
}

/// The bond from `atoms[first]` to `atoms[second]`.
pub open spec fn bond_between(
    atoms: Seq<Atom>,
    first: int,
    second: int,
    order: int,
    settings: BondSettings,
) -> Bond {
    let a = atoms[first];
    let b = atoms[second];
    let d = diff(b.position.tri(), a.position.tri());
    Bond {
        first: first as usize,
        second: second as usize,
        position: a.position,
        direction: vector_of(d),
        length_squared: norm2(d) as u128,
        rotation: orientation_of(d, settings.up),
        bond_type: order as u64,
        color: bond_color_of(a, b, settings.colors),
    }
}

/// The bond of a record whose indices are valid.
pub open spec fn bond_of(atoms: Seq<Atom>, r: BondRecord, settings: BondSettings) -> Bond {
    bond_between(atoms, r.first - 1, r.second - 1, r.order as int, settings)
}

impl Bond {
    /// The bond from `atoms[first]` to `atoms[second]`: anchored at the first
    /// atom, with the offset to the second, its squared length and the
    /// rotation that carries the up axis onto it.
    pub fn resolve(
        atoms: &[Atom],
        first: usize,
        second: usize,
        bond_type: u64,
        settings: BondSettings,
    ) -> (r: Bond)
        requires
            first < atoms@.len(),
            second < atoms@.len(),
            atoms@[first as int].position.is_position(),
            atoms@[second as int].position.is_position(),
        ensures
            r == bond_between(atoms@, first as int, second as int, bond_type as int, settings),
    {
        let a = atoms[first];
        let b = atoms[second];
        let d = offset(a.position, b.position);
        let color = match settings.colors {
            ColorPolicy::TwoTone => BondColor::TwoTone {
                from: a.element.style().color,
                to: b.element.style().color,
            },
            ColorPolicy::Fixed => BondColor::Fixed { color: bond_color() },
        };
        Bond {
            first,
            second,
            position: a.position,
            direction: d,
            length_squared: length_squared(d),
            rotation: orientation(d, settings.up),
            bond_type,
            color,
        }
    }
}

pub proof fn lemma_line_end(s: Seq<u8>, i: int)
    requires
        0 <= i <= s.len(),
    ensures
        i <= line_end(s, i) <= s.len(),
        line_end(s, i) < s.len() ==> s[line_end(s, i)] == 10,
        forall|k: int| i <= k < line_end(s, i) ==> #[trigger] s[k] != 10,
    decreases s.len() - i,
{
    if i < s.len() && s[i] != 10 {
        lemma_line_end(s, i + 1);
    }
}

fn scan_line(s: &[u8], i: usize) -> (r: usize)
    requires
        i <= s@.len(),
    ensures
        r == line_end(s@, i as int),
{
    proof {
        lemma_line_end(s@, i as int);
    }
    let mut j: usize = i;
    while j < s.len() && s[j] != 10
        invariant
            i <= j <= s@.len(),
            line_end(s@, j as int) == line_end(s@, i as int),
        decreases s@.len() - j,
    {
        j = j + 1;
    }
    j
}

/// The digits run starting at `a`, where one does: its end.
fn digits_after(s: &[u8], a: usize) -> (r: usize)
    requires
        a <= s@.len(),
    ensures
        r == digits_end(s@, a as int),
        a <= r <= s@.len(),
        forall|k: int| a <= k < r ==> crate::text::is_digit(#[trigger] s@[k]),
{
    proof {
        lemma_digits_end(s@, a as int);
    }
    scan_digits(s, a)
}

/// The spans of the bond record on the line starting at `i`, where the line
/// is one.
fn match_bond_line(s: &[u8], i: usize) -> (r: Option<(usize, usize, usize, usize, usize, usize)>)
    requires
        i <= s@.len(),
    ensures
        match r {
            Some((a1, b1, a2, b2, a3, b3)) => {
                let p = bond_spans(s@, i as int);
                &&& is_bond_line(s@, i as int)
                &&& a1 == p[0] && b1 == p[1] && a2 == p[2] && b2 == p[3] && a3 == p[4] && b3 == p[5]
                &&& a1 <= b1 <= s@.len() && a2 <= b2 <= s@.len() && a3 <= b3 <= s@.len()
                &&& forall|k: int| a1 <= k < b1 ==> crate::text::is_digit(#[trigger] s@[k])
                &&& forall|k: int| a2 <= k < b2 ==> crate::text::is_digit(#[trigger] s@[k])
                &&& forall|k: int| a3 <= k < b3 ==> crate::text::is_digit(#[trigger] s@[k])
            },
            None => !is_bond_line(s@, i as int),
        },
{
    let a1 = scan_blanks(s, i);
    let b1 = digits_after(s, a1);
    let a2 = scan_blanks(s, b1);
    let b2 = digits_after(s, a2);
    let a3 = scan_blanks(s, b2);
    let b3 = digits_after(s, a3);
    let a4 = scan_blanks(s, b3);
    let b4 = digits_after(s, a4);
    let q = scan_blanks(s, b4);
    let e = scan_line(s, i);
    if b1 > a1 && a2 > b1 && b2 > a2 && a3 > b2 && b3 > a3 && a4 > b3 && b4 > a4 && q == e {
        Some((a1, b1, a2, b2, a3, b3))
    } else {
        None
    }
}

proof fn lemma_dangling_from(records: Seq<BondRecord>, atom_count: nat, m: int, k: int)
    requires
        0 <= m <= k <= records.len(),
        forall|j: int| m <= j < k ==> !is_dangling(#[trigger] records[j], atom_count),
    ensures
        first_dangling(records, atom_count, m) == first_dangling(records, atom_count, k),
    decreases k - m,
{
    if m < k {
        lemma_dangling_from(records, atom_count, m + 1, k);
    }
}

proof fn lemma_overflow_from(records: Seq<BondRecord>, m: int, k: int)
    requires
        0 <= m <= k <= records.len(),
        forall|j: int| m <= j < k ==> !order_overflows(#[trigger] records[j]),
    ensures
        first_overflow(records, m) == first_overflow(records, k),
    decreases k - m,
{
    if m < k {
        lemma_overflow_from(records, m + 1, k);
    }
}

/// The bonds of a text's bond records, resolved against its atoms. Fails with
/// the first record that names an atom index outside `1..=atoms.len()`, where
/// one does; else with the first record whose order does not fit a `u64`.
pub fn extract_bonds(s: &[u8], atoms: &[Atom], settings: BondSettings) -> (r: Result<
    Vec<Bond>,
    ParseError,
>)
    requires
        forall|k: int| 0 <= k < atoms@.len() ==> (#[trigger] atoms@[k]).position.is_position(),
    ensures
        ({
            let records = bond_records(s@, 0);
            match bond_error(records, atoms@.len()) {
                Some(e) => r == Err::<Vec<Bond>, ParseError>(e),
                None => r is Ok && r->Ok_0@ == records.map_values(
                    |rec: BondRecord| bond_of(atoms@, rec, settings),
                ),
            }
        }),
{
    let ghost all = bond_records(s@, 0);
    let n = atoms.len();
    let mut bonds: Vec<Bond> = Vec::new();
    let mut count: usize = 0;
    let mut overflow: Option<usize> = None;
    let mut i: usize = 0;
    while i < s.len()
        invariant
            i <= s@.len(),
            n == atoms@.len(),
            forall|j: int| 0 <= j < atoms@.len() ==> (#[trigger] atoms@[j]).position.is_position(),
            0 <= count <= all.len(),
            count <= i,
            all == bond_records(s@, 0),
            all.subrange(count as int, all.len() as int) == bond_records(s@, i as int),
            forall|j: int| 0 <= j < count ==> !is_dangling(#[trigger] all[j], n as nat),
            match overflow {
                None => {
                    &&& forall|j: int| 0 <= j < count ==> !order_overflows(#[trigger] all[j])
                    &&& bonds@ == all.subrange(0, count as int).map_values(
                        |rec: BondRecord| bond_of(atoms@, rec, settings),
                    )
                },
                Some(p) => {
                    &&& p < count
                    &&& order_overflows(all[p as int])
                    &&& forall|j: int| 0 <= j < p ==> !order_overflows(#[trigger] all[j])
                },
            },
        decreases s@.len() - i,
    {
        let e = scan_line(s, i);
        proof {
            lemma_line_end(s@, i as int);
        }
        let ghost rest = if e < s@.len() {
            bond_records(s@, e + 1)
        } else {
            seq![]
        };
        let ghost k = count as int;
        match match_bond_line(s, i) {
            Some((a1, b1, a2, b2, a3, b3)) => {
                let ghost rec = bond_record_at(s@, i as int);
                proof {
                    assert(bond_records(s@, i as int) == seq![rec] + rest);
                    assert(all.subrange(k, all.len() as int).len() > 0);
                    assert(k < all.len());
                    assert(all.subrange(k, all.len() as int)[0] == rec);
                    assert(all[k] == rec);
                    assert(all.subrange(k + 1, all.len() as int) =~= all.subrange(
                        k,
                        all.len() as int,
                    ).drop_first());
                    assert((seq![rec] + rest).drop_first() =~= rest);
                }
                let cap = n as u128 + 1;
                let first = digits_value_capped(s, a1, b1, cap);
                let second = digits_value_capped(s, a2, b2, cap);
                let order = digits_value_capped(s, a3, b3, 0x1_0000_0000_0000_0000);
                if first < 1 || first > n as u128 || second < 1 || second > n as u128 {
                    proof {
                        assert(is_dangling(all[k], n as nat));
                        lemma_dangling_from(all, n as nat, 0, k);
                    }
                    return Err(ParseError::DanglingBondReference { record: count });
                }
                if overflow.is_none() {
                    if order > u64::MAX as u128 {
                        overflow = Some(count);
                    } else {
                        let bond = Bond::resolve(
                            atoms,
                            (first - 1) as usize,
                            (second - 1) as usize,
                            order as u64,
                            settings,
                        );
                        bonds.push(bond);
                        proof {
                            assert(all.subrange(0, k + 1) =~= all.subrange(0, k).push(rec));
                            assert(bonds@ =~= all.subrange(0, k + 1).map_values(
                                |rec: BondRecord| bond_of(atoms@, rec, settings),
                            ));
                        }
                    }
                }
                count = count + 1;
            },
            None => {
                proof {
                    assert(bond_records(s@, i as int) == rest);
                }
            },
        }
        if e < s.len() {
            i = e + 1;
        } else {
            proof {
                assert(rest == Seq::<BondRecord>::empty());
                assert(bond_records(s@, s@.len() as int) == Seq::<BondRecord>::empty());
            }
            i = s.len();
        }
    }
    proof {
        assert(bond_records(s@, i as int) == Seq::<BondRecord>::empty());
        assert(count == all.len());
        assert(all.subrange(0, count as int) =~= all);
        lemma_dangling_from(all, n as nat, 0, count as int);
    }
    match overflow {
        Some(p) => {
            proof {
                lemma_overflow_from(all, 0, p as int);
            }
            Err(ParseError::NumericParseFailure { record: p })
        },
        None => {
            proof {
                lemma_overflow_from(all, 0, count as int);
            }
            Ok(bonds)
        },
    }
}

} // verus!
