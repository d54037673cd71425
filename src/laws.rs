//! Properties of every parse, stated over `molecule_of`, the model that `Mol::from_str` is proved to meet.

use crate::atoms::{atom_at, atom_end, atom_extent, atom_starts, atoms_of, max_extent, Atom};
use crate::atoms::number_end;
use crate::bonds::{
    bond_records, bond_spans, first_dangling, first_overflow, is_bond_line, is_dangling,
    lemma_line_end, line_end, order_overflows, BondRecord, BondSettings, ParseError,
};
use crate::text::{is_blank, is_digit, lemma_blanks_end, lemma_digits_end};
use crate::mol::{molecule_of, MolView};
use vstd::prelude::*;

verus! {

proof fn lemma_atom_starts(s: Seq<u8>, i: int)
    requires
        0 <= i,
    ensures
        forall|k: int|
            0 <= k < atom_starts(s, i).len() ==> i <= #[trigger] atom_starts(s, i)[k] && atom_end(
                s,
                atom_starts(s, i)[k],
            ) > atom_starts(s, i)[k],
        forall|k: int|
            0 <= k < atom_starts(s, i).len() - 1 ==> atom_end(s, #[trigger] atom_starts(s, i)[k])
                <= atom_starts(s, i)[k + 1],
    decreases s.len() - i,
{
    if i < 0 || i >= s.len() {
    } else if atom_end(s, i) > i {
        let e = atom_end(s, i);
        lemma_atom_starts(s, e);
        let rest = atom_starts(s, e);
        assert(atom_starts(s, i) == seq![i] + rest);
        assert forall|k: int| 0 <= k < atom_starts(s, i).len() - 1 implies atom_end(
            s,
            #[trigger] atom_starts(s, i)[k],
        ) <= atom_starts(s, i)[k + 1] by {
            if k > 0 {
                assert(atom_starts(s, i)[k] == rest[k - 1]);
                assert(atom_starts(s, i)[k + 1] == rest[k]);
            } else {
                assert(atom_starts(s, i)[1] == rest[0]);
            }
        }
        assert forall|k: int| 0 <= k < atom_starts(s, i).len() implies i <= #[trigger] atom_starts(
            s,
            i,
        )[k] && atom_end(s, atom_starts(s, i)[k]) > atom_starts(s, i)[k] by {
            if k > 0 {
                assert(atom_starts(s, i)[k] == rest[k - 1]);
            }
        }
    } else {
        lemma_atom_starts(s, i + 1);
        assert(atom_starts(s, i) == atom_starts(s, i + 1));
    }
}

proof fn lemma_atom_count(s: Seq<u8>, i: int)
    requires
        0 <= i <= s.len(),
    ensures
        atom_starts(s, i).len() <= s.len() - i,
    decreases s.len() - i,
{
    if i < s.len() {
        if atom_end(s, i) > i {
            if atom_end(s, i) <= s.len() {
                lemma_atom_count(s, atom_end(s, i));
            }
        } else {
            lemma_atom_count(s, i + 1);
        }
    }
}

/// The atoms of a parsed molecule are the atom records of its text, one atom
/// per record, in the order of the records: the k-th atom is the one read
/// from the k-th record, and each record ends before the next one starts.
pub proof fn lemma_atoms_follow_records(s: Seq<u8>, settings: BondSettings)
    ensures
        molecule_of(s, settings) is Ok ==> ({
            let m = molecule_of(s, settings)->Ok_0;
            let p = atom_starts(s, 0);
            &&& m.atoms.len() == p.len()
            &&& forall|k: int| 0 <= k < p.len() ==> m.atoms[k] == atom_at(s, #[trigger] p[k])
            &&& forall|k: int| 0 <= k < p.len() ==> atom_end(s, #[trigger] p[k]) > p[k]
            &&& forall|k: int| 0 <= k < p.len() - 1 ==> atom_end(s, #[trigger] p[k]) <= p[k + 1]
        }),
{
    lemma_atom_starts(s, 0);
}

proof fn lemma_no_dangling_after(records: Seq<BondRecord>, n: nat, m: int)
    requires
        0 <= m,
        first_dangling(records, n, m) is None,
    ensures
        forall|j: int| m <= j < records.len() ==> !is_dangling(#[trigger] records[j], n),
    decreases records.len() - m,
{
    if m < records.len() {
        lemma_no_dangling_after(records, n, m + 1);
    }
}

proof fn lemma_no_overflow_after(records: Seq<BondRecord>, m: int)
    requires
        0 <= m,
        first_overflow(records, m) is None,
    ensures
        forall|j: int| m <= j < records.len() ==> !order_overflows(#[trigger] records[j]),
    decreases records.len() - m,
{
    if m < records.len() {
        lemma_no_overflow_after(records, m + 1);
    }
}

proof fn lemma_all_clean(records: Seq<BondRecord>, n: nat, m: int)
    requires
        0 <= m <= records.len(),
        forall|j: int|
            m <= j < records.len() ==> !is_dangling(#[trigger] records[j], n) && !order_overflows(
                records[j],
            ),
    ensures
        first_dangling(records, n, m) is None,
        first_overflow(records, m) is None,
    decreases records.len() - m,
{
    if m < records.len() {
        lemma_all_clean(records, n, m + 1);
    }
}

proof fn lemma_first_dangling_within(records: Seq<BondRecord>, n: nat, m: int, k: int)
    requires
        0 <= m <= k < records.len(),
        is_dangling(records[k], n),
    ensures
        ({
            let f = first_dangling(records, n, m);
            &&& f is Some
            &&& m <= f->0 <= k
            &&& is_dangling(records[f->0], n)
            &&& forall|j: int| m <= j < f->0 ==> !is_dangling(#[trigger] records[j], n)
        }),
    decreases k - m,
{
    if !is_dangling(records[m], n) {
        lemma_first_dangling_within(records, n, m + 1, k);
    }
}

/// Every bond of a parsed molecule joins two of its atoms: its 0-based indices
/// are those of its record less one, and lie below the atom count; its order
/// is the record's, as written.
pub proof fn lemma_bonds_join_atoms(s: Seq<u8>, settings: BondSettings)
    requires
        s.len() <= usize::MAX,
    ensures
        molecule_of(s, settings) is Ok ==> ({
            let m = molecule_of(s, settings)->Ok_0;
            let records = bond_records(s, 0);
            &&& m.bonds.len() == records.len()
            &&& forall|k: int|
                0 <= k < m.bonds.len() ==> {
                    &&& (#[trigger] m.bonds[k]).first < m.atoms.len()
                    &&& m.bonds[k].second < m.atoms.len()
                    &&& m.bonds[k].first == records[k].first - 1
                    &&& m.bonds[k].second == records[k].second - 1
                    &&& m.bonds[k].bond_type == records[k].order
                }
        }),
{
    let atoms = atoms_of(s);
    let records = bond_records(s, 0);
    lemma_atom_count(s, 0);
    if molecule_of(s, settings) is Ok {
        lemma_no_dangling_after(records, atoms.len(), 0);
        lemma_no_overflow_after(records, 0);
        let m = molecule_of(s, settings)->Ok_0;
        assert forall|k: int| 0 <= k < m.bonds.len() implies {
            &&& (#[trigger] m.bonds[k]).first < m.atoms.len()
            &&& m.bonds[k].second < m.atoms.len()
            &&& m.bonds[k].first == records[k].first - 1
            &&& m.bonds[k].second == records[k].second - 1
            &&& m.bonds[k].bond_type == records[k].order
        } by {
            assert(!is_dangling(records[k], atoms.len()));
            assert(!order_overflows(records[k]));
        }
    }
}

proof fn lemma_bond_count(s: Seq<u8>, i: int)
    requires
        0 <= i <= s.len(),
    ensures
        bond_records(s, i).len() <= s.len() - i + 1,
    decreases s.len() - i,
{
    lemma_line_end(s, i);
    let e = line_end(s, i);
    if e < s.len() {
        lemma_bond_count(s, e + 1);
    }
}

/// A text with a bond record that names an atom index outside
/// `1..=atom count` is refused with `DanglingBondReference`, whatever the
/// other records hold: the error names the first such record, which is this
/// one or an earlier one.
pub proof fn lemma_dangling_refused(s: Seq<u8>, settings: BondSettings, k: int)
    requires
        s.len() <= usize::MAX,
        0 <= k < bond_records(s, 0).len(),
        is_dangling(bond_records(s, 0)[k], atoms_of(s).len()),
    ensures
        ({
            let records = bond_records(s, 0);
            let r = molecule_of(s, settings);
            &&& r is Err
            &&& r->Err_0 is DanglingBondReference
            &&& {
                let j = r->Err_0->DanglingBondReference_record as int;
                &&& j <= k
                &&& is_dangling(records[j], atoms_of(s).len())
                &&& forall|i: int| 0 <= i < j ==> !is_dangling(#[trigger] records[i], atoms_of(s).len())
            }
        }),
{
    let records = bond_records(s, 0);
    lemma_first_dangling_within(records, atoms_of(s).len(), 0, k);
    lemma_bond_count(s, 0);
}

/// A text whose bond records all name atoms of the text, with orders that fit
/// a `u64`, parses to a molecule.
pub proof fn lemma_valid_records_parse(s: Seq<u8>, settings: BondSettings)
    requires
        forall|k: int|
            0 <= k < bond_records(s, 0).len() ==> !is_dangling(
                #[trigger] bond_records(s, 0)[k],
                atoms_of(s).len(),
            ) && !order_overflows(bond_records(s, 0)[k]),
    ensures
        molecule_of(s, settings) is Ok,
{
    lemma_all_clean(bond_records(s, 0), atoms_of(s).len(), 0);
}

proof fn lemma_max_extent(atoms: Seq<Atom>)
    ensures
        forall|k: int| 0 <= k < atoms.len() ==> atom_extent(#[trigger] atoms[k]) <= max_extent(atoms),
        atoms.len() == 0 ==> max_extent(atoms) == 0,
        atoms.len() > 0 ==> exists|k: int|
            0 <= k < atoms.len() && atom_extent(#[trigger] atoms[k]) == max_extent(atoms),
    decreases atoms.len(),
{
    if atoms.len() > 0 {
        let init = atoms.drop_last();
        lemma_max_extent(init);
        assert forall|k: int| 0 <= k < atoms.len() implies atom_extent(#[trigger] atoms[k])
            <= max_extent(atoms) by {
            if k < atoms.len() - 1 {
                assert(atoms[k] == init[k]);
            }
        }
        if atom_extent(atoms.last()) > max_extent(init) || init.len() == 0 {
            assert(atom_extent(atoms[atoms.len() - 1]) == max_extent(atoms));
        } else {
            let k = choose|k: int| 0 <= k < init.len() && atom_extent(#[trigger] init[k]) == max_extent(init);
            assert(atoms[k] == init[k]);
        }
    }
}

/// The bounding size of a parsed molecule is the largest absolute coordinate
/// over its atoms: no coordinate exceeds it and some atom reaches it; with no
/// atoms it is 0, and so is the projection's extent.
pub proof fn lemma_bounding_size(s: Seq<u8>, settings: BondSettings)
    ensures
        molecule_of(s, settings) is Ok ==> ({
            let m = molecule_of(s, settings)->Ok_0;
            &&& forall|k: int|
                0 <= k < m.atoms.len() ==> {
                    &&& -m.bounding_size <= (#[trigger] m.atoms[k]).position.x <= m.bounding_size
                    &&& -m.bounding_size <= m.atoms[k].position.y <= m.bounding_size
                    &&& -m.bounding_size <= m.atoms[k].position.z <= m.bounding_size
                }
            &&& m.atoms.len() > 0 ==> exists|k: int|
                0 <= k < m.atoms.len() && atom_extent(#[trigger] m.atoms[k]) == m.bounding_size
            &&& m.atoms.len() == 0 ==> m.bounding_size == 0 && m.projection.half_extent == 0
        }),
{
    let atoms = atoms_of(s);
    lemma_max_extent(atoms);
}

/// Reading the same text with the same settings twice gives the same
/// molecule: the same atoms and bonds in the same order, with the same values.
pub proof fn lemma_parse_deterministic(s1: Seq<u8>, s2: Seq<u8>, settings: BondSettings)
    requires
        s1 == s2,
    ensures
        molecule_of(s1, settings) == molecule_of(s2, settings),
{
}

proof fn lemma_bond_line_bytes(s: Seq<u8>, i: int)
    requires
        0 <= i <= s.len(),
        is_bond_line(s, i),
    ensures
        forall|k: int| i <= k < line_end(s, i) ==> is_digit(#[trigger] s[k]) || is_blank(s[k]),
{
    let p = bond_spans(s, i);
    lemma_blanks_end(s, i);
    lemma_digits_end(s, p[0]);
    lemma_blanks_end(s, p[1]);
    lemma_digits_end(s, p[2]);
    lemma_blanks_end(s, p[3]);
    lemma_digits_end(s, p[4]);
    lemma_blanks_end(s, p[5]);
    lemma_digits_end(s, p[6]);
    lemma_blanks_end(s, p[7]);
}

/// The two record patterns never meet: no atom record starts on a line that
/// is a bond record, since a bond record holds only digits and blanks and an
/// atom record needs a decimal point within its line.
pub proof fn lemma_records_exclusive(s: Seq<u8>, i: int, p: int)
    requires
        0 <= i <= s.len(),
        is_bond_line(s, i),
        i <= p < line_end(s, i),
    ensures
        !(atom_end(s, p) > p),
{
    lemma_bond_line_bytes(s, i);
    lemma_line_end(s, i);
    if atom_end(s, p) > p {
        assert(number_end(s, p) >= 0);
        assert(is_digit(s[p]) || is_blank(s[p]));
        assert(s[p] != 45);
        assert(s[p + 1] == 46);
        if p + 1 < line_end(s, i) {
            assert(is_digit(s[p + 1]) || is_blank(s[p + 1]));
        } else {
            assert(s[p + 1] == 10);
        }
    }
}

} // verus!
