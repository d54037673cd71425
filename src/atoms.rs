//! Atom records: three decimal coordinates followed by an element symbol.
//!
//! A coordinate is an optional `-`, one digit, a `.` and two or more digits,
//! followed by blanks. A record is three such coordinates and then a run of
//! letters (the symbol) that ends at whitespace or at the end of the text.
//! Records are found anywhere in the text, left to right, without overlap.

use crate::element::{element_of, Element};
use crate::geometry::{vector_of, Vector3, COORD_LIMIT, COORD_SCALE};
use crate::text::{
    blanks_end, digit_value, digits_end, digits_value, digits_value_capped, is_digit, is_space,
    lemma_digits_end, lemma_digits_value_bound, lemma_pow10_add, lemma_pow10_nine, lemma_pow10_positive, letters_end,
    pow10, pow10_u64, scan_blanks, scan_digits, scan_letters,
};
use vstd::prelude::*;

verus! {

/// An atom: a position in billionths of a coordinate unit, and its element.
#[derive(Clone, Copy, Debug, PartialEq, Eq, Structural)]
pub struct Atom {
    pub position: Vector3,
    pub element: Element,
}

/// The index where the coordinate starting at `i` ends, or -1 where none does.
pub open spec fn number_end(s: Seq<u8>, i: int) -> int {
    let j = if 0 <= i < s.len() && s[i] == 45 {
        i + 1
    } else {
        i
    };
    if 0 <= j && j + 1 < s.len() && is_digit(s[j]) && s[j + 1] == 46 && digits_end(s, j + 2) >= j
        + 4 {
        digits_end(s, j + 2)
    } else {
        -1
    }
}

/// The index where the coordinate starting at `i` and the blanks after it end,
/// or -1.
pub open spec fn field_end(s: Seq<u8>, i: int) -> int {
    let e = number_end(s, i);
    if e >= 0 && blanks_end(s, e) > e {
        blanks_end(s, e)
    } else {
        -1
    }
}

/// Where the three coordinate fields of a record starting at `i` end, or -1.
pub open spec fn coords_end(s: Seq<u8>, i: int) -> int {
    let a = field_end(s, i);
    let b = if a >= 0 {
        field_end(s, a)
    } else {
        -1
    };
    if b >= 0 {
        field_end(s, b)
    } else {
        -1
    }
}

/// Where the atom record starting at `i` ends, or -1 where none starts there.
pub open spec fn atom_end(s: Seq<u8>, i: int) -> int {
    let c = coords_end(s, i);
    let t = letters_end(s, c);
    if c >= 0 && c < t <= s.len() && (t == s.len() || is_space(s[t])) {
        t
    } else {
        -1
    }
}

/// The value, in billionths, of the coordinate starting at `i`: its first nine
/// fraction digits are kept, and the value is truncated toward zero.
pub open spec fn number_value(s: Seq<u8>, i: int) -> int {
    let neg = s[i] == 45;
    let j = if neg {
        i + 1
    } else {
        i
    };
    let e = digits_end(s, j + 2);
    let k = if e - (j + 2) < 9 {
        e
    } else {
        j + 11
    };
    let frac = digits_value(s, j + 2, k) * pow10((9 - (k - (j + 2))) as nat);
    let mag = digit_value(s[j]) * COORD_SCALE + frac;
    if neg {
        -mag
    } else {
        mag
    }
}

/// The atom of the record starting at `i`.
pub open spec fn atom_at(s: Seq<u8>, i: int) -> Atom {
    let a = field_end(s, i);
    let b = field_end(s, a);
    let c = field_end(s, b);
    Atom {
        position: vector_of((number_value(s, i), number_value(s, a), number_value(s, b))),
        element: element_of(s.subrange(c, letters_end(s, c))),
    }
}

/// The starts of the atom records found scanning from `i`: at each index,
/// a record that starts there is taken and the scan resumes where it ends;
/// otherwise the scan moves one byte on.
pub open spec fn atom_starts(s: Seq<u8>, i: int) -> Seq<int>
    decreases s.len() - i,
{
    if i < 0 || i >= s.len() {
        seq![]
    } else if atom_end(s, i) > i {
        seq![i] + atom_starts(s, atom_end(s, i))
    } else {
        atom_starts(s, i + 1)
    }
}

/// The atoms of a text, in the order of their records.
pub open spec fn atoms_of(s: Seq<u8>) -> Seq<Atom> {
    atom_starts(s, 0).map_values(|p: int| atom_at(s, p))
}

pub open spec fn abs(v: int) -> int {
    if v < 0 {
        -v
    } else {
        v
    }
}

/// The largest absolute coordinate of one atom.
pub open spec fn atom_extent(a: Atom) -> int {
    let x = abs(a.position.x as int);
    let y = abs(a.position.y as int);
    let z = abs(a.position.z as int);
    if x >= y && x >= z {
        x
    } else if y >= z {
        y
    } else {
        z
    }
}

/// The largest absolute coordinate over all atoms, 0 where there are none.
pub open spec fn max_extent(atoms: Seq<Atom>) -> int
    decreases atoms.len(),
{
    if atoms.len() == 0 {
        0
    } else {
        let m = max_extent(atoms.drop_last());
        let e = atom_extent(atoms.last());
        if e > m {
            e
        } else {
            m
        }
    }
}

/// The coordinate starting at `i`: where it ends and its value.
pub fn match_number(s: &[u8], i: usize) -> (r: Option<(usize, i64)>)
    requires
        i <= s@.len(),
    ensures
        match r {
            Some((e, v)) => {
                &&& e == number_end(s@, i as int)
                &&& i < e
                &&& v == number_value(s@, i as int)
                &&& -COORD_LIMIT < v < COORD_LIMIT
            },
            None => number_end(s@, i as int) < 0,
        },
{
    let neg = i < s.len() && s[i] == 45;
    let j = if neg {
        i + 1
    } else {
        i
    };
    if !(j < s.len() && s.len() - j > 1 && 48 <= s[j] && s[j] <= 57 && s[j + 1] == 46) {
        return None;
    }
    let e = scan_digits(s, j + 2);
    if e - (j + 2) < 2 {
        return None;
    }
    let k = if e - (j + 2) < 9 {
        e
    } else {
        j + 11
    };
    let m: usize = k - (j + 2);
    proof {
        lemma_digits_end(s@, (j + 2) as int);
        lemma_digits_value_bound(s@, (j + 2) as int, k as int);
        lemma_pow10_add(m as nat, (9 - m) as nat);
        lemma_pow10_nine();
        lemma_pow10_positive((9 - m) as nat);
        assert(pow10(m as nat) <= 1_000_000_000) by (nonlinear_arith)
            requires
                pow10(m as nat) * pow10((9 - m) as nat) == 1_000_000_000,
                pow10((9 - m) as nat) >= 1,
        ;
    }
    let frac = digits_value_capped(s, j + 2, k, 1_000_000_000);
    let pad = pow10_u64((9 - m) as u32);
    proof {
        assert(frac * pad < 1_000_000_000) by (nonlinear_arith)
            requires
                frac < pow10(m as nat),
                pow10(m as nat) * pad == 1_000_000_000,
        ;
    }
    let mag: i64 = (s[j] - 48) as i64 * COORD_SCALE + (frac as u64 * pad) as i64;
    let v = if neg {
        -mag
    } else {
        mag
    };
    proof {
        assert(neg == (s@[i as int] == 45));
        assert(frac == digits_value(s@, j + 2, k as int));
        assert(pad == pow10((9 - (k - (j + 2))) as nat));
        assert(mag == digit_value(s@[j as int]) * COORD_SCALE + frac * pad);
    }
    Some((e, v))
}

/// A coordinate and the blanks after it: where they end and the value.
fn match_field(s: &[u8], i: usize) -> (r: Option<(usize, i64)>)
    requires
        i <= s@.len(),
    ensures
        match r {
            Some((e, v)) => {
                &&& e == field_end(s@, i as int)
                &&& i < e <= s@.len()
                &&& v == number_value(s@, i as int)
                &&& -COORD_LIMIT < v < COORD_LIMIT
            },
            None => field_end(s@, i as int) < 0,
        },
{
    match match_number(s, i) {
        None => None,
        Some((e, v)) => {
            proof {
                lemma_digits_end(s@, (if s@[i as int] == 45 { i + 3 } else { i + 2 }) as int);
            }
            let b = scan_blanks(s, e);
            if b > e {
                Some((b, v))
            } else {
                None
            }
        },
    }
}

/// The atom record starting at `i`: where it ends and its atom.
pub fn match_atom(s: &[u8], i: usize) -> (r: Option<(usize, Atom)>)
    requires
        i <= s@.len(),
    ensures
        match r {
            Some((e, a)) => {
                &&& atom_end(s@, i as int) > i
                &&& e == atom_end(s@, i as int)
                &&& a == atom_at(s@, i as int)
                &&& a.position.is_position()
            },
            None => !(atom_end(s@, i as int) > i),
        },
{
    let (a, x) = match match_field(s, i) {
        None => return None,
        Some(f) => f,
    };
    let (b, y) = match match_field(s, a) {
        None => return None,
        Some(f) => f,
    };
    let (c, z) = match match_field(s, b) {
        None => return None,
        Some(f) => f,
    };
    let t = scan_letters(s, c);
    if !(t > c && (t == s.len() || s[t] == 32 || s[t] == 9 || s[t] == 11 || s[t] == 12
        || s[t] == 13 || s[t] == 10)) {
        return None;
    }
    let symbol = vstd::slice::slice_subrange(s, c, t);
    let element = Element::from_symbol(symbol);
    let atom = Atom { position: Vector3 { x, y, z }, element };
    Some((t, atom))
}

fn abs_coord(v: i64) -> (r: i64)
    requires
        -COORD_LIMIT < v < COORD_LIMIT,
    ensures
        r == abs(v as int),
{
    if v < 0 {
        -v
    } else {
        v
    }
}

impl Atom {
    /// The largest absolute coordinate of this atom.
    pub fn extent(&self) -> (r: i64)
        requires
            self.position.is_position(),
        ensures
            r == atom_extent(*self),
            0 <= r < COORD_LIMIT,
    {
        let x = abs_coord(self.position.x);
        let y = abs_coord(self.position.y);
        let z = abs_coord(self.position.z);
        if x >= y && x >= z {
            x
        } else if y >= z {
            y
        } else {
            z
        }
    }
}

/// The atoms of a text in the order of their records, and the largest
/// absolute coordinate among them (0 where there are none).
pub fn extract_atoms(s: &[u8]) -> (r: (Vec<Atom>, i64))
    ensures
        r.0@ == atoms_of(s@),
        r.1 == max_extent(atoms_of(s@)),
        0 <= r.1 < COORD_LIMIT,
        forall|k: int| 0 <= k < r.0@.len() ==> (#[trigger] r.0@[k]).position.is_position(),
{
    let mut atoms: Vec<Atom> = Vec::new();
    let mut extent: i64 = 0;
    let mut i: usize = 0;
    while i < s.len()
        invariant
            i <= s@.len(),
            atoms@ + atom_starts(s@, i as int).map_values(|p: int| atom_at(s@, p)) == atoms_of(s@),
            extent == max_extent(atoms@),
            0 <= extent < COORD_LIMIT,
            forall|k: int| 0 <= k < atoms@.len() ==> (#[trigger] atoms@[k]).position.is_position(),
        decreases s@.len() - i,
    {
        match match_atom(s, i) {
            Some((e, atom)) => {
                let ghost before = atoms@;
                let ghost rest = atom_starts(s@, e as int);
                proof {
                    assert(atom_starts(s@, i as int) == seq![i as int] + rest);
                    assert((seq![i as int] + rest).map_values(|p: int| atom_at(s@, p)) =~= seq![
                        atom_at(s@, i as int)]
                        + rest.map_values(|p: int| atom_at(s@, p)));
                }
                let x = atom.extent();
                atoms.push(atom);
                proof {
                    assert(atoms@.drop_last() =~= before);
                    assert(atoms@ + rest.map_values(|p: int| atom_at(s@, p)) =~= before + (seq![
                        atom_at(s@, i as int)]
                        + rest.map_values(|p: int| atom_at(s@, p))));
                }
                if x > extent {
                    extent = x;
                }
                i = e;
            },
            None => {
                proof {
                    assert(atom_starts(s@, i as int) == atom_starts(s@, i + 1));
                }
                i = i + 1;
            },
        }
    }
    proof {
        assert(atom_starts(s@, i as int) == Seq::<int>::empty());
        assert(atoms@ + Seq::<int>::empty().map_values(|p: int| atom_at(s@, p)) =~= atoms@);
    }
    (atoms, extent)
}

} // verus!
