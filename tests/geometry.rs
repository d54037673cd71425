use colco::geometry::{length_squared, offset, orientation};
use colco::{Atom, Bond, BondSettings, ColorPolicy, Element, Mol, Orientation, UpAxis, Vector3};

fn settings(up: UpAxis) -> BondSettings {
    BondSettings { colors: ColorPolicy::TwoTone, up }
}

fn v(x: i64, y: i64, z: i64) -> Vector3 {
    Vector3 { x, y, z }
}

/// Rotates `p` about `axis` (not normalized) by the angle whose cosine is
/// `cos`, by Rodrigues' formula.
fn rotate(p: [f64; 3], axis: [f64; 3], cos: f64) -> [f64; 3] {
    let n = (axis[0] * axis[0] + axis[1] * axis[1] + axis[2] * axis[2]).sqrt();
    let k = [axis[0] / n, axis[1] / n, axis[2] / n];
    let sin = (1.0 - cos * cos).max(0.0).sqrt();
    let kxp = [
        k[1] * p[2] - k[2] * p[1],
        k[2] * p[0] - k[0] * p[2],
        k[0] * p[1] - k[1] * p[0],
    ];
    let kdp = k[0] * p[0] + k[1] * p[1] + k[2] * p[2];
    let mut r = [0.0; 3];
    for i in 0..3 {
        r[i] = p[i] * cos + kxp[i] * sin + k[i] * kdp * (1.0 - cos);
    }
    r
}

fn assert_carries_up(d: Vector3, up: UpAxis) {
    let up_v = match up {
        UpAxis::Y => [0.0, 1.0, 0.0],
        UpAxis::Z => [0.0, 0.0, 1.0],
    };
    let len = (length_squared(d) as f64).sqrt();
    let forward = [d.x as f64 / len, d.y as f64 / len, d.z as f64 / len];
    match orientation(d, up) {
        Orientation::AxisAngle { axis, cos_num } => {
            let r = rotate(up_v, [axis.x as f64, axis.y as f64, axis.z as f64], cos_num as f64 / len);
            for i in 0..3 {
                assert!((r[i] - forward[i]).abs() < 1e-5, "{:?} vs {:?}", r, forward);
            }
        }
        other => panic!("expected a general turn, got {:?}", other),
    }
}

#[test]
fn general_turn_carries_up_onto_forward() {
    assert_carries_up(v(1_000_000_000, 0, 0), UpAxis::Y);
    assert_carries_up(v(300_000_000, 400_000_000, -1_200_000_000), UpAxis::Y);
    assert_carries_up(v(-2_000_000_000, -1_000_000_000, 500_000_000), UpAxis::Y);
    assert_carries_up(v(1_000_000_000, 2_000_000_000, 3_000_000_000), UpAxis::Z);
    assert_carries_up(v(0, 1_000_000_000, -1_000_000_000), UpAxis::Z);
}

#[test]
fn antiparallel_bond_gets_half_turn() {
    let m = Mol::from_str("0.00 1.00 0.00 C\n0.00 0.00 0.00 C\n1 2 1 0\n", settings(UpAxis::Y)).unwrap();
    let b = m.bonds()[0];
    assert_eq!(b.rotation, Orientation::HalfTurn { axis: v(0, 0, 1) });
    assert_eq!(b.length_squared, 1_000_000_000_000_000_000);
    let z = orientation(v(0, 0, -5), UpAxis::Z);
    assert_eq!(z, Orientation::HalfTurn { axis: v(1, 0, 0) });
}

#[test]
fn parallel_bond_gets_identity() {
    let m = Mol::from_str("0.00 0.00 0.00 C\n0.00 1.00 0.00 C\n1 2 1 0\n", settings(UpAxis::Y)).unwrap();
    assert_eq!(m.bonds()[0].rotation, Orientation::Identity);
    assert_eq!(orientation(v(0, 0, 7), UpAxis::Z), Orientation::Identity);
}

#[test]
fn nearly_parallel_within_tolerance_is_identity() {
    assert_eq!(orientation(v(1_000_000, 1_000_000_000, 0), UpAxis::Y), Orientation::Identity);
    assert_eq!(
        orientation(v(1_000_000, -1_000_000_000, 0), UpAxis::Y),
        Orientation::HalfTurn { axis: v(0, 0, 1) }
    );
    match orientation(v(2_000_000, 1_000_000_000, 0), UpAxis::Y) {
        Orientation::AxisAngle { .. } => {}
        other => panic!("expected a general turn, got {:?}", other),
    }
}

#[test]
fn coincident_atoms_have_no_direction() {
    assert_eq!(orientation(v(0, 0, 0), UpAxis::Y), Orientation::Coincident);
    let m = Mol::from_str("1.00 1.00 1.00 C\n1 1 1 0\n", settings(UpAxis::Y)).unwrap();
    assert_eq!(m.bonds()[0].rotation, Orientation::Coincident);
    assert_eq!(m.bonds()[0].length_squared, 0);
}

#[test]
fn z_up_axis_choice() {
    let d = v(1_000_000_000, 0, 0);
    assert_eq!(
        orientation(d, UpAxis::Z),
        Orientation::AxisAngle { axis: v(0, 1_000_000_000, 0), cos_num: 0 }
    );
    assert_eq!(
        orientation(d, UpAxis::Y),
        Orientation::AxisAngle { axis: v(0, 0, -1_000_000_000), cos_num: 0 }
    );
}

#[test]
fn resolve_between_atoms() {
    let atoms = [
        Atom { position: v(0, 0, 0), element: Element::Nitrogen },
        Atom { position: v(-1_000_000_000, 2_000_000_000, 2_000_000_000), element: Element::Hydrogen },
    ];
    let b = Bond::resolve(&atoms, 0, 1, 1, settings(UpAxis::Y));
    assert_eq!(b.first, 0);
    assert_eq!(b.second, 1);
    assert_eq!(b.direction, v(-1_000_000_000, 2_000_000_000, 2_000_000_000));
    assert_eq!(b.length_squared, 9_000_000_000_000_000_000);
    assert_eq!(offset(atoms[1].position, atoms[0].position), v(1_000_000_000, -2_000_000_000, -2_000_000_000));
}
