use colco::element::style_for;
use colco::geometry::COORD_SCALE;
use colco::mol::{ATOM_SPACING_TENTHS, MARGIN_TENTHS};
use colco::{
    BondColor, BondSettings, Color, ColorPolicy, Element, Mol, Orientation, ParseError, UpAxis,
    Vector3,
};

fn two_tone_y() -> BondSettings {
    BondSettings { colors: ColorPolicy::TwoTone, up: UpAxis::Y }
}

const CYCLOBUTANE: &str = "cyclobutane
  sample

 12 12  0  0  0  0  0  0  0  0999 V2000
    0.7750    0.7750    0.0000 C   0  0  0  0  0  0  0  0  0  0  0  0
   -0.7750    0.7750    0.0000 C   0  0  0  0  0  0  0  0  0  0  0  0
   -0.7750   -0.7750    0.0000 C   0  0  0  0  0  0  0  0  0  0  0  0
    0.7750   -0.7750    0.0000 C   0  0  0  0  0  0  0  0  0  0  0  0
    1.2100    1.2100    0.8900 H   0  0  0  0  0  0  0  0  0  0  0  0
    1.2100    1.2100   -0.8900 H   0  0  0  0  0  0  0  0  0  0  0  0
   -1.2100    1.2100    0.8900 H   0  0  0  0  0  0  0  0  0  0  0  0
   -1.2100    1.2100   -0.8900 H   0  0  0  0  0  0  0  0  0  0  0  0
   -1.2100   -1.2100    0.8900 H   0  0  0  0  0  0  0  0  0  0  0  0
   -1.2100   -1.2100   -0.8900 H   0  0  0  0  0  0  0  0  0  0  0  0
    1.2100   -1.2100    0.8900 H   0  0  0  0  0  0  0  0  0  0  0  0
    1.2100   -1.2100   -0.8900 H   0  0  0  0  0  0  0  0  0  0  0  0
  1  2  1  0
  2  3  1  0
  3  4  1  0
  4  1  1  0
  1  5  1  0
  1  6  1  0
  2  7  1  0
  2  8  1  0
  3  9  1  0
  3 10  1  0
  4 11  1  0
  4 12  1  0
M  END
";

#[test]
fn empty_text_gives_empty_molecule() {
    let m = Mol::from_str("", two_tone_y()).unwrap();
    assert_eq!(m.atoms().len(), 0);
    assert_eq!(m.bonds().len(), 0);
    assert_eq!(m.bounding_size(), 0);
    assert_eq!(m.bounding_projection().half_extent, 0);
}

#[test]
fn ethane_like_sample_parses_fully() {
    let m = Mol::from_str(CYCLOBUTANE, two_tone_y()).unwrap();
    assert_eq!(m.atoms().len(), 12);
    assert_eq!(m.bonds().len(), 12);
    let carbons = m.atoms().iter().filter(|a| a.element == Element::Carbon).count();
    let hydrogens = m.atoms().iter().filter(|a| a.element == Element::Hydrogen).count();
    assert_eq!(carbons, 4);
    assert_eq!(hydrogens, 8);
    assert_eq!(m.bonds()[0].first, 0);
    assert_eq!(m.bonds()[0].second, 1);
    assert_eq!(m.bonds()[11].first, 3);
    assert_eq!(m.bonds()[11].second, 11);
    assert_eq!(m.bounding_size(), 1_210_000_000);
}

#[test]
fn atoms_follow_text_order() {
    let text = "1.00 2.00 3.00 O\nfoo -4.25 0.50 0.00 N bar\n0.00 0.00 0.00 H";
    let m = Mol::from_str(text, two_tone_y()).unwrap();
    let a = m.atoms();
    assert_eq!(a.len(), 3);
    assert_eq!(a[0].position, Vector3 { x: 1_000_000_000, y: 2_000_000_000, z: 3_000_000_000 });
    assert_eq!(a[0].element, Element::Oxygen);
    assert_eq!(a[1].position, Vector3 { x: -4_250_000_000, y: 500_000_000, z: 0 });
    assert_eq!(a[1].element, Element::Nitrogen);
    assert_eq!(a[2].element, Element::Hydrogen);
}

#[test]
fn two_records_on_one_line_are_both_read() {
    let m = Mol::from_str("1.00 2.00 3.00 C 4.00 5.00 6.00 O", two_tone_y()).unwrap();
    assert_eq!(m.atoms().len(), 2);
    assert_eq!(m.atoms()[1].position.z, 6_000_000_000);
}

#[test]
fn coordinates_keep_nine_fraction_digits() {
    let m = Mol::from_str("1.123456789987 -0.000000001 9.99 C", two_tone_y()).unwrap();
    let p = m.atoms()[0].position;
    assert_eq!(p.x, 1_123_456_789);
    assert_eq!(p.y, -1);
    assert_eq!(p.z, 9_990_000_000);
    assert_eq!(COORD_SCALE, 1_000_000_000);
}

#[test]
fn malformed_atom_records_are_skipped() {
    let text = "1.0 2.00 3.00 C\n1.00 2.00 3.00 C1\n1.00 2.00 3.00\n1.00 2.00 C\n";
    let m = Mol::from_str(text, two_tone_y()).unwrap();
    assert_eq!(m.atoms().len(), 0);
}

#[test]
fn longer_symbols_are_whole_tokens() {
    let m = Mol::from_str("0.00 0.00 0.00 Cl\n0.00 0.00 1.00 C\n", two_tone_y()).unwrap();
    assert_eq!(m.atoms()[0].element, Element::Other);
    assert_eq!(m.atoms()[1].element, Element::Carbon);
}

#[test]
fn unknown_symbol_takes_default_style() {
    let s = style_for("Xx");
    assert_eq!(s.color, Color { r: 969, g: 949, b: 824 });
    assert_eq!(s.scale, 1000);
    assert_eq!(Element::from_str("Xx"), Element::Other);
    let m = Mol::from_str("0.00 0.00 0.00 Xx", two_tone_y()).unwrap();
    assert_eq!(m.atoms()[0].element, Element::Other);
}

#[test]
fn style_table_values() {
    assert_eq!(style_for("C").color, Color { r: 106, g: 149, b: 169 });
    assert_eq!(style_for("C").scale, 1000);
    assert_eq!(style_for("O").color, Color { r: 940, g: 330, b: 400 });
    assert_eq!(style_for("N").color, Color { r: 560, g: 890, b: 600 });
    assert_eq!(style_for("H").color, Color { r: 880, g: 880, b: 930 });
    assert_eq!(style_for("H").scale, 800);
    assert_eq!(Element::from_str("H"), Element::Hydrogen);
    assert_eq!(Element::from_str("c"), Element::Other);
    assert_eq!(Element::from_str(""), Element::Other);
}

#[test]
fn bounding_size_uses_absolute_values() {
    let m = Mol::from_str("0.10 -2.50 0.00 C\n1.00 0.00 -0.75 O\n", two_tone_y()).unwrap();
    assert_eq!(m.bounding_size(), 2_500_000_000);
    assert_eq!(m.bounding_projection().half_extent, 22_500_000_000);
    assert_eq!(ATOM_SPACING_TENTHS, 45);
    assert_eq!(MARGIN_TENTHS, 20);
}

#[test]
fn dangling_index_past_atom_count() {
    let text = "0.00 0.00 0.00 C\n0.00 1.00 0.00 C\n1 2 1 0\n1 3 1 0\n";
    let r = Mol::from_str(text, two_tone_y());
    assert_eq!(r.err(), Some(ParseError::DanglingBondReference { record: 1 }));
}

#[test]
fn dangling_index_zero() {
    let text = "0.00 0.00 0.00 C\n0.00 1.00 0.00 C\n0 2 1 0\n";
    let r = Mol::from_str(text, two_tone_y());
    assert_eq!(r.err(), Some(ParseError::DanglingBondReference { record: 0 }));
}

#[test]
fn dangling_huge_index() {
    let text = "0.00 0.00 0.00 C\n1 99999999999999999999999999 1 0\n";
    let r = Mol::from_str(text, two_tone_y());
    assert_eq!(r.err(), Some(ParseError::DanglingBondReference { record: 0 }));
}

#[test]
fn bond_with_no_atoms_is_dangling() {
    let r = Mol::from_str("1 1 1 0\n", two_tone_y());
    assert_eq!(r.err(), Some(ParseError::DanglingBondReference { record: 0 }));
}

#[test]
fn bond_order_too_large() {
    let text = "0.00 0.00 0.00 C\n0.00 1.00 0.00 C\n1 2 2 0\n1 2 18446744073709551616 0\n";
    let r = Mol::from_str(text, two_tone_y());
    assert_eq!(r.err(), Some(ParseError::NumericParseFailure { record: 1 }));
}

#[test]
fn large_bond_order_kept_as_written() {
    let text = "0.00 0.00 0.00 C\n1 1 300 0\n1 1 18446744073709551615 0\n";
    let m = Mol::from_str(text, two_tone_y()).unwrap();
    assert_eq!(m.bonds()[0].bond_type, 300);
    assert_eq!(m.bonds()[1].bond_type, u64::MAX);
}

#[test]
fn dangling_wins_over_earlier_order_overflow() {
    let text = "0.00 0.00 0.00 C\n1 1 99999999999999999999 0\n1 1 1 0\n0 1 1 0\n";
    let r = Mol::from_str(text, two_tone_y());
    assert_eq!(r.err(), Some(ParseError::DanglingBondReference { record: 2 }));
}

#[test]
fn bond_lines_need_exactly_four_integers() {
    let text = "0.00 0.00 0.00 C\n0.00 1.00 0.00 C\n1 2 1\n1 2 1 0 0\n  1  2  3  0  \n1 2 x 0\n";
    let m = Mol::from_str(text, two_tone_y()).unwrap();
    assert_eq!(m.bonds().len(), 1);
    assert_eq!(m.bonds()[0].bond_type, 3);
}

#[test]
fn record_patterns_are_exclusive() {
    let m = Mol::from_str("0.00 0.00 0.00 C\n  1  1  1  0\n", two_tone_y()).unwrap();
    assert_eq!(m.atoms().len(), 1);
    assert_eq!(m.bonds().len(), 1);
    let only_bond = Mol::from_str("  1  2  1  0\n", two_tone_y());
    assert_eq!(only_bond.err(), Some(ParseError::DanglingBondReference { record: 0 }));
}

#[test]
fn parsing_twice_gives_equal_molecules() {
    let a = Mol::from_str(CYCLOBUTANE, two_tone_y()).unwrap();
    let b = Mol::from_str(CYCLOBUTANE, two_tone_y()).unwrap();
    assert_eq!(a.atoms(), b.atoms());
    assert_eq!(a.bonds(), b.bonds());
    assert_eq!(a.bounding_size(), b.bounding_size());
    assert_eq!(a.bounding_projection(), b.bounding_projection());
    assert_eq!(a.settings(), b.settings());
}

#[test]
fn two_tone_and_fixed_colors() {
    let text = "0.00 0.00 0.00 C\n0.00 1.00 0.00 O\n1 2 2 0\n";
    let two = Mol::from_str(text, two_tone_y()).unwrap();
    assert_eq!(
        two.bonds()[0].color,
        BondColor::TwoTone {
            from: Color { r: 106, g: 149, b: 169 },
            to: Color { r: 940, g: 330, b: 400 },
        }
    );
    assert_eq!(two.bonds()[0].bond_type, 2);
    let fixed_settings = BondSettings { colors: ColorPolicy::Fixed, up: UpAxis::Y };
    let fixed = Mol::from_str(text, fixed_settings).unwrap();
    assert_eq!(fixed.bonds()[0].color, BondColor::Fixed { color: Color { r: 600, g: 600, b: 600 } });
    assert_eq!(fixed.settings(), fixed_settings);
}

#[test]
fn bond_geometry_fields() {
    let text = "1.00 2.00 3.00 C\n1.30 2.40 3.00 C\n1 2 1 0\n";
    let m = Mol::from_str(text, two_tone_y()).unwrap();
    let b = m.bonds()[0];
    assert_eq!(b.position, Vector3 { x: 1_000_000_000, y: 2_000_000_000, z: 3_000_000_000 });
    assert_eq!(b.direction, Vector3 { x: 300_000_000, y: 400_000_000, z: 0 });
    assert_eq!(b.length_squared, 250_000_000_000_000_000);
    assert_eq!(
        b.rotation,
        Orientation::AxisAngle { axis: Vector3 { x: 0, y: 0, z: -300_000_000 }, cos_num: 400_000_000 }
    );
}
