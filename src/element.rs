//! Element styles: the one table that maps an element symbol to how its atoms
//! are drawn.

use vstd::prelude::*;
use vstd::string::StringSliceAdditionalSpecFns;

verus! {

/// A display color, each channel in thousandths (0 to 1000).
#[derive(Clone, Copy, Debug, PartialEq, Eq, Structural)]
pub struct Color {
    pub r: u16,
    pub g: u16,
    pub b: u16,
}

impl Color {
    pub open spec fn wf(self) -> bool {
        self.r <= 1000 && self.g <= 1000 && self.b <= 1000
    }
}

/// How atoms of one element are drawn: a color and a sphere-radius multiplier
/// in thousandths.
#[derive(Clone, Copy, Debug, PartialEq, Eq, Structural)]
pub struct Style {
    pub color: Color,
    pub scale: u16,
}

/// The elements with a style of their own, and `Other` for every other symbol.
#[derive(Clone, Copy, Debug, PartialEq, Eq, Structural)]
pub enum Element {
    Carbon,
    Oxygen,
    Nitrogen,
    Hydrogen,
    Other,
}

/// The color of a bond drawn without regard to the elements it joins.
pub open spec fn neutral_bond_color() -> Color {
    Color { r: 600, g: 600, b: 600 }
}

pub fn bond_color() -> (r: Color)
    ensures
        r == neutral_bond_color(),
{
    Color { r: 600, g: 600, b: 600 }
}

pub open spec fn element_of(symbol: Seq<u8>) -> Element {
    if symbol == seq![67u8] {
        Element::Carbon
    } else if symbol == seq![79u8] {
        Element::Oxygen
    } else if symbol == seq![78u8] {
        Element::Nitrogen
    } else if symbol == seq![72u8] {
        Element::Hydrogen
    } else {
        Element::Other
    }
}

pub open spec fn style_of(e: Element) -> Style {
    match e {
        Element::Carbon => Style { color: Color { r: 106, g: 149, b: 169 }, scale: 1000 },
        Element::Oxygen => Style { color: Color { r: 940, g: 330, b: 400 }, scale: 1000 },
        Element::Nitrogen => Style { color: Color { r: 560, g: 890, b: 600 }, scale: 1000 },
        Element::Hydrogen => Style { color: Color { r: 880, g: 880, b: 930 }, scale: 800 },
        Element::Other => Style { color: Color { r: 969, g: 949, b: 824 }, scale: 1000 },
    }
}

impl Element {
    /// The element named by a symbol; a symbol outside the table is `Other`.
    pub fn from_symbol(symbol: &[u8]) -> (r: Element)
        ensures
            r == element_of(symbol@),
    {
        if symbol.len() != 1 {
            proof {
                assert(symbol@ != seq![67u8] && symbol@ != seq![79u8]);
                assert(symbol@ != seq![78u8] && symbol@ != seq![72u8]);
            }
            return Element::Other;
        }
        let c = symbol[0];
        proof {
            assert(symbol@ == seq![c]);
        }
        if c == 67 {
            Element::Carbon
        } else if c == 79 {
            Element::Oxygen
        } else if c == 78 {
            Element::Nitrogen
        } else if c == 72 {
            Element::Hydrogen
        } else {
            proof {
                assert(seq![c] != seq![67u8] && seq![c] != seq![79u8]) by {
                    assert(seq![c][0] == c);
                }
                assert(seq![c] != seq![78u8] && seq![c] != seq![72u8]) by {
                    assert(seq![c][0] == c);
                }
            }
            Element::Other
        }
    }

    /// The element named by a symbol given as text.
    pub fn from_str(symbol: &str) -> (r: Element)
        ensures
            r == element_of(symbol.spec_bytes()),
    {
        Element::from_symbol(symbol.as_bytes())
    }

    /// The style table.
    pub fn style(self) -> (r: Style)
        ensures
            r == style_of(self),
            r.color.wf(),
    {
        match self {
            Element::Carbon => Style { color: Color { r: 106, g: 149, b: 169 }, scale: 1000 },
            Element::Oxygen => Style { color: Color { r: 940, g: 330, b: 400 }, scale: 1000 },
            Element::Nitrogen => Style { color: Color { r: 560, g: 890, b: 600 }, scale: 1000 },
            Element::Hydrogen => Style { color: Color { r: 880, g: 880, b: 930 }, scale: 800 },
            Element::Other => Style { color: Color { r: 969, g: 949, b: 824 }, scale: 1000 },
        }
    }
}

/// The style for a symbol: total, and the default style for every symbol
/// outside the table.
pub fn style_for(symbol: &str) -> (r: Style)
    ensures
        r == style_of(element_of(symbol.spec_bytes())),
{
    Element::from_str(symbol).style()
}

/// A symbol other than `C`, `O`, `N` and `H` takes the default style.
pub proof fn lemma_unknown_symbol_default(symbol: Seq<u8>)
    requires
        symbol != seq![67u8],
        symbol != seq![79u8],
        symbol != seq![78u8],
        symbol != seq![72u8],
    ensures
        element_of(symbol) == Element::Other,
        style_of(element_of(symbol)) == (Style { color: Color { r: 969, g: 949, b: 824 }, scale: 1000 }),
{
}

} // verus!
