//! Exact bond geometry over fixed-point coordinates: the offset between two
//! atoms, its squared length, and the rotation that carries the canonical bond
//! axis onto it.

use vstd::prelude::*;

verus! {

/// Fixed-point units per coordinate unit: coordinates are held in billionths.
pub const COORD_SCALE: i64 = 1_000_000_000;

/// Every coordinate of a parsed atom lies strictly between the negation of this
/// bound and the bound (one integer digit, nine fraction digits).
pub const COORD_LIMIT: i64 = 10_000_000_000;

/// The tolerance on the cosine between a bond and the canonical axis under
/// which the bond counts as parallel or antiparallel to it, as a reciprocal:
/// the tolerance is one part in this many.
pub const ALIGN_TOLERANCE_INV: i128 = 1_000_000;

/// A bound on the square of one component of an offset: `(2 * COORD_LIMIT)^2`.
pub const OFFSET_SQUARE_BOUND: i128 = 400_000_000_000_000_000_000;

/// Three fixed-point integers: a position, an offset or an axis direction.
#[derive(Clone, Copy, Debug, PartialEq, Eq, Structural)]
pub struct Vector3 {
    pub x: i64,
    pub y: i64,
    pub z: i64,
}

pub type Triple = (int, int, int);

impl Vector3 {
    pub open spec fn tri(self) -> Triple {
        (self.x as int, self.y as int, self.z as int)
    }

    /// A position that parsing can produce.
    pub open spec fn is_position(self) -> bool {
        -COORD_LIMIT < self.x < COORD_LIMIT && -COORD_LIMIT < self.y < COORD_LIMIT && -COORD_LIMIT
            < self.z < COORD_LIMIT
    }

    /// An offset between two positions.
    pub open spec fn is_offset(self) -> bool {
        -2 * COORD_LIMIT < self.x < 2 * COORD_LIMIT && -2 * COORD_LIMIT < self.y < 2
            * COORD_LIMIT && -2 * COORD_LIMIT < self.z < 2 * COORD_LIMIT
    }
}

pub open spec fn vector_of(t: Triple) -> Vector3 {
    Vector3 { x: t.0 as i64, y: t.1 as i64, z: t.2 as i64 }
}

pub open spec fn diff(a: Triple, b: Triple) -> Triple {
    (a.0 - b.0, a.1 - b.1, a.2 - b.2)
}

pub open spec fn sum(a: Triple, b: Triple) -> Triple {
    (a.0 + b.0, a.1 + b.1, a.2 + b.2)
}

pub open spec fn scale(k: int, a: Triple) -> Triple {
    (k * a.0, k * a.1, k * a.2)
}

pub open spec fn dot(a: Triple, b: Triple) -> int {
    a.0 * b.0 + a.1 * b.1 + a.2 * b.2
}

pub open spec fn cross(a: Triple, b: Triple) -> Triple {
    (a.1 * b.2 - a.2 * b.1, a.2 * b.0 - a.0 * b.2, a.0 * b.1 - a.1 * b.0)
}

pub open spec fn norm2(a: Triple) -> int {
    dot(a, a)
}

/// The local axis along which the un-rotated bond mesh lies.
#[derive(Clone, Copy, Debug, PartialEq, Eq, Structural)]
pub enum UpAxis {
    Y,
    Z,
}

pub open spec fn up_of(a: UpAxis) -> Triple {
    match a {
        UpAxis::Y => (0, 1, 0),
        UpAxis::Z => (0, 0, 1),
    }
}

/// The fixed axis, perpendicular to the up axis, of the half turn used for
/// antiparallel bonds.
pub open spec fn side_of(a: UpAxis) -> Triple {
    match a {
        UpAxis::Y => (0, 0, 1),
        UpAxis::Z => (1, 0, 0),
    }
}

/// The rotation that carries the up axis onto a bond's direction.
#[derive(Clone, Copy, Debug, PartialEq, Eq, Structural)]
pub enum Orientation {
    /// The two atoms share a position: there is no direction to turn to.
    Coincident,
    /// The bond points along the up axis (within tolerance): no rotation.
    Identity,
    /// The bond points against the up axis (within tolerance): a half turn
    /// about `axis`, a fixed unit axis perpendicular to the up axis.
    HalfTurn { axis: Vector3 },
    /// A turn about `axis` (the cross product of the up axis and the offset,
    /// not normalized) by the angle whose cosine is `cos_num` divided by the
    /// bond's length, where `cos_num` is the dot product of the up axis and
    /// the offset.
    AxisAngle { axis: Vector3, cos_num: i64 },
}

/// The cosine `c / sqrt(len2)` lies within the tolerance of +1 or -1, that is
/// `|c| / sqrt(len2) > 1 - 1 / ALIGN_TOLERANCE_INV`, squared on both sides.
pub open spec fn nearly_aligned(c: int, len2: int) -> bool {
    c * c * (ALIGN_TOLERANCE_INV * ALIGN_TOLERANCE_INV) > len2 * ((ALIGN_TOLERANCE_INV - 1) * (
    ALIGN_TOLERANCE_INV - 1))
}

pub open spec fn orientation_of(d: Triple, up: UpAxis) -> Orientation {
    let len2 = norm2(d);
    let c = dot(up_of(up), d);
    if len2 == 0 {
        Orientation::Coincident
    } else if c < 0 && nearly_aligned(c, len2) {
        Orientation::HalfTurn { axis: vector_of(side_of(up)) }
    } else if c > 0 && nearly_aligned(c, len2) {
        Orientation::Identity
    } else {
        Orientation::AxisAngle { axis: vector_of(cross(up_of(up), d)), cos_num: c as i64 }
    }
}

/// The products with the up axis, written out.
pub proof fn lemma_up_products(up: UpAxis, d: Triple)
    ensures
        dot(up_of(up), d) == match up {
            UpAxis::Y => d.1,
            UpAxis::Z => d.2,
        },
        cross(up_of(up), d) == match up {
            UpAxis::Y => (d.2, 0, -d.0),
            UpAxis::Z => (-d.1, d.0, 0),
        },
{
    match up {
        UpAxis::Y => {
            assert(dot((0, 1, 0), d) == d.1);
            assert(cross((0, 1, 0), d) == (d.2, 0int, -d.0));
        },
        UpAxis::Z => {
            assert(dot((0, 0, 1), d) == d.2);
            assert(cross((0, 0, 1), d) == (-d.1, d.0, 0int));
        },
    }
}

proof fn lemma_cross_back(up: UpAxis, d: Triple)
    ensures
        cross(cross(up_of(up), d), up_of(up)) == match up {
            UpAxis::Y => (d.0, 0, d.2),
            UpAxis::Z => (d.0, d.1, 0),
        },
{
    match up {
        UpAxis::Y => {
            let a = cross((0, 1, 0), d);
            assert(a == (d.2, 0int, -d.0));
            let b = cross(a, (0, 1, 0));
            assert(b.0 == d.0);
            assert(b.1 == 0);
            assert(b.2 == d.2);
        },
        UpAxis::Z => {
            let a = cross((0, 0, 1), d);
            assert(a == (-d.1, d.0, 0int));
            let b = cross(a, (0, 0, 1));
            assert(b.0 == d.0);
            assert(b.1 == d.1);
            assert(b.2 == 0);
        },
    }
}

proof fn lemma_offset_products(d: Vector3)
    requires
        d.is_offset(),
    ensures
        0 <= d.x * d.x <= OFFSET_SQUARE_BOUND,
        0 <= d.y * d.y <= OFFSET_SQUARE_BOUND,
        0 <= d.z * d.z <= OFFSET_SQUARE_BOUND,
{
    let b: int = 20_000_000_000;
    assert(b * b == OFFSET_SQUARE_BOUND);
    assert(0 <= d.x * d.x <= b * b) by (nonlinear_arith)
        requires
            -b < d.x < b,
    ;
    assert(0 <= d.y * d.y <= b * b) by (nonlinear_arith)
        requires
            -b < d.y < b,
    ;
    assert(0 <= d.z * d.z <= b * b) by (nonlinear_arith)
        requires
            -b < d.z < b,
    ;
}

/// The offset from `a` to `b`.
pub fn offset(a: Vector3, b: Vector3) -> (r: Vector3)
    requires
        a.is_position(),
        b.is_position(),
    ensures
        r.tri() == diff(b.tri(), a.tri()),
        r.is_offset(),
{
    Vector3 { x: b.x - a.x, y: b.y - a.y, z: b.z - a.z }
}

/// The squared length of an offset.
pub fn length_squared(d: Vector3) -> (r: u128)
    requires
        d.is_offset(),
    ensures
        r == norm2(d.tri()),
        r <= 3 * OFFSET_SQUARE_BOUND,
{
    proof {
        lemma_offset_products(d);
    }
    let x = d.x as i128;
    let y = d.y as i128;
    let z = d.z as i128;
    (x * x + y * y + z * z) as u128
}

/// The rotation that carries the up axis onto the direction of `d`.
pub fn orientation(d: Vector3, up: UpAxis) -> (r: Orientation)
    requires
        d.is_offset(),
    ensures
        r == orientation_of(d.tri(), up),
{
    proof {
        lemma_offset_products(d);
    }
    let len2 = length_squared(d) as i128;
    let c: i64 = match up {
        UpAxis::Y => d.y,
        UpAxis::Z => d.z,
    };
    let ci = c as i128;
    let t = ALIGN_TOLERANCE_INV;
    proof {
        assert(ci * ci <= OFFSET_SQUARE_BOUND);
        assert(0 <= ci * ci);
        assert(ci * ci * (t * t) <= OFFSET_SQUARE_BOUND * (t * t)) by (nonlinear_arith)
            requires
                ci * ci <= OFFSET_SQUARE_BOUND,
        ;
        assert(len2 * ((t - 1) * (t - 1)) <= 3 * OFFSET_SQUARE_BOUND * ((t - 1) * (t - 1)))
            by (nonlinear_arith)
            requires
                0 <= len2 <= 3 * OFFSET_SQUARE_BOUND,
        ;
        assert(0 <= len2 * ((t - 1) * (t - 1))) by (nonlinear_arith)
            requires
                0 <= len2,
        ;
    }
    let aligned = ci * ci * (t * t) > len2 * ((t - 1) * (t - 1));
    proof {
        lemma_up_products(up, d.tri());
        assert(len2 as int == norm2(d.tri()));
        assert(aligned == nearly_aligned(c as int, len2 as int));
    }
    if len2 == 0 {
        Orientation::Coincident
    } else if c < 0 && aligned {
        match up {
            UpAxis::Y => Orientation::HalfTurn { axis: Vector3 { x: 0, y: 0, z: 1 } },
            UpAxis::Z => Orientation::HalfTurn { axis: Vector3 { x: 1, y: 0, z: 0 } },
        }
    } else if c > 0 && aligned {
        Orientation::Identity
    } else {
        let axis = match up {
            UpAxis::Y => Vector3 { x: d.z, y: 0, z: -d.x },
            UpAxis::Z => Vector3 { x: -d.y, y: d.x, z: 0 },
        };
        Orientation::AxisAngle { axis, cos_num: c }
    }
}

proof fn lemma_square_aligned(c: int)
    requires
        c != 0,
    ensures
        nearly_aligned(c, c * c),
{
    let t = ALIGN_TOLERANCE_INV as int;
    assert(c * c * (t * t) > c * c * ((t - 1) * (t - 1))) by (nonlinear_arith)
        requires
            c != 0,
            t == 1_000_000,
    ;
}

/// A bond that points exactly along the up axis (`d = k * up`, `k > 0`) gets
/// the identity rotation.
pub proof fn lemma_parallel_is_identity(k: int, up: UpAxis)
    requires
        k > 0,
    ensures
        orientation_of(scale(k, up_of(up)), up) == Orientation::Identity,
{
    let d = scale(k, up_of(up));
    lemma_up_products(up, d);
    assert(norm2(d) == k * k) by {
        match up {
            UpAxis::Y => assert(d == (0int, k, 0int)),
            UpAxis::Z => assert(d == (0int, 0int, k)),
        }
    }
    lemma_square_aligned(k);
}

/// A bond that points exactly against the up axis (`d = -k * up`, `k > 0`)
/// gets the fixed half turn, about a unit axis perpendicular to the up axis.
pub proof fn lemma_antiparallel_is_half_turn(k: int, up: UpAxis)
    requires
        k > 0,
    ensures
        orientation_of(scale(-k, up_of(up)), up) == (Orientation::HalfTurn {
            axis: vector_of(side_of(up)),
        }),
        dot(side_of(up), up_of(up)) == 0,
        norm2(side_of(up)) == 1,
{
    let d = scale(-k, up_of(up));
    lemma_up_products(up, d);
    assert(norm2(d) == (-k) * (-k)) by {
        match up {
            UpAxis::Y => assert(d == (0int, -k, 0int)),
            UpAxis::Z => assert(d == (0int, 0int, -k)),
        }
    }
    lemma_square_aligned(-k);
}

/// For a bond that is neither coincident nor aligned with the up axis, the
/// recorded axis `a = up x d` and cosine numerator `c = up . d` satisfy
/// `a . up = 0`, `c * up + a x up = d` and `|a|^2 + c^2 = |d|^2`, with `a`
/// nonzero. So the turn about `a` by the angle `t` with `cos t = c / |d|`
/// (hence `sin t = |a| / |d|`) carries the up axis onto `d / |d|`: by
/// Rodrigues' formula the image is `(c * up + a x up) / |d|`.
pub proof fn lemma_turn_carries_up_onto_offset(d: Triple, up: UpAxis)
    requires
        orientation_of(d, up) is AxisAngle,
    ensures
        ({
            let u = up_of(up);
            let a = cross(u, d);
            let c = dot(u, d);
            &&& dot(a, u) == 0
            &&& sum(scale(c, u), cross(a, u)) == d
            &&& norm2(a) + c * c == norm2(d)
            &&& norm2(a) > 0
        }),
{
    let u = up_of(up);
    let a = cross(u, d);
    let c = dot(u, d);
    lemma_up_products(up, d);
    match up {
        UpAxis::Y => {
            assert(dot(a, u) == 0);
            lemma_cross_back(up, d);
            assert(scale(c, u) == (0int, d.1, 0int));
            assert(norm2(a) + c * c == norm2(d)) by (nonlinear_arith)
                requires
                    a == (d.2, 0int, -d.0),
                    c == d.1,
            ;
        },
        UpAxis::Z => {
            assert(dot(a, u) == 0);
            lemma_cross_back(up, d);
            assert(scale(c, u) == (0int, 0int, d.2));
            assert(norm2(a) + c * c == norm2(d)) by (nonlinear_arith)
                requires
                    a == (-d.1, d.0, 0int),
                    c == d.2,
            ;
        },
    }
    assert(norm2(a) >= 0) by (nonlinear_arith)
        requires
            norm2(a) == a.0 * a.0 + a.1 * a.1 + a.2 * a.2,
    ;
    if norm2(a) == 0 {
        assert(norm2(d) == c * c);
        assert(norm2(d) != 0);
        assert(c != 0) by (nonlinear_arith)
            requires
                c * c != 0,
        ;
        lemma_square_aligned(c);
    }
}

} // verus!
