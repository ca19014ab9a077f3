//! Three-component vectors, used as points, directions and colours.

use crate::random::RandomSource;
use crate::scalar::lemma_div_units_bounded;
use crate::scalar::lemma_mul_units_square;
use crate::scalar::lemma_mul_units_zero;
use crate::scalar::lemma_plus_opposites;
use crate::scalar::lemma_times_negated;
use crate::scalar::magnitude;
use crate::scalar::Scalar;
use crate::scalar::ONE_RAW;
use core::ops::Neg;
use vstd::prelude::*;

verus! {

/// How many points `random_in_unit_sphere` draws before it gives up.
pub const DRAW_LIMIT: u32 = 128;

/// A vector of three scalars: a point, a direction or a colour.
#[derive(Clone, Copy, Debug, PartialEq, Eq, Structural)]
pub struct Vector3 {
    pub x: Scalar,
    pub y: Scalar,
    pub z: Scalar,
}

impl Vector3 {
    /// The vector with every component zero.
    pub open spec fn zero_spec() -> Vector3 {
        Vector3 { x: Scalar::of(0), y: Scalar::of(0), z: Scalar::of(0) }
    }

    /// Sum, component by component.
    pub open spec fn plus(self, rhs: Vector3) -> Vector3 {
        Vector3 { x: self.x.plus(rhs.x), y: self.y.plus(rhs.y), z: self.z.plus(rhs.z) }
    }

    /// Difference, component by component.
    pub open spec fn minus(self, rhs: Vector3) -> Vector3 {
        Vector3 { x: self.x.minus(rhs.x), y: self.y.minus(rhs.y), z: self.z.minus(rhs.z) }
    }

    /// The opposite vector.
    pub open spec fn negated(self) -> Vector3 {
        Vector3 { x: self.x.negated(), y: self.y.negated(), z: self.z.negated() }
    }

    /// Product, component by component.
    pub open spec fn times(self, rhs: Vector3) -> Vector3 {
        Vector3 { x: self.x.times(rhs.x), y: self.y.times(rhs.y), z: self.z.times(rhs.z) }
    }

    /// Every component multiplied by `factor`.
    pub open spec fn scaled(self, factor: Scalar) -> Vector3 {
        Vector3 { x: self.x.times(factor), y: self.y.times(factor), z: self.z.times(factor) }
    }

    /// Quotient, component by component.
    pub open spec fn over(self, rhs: Vector3) -> Vector3 {
        Vector3 { x: self.x.over(rhs.x), y: self.y.over(rhs.y), z: self.z.over(rhs.z) }
    }

    /// Every component divided by `divisor`.
    pub open spec fn shrunk(self, divisor: Scalar) -> Vector3 {
        Vector3 { x: self.x.over(divisor), y: self.y.over(divisor), z: self.z.over(divisor) }
    }

    /// The sum of the squares of the components.
    pub open spec fn length_squared_spec(self) -> Scalar {
        self.x.times(self.x).plus(self.y.times(self.y)).plus(self.z.times(self.z))
    }

    /// The root of the squared length.
    pub open spec fn length_spec(self) -> Scalar {
        self.length_squared_spec().sqrt_spec()
    }

    /// The sum of the products of the components.
    pub open spec fn dot_spec(self, v: Vector3) -> Scalar {
        self.x.times(v.x).plus(self.y.times(v.y)).plus(self.z.times(v.z))
    }

    /// The vector at right angles to both, by the right-hand rule.
    pub open spec fn cross_spec(self, v: Vector3) -> Vector3 {
        Vector3 {
            x: self.y.times(v.z).minus(self.z.times(v.y)),
            y: self.z.times(v.x).minus(self.x.times(v.z)),
            z: self.x.times(v.y).minus(self.y.times(v.x)),
        }
    }

    /// What a vector is divided by to bring it to length one: its length,
    /// or the largest magnitude among its components where that is more.
    /// The length is a root rounded down, of a sum of squares that were
    /// each cut toward zero, so without this guard it could fall below a
    /// component, and down to zero for a short vector.
    pub open spec fn norm_spec(self) -> Scalar {
        self.length_spec().max_spec(self.x.abs_spec()).max_spec(self.y.abs_spec()).max_spec(
            self.z.abs_spec(),
        )
    }

    /// The vector divided by its norm.
    pub open spec fn unit_spec(self) -> Vector3 {
        self.shrunk(self.norm_spec())
    }

    /// Every component lies at or above `min` and below `max`.
    pub open spec fn within(self, min: Scalar, max: Scalar) -> bool {
        &&& min@ <= self.x@ < max@
        &&& min@ <= self.y@ < max@
        &&& min@ <= self.z@ < max@
    }

    /// The point lies strictly inside the ball of radius one about the origin.
    pub open spec fn in_unit_ball(self) -> bool {
        self.length_squared_spec()@ < ONE_RAW
    }

    /// `draws` are the points of the cube that were drawn, in their order,
    /// and `point` is what rejection sampling makes of them: every draw but
    /// the last fell outside the unit ball, and the last is `point` where it
    /// fell inside. Where the last fell outside as well, the limit of draws
    /// was reached and `point` is the centre.
    pub open spec fn is_rejection_run(draws: Seq<Vector3>, point: Vector3) -> bool {
        &&& 1 <= draws.len() <= DRAW_LIMIT
        &&& forall|k: int|
            0 <= k < draws.len() ==> (#[trigger] draws[k]).within(
                Scalar::of(-ONE_RAW),
                Scalar::of(ONE_RAW as int),
            )
        &&& forall|k: int| 0 <= k < draws.len() - 1 ==> !(#[trigger] draws[k]).in_unit_ball()
        &&& if draws.last().in_unit_ball() {
            point == draws.last()
        } else {
            draws.len() == DRAW_LIMIT && point == Vector3::zero_spec()
        }
    }

    /// The vector itself where it points to the side of `normal`, else its
    /// opposite.
    pub open spec fn toward_spec(self, normal: Vector3) -> Vector3 {
        if self.dot_spec(normal)@ > 0 {
            self
        } else {
            self.negated()
        }
    }

    /// The vector with every component `scalar`.
    pub fn new(scalar: Scalar) -> (v: Vector3)
        ensures
            v == (Vector3 { x: scalar, y: scalar, z: scalar }),
    {
        Vector3 { x: scalar, y: scalar, z: scalar }
    }

    pub fn length(self: &Self) -> (len: Scalar)
        ensures
            len == self.length_spec(),
    {
        self.length_squared().sqrt()
    }

    pub fn length_squared(self: &Self) -> (len2: Scalar)
        ensures
            len2 == self.length_squared_spec(),
    {
        self.x * self.x + self.y * self.y + self.z * self.z
    }

    pub fn dot(self: Self, v: &Self) -> (d: Scalar)
        ensures
            d == self.dot_spec(*v),
    {
        self.x * v.x + self.y * v.y + self.z * v.z
    }

    pub fn cross(self: Self, v: &Self) -> (c: Vector3)
        ensures
            c == self.cross_spec(*v),
    {
        Vector3 {
            x: self.y * v.z - self.z * v.y,
            y: self.z * v.x - self.x * v.z,
            z: self.x * v.y - self.y * v.x,
        }
    }

    /// What the vector is divided by to bring it to length one: its length,
    /// guarded against rounding by the largest magnitude among its
    /// components.
    pub fn norm(self: &Self) -> (n: Scalar)
        ensures
            n == self.norm_spec(),
    {
        self.length().max(self.x.abs()).max(self.y.abs()).max(self.z.abs())
    }

    /// The vector scaled to length one, as far as rounding allows. It is
    /// divided by its norm, which is never less than the magnitude of a
    /// component, so every component of the result lies between minus one
    /// and one. The zero vector has no direction: its components are divided
    /// by zero and stay zero.
    pub fn unit_vector(self: &Self) -> (u: Vector3)
        ensures
            u == self.unit_spec(),
            -ONE_RAW <= u.x@ <= ONE_RAW,
            -ONE_RAW <= u.y@ <= ONE_RAW,
            -ONE_RAW <= u.z@ <= ONE_RAW,
    {
        proof {
            lemma_unit_components(*self);
        }
        *self / self.norm()
    }

    /// A vector whose components are drawn, each on its own, from the scalars
    /// at or above `min` and below `max`.
    pub fn random(source: &mut RandomSource, min: Scalar, max: Scalar) -> (v: Vector3)
        requires
            min@ < max@,
        ensures
            v.within(min, max),
    {
        let x = source.next_scalar(min, max);
        let y = source.next_scalar(min, max);
        let z = source.next_scalar(min, max);
        Vector3 { x, y, z }
    }

    /// Whether the point lies strictly inside the unit ball.
    pub fn is_in_unit_ball(self: &Self) -> (inside: bool)
        ensures
            inside == self.in_unit_ball(),
    {
        self.length_squared().units() < ONE_RAW
    }

    /// A point inside the unit ball, found by drawing points of the cube
    /// around it until one falls inside. After `DRAW_LIMIT` points in a row
    /// outside the ball, which has a chance below one in ten to the fortieth
    /// power, the centre of the ball is returned.
    pub fn random_in_unit_sphere(source: &mut RandomSource) -> (point: Vector3)
        ensures
            point.in_unit_ball(),
            exists|draws: Seq<Vector3>| Vector3::is_rejection_run(draws, point),
    {
        let low = Scalar::one().neg();
        let high = Scalar::one();
        let mut point = Vector3::random(source, low, high);
        let ghost mut drawn = seq![point];
        let mut count: u32 = 1;
        while !point.is_in_unit_ball() && count < DRAW_LIMIT
            invariant
                low == Scalar::of(-ONE_RAW),
                high == Scalar::of(ONE_RAW as int),
                1 <= count <= DRAW_LIMIT,
                drawn.len() == count,
                drawn.last() == point,
                forall|k: int| 0 <= k < drawn.len() ==> (#[trigger] drawn[k]).within(low, high),
                forall|k: int| 0 <= k < drawn.len() - 1 ==> !(#[trigger] drawn[k]).in_unit_ball(),
            decreases DRAW_LIMIT - count,
        {
            point = Vector3::random(source, low, high);
            proof {
                drawn = drawn.push(point);
            }
            count = count + 1;
        }
        if point.is_in_unit_ball() {
            assert(Vector3::is_rejection_run(drawn, point));
            point
        } else {
            proof {
                lemma_mul_units_zero(0);
                assert(Vector3::is_rejection_run(drawn, Vector3::zero_spec()));
            }
            Vector3::new(Scalar::zero())
        }
    }

    /// A direction drawn at random: a point of the unit ball, scaled to
    /// length one.
    pub fn random_unit_vector(source: &mut RandomSource) -> (direction: Vector3)
        ensures
            exists|point: Vector3| point.in_unit_ball() && direction == point.unit_spec(),
            -ONE_RAW <= direction.x@ <= ONE_RAW,
            -ONE_RAW <= direction.y@ <= ONE_RAW,
            -ONE_RAW <= direction.z@ <= ONE_RAW,
    {
        let point = Vector3::random_in_unit_sphere(source);
        point.unit_vector()
    }

    /// The vector itself where it points to the side of `normal`, else its
    /// opposite.
    pub fn toward(self: Self, normal: &Vector3) -> (v: Vector3)
        ensures
            v == self.toward_spec(*normal),
    {
        if self.dot(normal).units() > 0 {
            self
        } else {
            self.neg()
        }
    }

    /// A point of the unit ball on the side of `normal`.
    pub fn random_in_hemisphere(source: &mut RandomSource, normal: &Vector3) -> (point: Vector3)
        ensures
            exists|drawn: Vector3| drawn.in_unit_ball() && point == drawn.toward_spec(*normal),
            point.in_unit_ball(),
            point.dot_spec(*normal)@ >= 0,
    {
        let in_unit_sphere = Vector3::random_in_unit_sphere(source);
        proof {
            lemma_toward_faces_normal(in_unit_sphere, *normal);
        }
        in_unit_sphere.toward(normal)
    }
}

/// A squared length is not negative.
pub proof fn lemma_length_squared_sign(v: Vector3)
    ensures
        v.length_squared_spec()@ >= 0,
{
    lemma_mul_units_square(v.x@);
    lemma_mul_units_square(v.y@);
    lemma_mul_units_square(v.z@);
}

/// Every component of a vector brought to length one lies between minus one
/// and one.
pub proof fn lemma_unit_components(v: Vector3)
    ensures
        -ONE_RAW <= v.unit_spec().x@ <= ONE_RAW,
        -ONE_RAW <= v.unit_spec().y@ <= ONE_RAW,
        -ONE_RAW <= v.unit_spec().z@ <= ONE_RAW,
{
    let norm = v.norm_spec()@;
    assert(magnitude(v.x@) <= norm && magnitude(v.y@) <= norm && magnitude(v.z@) <= norm);
    lemma_div_units_bounded(v.x@, norm);
    lemma_div_units_bounded(v.y@, norm);
    lemma_div_units_bounded(v.z@, norm);
}

/// The dot product with the opposite vector is the opposite number.
pub proof fn lemma_dot_negated(a: Vector3, b: Vector3)
    ensures
        a.dot_spec(b.negated())@ == -a.dot_spec(b)@,
        a.negated().dot_spec(b)@ == -a.dot_spec(b)@,
{
    lemma_times_negated(a.x, b.x);
    lemma_times_negated(a.y, b.y);
    lemma_times_negated(a.z, b.z);
    let n = b.negated();
    lemma_plus_opposites(a.x.times(b.x), a.y.times(b.y), a.x.times(n.x), a.y.times(n.y));
    lemma_plus_opposites(
        a.x.times(b.x).plus(a.y.times(b.y)),
        a.z.times(b.z),
        a.x.times(n.x).plus(a.y.times(n.y)),
        a.z.times(n.z),
    );
    let m = a.negated();
    lemma_plus_opposites(a.x.times(b.x), a.y.times(b.y), m.x.times(b.x), m.y.times(b.y));
    lemma_plus_opposites(
        a.x.times(b.x).plus(a.y.times(b.y)),
        a.z.times(b.z),
        m.x.times(b.x).plus(m.y.times(b.y)),
        m.z.times(b.z),
    );
}

/// The vector turned toward a normal does not point away from it, and
/// turning keeps a point of the unit ball inside the ball.
pub proof fn lemma_toward_faces_normal(v: Vector3, normal: Vector3)
    ensures
        v.toward_spec(normal).dot_spec(normal)@ >= 0,
        v.in_unit_ball() ==> v.toward_spec(normal).in_unit_ball(),
{
    lemma_dot_negated(v, normal);
    let n = v.negated();
    lemma_times_negated(v.x, v.x);
    lemma_times_negated(v.y, v.y);
    lemma_times_negated(v.z, v.z);
    lemma_times_negated(v.x, n.x);
    lemma_times_negated(v.y, n.y);
    lemma_times_negated(v.z, n.z);
    assert(n.x.times(n.x)@ == v.x.times(v.x)@);
    assert(n.y.times(n.y)@ == v.y.times(v.y)@);
    assert(n.z.times(n.z)@ == v.z.times(v.z)@);
}

impl core::ops::Add for Vector3 {
    type Output = Vector3;

    fn add(self, rhs: Vector3) -> (r: Vector3) {
        Vector3 { x: self.x + rhs.x, y: self.y + rhs.y, z: self.z + rhs.z }
    }
}

impl vstd::std_specs::ops::AddSpecImpl for Vector3 {
    open spec fn obeys_add_spec() -> bool {
        true
    }

    open spec fn add_req(self, rhs: Vector3) -> bool {
        true
    }

    open spec fn add_spec(self, rhs: Vector3) -> Vector3 {
        self.plus(rhs)
    }
}

impl core::ops::Sub for Vector3 {
    type Output = Vector3;

    fn sub(self, rhs: Vector3) -> (r: Vector3) {
        Vector3 { x: self.x - rhs.x, y: self.y - rhs.y, z: self.z - rhs.z }
    }
}

impl vstd::std_specs::ops::SubSpecImpl for Vector3 {
    open spec fn obeys_sub_spec() -> bool {
        true
    }

    open spec fn sub_req(self, rhs: Vector3) -> bool {
        true
    }

    open spec fn sub_spec(self, rhs: Vector3) -> Vector3 {
        self.minus(rhs)
    }
}

impl core::ops::Neg for Vector3 {
    type Output = Vector3;

    fn neg(self) -> (r: Vector3) {
        Vector3 { x: self.x.neg(), y: self.y.neg(), z: self.z.neg() }
    }
}

impl vstd::std_specs::ops::NegSpecImpl for Vector3 {
    open spec fn obeys_neg_spec() -> bool {
        true
    }

    open spec fn neg_req(self) -> bool {
        true
    }

    open spec fn neg_spec(self) -> Vector3 {
        self.negated()
    }
}

impl core::ops::Mul<Vector3> for Vector3 {
    type Output = Vector3;

    fn mul(self, rhs: Vector3) -> (r: Vector3) {
        Vector3 { x: self.x * rhs.x, y: self.y * rhs.y, z: self.z * rhs.z }
    }
}

impl vstd::std_specs::ops::MulSpecImpl<Vector3> for Vector3 {
    open spec fn obeys_mul_spec() -> bool {
        true
    }

    open spec fn mul_req(self, rhs: Vector3) -> bool {
        true
    }

    open spec fn mul_spec(self, rhs: Vector3) -> Vector3 {
        self.times(rhs)
    }
}

impl core::ops::Mul<Scalar> for Vector3 {
    type Output = Vector3;

    fn mul(self, rhs: Scalar) -> (r: Vector3) {
        Vector3 { x: self.x * rhs, y: self.y * rhs, z: self.z * rhs }
    }
}

impl vstd::std_specs::ops::MulSpecImpl<Scalar> for Vector3 {
    open spec fn obeys_mul_spec() -> bool {
        true
    }

    open spec fn mul_req(self, rhs: Scalar) -> bool {
        true
    }

    open spec fn mul_spec(self, rhs: Scalar) -> Vector3 {
        self.scaled(rhs)
    }
}

impl core::ops::Div<Vector3> for Vector3 {
    type Output = Vector3;

    fn div(self, rhs: Vector3) -> (r: Vector3) {
        Vector3 { x: self.x / rhs.x, y: self.y / rhs.y, z: self.z / rhs.z }
    }
}

impl vstd::std_specs::ops::DivSpecImpl<Vector3> for Vector3 {
    open spec fn obeys_div_spec() -> bool {
        true
    }

    open spec fn div_req(self, rhs: Vector3) -> bool {
        true
    }

    open spec fn div_spec(self, rhs: Vector3) -> Vector3 {
        self.over(rhs)
    }
}

impl core::ops::Div<Scalar> for Vector3 {
    type Output = Vector3;

    fn div(self, rhs: Scalar) -> (r: Vector3) {
        Vector3 { x: self.x / rhs, y: self.y / rhs, z: self.z / rhs }
    }
}

impl vstd::std_specs::ops::DivSpecImpl<Scalar> for Vector3 {
    open spec fn obeys_div_spec() -> bool {
        true
    }

    open spec fn div_req(self, rhs: Scalar) -> bool {
        true
    }

    open spec fn div_spec(self, rhs: Scalar) -> Vector3 {
        self.shrunk(rhs)
    }
}

impl core::ops::AddAssign<Vector3> for Vector3 {
    fn add_assign(&mut self, rhs: Vector3)
        ensures
            *final(self) == old(self).plus(rhs),
    {
        *self = *self + rhs;
    }
}

impl core::ops::MulAssign<Vector3> for Vector3 {
    fn mul_assign(&mut self, rhs: Vector3)
        ensures
            *final(self) == old(self).times(rhs),
    {
        *self = *self * rhs;
    }
}

impl core::ops::MulAssign<Scalar> for Vector3 {
    fn mul_assign(&mut self, rhs: Scalar)
        ensures
            *final(self) == old(self).scaled(rhs),
    {
        *self = *self * rhs;
    }
}

impl core::ops::DivAssign<Vector3> for Vector3 {
    fn div_assign(&mut self, rhs: Vector3)
        ensures
            *final(self) == old(self).over(rhs),
    {
        *self = *self / rhs;
    }
}

impl core::ops::DivAssign<Scalar> for Vector3 {
    /// Multiplies by the inverse of `rhs`, which is rounded before it is used.
    fn div_assign(&mut self, rhs: Scalar)
        ensures
            *final(self) == old(self).scaled(Scalar::of(ONE_RAW as int).over(rhs)),
    {
        let inverse = Scalar::one() / rhs;
        *self = *self * inverse;
    }
}

} // verus!
