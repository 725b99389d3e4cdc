//! Four-by-four matrices that transform row vectors: a vector is multiplied
//! from the left, so the rows of a matrix are the images of the axes and its
//! last row is the translation.

use vstd::prelude::*;
use crate::fixed::Fixed;
use crate::gfx3d::vec3d::Vec3d;
use crate::gfx3d::vec4d::Vec4d;

verus! {

/// A transform in homogeneous coordinates, row by row.
#[derive(Debug, Clone, Copy)]
pub struct Mat4x4 {
    pub m: [[Fixed; 4]; 4],
}

/// The sum of four products, taken from the first on.
pub open spec fn dot4(
    a0: Fixed,
    b0: Fixed,
    a1: Fixed,
    b1: Fixed,
    a2: Fixed,
    b2: Fixed,
    a3: Fixed,
    b3: Fixed,
) -> Fixed {
    a0.mul(b0).add(a1.mul(b1)).add(a2.mul(b2)).add(a3.mul(b3))
}

/// The determinant of the three-by-three matrix with the rows `(a, b, c)`,
/// `(d, e, f)` and `(g, h, i)`, developed by the first row.
pub open spec fn det3(
    a: Fixed,
    b: Fixed,
    c: Fixed,
    d: Fixed,
    e: Fixed,
    f: Fixed,
    g: Fixed,
    h: Fixed,
    i: Fixed,
) -> Fixed {
    a.mul(e.mul(i).sub(f.mul(h))).sub(b.mul(d.mul(i).sub(f.mul(g)))).add(
        c.mul(d.mul(h).sub(e.mul(g))),
    )
}

/// The `k`-th of the three indices that are left when `skipped` is taken
/// from `0, 1, 2, 3`.
pub open spec fn kept_index(skipped: int, k: int) -> int {
    if k < skipped {
        k
    } else {
        k + 1
    }
}

/// The factor by which an angle in degrees becomes one in radians, with
/// 3.14159 for pi.
pub open spec fn radians_per_degree() -> Fixed {
    Fixed { raw: 13493026427 }.div(Fixed::from_int(180))
}

impl Mat4x4 {
    /// The entry in row `r` and column `c`.
    pub open spec fn at(self, r: int, c: int) -> Fixed {
        self.m[r][c]
    }

    /// The matrix with the given rows.
    pub open spec fn of_rows(r0: [Fixed; 4], r1: [Fixed; 4], r2: [Fixed; 4], r3: [Fixed; 4]) -> Mat4x4 {
        Mat4x4 { m: [r0, r1, r2, r3] }
    }

    /// The transform that changes nothing.
    pub open spec fn identity_spec() -> Mat4x4 {
        let o = Fixed::one();
        let z = Fixed::zero();
        Mat4x4::of_rows([o, z, z, z], [z, o, z, z], [z, z, o, z], [z, z, z, o])
    }

    /// The rotation about the x axis by `rad` radians.
    pub open spec fn rotation_x_spec(rad: Fixed) -> Mat4x4 {
        let o = Fixed::one();
        let z = Fixed::zero();
        Mat4x4::of_rows(
            [o, z, z, z],
            [z, rad.cos(), rad.sin(), z],
            [z, rad.sin().neg(), rad.cos(), z],
            [z, z, z, o],
        )
    }

    /// The rotation about the y axis by `rad` radians.
    pub open spec fn rotation_y_spec(rad: Fixed) -> Mat4x4 {
        let o = Fixed::one();
        let z = Fixed::zero();
        Mat4x4::of_rows(
            [rad.cos(), z, rad.sin(), z],
            [z, o, z, z],
            [rad.sin().neg(), z, rad.cos(), z],
            [z, z, z, o],
        )
    }

    /// The rotation about the z axis by `rad` radians.
    pub open spec fn rotation_z_spec(rad: Fixed) -> Mat4x4 {
        let o = Fixed::one();
        let z = Fixed::zero();
        Mat4x4::of_rows(
            [rad.cos(), rad.sin(), z, z],
            [rad.sin().neg(), rad.cos(), z, z],
            [z, z, o, z],
            [z, z, z, o],
        )
    }

    /// The scaling by a factor for each axis.
    pub open spec fn scale_spec(x: Fixed, y: Fixed, z: Fixed) -> Mat4x4 {
        let o = Fixed::one();
        let n = Fixed::zero();
        Mat4x4::of_rows([x, n, n, n], [n, y, n, n], [n, n, z, n], [n, n, n, o])
    }

    /// The shift by `(x, y, z)`: the identity with the shift as its last row.
    pub open spec fn translation_spec(x: Fixed, y: Fixed, z: Fixed) -> Mat4x4 {
        let o = Fixed::one();
        let n = Fixed::zero();
        Mat4x4::of_rows([o, n, n, n], [n, o, n, n], [n, n, o, n], [x, y, z, o])
    }

    /// The cotangent of half the field of view, which is given in degrees.
    pub open spec fn focal(fov: Fixed) -> Fixed {
        Fixed::one().div(fov.mul(Fixed::half()).mul(radians_per_degree()).tan())
    }

    /// The perspective projection: the focal factor scales `x` and `y`, the
    /// third column maps depths from `near` to `far` onto zero to one times the
    /// depth, and the fourth column makes the depth the weight.
    pub open spec fn projection_spec(fov: Fixed, ar: Fixed, near: Fixed, far: Fixed) -> Mat4x4 {
        let o = Fixed::one();
        let z = Fixed::zero();
        let f = Mat4x4::focal(fov);
        Mat4x4::of_rows(
            [ar.mul(f), z, z, z],
            [z, f, z, z],
            [z, z, far.div(far.sub(near)), o],
            [z, z, far.neg().mul(near).div(far.sub(near)), z],
        )
    }

    /// The placement of a camera: the forward direction is the way to the
    /// target scaled to length one, the up direction is `up` less its part along
    /// forward, scaled to length one, and right is up cross forward.
    pub open spec fn point_at_spec(pos: Vec3d, target: Vec3d, up: Vec3d) -> Mat4x4 {
        let forward = target.sub(pos).norm();
        let t = up.dot(&forward);
        let new_up = up.sub(forward.mul(t)).norm();
        let right = new_up.cross(&forward);
        let o = Fixed::one();
        let z = Fixed::zero();
        Mat4x4::of_rows(
            [right.x, right.y, right.z, z],
            [new_up.x, new_up.y, new_up.z, z],
            [forward.x, forward.y, forward.z, z],
            [pos.x, pos.y, pos.z, o],
        )
    }

    /// The determinant of what is left of the matrix without row `r` and
    /// column `c`.
    pub open spec fn minor(self, r: int, c: int) -> Fixed {
        let r0 = kept_index(r, 0);
        let r1 = kept_index(r, 1);
        let r2 = kept_index(r, 2);
        let c0 = kept_index(c, 0);
        let c1 = kept_index(c, 1);
        let c2 = kept_index(c, 2);
        det3(
            self.at(r0, c0),
            self.at(r0, c1),
            self.at(r0, c2),
            self.at(r1, c0),
            self.at(r1, c1),
            self.at(r1, c2),
            self.at(r2, c0),
            self.at(r2, c1),
            self.at(r2, c2),
        )
    }

    /// The minor with the sign of its place.
    pub open spec fn cofactor(self, r: int, c: int) -> Fixed {
        if (r + c) % 2 == 0 {
            self.minor(r, c)
        } else {
            self.minor(r, c).neg()
        }
    }

    /// The determinant, developed by the first row.
    pub open spec fn det(self) -> Fixed {
        dot4(
            self.at(0, 0),
            self.cofactor(0, 0),
            self.at(0, 1),
            self.cofactor(0, 1),
            self.at(0, 2),
            self.cofactor(0, 2),
            self.at(0, 3),
            self.cofactor(0, 3),
        )
    }

    /// The entry in row `r` and column `c` of the inverse: the cofactor of
    /// the mirrored place, times the inverse of the determinant.
    pub open spec fn inverse_at(self, r: int, c: int) -> Fixed {
        self.cofactor(c, r).mul(Fixed::one().div(self.det()))
    }

    /// The inverse, entry by entry.
    pub open spec fn inverse_spec(&self) -> Mat4x4 {
        Mat4x4::of_rows(
            [
                self.inverse_at(0, 0),
                self.inverse_at(0, 1),
                self.inverse_at(0, 2),
                self.inverse_at(0, 3),
            ],
            [
                self.inverse_at(1, 0),
                self.inverse_at(1, 1),
                self.inverse_at(1, 2),
                self.inverse_at(1, 3),
            ],
            [
                self.inverse_at(2, 0),
                self.inverse_at(2, 1),
                self.inverse_at(2, 2),
                self.inverse_at(2, 3),
            ],
            [
                self.inverse_at(3, 0),
                self.inverse_at(3, 1),
                self.inverse_at(3, 2),
                self.inverse_at(3, 3),
            ],
        )
    }

    /// Row `r` of this matrix times column `c` of `rhs`.
    pub open spec fn row_by_column(self, rhs: Mat4x4, r: int, c: int) -> Fixed {
        dot4(
            self.at(r, 0),
            rhs.at(0, c),
            self.at(r, 1),
            rhs.at(1, c),
            self.at(r, 2),
            rhs.at(2, c),
            self.at(r, 3),
            rhs.at(3, c),
        )
    }

    /// The product, entry by entry: row of this matrix times column of `rhs`.
    pub open spec fn mul_spec(self, rhs: Mat4x4) -> Mat4x4 {
        Mat4x4::of_rows(
            [
                self.row_by_column(rhs, 0, 0),
                self.row_by_column(rhs, 0, 1),
                self.row_by_column(rhs, 0, 2),
                self.row_by_column(rhs, 0, 3),
            ],
            [
                self.row_by_column(rhs, 1, 0),
                self.row_by_column(rhs, 1, 1),
                self.row_by_column(rhs, 1, 2),
                self.row_by_column(rhs, 1, 3),
            ],
            [
                self.row_by_column(rhs, 2, 0),
                self.row_by_column(rhs, 2, 1),
                self.row_by_column(rhs, 2, 2),
                self.row_by_column(rhs, 2, 3),
            ],
            [
                self.row_by_column(rhs, 3, 0),
                self.row_by_column(rhs, 3, 1),
                self.row_by_column(rhs, 3, 2),
                self.row_by_column(rhs, 3, 3),
            ],
        )
    }

    /// The vector `(x, y, z, w)` times column `c`.
    pub open spec fn by_column(self, x: Fixed, y: Fixed, z: Fixed, w: Fixed, c: int) -> Fixed {
        dot4(x, self.at(0, c), y, self.at(1, c), z, self.at(2, c), w, self.at(3, c))
    }

    /// The row vector `rhs` times the matrix.
    pub open spec fn mul_vec4d_spec(self, rhs: Vec4d) -> Vec4d {
        Vec4d {
            x: self.by_column(rhs.x, rhs.y, rhs.z, rhs.w, 0),
            y: self.by_column(rhs.x, rhs.y, rhs.z, rhs.w, 1),
            z: self.by_column(rhs.x, rhs.y, rhs.z, rhs.w, 2),
            w: self.by_column(rhs.x, rhs.y, rhs.z, rhs.w, 3),
        }
    }

    /// The row vector `rhs`, with weight one, times the matrix, without the
    /// weight of the result.
    pub open spec fn mul_vec3d_spec(self, rhs: Vec3d) -> Vec3d {
        Vec3d {
            x: self.by_column(rhs.x, rhs.y, rhs.z, Fixed::one(), 0),
            y: self.by_column(rhs.x, rhs.y, rhs.z, Fixed::one(), 1),
            z: self.by_column(rhs.x, rhs.y, rhs.z, Fixed::one(), 2),
        }
    }

    /// The transform that changes nothing.
    #[verifier::when_used_as_spec(identity_spec)]
    pub fn make_identity() -> (r: Mat4x4)
        ensures
            r == Mat4x4::identity_spec(),
    {
        let o = Fixed::one();
        let z = Fixed::zero();
        Mat4x4 { m: [[o, z, z, z], [z, o, z, z], [z, z, o, z], [z, z, z, o]] }
    }

    /// The rotation about the x axis by an angle in radians.
    #[verifier::when_used_as_spec(rotation_x_spec)]
    pub fn make_rotation_x(rad: Fixed) -> (r: Mat4x4)
        ensures
            r == Mat4x4::rotation_x_spec(rad),
    {
        let o = Fixed::one();
        let z = Fixed::zero();
        let c = rad.cos();
        let s = rad.sin();
        Mat4x4 { m: [[o, z, z, z], [z, c, s, z], [z, s.neg(), c, z], [z, z, z, o]] }
    }

    /// The rotation about the y axis by an angle in radians.
    #[verifier::when_used_as_spec(rotation_y_spec)]
    pub fn make_rotation_y(rad: Fixed) -> (r: Mat4x4)
        ensures
            r == Mat4x4::rotation_y_spec(rad),
    {
        let o = Fixed::one();
        let z = Fixed::zero();
        let c = rad.cos();
        let s = rad.sin();
        Mat4x4 { m: [[c, z, s, z], [z, o, z, z], [s.neg(), z, c, z], [z, z, z, o]] }
    }

    /// The rotation about the z axis by an angle in radians.
    #[verifier::when_used_as_spec(rotation_z_spec)]
    pub fn make_rotation_z(rad: Fixed) -> (r: Mat4x4)
        ensures
            r == Mat4x4::rotation_z_spec(rad),
    {
        let o = Fixed::one();
        let z = Fixed::zero();
        let c = rad.cos();
        let s = rad.sin();
        Mat4x4 { m: [[c, s, z, z], [s.neg(), c, z, z], [z, z, o, z], [z, z, z, o]] }
    }

    /// The scaling by a factor for each axis.
    #[verifier::when_used_as_spec(scale_spec)]
    pub fn make_scale(x: Fixed, y: Fixed, z: Fixed) -> (r: Mat4x4)
        ensures
            r == Mat4x4::scale_spec(x, y, z),
    {
        let o = Fixed::one();
        let n = Fixed::zero();
        Mat4x4 { m: [[x, n, n, n], [n, y, n, n], [n, n, z, n], [n, n, n, o]] }
    }

    /// The shift by `(x, y, z)`.
    #[verifier::when_used_as_spec(translation_spec)]
    pub fn make_translation(x: Fixed, y: Fixed, z: Fixed) -> (r: Mat4x4)
        ensures
            r == Mat4x4::translation_spec(x, y, z),
    {
        let o = Fixed::one();
        let n = Fixed::zero();
        Mat4x4 { m: [[o, n, n, n], [n, o, n, n], [n, n, o, n], [x, y, z, o]] }
    }

    /// The perspective projection for a vertical field of view in degrees,
    /// an aspect ratio and the distances of the near and the far plane. The
    /// fourth component that it gives a position is the position's depth
    /// `z`, for the perspective divide that follows.
    #[verifier::when_used_as_spec(projection_spec)]
    pub fn make_projection(fov: Fixed, ar: Fixed, near: Fixed, far: Fixed) -> (r: Mat4x4)
        ensures
            r == Mat4x4::projection_spec(fov, ar, near, far),
    {
        let o = Fixed::one();
        let z = Fixed::zero();
        let per_degree = (Fixed { raw: 13493026427 }).div(Fixed::from_int(180));
        let f = Fixed::one().div(fov.mul(Fixed::half()).mul(per_degree).tan());
        let depth = far.sub(near);
        Mat4x4 {
            m: [
                [ar.mul(f), z, z, z],
                [z, f, z, z],
                [z, z, far.div(depth), o],
                [z, z, far.neg().mul(near).div(depth), z],
            ],
        }
    }

    /// The placement of a camera at `pos` that looks at `target`, with `up`
    /// giving the upward side: its rows are the camera's right, up and
    /// forward directions and its position.
    #[verifier::when_used_as_spec(point_at_spec)]
    pub fn make_point_at(pos: Vec3d, target: Vec3d, up: Vec3d) -> (r: Mat4x4)
        ensures
            r == Mat4x4::point_at_spec(pos, target, up),
    {
        let forward = target.sub(pos).norm();
        let t = up.dot(&forward);
        let new_up = up.sub(forward.mul(t)).norm();
        let right = new_up.cross(&forward);
        let o = Fixed::one();
        let z = Fixed::zero();
        Mat4x4 {
            m: [
                [right.x, right.y, right.z, z],
                [new_up.x, new_up.y, new_up.z, z],
                [forward.x, forward.y, forward.z, z],
                [pos.x, pos.y, pos.z, o],
            ],
        }
    }

    /// Computes [`Mat4x4::cofactor`].
    fn cofactor_of(&self, r: usize, c: usize) -> (d: Fixed)
        requires
            r < 4,
            c < 4,
        ensures
            d == self.cofactor(r as int, c as int),
    {
        let r0: usize = if 0 < r {
            0
        } else {
            1
        };
        let r1: usize = if 1 < r {
            1
        } else {
            2
        };
        let r2: usize = if 2 < r {
            2
        } else {
            3
        };
        let c0: usize = if 0 < c {
            0
        } else {
            1
        };
        let c1: usize = if 1 < c {
            1
        } else {
            2
        };
        let c2: usize = if 2 < c {
            2
        } else {
            3
        };
        let (a, b, cc) = (self.m[r0][c0], self.m[r0][c1], self.m[r0][c2]);
        let (d, e, f) = (self.m[r1][c0], self.m[r1][c1], self.m[r1][c2]);
        let (g, h, i) = (self.m[r2][c0], self.m[r2][c1], self.m[r2][c2]);
        let minor = a.mul(e.mul(i).sub(f.mul(h))).sub(b.mul(d.mul(i).sub(f.mul(g)))).add(
            cc.mul(d.mul(h).sub(e.mul(g))),
        );
        if (r + c) % 2 == 0 {
            minor
        } else {
            minor.neg()
        }
    }

    /// The inverse, by cofactors. The matrix is to have one: where the
    /// determinant is zero the result has no meaning.
    #[verifier::when_used_as_spec(inverse_spec)]
    pub fn inverse(&self) -> (r: Mat4x4)
        ensures
            r == self.inverse_spec(),
    {
        let c00 = self.cofactor_of(0, 0);
        let c01 = self.cofactor_of(0, 1);
        let c02 = self.cofactor_of(0, 2);
        let c03 = self.cofactor_of(0, 3);
        let det = self.m[0][0].mul(c00).add(self.m[0][1].mul(c01)).add(self.m[0][2].mul(c02)).add(
            self.m[0][3].mul(c03),
        );
        let k = Fixed::one().div(det);
        Mat4x4 {
            m: [
                [
                    c00.mul(k),
                    self.cofactor_of(1, 0).mul(k),
                    self.cofactor_of(2, 0).mul(k),
                    self.cofactor_of(3, 0).mul(k),
                ],
                [
                    c01.mul(k),
                    self.cofactor_of(1, 1).mul(k),
                    self.cofactor_of(2, 1).mul(k),
                    self.cofactor_of(3, 1).mul(k),
                ],
                [
                    c02.mul(k),
                    self.cofactor_of(1, 2).mul(k),
                    self.cofactor_of(2, 2).mul(k),
                    self.cofactor_of(3, 2).mul(k),
                ],
                [
                    c03.mul(k),
                    self.cofactor_of(1, 3).mul(k),
                    self.cofactor_of(2, 3).mul(k),
                    self.cofactor_of(3, 3).mul(k),
                ],
            ],
        }
    }

    /// Computes [`Mat4x4::row_by_column`].
    fn entry(&self, rhs: &Mat4x4, r: usize, c: usize) -> (e: Fixed)
        requires
            r < 4,
            c < 4,
        ensures
            e == self.row_by_column(*rhs, r as int, c as int),
    {
        self.m[r][0].mul(rhs.m[0][c]).add(self.m[r][1].mul(rhs.m[1][c])).add(
            self.m[r][2].mul(rhs.m[2][c]),
        ).add(self.m[r][3].mul(rhs.m[3][c]))
    }

    /// The product: the transform that applies this matrix and then `rhs`.
    #[verifier::when_used_as_spec(mul_spec)]
    pub fn mul(self, rhs: Mat4x4) -> (r: Mat4x4)
        ensures
            r == self.mul_spec(rhs),
    {
        Mat4x4 {
            m: [
                [
                    self.entry(&rhs, 0, 0),
                    self.entry(&rhs, 0, 1),
                    self.entry(&rhs, 0, 2),
                    self.entry(&rhs, 0, 3),
                ],
                [
                    self.entry(&rhs, 1, 0),
                    self.entry(&rhs, 1, 1),
                    self.entry(&rhs, 1, 2),
                    self.entry(&rhs, 1, 3),
                ],
                [
                    self.entry(&rhs, 2, 0),
                    self.entry(&rhs, 2, 1),
                    self.entry(&rhs, 2, 2),
                    self.entry(&rhs, 2, 3),
                ],
                [
                    self.entry(&rhs, 3, 0),
                    self.entry(&rhs, 3, 1),
                    self.entry(&rhs, 3, 2),
                    self.entry(&rhs, 3, 3),
                ],
            ],
        }
    }

    /// Computes [`Mat4x4::by_column`].
    fn column(&self, x: Fixed, y: Fixed, z: Fixed, w: Fixed, c: usize) -> (e: Fixed)
        requires
            c < 4,
        ensures
            e == self.by_column(x, y, z, w, c as int),
    {
        x.mul(self.m[0][c]).add(y.mul(self.m[1][c])).add(z.mul(self.m[2][c])).add(w.mul(self.m[3][c]))
    }

    /// The image of a position.
    #[verifier::when_used_as_spec(mul_vec4d_spec)]
    pub fn mul_vec4d(self, rhs: Vec4d) -> (r: Vec4d)
        ensures
            r == self.mul_vec4d_spec(rhs),
    {
        Vec4d {
            x: self.column(rhs.x, rhs.y, rhs.z, rhs.w, 0),
            y: self.column(rhs.x, rhs.y, rhs.z, rhs.w, 1),
            z: self.column(rhs.x, rhs.y, rhs.z, rhs.w, 2),
            w: self.column(rhs.x, rhs.y, rhs.z, rhs.w, 3),
        }
    }

    /// The image of a point given by three coordinates, its weight taken as
    /// one.
    #[verifier::when_used_as_spec(mul_vec3d_spec)]
    pub fn mul_vec3d(self, rhs: Vec3d) -> (r: Vec3d)
        ensures
            r == self.mul_vec3d_spec(rhs),
    {
        let o = Fixed::one();
        Vec3d {
            x: self.column(rhs.x, rhs.y, rhs.z, o, 0),
            y: self.column(rhs.x, rhs.y, rhs.z, o, 1),
            z: self.column(rhs.x, rhs.y, rhs.z, o, 2),
        }
    }
}

/// The projection hands a position's depth on as its weight: whatever the
/// field of view, the aspect ratio and the planes, the fourth component of a
/// projected position is the `z` of the position, so that the perspective
/// divide that follows divides by the depth.
pub proof fn lemma_projection_weight(fov: Fixed, ar: Fixed, near: Fixed, far: Fixed, p: Vec4d)
    ensures
        Mat4x4::make_projection(fov, ar, near, far).mul_vec4d(p).w == p.z,
{
    crate::fixed::lemma_units(p.x);
    crate::fixed::lemma_units(p.y);
    crate::fixed::lemma_units(p.z);
    crate::fixed::lemma_units(p.w);
    crate::fixed::lemma_units(Fixed::zero());
}

/// The identity changes no position.
pub proof fn lemma_identity(p: Vec4d)
    ensures
        Mat4x4::make_identity().mul_vec4d(p) == p,
{
    crate::fixed::lemma_units(p.x);
    crate::fixed::lemma_units(p.y);
    crate::fixed::lemma_units(p.z);
    crate::fixed::lemma_units(p.w);
    crate::fixed::lemma_units(Fixed::zero());
}

/// A number and its negative cancel, where the number has a negative.
proof fn lemma_signs(a: Fixed)
    requires
        a.raw > i64::MIN,
    ensures
        Fixed::zero().sub(a) == a.neg(),
        Fixed::zero().sub(a.neg()) == a,
        a.neg().neg() == a,
        a.neg().add(a) == Fixed::zero(),
        a.add(a.neg()) == Fixed::zero(),
        a.sub(a) == Fixed::zero(),
{
    reveal(Fixed::add_spec);
    reveal(Fixed::sub_spec);
    reveal(Fixed::neg_spec);
}

/// The inverse of a move is the move back, and the two cancel exactly, in
/// either order: here the inverse is an inverse without rounding. The
/// components of the move are to have a negative.
pub proof fn lemma_translation_inverse(x: Fixed, y: Fixed, z: Fixed)
    requires
        x.raw > i64::MIN,
        y.raw > i64::MIN,
        z.raw > i64::MIN,
    ensures
        Mat4x4::make_translation(x, y, z).inverse() == Mat4x4::make_translation(
            x.neg(),
            y.neg(),
            z.neg(),
        ),
        Mat4x4::make_translation(x, y, z).inverse().mul(Mat4x4::make_translation(x, y, z))
            == Mat4x4::make_identity(),
        Mat4x4::make_translation(x, y, z).mul(Mat4x4::make_translation(x, y, z).inverse())
            == Mat4x4::make_identity(),
{
    let o = Fixed::one();
    let n = Fixed::zero();
    let m = o.neg();
    reveal(Fixed::neg_spec);
    assert(m.raw == -crate::fixed::unit() && n.neg() == n);
    lemma_signs(x);
    lemma_signs(y);
    lemma_signs(z);
    lemma_signs(o);
    lemma_signs(n);
    crate::fixed::lemma_units(x);
    crate::fixed::lemma_units(y);
    crate::fixed::lemma_units(z);
    crate::fixed::lemma_units(x.neg());
    crate::fixed::lemma_units(y.neg());
    crate::fixed::lemma_units(z.neg());
    crate::fixed::lemma_units(o);
    crate::fixed::lemma_units(n);
    crate::fixed::lemma_units(m);
    let t = Mat4x4::make_translation(x, y, z);
    let back = Mat4x4::make_translation(x.neg(), y.neg(), z.neg());
    assert(t.det() == o);
    assert(t.inverse().m =~~= back.m);
    assert(back.mul(t).m =~~= Mat4x4::make_identity().m);
    assert(t.mul(back).m =~~= Mat4x4::make_identity().m);
}

/// A camera that looks straight along `z`, with `y` up, is placed by a
/// move to its position alone: nothing is turned.
pub proof fn lemma_point_at_along_z(pos: Vec3d, target: Vec3d)
    requires
        target.x == pos.x,
        target.y == pos.y,
        target.z.raw > pos.z.raw,
    ensures
        Mat4x4::make_point_at(
            pos,
            target,
            Vec3d { x: Fixed::zero(), y: Fixed::one(), z: Fixed::zero() },
        ) == Mat4x4::make_translation(pos.x, pos.y, pos.z),
{
    let o = Fixed::one();
    let n = Fixed::zero();
    let up = Vec3d { x: n, y: o, z: n };
    let way = target.sub(pos);
    assert(way.x == n && way.y == n && way.z.raw > 0) by {
        reveal(Fixed::sub_spec);
    }
    crate::length::lemma_axis_direction(way.z);
    crate::length::lemma_axis_direction(o);
    crate::fixed::lemma_units(o);
    crate::fixed::lemma_units(n);
    let forward = way.norm();
    assert(forward == Vec3d { x: n, y: n, z: o });
    assert(up.dot(&forward) == n);
    assert(up.sub(forward.mul(n)) == up);
    assert(up.norm() == up);
    assert(up.cross(&forward) == Vec3d { x: o, y: n, z: n });
    assert(Mat4x4::make_point_at(pos, target, up).m =~~= Mat4x4::make_translation(
        pos.x,
        pos.y,
        pos.z,
    ).m);
}

/// For a camera that looks straight along `z`, with `y` up, the view
/// transform undoes the placement exactly: the inverse of the placement
/// times the placement is the transform that changes nothing, in either
/// order. The camera's position is to have a negative in every component.
pub proof fn lemma_view_undoes_placement(pos: Vec3d, target: Vec3d)
    requires
        target.x == pos.x,
        target.y == pos.y,
        target.z.raw > pos.z.raw,
        pos.x.raw > i64::MIN,
        pos.y.raw > i64::MIN,
        pos.z.raw > i64::MIN,
    ensures
        ({
            let placement = Mat4x4::make_point_at(
                pos,
                target,
                Vec3d { x: Fixed::zero(), y: Fixed::one(), z: Fixed::zero() },
            );
            &&& placement.inverse().mul(placement) == Mat4x4::make_identity()
            &&& placement.mul(placement.inverse()) == Mat4x4::make_identity()
        }),
{
    lemma_point_at_along_z(pos, target);
    lemma_translation_inverse(pos.x, pos.y, pos.z);
}

/// The forward and the up direction of a camera's placement have length
/// one, up to four steps of the grid, and the position stands in the last
/// row as it is. The camera is to look at a target that is not its
/// position, and `up` is not to lie along the way to the target.
pub proof fn lemma_point_at_rows(pos: Vec3d, target: Vec3d, up: Vec3d)
    requires
        target.sub(pos) != Vec3d::zero(),
        up.sub(target.sub(pos).norm().mul(up.dot(&target.sub(pos).norm()))) != Vec3d::zero(),
    ensures
        ({
            let m = Mat4x4::make_point_at(pos, target, up);
            let new_up = Vec3d { x: m.at(1, 0), y: m.at(1, 1), z: m.at(1, 2) };
            let forward = Vec3d { x: m.at(2, 0), y: m.at(2, 1), z: m.at(2, 2) };
            &&& crate::fixed::unit() - 4 <= forward.length().raw <= crate::fixed::unit()
            &&& crate::fixed::unit() - 4 <= new_up.length().raw <= crate::fixed::unit()
            &&& m.at(3, 0) == pos.x && m.at(3, 1) == pos.y && m.at(3, 2) == pos.z
            &&& m.at(3, 3) == Fixed::one()
        }),
{
    let way = target.sub(pos);
    let forward = way.norm();
    let rest = up.sub(forward.mul(up.dot(&forward)));
    crate::gfx3d::vec3d::lemma_norm_length(way);
    crate::gfx3d::vec3d::lemma_norm_length(rest);
    let m = Mat4x4::make_point_at(pos, target, up);
    assert(Vec3d { x: m.at(2, 0), y: m.at(2, 1), z: m.at(2, 2) } == forward);
    assert(Vec3d { x: m.at(1, 0), y: m.at(1, 1), z: m.at(1, 2) } == rest.norm());
}

} // verus!
