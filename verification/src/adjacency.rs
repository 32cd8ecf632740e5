//! How two pixels lie to each other: whether they are the same, overlap, or
//! are neighbours.
//!
//! The library decides this from the answers to four questions about points,
//! lines and boxes, and from the centroids of pixels. Answering takes
//! arithmetic on coordinates, which the caller brings along as a kernel. All
//! that is asked of a kernel is that it answers every question, and the same
//! question always alike.

use crate::geo::{BoundingBox, Coord, Line};
use crate::pixel::{bounds_of, empty_box, Pixel, PixelList};
use vstd::prelude::*;

verus! {

/// The tolerance, in degrees, within which two pixels that are merged count
/// as the same: 0.01.
pub const OVERLAP_FUDGE_FACTOR: u64 = 0x3F84_7AE1_47AE_147B;

/// A question about coordinates. The last field of each is the tolerance, in
/// degrees, as a binary64 bit pattern.
#[derive(Clone, Copy, Debug, PartialEq, Eq, Structural)]
pub enum Question {
    /// Are the two points within the tolerance of each other?
    Close(Coord, Coord, u64),
    /// Do the two lines intersect, other than where an end of the one meets
    /// an end of the other within the tolerance?
    Crosses(Line, Line, u64),
    /// Does the box hold the point, give or take the tolerance?
    BoxHolds(BoundingBox, Coord, u64),
    /// Do the two boxes overlap, give or take the tolerance?
    BoxesOverlap(BoundingBox, BoundingBox, u64),
}

/// The arithmetic that the library leaves to its caller: `answer` answers
/// questions, and `centroid` gives the centroid of a pixel.
pub struct Kernel<A, C> {
    pub answer: A,
    pub centroid: C,
}

/// The kernel answers the question with yes.
pub open spec fn yes<A: Fn(Question) -> bool, C: Fn(Pixel) -> Coord>(
    kernel: Kernel<A, C>,
    q: Question,
) -> bool {
    call_ensures(kernel.answer, (q,), true)
}

/// The kernel gives a centroid for the pixel.
pub open spec fn has_center<A: Fn(Question) -> bool, C: Fn(Pixel) -> Coord>(
    kernel: Kernel<A, C>,
    p: Pixel,
) -> bool {
    call_requires(kernel.centroid, (p,))
}

/// The centroid that the kernel gives for the pixel.
pub open spec fn center<A: Fn(Question) -> bool, C: Fn(Pixel) -> Coord>(
    kernel: Kernel<A, C>,
    p: Pixel,
) -> Coord {
    choose|c: Coord| call_ensures(kernel.centroid, (p,), c)
}

/// The kernel answers every question, and never the same question or pixel
/// in two ways.
pub open spec fn steady<A: Fn(Question) -> bool, C: Fn(Pixel) -> Coord>(kernel: Kernel<A, C>) -> bool {
    &&& forall|q: Question| call_requires(kernel.answer, (q,))
    &&& forall|q: Question|
        !(call_ensures(kernel.answer, (q,), true) && #[trigger] call_ensures(
            kernel.answer,
            (q,),
            false,
        ))
    &&& forall|p: Pixel, c1: Coord, c2: Coord|
        #[trigger] call_ensures(kernel.centroid, (p,), c1) && #[trigger] call_ensures(
            kernel.centroid,
            (p,),
            c2,
        ) ==> c1 == c2
}

/// The kernel answers alike when the two things that a question is about
/// change places.
pub open spec fn even_handed<A: Fn(Question) -> bool, C: Fn(Pixel) -> Coord>(
    kernel: Kernel<A, C>,
) -> bool {
    &&& forall|a: Coord, b: Coord, eps: u64| #[trigger]
        yes(kernel, Question::Close(a, b, eps)) == yes(kernel, Question::Close(b, a, eps))
    &&& forall|a: Line, b: Line, eps: u64| #[trigger]
        yes(kernel, Question::Crosses(a, b, eps)) == yes(kernel, Question::Crosses(b, a, eps))
    &&& forall|a: BoundingBox, b: BoundingBox, eps: u64| #[trigger]
        yes(kernel, Question::BoxesOverlap(a, b, eps)) == yes(
            kernel,
            Question::BoxesOverlap(b, a, eps),
        )
}

impl Pixel {
    /// The corners in the order upper left, upper right, lower right, lower
    /// left.
    pub open spec fn corners(self) -> Seq<Coord> {
        seq![self.ul, self.ur, self.lr, self.ll]
    }

    /// The four sides, from the upper one on clockwise.
    pub open spec fn edges(self) -> Seq<Line> {
        seq![
            Line { start: self.ul, end: self.ur },
            Line { start: self.ur, end: self.lr },
            Line { start: self.lr, end: self.ll },
            Line { start: self.ll, end: self.ul },
        ]
    }

    /// The lines from a point to the corners: upper left, upper right, lower
    /// left, lower right.
    pub open spec fn rays(self, from: Coord) -> Seq<Line> {
        seq![
            Line { start: from, end: self.ul },
            Line { start: from, end: self.ur },
            Line { start: from, end: self.ll },
            Line { start: from, end: self.lr },
        ]
    }
}

/// Corner for corner, the two pixels are within the tolerance of each other.
pub open spec fn approx<A: Fn(Question) -> bool, C: Fn(Pixel) -> Coord>(
    kernel: Kernel<A, C>,
    p: Pixel,
    q: Pixel,
    eps: u64,
) -> bool {
    &&& yes(kernel, Question::Close(p.ul, q.ul, eps))
    &&& yes(kernel, Question::Close(p.ur, q.ur, eps))
    &&& yes(kernel, Question::Close(p.lr, q.lr, eps))
    &&& yes(kernel, Question::Close(p.ll, q.ll, eps))
}

/// Side `i` of the pixel crosses the line from `c` to corner `j`.
pub open spec fn side_crosses_ray<A: Fn(Question) -> bool, C: Fn(Pixel) -> Coord>(
    kernel: Kernel<A, C>,
    p: Pixel,
    c: Coord,
    eps: u64,
    i: int,
    j: int,
) -> bool {
    yes(kernel, Question::Crosses(p.edges()[i], p.rays(c)[j], eps))
}

/// The point lies inside the pixel, and not on its boundary: the box of the
/// pixel holds it, and no line from it to a corner crosses a side.
pub open spec fn inside<A: Fn(Question) -> bool, C: Fn(Pixel) -> Coord>(
    kernel: Kernel<A, C>,
    p: Pixel,
    c: Coord,
    eps: u64,
) -> bool {
    &&& yes(kernel, Question::BoxHolds(p.grow(empty_box()), c, eps))
    &&& forall|i: int, j: int|
        0 <= i < 4 && 0 <= j < 4 ==> !#[trigger] side_crosses_ray(kernel, p, c, eps, i, j)
}

/// Side `i` of the one pixel crosses side `j` of the other.
pub open spec fn sides_cross<A: Fn(Question) -> bool, C: Fn(Pixel) -> Coord>(
    kernel: Kernel<A, C>,
    p: Pixel,
    q: Pixel,
    eps: u64,
    i: int,
    j: int,
) -> bool {
    yes(kernel, Question::Crosses(p.edges()[i], q.edges()[j], eps))
}

/// Some side of the one pixel crosses a side of the other.
pub open spec fn some_sides_cross<A: Fn(Question) -> bool, C: Fn(Pixel) -> Coord>(
    kernel: Kernel<A, C>,
    p: Pixel,
    q: Pixel,
    eps: u64,
) -> bool {
    exists|i: int, j: int| 0 <= i < 4 && 0 <= j < 4 && #[trigger] sides_cross(kernel, p, q, eps, i, j)
}

/// Corner `i` of `p` lies inside `q`.
pub open spec fn corner_inside<A: Fn(Question) -> bool, C: Fn(Pixel) -> Coord>(
    kernel: Kernel<A, C>,
    p: Pixel,
    q: Pixel,
    eps: u64,
    i: int,
) -> bool {
    inside(kernel, q, p.corners()[i], eps)
}

/// Some corner of `p` lies inside `q`.
pub open spec fn some_corner_inside<A: Fn(Question) -> bool, C: Fn(Pixel) -> Coord>(
    kernel: Kernel<A, C>,
    p: Pixel,
    q: Pixel,
    eps: u64,
) -> bool {
    exists|i: int| 0 <= i < 4 && #[trigger] corner_inside(kernel, p, q, eps, i)
}

/// The boxes of the two pixels overlap.
pub open spec fn boxes_meet<A: Fn(Question) -> bool, C: Fn(Pixel) -> Coord>(
    kernel: Kernel<A, C>,
    p: Pixel,
    q: Pixel,
    eps: u64,
) -> bool {
    yes(kernel, Question::BoxesOverlap(p.grow(empty_box()), q.grow(empty_box()), eps))
}

/// The pixels overlap: they are the same; or their boxes overlap and either
/// two of their sides cross or a corner of `p` lies inside `q`.
pub open spec fn overlaps<A: Fn(Question) -> bool, C: Fn(Pixel) -> Coord>(
    kernel: Kernel<A, C>,
    p: Pixel,
    q: Pixel,
    eps: u64,
) -> bool {
    approx(kernel, p, q, eps) || (boxes_meet(kernel, p, q, eps) && (some_sides_cross(
        kernel,
        p,
        q,
        eps,
    ) || some_corner_inside(kernel, p, q, eps)))
}

/// Corner `i` of `p` is within the tolerance of corner `j` of `q`.
pub open spec fn close_pair<A: Fn(Question) -> bool, C: Fn(Pixel) -> Coord>(
    kernel: Kernel<A, C>,
    p: Pixel,
    q: Pixel,
    eps: u64,
    i: int,
    j: int,
) -> bool {
    yes(kernel, Question::Close(p.corners()[i], q.corners()[j], eps))
}

/// One where `hit` holds, and else zero.
#[verifier::opaque]
pub open spec fn hits(hit: bool) -> nat {
    if hit {
        1
    } else {
        0
    }
}

/// The number of corners of `q`, among its first `upto`, that corner `i` of
/// `p` is close to.
pub open spec fn close_in_row<A: Fn(Question) -> bool, C: Fn(Pixel) -> Coord>(
    kernel: Kernel<A, C>,
    p: Pixel,
    q: Pixel,
    eps: u64,
    i: int,
    upto: int,
) -> nat {
    hits(upto > 0 && close_pair(kernel, p, q, eps, i, 0)) + hits(
        upto > 1 && close_pair(kernel, p, q, eps, i, 1),
    ) + hits(upto > 2 && close_pair(kernel, p, q, eps, i, 2)) + hits(
        upto > 3 && close_pair(kernel, p, q, eps, i, 3),
    )
}

/// The number of close pairs among those of the first `rows` corners of `p`
/// with any corner of `q`.
pub open spec fn close_in_rows<A: Fn(Question) -> bool, C: Fn(Pixel) -> Coord>(
    kernel: Kernel<A, C>,
    p: Pixel,
    q: Pixel,
    eps: u64,
    rows: int,
) -> nat {
    (if rows > 0 {
        close_in_row(kernel, p, q, eps, 0, 4)
    } else {
        0
    }) + (if rows > 1 {
        close_in_row(kernel, p, q, eps, 1, 4)
    } else {
        0
    }) + (if rows > 2 {
        close_in_row(kernel, p, q, eps, 2, 4)
    } else {
        0
    }) + (if rows > 3 {
        close_in_row(kernel, p, q, eps, 3, 4)
    } else {
        0
    })
}

/// The number of pairs of a corner of `p` and a corner of `q` that are within
/// the tolerance of each other, among all sixteen.
pub open spec fn close_pairs<A: Fn(Question) -> bool, C: Fn(Pixel) -> Coord>(
    kernel: Kernel<A, C>,
    p: Pixel,
    q: Pixel,
    eps: u64,
) -> nat {
    close_in_rows(kernel, p, q, eps, 4)
}

/// Corner `i` of `p` is close to some corner of `q`.
pub open spec fn shared_corner<A: Fn(Question) -> bool, C: Fn(Pixel) -> Coord>(
    kernel: Kernel<A, C>,
    p: Pixel,
    q: Pixel,
    eps: u64,
    i: int,
) -> bool {
    exists|j: int| 0 <= j < 4 && #[trigger] close_pair(kernel, p, q, eps, i, j)
}

/// Corner `j` of `q` is close to some corner of `p`.
pub open spec fn shared_corner_of_other<A: Fn(Question) -> bool, C: Fn(Pixel) -> Coord>(
    kernel: Kernel<A, C>,
    p: Pixel,
    q: Pixel,
    eps: u64,
    j: int,
) -> bool {
    exists|i: int| 0 <= i < 4 && #[trigger] close_pair(kernel, p, q, eps, i, j)
}

/// The pixels are neighbours: they are not the same, their boxes overlap,
/// they share one corner or two, no corner that they do not share lies inside
/// the other pixel, and the centroid of neither lies inside the other.
pub open spec fn adjacent<A: Fn(Question) -> bool, C: Fn(Pixel) -> Coord>(
    kernel: Kernel<A, C>,
    p: Pixel,
    q: Pixel,
    eps: u64,
) -> bool {
    &&& !approx(kernel, p, q, eps)
    &&& boxes_meet(kernel, p, q, eps)
    &&& 1 <= close_pairs(kernel, p, q, eps) <= 2
    &&& forall|i: int|
        0 <= i < 4 && !shared_corner(kernel, p, q, eps, i) ==> !#[trigger] corner_inside(
            kernel,
            p,
            q,
            eps,
            i,
        )
    &&& forall|j: int|
        0 <= j < 4 && !shared_corner_of_other(kernel, p, q, eps, j) ==> !#[trigger] corner_inside(
            kernel,
            q,
            p,
            eps,
            j,
        )
    &&& !inside(kernel, q, center(kernel, p), eps)
    &&& !inside(kernel, p, center(kernel, q), eps)
}

/// The pixels are neighbours or overlap: their boxes overlap, and they share
/// two corners or more, or a corner of one lies inside the other, or they
/// overlap, or they are neighbours.
pub open spec fn touches<A: Fn(Question) -> bool, C: Fn(Pixel) -> Coord>(
    kernel: Kernel<A, C>,
    p: Pixel,
    q: Pixel,
    eps: u64,
) -> bool {
    &&& boxes_meet(kernel, p, q, eps)
    &&& {
        ||| close_pairs(kernel, p, q, eps) >= 2
        ||| some_corner_inside(kernel, p, q, eps)
        ||| some_corner_inside(kernel, q, p, eps)
        ||| overlaps(kernel, p, q, eps)
        ||| adjacent(kernel, p, q, eps)
    }
}

/// Puts a question to the kernel.
pub fn ask<A: Fn(Question) -> bool, C: Fn(Pixel) -> Coord>(kernel: &Kernel<A, C>, q: Question) -> (r:
    bool)
    requires
        steady(*kernel),
    ensures
        r == yes(*kernel, q),
{
    (kernel.answer)(q)
}

/// Asks the kernel for the centroid of a pixel.
pub fn center_of<A: Fn(Question) -> bool, C: Fn(Pixel) -> Coord>(kernel: &Kernel<A, C>, p: Pixel) -> (r:
    Coord)
    requires
        steady(*kernel),
        has_center(*kernel, p),
    ensures
        r == center(*kernel, p),
{
    (kernel.centroid)(p)
}

impl Pixel {
    fn corner_list(&self) -> (r: [Coord; 4])
        ensures
            r@ == self.corners(),
    {
        let r = [self.ul, self.ur, self.lr, self.ll];
        assert(r@ =~= self.corners());
        r
    }

    fn edge_list(&self) -> (r: [Line; 4])
        ensures
            r@ == self.edges(),
    {
        let r = [
            Line { start: self.ul, end: self.ur },
            Line { start: self.ur, end: self.lr },
            Line { start: self.lr, end: self.ll },
            Line { start: self.ll, end: self.ul },
        ];
        assert(r@ =~= self.edges());
        r
    }

    fn ray_list(&self, from: Coord) -> (r: [Line; 4])
        ensures
            r@ == self.rays(from),
    {
        let r = [
            Line { start: from, end: self.ul },
            Line { start: from, end: self.ur },
            Line { start: from, end: self.ll },
            Line { start: from, end: self.lr },
        ];
        assert(r@ =~= self.rays(from));
        r
    }

    /// Tells whether the two pixels cover the same ground, give or take the
    /// tolerance. Only the corners are looked at.
    pub fn approx_equal<A: Fn(Question) -> bool, C: Fn(Pixel) -> Coord>(
        &self,
        other: &Pixel,
        eps: u64,
        kernel: &Kernel<A, C>,
    ) -> (r: bool)
        requires
            steady(*kernel),
        ensures
            r == approx(*kernel, *self, *other, eps),
    {
        ask(kernel, Question::Close(self.ul, other.ul, eps)) && ask(
            kernel,
            Question::Close(self.ur, other.ur, eps),
        ) && ask(kernel, Question::Close(self.lr, other.lr, eps)) && ask(
            kernel,
            Question::Close(self.ll, other.ll, eps),
        )
    }

    /// Tells whether a point lies inside the pixel. A point on the boundary
    /// does not.
    pub fn contains_coord<A: Fn(Question) -> bool, C: Fn(Pixel) -> Coord>(
        &self,
        coord: Coord,
        eps: u64,
        kernel: &Kernel<A, C>,
    ) -> (r: bool)
        requires
            steady(*kernel),
        ensures
            r == inside(*kernel, *self, coord, eps),
    {
        if !ask(kernel, Question::BoxHolds(self.bounding_box(), coord, eps)) {
            return false;
        }
        let sides = self.edge_list();
        let rays = self.ray_list(coord);
        let mut i: usize = 0;
        while i < 4
            invariant
                i <= 4,
                steady(*kernel),
                sides@ == self.edges(),
                rays@ == self.rays(coord),
                forall|a: int, b: int|
                    0 <= a < i && 0 <= b < 4 ==> !#[trigger] side_crosses_ray(
                        *kernel,
                        *self,
                        coord,
                        eps,
                        a,
                        b,
                    ),
            decreases 4 - i,
        {
            let mut j: usize = 0;
            while j < 4
                invariant
                    i < 4,
                    j <= 4,
                    steady(*kernel),
                    sides@ == self.edges(),
                    rays@ == self.rays(coord),
                    forall|a: int, b: int|
                        0 <= a < i && 0 <= b < 4 ==> !#[trigger] side_crosses_ray(
                            *kernel,
                            *self,
                            coord,
                            eps,
                            a,
                            b,
                        ),
                    forall|b: int|
                        0 <= b < j ==> !#[trigger] side_crosses_ray(
                            *kernel,
                            *self,
                            coord,
                            eps,
                            i as int,
                            b,
                        ),
                decreases 4 - j,
            {
                if ask(kernel, Question::Crosses(sides[i], rays[j], eps)) {
                    assert(side_crosses_ray(*kernel, *self, coord, eps, i as int, j as int));
                    return false;
                }
                j += 1;
            }
            i += 1;
        }
        true
    }

    /// Tells whether some corner of this pixel lies inside the other.
    pub fn has_corner_inside<A: Fn(Question) -> bool, C: Fn(Pixel) -> Coord>(
        &self,
        other: &Pixel,
        eps: u64,
        kernel: &Kernel<A, C>,
    ) -> (r: bool)
        requires
            steady(*kernel),
        ensures
            r == some_corner_inside(*kernel, *self, *other, eps),
    {
        let corners = self.corner_list();
        let mut i: usize = 0;
        while i < 4
            invariant
                i <= 4,
                steady(*kernel),
                corners@ == self.corners(),
                forall|a: int| 0 <= a < i ==> !#[trigger] corner_inside(*kernel, *self, *other, eps, a),
            decreases 4 - i,
        {
            if other.contains_coord(corners[i], eps, kernel) {
                assert(corner_inside(*kernel, *self, *other, eps, i as int));
                return true;
            }
            i += 1;
        }
        false
    }

    /// Tells whether some side of this pixel crosses a side of the other.
    pub fn has_crossing_sides<A: Fn(Question) -> bool, C: Fn(Pixel) -> Coord>(
        &self,
        other: &Pixel,
        eps: u64,
        kernel: &Kernel<A, C>,
    ) -> (r: bool)
        requires
            steady(*kernel),
        ensures
            r == some_sides_cross(*kernel, *self, *other, eps),
    {
        let mine = self.edge_list();
        let theirs = other.edge_list();
        let mut i: usize = 0;
        while i < 4
            invariant
                i <= 4,
                steady(*kernel),
                mine@ == self.edges(),
                theirs@ == other.edges(),
                forall|a: int, b: int|
                    0 <= a < i && 0 <= b < 4 ==> !#[trigger] sides_cross(
                        *kernel,
                        *self,
                        *other,
                        eps,
                        a,
                        b,
                    ),
            decreases 4 - i,
        {
            let mut j: usize = 0;
            while j < 4
                invariant
                    i < 4,
                    j <= 4,
                    steady(*kernel),
                    mine@ == self.edges(),
                    theirs@ == other.edges(),
                    forall|a: int, b: int|
                        0 <= a < i && 0 <= b < 4 ==> !#[trigger] sides_cross(
                            *kernel,
                            *self,
                            *other,
                            eps,
                            a,
                            b,
                        ),
                    forall|b: int|
                        0 <= b < j ==> !#[trigger] sides_cross(
                            *kernel,
                            *self,
                            *other,
                            eps,
                            i as int,
                            b,
                        ),
                decreases 4 - j,
            {
                if ask(kernel, Question::Crosses(mine[i], theirs[j], eps)) {
                    assert(sides_cross(*kernel, *self, *other, eps, i as int, j as int));
                    return true;
                }
                j += 1;
            }
            i += 1;
        }
        false
    }

    /// Tells whether the two pixels overlap.
    pub fn overlap<A: Fn(Question) -> bool, C: Fn(Pixel) -> Coord>(
        &self,
        other: &Pixel,
        eps: u64,
        kernel: &Kernel<A, C>,
    ) -> (r: bool)
        requires
            steady(*kernel),
        ensures
            r == overlaps(*kernel, *self, *other, eps),
    {
        if self.approx_equal(other, eps, kernel) {
            return true;
        }
        if !ask(
            kernel,
            Question::BoxesOverlap(self.bounding_box(), other.bounding_box(), eps),
        ) {
            return false;
        }
        if self.has_crossing_sides(other, eps, kernel) {
            return true;
        }
        self.has_corner_inside(other, eps, kernel)
    }
}

/// The pair of corner `a` of the one pixel and corner `b` of the other comes
/// before the pair of `i` and `j` in the count.
pub open spec fn counted_before(a: int, b: int, i: int, j: int) -> bool {
    0 <= a < 4 && 0 <= b < 4 && (a < i || (a == i && b < j))
}

/// Corner `a` of `p` has a close corner of `q` among the pairs before `i`
/// and `j`.
spec fn marked<A: Fn(Question) -> bool, C: Fn(Pixel) -> Coord>(
    kernel: Kernel<A, C>,
    p: Pixel,
    q: Pixel,
    eps: u64,
    i: int,
    j: int,
    a: int,
) -> bool {
    exists|b: int| counted_before(a, b, i, j) && #[trigger] close_pair(kernel, p, q, eps, a, b)
}

/// Corner `b` of `q` has a close corner of `p` among the pairs before `i`
/// and `j`.
spec fn marked_other<A: Fn(Question) -> bool, C: Fn(Pixel) -> Coord>(
    kernel: Kernel<A, C>,
    p: Pixel,
    q: Pixel,
    eps: u64,
    i: int,
    j: int,
    b: int,
) -> bool {
    exists|a: int| counted_before(a, b, i, j) && #[trigger] close_pair(kernel, p, q, eps, a, b)
}

/// What counting the close corners of two pixels gives: their number, and
/// for each corner of either pixel whether it is close to one of the other.
pub struct SharedCorners {
    pub count: u32,
    pub of_self: [bool; 4],
    pub of_other: [bool; 4],
}

impl Pixel {
    /// Counts the pairs of a corner of this pixel and a corner of the other
    /// that are within the tolerance of each other.
    pub fn shared_corners<A: Fn(Question) -> bool, C: Fn(Pixel) -> Coord>(
        &self,
        other: &Pixel,
        eps: u64,
        kernel: &Kernel<A, C>,
    ) -> (r: SharedCorners)
        requires
            steady(*kernel),
        ensures
            r.count == close_pairs(*kernel, *self, *other, eps),
            forall|i: int|
                0 <= i < 4 ==> r.of_self[i] == #[trigger] shared_corner(
                    *kernel,
                    *self,
                    *other,
                    eps,
                    i,
                ),
            forall|j: int|
                0 <= j < 4 ==> r.of_other[j] == #[trigger] shared_corner_of_other(
                    *kernel,
                    *self,
                    *other,
                    eps,
                    j,
                ),
    {
        let mine = self.corner_list();
        let theirs = other.corner_list();
        let mut count: u32 = 0;
        let mut of_self: [bool; 4] = [false; 4];
        let mut of_other: [bool; 4] = [false; 4];
        let mut i: usize = 0;
        proof {
            reveal(hits);
        }
        while i < 4
            invariant
                i <= 4,
                steady(*kernel),
                mine@ == self.corners(),
                theirs@ == other.corners(),
                count == close_in_rows(*kernel, *self, *other, eps, i as int),
                count <= 4 * i,
                forall|a: int|
                    0 <= a < 4 ==> of_self[a] == #[trigger] marked(
                        *kernel,
                        *self,
                        *other,
                        eps,
                        i as int,
                        0,
                        a,
                    ),
                forall|b: int|
                    0 <= b < 4 ==> of_other[b] == #[trigger] marked_other(
                        *kernel,
                        *self,
                        *other,
                        eps,
                        i as int,
                        0,
                        b,
                    ),
            decreases 4 - i,
        {
            let mut j: usize = 0;
            proof {
                reveal(hits);
            }
            while j < 4
                invariant
                    i < 4,
                    j <= 4,
                    steady(*kernel),
                    mine@ == self.corners(),
                    theirs@ == other.corners(),
                    count == close_in_rows(*kernel, *self, *other, eps, i as int) + close_in_row(
                        *kernel,
                        *self,
                        *other,
                        eps,
                        i as int,
                        j as int,
                    ),
                    count <= 4 * i + j,
                    forall|a: int|
                        0 <= a < 4 ==> of_self[a] == #[trigger] marked(
                            *kernel,
                            *self,
                            *other,
                            eps,
                            i as int,
                            j as int,
                            a,
                        ),
                    forall|b: int|
                        0 <= b < 4 ==> of_other[b] == #[trigger] marked_other(
                            *kernel,
                            *self,
                            *other,
                            eps,
                            i as int,
                            j as int,
                            b,
                        ),
                decreases 4 - j,
            {
                let ghost marks = of_self@;
                let ghost other_marks = of_other@;
                let close = ask(kernel, Question::Close(mine[i], theirs[j], eps));
                assert(close == close_pair(*kernel, *self, *other, eps, i as int, j as int));
                proof {
                    reveal(hits);
                }
                if close {
                    count += 1;
                    of_self[i] = true;
                    of_other[j] = true;
                }
                proof {
                    assert forall|a: int| 0 <= a < 4 implies of_self[a] == #[trigger] marked(
                        *kernel,
                        *self,
                        *other,
                        eps,
                        i as int,
                        j + 1,
                        a,
                    ) by {
                        assert(marks[a] == marked(*kernel, *self, *other, eps, i as int, j as int, a));
                        if marked(*kernel, *self, *other, eps, i as int, j as int, a) {
                            let b = choose|b: int|
                                counted_before(a, b, i as int, j as int) && #[trigger] close_pair(
                                    *kernel,
                                    *self,
                                    *other,
                                    eps,
                                    a,
                                    b,
                                );
                            assert(counted_before(a, b, i as int, j + 1));
                        }
                        if marked(*kernel, *self, *other, eps, i as int, j + 1, a) {
                            let b = choose|b: int|
                                counted_before(a, b, i as int, j + 1) && #[trigger] close_pair(
                                    *kernel,
                                    *self,
                                    *other,
                                    eps,
                                    a,
                                    b,
                                );
                            if !(a == i && b == j) {
                                assert(counted_before(a, b, i as int, j as int));
                            }
                        }
                        if close && a == i {
                            assert(counted_before(a, j as int, i as int, j + 1));
                        }
                    }
                    assert forall|b: int| 0 <= b < 4 implies of_other[b] == #[trigger] marked_other(
                        *kernel,
                        *self,
                        *other,
                        eps,
                        i as int,
                        j + 1,
                        b,
                    ) by {
                        assert(other_marks[b] == marked_other(
                            *kernel,
                            *self,
                            *other,
                            eps,
                            i as int,
                            j as int,
                            b,
                        ));
                        if marked_other(*kernel, *self, *other, eps, i as int, j as int, b) {
                            let a = choose|a: int|
                                counted_before(a, b, i as int, j as int) && #[trigger] close_pair(
                                    *kernel,
                                    *self,
                                    *other,
                                    eps,
                                    a,
                                    b,
                                );
                            assert(counted_before(a, b, i as int, j + 1));
                        }
                        if marked_other(*kernel, *self, *other, eps, i as int, j + 1, b) {
                            let a = choose|a: int|
                                counted_before(a, b, i as int, j + 1) && #[trigger] close_pair(
                                    *kernel,
                                    *self,
                                    *other,
                                    eps,
                                    a,
                                    b,
                                );
                            if !(a == i && b == j) {
                                assert(counted_before(a, b, i as int, j as int));
                            }
                        }
                        if close && b == j {
                            assert(counted_before(i as int, b, i as int, j + 1));
                        }
                    }
                }
                j += 1;
            }
            proof {
                assert forall|a: int| 0 <= a < 4 implies of_self[a] == #[trigger] marked(
                    *kernel,
                    *self,
                    *other,
                    eps,
                    i + 1,
                    0,
                    a,
                ) by {
                    if marked(*kernel, *self, *other, eps, i as int, 4, a) {
                        let b = choose|b: int|
                            counted_before(a, b, i as int, 4) && #[trigger] close_pair(
                                *kernel,
                                *self,
                                *other,
                                eps,
                                a,
                                b,
                            );
                        assert(counted_before(a, b, i + 1, 0));
                    }
                    if marked(*kernel, *self, *other, eps, i + 1, 0, a) {
                        let b = choose|b: int|
                            counted_before(a, b, i + 1, 0) && #[trigger] close_pair(
                                *kernel,
                                *self,
                                *other,
                                eps,
                                a,
                                b,
                            );
                        assert(counted_before(a, b, i as int, 4));
                    }
                }
                assert forall|b: int| 0 <= b < 4 implies of_other[b] == #[trigger] marked_other(
                    *kernel,
                    *self,
                    *other,
                    eps,
                    i + 1,
                    0,
                    b,
                ) by {
                    if marked_other(*kernel, *self, *other, eps, i as int, 4, b) {
                        let a = choose|a: int|
                            counted_before(a, b, i as int, 4) && #[trigger] close_pair(
                                *kernel,
                                *self,
                                *other,
                                eps,
                                a,
                                b,
                            );
                        assert(counted_before(a, b, i + 1, 0));
                    }
                    if marked_other(*kernel, *self, *other, eps, i + 1, 0, b) {
                        let a = choose|a: int|
                            counted_before(a, b, i + 1, 0) && #[trigger] close_pair(
                                *kernel,
                                *self,
                                *other,
                                eps,
                                a,
                                b,
                            );
                        assert(counted_before(a, b, i as int, 4));
                    }
                }
            }
            i += 1;
        }
        proof {
            assert forall|a: int| 0 <= a < 4 implies of_self[a] == #[trigger] shared_corner(
                *kernel,
                *self,
                *other,
                eps,
                a,
            ) by {
                if marked(*kernel, *self, *other, eps, 4, 0, a) {
                    let b = choose|b: int|
                        counted_before(a, b, 4, 0) && #[trigger] close_pair(
                            *kernel,
                            *self,
                            *other,
                            eps,
                            a,
                            b,
                        );
                    assert(close_pair(*kernel, *self, *other, eps, a, b));
                }
                if shared_corner(*kernel, *self, *other, eps, a) {
                    let b = choose|b: int|
                        0 <= b < 4 && #[trigger] close_pair(*kernel, *self, *other, eps, a, b);
                    assert(counted_before(a, b, 4, 0));
                }
            }
            assert forall|b: int| 0 <= b < 4 implies of_other[b] == #[trigger] shared_corner_of_other(
                *kernel,
                *self,
                *other,
                eps,
                b,
            ) by {
                if marked_other(*kernel, *self, *other, eps, 4, 0, b) {
                    let a = choose|a: int|
                        counted_before(a, b, 4, 0) && #[trigger] close_pair(
                            *kernel,
                            *self,
                            *other,
                            eps,
                            a,
                            b,
                        );
                    assert(close_pair(*kernel, *self, *other, eps, a, b));
                }
                if shared_corner_of_other(*kernel, *self, *other, eps, b) {
                    let a = choose|a: int|
                        0 <= a < 4 && #[trigger] close_pair(*kernel, *self, *other, eps, a, b);
                    assert(counted_before(a, b, 4, 0));
                }
            }
        }
        SharedCorners { count, of_self, of_other }
    }

    /// Tells whether the two pixels are neighbours.
    pub fn is_adjacent_to<A: Fn(Question) -> bool, C: Fn(Pixel) -> Coord>(
        &self,
        other: &Pixel,
        eps: u64,
        kernel: &Kernel<A, C>,
    ) -> (r: bool)
        requires
            steady(*kernel),
            has_center(*kernel, *self),
            has_center(*kernel, *other),
        ensures
            r == adjacent(*kernel, *self, *other, eps),
    {
        if self.approx_equal(other, eps, kernel) {
            return false;
        }
        if !ask(
            kernel,
            Question::BoxesOverlap(self.bounding_box(), other.bounding_box(), eps),
        ) {
            return false;
        }
        let shared = self.shared_corners(other, eps, kernel);
        if shared.count < 1 || shared.count > 2 {
            return false;
        }
        let mine = self.corner_list();
        let theirs = other.corner_list();
        let mut i: usize = 0;
        while i < 4
            invariant
                i <= 4,
                steady(*kernel),
                mine@ == self.corners(),
                theirs@ == other.corners(),
                forall|a: int|
                    0 <= a < 4 ==> shared.of_self[a] == #[trigger] shared_corner(
                        *kernel,
                        *self,
                        *other,
                        eps,
                        a,
                    ),
                forall|b: int|
                    0 <= b < 4 ==> shared.of_other[b] == #[trigger] shared_corner_of_other(
                        *kernel,
                        *self,
                        *other,
                        eps,
                        b,
                    ),
                forall|a: int|
                    0 <= a < i && !shared_corner(*kernel, *self, *other, eps, a)
                        ==> !#[trigger] corner_inside(*kernel, *self, *other, eps, a),
                forall|b: int|
                    0 <= b < i && !shared_corner_of_other(*kernel, *self, *other, eps, b)
                        ==> !#[trigger] corner_inside(*kernel, *other, *self, eps, b),
            decreases 4 - i,
        {
            assert(shared.of_self[i as int] == shared_corner(*kernel, *self, *other, eps, i as int));
            assert(shared.of_other[i as int] == shared_corner_of_other(
                *kernel,
                *self,
                *other,
                eps,
                i as int,
            ));
            if !shared.of_self[i] && other.contains_coord(mine[i], eps, kernel) {
                assert(corner_inside(*kernel, *self, *other, eps, i as int));
                return false;
            }
            if !shared.of_other[i] && self.contains_coord(theirs[i], eps, kernel) {
                assert(corner_inside(*kernel, *other, *self, eps, i as int));
                return false;
            }
            i += 1;
        }
        if other.contains_coord(center_of(kernel, *self), eps, kernel) {
            return false;
        }
        if self.contains_coord(center_of(kernel, *other), eps, kernel) {
            return false;
        }
        true
    }

    /// Tells whether the two pixels are neighbours or overlap.
    pub fn is_adjacent_to_or_overlaps<A: Fn(Question) -> bool, C: Fn(Pixel) -> Coord>(
        &self,
        other: &Pixel,
        eps: u64,
        kernel: &Kernel<A, C>,
    ) -> (r: bool)
        requires
            steady(*kernel),
            has_center(*kernel, *self),
            has_center(*kernel, *other),
        ensures
            r == touches(*kernel, *self, *other, eps),
    {
        if !ask(
            kernel,
            Question::BoxesOverlap(self.bounding_box(), other.bounding_box(), eps),
        ) {
            return false;
        }
        if self.shared_corners(other, eps, kernel).count > 1 {
            return true;
        }
        if self.has_corner_inside(other, eps, kernel) {
            return true;
        }
        if other.has_corner_inside(self, eps, kernel) {
            return true;
        }
        self.overlap(other, eps, kernel) || self.is_adjacent_to(other, eps, kernel)
    }
}

/// Pixel `a` of the one list and pixel `b` of the other are neighbours or
/// overlap.
pub open spec fn pair_touches<A: Fn(Question) -> bool, C: Fn(Pixel) -> Coord>(
    kernel: Kernel<A, C>,
    ours: Seq<Pixel>,
    theirs: Seq<Pixel>,
    eps: u64,
    a: int,
    b: int,
) -> bool {
    touches(kernel, ours[a], theirs[b], eps)
}

/// The two lists are neighbours or overlap: their boxes overlap, and a pixel
/// of the one is a neighbour of a pixel of the other or overlaps it.
pub open spec fn lists_touch<A: Fn(Question) -> bool, C: Fn(Pixel) -> Coord>(
    kernel: Kernel<A, C>,
    ours: Seq<Pixel>,
    theirs: Seq<Pixel>,
    eps: u64,
) -> bool {
    &&& yes(kernel, Question::BoxesOverlap(bounds_of(ours), bounds_of(theirs), eps))
    &&& exists|a: int, b: int|
        0 <= a < ours.len() && 0 <= b < theirs.len() && #[trigger] pair_touches(
            kernel,
            ours,
            theirs,
            eps,
            a,
            b,
        )
}

/// The kernel gives a centroid for every pixel of the list.
pub open spec fn all_have_centers<A: Fn(Question) -> bool, C: Fn(Pixel) -> Coord>(
    kernel: Kernel<A, C>,
    list: Seq<Pixel>,
) -> bool {
    forall|a: int| 0 <= a < list.len() ==> has_center(kernel, #[trigger] list[a])
}

/// The place of the first pixel from `from` on that covers the same ground as
/// `p`, or the length of the list where there is none.
pub open spec fn first_match<A: Fn(Question) -> bool, C: Fn(Pixel) -> Coord>(
    kernel: Kernel<A, C>,
    list: Seq<Pixel>,
    p: Pixel,
    eps: u64,
    from: int,
) -> int
    decreases list.len() - from,
{
    if from < 0 || from >= list.len() {
        list.len() as int
    } else if approx(kernel, list[from], p, eps) {
        from
    } else {
        first_match(kernel, list, p, eps, from + 1)
    }
}

/// The list after `p` has been merged into it: into the first pixel that
/// covers the same ground, or to the end of the list where there is none.
pub open spec fn merged_one<A: Fn(Question) -> bool, C: Fn(Pixel) -> Coord>(
    kernel: Kernel<A, C>,
    list: Seq<Pixel>,
    p: Pixel,
    eps: u64,
) -> Seq<Pixel> {
    let at = first_match(kernel, list, p, eps, 0);
    if at < list.len() {
        list.update(at, list[at].merged_with(p))
    } else {
        list.push(p)
    }
}

/// The list after the pixels of `others` have been merged into it, one after
/// the other.
pub open spec fn merged_all<A: Fn(Question) -> bool, C: Fn(Pixel) -> Coord>(
    kernel: Kernel<A, C>,
    list: Seq<Pixel>,
    others: Seq<Pixel>,
    eps: u64,
) -> Seq<Pixel>
    decreases others.len(),
{
    if others.len() == 0 {
        list
    } else {
        merged_one(kernel, merged_all(kernel, list, others.drop_last(), eps), others.last(), eps)
    }
}

impl PixelList {
    /// Tells whether the two lists are neighbours or overlap.
    pub fn adjacent_to_or_overlaps<A: Fn(Question) -> bool, C: Fn(Pixel) -> Coord>(
        &self,
        other: &PixelList,
        eps: u64,
        kernel: &Kernel<A, C>,
    ) -> (r: bool)
        requires
            steady(*kernel),
            all_have_centers(*kernel, self@),
            all_have_centers(*kernel, other@),
        ensures
            r == lists_touch(*kernel, self@, other@, eps),
    {
        if !ask(
            kernel,
            Question::BoxesOverlap(self.bounding_box(), other.bounding_box(), eps),
        ) {
            return false;
        }
        let ours = self.pixels();
        let theirs = other.pixels();
        let mut a: usize = 0;
        while a < ours.len()
            invariant
                a <= ours.len(),
                steady(*kernel),
                ours@ == self@,
                theirs@ == other@,
                yes(*kernel, Question::BoxesOverlap(bounds_of(self@), bounds_of(other@), eps)),
                all_have_centers(*kernel, self@),
                all_have_centers(*kernel, other@),
                forall|x: int, y: int|
                    0 <= x < a && 0 <= y < theirs.len() ==> !#[trigger] pair_touches(
                        *kernel,
                        self@,
                        other@,
                        eps,
                        x,
                        y,
                    ),
            decreases ours.len() - a,
        {
            let mut b: usize = 0;
            while b < theirs.len()
                invariant
                    a < ours.len(),
                    b <= theirs.len(),
                    steady(*kernel),
                    ours@ == self@,
                    theirs@ == other@,
                    yes(*kernel, Question::BoxesOverlap(bounds_of(self@), bounds_of(other@), eps)),
                    all_have_centers(*kernel, self@),
                    all_have_centers(*kernel, other@),
                    forall|x: int, y: int|
                        0 <= x < a && 0 <= y < theirs.len() ==> !#[trigger] pair_touches(
                            *kernel,
                            self@,
                            other@,
                            eps,
                            x,
                            y,
                        ),
                    forall|y: int|
                        0 <= y < b ==> !#[trigger] pair_touches(
                            *kernel,
                            self@,
                            other@,
                            eps,
                            a as int,
                            y,
                        ),
                decreases theirs.len() - b,
            {
                if ours[a].is_adjacent_to_or_overlaps(&theirs[b], eps, kernel) {
                    assert(pair_touches(*kernel, self@, other@, eps, a as int, b as int));
                    return true;
                }
                b += 1;
            }
            a += 1;
        }
        false
    }

    /// Merges the pixels of `other` into this list, one after the other:
    /// each into the first pixel that covers the same ground within a
    /// hundredth of a degree, or to the end where there is none.
    pub fn max_merge<A: Fn(Question) -> bool, C: Fn(Pixel) -> Coord>(
        &mut self,
        other: &PixelList,
        kernel: &Kernel<A, C>,
    )
        requires
            steady(*kernel),
        ensures
            final(self)@ == merged_all(*kernel, old(self)@, other@, OVERLAP_FUDGE_FACTOR),
    {
        let theirs = other.pixels();
        let mut k: usize = 0;
        while k < theirs.len()
            invariant
                k <= theirs.len(),
                steady(*kernel),
                theirs@ == other@,
                self@ == merged_all(
                    *kernel,
                    old(self)@,
                    other@.take(k as int),
                    OVERLAP_FUDGE_FACTOR,
                ),
            decreases theirs.len() - k,
        {
            let p = theirs[k];
            let ghost before = self@;
            let mut at: usize = 0;
            let n = self.len();
            while at < n && !self.pixels()[at].approx_equal(&p, OVERLAP_FUDGE_FACTOR, kernel)
                invariant
                    at <= n,
                    n == self@.len(),
                    self@ == before,
                    steady(*kernel),
                    first_match(*kernel, before, p, OVERLAP_FUDGE_FACTOR, 0) == first_match(
                        *kernel,
                        before,
                        p,
                        OVERLAP_FUDGE_FACTOR,
                        at as int,
                    ),
                decreases n - at,
            {
                at += 1;
            }
            if at < n {
                self.max_merge_at(at, &p);
            } else {
                self.push(p);
            }
            proof {
                let seen = other@.take(k + 1);
                assert(seen.drop_last() =~= other@.take(k as int));
                assert(seen.last() == p);
            }
            k += 1;
        }
        assert(other@.take(k as int) =~= other@);
    }
}

/// A pixel that covers the same ground as itself overlaps itself and is not
/// its own neighbour.
pub proof fn lemma_pixel_and_itself<A: Fn(Question) -> bool, C: Fn(Pixel) -> Coord>(
    kernel: Kernel<A, C>,
    p: Pixel,
    eps: u64,
)
    requires
        approx(kernel, p, p, eps),
    ensures
        overlaps(kernel, p, p, eps),
        !adjacent(kernel, p, p, eps),
{
}

/// With an even-handed kernel, which of two pixels is asked whether it covers
/// the same ground as the other makes no difference.
pub proof fn lemma_approx_symmetric<A: Fn(Question) -> bool, C: Fn(Pixel) -> Coord>(
    kernel: Kernel<A, C>,
    p: Pixel,
    q: Pixel,
    eps: u64,
)
    requires
        even_handed(kernel),
    ensures
        approx(kernel, p, q, eps) == approx(kernel, q, p, eps),
{
}

/// Corner for corner, the pairs of `p` and `q` are close where the pairs of
/// `q` and `p` are.
spec fn pairs_mirror<A: Fn(Question) -> bool, C: Fn(Pixel) -> Coord>(
    kernel: Kernel<A, C>,
    p: Pixel,
    q: Pixel,
    eps: u64,
) -> bool {
    forall|i: int, j: int|
        0 <= i < 4 && 0 <= j < 4 ==> #[trigger] close_pair(kernel, p, q, eps, i, j) == close_pair(
            kernel,
            q,
            p,
            eps,
            j,
            i,
        )
}

proof fn lemma_pairs_mirror<A: Fn(Question) -> bool, C: Fn(Pixel) -> Coord>(
    kernel: Kernel<A, C>,
    p: Pixel,
    q: Pixel,
    eps: u64,
)
    requires
        even_handed(kernel),
    ensures
        pairs_mirror(kernel, p, q, eps),
{
    assert forall|i: int, j: int| 0 <= i < 4 && 0 <= j < 4 implies #[trigger] close_pair(
        kernel,
        p,
        q,
        eps,
        i,
        j,
    ) == close_pair(kernel, q, p, eps, j, i) by {
        assert(yes(kernel, Question::Close(p.corners()[i], q.corners()[j], eps)) == yes(
            kernel,
            Question::Close(q.corners()[j], p.corners()[i], eps),
        ));
    }
}

proof fn lemma_row_sum<A: Fn(Question) -> bool, C: Fn(Pixel) -> Coord>(
    kernel: Kernel<A, C>,
    p: Pixel,
    q: Pixel,
    eps: u64,
    i: int,
)
    ensures
        close_in_row(kernel, p, q, eps, i, 4) == hits(close_pair(kernel, p, q, eps, i, 0)) + hits(
            close_pair(kernel, p, q, eps, i, 1),
        ) + hits(close_pair(kernel, p, q, eps, i, 2)) + hits(close_pair(kernel, p, q, eps, i, 3)),
{
}

proof fn lemma_pairs_sum<A: Fn(Question) -> bool, C: Fn(Pixel) -> Coord>(
    kernel: Kernel<A, C>,
    p: Pixel,
    q: Pixel,
    eps: u64,
)
    ensures
        close_pairs(kernel, p, q, eps) == close_in_row(kernel, p, q, eps, 0, 4) + close_in_row(
            kernel,
            p,
            q,
            eps,
            1,
            4,
        ) + close_in_row(kernel, p, q, eps, 2, 4) + close_in_row(kernel, p, q, eps, 3, 4),
{
}

proof fn lemma_hits_mirror<A: Fn(Question) -> bool, C: Fn(Pixel) -> Coord>(
    kernel: Kernel<A, C>,
    p: Pixel,
    q: Pixel,
    eps: u64,
    i: int,
    j: int,
)
    requires
        pairs_mirror(kernel, p, q, eps),
        0 <= i < 4,
        0 <= j < 4,
    ensures
        hits(close_pair(kernel, p, q, eps, i, j)) == hits(close_pair(kernel, q, p, eps, j, i)),
{
}

proof fn lemma_count_mirrors<A: Fn(Question) -> bool, C: Fn(Pixel) -> Coord>(
    kernel: Kernel<A, C>,
    p: Pixel,
    q: Pixel,
    eps: u64,
)
    requires
        pairs_mirror(kernel, p, q, eps),
    ensures
        close_pairs(kernel, p, q, eps) == close_pairs(kernel, q, p, eps),
{
    lemma_pairs_sum(kernel, p, q, eps);
    lemma_pairs_sum(kernel, q, p, eps);
    lemma_row_sum(kernel, p, q, eps, 0);
    lemma_row_sum(kernel, p, q, eps, 1);
    lemma_row_sum(kernel, p, q, eps, 2);
    lemma_row_sum(kernel, p, q, eps, 3);
    lemma_row_sum(kernel, q, p, eps, 0);
    lemma_row_sum(kernel, q, p, eps, 1);
    lemma_row_sum(kernel, q, p, eps, 2);
    lemma_row_sum(kernel, q, p, eps, 3);
    lemma_hits_mirror(kernel, p, q, eps, 0, 0);
    lemma_hits_mirror(kernel, p, q, eps, 0, 1);
    lemma_hits_mirror(kernel, p, q, eps, 0, 2);
    lemma_hits_mirror(kernel, p, q, eps, 0, 3);
    lemma_hits_mirror(kernel, p, q, eps, 1, 0);
    lemma_hits_mirror(kernel, p, q, eps, 1, 1);
    lemma_hits_mirror(kernel, p, q, eps, 1, 2);
    lemma_hits_mirror(kernel, p, q, eps, 1, 3);
    lemma_hits_mirror(kernel, p, q, eps, 2, 0);
    lemma_hits_mirror(kernel, p, q, eps, 2, 1);
    lemma_hits_mirror(kernel, p, q, eps, 2, 2);
    lemma_hits_mirror(kernel, p, q, eps, 2, 3);
    lemma_hits_mirror(kernel, p, q, eps, 3, 0);
    lemma_hits_mirror(kernel, p, q, eps, 3, 1);
    lemma_hits_mirror(kernel, p, q, eps, 3, 2);
    lemma_hits_mirror(kernel, p, q, eps, 3, 3);
}

proof fn lemma_shares_mirror<A: Fn(Question) -> bool, C: Fn(Pixel) -> Coord>(
    kernel: Kernel<A, C>,
    p: Pixel,
    q: Pixel,
    eps: u64,
    i: int,
)
    requires
        pairs_mirror(kernel, p, q, eps),
        0 <= i < 4,
    ensures
        shared_corner(kernel, p, q, eps, i) == shared_corner_of_other(kernel, q, p, eps, i),
        shared_corner_of_other(kernel, p, q, eps, i) == shared_corner(kernel, q, p, eps, i),
{
    if shared_corner(kernel, p, q, eps, i) {
        let j = choose|j: int| 0 <= j < 4 && #[trigger] close_pair(kernel, p, q, eps, i, j);
        assert(close_pair(kernel, q, p, eps, j, i));
    }
    if shared_corner_of_other(kernel, q, p, eps, i) {
        let j = choose|j: int| 0 <= j < 4 && #[trigger] close_pair(kernel, q, p, eps, j, i);
        assert(close_pair(kernel, p, q, eps, i, j));
    }
    if shared_corner_of_other(kernel, p, q, eps, i) {
        let j = choose|j: int| 0 <= j < 4 && #[trigger] close_pair(kernel, p, q, eps, j, i);
        assert(close_pair(kernel, q, p, eps, i, j));
    }
    if shared_corner(kernel, q, p, eps, i) {
        let j = choose|j: int| 0 <= j < 4 && #[trigger] close_pair(kernel, q, p, eps, i, j);
        assert(close_pair(kernel, p, q, eps, j, i));
    }
}

/// With an even-handed kernel, being neighbours is mutual.
pub proof fn lemma_adjacent_symmetric<A: Fn(Question) -> bool, C: Fn(Pixel) -> Coord>(
    kernel: Kernel<A, C>,
    p: Pixel,
    q: Pixel,
    eps: u64,
)
    requires
        even_handed(kernel),
    ensures
        adjacent(kernel, p, q, eps) == adjacent(kernel, q, p, eps),
{
    lemma_pairs_mirror(kernel, p, q, eps);
    lemma_count_mirrors(kernel, p, q, eps);
    lemma_shares_mirror(kernel, p, q, eps, 0);
    lemma_shares_mirror(kernel, p, q, eps, 1);
    lemma_shares_mirror(kernel, p, q, eps, 2);
    lemma_shares_mirror(kernel, p, q, eps, 3);
}

proof fn lemma_sides_cross_symmetric<A: Fn(Question) -> bool, C: Fn(Pixel) -> Coord>(
    kernel: Kernel<A, C>,
    p: Pixel,
    q: Pixel,
    eps: u64,
)
    requires
        even_handed(kernel),
    ensures
        some_sides_cross(kernel, p, q, eps) ==> some_sides_cross(kernel, q, p, eps),
{
    if some_sides_cross(kernel, p, q, eps) {
        let (i, j) = choose|i: int, j: int|
            0 <= i < 4 && 0 <= j < 4 && #[trigger] sides_cross(kernel, p, q, eps, i, j);
        assert(yes(kernel, Question::Crosses(p.edges()[i], q.edges()[j], eps)) == yes(
            kernel,
            Question::Crosses(q.edges()[j], p.edges()[i], eps),
        ));
        assert(sides_cross(kernel, q, p, eps, j, i));
    }
}

/// With an even-handed kernel, overlapping is mutual for two pixels of which
/// either both or none have a corner inside the other.
pub proof fn lemma_overlap_symmetric<A: Fn(Question) -> bool, C: Fn(Pixel) -> Coord>(
    kernel: Kernel<A, C>,
    p: Pixel,
    q: Pixel,
    eps: u64,
)
    requires
        even_handed(kernel),
        some_corner_inside(kernel, p, q, eps) == some_corner_inside(kernel, q, p, eps),
    ensures
        overlaps(kernel, p, q, eps) == overlaps(kernel, q, p, eps),
{
    lemma_sides_cross_symmetric(kernel, p, q, eps);
    lemma_sides_cross_symmetric(kernel, q, p, eps);
}

/// With an even-handed kernel, being neighbours or overlapping is mutual.
pub proof fn lemma_touches_symmetric<A: Fn(Question) -> bool, C: Fn(Pixel) -> Coord>(
    kernel: Kernel<A, C>,
    p: Pixel,
    q: Pixel,
    eps: u64,
)
    requires
        even_handed(kernel),
    ensures
        touches(kernel, p, q, eps) == touches(kernel, q, p, eps),
{
    lemma_pairs_mirror(kernel, p, q, eps);
    lemma_count_mirrors(kernel, p, q, eps);
    lemma_adjacent_symmetric(kernel, p, q, eps);
    lemma_sides_cross_symmetric(kernel, p, q, eps);
    lemma_sides_cross_symmetric(kernel, q, p, eps);
}

} // verus!
