use vstd::prelude::*;

verus! {

/// Largest coordinate magnitude that placement arithmetic accepts; the sum of
/// two such values still fits an `i64`.
pub const COORD_LIMIT: i64 = 0x3fff_ffff_ffff_ffff;

/// An absolute or local drawing location, in hundredths of a unit.
///
/// Keys are exact integers: two points are the same node exactly when both
/// coordinates agree, and equal points hash alike.
#[derive(Clone, Copy, Debug, PartialEq, Eq, Hash, Structural)]
pub struct Point {
    pub x: i64,
    pub y: i64,
}

impl Point {
    pub fn new(x: i64, y: i64) -> (r: Point)
        ensures
            r.x == x,
            r.y == y,
    {
        Point { x, y }
    }

    /// Both coordinates lie within `COORD_LIMIT`.
    pub open spec fn in_range(self) -> bool {
        -COORD_LIMIT <= self.x <= COORD_LIMIT && -COORD_LIMIT <= self.y <= COORD_LIMIT
    }
}

/// Rotation of a placed symbol, in quarter turns counter-clockwise.
#[derive(Clone, Copy, Debug, PartialEq, Eq, Structural)]
pub enum Rotation {
    R0,
    R90,
    R180,
    R270,
}

impl Rotation {
    /// The rotation for an angle in whole degrees; `None` unless the angle is
    /// a multiple of a quarter turn.
    pub fn from_degrees(deg: i64) -> (r: Option<Rotation>)
        ensures
            deg % 360 == 0 <==> r == Some(Rotation::R0),
            deg % 360 == 90 <==> r == Some(Rotation::R90),
            deg % 360 == 180 <==> r == Some(Rotation::R180),
            deg % 360 == 270 <==> r == Some(Rotation::R270),
            deg % 90 != 0 <==> r is None,
    {
        let m: i64 = deg % 360;
        let m: i64 = if m < 0 { m + 360 } else { m };
        assert(m == deg % 360);
        if m == 0 {
            Some(Rotation::R0)
        } else if m == 90 {
            Some(Rotation::R90)
        } else if m == 180 {
            Some(Rotation::R180)
        } else if m == 270 {
            Some(Rotation::R270)
        } else {
            None
        }
    }
}

/// Mirror axis of a placed symbol. The table is taken as given: the unmirrored
/// case flips the vertical axis, and `XY` collapses every point to the origin.
#[derive(Clone, Copy, Debug, PartialEq, Eq, Structural)]
pub enum Mirror {
    Unmirrored,
    X,
    Y,
    XY,
}

impl Mirror {
    /// The mirror named by an axis string (`""`, `"x"`, `"y"`, `"xy"`).
    pub fn from_axis(axis: &str) -> (r: Option<Mirror>)
        ensures
            axis@ == ""@ <==> r == Some(Mirror::Unmirrored),
            axis@ == "x"@ <==> r == Some(Mirror::X),
            axis@ == "y"@ <==> r == Some(Mirror::Y),
            axis@ == "xy"@ <==> r == Some(Mirror::XY),
    {
        proof {
            reveal_strlit("");
            reveal_strlit("x");
            reveal_strlit("y");
            reveal_strlit("xy");
        }
        let n = axis.unicode_len();
        if n == 0 {
            assert(axis@ =~= ""@);
            Some(Mirror::Unmirrored)
        } else if n == 1 {
            let c = axis.get_char(0);
            if c == 'x' {
                assert(axis@ =~= "x"@);
                Some(Mirror::X)
            } else if c == 'y' {
                assert(axis@ =~= "y"@);
                Some(Mirror::Y)
            } else {
                None
            }
        } else if n == 2 && axis.get_char(0) == 'x' && axis.get_char(1) == 'y' {
            assert(axis@ =~= "xy"@);
            Some(Mirror::XY)
        } else {
            None
        }
    }
}

/// Where and how a symbol is placed on the sheet.
#[derive(Clone, Copy, Debug, PartialEq, Eq, Structural)]
pub struct Placement {
    pub at: Point,
    pub rotation: Rotation,
    pub mirror: Mirror,
}

/// A local offset turned by a rotation.
pub open spec fn rotated(r: Rotation, x: int, y: int) -> (int, int) {
    match r {
        Rotation::R0 => (x, y),
        Rotation::R90 => (-y, x),
        Rotation::R180 => (-x, -y),
        Rotation::R270 => (y, -x),
    }
}

/// A rotated offset passed through the mirror table.
pub open spec fn mirrored(m: Mirror, u: int, v: int) -> (int, int) {
    match m {
        Mirror::Unmirrored => (u, -v),
        Mirror::X => (u, v),
        Mirror::Y => (-u, -v),
        Mirror::XY => (0, 0),
    }
}

impl Placement {
    pub open spec fn in_range(self) -> bool {
        self.at.in_range()
    }

    /// The absolute location of a local point: rotate, mirror, then translate.
    pub open spec fn place(self, p: Point) -> Point {
        let r = rotated(self.rotation, p.x as int, p.y as int);
        let m = mirrored(self.mirror, r.0, r.1);
        Point { x: (self.at.x + m.0) as i64, y: (self.at.y + m.1) as i64 }
    }

    /// Exact placement of one local point.
    pub fn place_point(&self, p: &Point) -> (r: Point)
        requires
            self.in_range(),
            p.in_range(),
        ensures
            r == self.place(*p),
    {
        let (u, v): (i64, i64) = match self.rotation {
            Rotation::R0 => (p.x, p.y),
            Rotation::R90 => (-p.y, p.x),
            Rotation::R180 => (-p.x, -p.y),
            Rotation::R270 => (p.y, -p.x),
        };
        let (dx, dy): (i64, i64) = match self.mirror {
            Mirror::Unmirrored => (u, -v),
            Mirror::X => (u, v),
            Mirror::Y => (-u, -v),
            Mirror::XY => (0, 0),
        };
        Point { x: self.at.x + dx, y: self.at.y + dy }
    }
}

/// Converts coordinates from a symbol's local frame to absolute sheet space.
pub trait Transform<T> {
    /// The inputs lie where the arithmetic cannot overflow.
    spec fn transformable(&self, pts: T) -> bool;

    /// `r` is `pts` carried into absolute space.
    spec fn transformed(&self, pts: T, r: T) -> bool;

    fn transform(&self, pts: &T) -> (r: T)
        requires
            self.transformable(*pts),
        ensures
            self.transformed(*pts, r),
    ;
}

impl Transform<Point> for Placement {
    open spec fn transformable(&self, pts: Point) -> bool {
        self.in_range() && pts.in_range()
    }

    open spec fn transformed(&self, pts: Point, r: Point) -> bool {
        r == self.place(pts)
    }

    fn transform(&self, pts: &Point) -> (r: Point) {
        self.place_point(pts)
    }
}

impl Transform<Vec<Point>> for Placement {
    open spec fn transformable(&self, pts: Vec<Point>) -> bool {
        self.in_range() && forall|i: int| 0 <= i < pts@.len() ==> (#[trigger] pts@[i]).in_range()
    }

    open spec fn transformed(&self, pts: Vec<Point>, r: Vec<Point>) -> bool {
        r@.len() == pts@.len() && forall|i: int| 0 <= i < pts@.len() ==> #[trigger] r@[i] == self.place(pts@[i])
    }

    fn transform(&self, pts: &Vec<Point>) -> (r: Vec<Point>) {
        let mut out: Vec<Point> = Vec::new();
        let mut i: usize = 0;
        while i < pts.len()
            invariant
                i <= pts@.len(),
                self.transformable(*pts),
                out@.len() == i,
                forall|j: int| 0 <= j < i ==> #[trigger] out@[j] == self.place(pts@[j]),
            decreases pts@.len() - i,
        {
            let q = self.place_point(&pts[i]);
            out.push(q);
            i = i + 1;
        }
        out
    }
}

/// Two points are the same key exactly when both coordinates agree.
pub proof fn lemma_point_identity(a: Point, b: Point)
    ensures
        (a == b) <==> (a.x == b.x && a.y == b.y),
{
}

/// Placements that reach the same location along different paths give the
/// same point: mirroring about `x` after a rotation lands where mirroring
/// about `y` after the opposite rotation does.
pub proof fn lemma_same_point_by_other_path(at: Point, r: Rotation, p: Point)
    ensures
        (Placement { at, rotation: r, mirror: Mirror::X }).place(p) == (Placement {
            at,
            rotation: half_turned(r),
            mirror: Mirror::Y,
        }).place(p),
{
}

/// A rotation turned by half a turn more.
pub open spec fn half_turned(r: Rotation) -> Rotation {
    match r {
        Rotation::R0 => Rotation::R180,
        Rotation::R90 => Rotation::R270,
        Rotation::R180 => Rotation::R0,
        Rotation::R270 => Rotation::R90,
    }
}

/// An axis-aligned box given by its lower and upper corners.
#[derive(Clone, Copy, Debug, PartialEq, Eq, Structural)]
pub struct BoundingBox {
    pub min: Point,
    pub max: Point,
}

/// `b` is the smallest box holding every point of `pts`: it holds them all,
/// and each of its four sides touches one of them.
pub open spec fn is_bounding_box(b: BoundingBox, pts: Seq<Point>) -> bool {
    &&& forall|i: int| 0 <= i < pts.len() ==> {
        &&& b.min.x <= (#[trigger] pts[i]).x <= b.max.x
        &&& b.min.y <= pts[i].y <= b.max.y
    }
    &&& exists|i: int| 0 <= i < pts.len() && #[trigger] pts[i].x == b.min.x
    &&& exists|i: int| 0 <= i < pts.len() && #[trigger] pts[i].x == b.max.x
    &&& exists|i: int| 0 <= i < pts.len() && #[trigger] pts[i].y == b.min.y
    &&& exists|i: int| 0 <= i < pts.len() && #[trigger] pts[i].y == b.max.y
}

/// The bounding box of a run of points; `None` when there are none.
pub fn bounding_box(pts: &Vec<Point>) -> (r: Option<BoundingBox>)
    ensures
        match r {
            Some(b) => pts@.len() > 0 && is_bounding_box(b, pts@),
            None => pts@.len() == 0,
        },
{
    if pts.len() == 0 {
        return None;
    }
    let mut b = BoundingBox { min: pts[0], max: pts[0] };
    let mut i: usize = 1;
    assert(pts@.take(1)[0] == pts@[0]);
    assert(pts@.take(1).len() == 1);
    while i < pts.len()
        invariant
            1 <= i <= pts@.len(),
            is_bounding_box(b, pts@.take(i as int)),
        decreases pts@.len() - i,
    {
        let p = pts[i];
        let ghost old_b = b;
        let ghost pre = pts@.take(i as int);
        let ghost next = pts@.take(i + 1);
        assert(next =~= pre.push(p));
        if p.x < b.min.x {
            b.min.x = p.x;
        }
        if p.x > b.max.x {
            b.max.x = p.x;
        }
        if p.y < b.min.y {
            b.min.y = p.y;
        }
        if p.y > b.max.y {
            b.max.y = p.y;
        }
        assert(next[i as int] == p);
        assert forall|j: int| 0 <= j < pre.len() implies #[trigger] next[j] == pre[j] by {}
        proof {
            if b.min.x == old_b.min.x {
                let j = choose|j: int| 0 <= j < pre.len() && #[trigger] pre[j].x == old_b.min.x;
                assert(next[j].x == b.min.x);
            }
        }
        proof {
            if b.max.x == old_b.max.x {
                let j = choose|j: int| 0 <= j < pre.len() && #[trigger] pre[j].x == old_b.max.x;
                assert(next[j].x == b.max.x);
            }
        }
        proof {
            if b.min.y == old_b.min.y {
                let j = choose|j: int| 0 <= j < pre.len() && #[trigger] pre[j].y == old_b.min.y;
                assert(next[j].y == b.min.y);
            }
        }
        proof {
            if b.max.y == old_b.max.y {
                let j = choose|j: int| 0 <= j < pre.len() && #[trigger] pre[j].y == old_b.max.y;
                assert(next[j].y == b.max.y);
            }
        }
        i = i + 1;
    }
    assert(pts@.take(i as int) =~= pts@);
    Some(b)
}

} // verus!
