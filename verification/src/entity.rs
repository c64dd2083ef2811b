//! Points, colours and the polygons that make up the world, with the
//! operations that read and change where a polygon stands.
//!
//! Every polygon is modelled by a [`ShapeView`]: its corners as mathematical
//! points, its colour, its motion state and its collision flag. The
//! contracts of the executable operations are equations between such views.
use crate::physics::{Physics, State};
use vstd::prelude::*;

verus! {

/// A position on the screen, in coordinate units.
#[derive(Debug, Clone, Copy, PartialEq, Eq, Structural)]
pub struct Point {
    pub x: i64,
    pub y: i64,
}

/// The mathematical position that a [`Point`] stands for.
pub struct PointView {
    pub x: int,
    pub y: int,
}

impl PointView {
    /// Both coordinates can be held in an `i64`.
    pub open spec fn representable(self) -> bool {
        i64::MIN <= self.x <= i64::MAX && i64::MIN <= self.y <= i64::MAX
    }
}

impl View for Point {
    type V = PointView;

    open spec fn view(&self) -> PointView {
        PointView { x: self.x as int, y: self.y as int }
    }
}

impl Point {
    pub fn new(x: i64, y: i64) -> (point: Point)
        ensures
            point.x == x,
            point.y == y,
    {
        Point { x, y }
    }

    /// Whether neither coordinate is further than `limit` from zero.
    pub fn within(&self, limit: i64) -> (within: bool)
        requires
            limit >= 0,
        ensures
            within == (-limit <= self.x <= limit && -limit <= self.y <= limit),
    {
        -limit <= self.x && self.x <= limit && -limit <= self.y && self.y <= limit
    }
}

/// A fill colour: red, green, blue and opacity, each from 0 to 255.
#[derive(Debug, Clone, Copy, PartialEq, Eq, Structural)]
pub struct Colour {
    pub r: u8,
    pub g: u8,
    pub b: u8,
    pub a: u8,
}

impl Colour {
    /// Opaque black.
    pub fn black() -> (colour: Colour)
        ensures
            colour == (Colour { r: 0, g: 0, b: 0, a: 255 }),
    {
        Colour { r: 0, g: 0, b: 0, a: 255 }
    }

    /// Opaque green.
    pub fn green() -> (colour: Colour)
        ensures
            colour == (Colour { r: 0, g: 255, b: 0, a: 255 }),
    {
        Colour { r: 0, g: 255, b: 0, a: 255 }
    }
}

/// The model of a polygon.
///
/// `points` holds the corners in the order A, B, C, ...: three for a
/// triangle, four for a rectangle, five for a pentagon. Triangles and
/// rectangles are positioned by their anchor, the corner C.
#[verifier::ext_equal]
pub struct ShapeView {
    pub points: Seq<PointView>,
    pub colour: Colour,
    pub state: State,
    pub collides: bool,
}

impl ShapeView {
    /// The polygon has a corner by which its position is read and set.
    /// A pentagon has none.
    pub open spec fn has_anchor(self) -> bool {
        self.points.len() == 3 || self.points.len() == 4
    }

    /// The anchor: corner C.
    pub open spec fn anchor(self) -> PointView
        recommends
            self.has_anchor(),
    {
        self.points[2]
    }

    /// The polygon moved by `dx` and `dy`: every corner moves alike, and
    /// nothing else changes.
    pub open spec fn translate(self, dx: int, dy: int) -> ShapeView {
        ShapeView {
            points: Seq::new(
                self.points.len(),
                |i: int| PointView { x: self.points[i].x + dx, y: self.points[i].y + dy },
            ),
            ..self
        }
    }

    /// The polygon moved sideways until its anchor stands at `x`.
    pub open spec fn place_x(self, x: int) -> ShapeView
        recommends
            self.has_anchor(),
    {
        self.translate(x - self.anchor().x, 0)
    }

    /// The polygon moved up or down until its anchor stands at `y`.
    pub open spec fn place_y(self, y: int) -> ShapeView
        recommends
            self.has_anchor(),
    {
        self.translate(0, y - self.anchor().y)
    }

    /// The polygon in another motion state.
    pub open spec fn with_state(self, state: State) -> ShapeView {
        ShapeView { state, ..self }
    }

    /// The x coordinates of the corners, in order.
    pub open spec fn xs(self) -> Seq<int> {
        Seq::new(self.points.len(), |i: int| self.points[i].x)
    }

    /// The y coordinates of the corners, in order.
    pub open spec fn ys(self) -> Seq<int> {
        Seq::new(self.points.len(), |i: int| self.points[i].y)
    }

    /// The greatest x coordinate among the corners.
    pub open spec fn max_x(self) -> int
        recommends
            self.points.len() > 0,
    {
        self.xs().max()
    }

    /// The greatest y coordinate among the corners.
    pub open spec fn max_y(self) -> int
        recommends
            self.points.len() > 0,
    {
        self.ys().max()
    }

    /// Every corner can be held in a [`Point`].
    pub open spec fn representable(self) -> bool {
        forall|i: int| 0 <= i < self.points.len() ==> (#[trigger] self.points[i]).representable()
    }

    /// No x coordinate is further than `limit` from zero.
    pub open spec fn x_within(self, limit: int) -> bool {
        forall|i: int|
            0 <= i < self.points.len() ==> -limit <= (#[trigger] self.points[i]).x <= limit
    }

    /// No y coordinate is further than `limit` from zero.
    pub open spec fn y_within(self, limit: int) -> bool {
        forall|i: int|
            0 <= i < self.points.len() ==> -limit <= (#[trigger] self.points[i]).y <= limit
    }

    /// No coordinate is further than `limit` from zero.
    pub open spec fn within(self, limit: int) -> bool {
        self.x_within(limit) && self.y_within(limit)
    }

    /// Width of a rectangle: from corner A to corner B.
    pub open spec fn width(self) -> int
        recommends
            self.points.len() == 4,
    {
        self.points[1].x - self.points[0].x
    }

    /// Height of a rectangle: from corner C up to corner A.
    pub open spec fn height(self) -> int
        recommends
            self.points.len() == 4,
    {
        self.points[0].y - self.points[2].y
    }

    /// The four corners form an upright rectangle: A and B on the top edge,
    /// C and D on the bottom edge, A over C and B over D.
    pub open spec fn upright(self) -> bool {
        &&& self.points.len() == 4
        &&& self.points[0].y == self.points[1].y
        &&& self.points[2].y == self.points[3].y
        &&& self.points[0].x == self.points[2].x
        &&& self.points[1].x == self.points[3].x
        &&& self.points[0].y >= self.points[2].y
        &&& self.points[0].x <= self.points[1].x
    }
}

/// One change of a polygon's position.
pub enum Motion {
    /// Sideways by a distance.
    ShiftX(int),
    /// Up by a distance.
    ShiftY(int),
    /// Sideways until the anchor stands at a coordinate.
    SetX(int),
    /// Up or down until the anchor stands at a coordinate.
    SetY(int),
}

impl ShapeView {
    /// The polygon after one change of position.
    pub open spec fn moved(self, motion: Motion) -> ShapeView {
        match motion {
            Motion::ShiftX(dx) => self.translate(dx, 0),
            Motion::ShiftY(dy) => self.translate(0, dy),
            Motion::SetX(x) => self.place_x(x),
            Motion::SetY(y) => self.place_y(y),
        }
    }

    /// The polygon after a run of changes of position, the first one first.
    pub open spec fn moved_all(self, motions: Seq<Motion>) -> ShapeView
        decreases motions.len(),
    {
        if motions.len() == 0 {
            self
        } else {
            self.moved_all(motions.drop_last()).moved(motions.last())
        }
    }
}

/// A triangle. C is its bottom left corner and its anchor.
///
/// ```text
///     A
///   /   \
///  C-----B
/// ```
#[derive(Debug, Clone, Copy, PartialEq, Eq)]
pub struct Triangle {
    pub a: Point,
    pub b: Point,
    pub c: Point,
    pub colour: Colour,
    pub physics: Physics,
}

impl View for Triangle {
    type V = ShapeView;

    open spec fn view(&self) -> ShapeView {
        ShapeView {
            points: seq![self.a@, self.b@, self.c@],
            colour: self.colour,
            state: self.physics.state,
            collides: self.physics.collides,
        }
    }
}

impl Triangle {
    /// A triangle at rest that nothing can land on.
    pub fn new(a: Point, b: Point, c: Point, colour: Colour) -> (triangle: Triangle)
        ensures
            triangle@ == (ShapeView {
                points: seq![a@, b@, c@],
                colour,
                state: State::Idle,
                collides: false,
            }),
    {
        Triangle { a, b, c, colour, physics: Physics { state: State::Idle, collides: false } }
    }
}

impl Default for Triangle {
    /// A black triangle in the bottom left corner of the screen, a tenth of
    /// the screen half-width wide and high.
    fn default() -> (triangle: Triangle)
        ensures
            triangle@ == (ShapeView {
                points: seq![
                    PointView { x: -9_500_000, y: -9_000_000 },
                    PointView { x: -9_000_000, y: -10_000_000 },
                    PointView { x: -10_000_000, y: -10_000_000 },
                ],
                colour: Colour { r: 0, g: 0, b: 0, a: 255 },
                state: State::Idle,
                collides: false,
            }),
    {
        Triangle::new(
            Point::new(-9_500_000, -9_000_000),
            Point::new(-9_000_000, -10_000_000),
            Point::new(-10_000_000, -10_000_000),
            Colour::black(),
        )
    }
}

/// A rectangle. A and B are its top corners, C and D its bottom corners;
/// C, the bottom left corner, is its anchor.
///
/// ```text
///  A-------B
///  |       |
///  C-------D
/// ```
#[derive(Debug, Clone, Copy, PartialEq, Eq)]
pub struct Rectangle {
    pub a: Point,
    pub b: Point,
    pub c: Point,
    pub d: Point,
    pub colour: Colour,
    pub physics: Physics,
}

impl View for Rectangle {
    type V = ShapeView;

    open spec fn view(&self) -> ShapeView {
        ShapeView {
            points: seq![self.a@, self.b@, self.c@, self.d@],
            colour: self.colour,
            state: self.physics.state,
            collides: self.physics.collides,
        }
    }
}

impl Rectangle {
    /// A rectangle at rest that other entities can land on.
    pub fn new(a: Point, b: Point, c: Point, d: Point, colour: Colour) -> (rectangle: Rectangle)
        ensures
            rectangle@ == (ShapeView {
                points: seq![a@, b@, c@, d@],
                colour,
                state: State::Idle,
                collides: true,
            }),
    {
        Rectangle { a, b, c, d, colour, physics: Physics { state: State::Idle, collides: true } }
    }
}

impl Default for Rectangle {
    /// A black square in the bottom left corner of the screen, a tenth of
    /// the screen half-width wide and high.
    fn default() -> (rectangle: Rectangle)
        ensures
            rectangle@ == (ShapeView {
                points: seq![
                    PointView { x: -10_000_000, y: -9_000_000 },
                    PointView { x: -9_000_000, y: -9_000_000 },
                    PointView { x: -10_000_000, y: -10_000_000 },
                    PointView { x: -9_000_000, y: -10_000_000 },
                ],
                colour: Colour { r: 0, g: 0, b: 0, a: 255 },
                state: State::Idle,
                collides: true,
            }),
            rectangle@.upright(),
    {
        Rectangle::new(
            Point::new(-10_000_000, -9_000_000),
            Point::new(-9_000_000, -9_000_000),
            Point::new(-10_000_000, -10_000_000),
            Point::new(-9_000_000, -10_000_000),
            Colour::black(),
        )
    }
}

/// A pentagon. It has no anchor: its position can be neither read nor
/// changed.
///
/// ```text
///      B
///    /   \
///   A     D
///    \   /
///     C-E
/// ```
#[derive(Debug, Clone, Copy, PartialEq, Eq)]
pub struct Pentagon {
    pub a: Point,
    pub b: Point,
    pub c: Point,
    pub d: Point,
    pub e: Point,
    pub colour: Colour,
    pub physics: Physics,
}

impl View for Pentagon {
    type V = ShapeView;

    open spec fn view(&self) -> ShapeView {
        ShapeView {
            points: seq![self.a@, self.b@, self.c@, self.d@, self.e@],
            colour: self.colour,
            state: self.physics.state,
            collides: self.physics.collides,
        }
    }
}

impl Default for Pentagon {
    /// A black regular pentagon round the centre of the screen, its corners
    /// a tenth of the screen half-width from the centre, rounded to whole
    /// coordinate units.
    fn default() -> (pentagon: Pentagon)
        ensures
            pentagon@ == (ShapeView {
                points: seq![
                    PointView { x: -951_057, y: 309_017 },
                    PointView { x: 0, y: 1_000_000 },
                    PointView { x: -587_785, y: -809_017 },
                    PointView { x: 951_057, y: 309_017 },
                    PointView { x: 587_785, y: -809_017 },
                ],
                colour: Colour { r: 0, g: 0, b: 0, a: 255 },
                state: State::Idle,
                collides: false,
            }),
    {
        Pentagon {
            a: Point::new(-951_057, 309_017),
            b: Point::new(0, 1_000_000),
            c: Point::new(-587_785, -809_017),
            d: Point::new(951_057, 309_017),
            e: Point::new(587_785, -809_017),
            colour: Colour::black(),
            physics: Physics { state: State::Idle, collides: false },
        }
    }
}

/// One polygon of the world.
#[derive(Debug, Clone, Copy, PartialEq, Eq)]
pub enum Shape2D {
    Triangle(Triangle),
    Rectangle(Rectangle),
    Pentagon(Pentagon),
}

impl View for Shape2D {
    type V = ShapeView;

    open spec fn view(&self) -> ShapeView {
        match *self {
            Shape2D::Triangle(t) => t@,
            Shape2D::Rectangle(r) => r@,
            Shape2D::Pentagon(p) => p@,
        }
    }
}

/// Reading and changing where a polygon stands.
///
/// Positions are read and set at the anchor, and a move must leave every
/// corner within the range of `i64`. A polygon without an anchor supports
/// `max_x` and `max_y` only.
pub trait Transform2D: View<V = ShapeView> {
    /// The x coordinate of the anchor.
    fn x(&self) -> (x: i64)
        requires
            self@.has_anchor(),
        ensures
            x == self@.anchor().x,
    ;

    /// The y coordinate of the anchor.
    fn y(&self) -> (y: i64)
        requires
            self@.has_anchor(),
        ensures
            y == self@.anchor().y,
    ;

    /// The anchor.
    fn xy(&self) -> (anchor: Point)
        requires
            self@.has_anchor(),
        ensures
            anchor@ == self@.anchor(),
    ;

    /// Moves every corner sideways by `x`.
    fn shift_x(&mut self, x: i64)
        requires
            old(self)@.has_anchor(),
            old(self)@.translate(x as int, 0).representable(),
        ensures
            final(self)@ == old(self)@.translate(x as int, 0),
    ;

    /// Moves every corner up by `y`.
    fn shift_y(&mut self, y: i64)
        requires
            old(self)@.has_anchor(),
            old(self)@.translate(0, y as int).representable(),
        ensures
            final(self)@ == old(self)@.translate(0, y as int),
    ;

    /// Moves every corner sideways by `x`, then up by `y`.
    fn shift_xy(&mut self, x: i64, y: i64)
        requires
            old(self)@.has_anchor(),
            old(self)@.translate(x as int, 0).representable(),
            old(self)@.translate(x as int, y as int).representable(),
        ensures
            final(self)@ == old(self)@.translate(x as int, y as int),
    {
        proof {
            lemma_translate_twice(self@, x as int, 0, 0, y as int);
        }
        self.shift_x(x);
        self.shift_y(y);
    }

    /// Moves the polygon sideways until its anchor stands at `x`.
    fn set_x(&mut self, x: i64)
        requires
            old(self)@.has_anchor(),
            old(self)@.place_x(x as int).representable(),
        ensures
            final(self)@ == old(self)@.place_x(x as int),
    ;

    /// Moves the polygon up or down until its anchor stands at `y`.
    fn set_y(&mut self, y: i64)
        requires
            old(self)@.has_anchor(),
            old(self)@.place_y(y as int).representable(),
        ensures
            final(self)@ == old(self)@.place_y(y as int),
    ;

    /// Moves the polygon until its anchor stands at `x`, `y`.
    fn set_xy(&mut self, x: i64, y: i64)
        requires
            old(self)@.has_anchor(),
            old(self)@.place_x(x as int).representable(),
            old(self)@.place_x(x as int).place_y(y as int).representable(),
        ensures
            final(self)@ == old(self)@.place_x(x as int).place_y(y as int),
    {
        self.set_x(x);
        self.set_y(y);
    }

    /// The greatest y coordinate among the corners.
    fn max_y(&self) -> (y: i64)
        ensures
            y == self@.max_y(),
    ;

    /// The greatest x coordinate among the corners.
    fn max_x(&self) -> (x: i64)
        ensures
            x == self@.max_x(),
    ;
}

/// Reading and changing the physical attributes of a polygon.
pub trait Entity: View<V = ShapeView> {
    /// The motion state.
    fn state(&self) -> (state: State)
        ensures
            state == self@.state,
    ;

    /// Replaces the motion state and nothing else.
    fn set_state(&mut self, state: State)
        ensures
            final(self)@ == old(self)@.with_state(state),
    ;

    /// Whether other entities can land on this one.
    fn collides(&self) -> (collides: bool)
        ensures
            collides == self@.collides,
    ;
}

/// Two moves in a row are one move by the sums.
pub proof fn lemma_translate_twice(shape: ShapeView, dx1: int, dy1: int, dx2: int, dy2: int)
    ensures
        shape.translate(dx1, dy1).translate(dx2, dy2) == shape.translate(dx1 + dx2, dy1 + dy2),
{
    assert(shape.translate(dx1, dy1).translate(dx2, dy2) =~= shape.translate(
        dx1 + dx2,
        dy1 + dy2,
    ));
}

/// The greatest member of a sequence is the one member that none exceeds.
pub proof fn lemma_max_is(s: Seq<int>, m: int)
    requires
        s.contains(m),
        forall|i: int| 0 <= i < s.len() ==> s[i] <= m,
    ensures
        s.max() == m,
{
    s.max_ensures();
}

/// Each of the first five corners of a shape that can be held can be held.
proof fn lemma_corners(shape: ShapeView)
    requires
        shape.representable(),
    ensures
        shape.points.len() > 0 ==> shape.points[0].representable(),
        shape.points.len() > 1 ==> shape.points[1].representable(),
        shape.points.len() > 2 ==> shape.points[2].representable(),
        shape.points.len() > 3 ==> shape.points[3].representable(),
        shape.points.len() > 4 ==> shape.points[4].representable(),
{
}

impl Transform2D for Triangle {
    fn x(&self) -> (x: i64) {
        self.c.x
    }

    fn y(&self) -> (y: i64) {
        self.c.y
    }

    fn xy(&self) -> (anchor: Point) {
        Point { x: self.c.x, y: self.c.y }
    }

    fn shift_x(&mut self, x: i64) {
        let ghost moved = self@.translate(x as int, 0);
        proof {
            lemma_corners(moved);
        }
        self.a.x = self.a.x + x;
        self.b.x = self.b.x + x;
        self.c.x = self.c.x + x;
        assert(self@ =~= moved);
    }

    fn shift_y(&mut self, y: i64) {
        let ghost moved = self@.translate(0, y as int);
        proof {
            lemma_corners(moved);
        }
        self.a.y = self.a.y + y;
        self.b.y = self.b.y + y;
        self.c.y = self.c.y + y;
        assert(self@ =~= moved);
    }

    fn set_x(&mut self, x: i64) {
        let ghost moved = self@.place_x(x as int);
        proof {
            lemma_corners(moved);
        }
        let by: i128 = x as i128 - self.c.x as i128;
        self.a.x = (self.a.x as i128 + by) as i64;
        self.b.x = (self.b.x as i128 + by) as i64;
        self.c.x = x;
        assert(self@ =~= moved);
    }

    fn set_y(&mut self, y: i64) {
        let ghost moved = self@.place_y(y as int);
        proof {
            lemma_corners(moved);
        }
        let by: i128 = y as i128 - self.c.y as i128;
        self.a.y = (self.a.y as i128 + by) as i64;
        self.b.y = (self.b.y as i128 + by) as i64;
        self.c.y = y;
        assert(self@ =~= moved);
    }

    fn max_y(&self) -> (y: i64) {
        let mut max = self.a.y;
        if self.b.y > max {
            max = self.b.y;
        }
        if self.c.y > max {
            max = self.c.y;
        }
        proof {
            let all = self@.ys();
            assert(all[0] == self.a.y && all[1] == self.b.y && all[2] == self.c.y);
            lemma_max_is(all, max as int);
        }
        max
    }

    fn max_x(&self) -> (x: i64) {
        let mut max = self.a.x;
        if self.b.x > max {
            max = self.b.x;
        }
        if self.c.x > max {
            max = self.c.x;
        }
        proof {
            let all = self@.xs();
            assert(all[0] == self.a.x && all[1] == self.b.x && all[2] == self.c.x);
            lemma_max_is(all, max as int);
        }
        max
    }
}

impl Entity for Triangle {
    fn state(&self) -> (state: State) {
        self.physics.state
    }

    fn set_state(&mut self, state: State) {
        self.physics.state = state;
        assert(self@ =~= old(self)@.with_state(state));
    }

    fn collides(&self) -> (collides: bool) {
        self.physics.collides
    }
}

impl Transform2D for Rectangle {
    fn x(&self) -> (x: i64) {
        self.c.x
    }

    fn y(&self) -> (y: i64) {
        self.c.y
    }

    fn xy(&self) -> (anchor: Point) {
        Point { x: self.c.x, y: self.c.y }
    }

    fn shift_x(&mut self, x: i64) {
        let ghost moved = self@.translate(x as int, 0);
        proof {
            lemma_corners(moved);
        }
        self.a.x = self.a.x + x;
        self.b.x = self.b.x + x;
        self.c.x = self.c.x + x;
        self.d.x = self.d.x + x;
        assert(self@ =~= moved);
    }

    fn shift_y(&mut self, y: i64) {
        let ghost moved = self@.translate(0, y as int);
        proof {
            lemma_corners(moved);
        }
        self.a.y = self.a.y + y;
        self.b.y = self.b.y + y;
        self.c.y = self.c.y + y;
        self.d.y = self.d.y + y;
        assert(self@ =~= moved);
    }

    fn set_x(&mut self, x: i64) {
        let ghost moved = self@.place_x(x as int);
        proof {
            lemma_corners(moved);
        }
        let by: i128 = x as i128 - self.c.x as i128;
        self.a.x = (self.a.x as i128 + by) as i64;
        self.b.x = (self.b.x as i128 + by) as i64;
        self.d.x = (self.d.x as i128 + by) as i64;
        self.c.x = x;
        assert(self@ =~= moved);
    }

    fn set_y(&mut self, y: i64) {
        let ghost moved = self@.place_y(y as int);
        proof {
            lemma_corners(moved);
        }
        let by: i128 = y as i128 - self.c.y as i128;
        self.a.y = (self.a.y as i128 + by) as i64;
        self.b.y = (self.b.y as i128 + by) as i64;
        self.d.y = (self.d.y as i128 + by) as i64;
        self.c.y = y;
        assert(self@ =~= moved);
    }

    fn max_y(&self) -> (y: i64) {
        let mut max = self.a.y;
        if self.b.y > max {
            max = self.b.y;
        }
        if self.c.y > max {
            max = self.c.y;
        }
        if self.d.y > max {
            max = self.d.y;
        }
        proof {
            let all = self@.ys();
            assert(all[0] == self.a.y && all[1] == self.b.y && all[2] == self.c.y);
            assert(all[3] == self.d.y);
            lemma_max_is(all, max as int);
        }
        max
    }

    fn max_x(&self) -> (x: i64) {
        let mut max = self.a.x;
        if self.b.x > max {
            max = self.b.x;
        }
        if self.c.x > max {
            max = self.c.x;
        }
        if self.d.x > max {
            max = self.d.x;
        }
        proof {
            let all = self@.xs();
            assert(all[0] == self.a.x && all[1] == self.b.x && all[2] == self.c.x);
            assert(all[3] == self.d.x);
            lemma_max_is(all, max as int);
        }
        max
    }
}

impl Entity for Rectangle {
    fn state(&self) -> (state: State) {
        self.physics.state
    }

    fn set_state(&mut self, state: State) {
        self.physics.state = state;
        assert(self@ =~= old(self)@.with_state(state));
    }

    fn collides(&self) -> (collides: bool) {
        self.physics.collides
    }
}

impl Pentagon {
    /// The greatest y coordinate among the corners.
    pub fn max_y(&self) -> (y: i64)
        ensures
            y == self@.max_y(),
    {
        let mut max = self.a.y;
        if self.b.y > max {
            max = self.b.y;
        }
        if self.c.y > max {
            max = self.c.y;
        }
        if self.d.y > max {
            max = self.d.y;
        }
        if self.e.y > max {
            max = self.e.y;
        }
        proof {
            let all = self@.ys();
            assert(all[0] == self.a.y && all[1] == self.b.y && all[2] == self.c.y);
            assert(all[3] == self.d.y && all[4] == self.e.y);
            lemma_max_is(all, max as int);
        }
        max
    }

    /// The greatest x coordinate among the corners.
    pub fn max_x(&self) -> (x: i64)
        ensures
            x == self@.max_x(),
    {
        let mut max = self.a.x;
        if self.b.x > max {
            max = self.b.x;
        }
        if self.c.x > max {
            max = self.c.x;
        }
        if self.d.x > max {
            max = self.d.x;
        }
        if self.e.x > max {
            max = self.e.x;
        }
        proof {
            let all = self@.xs();
            assert(all[0] == self.a.x && all[1] == self.b.x && all[2] == self.c.x);
            assert(all[3] == self.d.x && all[4] == self.e.x);
            lemma_max_is(all, max as int);
        }
        max
    }
}

impl Entity for Pentagon {
    fn state(&self) -> (state: State) {
        self.physics.state
    }

    fn set_state(&mut self, state: State) {
        self.physics.state = state;
        assert(self@ =~= old(self)@.with_state(state));
    }

    fn collides(&self) -> (collides: bool) {
        self.physics.collides
    }
}

impl Transform2D for Shape2D {
    fn x(&self) -> (x: i64) {
        match self {
            Shape2D::Triangle(t) => t.x(),
            Shape2D::Rectangle(r) => r.x(),
            Shape2D::Pentagon(_) => unreached(),
        }
    }

    fn y(&self) -> (y: i64) {
        match self {
            Shape2D::Triangle(t) => t.y(),
            Shape2D::Rectangle(r) => r.y(),
            Shape2D::Pentagon(_) => unreached(),
        }
    }

    fn xy(&self) -> (anchor: Point) {
        match self {
            Shape2D::Triangle(t) => t.xy(),
            Shape2D::Rectangle(r) => r.xy(),
            Shape2D::Pentagon(_) => unreached(),
        }
    }

    fn shift_x(&mut self, x: i64) {
        match self {
            Shape2D::Triangle(t) => t.shift_x(x),
            Shape2D::Rectangle(r) => r.shift_x(x),
            Shape2D::Pentagon(_) => unreached(),
        }
    }

    fn shift_y(&mut self, y: i64) {
        match self {
            Shape2D::Triangle(t) => t.shift_y(y),
            Shape2D::Rectangle(r) => r.shift_y(y),
            Shape2D::Pentagon(_) => unreached(),
        }
    }

    fn set_x(&mut self, x: i64) {
        match self {
            Shape2D::Triangle(t) => t.set_x(x),
            Shape2D::Rectangle(r) => r.set_x(x),
            Shape2D::Pentagon(_) => unreached(),
        }
    }

    fn set_y(&mut self, y: i64) {
        match self {
            Shape2D::Triangle(t) => t.set_y(y),
            Shape2D::Rectangle(r) => r.set_y(y),
            Shape2D::Pentagon(_) => unreached(),
        }
    }

    fn max_y(&self) -> (y: i64) {
        match self {
            Shape2D::Triangle(t) => t.max_y(),
            Shape2D::Rectangle(r) => r.max_y(),
            Shape2D::Pentagon(p) => p.max_y(),
        }
    }

    fn max_x(&self) -> (x: i64) {
        match self {
            Shape2D::Triangle(t) => t.max_x(),
            Shape2D::Rectangle(r) => r.max_x(),
            Shape2D::Pentagon(p) => p.max_x(),
        }
    }
}

impl Entity for Shape2D {
    fn state(&self) -> (state: State) {
        match self {
            Shape2D::Triangle(t) => t.state(),
            Shape2D::Rectangle(r) => r.state(),
            Shape2D::Pentagon(p) => p.state(),
        }
    }

    fn set_state(&mut self, state: State) {
        match self {
            Shape2D::Triangle(t) => t.set_state(state),
            Shape2D::Rectangle(r) => r.set_state(state),
            Shape2D::Pentagon(p) => p.set_state(state),
        }
    }

    fn collides(&self) -> (collides: bool) {
        match self {
            Shape2D::Triangle(t) => t.collides(),
            Shape2D::Rectangle(r) => r.collides(),
            Shape2D::Pentagon(p) => p.collides(),
        }
    }
}

impl Shape2D {
    /// The model of a shape has three to five corners, each of which can be
    /// held in a [`Point`].
    pub proof fn lemma_view(&self)
        ensures
            3 <= self@.points.len() <= 5,
            self@.representable(),
    {
    }

    /// The corners, in the order A, B, C, ...
    pub fn points(&self) -> (points: Vec<Point>)
        ensures
            points@.len() == self@.points.len(),
            forall|i: int| 0 <= i < points@.len() ==> (#[trigger] points@[i])@ == self@.points[i],
    {
        match self {
            Shape2D::Triangle(t) => vec![t.a, t.b, t.c],
            Shape2D::Rectangle(r) => vec![r.a, r.b, r.c, r.d],
            Shape2D::Pentagon(p) => vec![p.a, p.b, p.c, p.d, p.e],
        }
    }

    /// The fill colour.
    pub fn colour(&self) -> (colour: Colour)
        ensures
            colour == self@.colour,
    {
        match self {
            Shape2D::Triangle(t) => t.colour,
            Shape2D::Rectangle(r) => r.colour,
            Shape2D::Pentagon(p) => p.colour,
        }
    }

    /// Whether the shape has an anchor, so that its position can be read
    /// and changed.
    pub fn has_anchor(&self) -> (has_anchor: bool)
        ensures
            has_anchor == self@.has_anchor(),
    {
        match self {
            Shape2D::Triangle(_) => true,
            Shape2D::Rectangle(_) => true,
            Shape2D::Pentagon(_) => false,
        }
    }

    /// Whether no coordinate of the shape is further than `limit` from zero.
    pub fn within(&self, limit: i64) -> (within: bool)
        requires
            limit >= 0,
        ensures
            within == self@.within(limit as int),
    {
        proof {
            self.lemma_view();
            lemma_corners(self@);
        }
        match self {
            Shape2D::Triangle(t) => t.a.within(limit) && t.b.within(limit) && t.c.within(limit),
            Shape2D::Rectangle(r) => r.a.within(limit) && r.b.within(limit) && r.c.within(limit)
                && r.d.within(limit),
            Shape2D::Pentagon(p) => p.a.within(limit) && p.b.within(limit) && p.c.within(limit)
                && p.d.within(limit) && p.e.within(limit),
        }
    }
}

/// A move followed by the opposite move leaves a polygon exactly as it was.
pub proof fn law_shift_back(shape: ShapeView, dx: int, dy: int)
    ensures
        shape.translate(dx, dy).translate(-dx, -dy) == shape,
{
    assert(shape.translate(dx, dy).translate(-dx, -dy) =~= shape);
}

/// A polygon that was placed at a coordinate has its anchor there, and the
/// anchor's other coordinate is as it was.
pub proof fn law_set_then_read(shape: ShapeView, x: int, y: int)
    requires
        shape.has_anchor(),
    ensures
        shape.place_x(x).anchor().x == x,
        shape.place_x(x).anchor().y == shape.anchor().y,
        shape.place_y(y).anchor().y == y,
        shape.place_y(y).anchor().x == shape.anchor().x,
        shape.place_x(x).place_y(y).anchor() == (PointView { x, y }),
{
}

/// No run of shifts and placements changes the width or the height of a
/// rectangle, and an upright rectangle stays upright.
pub proof fn law_moves_keep_size(shape: ShapeView, motions: Seq<Motion>)
    requires
        shape.points.len() == 4,
    ensures
        shape.moved_all(motions).points.len() == 4,
        shape.moved_all(motions).width() == shape.width(),
        shape.moved_all(motions).height() == shape.height(),
        shape.upright() ==> shape.moved_all(motions).upright(),
    decreases motions.len(),
{
    if motions.len() > 0 {
        law_moves_keep_size(shape, motions.drop_last());
    }
}

} // verus!
