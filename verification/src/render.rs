//! The world as a list of triangle corners, ready to be drawn.
use crate::entity::{Colour, Point, PointView, Shape2D, ShapeView};
use crate::game::views;
use vstd::prelude::*;

verus! {

/// One corner of a triangle to draw, with the colour to draw it in.
#[derive(Debug, Clone, Copy, PartialEq, Eq)]
pub struct Vertex2D {
    pub coord: Point,
    pub colour: Colour,
}

/// The model of a [`Vertex2D`].
pub struct VertexView {
    pub coord: PointView,
    pub colour: Colour,
}

impl View for Vertex2D {
    type V = VertexView;

    open spec fn view(&self) -> VertexView {
        VertexView { coord: self.coord@, colour: self.colour }
    }
}

impl Vertex2D {
    pub fn new(x: i64, y: i64, colour: Colour) -> (vertex: Vertex2D)
        ensures
            vertex@ == (VertexView { coord: PointView { x: x as int, y: y as int }, colour }),
    {
        Vertex2D { coord: Point { x, y }, colour }
    }
}

/// The models of a sequence of vertices.
pub open spec fn vertex_views(vertices: Seq<Vertex2D>) -> Seq<VertexView> {
    Seq::new(vertices.len(), |i: int| vertices[i]@)
}

impl ShapeView {
    /// The triangles that cover the polygon, corner after corner.
    ///
    /// The polygon is cut into a fan of triangles round its corner C: C
    /// with A and B, then C with B and D, then C with D and E. Each
    /// triangle is listed with its corners in the polygon's order, so a
    /// triangle gives A B C, a rectangle A B C, B C D and a pentagon A B C,
    /// B C D, C D E: entry `k` of the list is corner `k % 3` of triangle
    /// `k / 3`, which starts at corner `k / 3` of the polygon. Every entry
    /// carries the polygon's colour.
    pub open spec fn mesh(self) -> Seq<VertexView> {
        Seq::new(
            (3 * (self.points.len() - 2)) as nat,
            |k: int| VertexView { coord: self.points[k / 3 + k % 3], colour: self.colour },
        )
    }
}

/// The triangles that cover the polygons, polygon after polygon.
pub open spec fn mesh_of(shapes: Seq<ShapeView>) -> Seq<VertexView>
    decreases shapes.len(),
{
    if shapes.len() == 0 {
        Seq::empty()
    } else {
        mesh_of(shapes.drop_last()) + shapes.last().mesh()
    }
}

/// Lists the corners of the triangles that cover the entities, entity after
/// entity in drawing order.
pub fn create_buffer(entities: &[Shape2D]) -> (vertex_buf: Vec<Vertex2D>)
    ensures
        vertex_views(vertex_buf@) == mesh_of(views(entities@)),
{
    let mut vertex_buf: Vec<Vertex2D> = Vec::new();
    let mut i: usize = 0;
    assert(views(entities@).take(0) =~= Seq::<ShapeView>::empty());
    while i < entities.len()
        invariant
            i <= entities.len(),
            vertex_views(vertex_buf@) == mesh_of(views(entities@).take(i as int)),
        decreases entities.len() - i,
    {
        let ghost before = vertex_buf@;
        match &entities[i] {
            Shape2D::Triangle(t) => {
                vertex_buf.push(Vertex2D::new(t.a.x, t.a.y, t.colour));
                vertex_buf.push(Vertex2D::new(t.b.x, t.b.y, t.colour));
                vertex_buf.push(Vertex2D::new(t.c.x, t.c.y, t.colour));
            },
            Shape2D::Rectangle(r) => {
                vertex_buf.push(Vertex2D::new(r.a.x, r.a.y, r.colour));
                vertex_buf.push(Vertex2D::new(r.b.x, r.b.y, r.colour));
                vertex_buf.push(Vertex2D::new(r.c.x, r.c.y, r.colour));

                vertex_buf.push(Vertex2D::new(r.b.x, r.b.y, r.colour));
                vertex_buf.push(Vertex2D::new(r.c.x, r.c.y, r.colour));
                vertex_buf.push(Vertex2D::new(r.d.x, r.d.y, r.colour));
            },
            Shape2D::Pentagon(p) => {
                vertex_buf.push(Vertex2D::new(p.a.x, p.a.y, p.colour));
                vertex_buf.push(Vertex2D::new(p.b.x, p.b.y, p.colour));
                vertex_buf.push(Vertex2D::new(p.c.x, p.c.y, p.colour));

                vertex_buf.push(Vertex2D::new(p.b.x, p.b.y, p.colour));
                vertex_buf.push(Vertex2D::new(p.c.x, p.c.y, p.colour));
                vertex_buf.push(Vertex2D::new(p.d.x, p.d.y, p.colour));

                vertex_buf.push(Vertex2D::new(p.c.x, p.c.y, p.colour));
                vertex_buf.push(Vertex2D::new(p.d.x, p.d.y, p.colour));
                vertex_buf.push(Vertex2D::new(p.e.x, p.e.y, p.colour));
            },
        }
        proof {
            let done = views(entities@).take(i as int + 1);
            assert(done.drop_last() =~= views(entities@).take(i as int));
            assert(done.last() == entities@[i as int]@);
            let added = entities@[i as int]@.mesh();
            assert(vertex_views(vertex_buf@) =~= vertex_views(before) + added);
        }
        i = i + 1;
    }
    assert(views(entities@).take(i as int) =~= views(entities@));
    vertex_buf
}

} // verus!
