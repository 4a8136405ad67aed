use crate::char_buffer::CharBuffer;
use crate::fixed::UNIT;
use crate::line::{with_lines, Line};
use std::collections::HashMap;
use vstd::prelude::*;

verus! {

broadcast use vstd::std_specs::hash::group_hash_axioms;

/// A point or a direction in space. Each component is a fixed-point number in
/// the units of [`crate::fixed::UNIT`]; in a rotation it counts radians.
#[derive(Debug, Clone, Copy, PartialEq, Eq, PartialOrd)]
pub struct Vector3 {
    pub x: i64,
    pub y: i64,
    pub z: i64,
}

impl Vector3 {
    pub fn new(x: i64, y: i64, z: i64) -> (v: Self)
        ensures
            v == (Vector3 { x, y, z }),
    {
        Self { x, y, z }
    }
}

/// A point of the screen, in fixed-point cell units.
#[derive(Debug, Clone, Copy, PartialEq, Eq, PartialOrd)]
pub struct Vector2 {
    pub x: i64,
    pub y: i64,
}

impl Vector2 {
    pub fn new(x: i64, y: i64) -> (v: Self)
        ensures
            v == (Vector2 { x, y }),
    {
        Self { x, y }
    }
}

/// A wireframe: vertices under numbers of the caller's choice, edges between
/// those numbers, and where the whole stands in space.
///
/// An edge may name a number under which no vertex is stored. Such a mesh can
/// be built and changed; it cannot be drawn.
#[derive(Debug)]
pub struct Mesh {
    pub vertices: HashMap<usize, Vector3>,
    pub edges: Vec<(usize, usize)>,
    pub rotation: Vector3,
    pub position: Vector3,
    pub scale: Vector3,
    pub char: char,
}

/// What a mesh holds.
pub struct MeshView {
    pub vertices: Map<usize, Vector3>,
    pub edges: Seq<(usize, usize)>,
    pub rotation: Vector3,
    pub position: Vector3,
    pub scale: Vector3,
    pub char: char,
}

impl View for Mesh {
    type V = MeshView;

    open spec fn view(&self) -> MeshView {
        MeshView {
            vertices: self.vertices@,
            edges: self.edges@,
            rotation: self.rotation,
            position: self.position,
            scale: self.scale,
            char: self.char,
        }
    }
}

/// What `map` holds under `key`, if anything.
pub open spec fn lookup<V>(map: Map<usize, V>, key: usize) -> Option<V> {
    if map.contains_key(key) {
        Some(map[key])
    } else {
        None
    }
}

/// The place of the first edge equal to `edge`, or the length of `edges` if
/// there is none.
pub open spec fn first_match(edges: Seq<(usize, usize)>, edge: (usize, usize)) -> int
    decreases edges.len(),
{
    if edges.len() == 0 {
        0
    } else if edges[0] == edge {
        0
    } else {
        1 + first_match(edges.drop_first(), edge)
    }
}

/// The vertices after the pairs of `added` were stored one after the other.
pub open spec fn with_vertices(
    vertices: Map<usize, Vector3>,
    added: Seq<(usize, Vector3)>,
) -> Map<usize, Vector3>
    decreases added.len(),
{
    if added.len() == 0 {
        vertices
    } else {
        with_vertices(vertices, added.drop_last()).insert(added.last().0, added.last().1)
    }
}

/// For each pair of `added`, its number and what was stored under it just
/// before the pair itself was stored.
pub open spec fn displaced(vertices: Map<usize, Vector3>, added: Seq<(usize, Vector3)>) -> Seq<
    (usize, Option<Vector3>),
> {
    Seq::new(
        added.len(),
        |i: int| (added[i].0, lookup(with_vertices(vertices, added.take(i)), added[i].0)),
    )
}

impl Mesh {
    /// Stores `vertex` under `index` and hands back what was there before.
    pub fn insert_vertex(&mut self, index: usize, vertex: Vector3) -> (previous: Option<Vector3>)
        ensures
            final(self)@ == (MeshView {
                vertices: old(self)@.vertices.insert(index, vertex),
                ..old(self)@
            }),
            previous == lookup(old(self)@.vertices, index),
    {
        self.vertices.insert(index, vertex)
    }

    /// The vertex stored under `index`, if there is one. The mesh stays as it
    /// is.
    pub fn get_vertex(&mut self, index: usize) -> (vertex: Option<Vector3>)
        ensures
            final(self)@ == old(self)@,
            vertex == lookup(old(self)@.vertices, index),
    {
        match self.vertices.get(&index) {
            Some(v) => Some(*v),
            None => None,
        }
    }

    /// Stores the vertices of `vertices` one after the other, and lists for
    /// each its number and what it displaced.
    pub fn insert_vertices(&mut self, vertices: Vec<(usize, Vector3)>) -> (previous: Vec<
        (usize, Option<Vector3>),
    >)
        ensures
            final(self)@ == (MeshView {
                vertices: with_vertices(old(self)@.vertices, vertices@),
                ..old(self)@
            }),
            previous@ == displaced(old(self)@.vertices, vertices@),
    {
        let mut previous: Vec<(usize, Option<Vector3>)> = Vec::new();
        let mut i: usize = 0;
        while i < vertices.len()
            invariant
                i <= vertices.len(),
                self@ == (MeshView {
                    vertices: with_vertices(old(self)@.vertices, vertices@.take(i as int)),
                    ..old(self)@
                }),
                previous@ == displaced(old(self)@.vertices, vertices@.take(i as int)),
            decreases vertices.len() - i,
        {
            let pair = vertices[i];
            let before = self.insert_vertex(pair.0, pair.1);
            previous.push((pair.0, before));
            proof {
                let upto = vertices@.take(i as int + 1);
                assert(upto.drop_last() =~= vertices@.take(i as int));
                assert(upto.last() == pair);
                assert forall|j: int| 0 <= j <= i implies #[trigger] upto.take(j)
                    == vertices@.take(i as int).take(j) by {
                    assert(upto.take(j) =~= vertices@.take(i as int).take(j));
                }
                assert(vertices@.take(i as int).take(i as int) =~= vertices@.take(i as int));
                assert(previous@ =~= displaced(old(self)@.vertices, upto));
            }
            i += 1;
        }
        assert(vertices@.take(vertices.len() as int) =~= vertices@);
        previous
    }

    /// Takes out the vertex stored under `index` and hands it back. Edges that
    /// name `index` stay.
    pub fn remove_vertex(&mut self, index: usize) -> (removed: Option<Vector3>)
        ensures
            final(self)@ == (MeshView {
                vertices: old(self)@.vertices.remove(index),
                ..old(self)@
            }),
            removed == lookup(old(self)@.vertices, index),
    {
        self.vertices.remove(&index)
    }

    /// The vertices, each under its number.
    pub fn get_verticies(&self) -> (vertices: &HashMap<usize, Vector3>)
        ensures
            vertices@ == self@.vertices,
    {
        &self.vertices
    }

    /// The vertices, to be changed in place.
    pub fn get_verticies_mut(&mut self) -> (vertices: &mut HashMap<usize, Vector3>)
        ensures
            vertices@ == old(self)@.vertices,
            final(self)@ == (MeshView { vertices: final(vertices)@, ..old(self)@ }),
    {
        &mut self.vertices
    }

    /// Adds `edge` behind the edges that are there.
    pub fn add_edge(&mut self, edge: (usize, usize))
        ensures
            final(self)@ == (MeshView { edges: old(self)@.edges.push(edge), ..old(self)@ }),
    {
        self.edges.push(edge)
    }

    /// Adds `edges`, in their order, behind the edges that are there.
    pub fn add_edges(&mut self, edges: Vec<(usize, usize)>)
        ensures
            final(self)@ == (MeshView { edges: old(self)@.edges + edges@, ..old(self)@ }),
    {
        let mut i: usize = 0;
        while i < edges.len()
            invariant
                i <= edges.len(),
                self@ == (MeshView {
                    edges: old(self)@.edges + edges@.take(i as int),
                    ..old(self)@
                }),
            decreases edges.len() - i,
        {
            self.edges.push(edges[i]);
            assert(old(self)@.edges + edges@.take(i as int + 1) =~= (old(self)@.edges
                + edges@.take(i as int)).push(edges@[i as int]));
            i += 1;
        }
        assert(edges@.take(edges.len() as int) =~= edges@);
    }

    /// Takes out the first edge equal to `edge`, if there is one, and hands it
    /// back. Later edges equal to it stay.
    pub fn remove_edge(&mut self, edge: (usize, usize)) -> (removed: Option<(usize, usize)>)
        ensures
            removed == (if old(self)@.edges.contains(edge) {
                Some(edge)
            } else {
                None
            }),
            old(self)@.edges.contains(edge) ==> final(self)@ == (MeshView {
                edges: old(self)@.edges.remove(first_match(old(self)@.edges, edge)),
                ..old(self)@
            }),
            !old(self)@.edges.contains(edge) ==> final(self)@ == old(self)@,
    {
        let mut i: usize = 0;
        while i < self.edges.len()
            invariant
                i <= self.edges@.len(),
                *self == *old(self),
                forall|j: int| 0 <= j < i ==> self.edges@[j] != edge,
            decreases self.edges@.len() - i,
        {
            let here = self.edges[i];
            if here.0 == edge.0 && here.1 == edge.1 {
                proof {
                    lemma_first_match(self.edges@, edge, i as int);
                }
                let taken = self.edges.remove(i);
                return Some(taken);
            }
            i += 1;
        }
        None
    }

    /// The edges, in their order.
    pub fn get_edges(&self) -> (edges: &Vec<(usize, usize)>)
        ensures
            edges@ == self@.edges,
    {
        &self.edges
    }

    /// The edges, to be changed in place.
    pub fn get_edges_mut(&mut self) -> (edges: &mut Vec<(usize, usize)>)
        ensures
            edges@ == old(self)@.edges,
            final(self)@ == (MeshView { edges: final(edges)@, ..old(self)@ }),
    {
        &mut self.edges
    }
}

/// Where the first `at` edges differ from `edge` and the next one equals it,
/// `at` is the place of the first match.
pub proof fn lemma_first_match(edges: Seq<(usize, usize)>, edge: (usize, usize), at: int)
    requires
        0 <= at < edges.len(),
        edges[at] == edge,
        forall|j: int| 0 <= j < at ==> edges[j] != edge,
    ensures
        first_match(edges, edge) == at,
        edges.contains(edge),
    decreases at,
{
    if at > 0 {
        let rest = edges.drop_first();
        assert(rest[at - 1] == edges[at]);
        assert forall|j: int| 0 <= j < at - 1 implies rest[j] != edge by {
            assert(rest[j] == edges[j + 1]);
        }
        lemma_first_match(rest, edge, at - 1);
    }
}

/// The mesh that nothing was added to: no vertex, no edge, not turned, at the
/// origin, in its own size, drawn with `+`.
pub open spec fn empty_mesh() -> MeshView {
    MeshView {
        vertices: Map::empty(),
        edges: Seq::empty(),
        rotation: Vector3 { x: 0, y: 0, z: 0 },
        position: Vector3 { x: 0, y: 0, z: 0 },
        scale: Vector3 { x: UNIT, y: UNIT, z: UNIT },
        char: '+',
    }
}

impl Default for Mesh {
    fn default() -> (mesh: Self)
        ensures
            mesh@ == empty_mesh(),
    {
        Self {
            vertices: HashMap::new(),
            edges: Vec::new(),
            rotation: Vector3::new(0, 0, 0),
            position: Vector3::new(0, 0, 0),
            scale: Vector3::new(UNIT, UNIT, UNIT),
            char: '+',
        }
    }
}

impl Clone for Mesh {
    fn clone(&self) -> (copy: Self)
        ensures
            copy@ == self@,
    {
        let mut edges: Vec<(usize, usize)> = Vec::new();
        let mut i: usize = 0;
        while i < self.edges.len()
            invariant
                i <= self.edges@.len(),
                edges@ == self.edges@.take(i as int),
            decreases self.edges@.len() - i,
        {
            edges.push(self.edges[i]);
            assert(self.edges@.take(i as int + 1) =~= self.edges@.take(i as int).push(
                self.edges@[i as int],
            ));
            i += 1;
        }
        assert(self.edges@.take(self.edges@.len() as int) =~= self.edges@);
        Self {
            vertices: self.vertices.clone(),
            edges,
            rotation: self.rotation,
            position: self.position,
            scale: self.scale,
            char: self.char,
        }
    }
}

/// Why a mesh could not be drawn.
#[derive(Debug, Clone, Copy, PartialEq, Eq)]
pub enum RenderError {
    /// The edge at place `index` of the mesh's edges names `vertex`, and no
    /// point was given for it.
    DanglingEdge { index: usize, vertex: usize },
}

/// `edge` names a vertex for which `points` holds no point.
pub open spec fn dangles(points: Map<usize, Vector2>, edge: (usize, usize)) -> bool {
    !points.contains_key(edge.0) || !points.contains_key(edge.1)
}

/// The end of a dangling edge that is reported: its first end if that is
/// missing, else its second.
pub open spec fn missing_end(points: Map<usize, Vector2>, edge: (usize, usize)) -> usize {
    if !points.contains_key(edge.0) {
        edge.0
    } else {
        edge.1
    }
}

/// The line between the points of the two ends of `edge`.
pub open spec fn edge_line(points: Map<usize, Vector2>, edge: (usize, usize), glyph: char) -> Line {
    Line {
        char: glyph,
        points: ((points[edge.0].x, points[edge.0].y), (points[edge.1].x, points[edge.1].y)),
    }
}

/// One line for each edge, in the order of the edges.
pub open spec fn edge_lines(
    points: Map<usize, Vector2>,
    edges: Seq<(usize, usize)>,
    glyph: char,
) -> Seq<Line> {
    Seq::new(edges.len(), |i: int| edge_line(points, edges[i], glyph))
}

impl Mesh {
    /// The lines that draw the mesh, one for each edge, where `points` says
    /// for each vertex number where on screen that vertex is seen.
    ///
    /// Fails at the first edge that names a vertex without a point.
    pub fn lines(&self, points: &HashMap<usize, Vector2>) -> (lines: Result<Vec<Line>, RenderError>)
        ensures
            match lines {
                Ok(lines) => {
                    &&& forall|i: int|
                        0 <= i < self@.edges.len() ==> !dangles(points@, #[trigger] self@.edges[i])
                    &&& lines@ == edge_lines(points@, self@.edges, self@.char)
                },
                Err(RenderError::DanglingEdge { index, vertex }) => {
                    &&& index < self@.edges.len()
                    &&& dangles(points@, self@.edges[index as int])
                    &&& vertex == missing_end(points@, self@.edges[index as int])
                    &&& forall|i: int|
                        0 <= i < index ==> !dangles(points@, #[trigger] self@.edges[i])
                },
            },
    {
        let mut lines: Vec<Line> = Vec::new();
        let mut i: usize = 0;
        while i < self.edges.len()
            invariant
                i <= self.edges@.len(),
                forall|j: int| 0 <= j < i ==> !dangles(points@, #[trigger] self@.edges[j]),
                lines@ == edge_lines(points@, self@.edges.take(i as int), self@.char),
            decreases self.edges@.len() - i,
        {
            let edge = self.edges[i];
            let from = match points.get(&edge.0) {
                Some(point) => *point,
                None => {
                    return Err(RenderError::DanglingEdge { index: i, vertex: edge.0 });
                },
            };
            let to = match points.get(&edge.1) {
                Some(point) => *point,
                None => {
                    return Err(RenderError::DanglingEdge { index: i, vertex: edge.1 });
                },
            };
            lines.push(Line { char: self.char, points: ((from.x, from.y), (to.x, to.y)) });
            assert(lines@ =~= edge_lines(points@, self@.edges.take(i as int + 1), self@.char));
            i += 1;
        }
        assert(self@.edges.take(self.edges@.len() as int) =~= self@.edges);
        Ok(lines)
    }
}

/// Draws `mesh` into `buffer`: one line for each edge, in the order of the
/// edges, between the points that `points` gives for the two ends.
///
/// Where an edge names a vertex without a point, nothing is drawn and the
/// first such edge is reported.
pub fn draw_mesh(mesh: &Mesh, points: &HashMap<usize, Vector2>, buffer: &mut CharBuffer) -> (done:
    Result<(), RenderError>)
    ensures
        final(buffer).dimensions == old(buffer).dimensions,
        old(buffer).wf() ==> final(buffer).wf(),
        match done {
            Ok(_) => {
                &&& forall|i: int|
                    0 <= i < mesh@.edges.len() ==> !dangles(points@, #[trigger] mesh@.edges[i])
                &&& final(buffer)@ == with_lines(
                    old(buffer)@,
                    edge_lines(points@, mesh@.edges, mesh@.char),
                )
            },
            Err(RenderError::DanglingEdge { index, vertex }) => {
                &&& final(buffer)@ == old(buffer)@
                &&& index < mesh@.edges.len()
                &&& dangles(points@, mesh@.edges[index as int])
                &&& vertex == missing_end(points@, mesh@.edges[index as int])
                &&& forall|i: int| 0 <= i < index ==> !dangles(points@, #[trigger] mesh@.edges[i])
            },
        },
{
    match mesh.lines(points) {
        Ok(lines) => {
            buffer.draw_lines(lines);
            Ok(())
        },
        Err(error) => Err(error),
    }
}

} // verus!
