use crate::rendering::{empty_mesh, Mesh, MeshView, Vector3};
use std::collections::HashMap;
use vstd::prelude::*;

verus! {

broadcast use vstd::std_specs::hash::group_hash_axioms;

/// A group of faces. Each face lists, corner after corner, the places of its
/// corners among the positions of the model.
#[derive(Debug)]
pub struct ObjGroup {
    pub polys: Vec<Vec<usize>>,
}

/// One object of a model: its groups of faces.
#[derive(Debug)]
pub struct ObjObject {
    pub groups: Vec<ObjGroup>,
}

/// A model as a file of faces describes it: the positions that all objects
/// share, and the objects.
#[derive(Debug)]
pub struct AsciiObj {
    pub position: Vec<Vector3>,
    pub objects: Vec<ObjObject>,
}

/// The edges around a face: from its last corner to its first, then from each
/// corner to the next. A face without corners has no edge.
pub open spec fn polygon_edges(polygon: Seq<usize>) -> Seq<(usize, usize)> {
    Seq::new(
        polygon.len(),
        |i: int|
            (
                if i == 0 {
                    polygon[polygon.len() - 1]
                } else {
                    polygon[i - 1]
                },
                polygon[i],
            ),
    )
}

/// The edges of the faces of `polys`, face after face.
pub open spec fn polys_edges(polys: Seq<Vec<usize>>) -> Seq<(usize, usize)>
    decreases polys.len(),
{
    if polys.len() == 0 {
        Seq::empty()
    } else {
        polys_edges(polys.drop_last()) + polygon_edges(polys.last()@)
    }
}

/// The edges of the faces of `groups`, group after group.
pub open spec fn groups_edges(groups: Seq<ObjGroup>) -> Seq<(usize, usize)>
    decreases groups.len(),
{
    if groups.len() == 0 {
        Seq::empty()
    } else {
        groups_edges(groups.drop_last()) + polys_edges(groups.last().polys@)
    }
}

/// Some edge of `edges` starts or ends at `value`.
pub open spec fn names_vertex(edges: Seq<(usize, usize)>, value: usize) -> bool {
    exists|i: int| 0 <= i < edges.len() && #[trigger] touches(edges[i], value)
}

/// `edge` starts or ends at `value`.
pub open spec fn touches(edge: (usize, usize), value: usize) -> bool {
    edge.0 == value || edge.1 == value
}

/// The positions that some edge names, each under its place among all
/// positions.
pub open spec fn named_positions(positions: Seq<Vector3>, edges: Seq<(usize, usize)>) -> Map<
    usize,
    Vector3,
> {
    Map::new(
        |i: usize| i < positions.len() && names_vertex(edges, i),
        |i: usize| positions[i as int],
    )
}

/// The mesh of an object: the edges of all its faces, and of the model's
/// positions those that an edge names. It is placed as [`empty_mesh`] is.
pub open spec fn object_mesh(positions: Seq<Vector3>, object: ObjObject) -> MeshView {
    MeshView {
        vertices: named_positions(positions, groups_edges(object.groups@)),
        edges: groups_edges(object.groups@),
        ..empty_mesh()
    }
}

/// The edges around one face.
pub fn simple_polygon_to_edges(polygon: &Vec<usize>) -> (edges: Vec<(usize, usize)>)
    ensures
        edges@ == polygon_edges(polygon@),
{
    let mut edges: Vec<(usize, usize)> = Vec::new();
    let mut i: usize = 0;
    while i < polygon.len()
        invariant
            i <= polygon.len(),
            edges@ == polygon_edges(polygon@).take(i as int),
        decreases polygon.len() - i,
    {
        let from: usize = if i == 0 {
            polygon[polygon.len() - 1]
        } else {
            polygon[i - 1]
        };
        edges.push((from, polygon[i]));
        assert(edges@ =~= polygon_edges(polygon@).take(i as int + 1));
        i += 1;
    }
    assert(polygon_edges(polygon@).take(polygon.len() as int) =~= polygon_edges(polygon@));
    edges
}

/// Whether some edge of `edges` starts or ends at `value`.
pub fn edges_contains_index(edges: &Vec<(usize, usize)>, value: usize) -> (found: bool)
    ensures
        found == names_vertex(edges@, value),
{
    let mut i: usize = 0;
    while i < edges.len()
        invariant
            i <= edges.len(),
            forall|j: int| 0 <= j < i ==> !#[trigger] touches(edges@[j], value),
        decreases edges.len() - i,
    {
        let edge = edges[i];
        if edge.0 == value || edge.1 == value {
            assert(touches(edges@[i as int], value));
            return true;
        }
        i += 1;
    }
    false
}

/// Adds the edges of `source` behind those of `target`.
fn append_edges(target: &mut Vec<(usize, usize)>, source: &Vec<(usize, usize)>)
    ensures
        final(target)@ == old(target)@ + source@,
{
    let mut i: usize = 0;
    while i < source.len()
        invariant
            i <= source.len(),
            target@ == old(target)@ + source@.take(i as int),
        decreases source.len() - i,
    {
        target.push(source[i]);
        assert(old(target)@ + source@.take(i as int + 1) =~= (old(target)@ + source@.take(
            i as int,
        )).push(source@[i as int]));
        i += 1;
    }
    assert(source@.take(source.len() as int) =~= source@);
}

/// The edges of all faces of `object`, group after group and face after
/// face.
pub fn object_edges(object: &ObjObject) -> (edges: Vec<(usize, usize)>)
    ensures
        edges@ == groups_edges(object.groups@),
{
    let mut edges: Vec<(usize, usize)> = Vec::new();
    let mut g: usize = 0;
    while g < object.groups.len()
        invariant
            g <= object.groups.len(),
            edges@ == groups_edges(object.groups@.take(g as int)),
        decreases object.groups.len() - g,
    {
        let polys = &object.groups[g].polys;
        let ghost before = edges@;
        let mut p: usize = 0;
        while p < polys.len()
            invariant
                p <= polys.len(),
                edges@ == before + polys_edges(polys@.take(p as int)),
            decreases polys.len() - p,
        {
            let around = simple_polygon_to_edges(&polys[p]);
            append_edges(&mut edges, &around);
            proof {
                let upto = polys@.take(p as int + 1);
                assert(upto.drop_last() =~= polys@.take(p as int));
                assert(upto.last() == polys@[p as int]);
                assert(edges@ =~= before + polys_edges(upto));
            }
            p += 1;
        }
        proof {
            assert(polys@.take(polys.len() as int) =~= polys@);
            let upto = object.groups@.take(g as int + 1);
            assert(upto.drop_last() =~= object.groups@.take(g as int));
            assert(upto.last() == object.groups@[g as int]);
        }
        g += 1;
    }
    assert(object.groups@.take(object.groups.len() as int) =~= object.groups@);
    edges
}

/// The mesh of one object of a model with the positions `positions`.
pub fn mesh_of_object(positions: &Vec<Vector3>, object: &ObjObject) -> (mesh: Mesh)
    ensures
        mesh@ == object_mesh(positions@, *object),
{
    let edges = object_edges(object);
    let mut vertices: HashMap<usize, Vector3> = HashMap::new();
    let mut i: usize = 0;
    while i < positions.len()
        invariant
            i <= positions.len(),
            vertices@ == named_positions(positions@.take(i as int), edges@),
        decreases positions.len() - i,
    {
        if edges_contains_index(&edges, i) {
            vertices.insert(i, positions[i]);
        }
        assert(vertices@ =~= named_positions(positions@.take(i as int + 1), edges@));
        i += 1;
    }
    assert(positions@.take(positions.len() as int) =~= positions@);
    let mut mesh = Mesh::default();
    mesh.edges = edges;
    mesh.vertices = vertices;
    mesh
}

/// The meshes of a model, one for each object, in the order of the objects.
pub open spec fn model_meshes(model: AsciiObj) -> Seq<MeshView> {
    Seq::new(model.objects@.len(), |i: int| object_mesh(model.position@, model.objects@[i]))
}

/// What the meshes of `meshes` hold, mesh after mesh.
pub open spec fn mesh_views(meshes: Vec<Mesh>) -> Seq<MeshView> {
    Seq::new(meshes@.len(), |i: int| meshes@[i]@)
}

impl AsciiObj {
    /// The meshes of the model, one for each object, in the order of the
    /// objects.
    pub fn meshes(&self) -> (meshes: Vec<Mesh>)
        ensures
            mesh_views(meshes) == model_meshes(*self),
    {
        let mut meshes: Vec<Mesh> = Vec::new();
        let mut i: usize = 0;
        while i < self.objects.len()
            invariant
                i <= self.objects.len(),
                meshes@.len() == i,
                forall|j: int|
                    0 <= j < i ==> (#[trigger] meshes@[j])@ == object_mesh(
                        self.position@,
                        self.objects@[j],
                    ),
            decreases self.objects.len() - i,
        {
            let mesh = mesh_of_object(&self.position, &self.objects[i]);
            meshes.push(mesh);
            i += 1;
        }
        assert(mesh_views(meshes) =~= model_meshes(*self));
        meshes
    }
}

impl Into<Vec<Mesh>> for AsciiObj {
    /// The meshes of the model; see [`AsciiObj::meshes`].
    fn into(self) -> (meshes: Vec<Mesh>)
        ensures
            mesh_views(meshes) == model_meshes(self),
    {
        self.meshes()
    }
}

impl vstd::std_specs::convert::IntoSpecImpl<Vec<Mesh>> for AsciiObj {
    open spec fn obeys_into_spec() -> bool {
        false
    }

    open spec fn into_spec(self) -> Vec<Mesh> {
        arbitrary()
    }
}

} // verus!
