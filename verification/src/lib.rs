pub mod char_buffer;
pub mod fixed;
pub mod line;
pub mod obj;
pub mod prelude;
pub mod rendering;
pub mod runner;

pub use rendering::{Vector2, Vector3};

use fixed::UNIT;
use rendering::{empty_mesh, Mesh, MeshView};
use vstd::prelude::*;

verus! {

/// The corner of the cube that lies towards `x`, `y` and `z`, each one unit
/// in the positive direction where its flag is set, else in the negative.
pub open spec fn corner(x: bool, y: bool, z: bool) -> Vector3 {
    Vector3 {
        x: if x { UNIT } else { (-UNIT) as i64 },
        y: if y { UNIT } else { (-UNIT) as i64 },
        z: if z { UNIT } else { (-UNIT) as i64 },
    }
}

/// The cube with edges two units long around the origin: vertices 0 to 3 are
/// the square at `z = 1`, vertices 4 to 7 the square at `z = -1`, and vertex
/// `n + 4` lies below vertex `n`.
pub open spec fn unit_cube() -> MeshView {
    MeshView {
        vertices: map![
            0usize => corner(true, true, true),
            1usize => corner(false, true, true),
            2usize => corner(false, false, true),
            3usize => corner(true, false, true),
            4usize => corner(true, true, false),
            5usize => corner(false, true, false),
            6usize => corner(false, false, false),
            7usize => corner(true, false, false),
        ],
        edges: seq![
            (0usize, 1usize),
            (1usize, 2usize),
            (2usize, 3usize),
            (3usize, 0usize),
            (4usize, 5usize),
            (5usize, 6usize),
            (6usize, 7usize),
            (7usize, 4usize),
            (0usize, 4usize),
            (1usize, 5usize),
            (2usize, 6usize),
            (3usize, 7usize),
        ],
        ..empty_mesh()
    }
}

/// A cube of two by two by two units around the origin, for trying things
/// out.
pub fn create_cube() -> (mesh: Mesh)
    ensures
        mesh@ == unit_cube(),
{
    let mut cube = Mesh::default();
    // Top square
    cube.insert_vertex(0, Vector3::new(UNIT, UNIT, UNIT));
    cube.insert_vertex(1, Vector3::new(-UNIT, UNIT, UNIT));
    cube.insert_vertex(2, Vector3::new(-UNIT, -UNIT, UNIT));
    cube.insert_vertex(3, Vector3::new(UNIT, -UNIT, UNIT));

    cube.add_edge((0, 1));
    cube.add_edge((1, 2));
    cube.add_edge((2, 3));
    cube.add_edge((3, 0));

    // Bottom square
    cube.insert_vertex(4, Vector3::new(UNIT, UNIT, -UNIT));
    cube.insert_vertex(5, Vector3::new(-UNIT, UNIT, -UNIT));
    cube.insert_vertex(6, Vector3::new(-UNIT, -UNIT, -UNIT));
    cube.insert_vertex(7, Vector3::new(UNIT, -UNIT, -UNIT));

    cube.add_edge((4, 5));
    cube.add_edge((5, 6));
    cube.add_edge((6, 7));
    cube.add_edge((7, 4));

    // Connecting the squares
    cube.add_edge((0, 4));
    cube.add_edge((1, 5));
    cube.add_edge((2, 6));
    cube.add_edge((3, 7));

    assert(cube@.vertices =~= unit_cube().vertices);
    assert(cube@.edges =~= unit_cube().edges);
    cube
}

} // verus!
