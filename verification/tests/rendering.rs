use ascii_renderer::char_buffer::CharBuffer;
use ascii_renderer::create_cube;
use ascii_renderer::fixed::UNIT;
use ascii_renderer::line::Line;
use ascii_renderer::obj::{
    edges_contains_index, mesh_of_object, object_edges, simple_polygon_to_edges, AsciiObj, ObjGroup,
    ObjObject,
};
use ascii_renderer::rendering::{draw_mesh, Mesh, RenderError, Vector2, Vector3};
use std::collections::HashMap;

fn to_fixed(value: f32) -> i64 {
    (value * 65536.0).round() as i64
}

fn text_rows(buf: &CharBuffer) -> Vec<String> {
    buf.data.iter().map(|row| row.iter().collect::<String>()).collect()
}

fn whole(x: i64, y: i64, z: i64) -> Vector3 {
    Vector3::new(x * UNIT, y * UNIT, z * UNIT)
}

#[test]
fn vectors_keep_their_components() {
    let v = Vector3::new(1, -2, 3);
    assert_eq!((v.x, v.y, v.z), (1, -2, 3));
    let p = Vector2::new(-7, 9);
    assert_eq!((p.x, p.y), (-7, 9));
    assert_eq!(v, Vector3 { x: 1, y: -2, z: 3 });
}

#[test]
fn default_mesh_is_empty_and_unplaced() {
    let mesh = Mesh::default();
    assert!(mesh.get_verticies().is_empty());
    assert!(mesh.get_edges().is_empty());
    assert_eq!(mesh.rotation, Vector3::new(0, 0, 0));
    assert_eq!(mesh.position, Vector3::new(0, 0, 0));
    assert_eq!(mesh.scale, Vector3::new(UNIT, UNIT, UNIT));
    assert_eq!(mesh.char, '+');
}

#[test]
fn insert_vertex_hands_back_what_it_displaced() {
    let mut mesh = Mesh::default();
    assert_eq!(mesh.insert_vertex(7, whole(1, 2, 3)), None);
    assert_eq!(mesh.insert_vertex(7, whole(4, 5, 6)), Some(whole(1, 2, 3)));
    assert_eq!(mesh.get_vertex(7), Some(whole(4, 5, 6)));
    assert_eq!(mesh.get_vertex(8), None);
    assert_eq!(mesh.get_verticies().len(), 1);
}

#[test]
fn insert_vertices_lists_what_each_displaced() {
    let mut mesh = Mesh::default();
    mesh.insert_vertex(2, whole(9, 9, 9));
    let previous = mesh.insert_vertices(vec![
        (1, whole(1, 0, 0)),
        (2, whole(2, 0, 0)),
        (1, whole(3, 0, 0)),
    ]);
    assert_eq!(
        previous,
        vec![(1, None), (2, Some(whole(9, 9, 9))), (1, Some(whole(1, 0, 0)))]
    );
    assert_eq!(mesh.get_vertex(1), Some(whole(3, 0, 0)));
    assert_eq!(mesh.get_vertex(2), Some(whole(2, 0, 0)));
    assert_eq!(mesh.insert_vertices(vec![]), vec![]);
}

#[test]
fn remove_vertex_keeps_the_edges() {
    let mut mesh = Mesh::default();
    mesh.insert_vertex(0, whole(0, 0, 0));
    mesh.insert_vertex(1, whole(1, 1, 1));
    mesh.add_edge((0, 1));
    assert_eq!(mesh.remove_vertex(1), Some(whole(1, 1, 1)));
    assert_eq!(mesh.remove_vertex(1), None);
    assert_eq!(mesh.get_vertex(0), Some(whole(0, 0, 0)));
    assert_eq!(mesh.get_edges(), &vec![(0, 1)]);
}

#[test]
fn edges_are_kept_in_order_with_duplicates() {
    let mut mesh = Mesh::default();
    mesh.add_edge((3, 4));
    mesh.add_edges(vec![(1, 2), (3, 4), (9, 9)]);
    mesh.add_edges(vec![]);
    assert_eq!(mesh.get_edges(), &vec![(3, 4), (1, 2), (3, 4), (9, 9)]);
}

#[test]
fn remove_edge_takes_the_first_match_only() {
    let mut mesh = Mesh::default();
    mesh.add_edges(vec![(1, 2), (3, 4), (1, 2), (2, 1)]);
    assert_eq!(mesh.remove_edge((1, 2)), Some((1, 2)));
    assert_eq!(mesh.get_edges(), &vec![(3, 4), (1, 2), (2, 1)]);
    assert_eq!(mesh.remove_edge((5, 6)), None);
    assert_eq!(mesh.get_edges(), &vec![(3, 4), (1, 2), (2, 1)]);
    assert_eq!(mesh.remove_edge((1, 2)), Some((1, 2)));
    assert_eq!(mesh.remove_edge((1, 2)), None);
    assert_eq!(mesh.get_edges(), &vec![(3, 4), (2, 1)]);
}

#[test]
fn vertices_and_edges_can_be_changed_in_place() {
    let mut mesh = Mesh::default();
    mesh.get_verticies_mut().insert(5, whole(5, 5, 5));
    mesh.get_edges_mut().push((5, 5));
    assert_eq!(mesh.get_vertex(5), Some(whole(5, 5, 5)));
    assert_eq!(mesh.get_edges(), &vec![(5, 5)]);
    assert_eq!(mesh.char, '+');
}

#[test]
fn mesh_clone_is_a_copy() {
    let mut mesh = create_cube();
    mesh.char = '#';
    mesh.position = whole(1, 0, 0);
    let mut copy = mesh.clone();
    assert_eq!(copy.get_verticies(), mesh.get_verticies());
    assert_eq!(copy.get_edges(), mesh.get_edges());
    assert_eq!(copy.char, '#');
    assert_eq!(copy.position, whole(1, 0, 0));
    copy.remove_vertex(0);
    assert_eq!(mesh.get_vertex(0), Some(whole(1, 1, 1)));
}

#[test]
fn cube_has_eight_corners_and_twelve_edges() {
    let mut cube = create_cube();
    assert_eq!(cube.get_verticies().len(), 8);
    assert_eq!(
        cube.get_edges(),
        &vec![
            (0, 1),
            (1, 2),
            (2, 3),
            (3, 0),
            (4, 5),
            (5, 6),
            (6, 7),
            (7, 4),
            (0, 4),
            (1, 5),
            (2, 6),
            (3, 7)
        ]
    );
    assert_eq!(cube.get_vertex(0), Some(whole(1, 1, 1)));
    assert_eq!(cube.get_vertex(1), Some(whole(-1, 1, 1)));
    assert_eq!(cube.get_vertex(2), Some(whole(-1, -1, 1)));
    assert_eq!(cube.get_vertex(3), Some(whole(1, -1, 1)));
    assert_eq!(cube.get_vertex(4), Some(whole(1, 1, -1)));
    assert_eq!(cube.get_vertex(5), Some(whole(-1, 1, -1)));
    assert_eq!(cube.get_vertex(6), Some(whole(-1, -1, -1)));
    assert_eq!(cube.get_vertex(7), Some(whole(1, -1, -1)));
    assert_eq!(cube.scale, whole(1, 1, 1));
    assert_eq!(cube.char, '+');
}

#[test]
fn mesh_lines_follow_the_edges() {
    let mut mesh = Mesh::default();
    mesh.char = '*';
    mesh.add_edges(vec![(0, 1), (1, 0)]);
    let mut points = HashMap::new();
    points.insert(0, Vector2::new(1, 2));
    points.insert(1, Vector2::new(3, 4));
    assert_eq!(
        mesh.lines(&points),
        Ok(vec![
            Line { char: '*', points: ((1, 2), (3, 4)) },
            Line { char: '*', points: ((3, 4), (1, 2)) }
        ])
    );
}

#[test]
fn draw_mesh_draws_a_square() {
    let mut mesh = Mesh::default();
    mesh.char = '#';
    mesh.add_edges(vec![(0, 1), (1, 2), (2, 3), (3, 0)]);
    let mut points = HashMap::new();
    points.insert(0, Vector2::new(UNIT, UNIT));
    points.insert(1, Vector2::new(4 * UNIT, UNIT));
    points.insert(2, Vector2::new(4 * UNIT, 3 * UNIT));
    points.insert(3, Vector2::new(UNIT, 3 * UNIT));
    let mut buf = CharBuffer::new(6, 5);
    assert_eq!(draw_mesh(&mesh, &points, &mut buf), Ok(()));
    assert_eq!(
        text_rows(&buf),
        vec!["      ", " #### ", " #  # ", " #### ", "      "]
    );
}

#[test]
fn draw_mesh_reports_the_first_dangling_edge_and_draws_nothing() {
    let mut mesh = Mesh::default();
    mesh.add_edges(vec![(0, 1), (1, 7), (8, 0), (9, 9)]);
    let mut points = HashMap::new();
    points.insert(0, Vector2::new(0, 0));
    points.insert(1, Vector2::new(3 * UNIT, 0));
    let mut buf = CharBuffer::new(4, 2);
    buf.fill('.');
    assert_eq!(
        draw_mesh(&mesh, &points, &mut buf),
        Err(RenderError::DanglingEdge { index: 1, vertex: 7 })
    );
    assert_eq!(text_rows(&buf), vec!["....", "...."]);
    assert_eq!(
        mesh.lines(&points),
        Err(RenderError::DanglingEdge { index: 1, vertex: 7 })
    );
    mesh.remove_edge((1, 7));
    assert_eq!(
        draw_mesh(&mesh, &points, &mut buf),
        Err(RenderError::DanglingEdge { index: 1, vertex: 8 })
    );
    mesh.remove_edge((8, 0));
    assert_eq!(
        draw_mesh(&mesh, &points, &mut buf),
        Err(RenderError::DanglingEdge { index: 1, vertex: 9 })
    );
    mesh.remove_edge((9, 9));
    assert_eq!(draw_mesh(&mesh, &points, &mut buf), Ok(()));
    assert_eq!(text_rows(&buf), vec!["++++", "...."]);
}

#[test]
fn draw_mesh_of_nothing_draws_nothing() {
    let mesh = Mesh::default();
    let points = HashMap::new();
    let mut buf = CharBuffer::new(2, 2);
    assert_eq!(draw_mesh(&mesh, &points, &mut buf), Ok(()));
    assert_eq!(text_rows(&buf), vec!["  ", "  "]);
}

fn turn(first: f32, second: f32, angle: f32) -> (f32, f32) {
    let radius = (first * first + second * second).sqrt();
    let theta = second.atan2(first) + angle;
    (radius * theta.cos(), radius * theta.sin())
}

fn turn_in_space(point: (f32, f32, f32), by: (f32, f32, f32)) -> (f32, f32, f32) {
    let (z, y) = turn(point.2, point.1, by.0);
    let (x, z) = turn(point.0, z, by.1);
    let (x, y) = turn(x, y, by.2);
    (x, y, z)
}

fn seen_from(
    point: (f32, f32, f32),
    eye: (f32, f32, f32),
    eye_turn: (f32, f32, f32),
    fov: (f32, f32),
) -> (f32, f32) {
    let relative =
        turn_in_space((point.0 - eye.0, point.1 - eye.1, point.2 - eye.2), eye_turn);
    (
        relative.0.atan2(relative.2) / fov.0 + 0.5,
        relative.1.atan2(relative.2) / fov.1 + 0.5,
    )
}

#[test]
fn cube_seen_by_a_camera_is_drawn_inside_the_buffer() {
    let cube = create_cube();
    let mut buf = CharBuffer::new(50, 50);
    let mut points = HashMap::new();
    for (index, vertex) in cube.get_verticies().iter() {
        let local = (
            vertex.x as f32 / 65536.0,
            vertex.y as f32 / 65536.0,
            vertex.z as f32 / 65536.0,
        );
        let uv = seen_from(local, (0.0, 0.0, -3.0), (0.0, 0.0, 0.0), (0.8, 0.8));
        points.insert(*index, Vector2::new(to_fixed(uv.0 * 50.0), to_fixed(uv.1 * 50.0)));
    }
    assert_eq!(draw_mesh(&cube, &points, &mut buf), Ok(()));
    assert_eq!(buf.dimensions, (50, 50));
    assert_eq!(buf.data.len(), 50);
    let mut marked = 0;
    for row in buf.data.iter() {
        assert_eq!(row.len(), 50);
        for cell in row.iter() {
            assert!(*cell == ' ' || *cell == '+');
            if *cell == '+' {
                marked += 1;
            }
        }
    }
    assert!(marked > 50);
    // The far square of the cube is seen whole: its corners are marked.
    let far = seen_from((1.0, 1.0, 1.0), (0.0, 0.0, -3.0), (0.0, 0.0, 0.0), (0.8, 0.8));
    let column = (far.0 * 50.0).round() as usize;
    let row = (far.1 * 50.0).round() as usize;
    assert_eq!(buf.get_char(column, row), Some('+'));
    assert_eq!(buf.get_char(50 - column, 50 - row), Some('+'));
    assert_eq!(buf.get_char(column, 50 - row), Some('+'));
    assert_eq!(buf.get_char(50 - column, row), Some('+'));
}

#[test]
fn polygon_edges_close_the_face() {
    assert_eq!(simple_polygon_to_edges(&vec![4, 7, 9]), vec![(9, 4), (4, 7), (7, 9)]);
    assert_eq!(simple_polygon_to_edges(&vec![5]), vec![(5, 5)]);
    assert_eq!(simple_polygon_to_edges(&vec![1, 2]), vec![(2, 1), (1, 2)]);
    assert_eq!(simple_polygon_to_edges(&vec![]), vec![]);
}

#[test]
fn edges_contain_what_they_touch() {
    let edges = vec![(1, 2), (2, 5)];
    assert!(edges_contains_index(&edges, 1));
    assert!(edges_contains_index(&edges, 2));
    assert!(edges_contains_index(&edges, 5));
    assert!(!edges_contains_index(&edges, 0));
    assert!(!edges_contains_index(&vec![], 0));
}

#[test]
fn model_gives_one_mesh_for_each_object() {
    let model = AsciiObj {
        position: vec![whole(0, 0, 0), whole(1, 0, 0), whole(1, 1, 0), whole(0, 1, 0), whole(5, 5, 5)],
        objects: vec![
            ObjObject {
                groups: vec![
                    ObjGroup { polys: vec![vec![0, 1, 2]] },
                    ObjGroup { polys: vec![vec![2, 3], vec![]] },
                ],
            },
            ObjObject { groups: vec![] },
            ObjObject { groups: vec![ObjGroup { polys: vec![vec![4, 9]] }] },
        ],
    };
    assert_eq!(
        object_edges(&model.objects[0]),
        vec![(2, 0), (0, 1), (1, 2), (3, 2), (2, 3)]
    );
    let first = mesh_of_object(&model.position, &model.objects[0]);
    assert_eq!(first.get_verticies().len(), 4);
    let mut meshes = model.meshes();
    assert_eq!(meshes.len(), 3);
    assert_eq!(meshes[0].get_edges(), &vec![(2, 0), (0, 1), (1, 2), (3, 2), (2, 3)]);
    assert_eq!(meshes[0].get_verticies().len(), 4);
    assert_eq!(meshes[0].get_vertex(2), Some(whole(1, 1, 0)));
    assert_eq!(meshes[0].get_vertex(4), None);
    assert_eq!(meshes[0].scale, whole(1, 1, 1));
    assert_eq!(meshes[0].char, '+');
    assert!(meshes[1].get_edges().is_empty());
    assert!(meshes[1].get_verticies().is_empty());
    // A face may name a position that the model does not have: the edge
    // stays, the vertex is missing.
    assert_eq!(meshes[2].get_edges(), &vec![(9, 4), (4, 9)]);
    assert_eq!(meshes[2].get_verticies().len(), 1);
    assert_eq!(meshes[2].get_vertex(4), Some(whole(5, 5, 5)));
    let again: Vec<Mesh> = model.into();
    assert_eq!(again.len(), 3);
    assert_eq!(again[0].get_edges(), meshes[0].get_edges());
}
