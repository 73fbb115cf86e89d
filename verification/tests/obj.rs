use frame_engine::obj::{parse_face_corner, parse_obj_layout, resolve, ObjCorner};

#[test]
fn face_corner_forms() {
    assert_eq!(parse_face_corner("7", 1), Ok((7, None)));
    assert_eq!(parse_face_corner("3/4", 1), Ok((3, None)));
    assert_eq!(parse_face_corner("3/4/5", 1), Ok((3, Some(5))));
    assert_eq!(parse_face_corner("3//-2", 1), Ok((3, Some(-2))));
    assert_eq!(parse_face_corner("3//", 1), Ok((3, None)));
    assert_eq!(parse_face_corner("+3/1/2/9", 1), Ok((3, Some(2))));
}

#[test]
fn face_corner_errors() {
    assert_eq!(parse_face_corner("", 4), Err("line 4: bad face corner ''".to_string()));
    assert_eq!(parse_face_corner("/1", 12), Err("line 12: bad face corner '/1'".to_string()));
    assert_eq!(parse_face_corner("a", 1), Err("line 1: bad face corner 'a'".to_string()));
    assert_eq!(
        parse_face_corner("1//x", 2),
        Err("line 2: bad normal index in '1//x'".to_string())
    );
    assert_eq!(
        parse_face_corner("99999999999999999999", 3),
        Err("line 3: bad face corner '99999999999999999999'".to_string())
    );
}

#[test]
fn resolve_counts_from_both_ends() {
    let list = [10, 20, 30];
    assert_eq!(resolve(&list, 1), Some(&10));
    assert_eq!(resolve(&list, 3), Some(&30));
    assert_eq!(resolve(&list, -1), Some(&30));
    assert_eq!(resolve(&list, -3), Some(&10));
    assert_eq!(resolve(&list, 0), None);
    assert_eq!(resolve(&list, 4), None);
    assert_eq!(resolve(&list, -4), None);
    assert_eq!(resolve(&list, i64::MIN), None);
}

fn corner(position: usize, normal: Option<usize>) -> ObjCorner {
    ObjCorner { position, normal }
}

#[test]
fn triangle_and_quad() {
    let text = "# a quad\nv 0 0 0\nv 1 0 0\nv 1 1 0\nv 0 1 0\nvn 0 0 1\nf 1//1 2//1 3//1 4//1\nf -4 -3 -2\n";
    let layout = parse_obj_layout(text).unwrap();
    assert_eq!(layout.positions.len(), 4);
    assert_eq!(layout.positions[2].x, "1");
    assert_eq!(layout.positions[2].y, "1");
    assert_eq!(layout.positions[2].z, "0");
    assert_eq!(layout.normals.len(), 1);
    assert_eq!(layout.normals[0].z, "1");
    assert_eq!(
        layout.triangles,
        vec![
            corner(0, Some(0)),
            corner(1, Some(0)),
            corner(2, Some(0)),
            corner(0, Some(0)),
            corner(2, Some(0)),
            corner(3, Some(0)),
            corner(0, None),
            corner(1, None),
            corner(2, None),
        ]
    );
}

#[test]
fn numbers_comments_and_unknown_lines() {
    let text = "o thing\r\nv 1.5e3 -.5 +2.\r\nv inf NaN 7 extra # note\nvt 0 0\nv 1 2 3\nusemtl x\nf 1/1 2/2 3/3\n";
    let layout = parse_obj_layout(text).unwrap();
    assert_eq!(layout.positions.len(), 3);
    assert_eq!(layout.positions[0].x, "1.5e3");
    assert_eq!(layout.positions[1].y, "NaN");
    assert_eq!(layout.triangles.len(), 3);
}

#[test]
fn obj_errors_name_the_line() {
    assert_eq!(
        parse_obj_layout("v 1 2\n").err(),
        Some("line 1: 'v' needs three numbers".to_string())
    );
    assert_eq!(
        parse_obj_layout("\nvn 1 x 3\n").err(),
        Some("line 2: 'x' is not a number".to_string())
    );
    assert_eq!(
        parse_obj_layout("v 0 0 0\nf 1 2 3\n").err(),
        Some("line 2: face vertex index 2 is out of range".to_string())
    );
    assert_eq!(
        parse_obj_layout("v 0 0 0\nf 1//-1 1 1\n").err(),
        Some("line 2: face normal index -1 is out of range".to_string())
    );
    assert_eq!(
        parse_obj_layout("v 0 0 0\nf 1 1\n").err(),
        Some("line 2: face has fewer than 3 corners".to_string())
    );
    assert_eq!(
        parse_obj_layout("v 0 0 0\nf 1 q 1\n").err(),
        Some("line 2: bad face corner 'q'".to_string())
    );
    assert_eq!(
        parse_obj_layout("v 0 0 0\n").err(),
        Some("no faces found (is this an OBJ file with geometry?)".to_string())
    );
    assert_eq!(
        parse_obj_layout("").err(),
        Some("no faces found (is this an OBJ file with geometry?)".to_string())
    );
    assert_eq!(
        parse_obj_layout("v 1 . 3\n").err(),
        Some("line 1: '.' is not a number".to_string())
    );
    assert_eq!(
        parse_obj_layout("v 1 1e 3\n").err(),
        Some("line 1: '1e' is not a number".to_string())
    );
}
