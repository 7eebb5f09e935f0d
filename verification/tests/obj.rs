use tinyrenderer::model::{match_records, parse_obj_file, parse_obj_lines, try_parse_obj_file, Model};
use tinyrenderer::text::{parse_usize, trim};

fn lines(ls: &[&str]) -> Vec<String> {
    ls.iter().map(|s| s.to_string()).collect()
}

fn t3(a: &str, b: &str, c: &str) -> (String, String, String) {
    (a.to_string(), b.to_string(), c.to_string())
}

#[test]
fn trim_removes_unicode_white_space() {
    assert_eq!(trim("  ab c \t\n"), "ab c");
    assert_eq!(trim("\u{3000}x\u{a0}"), "x");
    assert_eq!(trim(""), "");
    assert_eq!(trim(" \t "), "");
    assert_eq!(trim("plain"), "plain");
}

#[test]
fn parse_usize_follows_from_str() {
    for s in ["0", "42", "+7", "007", "", "+", "-1", "-0", "1a", " 1", "18446744073709551615", "18446744073709551616", "99999999999999999999999", "\u{663}"] {
        assert_eq!(parse_usize(s), s.parse::<usize>().ok(), "{:?}", s);
    }
    assert_eq!(parse_usize("123"), Some(123));
}

#[test]
fn vertex_lines_give_coordinate_tokens() {
    let raw = parse_obj_lines(&lines(&["v 0.1 -0.2 3e-1", "v  1   2 3"])).unwrap();
    assert_eq!(raw.vertices, vec![t3("0.1", "-0.2", "3e-1"), t3("1", "2", "3")]);
    assert!(raw.faces.is_empty());
    assert!(raw.texture_vertices.is_empty());
    assert!(raw.vertice_normals.is_empty());
}

#[test]
fn texture_and_normal_lines() {
    let raw = parse_obj_lines(&lines(&["vt  0.532 0.923 0.000", "vn 0.001 0.482 -0.876"])).unwrap();
    assert_eq!(raw.texture_vertices, vec![("0.532".to_string(), "0.923".to_string())]);
    assert_eq!(raw.vertice_normals, vec![t3("0.001", "0.482", "-0.876")]);
    assert!(raw.vertices.is_empty());
}

#[test]
fn face_lines_give_vertex_and_texture_indices() {
    let raw = parse_obj_lines(&lines(&["f 24/1/24 25/2/25 26/3/26", "f 1/2/3 4/5/6 7/8/9"])).unwrap();
    assert_eq!(raw.faces, vec![((24, 25, 26), (1, 2, 3)), ((1, 4, 7), (2, 5, 8))]);
}

#[test]
fn other_lines_are_skipped() {
    let raw = parse_obj_lines(&lines(&["# comment", "g head", "s 1", "", "vp 1 2", "v"])).unwrap();
    assert!(raw.vertices.is_empty() && raw.faces.is_empty());
    assert!(raw.texture_vertices.is_empty() && raw.vertice_normals.is_empty());
}

#[test]
fn a_prefixed_line_without_a_match_adds_nothing() {
    let raw = parse_obj_lines(&lines(&["v a b c", "f x"])).unwrap();
    assert!(raw.vertices.is_empty() && raw.faces.is_empty());
}

#[test]
fn face_without_index_is_refused() {
    assert!(parse_obj_lines(&lines(&["f /1/1 2/2/2 3/3/3"])).is_none());
    assert!(parse_obj_lines(&lines(&["v 1 2 3", "f 1/2 3/4 5/6"])).is_none());
}

fn sample() -> Vec<String> {
    lines(&[
        "v 0 0 0",
        "v 1 0 0",
        "v 0 1 0",
        "vt 0.1 0.2",
        "vt 0.3 0.4",
        "vn 0 0 1",
        "vn 0 1 0",
        "vn 1 0 0",
        "f 3/2/1 1/1/1 2/2/1",
    ])
}

#[test]
fn faces_resolve_to_corners() {
    let model: Model = try_parse_obj_file(&sample()).unwrap();
    assert_eq!(model.faces.len(), 1);
    assert_eq!(model.faces[0], [t3("0", "1", "0"), t3("0", "0", "0"), t3("1", "0", "0")]);
    assert_eq!(model.face_normals[0], [t3("1", "0", "0"), t3("0", "0", "1"), t3("0", "1", "0")]);
    assert_eq!(
        model.face_texture_vertices[0],
        [
            ("0.3".to_string(), "0.4".to_string()),
            ("0.1".to_string(), "0.2".to_string()),
            ("0.3".to_string(), "0.4".to_string())
        ]
    );
}

#[test]
fn out_of_range_indices_are_refused() {
    let mut ls = sample();
    ls.push("f 4/1/1 1/1/1 2/1/1".to_string());
    assert!(try_parse_obj_file(&ls).is_none());
    let mut ls = sample();
    ls.push("f 0/1/1 1/1/1 2/1/1".to_string());
    assert!(try_parse_obj_file(&ls).is_none());
    let mut ls = sample();
    ls.push("f 1/3/1 1/1/1 2/1/1".to_string());
    assert!(try_parse_obj_file(&ls).is_none());
    let raw = parse_obj_lines(&sample()).unwrap();
    assert!(raw.indices_in_range());
}

#[test]
fn normals_are_looked_up_by_vertex_index() {
    let ls = lines(&["v 0 0 0", "v 1 1 1", "vt 0 0", "vn 5 5 5", "f 1/1/9 1/1/9 1/1/9"]);
    let model = try_parse_obj_file(&ls).unwrap();
    assert_eq!(model.face_normals[0], [t3("5", "5", "5"), t3("5", "5", "5"), t3("5", "5", "5")]);
    let ls = lines(&["v 0 0 0", "v 1 1 1", "vt 0 0", "vn 5 5 5", "f 2/1/1 1/1/1 1/1/1"]);
    assert!(try_parse_obj_file(&ls).is_none());
}

#[test]
fn lines_without_records_read_the_same() {
    let base = lines(&["v 1 2 3", "vt 0 0", "vn 0 0 1", "f 1/1/1 1/1/1 1/1/1"]);
    let with = lines(&["v 1 2 3", "# comment", "g head", "  v 4 5 6", "vt 0 0", "usemtl m", "", "vn 0 0 1", "s 1", "f 1/1/1 1/1/1 1/1/1", "vp 0.1 0.2"]);
    let a = try_parse_obj_file(&base).unwrap();
    let b = try_parse_obj_file(&with).unwrap();
    assert_eq!(a.faces, b.faces);
    assert_eq!(a.face_normals, b.face_normals);
    assert_eq!(a.face_texture_vertices, b.face_texture_vertices);
}

#[test]
fn unmatched_prefixed_lines_are_dropped() {
    let base = lines(&["v 1 2 3", "vt 0 0", "vn 0 0 1", "f 1/1/1 1/1/1 1/1/1"]);
    let with = lines(&["v 1 2", "v 1 2 3", "vt 0 0", "vn 0 0 1", "f 1 2 3", "f 1/1/1 1/1/1 1/1/1", "v 1e+5 0 0"]);
    let a = parse_obj_lines(&base).unwrap();
    let b = parse_obj_lines(&with).unwrap();
    assert_eq!(a.vertices, b.vertices);
    assert_eq!(a.faces, b.faces);
}

#[test]
fn interleaving_of_kinds_does_not_matter() {
    let s1 = lines(&["v 1 2 3", "v 4 5 6", "vt 0 1", "vn 0 0 1", "vn 1 0 0", "f 1/1/1 2/1/1 1/1/1", "f 2/1/1 2/1/1 1/1/1"]);
    let s2 = lines(&["f 1/1/1 2/1/1 1/1/1", "vn 0 0 1", "v 1 2 3", "f 2/1/1 2/1/1 1/1/1", "vt 0 1", "vn 1 0 0", "v 4 5 6"]);
    let a = try_parse_obj_file(&s1).unwrap();
    let b = try_parse_obj_file(&s2).unwrap();
    assert_eq!(a.faces, b.faces);
    assert_eq!(a.face_normals, b.face_normals);
    assert_eq!(a.face_texture_vertices, b.face_texture_vertices);
}

#[test]
fn well_formed_file_reads_without_test() {
    let model = parse_obj_file(&sample());
    assert_eq!(model.faces.len(), 1);
    assert_eq!(model.faces[0][1], t3("0", "0", "0"));
}

fn groups(gs: &[Option<&str>]) -> Vec<Option<String>> {
    gs.iter().map(|g| g.map(|s| s.to_string())).collect()
}

#[test]
fn match_records_by_kind() {
    let vs = vec![groups(&[Some("v 1 2 3"), Some("1"), Some(" 2 "), Some("3")])];
    let r = match_records(0, &vs).unwrap();
    assert_eq!(r.vertices, vec![t3("1", "2", "3")]);
    assert!(r.faces.is_empty() && r.vertice_normals.is_empty() && r.texture_vertices.is_empty());
    let r = match_records(3, &vs).unwrap();
    assert_eq!(r.vertice_normals, vec![t3("1", "2", "3")]);
    assert!(r.vertices.is_empty());
    let r = match_records(2, &vs).unwrap();
    assert_eq!(r.texture_vertices, vec![("1".to_string(), "2".to_string())]);
    let fs = vec![groups(&[Some("f"), Some("1"), Some("2"), Some("3"), Some("4"), Some("5"), Some("6")])];
    let r = match_records(1, &fs).unwrap();
    assert_eq!(r.faces, vec![((1, 3, 5), (2, 4, 6))]);
    let r = match_records(4, &fs).unwrap();
    assert!(r.faces.is_empty() && r.vertices.is_empty());
}

#[test]
fn match_records_refuses_missing_groups() {
    assert!(match_records(0, &vec![groups(&[Some("v"), Some("1"), None, Some("3")])]).is_none());
    assert!(match_records(2, &vec![groups(&[Some("vt"), Some("1")])]).is_none());
    assert!(match_records(1, &vec![groups(&[Some("f"), Some("1"), Some(""), Some("3"), Some("4"), Some("5"), Some("6")])]).is_none());
    assert!(match_records(1, &vec![groups(&[Some("f"), Some("1"), Some("x"), Some("3"), Some("4"), Some("5"), Some("6")])]).is_none());
    assert!(match_records(0, &Vec::new()).unwrap().vertices.is_empty());
}
