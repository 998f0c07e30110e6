use rt::scene_file::{command_of, field_name, parse_line, parse_scene, Command, Directive, SceneError};

fn lines(text: &str) -> Vec<String> {
    text.lines().map(|l| l.to_string()).collect()
}

fn strings(v: &[&str]) -> Vec<String> {
    v.iter().map(|s| s.to_string()).collect()
}

const README_SCENE: &str = "# 1. Camera positioned at (0, 1.5, 2) looking at (0, 0, -4) with 45 degrees FOV
camera 0 1.5 2 0 0 -4 45

# 2. Subtle white ambient light
ambient 0.1 0.1 0.1

# 3. Two light sources (one primary white, one weak secondary yellow)
light 5 8 -1 1.5 1.0 1.0 1.0
light -4 4 -2 0.4 1.0 0.9 0.5

# 4. Floor Plane (Checkerboard gray/white)
plane 0 -1 0 0 1 0 0.2 0.2 0.2 0.0 0.0 1.5 0.7 0.7 0.7

# 5. Mirror Sphere
sphere -1.5 0.0 -4.5 1.0 0.95 0.95 0.95 0.9 0.9 1.0 0.0

# 6. Glass Sphere
sphere 0.0 0.0 -3.5 0.8 1.0 1.0 1.0 0.9 0.1 1.5 0.9

# 7. Matte Orange Cylinder
cylinder 1.5 -1.0 -4.0 0.5 1.5 0.9 0.4 0.0 0.2 0.1
";

#[test]
fn readme_scene_is_accepted() {
    let spec = parse_scene(&lines(README_SCENE)).unwrap();
    assert_eq!(spec.camera, Some(strings(&["0", "1.5", "2", "0", "0", "-4", "45"])));
    assert_eq!(spec.ambient, Some(strings(&["0.1", "0.1", "0.1"])));
    assert_eq!(spec.lights.len(), 2);
    assert_eq!(spec.lights[1], strings(&["-4", "4", "-2", "0.4", "1.0", "0.9", "0.5"]));
    assert_eq!(spec.objects.len(), 4);
    assert_eq!(spec.objects[0].command, Command::Plane);
    assert_eq!(spec.objects[0].values.len(), 15);
    assert_eq!(spec.objects[1].command, Command::Sphere);
    assert_eq!(spec.objects[1].values.len(), 11);
    assert_eq!(spec.objects[3].command, Command::Cylinder);
    assert_eq!(
        spec.objects[3].values,
        strings(&["1.5", "-1.0", "-4.0", "0.5", "1.5", "0.9", "0.4", "0.0", "0.2", "0.1"])
    );
}

#[test]
fn empty_file_gives_empty_scene() {
    let spec = parse_scene(&Vec::new()).unwrap();
    assert_eq!(spec.camera, None);
    assert_eq!(spec.ambient, None);
    assert!(spec.lights.is_empty());
    assert!(spec.objects.is_empty());
}

#[test]
fn blank_and_comment_lines_are_skipped() {
    assert_eq!(parse_line("", 1), Ok(None));
    assert_eq!(parse_line("   \t ", 2), Ok(None));
    assert_eq!(parse_line("  # sphere oops", 3), Ok(None));
    assert_eq!(parse_line("#", 4), Ok(None));
}

#[test]
fn later_camera_and_ambient_replace_earlier() {
    let spec = parse_scene(&lines(
        "camera 1 2 3 4 5 6 7\nambient 1 1 1\ncamera 0 0 0 0 0 -1 90\nambient 0 0 0",
    ))
    .unwrap();
    assert_eq!(spec.camera, Some(strings(&["0", "0", "0", "0", "0", "-1", "90"])));
    assert_eq!(spec.ambient, Some(strings(&["0", "0", "0"])));
}

#[test]
fn extra_values_are_ignored() {
    let d = parse_line("cube 0 0 0 1 1 1 0.5 0.5 0.5 0.1 0.2 junk more", 1).unwrap().unwrap();
    assert_eq!(d.command, Command::Cube);
    assert_eq!(d.values.len(), 11);
    // A plane with 12 to 15 words ignores the partial checker values.
    let d = parse_line("plane 0 0 0 0 1 0 1 1 1 0 0 x y", 1).unwrap().unwrap();
    assert_eq!(d.values.len(), 11);
    let d = parse_line("plane 0 0 0 0 1 0 1 1 1 0 0 2 1 1 1", 1).unwrap().unwrap();
    assert_eq!(d.values.len(), 15);
}

#[test]
fn too_few_values() {
    assert_eq!(
        parse_line("camera 0 0 0 0 0 -1", 5),
        Err(SceneError::MissingValues { line: 5, command: Command::Camera })
    );
    let e = parse_line("sphere 1 2 3", 9).unwrap_err();
    assert_eq!(
        e.message(),
        "Line 9: sphere requires 11 values (cx cy cz radius r g b specular reflective refr_idx transp)"
    );
    let cases = [
        ("camera", "Line 1: camera requires 7 values (pos_x pos_y pos_z look_x look_y look_z fov)"),
        ("ambient 1", "Line 1: ambient requires 3 values (r g b)"),
        ("light 1 2", "Line 1: light requires 7 values (pos_x pos_y pos_z intensity r g b)"),
        ("plane 1", "Line 1: plane requires at least 11 values"),
        ("cube", "Line 1: cube requires 11 values"),
        ("cylinder 1 2 3 4 5 6 7 8 9", "Line 1: cylinder requires 10 values"),
    ];
    for (line, msg) in cases.iter() {
        assert_eq!(parse_line(line, 1).unwrap_err().message(), *msg);
    }
}

#[test]
fn invalid_number_names_its_field() {
    let e = parse_line("light 5 8 -1 bright 1 1 1", 12).unwrap_err();
    assert_eq!(e, SceneError::InvalidNumber { line: 12, command: Command::Light, position: 4 });
    assert_eq!(e.message(), "Line 12: invalid float for field 'light intensity'");
    let e = parse_line("camera 0 0 0 0 0 -1 wide", 2).unwrap_err();
    assert_eq!(e.message(), "Line 2: invalid float for field 'camera fov'");
    let e = parse_line("plane 0 -1 0 0 1 0 .2 .2 .2 0 0 1.5 0.7 grey 0.7", 3).unwrap_err();
    assert_eq!(e.message(), "Line 3: invalid float for field 'checker color 2'");
    // The first faulty value in word order is reported.
    let e = parse_line("sphere a 0 0 r 1 1 1 0 0 1 0", 4).unwrap_err();
    assert_eq!(e.message(), "Line 4: invalid float for field 'sphere center'");
}

#[test]
fn field_names() {
    assert_eq!(field_name(Command::Sphere, 10), "sphere refractive index");
    assert_eq!(field_name(Command::Cylinder, 5), "cylinder height");
    assert_eq!(field_name(Command::Plane, 12), "checker scale");
    assert_eq!(field_name(Command::Ambient, 2), "ambient light");
}

#[test]
fn unknown_command() {
    let e = parse_line("torus 0 0 0", 7).unwrap_err();
    assert_eq!(e, SceneError::UnknownCommand { line: 7, word: "torus".to_string() });
    assert_eq!(e.message(), "Line 7: Unknown command 'torus'");
    assert_eq!(parse_line("Sphere 0 0 0 1 1 1 1 0 0 1 0", 1).unwrap_err().message(), "Line 1: Unknown command 'Sphere'");
}

#[test]
fn command_words() {
    let c = |s: &str| command_of(&s.chars().collect::<Vec<char>>());
    assert_eq!(c("camera"), Some(Command::Camera));
    assert_eq!(c("cylinder"), Some(Command::Cylinder));
    assert_eq!(c("cube"), Some(Command::Cube));
    assert_eq!(c("cubes"), None);
    assert_eq!(c(""), None);
}

#[test]
fn first_faulty_line_decides() {
    let text = "camera 0 0 0 0 0 -1 40\n\n# note\nsphere 0 0 0 x 1 1 1 0 0 1 0\nbogus\n";
    let e = parse_scene(&lines(text)).unwrap_err();
    assert_eq!(e.message(), "Line 4: invalid float for field 'sphere radius'");
}

#[test]
fn inserted_comment_changes_nothing() {
    let base = lines(README_SCENE);
    let spec = parse_scene(&base).unwrap();
    for k in [0, 3, base.len()] {
        let mut more = base.clone();
        more.insert(k, "   # a comment".to_string());
        more.insert(k, String::new());
        assert_eq!(parse_scene(&more).unwrap(), spec);
    }
}

#[test]
fn spacing_does_not_matter() {
    let a = parse_line("sphere 0 0 -5 1 1 0 0 0.5 0 1 0", 1).unwrap();
    let b = parse_line("\t sphere   0 0\u{A0}-5 1 1 0 0 0.5 0 1 0   ", 1).unwrap();
    assert_eq!(a, b);
    assert_eq!(
        a,
        Some(Directive {
            command: Command::Sphere,
            values: ["0", "0", "-5", "1", "1", "0", "0", "0.5", "0", "1", "0"].iter().map(|s| s.to_string()).collect(),
        })
    );
}
