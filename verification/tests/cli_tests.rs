use rt::cli::{parse_args, CliAction, CliError, Options};

fn args(v: &[&str]) -> Vec<String> {
    std::iter::once("rt").chain(v.iter().copied()).map(|s| s.to_string()).collect()
}

fn run(v: &[&str]) -> Result<CliAction, CliError> {
    parse_args(&args(v))
}

#[test]
fn defaults() {
    assert_eq!(
        run(&[]),
        Ok(CliAction::Render(Options {
            scene: 3,
            file: None,
            width: 800,
            height: 600,
            textures: false,
            reflections: false
        }))
    );
    assert_eq!(
        parse_args(&Vec::new()),
        Ok(CliAction::Render(Options {
            scene: 3,
            file: None,
            width: 800,
            height: 600,
            textures: false,
            reflections: false
        }))
    );
}

#[test]
fn all_options() {
    assert_eq!(
        run(&["--scene", "1", "--width", "160", "--height", "120", "-t", "--reflections", "--file", "my_scene.rt"]),
        Ok(CliAction::Render(Options {
            scene: 1,
            file: Some("my_scene.rt".to_string()),
            width: 160,
            height: 120,
            textures: true,
            reflections: true
        }))
    );
    match run(&["--textures", "-r"]) {
        Ok(CliAction::Render(o)) => assert!(o.textures && o.reflections),
        other => panic!("unexpected {:?}", other),
    }
}

#[test]
fn later_option_wins() {
    match run(&["--scene", "1", "--scene", "4", "--width", "10", "--width", "+20"]) {
        Ok(CliAction::Render(o)) => {
            assert_eq!(o.scene, 4);
            assert_eq!(o.width, 20);
        }
        other => panic!("unexpected {:?}", other),
    }
}

#[test]
fn help() {
    assert_eq!(run(&["-h"]), Ok(CliAction::Help));
    assert_eq!(run(&["--scene", "2", "--help", "--bogus"]), Ok(CliAction::Help));
    // A fault before the help option ends the reading first.
    assert_eq!(run(&["--width", "wide", "-h"]), Err(CliError::InvalidWidth));
}

#[test]
fn errors_and_messages() {
    let cases: Vec<(Vec<&str>, CliError, &str)> = vec![
        (vec!["--scene", "x"], CliError::InvalidScene, "Error: Invalid scene index. Must be 1, 2, 3 or 4."),
        (vec!["--scene", "-1"], CliError::InvalidScene, "Error: Invalid scene index. Must be 1, 2, 3 or 4."),
        (vec!["--scene", "0"], CliError::SceneOutOfRange, "Error: Scene index must be between 1 and 4."),
        (vec!["--scene", "5"], CliError::SceneOutOfRange, "Error: Scene index must be between 1 and 4."),
        (vec!["--scene"], CliError::MissingScene, "Error: Missing value for --scene parameter."),
        (vec!["--file"], CliError::MissingFile, "Error: Missing path for --file parameter."),
        (vec!["--width", "1.5"], CliError::InvalidWidth, "Error: Invalid width value."),
        (vec!["--width"], CliError::MissingWidth, "Error: Missing value for --width parameter."),
        (vec!["--height", ""], CliError::InvalidHeight, "Error: Invalid height value."),
        (vec!["--height"], CliError::MissingHeight, "Error: Missing value for --height parameter."),
        (
            vec!["--fast"],
            CliError::UnknownOption("--fast".to_string()),
            "Error: Unknown option '--fast'. Use -h or --help for instructions.",
        ),
    ];
    for (a, err, msg) in cases {
        let r = run(&a);
        assert_eq!(r, Err(err), "args {:?}", a);
        assert_eq!(r.unwrap_err().message(), msg);
    }
}

#[test]
fn accepted_scene_always_in_range() {
    for s in ["0", "1", "2", "3", "4", "5", "99", "+4", "x"] {
        if let Ok(CliAction::Render(o)) = run(&["--scene", s]) {
            assert!((1..=4).contains(&o.scene));
        }
    }
}

#[test]
fn file_value_taken_verbatim() {
    match run(&["--file", "--scene"]) {
        Ok(CliAction::Render(o)) => {
            assert_eq!(o.file, Some("--scene".to_string()));
            assert_eq!(o.scene, 3);
        }
        other => panic!("unexpected {:?}", other),
    }
}
