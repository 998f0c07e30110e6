//! Command-line options of the renderer.
//!
//! `--scene <1-4>` picks a built-in scene (default 3), `--file <path>` a
//! scene file, `--width <px>` and `--height <px>` the image size (default
//! 800 x 600), `-t` / `--textures` turns on checkerboard textures and
//! `-r` / `--reflections` turns on reflections and refractions (both off by
//! default), and `-h` / `--help` asks for the help text. Options are read
//! left to right; a later option overrides an earlier one of the same kind,
//! and the first fault ends the reading.

use vstd::prelude::*;
use crate::text::{chars_of, parse_usize, parse_usize_spec, same_text};

verus! {

/// The built-in scene shown when no `--scene` option is given.
pub const DEFAULT_SCENE: usize = 3;

/// The image width when no `--width` option is given.
pub const DEFAULT_WIDTH: usize = 800;

/// The image height when no `--height` option is given.
pub const DEFAULT_HEIGHT: usize = 600;

/// The settings of one rendering run.
#[derive(Debug, PartialEq, Eq)]
pub struct Options {
    /// The built-in scene, from 1 to 4; not used when `file` is given.
    pub scene: usize,
    /// A scene file to load in place of a built-in scene.
    pub file: Option<String>,
    pub width: usize,
    pub height: usize,
    /// Whether checkerboard textures are drawn.
    pub textures: bool,
    /// Whether reflections and refractions are traced.
    pub reflections: bool,
}

/// What the command line asks for.
#[derive(Debug, PartialEq, Eq)]
pub enum CliAction {
    /// Render with these settings.
    Render(Options),
    /// Print the help text and stop.
    Help,
}

/// Why the command line was refused.
#[derive(Debug, PartialEq, Eq)]
pub enum CliError {
    /// The value after `--scene` is not a number.
    InvalidScene,
    /// The value after `--scene` is a number outside 1..=4.
    SceneOutOfRange,
    /// `--scene` is the last argument.
    MissingScene,
    /// `--file` is the last argument.
    MissingFile,
    /// The value after `--width` is not a number.
    InvalidWidth,
    /// `--width` is the last argument.
    MissingWidth,
    /// The value after `--height` is not a number.
    InvalidHeight,
    /// `--height` is the last argument.
    MissingHeight,
    /// An argument that is no option.
    UnknownOption(String),
}

/// The mathematical content of [`Options`].
pub struct OptionsView {
    pub scene: usize,
    pub file: Option<Seq<char>>,
    pub width: usize,
    pub height: usize,
    pub textures: bool,
    pub reflections: bool,
}

/// The mathematical content of [`CliAction`].
pub enum ActionView {
    Render(OptionsView),
    Help,
}

/// The mathematical content of [`CliError`].
pub enum CliFault {
    InvalidScene,
    SceneOutOfRange,
    MissingScene,
    MissingFile,
    InvalidWidth,
    MissingWidth,
    InvalidHeight,
    MissingHeight,
    UnknownOption(Seq<char>),
}

impl View for Options {
    type V = OptionsView;

    open spec fn view(&self) -> OptionsView {
        OptionsView {
            scene: self.scene,
            file: match self.file {
                Some(f) => Some(f@),
                None => None,
            },
            width: self.width,
            height: self.height,
            textures: self.textures,
            reflections: self.reflections,
        }
    }
}

impl View for CliAction {
    type V = ActionView;

    open spec fn view(&self) -> ActionView {
        match self {
            CliAction::Render(o) => ActionView::Render(o@),
            CliAction::Help => ActionView::Help,
        }
    }
}

impl View for CliError {
    type V = CliFault;

    open spec fn view(&self) -> CliFault {
        match self {
            CliError::InvalidScene => CliFault::InvalidScene,
            CliError::SceneOutOfRange => CliFault::SceneOutOfRange,
            CliError::MissingScene => CliFault::MissingScene,
            CliError::MissingFile => CliFault::MissingFile,
            CliError::InvalidWidth => CliFault::InvalidWidth,
            CliError::MissingWidth => CliFault::MissingWidth,
            CliError::InvalidHeight => CliFault::InvalidHeight,
            CliError::MissingHeight => CliFault::MissingHeight,
            CliError::UnknownOption(a) => CliFault::UnknownOption(a@),
        }
    }
}

/// The settings before any option is read.
pub open spec fn default_options() -> OptionsView {
    OptionsView {
        scene: DEFAULT_SCENE,
        file: None,
        width: DEFAULT_WIDTH,
        height: DEFAULT_HEIGHT,
        textures: false,
        reflections: false,
    }
}

/// Reading the arguments from position `i` on, with settings `o` so far.
pub open spec fn read_from(args: Seq<Seq<char>>, i: int, o: OptionsView) -> Result<
    ActionView,
    CliFault,
>
    decreases args.len() - i,
{
    if i < 0 || i >= args.len() {
        Ok(ActionView::Render(o))
    } else {
        let a = args[i];
        let has_value = i + 1 < args.len();
        if a == "--scene"@ {
            if !has_value {
                Err(CliFault::MissingScene)
            } else {
                match parse_usize_spec(args[i + 1]) {
                    None => Err(CliFault::InvalidScene),
                    Some(n) => if n < 1 || n > 4 {
                        Err(CliFault::SceneOutOfRange)
                    } else {
                        read_from(args, i + 2, OptionsView { scene: n, ..o })
                    },
                }
            }
        } else if a == "--file"@ {
            if !has_value {
                Err(CliFault::MissingFile)
            } else {
                read_from(args, i + 2, OptionsView { file: Some(args[i + 1]), ..o })
            }
        } else if a == "--width"@ {
            if !has_value {
                Err(CliFault::MissingWidth)
            } else {
                match parse_usize_spec(args[i + 1]) {
                    None => Err(CliFault::InvalidWidth),
                    Some(n) => read_from(args, i + 2, OptionsView { width: n, ..o }),
                }
            }
        } else if a == "--height"@ {
            if !has_value {
                Err(CliFault::MissingHeight)
            } else {
                match parse_usize_spec(args[i + 1]) {
                    None => Err(CliFault::InvalidHeight),
                    Some(n) => read_from(args, i + 2, OptionsView { height: n, ..o }),
                }
            }
        } else if a == "-t"@ || a == "--textures"@ {
            read_from(args, i + 1, OptionsView { textures: true, ..o })
        } else if a == "-r"@ || a == "--reflections"@ {
            read_from(args, i + 1, OptionsView { reflections: true, ..o })
        } else if a == "-h"@ || a == "--help"@ {
            Ok(ActionView::Help)
        } else {
            Err(CliFault::UnknownOption(a))
        }
    }
}

/// What the command line `args` asks for; `args[0]` is the program name.
pub open spec fn read_args(args: Seq<Seq<char>>) -> Result<ActionView, CliFault> {
    read_from(args, 1, default_options())
}

/// The view of a parse result.
pub open spec fn outcome_of(r: Result<CliAction, CliError>) -> Result<ActionView, CliFault> {
    match r {
        Ok(a) => Ok(a@),
        Err(e) => Err(e@),
    }
}

/// Reads the command line `args`, whose first element is the program name.
pub fn parse_args(args: &Vec<String>) -> (r: Result<CliAction, CliError>)
    ensures
        outcome_of(r) == read_args(args.deep_view()),
{
    let ghost av = args.deep_view();
    let mut scene: usize = DEFAULT_SCENE;
    let mut file: Option<String> = None;
    let mut width: usize = DEFAULT_WIDTH;
    let mut height: usize = DEFAULT_HEIGHT;
    let mut textures = false;
    let mut reflections = false;
    let mut i: usize = 1;
    while i < args.len()
        invariant
            av == args.deep_view(),
            1 <= i,
            read_args(av) == read_from(
                av,
                i as int,
                Options { scene, file, width, height, textures, reflections }@,
            ),
        decreases args.len() - i,
    {
        let ghost o = Options { scene, file, width, height, textures, reflections }@;
        let a = args[i].as_str();
        assert(a@ == av[i as int]);
        let has_value = i + 1 < args.len();
        if same_text(a, "--scene") {
            if !has_value {
                return Err(CliError::MissingScene);
            }
            let v = chars_of(args[i + 1].as_str());
            assert(v@ == av[i + 1]);
            match parse_usize(v.as_slice()) {
                None => {
                    return Err(CliError::InvalidScene);
                },
                Some(n) => {
                    if n < 1 || n > 4 {
                        return Err(CliError::SceneOutOfRange);
                    }
                    scene = n;
                },
            }
        } else if same_text(a, "--file") {
            if !has_value {
                return Err(CliError::MissingFile);
            }
            let f = args[i + 1].clone();
            assert(f@ == av[i + 1]);
            file = Some(f);
        } else if same_text(a, "--width") {
            if !has_value {
                return Err(CliError::MissingWidth);
            }
            let v = chars_of(args[i + 1].as_str());
            assert(v@ == av[i + 1]);
            match parse_usize(v.as_slice()) {
                None => {
                    return Err(CliError::InvalidWidth);
                },
                Some(n) => {
                    width = n;
                },
            }
        } else if same_text(a, "--height") {
            if !has_value {
                return Err(CliError::MissingHeight);
            }
            let v = chars_of(args[i + 1].as_str());
            assert(v@ == av[i + 1]);
            match parse_usize(v.as_slice()) {
                None => {
                    return Err(CliError::InvalidHeight);
                },
                Some(n) => {
                    height = n;
                },
            }
        } else if same_text(a, "-t") || same_text(a, "--textures") {
            textures = true;
            i = i + 1;
            continue;
        } else if same_text(a, "-r") || same_text(a, "--reflections") {
            reflections = true;
            i = i + 1;
            continue;
        } else if same_text(a, "-h") || same_text(a, "--help") {
            return Ok(CliAction::Help);
        } else {
            let word = args[i].clone();
            return Err(CliError::UnknownOption(word));
        }
        i = i + 2;
    }
    Ok(CliAction::Render(Options { scene, file, width, height, textures, reflections }))
}

/// The message that reports `e`.
pub open spec fn cli_error_text(e: CliFault) -> Seq<char> {
    match e {
        CliFault::InvalidScene => "Error: Invalid scene index. Must be 1, 2, 3 or 4."@,
        CliFault::SceneOutOfRange => "Error: Scene index must be between 1 and 4."@,
        CliFault::MissingScene => "Error: Missing value for --scene parameter."@,
        CliFault::MissingFile => "Error: Missing path for --file parameter."@,
        CliFault::InvalidWidth => "Error: Invalid width value."@,
        CliFault::MissingWidth => "Error: Missing value for --width parameter."@,
        CliFault::InvalidHeight => "Error: Invalid height value."@,
        CliFault::MissingHeight => "Error: Missing value for --height parameter."@,
        CliFault::UnknownOption(a) => "Error: Unknown option '"@ + a
            + "'. Use -h or --help for instructions."@,
    }
}

impl CliError {
    /// The message that reports this error.
    pub fn message(&self) -> (r: String)
        ensures
            r@ == cli_error_text(self@),
    {
        match self {
            CliError::InvalidScene => String::from_str(
                "Error: Invalid scene index. Must be 1, 2, 3 or 4.",
            ),
            CliError::SceneOutOfRange => String::from_str(
                "Error: Scene index must be between 1 and 4.",
            ),
            CliError::MissingScene => String::from_str(
                "Error: Missing value for --scene parameter.",
            ),
            CliError::MissingFile => String::from_str("Error: Missing path for --file parameter."),
            CliError::InvalidWidth => String::from_str("Error: Invalid width value."),
            CliError::MissingWidth => String::from_str(
                "Error: Missing value for --width parameter.",
            ),
            CliError::InvalidHeight => String::from_str("Error: Invalid height value."),
            CliError::MissingHeight => String::from_str(
                "Error: Missing value for --height parameter.",
            ),
            CliError::UnknownOption(a) => {
                let mut out = String::from_str("Error: Unknown option '");
                out.append(a.as_str());
                out.append("'. Use -h or --help for instructions.");
                out
            },
        }
    }
}

/// Whatever the arguments, a command line that is accepted for rendering
/// selects one of the four built-in scenes.
pub proof fn lemma_accepted_scene_in_range(args: Seq<Seq<char>>)
    ensures
        read_args(args) matches Ok(ActionView::Render(o)) ==> 1 <= o.scene <= 4,
{
    lemma_scene_kept_in_range(args, 1, default_options());
}

proof fn lemma_scene_kept_in_range(args: Seq<Seq<char>>, i: int, o: OptionsView)
    requires
        1 <= o.scene <= 4,
    ensures
        read_from(args, i, o) matches Ok(ActionView::Render(p)) ==> 1 <= p.scene <= 4,
    decreases args.len() - i,
{
    if 0 <= i < args.len() {
        let a = args[i];
        if i + 1 < args.len() {
            lemma_scene_kept_in_range(args, i + 2, OptionsView { file: Some(args[i + 1]), ..o });
            match parse_usize_spec(args[i + 1]) {
                Some(n) => {
                    if 1 <= n <= 4 {
                        lemma_scene_kept_in_range(args, i + 2, OptionsView { scene: n, ..o });
                    }
                    lemma_scene_kept_in_range(args, i + 2, OptionsView { width: n, ..o });
                    lemma_scene_kept_in_range(args, i + 2, OptionsView { height: n, ..o });
                },
                None => {},
            }
        }
        lemma_scene_kept_in_range(args, i + 1, OptionsView { textures: true, ..o });
        lemma_scene_kept_in_range(args, i + 1, OptionsView { reflections: true, ..o });
    }
}

/// With no options the built-in scene 3 is rendered at 800 x 600, without
/// textures or reflections.
pub proof fn lemma_no_options_defaults(program: Seq<char>)
    ensures
        read_args(seq![program]) == Ok::<ActionView, CliFault>(ActionView::Render(default_options())),
        default_options().scene == 3 && default_options().width == 800
            && default_options().height == 600 && !default_options().textures
            && !default_options().reflections && default_options().file is None,
{
}

/// Reading further arguments after an accepted list continues from the
/// settings that the list gave.
proof fn lemma_extend_accepted(
    args: Seq<Seq<char>>,
    extra: Seq<Seq<char>>,
    i: int,
    o: OptionsView,
    p: OptionsView,
)
    requires
        0 <= i <= args.len(),
        read_from(args, i, o) == Ok::<ActionView, CliFault>(ActionView::Render(p)),
    ensures
        read_from(args + extra, i, o) == read_from(args + extra, args.len() as int, p),
    decreases args.len() - i,
{
    let ext = args + extra;
    if i < args.len() {
        assert(ext[i] == args[i]);
        if i + 1 < args.len() {
            assert(ext[i + 1] == args[i + 1]);
        }
        let a = args[i];
        if a == "--scene"@ {
            let n = parse_usize_spec(args[i + 1])->Some_0;
            lemma_extend_accepted(args, extra, i + 2, OptionsView { scene: n, ..o }, p);
        } else if a == "--file"@ {
            lemma_extend_accepted(args, extra, i + 2, OptionsView { file: Some(args[i + 1]), ..o }, p);
        } else if a == "--width"@ {
            let n = parse_usize_spec(args[i + 1])->Some_0;
            lemma_extend_accepted(args, extra, i + 2, OptionsView { width: n, ..o }, p);
        } else if a == "--height"@ {
            let n = parse_usize_spec(args[i + 1])->Some_0;
            lemma_extend_accepted(args, extra, i + 2, OptionsView { height: n, ..o }, p);
        } else if a == "-t"@ || a == "--textures"@ {
            lemma_extend_accepted(args, extra, i + 1, OptionsView { textures: true, ..o }, p);
        } else if a == "-r"@ || a == "--reflections"@ {
            lemma_extend_accepted(args, extra, i + 1, OptionsView { reflections: true, ..o }, p);
        }
    }
}

proof fn lemma_option_words_distinct()
    ensures
        "-t"@ != "--scene"@ && "-t"@ != "--file"@ && "-t"@ != "--width"@ && "-t"@ != "--height"@,
        "-r"@ != "--scene"@ && "-r"@ != "--file"@ && "-r"@ != "--width"@ && "-r"@ != "--height"@,
        "-r"@ != "-t"@ && "-r"@ != "--textures"@,
        "--textures"@ != "--scene"@ && "--textures"@ != "--file"@ && "--textures"@ != "--width"@
            && "--textures"@ != "--height"@,
        "--reflections"@ != "--scene"@ && "--reflections"@ != "--file"@ && "--reflections"@
            != "--width"@ && "--reflections"@ != "--height"@ && "--reflections"@ != "--textures"@
            && "--reflections"@ != "-t"@,
        "--file"@ != "--scene"@,
        "--width"@ != "--scene"@ && "--width"@ != "--file"@,
        "--height"@ != "--scene"@ && "--height"@ != "--file"@ && "--height"@ != "--width"@,
{
    reveal_strlit("--scene");
    reveal_strlit("--file");
    reveal_strlit("--width");
    reveal_strlit("--height");
    reveal_strlit("-t");
    reveal_strlit("--textures");
    reveal_strlit("-r");
    reveal_strlit("--reflections");
    assert("-t"@.len() == 2 && "-r"@.len() == 2);
    assert("--scene"@.len() == 7 && "--file"@.len() == 6 && "--width"@.len() == 7);
    assert("--height"@.len() == 8 && "--textures"@.len() == 10 && "--reflections"@.len() == 13);
    assert("-r"@[1] != "-t"@[1]);
    assert("--textures"@[2] != "--scene"@[2]);
    assert("--textures"@[2] != "--file"@[2]);
    assert("--textures"@[2] != "--width"@[2]);
    assert("--textures"@[2] != "--height"@[2]);
    assert("--reflections"@[2] != "--scene"@[2]);
    assert("--reflections"@[2] != "--file"@[2]);
    assert("--reflections"@[2] != "--width"@[2]);
    assert("--reflections"@[2] != "--height"@[2]);
    assert("--reflections"@[2] != "--textures"@[2]);
    assert("--width"@[2] != "--scene"@[2]);
}

proof fn lemma_append_textures(args: Seq<Seq<char>>, o: OptionsView, x: Seq<char>)
    requires
        args.len() >= 1,
        read_args(args) == Ok::<ActionView, CliFault>(ActionView::Render(o)),
        x == "-t"@ || x == "--textures"@,
    ensures
        read_args(args.push(x)) == Ok::<ActionView, CliFault>(
            ActionView::Render(OptionsView { textures: true, ..o }),
        ),
{
    lemma_option_words_distinct();
    let n = args.len() as int;
    let ext = args.push(x);
    assert(ext == args + seq![x]);
    lemma_extend_accepted(args, seq![x], 1, default_options(), o);
    assert(ext[n] == x);
    let to = OptionsView { textures: true, ..o };
    assert(read_from(ext, n + 1, to) == Ok::<ActionView, CliFault>(ActionView::Render(to)));
    assert(read_from(ext, n, o) == read_from(ext, n + 1, to));
}

proof fn lemma_append_reflections(args: Seq<Seq<char>>, o: OptionsView, x: Seq<char>)
    requires
        args.len() >= 1,
        read_args(args) == Ok::<ActionView, CliFault>(ActionView::Render(o)),
        x == "-r"@ || x == "--reflections"@,
    ensures
        read_args(args.push(x)) == Ok::<ActionView, CliFault>(
            ActionView::Render(OptionsView { reflections: true, ..o }),
        ),
{
    lemma_option_words_distinct();
    let n = args.len() as int;
    let ext = args.push(x);
    assert(ext == args + seq![x]);
    lemma_extend_accepted(args, seq![x], 1, default_options(), o);
    assert(ext[n] == x);
    let ro = OptionsView { reflections: true, ..o };
    assert(read_from(ext, n + 1, ro) == Ok::<ActionView, CliFault>(ActionView::Render(ro)));
    assert(read_from(ext, n, o) == read_from(ext, n + 1, ro));
}

/// Adding `-t` or `--textures` to an accepted command line turns on
/// textures and changes no other setting; adding `-r` or `--reflections`
/// turns on reflections and changes no other setting.
pub proof fn lemma_flags_are_independent(args: Seq<Seq<char>>, o: OptionsView)
    requires
        args.len() >= 1,
        read_args(args) == Ok::<ActionView, CliFault>(ActionView::Render(o)),
    ensures
        read_args(args.push("-t"@)) == Ok::<ActionView, CliFault>(
            ActionView::Render(OptionsView { textures: true, ..o }),
        ),
        read_args(args.push("--textures"@)) == Ok::<ActionView, CliFault>(
            ActionView::Render(OptionsView { textures: true, ..o }),
        ),
        read_args(args.push("-r"@)) == Ok::<ActionView, CliFault>(
            ActionView::Render(OptionsView { reflections: true, ..o }),
        ),
        read_args(args.push("--reflections"@)) == Ok::<ActionView, CliFault>(
            ActionView::Render(OptionsView { reflections: true, ..o }),
        ),
{
    lemma_append_textures(args, o, "-t"@);
    lemma_append_textures(args, o, "--textures"@);
    lemma_append_reflections(args, o, "-r"@);
    lemma_append_reflections(args, o, "--reflections"@);
}

proof fn lemma_append_width(args: Seq<Seq<char>>, o: OptionsView, value: Seq<char>, v: usize)
    requires
        args.len() >= 1,
        read_args(args) == Ok::<ActionView, CliFault>(ActionView::Render(o)),
        parse_usize_spec(value) == Some(v),
    ensures
        read_args(args + seq!["--width"@, value]) == Ok::<ActionView, CliFault>(
            ActionView::Render(OptionsView { width: v, ..o }),
        ),
{
    lemma_option_words_distinct();
    let n = args.len() as int;
    let x = seq!["--width"@, value];
    let ext = args + x;
    lemma_extend_accepted(args, x, 1, default_options(), o);
    assert(ext[n] == "--width"@ && ext[n + 1] == value);
    let q = OptionsView { width: v, ..o };
    assert(read_from(ext, n + 2, q) == Ok::<ActionView, CliFault>(ActionView::Render(q)));
    assert(read_from(ext, n, o) == read_from(ext, n + 2, q));
}

proof fn lemma_append_height(args: Seq<Seq<char>>, o: OptionsView, value: Seq<char>, v: usize)
    requires
        args.len() >= 1,
        read_args(args) == Ok::<ActionView, CliFault>(ActionView::Render(o)),
        parse_usize_spec(value) == Some(v),
    ensures
        read_args(args + seq!["--height"@, value]) == Ok::<ActionView, CliFault>(
            ActionView::Render(OptionsView { height: v, ..o }),
        ),
{
    lemma_option_words_distinct();
    let n = args.len() as int;
    let x = seq!["--height"@, value];
    let ext = args + x;
    lemma_extend_accepted(args, x, 1, default_options(), o);
    assert(ext[n] == "--height"@ && ext[n + 1] == value);
    let q = OptionsView { height: v, ..o };
    assert(read_from(ext, n + 2, q) == Ok::<ActionView, CliFault>(ActionView::Render(q)));
    assert(read_from(ext, n, o) == read_from(ext, n + 2, q));
}

proof fn lemma_append_scene(args: Seq<Seq<char>>, o: OptionsView, value: Seq<char>, v: usize)
    requires
        args.len() >= 1,
        read_args(args) == Ok::<ActionView, CliFault>(ActionView::Render(o)),
        parse_usize_spec(value) == Some(v),
        1 <= v <= 4,
    ensures
        read_args(args + seq!["--scene"@, value]) == Ok::<ActionView, CliFault>(
            ActionView::Render(OptionsView { scene: v, ..o }),
        ),
{
    lemma_option_words_distinct();
    let n = args.len() as int;
    let x = seq!["--scene"@, value];
    let ext = args + x;
    lemma_extend_accepted(args, x, 1, default_options(), o);
    assert(ext[n] == "--scene"@ && ext[n + 1] == value);
    let q = OptionsView { scene: v, ..o };
    assert(read_from(ext, n + 2, q) == Ok::<ActionView, CliFault>(ActionView::Render(q)));
    assert(read_from(ext, n, o) == read_from(ext, n + 2, q));
}

proof fn lemma_append_file(args: Seq<Seq<char>>, o: OptionsView, value: Seq<char>)
    requires
        args.len() >= 1,
        read_args(args) == Ok::<ActionView, CliFault>(ActionView::Render(o)),
    ensures
        read_args(args + seq!["--file"@, value]) == Ok::<ActionView, CliFault>(
            ActionView::Render(OptionsView { file: Some(value), ..o }),
        ),
{
    lemma_option_words_distinct();
    let n = args.len() as int;
    let x = seq!["--file"@, value];
    let ext = args + x;
    lemma_extend_accepted(args, x, 1, default_options(), o);
    assert(ext[n] == "--file"@ && ext[n + 1] == value);
    let q = OptionsView { file: Some(value), ..o };
    assert(read_from(ext, n + 2, q) == Ok::<ActionView, CliFault>(ActionView::Render(q)));
    assert(read_from(ext, n, o) == read_from(ext, n + 2, q));
}

/// Adding `--width N`, `--height N` (N a number) or `--file F` to an
/// accepted command line sets that one setting and no other; adding
/// `--scene N` with N from 1 to 4 selects scene N and changes nothing else.
pub proof fn lemma_value_options_set_one_field(
    args: Seq<Seq<char>>,
    o: OptionsView,
    value: Seq<char>,
)
    requires
        args.len() >= 1,
        read_args(args) == Ok::<ActionView, CliFault>(ActionView::Render(o)),
    ensures
        parse_usize_spec(value) matches Some(n) ==> read_args(args + seq!["--width"@, value])
            == Ok::<ActionView, CliFault>(ActionView::Render(OptionsView { width: n, ..o })),
        parse_usize_spec(value) matches Some(n) ==> read_args(args + seq!["--height"@, value])
            == Ok::<ActionView, CliFault>(ActionView::Render(OptionsView { height: n, ..o })),
        parse_usize_spec(value) matches Some(n) ==> (1 <= n <= 4 ==> read_args(
            args + seq!["--scene"@, value],
        ) == Ok::<ActionView, CliFault>(ActionView::Render(OptionsView { scene: n, ..o }))),
        read_args(args + seq!["--file"@, value]) == Ok::<ActionView, CliFault>(
            ActionView::Render(OptionsView { file: Some(value), ..o }),
        ),
{
    if let Some(v) = parse_usize_spec(value) {
        lemma_append_width(args, o, value, v);
        lemma_append_height(args, o, value, v);
        if 1 <= v <= 4 {
            lemma_append_scene(args, o, value, v);
        }
    }
    lemma_append_file(args, o, value);
}

} // verus!
