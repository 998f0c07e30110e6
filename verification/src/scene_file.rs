//! The `.rt` scene description format.
//!
//! A scene file is read line by line. Blank lines and lines whose first
//! non-blank character is `#` are skipped; every other line is a command
//! word followed by white-space separated numbers. This module decides,
//! for each line, which command it holds, whether it has enough values,
//! and whether each value that the command reads is a number; it collects
//! the accepted lines into a [`SceneSpec`] whose values are still text.
//! Turning that text into floating-point values is left to the caller.

use vstd::prelude::*;
use crate::text::{
    chars_of, is_float_literal, is_float_text, push_decimal, decimal_text, split_words,
    string_of, words, same_chars,
};

verus! {

/// The commands of the scene format.
#[derive(Clone, Copy, Debug, PartialEq, Eq, Structural)]
pub enum Command {
    Camera,
    Ambient,
    Light,
    Sphere,
    Plane,
    Cube,
    Cylinder,
}

/// The word that names each command.
pub open spec fn command_word(c: Command) -> Seq<char> {
    match c {
        Command::Camera => seq!['c', 'a', 'm', 'e', 'r', 'a'],
        Command::Ambient => seq!['a', 'm', 'b', 'i', 'e', 'n', 't'],
        Command::Light => seq!['l', 'i', 'g', 'h', 't'],
        Command::Sphere => seq!['s', 'p', 'h', 'e', 'r', 'e'],
        Command::Plane => seq!['p', 'l', 'a', 'n', 'e'],
        Command::Cube => seq!['c', 'u', 'b', 'e'],
        Command::Cylinder => seq!['c', 'y', 'l', 'i', 'n', 'd', 'e', 'r'],
    }
}

/// The command that the word `w` names, if any.
pub open spec fn command_named(w: Seq<char>) -> Option<Command> {
    if w == command_word(Command::Camera) {
        Some(Command::Camera)
    } else if w == command_word(Command::Ambient) {
        Some(Command::Ambient)
    } else if w == command_word(Command::Light) {
        Some(Command::Light)
    } else if w == command_word(Command::Sphere) {
        Some(Command::Sphere)
    } else if w == command_word(Command::Plane) {
        Some(Command::Plane)
    } else if w == command_word(Command::Cube) {
        Some(Command::Cube)
    } else if w == command_word(Command::Cylinder) {
        Some(Command::Cylinder)
    } else {
        None
    }
}

/// The fewest words, the command word included, that a line of command `c`
/// must have.
pub open spec fn min_words(c: Command) -> nat {
    match c {
        Command::Camera => 8,
        Command::Ambient => 4,
        Command::Light => 8,
        Command::Sphere => 12,
        Command::Plane => 12,
        Command::Cube => 12,
        Command::Cylinder => 11,
    }
}

/// How many words, the command word included, a line of command `c` with
/// `n` words uses: a plane with at least 16 words also reads a checker
/// scale and a second colour; words beyond these are ignored.
pub open spec fn used_words(c: Command, n: nat) -> nat {
    if c == Command::Plane && n >= 16 {
        16
    } else {
        min_words(c)
    }
}

/// The first position in `lo..hi` whose word is not a number.
pub open spec fn first_non_number(t: Seq<Seq<char>>, lo: int, hi: int) -> Option<int>
    decreases hi - lo,
{
    if lo >= hi {
        None
    } else if !is_float_literal(t[lo]) {
        Some(lo)
    } else {
        first_non_number(t, lo + 1, hi)
    }
}

/// What one line of a scene file amounts to.
pub enum LineClass {
    /// A blank line or a comment.
    Skip,
    /// An accepted command with the values it reads, in order.
    Entry(Command, Seq<Seq<char>>),
    /// A known command with too few values.
    Missing(Command),
    /// A known command whose value at this word position is not a number.
    Invalid(Command, int),
    /// A first word that names no command.
    Unknown(Seq<char>),
}

/// The meaning of one line of a scene file.
pub open spec fn classify(line: Seq<char>) -> LineClass {
    let t = words(line);
    if t.len() == 0 || t[0][0] == '#' {
        LineClass::Skip
    } else {
        match command_named(t[0]) {
            None => LineClass::Unknown(t[0]),
            Some(c) => if t.len() < min_words(c) {
                LineClass::Missing(c)
            } else {
                let n = used_words(c, t.len());
                match first_non_number(t, 1, n as int) {
                    Some(i) => LineClass::Invalid(c, i),
                    None => LineClass::Entry(c, t.subrange(1, n as int)),
                }
            },
        }
    }
}

/// An accepted command line: the command and the number texts it reads.
#[derive(Debug, PartialEq, Eq)]
pub struct Directive {
    pub command: Command,
    pub values: Vec<String>,
}

/// Why a scene file was refused; `line` counts from 1 and includes blank
/// and comment lines.
#[derive(Debug, PartialEq, Eq)]
pub enum SceneError {
    /// The command on this line has too few values.
    MissingValues { line: usize, command: Command },
    /// The value at word `position` (the command word being position 0)
    /// is not a number.
    InvalidNumber { line: usize, command: Command, position: usize },
    /// The first word of this line names no command.
    UnknownCommand { line: usize, word: String },
}

/// `r` is what parsing a line of class `cls`, numbered `number`, returns.
pub open spec fn line_result_is(
    r: Result<Option<Directive>, SceneError>,
    cls: LineClass,
    number: usize,
) -> bool {
    match cls {
        LineClass::Skip => r is Ok && r->Ok_0 is None,
        LineClass::Entry(c, vals) => match r {
            Ok(Some(d)) => d.command == c && d.values.deep_view() == vals,
            _ => false,
        },
        LineClass::Missing(c) => r == Err::<Option<Directive>, SceneError>(
            SceneError::MissingValues { line: number, command: c },
        ),
        LineClass::Invalid(c, i) => match r {
            Err(SceneError::InvalidNumber { line, command, position }) => line == number
                && command == c && position == i,
            _ => false,
        },
        LineClass::Unknown(w) => match r {
            Err(SceneError::UnknownCommand { line, word }) => line == number && word@ == w,
            _ => false,
        },
    }
}

/// The command that the word `w` names, if any.
pub fn command_of(w: &[char]) -> (r: Option<Command>)
    ensures
        r == command_named(w@),
{
    let camera: [char; 6] = ['c', 'a', 'm', 'e', 'r', 'a'];
    let ambient: [char; 7] = ['a', 'm', 'b', 'i', 'e', 'n', 't'];
    let light: [char; 5] = ['l', 'i', 'g', 'h', 't'];
    let sphere: [char; 6] = ['s', 'p', 'h', 'e', 'r', 'e'];
    let plane: [char; 5] = ['p', 'l', 'a', 'n', 'e'];
    let cube: [char; 4] = ['c', 'u', 'b', 'e'];
    let cylinder: [char; 8] = ['c', 'y', 'l', 'i', 'n', 'd', 'e', 'r'];
    assert(camera@ == command_word(Command::Camera));
    assert(ambient@ == command_word(Command::Ambient));
    assert(light@ == command_word(Command::Light));
    assert(sphere@ == command_word(Command::Sphere));
    assert(plane@ == command_word(Command::Plane));
    assert(cube@ == command_word(Command::Cube));
    assert(cylinder@ == command_word(Command::Cylinder));
    if same_chars(w, &camera) {
        Some(Command::Camera)
    } else if same_chars(w, &ambient) {
        Some(Command::Ambient)
    } else if same_chars(w, &light) {
        Some(Command::Light)
    } else if same_chars(w, &sphere) {
        Some(Command::Sphere)
    } else if same_chars(w, &plane) {
        Some(Command::Plane)
    } else if same_chars(w, &cube) {
        Some(Command::Cube)
    } else if same_chars(w, &cylinder) {
        Some(Command::Cylinder)
    } else {
        None
    }
}

fn min_words_of(c: Command) -> (r: usize)
    ensures
        r == min_words(c),
{
    match c {
        Command::Camera => 8,
        Command::Ambient => 4,
        Command::Light => 8,
        Command::Sphere => 12,
        Command::Plane => 12,
        Command::Cube => 12,
        Command::Cylinder => 11,
    }
}

/// Reads one line of a scene file; `number` is its 1-based line number.
/// Returns `Ok(None)` for a blank or comment line, `Ok(Some(..))` for an
/// accepted command, and the error that the first fault of the line gives.
pub fn parse_line(line: &str, number: usize) -> (r: Result<Option<Directive>, SceneError>)
    ensures
        line_result_is(r, classify(line@), number),
{
    let chars = chars_of(line);
    let t = split_words(chars.as_slice());
    let ghost tv = words(line@);
    assert(t@.len() == tv.len());
    if t.len() == 0 {
        return Ok(None);
    }
    assert(t@[0]@ == tv[0]);
    if t[0].len() > 0 && t[0][0] == '#' {
        return Ok(None);
    }
    proof {
        lemma_words_nonempty(line@);
    }
    let cmd = match command_of(t[0].as_slice()) {
        Some(c) => c,
        None => {
            let word = string_of(t[0].as_slice());
            return Err(SceneError::UnknownCommand { line: number, word });
        },
    };
    let min = min_words_of(cmd);
    if t.len() < min {
        return Err(SceneError::MissingValues { line: number, command: cmd });
    }
    let used: usize = if cmd == Command::Plane && t.len() >= 16 {
        16
    } else {
        min
    };
    assert(used == used_words(cmd, tv.len()));
    let ghost rest = match first_non_number(tv, 1, used as int) {
        Some(j) => LineClass::Invalid(cmd, j),
        None => LineClass::Entry(cmd, tv.subrange(1, used as int)),
    };
    assert(classify(line@) == rest);
    let mut values: Vec<String> = Vec::new();
    let mut i: usize = 1;
    while i < used
        invariant
            1 <= i <= used <= t@.len(),
            t@.len() == tv.len(),
            forall|k: int| 0 <= k < t@.len() ==> #[trigger] t@[k]@ == tv[k],
            first_non_number(tv, 1, used as int) == first_non_number(tv, i as int, used as int),
            classify(line@) == rest,
            rest == (match first_non_number(tv, 1, used as int) {
                Some(j) => LineClass::Invalid(cmd, j),
                None => LineClass::Entry(cmd, tv.subrange(1, used as int)),
            }),
            values@.len() == i - 1,
            forall|k: int| 0 <= k < i - 1 ==> #[trigger] values@[k]@ == tv[k + 1],
        decreases used - i,
    {
        assert(t@[i as int]@ == tv[i as int]);
        if !is_float_text(t[i].as_slice()) {
            assert(first_non_number(tv, i as int, used as int) == Some(i as int));
            return Err(SceneError::InvalidNumber { line: number, command: cmd, position: i });
        }
        values.push(string_of(t[i].as_slice()));
        i = i + 1;
    }
    assert(values.deep_view() =~= tv.subrange(1, used as int));
    Ok(Some(Directive { command: cmd, values }))
}

/// Every word is non-empty.
proof fn lemma_words_nonempty(s: Seq<char>)
    ensures
        forall|k: int| 0 <= k < words(s).len() ==> #[trigger] words(s)[k].len() > 0,
{
    lemma_split_state_nonempty(s);
}

proof fn lemma_split_state_nonempty(s: Seq<char>)
    ensures
        forall|k: int|
            0 <= k < crate::text::split_state(s).0.len()
                ==> #[trigger] crate::text::split_state(s).0[k].len() > 0,
    decreases s.len(),
{
    if s.len() > 0 {
        lemma_split_state_nonempty(s.drop_last());
        let (done, cur) = crate::text::split_state(s.drop_last());
        assert(forall|k: int| 0 <= k < done.len() ==> #[trigger] done[k].len() > 0);
        if crate::text::is_ws(s.last()) && cur.len() > 0 {
            assert forall|k: int| 0 <= k < done.push(cur).len() implies #[trigger] done.push(
                cur,
            )[k].len() > 0 by {
                if k < done.len() {
                    assert(done.push(cur)[k] == done[k]);
                }
            }
        }
    }
}

/// The accepted content of a scene file, with every value still as text:
/// the last `camera` and `ambient` lines, if any, and the `light` lines and
/// shape lines in file order.
#[derive(Debug, PartialEq, Eq)]
pub struct SceneSpec {
    pub camera: Option<Vec<String>>,
    pub ambient: Option<Vec<String>>,
    pub lights: Vec<Vec<String>>,
    pub objects: Vec<Directive>,
}

/// The mathematical content of a [`SceneSpec`].
pub struct SceneView {
    pub camera: Option<Seq<Seq<char>>>,
    pub ambient: Option<Seq<Seq<char>>>,
    pub lights: Seq<Seq<Seq<char>>>,
    pub objects: Seq<(Command, Seq<Seq<char>>)>,
}

/// The texts of an optional list of values.
pub open spec fn texts_of(o: Option<Vec<String>>) -> Option<Seq<Seq<char>>> {
    match o {
        Some(v) => Some(v.deep_view()),
        None => None,
    }
}

impl View for SceneSpec {
    type V = SceneView;

    open spec fn view(&self) -> SceneView {
        SceneView {
            camera: texts_of(self.camera),
            ambient: texts_of(self.ambient),
            lights: self.lights@.map_values(|l: Vec<String>| l.deep_view()),
            objects: self.objects@.map_values(|d: Directive| (d.command, d.values.deep_view())),
        }
    }
}

/// A scene with no accepted line yet.
pub open spec fn empty_scene() -> SceneView {
    SceneView { camera: None, ambient: None, lights: seq![], objects: seq![] }
}

/// The scene after one more accepted line: `camera` and `ambient` replace
/// what an earlier line gave, `light` and shape lines are appended.
pub open spec fn add_entry(s: SceneView, c: Command, vals: Seq<Seq<char>>) -> SceneView {
    match c {
        Command::Camera => SceneView { camera: Some(vals), ..s },
        Command::Ambient => SceneView { ambient: Some(vals), ..s },
        Command::Light => SceneView { lights: s.lights.push(vals), ..s },
        _ => SceneView { objects: s.objects.push((c, vals)), ..s },
    }
}

/// What reading the lines `lines` gives: the scene, or the number of the
/// first faulty line together with what is wrong with it.
pub open spec fn read_scene(lines: Seq<Seq<char>>) -> Result<SceneView, (nat, LineClass)>
    decreases lines.len(),
{
    if lines.len() == 0 {
        Ok(empty_scene())
    } else {
        match read_scene(lines.drop_last()) {
            Err(e) => Err(e),
            Ok(s) => match classify(lines.last()) {
                LineClass::Skip => Ok(s),
                LineClass::Entry(c, vals) => Ok(add_entry(s, c, vals)),
                cls => Err((lines.len(), cls)),
            },
        }
    }
}

/// `e` is the error that a line numbered `number` of class `cls` gives.
pub open spec fn error_is(e: SceneError, number: nat, cls: LineClass) -> bool {
    line_result_is(Err(e), cls, number as usize) && number <= usize::MAX
}

/// Reads the lines of a scene file. The first faulty line, in file order,
/// decides the error; otherwise the accepted lines make up the scene.
pub fn parse_scene(lines: &Vec<String>) -> (r: Result<SceneSpec, SceneError>)
    ensures
        match (r, read_scene(lines.deep_view())) {
            (Ok(s), Ok(v)) => s@ == v,
            (Err(e), Err((n, cls))) => error_is(e, n, cls),
            _ => false,
        },
{
    let ghost ls = lines.deep_view();
    let mut scene = SceneSpec { camera: None, ambient: None, lights: Vec::new(), objects: Vec::new() };
    let mut i: usize = 0;
    assert(ls.take(0) =~= seq![]);
    assert(scene@ == empty_scene()) by {
        assert(scene@.lights =~= seq![]);
        assert(scene@.objects =~= seq![]);
    }
    while i < lines.len()
        invariant
            i <= lines@.len(),
            ls == lines.deep_view(),
            read_scene(ls.take(i as int)) == Ok::<SceneView, (nat, LineClass)>(scene@),
        decreases lines.len() - i,
    {
        let ghost before = scene@;
        assert(ls.take(i + 1).drop_last() == ls.take(i as int));
        assert(ls.take(i + 1).last() == lines@[i as int]@);
        let result = parse_line(lines[i].as_str(), i + 1);
        match result {
            Err(e) => {
                assert(!(read_scene(ls.take(i + 1)) is Ok));
                proof { lemma_error_prefix(ls, (i + 1) as int); }
                return Err(e);
            },
            Ok(None) => {},
            Ok(Some(d)) => {
                let ghost vals = d.values.deep_view();
                match d.command {
                    Command::Camera => {
                        scene.camera = Some(d.values);
                    },
                    Command::Ambient => {
                        scene.ambient = Some(d.values);
                    },
                    Command::Light => {
                        scene.lights.push(d.values);
                        assert(scene@.lights =~= before.lights.push(vals));
                    },
                    _ => {
                        let c = d.command;
                        scene.objects.push(d);
                        assert(scene@.objects =~= before.objects.push((c, vals)));
                    },
                }
            },
        }
        i = i + 1;
    }
    assert(ls.take(lines.len() as int) == ls);
    Ok(scene)
}

/// An error on some line is the error of the whole file.
proof fn lemma_error_prefix(ls: Seq<Seq<char>>, k: int)
    requires
        0 <= k <= ls.len(),
        read_scene(ls.take(k)) is Err,
    ensures
        read_scene(ls) == read_scene(ls.take(k)),
    decreases ls.len() - k,
{
    if k < ls.len() {
        assert(ls.take(k + 1).drop_last() == ls.take(k));
        lemma_error_prefix(ls, k + 1);
    } else {
        assert(ls.take(k) == ls);
    }
}

/// The text after the line number in the message for a command with too
/// few values.
pub open spec fn missing_text(c: Command) -> Seq<char> {
    match c {
        Command::Camera =>
            ": camera requires 7 values (pos_x pos_y pos_z look_x look_y look_z fov)"@,
        Command::Ambient => ": ambient requires 3 values (r g b)"@,
        Command::Light => ": light requires 7 values (pos_x pos_y pos_z intensity r g b)"@,
        Command::Sphere =>
            ": sphere requires 11 values (cx cy cz radius r g b specular reflective refr_idx transp)"@,
        Command::Plane => ": plane requires at least 11 values"@,
        Command::Cube => ": cube requires 11 values"@,
        Command::Cylinder => ": cylinder requires 10 values"@,
    }
}

/// The name of the field that word `position` of a command line fills.
pub open spec fn field_label(c: Command, position: int) -> Seq<char> {
    match c {
        Command::Camera => if position <= 3 {
            "camera position"@
        } else if position <= 6 {
            "camera look_at"@
        } else {
            "camera fov"@
        },
        Command::Ambient => "ambient light"@,
        Command::Light => if position <= 3 {
            "light position"@
        } else if position == 4 {
            "light intensity"@
        } else {
            "light color"@
        },
        Command::Sphere => if position <= 3 {
            "sphere center"@
        } else if position == 4 {
            "sphere radius"@
        } else if position <= 7 {
            "sphere color"@
        } else if position == 8 {
            "sphere specular"@
        } else if position == 9 {
            "sphere reflective"@
        } else if position == 10 {
            "sphere refractive index"@
        } else {
            "sphere transparency"@
        },
        Command::Plane => if position <= 3 {
            "plane point"@
        } else if position <= 6 {
            "plane normal"@
        } else if position <= 9 {
            "plane color"@
        } else if position == 10 {
            "plane specular"@
        } else if position == 11 {
            "plane reflective"@
        } else if position == 12 {
            "checker scale"@
        } else {
            "checker color 2"@
        },
        Command::Cube => if position <= 3 {
            "cube min"@
        } else if position <= 6 {
            "cube max"@
        } else if position <= 9 {
            "cube color"@
        } else if position == 10 {
            "cube specular"@
        } else {
            "cube reflective"@
        },
        Command::Cylinder => if position <= 3 {
            "cylinder center"@
        } else if position == 4 {
            "cylinder radius"@
        } else if position == 5 {
            "cylinder height"@
        } else if position <= 8 {
            "cylinder color"@
        } else if position == 9 {
            "cylinder specular"@
        } else {
            "cylinder reflective"@
        },
    }
}

/// The message that reports `e`.
pub open spec fn error_text(e: SceneError) -> Seq<char> {
    match e {
        SceneError::MissingValues { line, command } => "Line "@ + decimal_text(line as nat)
            + missing_text(command),
        SceneError::InvalidNumber { line, command, position } => "Line "@ + decimal_text(
            line as nat,
        ) + ": invalid float for field '"@ + field_label(command, position as int) + "'"@,
        SceneError::UnknownCommand { line, word } => "Line "@ + decimal_text(line as nat)
            + ": Unknown command '"@ + word@ + "'"@,
    }
}

fn missing_message(c: Command) -> (r: &'static str)
    ensures
        r@ == missing_text(c),
{
    match c {
        Command::Camera =>
            ": camera requires 7 values (pos_x pos_y pos_z look_x look_y look_z fov)",
        Command::Ambient => ": ambient requires 3 values (r g b)",
        Command::Light => ": light requires 7 values (pos_x pos_y pos_z intensity r g b)",
        Command::Sphere =>
            ": sphere requires 11 values (cx cy cz radius r g b specular reflective refr_idx transp)",
        Command::Plane => ": plane requires at least 11 values",
        Command::Cube => ": cube requires 11 values",
        Command::Cylinder => ": cylinder requires 10 values",
    }
}

/// The name of the field that word `position` of a `c` line fills.
pub fn field_name(c: Command, position: usize) -> (r: &'static str)
    ensures
        r@ == field_label(c, position as int),
{
    match c {
        Command::Camera => if position <= 3 {
            "camera position"
        } else if position <= 6 {
            "camera look_at"
        } else {
            "camera fov"
        },
        Command::Ambient => "ambient light",
        Command::Light => if position <= 3 {
            "light position"
        } else if position == 4 {
            "light intensity"
        } else {
            "light color"
        },
        Command::Sphere => if position <= 3 {
            "sphere center"
        } else if position == 4 {
            "sphere radius"
        } else if position <= 7 {
            "sphere color"
        } else if position == 8 {
            "sphere specular"
        } else if position == 9 {
            "sphere reflective"
        } else if position == 10 {
            "sphere refractive index"
        } else {
            "sphere transparency"
        },
        Command::Plane => if position <= 3 {
            "plane point"
        } else if position <= 6 {
            "plane normal"
        } else if position <= 9 {
            "plane color"
        } else if position == 10 {
            "plane specular"
        } else if position == 11 {
            "plane reflective"
        } else if position == 12 {
            "checker scale"
        } else {
            "checker color 2"
        },
        Command::Cube => if position <= 3 {
            "cube min"
        } else if position <= 6 {
            "cube max"
        } else if position <= 9 {
            "cube color"
        } else if position == 10 {
            "cube specular"
        } else {
            "cube reflective"
        },
        Command::Cylinder => if position <= 3 {
            "cylinder center"
        } else if position == 4 {
            "cylinder radius"
        } else if position == 5 {
            "cylinder height"
        } else if position <= 8 {
            "cylinder color"
        } else if position == 9 {
            "cylinder specular"
        } else {
            "cylinder reflective"
        },
    }
}

impl SceneError {
    /// The message that reports this error, e.g.
    /// `Line 3: invalid float for field 'sphere radius'`.
    pub fn message(&self) -> (r: String)
        ensures
            r@ == error_text(*self),
    {
        let mut out = String::new();
        out.append("Line ");
        match self {
            SceneError::MissingValues { line, command } => {
                push_decimal(&mut out, *line);
                out.append(missing_message(*command));
            },
            SceneError::InvalidNumber { line, command, position } => {
                push_decimal(&mut out, *line);
                out.append(": invalid float for field '");
                out.append(field_name(*command, *position));
                out.append("'");
            },
            SceneError::UnknownCommand { line, word } => {
                push_decimal(&mut out, *line);
                out.append(": Unknown command '");
                out.append(word.as_str());
                out.append("'");
            },
        }
        out
    }
}

/// How many values a `c` line carries once accepted.
pub open spec fn value_count_ok(c: Command, n: nat) -> bool {
    match c {
        Command::Camera => n == 7,
        Command::Ambient => n == 3,
        Command::Light => n == 7,
        Command::Sphere => n == 11,
        Command::Plane => n == 11 || n == 15,
        Command::Cube => n == 11,
        Command::Cylinder => n == 10,
    }
}

/// Every value is a number text.
pub open spec fn all_numbers(vals: Seq<Seq<char>>) -> bool {
    forall|i: int| 0 <= i < vals.len() ==> is_float_literal(#[trigger] vals[i])
}

/// Every value of an accepted scene is a number, and each command carries
/// the number of values that it reads.
pub open spec fn well_formed_scene(s: SceneView) -> bool {
    &&& (s.camera matches Some(v) ==> v.len() == 7 && all_numbers(v))
    &&& (s.ambient matches Some(v) ==> v.len() == 3 && all_numbers(v))
    &&& forall|i: int|
        0 <= i < s.lights.len() ==> (#[trigger] s.lights[i]).len() == 7 && all_numbers(
            s.lights[i],
        )
    &&& forall|i: int|
        0 <= i < s.objects.len() ==> {
            let (c, vals) = #[trigger] s.objects[i];
            &&& c != Command::Camera && c != Command::Ambient && c != Command::Light
            &&& value_count_ok(c, vals.len())
            &&& all_numbers(vals)
        }
}

proof fn lemma_no_non_number(t: Seq<Seq<char>>, lo: int, hi: int)
    requires
        first_non_number(t, lo, hi) is None,
    ensures
        forall|i: int| lo <= i < hi ==> is_float_literal(#[trigger] t[i]),
    decreases hi - lo,
{
    if lo < hi {
        lemma_no_non_number(t, lo + 1, hi);
    }
}

proof fn lemma_entry_well_formed(line: Seq<char>)
    ensures
        classify(line) matches LineClass::Entry(c, vals) ==> value_count_ok(c, vals.len())
            && all_numbers(vals),
{
    let t = words(line);
    if let LineClass::Entry(c, vals) = classify(line) {
        let n = used_words(c, t.len());
        lemma_no_non_number(t, 1, n as int);
        assert forall|i: int| 0 <= i < vals.len() implies is_float_literal(#[trigger] vals[i]) by {
            assert(vals[i] == t[i + 1]);
        }
    }
}

/// The values of an accepted scene file are all number texts, as many for
/// each command as the command reads: 7 for `camera` and `light`, 3 for
/// `ambient`, 11 for `sphere` and `cube`, 10 for `cylinder`, and 11 or (with
/// a checker pattern) 15 for `plane`.
pub proof fn lemma_accepted_scene_well_formed(lines: Seq<Seq<char>>)
    ensures
        read_scene(lines) matches Ok(s) ==> well_formed_scene(s),
    decreases lines.len(),
{
    if lines.len() > 0 {
        lemma_accepted_scene_well_formed(lines.drop_last());
        lemma_entry_well_formed(lines.last());
        if let Ok(s) = read_scene(lines.drop_last()) {
            if let LineClass::Entry(c, vals) = classify(lines.last()) {
                let s2 = add_entry(s, c, vals);
                assert forall|i: int| 0 <= i < s2.lights.len() implies (#[trigger] s2.lights[i]).len()
                    == 7 && all_numbers(s2.lights[i]) by {
                    if i < s.lights.len() {
                        assert(s2.lights[i] == s.lights[i]);
                    }
                }
                assert forall|i: int| 0 <= i < s2.objects.len() implies {
                    let (c2, vals2) = #[trigger] s2.objects[i];
                    &&& c2 != Command::Camera && c2 != Command::Ambient && c2 != Command::Light
                    &&& value_count_ok(c2, vals2.len())
                    &&& all_numbers(vals2)
                } by {
                    if i < s.objects.len() {
                        assert(s2.objects[i] == s.objects[i]);
                    }
                }
            }
        }
    }
}

/// A blank or comment line, inserted anywhere in an accepted scene file,
/// changes nothing in the scene read from it.
pub proof fn lemma_skipped_line_changes_nothing(lines: Seq<Seq<char>>, k: int, extra: Seq<char>)
    requires
        0 <= k <= lines.len(),
        classify(extra) is Skip,
        read_scene(lines) is Ok,
    ensures
        read_scene(lines.insert(k, extra)) == read_scene(lines),
    decreases lines.len(),
{
    let ins = lines.insert(k, extra);
    if k == lines.len() {
        assert(ins.drop_last() == lines);
    } else {
        let prev = lines.drop_last();
        assert(read_scene(prev) is Ok);
        lemma_skipped_line_changes_nothing(prev, k, extra);
        assert(ins.drop_last() == prev.insert(k, extra));
        assert(ins.last() == lines.last());
    }
}

/// The error of a refused scene file comes from its first faulty line: the
/// line numbered `n` is faulty in the way reported, and the lines before it
/// are all accepted.
pub proof fn lemma_error_is_first_fault(lines: Seq<Seq<char>>)
    ensures
        read_scene(lines) matches Err((n, cls)) ==> {
            &&& 1 <= n <= lines.len()
            &&& cls == classify(lines[n - 1])
            &&& !(cls is Skip) && !(cls is Entry)
            &&& read_scene(lines.take(n - 1)) is Ok
        },
    decreases lines.len(),
{
    if lines.len() > 0 {
        let prev = lines.drop_last();
        lemma_error_is_first_fault(prev);
        if let Err((n, cls)) = read_scene(prev) {
            assert(prev[n - 1] == lines[n - 1]);
            assert(prev.take(n - 1) == lines.take(n - 1));
        } else {
            assert(lines.take(lines.len() - 1) == prev);
        }
    }
}

/// Only the words of a line matter: two lines with the same words, however
/// they are spaced, mean the same.
pub proof fn lemma_spacing_irrelevant(a: Seq<char>, b: Seq<char>)
    requires
        words(a) == words(b),
    ensures
        classify(a) == classify(b),
{
}

// ---------------------------------------------------------------------------
// Laws of the scene format
// ---------------------------------------------------------------------------

proof fn lemma_first_word_start(s: Seq<char>, i: int, n: int)
    requires
        0 <= i < s.len(),
        !crate::text::is_ws(s[i]),
        forall|j: int| 0 <= j < i ==> crate::text::is_ws(#[trigger] s[j]),
        0 <= n <= s.len(),
    ensures
        ({
            let (d, c) = crate::text::split_state(s.take(n));
            &&& n <= i ==> d.len() == 0 && c.len() == 0
            &&& n > i ==> (d.len() > 0 && d[0].len() > 0 && d[0][0] == s[i]) || (d.len() == 0
                && c.len() > 0 && c[0] == s[i])
        }),
    decreases n,
{
    if n > 0 {
        lemma_first_word_start(s, i, n - 1);
        assert(s.take(n).drop_last() == s.take(n - 1));
        assert(s.take(n).last() == s[n - 1]);
        let (d, c) = crate::text::split_state(s.take(n - 1));
        if n - 1 > i && d.len() > 0 {
            assert(d.push(c)[0] == d[0]);
        }
    } else {
        assert(s.take(0) =~= Seq::<char>::empty());
    }
}

/// A line whose first non-blank character is `#` is a comment: it is
/// skipped, whatever follows the `#`.
pub proof fn lemma_hash_line_is_comment(line: Seq<char>, i: int)
    requires
        0 <= i < line.len(),
        line[i] == '#',
        forall|j: int| 0 <= j < i ==> crate::text::is_ws(#[trigger] line[j]),
    ensures
        classify(line) is Skip,
        forall|n: usize, r: Result<Option<Directive>, SceneError>|
            line_result_is(r, classify(line), n) ==> r == Ok::<Option<Directive>, SceneError>(
                None,
            ),
{
    lemma_first_word_start(line, i, line.len() as int);
    assert(line.take(line.len() as int) == line);
    let (d, c) = crate::text::split_state(line);
    if d.len() == 0 {
        assert(words(line) == d.push(c));
        assert(d.push(c)[0] == c);
    } else {
        if c.len() > 0 {
            assert(d.push(c)[0] == d[0]);
        }
    }
}

/// Each command word names its own command, and none starts with `#`.
proof fn lemma_command_words_distinct(w: Seq<char>, c: Command)
    requires
        w == command_word(c),
    ensures
        command_named(w) == Some(c),
        w.len() > 0 && w[0] != '#',
{
    reveal_with_fuel(command_named, 1);
    assert(command_word(Command::Camera)[0] == 'c');
    assert(command_word(Command::Cube)[0] == 'c');
    assert(command_word(Command::Cylinder)[1] == 'y');
    assert(command_word(Command::Camera)[1] == 'a');
    assert(command_word(Command::Sphere)[0] == 's');
    assert(command_word(Command::Plane)[0] == 'p');
    assert(command_word(Command::Light)[0] == 'l');
    assert(command_word(Command::Ambient)[0] == 'a');
    assert(command_word(Command::Cube)[1] == 'u');
}

proof fn lemma_all_numbers_first_none(t: Seq<Seq<char>>, lo: int, hi: int)
    requires
        0 <= lo <= hi <= t.len(),
        forall|k: int| lo <= k < hi ==> is_float_literal(#[trigger] t[k]),
    ensures
        first_non_number(t, lo, hi) is None,
    decreases hi - lo,
{
    if lo < hi {
        lemma_all_numbers_first_none(t, lo + 1, hi);
    }
}

proof fn lemma_first_non_number_at(t: Seq<Seq<char>>, lo: int, hi: int, k: int)
    requires
        0 <= lo <= k < hi <= t.len(),
        forall|j: int| lo <= j < k ==> is_float_literal(#[trigger] t[j]),
        !is_float_literal(t[k]),
    ensures
        first_non_number(t, lo, hi) == Some(k),
    decreases k - lo,
{
    if lo < k {
        lemma_first_non_number_at(t, lo + 1, hi, k);
    }
}

/// A command word followed by the documented number of values: 7 for
/// `camera`, 3 for `ambient`, 7 for `light`, 11 for `sphere`, 11 for
/// `plane` (15 when at least 15 are given: a checker pattern), 11 for
/// `cube` and 10 for `cylinder`. With fewer values the line is refused for
/// missing values; otherwise the first of those values that is not a number
/// is reported, by its word position; and if all are numbers the line is
/// accepted with exactly those values, further words being ignored.
pub proof fn lemma_documented_counts(line: Seq<char>, c: Command, vals: Seq<Seq<char>>)
    requires
        words(line) == seq![command_word(c)] + vals,
    ensures
        ({
            let needed: nat = match c {
                Command::Camera => 7,
                Command::Ambient => 3,
                Command::Light => 7,
                Command::Sphere => 11,
                Command::Plane => if vals.len() >= 15 {
                    15
                } else {
                    11
                },
                Command::Cube => 11,
                Command::Cylinder => 10,
            };
            &&& vals.len() < needed ==> classify(line) == LineClass::Missing(c)
            &&& (vals.len() >= needed && all_numbers(vals.take(needed as int))) ==> classify(line)
                == LineClass::Entry(c, vals.take(needed as int))
            &&& forall|k: int|
                0 <= k < needed <= vals.len() && !is_float_literal(#[trigger] vals[k]) && (
                forall|j: int| 0 <= j < k ==> is_float_literal(vals[j])) ==> classify(line)
                    == LineClass::Invalid(c, k + 1)
        }),
{
    let t = words(line);
    lemma_command_words_distinct(command_word(c), c);
    assert(t[0] == command_word(c));
    assert(t.len() == vals.len() + 1);
    let n = used_words(c, t.len());
    assert forall|k: int| 1 <= k < t.len() implies #[trigger] t[k] == vals[k - 1] by {}
    if n <= t.len() {
        if all_numbers(vals.take(n - 1)) {
            assert forall|k: int| 1 <= k < n implies is_float_literal(#[trigger] t[k]) by {
                assert(t[k] == vals.take(n - 1)[k - 1]);
            }
            lemma_all_numbers_first_none(t, 1, n as int);
            assert(t.subrange(1, n as int) =~= vals.take(n - 1));
        }
        assert forall|k: int|
            0 <= k < n - 1 <= vals.len() && !is_float_literal(#[trigger] vals[k]) && (forall|
                j: int,
            | 0 <= j < k ==> is_float_literal(vals[j])) implies classify(line) == LineClass::Invalid(
            c,
            k + 1,
        ) by {
            assert forall|j: int| 1 <= j < k + 1 implies is_float_literal(#[trigger] t[j]) by {
                assert(t[j] == vals[j - 1]);
            }
            lemma_first_non_number_at(t, 1, n as int, k + 1);
        }
    }
}

/// Whether a line class is an accepted shape line, and which.
pub open spec fn shape_entry(cls: LineClass) -> Option<(Command, Seq<Seq<char>>)> {
    match cls {
        LineClass::Entry(c, vals) => if c == Command::Sphere || c == Command::Plane || c
            == Command::Cube || c == Command::Cylinder {
            Some((c, vals))
        } else {
            None
        },
        _ => None,
    }
}

/// The values of a line class if it is an accepted `c` line.
pub open spec fn entry_of(cls: LineClass, c: Command) -> Option<Seq<Seq<char>>> {
    match cls {
        LineClass::Entry(c2, vals) => if c2 == c {
            Some(vals)
        } else {
            None
        },
        _ => None,
    }
}

/// The last element of `s`, if any.
pub open spec fn last_of(s: Seq<Seq<Seq<char>>>) -> Option<Seq<Seq<char>>> {
    if s.len() == 0 {
        None
    } else {
        Some(s.last())
    }
}

/// An accepted scene holds every accepted shape line, in file order and
/// nothing else, as its objects; every accepted `light` line, in file
/// order, as its lights; and the values of the last `camera` and last
/// `ambient` line.
pub proof fn lemma_scene_collects_lines(lines: Seq<Seq<char>>)
    ensures
        read_scene(lines) matches Ok(s) ==> {
            &&& s.objects == lines.filter_map(|l: Seq<char>| shape_entry(classify(l)))
            &&& s.lights == lines.filter_map(|l: Seq<char>| entry_of(classify(l), Command::Light))
            &&& s.camera == last_of(
                lines.filter_map(|l: Seq<char>| entry_of(classify(l), Command::Camera)),
            )
            &&& s.ambient == last_of(
                lines.filter_map(|l: Seq<char>| entry_of(classify(l), Command::Ambient)),
            )
        },
    decreases lines.len(),
{
    let fo = |l: Seq<char>| shape_entry(classify(l));
    let fl = |l: Seq<char>| entry_of(classify(l), Command::Light);
    let fc = |l: Seq<char>| entry_of(classify(l), Command::Camera);
    let fa = |l: Seq<char>| entry_of(classify(l), Command::Ambient);
    if lines.len() > 0 {
        let prev = lines.drop_last();
        lemma_scene_collects_lines(prev);
        if let Ok(s) = read_scene(lines) {
            let s0 = read_scene(prev)->Ok_0;
            let cls = classify(lines.last());
            assert(lines.filter_map(fo) == prev.filter_map(fo) + (match fo(lines.last()) {
                Some(x) => seq![x],
                None => Seq::empty(),
            }));
            match cls {
                LineClass::Entry(c, vals) => {
                    assert(s == add_entry(s0, c, vals));
                    if c == Command::Light {
                        assert(s.lights =~= prev.filter_map(fl) + seq![vals]);
                    } else if c == Command::Camera || c == Command::Ambient {
                        assert(s.objects =~= prev.filter_map(fo) + Seq::empty());
                        assert(lines.filter_map(fl) == prev.filter_map(fl));
                    } else {
                        assert(s.objects =~= prev.filter_map(fo) + seq![(c, vals)]);
                        assert(lines.filter_map(fl) == prev.filter_map(fl));
                    }
                    if c == Command::Camera {
                        assert((prev.filter_map(fc) + seq![vals]).last() == vals);
                    } else {
                        assert(lines.filter_map(fc) == prev.filter_map(fc));
                    }
                    if c == Command::Ambient {
                        assert((prev.filter_map(fa) + seq![vals]).last() == vals);
                    } else {
                        assert(lines.filter_map(fa) == prev.filter_map(fa));
                    }
                    if c == Command::Camera || c == Command::Ambient || c == Command::Light {
                        assert(s.objects =~= prev.filter_map(fo));
                    }
                },
                _ => {
                    assert(s == s0);
                    assert(lines.filter_map(fo) =~= prev.filter_map(fo));
                    assert(lines.filter_map(fl) == prev.filter_map(fl));
                    assert(lines.filter_map(fc) == prev.filter_map(fc));
                    assert(lines.filter_map(fa) == prev.filter_map(fa));
                },
            }
        }
    }
}

} // verus!
