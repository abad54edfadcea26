use vstd::prelude::*;

use crate::transform::{
    collect_lines, commands_view, compile_commands, line_words, Command, CommandSpec, TransformError,
    TransformErrorSpec,
};

verus! {

/// A value of a key/value configuration document.
#[derive(Debug, PartialEq)]
pub enum ConfigValue {
    Integer(i64),
    /// A floating-point number, in its shortest decimal form.
    Float(String),
    String(String),
    Table(Vec<(String, ConfigValue)>),
    /// A boolean, a date or an array: nothing here reads those.
    Other,
}

/// The value stored under `key` in `entries`, by the first entry with that key.
pub open spec fn find_entry(entries: Seq<(String, ConfigValue)>, key: Seq<char>) -> Option<ConfigValue>
    decreases entries.len(),
{
    if entries.len() == 0 {
        None
    } else if entries[0].0@ == key {
        Some(entries[0].1)
    } else {
        find_entry(entries.drop_first(), key)
    }
}

/// A camera's field of view in degrees, as written.
#[derive(Clone, Debug, PartialEq, Eq)]
pub enum FovDegrees {
    Integer(i64),
    Float(String),
}

/// The camera that a configuration describes: its field of view and the
/// commands of its view transform, whose arguments are still text.
#[derive(Clone, Debug, PartialEq, Eq)]
pub struct CameraConfig {
    pub fov: FovDegrees,
    pub view: Vec<Command>,
}

/// Why a configuration was rejected.
#[derive(Clone, Debug, PartialEq, Eq)]
pub enum ConfigError {
    /// `camera` is absent or not a table.
    CameraNotTable,
    /// `camera.fov` is absent.
    MissingFov,
    /// `camera.fov` is neither an integer nor a float.
    FovNotNumber,
    /// `camera.view` is absent.
    MissingView,
    /// `camera.view` is not a string.
    ViewNotString,
    /// `camera.view` is not a valid transform program: the commands before
    /// its first bad line, and that line's error.
    View(Vec<Command>, TransformError),
}

/// The outcome of reading the camera from a configuration's top-level entries.
pub enum CameraSpec {
    Camera(FovDegrees, Seq<CommandSpec>),
    CameraNotTable,
    MissingFov,
    FovNotNumber,
    MissingView,
    ViewNotString,
    View(Seq<CommandSpec>, TransformErrorSpec),
}

pub open spec fn camera_spec(conf: Seq<(String, ConfigValue)>) -> CameraSpec {
    match find_entry(conf, "camera"@) {
        Some(ConfigValue::Table(cam)) => match find_entry(cam@, "fov"@) {
            None => CameraSpec::MissingFov,
            Some(fov) => {
                let fov_deg = match fov {
                    ConfigValue::Integer(x) => Some(FovDegrees::Integer(x)),
                    ConfigValue::Float(x) => Some(FovDegrees::Float(x)),
                    _ => None,
                };
                match fov_deg {
                    None => CameraSpec::FovNotNumber,
                    Some(f) => match find_entry(cam@, "view"@) {
                        None => CameraSpec::MissingView,
                        Some(ConfigValue::String(v)) => match collect_lines(line_words(v@)) {
                            (cmds, None) => CameraSpec::Camera(f, cmds),
                            (cmds, Some(e)) => CameraSpec::View(cmds, e),
                        },
                        Some(_) => CameraSpec::ViewNotString,
                    },
                }
            },
        },
        _ => CameraSpec::CameraNotTable,
    }
}

pub open spec fn camera_result_matches(r: Result<CameraConfig, ConfigError>, c: CameraSpec) -> bool {
    match c {
        CameraSpec::Camera(f, cmds) => r matches Ok(cam) && cam.fov == f && commands_view(cam.view@)
            == cmds,
        CameraSpec::CameraNotTable => r == Err::<CameraConfig, ConfigError>(ConfigError::CameraNotTable),
        CameraSpec::MissingFov => r == Err::<CameraConfig, ConfigError>(ConfigError::MissingFov),
        CameraSpec::FovNotNumber => r == Err::<CameraConfig, ConfigError>(ConfigError::FovNotNumber),
        CameraSpec::MissingView => r == Err::<CameraConfig, ConfigError>(ConfigError::MissingView),
        CameraSpec::ViewNotString => r == Err::<CameraConfig, ConfigError>(ConfigError::ViewNotString),
        CameraSpec::View(cmds, e) => r matches Err(ConfigError::View(c, x)) && commands_view(c@)
            == cmds && x@ == e,
    }
}

/// Looks up `key` among `entries`.
pub fn get_entry<'a>(entries: &'a Vec<(String, ConfigValue)>, key: &str) -> (r: Option<&'a ConfigValue>)
    ensures
        match find_entry(entries@, key@) {
            None => r is None,
            Some(v) => r matches Some(x) && *x == v,
        },
{
    let wanted = String::from_str(key);
    let mut i: usize = 0;
    assert(entries@.subrange(0, entries@.len() as int) =~= entries@);
    while i < entries.len()
        invariant
            wanted@ == key@,
            i <= entries@.len(),
            find_entry(entries@, key@) == find_entry(entries@.subrange(i as int, entries@.len() as int), key@),
        decreases entries@.len() - i,
    {
        let ghost rest = entries@.subrange(i as int, entries@.len() as int);
        assert(rest.drop_first() =~= entries@.subrange(i + 1, entries@.len() as int));
        if entries[i].0 == wanted {
            return Some(&entries[i].1);
        }
        i = i + 1;
    }
    None
}

/// Reads the camera from the top-level entries of a scene configuration: the
/// `camera` table must hold a numeric `fov` and a `view` transform program.
pub fn parse_camera(conf: &Vec<(String, ConfigValue)>) -> (r: Result<CameraConfig, ConfigError>)
    ensures
        camera_result_matches(r, camera_spec(conf@)),
{
    let cam = match get_entry(conf, "camera") {
        Some(ConfigValue::Table(cam)) => cam,
        _ => return Err(ConfigError::CameraNotTable),
    };
    let fov = match get_entry(cam, "fov") {
        None => return Err(ConfigError::MissingFov),
        Some(ConfigValue::Integer(x)) => FovDegrees::Integer(*x),
        Some(ConfigValue::Float(x)) => FovDegrees::Float(copy_string(x)),
        Some(_) => return Err(ConfigError::FovNotNumber),
    };
    let view_str = match get_entry(cam, "view") {
        None => return Err(ConfigError::MissingView),
        Some(ConfigValue::String(v)) => v,
        Some(_) => return Err(ConfigError::ViewNotString),
    };
    match compile_commands(view_str.as_str()) {
        (view, None) => Ok(CameraConfig { fov, view }),
        (cmds, Some(e)) => Err(ConfigError::View(cmds, e)),
    }
}

fn copy_string(s: &String) -> (r: String)
    ensures
        r == *s,
{
    let r = s.clone();
    proof {
        assert(r@ == s@);
    }
    r
}

/// A configuration without a `camera` entry is rejected for its camera.
pub proof fn law_missing_camera_is_named(conf: Seq<(String, ConfigValue)>)
    requires
        find_entry(conf, "camera"@) is None,
    ensures
        camera_spec(conf) is CameraNotTable,
{
}

/// A camera whose `fov` is a string is rejected for its field of view.
pub proof fn law_string_fov_is_named(conf: Seq<(String, ConfigValue)>, cam: Vec<(String, ConfigValue)>, fov: String)
    requires
        find_entry(conf, "camera"@) == Some(ConfigValue::Table(cam)),
        find_entry(cam@, "fov"@) == Some(ConfigValue::String(fov)),
    ensures
        camera_spec(conf) is FovNotNumber,
{
}

} // verus!
