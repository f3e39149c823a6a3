//! YAML configuration files, one per component.
//!
//! Files live under `$XDG_CONFIG_HOME/shell/`, falling back to
//! `~/.config/shell/`. A component names its file through [`File`]. When the
//! file does not exist it is written from the defaults so there is something to
//! edit; when it exists but lacks keys, those are appended with their defaults
//! ([`crate::extend::extend`]), so every option is visible in the file without
//! disturbing what the user wrote. Reading and writing the file is the caller's.

use vstd::prelude::*;
use vstd::string::StringExecFns;

use crate::hypr::join;

verus! {

/// Directory under the XDG config home.
pub const DIR: &'static str = "shell";

/// Why the configuration directory is unknown.
#[derive(Clone, Debug, PartialEq, Eq)]
pub enum PathError {
    /// Neither `$XDG_CONFIG_HOME` nor `$HOME` is set.
    HomeNotSet,
}

/// The configuration home: `$XDG_CONFIG_HOME` when it is set and non-empty, else
/// `$HOME/.config`.
pub open spec fn config_home_spec(xdg_config_home: Option<Seq<char>>, home: Option<Seq<char>>) -> Option<
    Seq<char>,
> {
    match xdg_config_home {
        Some(dir) if dir.len() > 0 => Some(dir),
        _ => match home {
            Some(h) => Some(crate::hypr::join_path(h, ".config"@)),
            None => None,
        },
    }
}

/// `<config home>/shell/<name>.yaml`.
pub open spec fn path_spec(
    xdg_config_home: Option<Seq<char>>,
    home: Option<Seq<char>>,
    name: Seq<char>,
) -> Option<Seq<char>> {
    match config_home_spec(xdg_config_home, home) {
        Some(base) => Some(
            crate::hypr::join_path(crate::hypr::join_path(base, DIR@), name + ".yaml"@),
        ),
        None => None,
    }
}

pub open spec fn opt_view(o: Option<&str>) -> Option<Seq<char>> {
    match o {
        Some(s) => Some(s@),
        None => None,
    }
}

/// The file named `name`, given the values of `$XDG_CONFIG_HOME` and `$HOME`.
pub fn path(xdg_config_home: Option<&str>, home: Option<&str>, name: &str) -> (r: Result<
    String,
    PathError,
>)
    ensures
        match r {
            Ok(p) => path_spec(opt_view(xdg_config_home), opt_view(home), name@) == Some(p@),
            Err(_) => path_spec(opt_view(xdg_config_home), opt_view(home), name@) is None,
        },
{
    let base = match xdg_config_home {
        Some(dir) if !dir.is_empty() => dir.to_owned(),
        _ => match home {
            Some(h) => join(h, ".config"),
            None => return Err(PathError::HomeNotSet),
        },
    };
    let mut file = name.to_owned();
    file.append(".yaml");
    Ok(join(join(base.as_str(), DIR).as_str(), file.as_str()))
}

/// A component's configuration file.
pub trait File {
    /// File name without the `.yaml` extension.
    const NAME: &'static str;

    /// Where the file is, given the values of `$XDG_CONFIG_HOME` and `$HOME`.
    fn path(xdg_config_home: Option<&str>, home: Option<&str>) -> (r: Result<String, PathError>)
        ensures
            match r {
                Ok(p) => path_spec(opt_view(xdg_config_home), opt_view(home), Self::NAME@) == Some(p@),
                Err(_) => path_spec(opt_view(xdg_config_home), opt_view(home), Self::NAME@) is None,
            },
    {
        path(xdg_config_home, home, Self::NAME)
    }
}


/// A file's path ends with `shell/<name>.yaml`, whatever the configuration home, when
/// the name is not an absolute path.
pub proof fn law_path_ends_with_dir_and_name(
    xdg_config_home: Option<Seq<char>>,
    home: Option<Seq<char>>,
    name: Seq<char>,
)
    requires
        !(name.len() > 0 && name[0] == '/'),
    ensures
        path_spec(xdg_config_home, home, name) matches Some(p) ==> {
            let suffix = DIR@ + seq!['/'] + name + ".yaml"@;
            &&& suffix.len() <= p.len()
            &&& p.skip(p.len() - suffix.len()) == suffix
        },
{
    reveal_strlit("shell");
    reveal_strlit(".yaml");
    if let Some(base) = config_home_spec(xdg_config_home, home) {
        let dir = crate::hypr::join_path(base, DIR@);
        let file = name + ".yaml"@;
        assert(DIR@ =~= seq!['s', 'h', 'e', 'l', 'l']);
        assert(dir.len() >= 5 && dir.skip(dir.len() - 5) =~= DIR@) by {
            if base.len() == 0 || base.last() == '/' {
                assert(dir =~= base + DIR@);
            } else {
                assert(dir =~= base + seq!['/'] + DIR@);
            }
        }
        assert(dir.last() == 'l');
        assert(file[0] != '/') by {
            if name.len() == 0 {
                assert(file[0] == '.');
            }
        }
        let p = crate::hypr::join_path(dir, file);
        assert(p =~= dir + seq!['/'] + file);
        let suffix = DIR@ + seq!['/'] + name + ".yaml"@;
        assert(p.skip(p.len() - suffix.len()) =~= suffix);
    }
}
} // verus!
