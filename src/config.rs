use vstd::prelude::*;

verus! {

/// Where the configuration directory is taken from.
#[derive(Clone, Copy, Debug, PartialEq, Eq, Structural)]
pub enum ConfigDir {
    /// The application's own data directory variable, as it is.
    DataDir,
    /// `tuxsplit` under the XDG configuration home.
    XdgConfigHome,
    /// `.config/tuxsplit` under the home directory, created when missing.
    Home,
    /// The temporary directory.
    Temp,
}

/// Chooses the configuration directory from which variables are set: the
/// data directory first, then the XDG configuration home, then the home
/// directory, else the temporary directory.
pub fn config_dir_source(has_datadir: bool, has_xdg_config: bool, has_home: bool) -> (r: ConfigDir)
    ensures
        r == if has_datadir {
            ConfigDir::DataDir
        } else if has_xdg_config {
            ConfigDir::XdgConfigHome
        } else if has_home {
            ConfigDir::Home
        } else {
            ConfigDir::Temp
        },
{
    if has_datadir {
        ConfigDir::DataDir
    } else if has_xdg_config {
        ConfigDir::XdgConfigHome
    } else if has_home {
        ConfigDir::Home
    } else {
        ConfigDir::Temp
    }
}

} // verus!
