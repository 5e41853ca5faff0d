//! The directories of the platform.

use crate::os_path;
use crate::os_path::OsPath;
use vstd::prelude::*;

verus! {

/// Directories that the platform assigns to an application.
#[derive(Debug, Clone, PartialEq, Eq)]
pub struct HostDirs {
    /// The qualifier that they were asked for.
    pub qualifier: String,
    /// The organization that they were asked for.
    pub organization: String,
    /// The application that they were asked for.
    pub application: String,
    pub config_dir: OsPath,
    pub data_dir: OsPath,
    pub cache_dir: OsPath,
    /// Directory for state; not every platform has one.
    pub state_dir: Option<OsPath>,
}

/// [`HostDirs`] as a mathematical value.
pub struct HostView {
    /// The qualifier, organization and application.
    pub asked: (Seq<char>, Seq<char>, Seq<char>),
    pub config_dir: Seq<u8>,
    pub data_dir: Seq<u8>,
    pub cache_dir: Seq<u8>,
    pub state_dir: Option<Seq<u8>>,
}

impl View for HostDirs {
    type V = HostView;

    open spec fn view(&self) -> HostView {
        HostView {
            asked: (self.qualifier@, self.organization@, self.application@),
            config_dir: self.config_dir@,
            data_dir: self.data_dir@,
            cache_dir: self.cache_dir@,
            state_dir: os_path::opt_path(self.state_dir),
        }
    }
}

/// Wraps `directories::ProjectDirs::from`. Which directories it gives depends on the environment
/// as well as on the three texts, which are kept with them. `None` where the platform assigns no
/// directories.
#[verifier::external_body]
fn project_dirs(qualifier: &str, organization: &str, application: &str) -> (r: Option<HostDirs>)
    ensures
        r matches Some(d) ==> d@.asked == (qualifier@, organization@, application@),
{
    let dirs = directories::ProjectDirs::from(qualifier, organization, application)?;
    Some(HostDirs {
        qualifier: qualifier.to_string(),
        organization: organization.to_string(),
        application: application.to_string(),
        config_dir: OsPath { bytes: dirs.config_dir().as_os_str().as_encoded_bytes().to_vec() },
        data_dir: OsPath { bytes: dirs.data_dir().as_os_str().as_encoded_bytes().to_vec() },
        cache_dir: OsPath { bytes: dirs.cache_dir().as_os_str().as_encoded_bytes().to_vec() },
        state_dir: dirs.state_dir().map(
            |d| OsPath { bytes: d.as_os_str().as_encoded_bytes().to_vec() },
        ),
    })
}

/// Wraps `dirs::home_dir`, which depends on the environment. `None` where there is none.
#[verifier::external_body]
pub(crate) fn home_dir() -> (r: Option<OsPath>) {
    dirs::home_dir().map(|p| OsPath { bytes: p.as_os_str().as_encoded_bytes().to_vec() })
}

/// The paths of an installation.
#[derive(Debug, Clone, PartialEq, Eq)]
pub struct PlatformPaths {
    pub config_file: OsPath,
    /// Directory of indexes, databases, lock and socket.
    pub data_dir: OsPath,
    pub models_dir: OsPath,
    pub logs_dir: OsPath,
}

/// The paths of an installation as a mathematical value.
#[verifier::ext_equal]
pub struct PathsView {
    pub config_file: Seq<u8>,
    pub data_dir: Seq<u8>,
    pub models_dir: Seq<u8>,
    pub logs_dir: Seq<u8>,
}

impl View for PlatformPaths {
    type V = PathsView;

    open spec fn view(&self) -> PathsView {
        PathsView {
            config_file: self.config_file@,
            data_dir: self.data_dir@,
            models_dir: self.models_dir@,
            logs_dir: self.logs_dir@,
        }
    }
}

/// Whether directories are assigned as on macOS: the only platform with one directory for both
/// configuration and data, and none for state.
pub open spec fn as_on_macos(d: HostView) -> bool {
    d.state_dir is None && d.config_dir == d.data_dir
}

/// The paths within the platform's directories. On macOS data has a directory of its own, and
/// logs go to the user's library; elsewhere logs go with the state, or else with the data.
pub open spec fn paths_within(
    d: HostView,
    home: Option<Seq<u8>>,
    macos: bool,
    application: Seq<char>,
) -> Option<PathsView> {
    let logs_dir = if macos {
        match home {
            Some(home) => Some(
                os_path::path_join(
                    os_path::path_join(os_path::path_join(home, "Library"@), "Logs"@),
                    application,
                ),
            ),
            None => None,
        }
    } else {
        match d.state_dir {
            Some(state) => Some(os_path::path_join(state, "logs"@)),
            None => Some(os_path::path_join(d.data_dir, "logs"@)),
        }
    };
    match logs_dir {
        Some(logs_dir) => Some(
            PathsView {
                config_file: os_path::path_join(d.config_dir, "config.yaml"@),
                data_dir: if macos {
                    os_path::path_join(d.data_dir, "data"@)
                } else {
                    d.data_dir
                },
                models_dir: os_path::path_join(d.cache_dir, "models"@),
                logs_dir,
            },
        ),
        None => None,
    }
}

impl PlatformPaths {
    /// The platform's paths; `None` without a home directory.
    pub fn resolve() -> (r: Option<Self>)
        ensures
            r matches Some(p) ==> exists|d: HostView, home: Option<Seq<u8>>|
                d.asked == (""@, ""@, "localdb"@) && #[trigger] paths_within(
                    d,
                    home,
                    as_on_macos(d),
                    "localdb"@,
                ) == Some(p@),
    {
        Self::resolve_with_qualifier("", "", "localdb")
    }

    /// The platform's paths for an application.
    pub fn resolve_with_qualifier(qualifier: &str, organization: &str, application: &str) -> (r:
        Option<Self>)
        ensures
            r matches Some(p) ==> exists|d: HostView, home: Option<Seq<u8>>|
                d.asked == (qualifier@, organization@, application@) && #[trigger] paths_within(
                    d,
                    home,
                    as_on_macos(d),
                    application@,
                ) == Some(p@),
    {
        let dirs = project_dirs(qualifier, organization, application);
        let home = home_dir();
        Self::from_host(&dirs, &home, application)
    }

    /// The paths within what the platform assigned, by its own conventions; `None` where it
    /// assigned nothing.
    pub fn from_host(dirs: &Option<HostDirs>, home: &Option<OsPath>, application: &str) -> (r: Option<
        Self,
    >)
        ensures
            match dirs {
                Some(d) => match paths_within(
                    d@,
                    os_path::opt_path(*home),
                    as_on_macos(d@),
                    application@,
                ) {
                    Some(p) => r is Some && r->0@ == p,
                    None => r is None,
                },
                None => r is None,
            },
    {
        match dirs {
            Some(dirs) => {
                let macos = dirs.state_dir.is_none() && dirs.config_dir.same_as(
                    &dirs.data_dir,
                );
                Self::within(dirs, home, macos, application)
            },
            None => None,
        }
    }

    /// The paths within the platform's directories.
    pub fn within(dirs: &HostDirs, home: &Option<OsPath>, macos: bool, application: &str) -> (r: Option<
        Self,
    >)
        ensures
            match paths_within(dirs@, os_path::opt_path(*home), macos, application@) {
                Some(p) => r is Some && r->0@ == p,
                None => r is None,
            },
    {
        let config_file = dirs.config_dir.join("config.yaml");
        let data_dir = if macos {
            dirs.data_dir.join("data")
        } else {
            dirs.data_dir.copied()
        };
        let models_dir = dirs.cache_dir.join("models");
        let logs_dir = if macos {
            match home {
                Some(home) => home.join("Library").join("Logs").join(application),
                None => return None,
            }
        } else {
            match &dirs.state_dir {
                Some(state) => state.join("logs"),
                None => dirs.data_dir.join("logs"),
            }
        };
        Some(PlatformPaths { config_file, data_dir, models_dir, logs_dir })
    }

    /// The daemon's socket.
    pub fn socket_path(&self) -> (r: OsPath)
        ensures
            r@ == os_path::path_join(self.data_dir@, "daemon.sock"@),
    {
        self.data_dir.join("daemon.sock")
    }

    /// The lock that writers hold.
    pub fn write_lock_path(&self) -> (r: OsPath)
        ensures
            r@ == os_path::path_join(self.data_dir@, ".write.lock"@),
    {
        self.data_dir.join(".write.lock")
    }

    /// The database of what was configured at run time.
    pub fn runtime_state_db_path(&self) -> (r: OsPath)
        ensures
            r@ == os_path::path_join(self.data_dir@, "runtime-state.db"@),
    {
        self.data_dir.join("runtime-state.db")
    }

    /// The database that holds everything in one file.
    pub fn unified_db_path(&self) -> (r: OsPath)
        ensures
            r@ == os_path::path_join(self.data_dir@, "localdb.db"@),
    {
        self.data_dir.join("localdb.db")
    }
}

} // verus!
