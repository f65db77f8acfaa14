//! The command line and the stored configuration.
use crate::backend::FsPath;
use vstd::prelude::*;

verus! {

/// The command line.
pub struct Opts {
    pub subcmd: Option<SubCommand>,
}

/// What the program is asked to do.
pub enum SubCommand {
    /// Creates a new database in the current working directory.
    Init { path: Option<FsPath> },
    /// Updates file explorer context menus.
    Contextual { subcmd: ContextualSubCommand },
    /// Runs the gui in the local directory.
    Gui,
    /// Resets the configuration to the default values.
    ResetConfig,
    /// Looks for a newer release.
    Update,
}

/// What to do with the file explorer's context menus.
#[derive(PartialEq, Eq, Clone, Copy, Structural)]
pub enum ContextualSubCommand {
    /// Installs context menu handlers to the local file explorer.
    Install,
    /// Removes context menu handlers from the local file explorer.
    Remove,
}

/// The stored configuration: the database directories known so far.
pub struct Config {
    pub data_dirs: Vec<FsPath>,
}

impl Default for Config {
    /// No database directory known.
    fn default() -> (c: Config)
        ensures
            c.data_dirs@ == Seq::<FsPath>::empty(),
    {
        Config { data_dirs: Vec::new() }
    }
}

/// The command a file explorer's context menu entry runs: the program in
/// double quotes, a space, and its arguments.
pub open spec fn context_command_of(program: Seq<char>, arguments: Seq<char>) -> Seq<char> {
    seq!['"'] + program + seq!['"', ' '] + arguments
}

/// The command a file explorer's context menu entry runs.
pub fn context_command(program: &str, arguments: &str) -> (c: String)
    ensures
        c@ == context_command_of(program@, arguments@),
{
    let mut c = String::from_str("\"");
    c.append(program);
    c.append("\" ");
    c.append(arguments);
    proof {
        reveal_strlit("\"");
        reveal_strlit("\" ");
    }
    assert(c@ =~= context_command_of(program@, arguments@));
    c
}

/// The name of the configuration file, inside the configuration directory.
pub open spec fn config_file_name() -> Seq<char> {
    "config.toml"@
}

/// The configuration directory of the application, as the operating system
/// places it for this user; `None` where no home directory can be found.
///
/// Calls `directories::ProjectDirs::from` and then `config_dir`.  The
/// directory depends on the platform and the environment, so nothing is
/// stated of it.
#[verifier::external_body]
fn project_config_dir(qualifier: &str, organization: &str, application: &str) -> (dir: Option<
    FsPath,
>) {
    match directories::ProjectDirs::from(qualifier, organization, application) {
        Some(dirs) => Some(
            FsPath {
                parts: dirs.config_dir().components().map(
                    |c| c.as_os_str().to_string_lossy().into_owned(),
                ).collect(),
            },
        ),
        None => None,
    }
}

/// The configuration file inside configuration directory `dir`.
pub fn config_file_in(dir: FsPath) -> (file: FsPath)
    ensures
        file.names() == dir.names().push(config_file_name()),
{
    let mut file = dir;
    file.push("config.toml");
    file
}

/// The names under which the operating system keeps the application's
/// files: qualifier, organization and application.
pub fn project_names() -> (names: (String, String, String))
    ensures
        names.0@ == "com"@,
        names.1@ == "aos-studios"@,
        names.2@ == "ArtOrganize"@,
{
    (String::from_str("com"), String::from_str("aos-studios"), String::from_str("ArtOrganize"))
}

/// The configuration file of the application, if the system has a place for
/// it: the configuration directory for the names of [`project_names`], with
/// the file name [`config_file_name`] added.
pub fn get_file() -> (file: Option<FsPath>)
    ensures
        file matches Some(f) ==> f.names().len() >= 1 && f.names().last() == config_file_name(),
{
    let (qualifier, organization, application) = project_names();
    match project_config_dir(qualifier.as_str(), organization.as_str(), application.as_str()) {
        Some(dir) => Some(config_file_in(dir)),
        None => None,
    }
}

} // verus!
