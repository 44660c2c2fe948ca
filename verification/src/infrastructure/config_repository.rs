//! Where the settings file lies.

use vstd::prelude::*;
use crate::domain::models::text_of;
use crate::path::{join_path, joined_path};

verus! {

/// The place of the settings file: below a directory chosen by the caller, or below the
/// directory that the platform gives to the program's settings.
pub struct ConfigRepository {
    base_path: Option<String>,
}

/// The path of the settings file: `config.toml` in the chosen directory if there is one, else
/// in the platform's; nowhere if there is neither.
pub open spec fn config_path_of(chosen: Option<Seq<char>>, platform: Option<Seq<char>>) -> Option<
    Seq<char>,
> {
    match chosen {
        Some(dir) => Some(joined_path(dir, "config.toml"@)),
        None => match platform {
            Some(dir) => Some(joined_path(dir, "config.toml"@)),
            None => None,
        },
    }
}

/// The reverse domain under which the platform files the program.
pub const QUALIFIER: &'static str = "com";

/// The organization under which the platform files the program.
pub const ORGANIZATION: &'static str = "swiftxp";

/// The name under which the platform files the program.
pub const APPLICATION: &'static str = "ananicy-rule-o-matic";

/// Asks `directories::ProjectDirs` for the directory that the platform gives to the settings
/// of the program so named. Nothing is claimed of the answer: it depends on the environment
/// in which the program runs.
#[verifier::external_body]
pub(crate) fn platform_config_dir(qualifier: &str, organization: &str, application: &str) -> (dir:
    Option<String>) {
    directories::ProjectDirs::from(qualifier, organization, application).map(
        |dirs| dirs.config_dir().to_string_lossy().into_owned(),
    )
}

impl ConfigRepository {
    /// The directory chosen by the caller, if any.
    pub closed spec fn chosen_dir(&self) -> Option<Seq<char>> {
        text_of(self.base_path)
    }

    /// A repository that keeps the settings where the platform wants them.
    pub fn new() -> (repository: Self)
        ensures
            repository.chosen_dir() is None,
    {
        ConfigRepository { base_path: None }
    }

    /// A repository that keeps the settings in `base_path`.
    pub fn new_with_base_path(base_path: String) -> (repository: Self)
        ensures
            repository.chosen_dir() == Some(base_path@),
    {
        ConfigRepository { base_path: Some(base_path) }
    }

    /// The path of the settings file on this machine: see [`config_path_of`], with the
    /// directory that the platform has for the settings of the program filed under
    /// [`QUALIFIER`], [`ORGANIZATION`] and [`APPLICATION`].
    pub fn get_config_path(&self) -> (path: Option<String>)
        ensures
            exists|platform: Option<Seq<char>>|
                text_of(path) == #[trigger] config_path_of(self.chosen_dir(), platform),
    {
        let platform_dir = platform_config_dir(QUALIFIER, ORGANIZATION, APPLICATION);
        let path = self.config_path_in(platform_dir);
        assert(text_of(path) == config_path_of(self.chosen_dir(), text_of(platform_dir)));
        path
    }

    /// The path of the settings file, given the directory that the platform has for the
    /// program's settings: see [`config_path_of`].
    pub fn config_path_in(&self, platform_dir: Option<String>) -> (path: Option<String>)
        ensures
            text_of(path) == config_path_of(self.chosen_dir(), text_of(platform_dir)),
    {
        match &self.base_path {
            Some(dir) => Some(join_path(dir.as_str(), "config.toml")),
            None => match &platform_dir {
                Some(dir) => Some(join_path(dir.as_str(), "config.toml")),
                None => None,
            },
        }
    }
}

} // verus!
