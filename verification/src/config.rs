//! The configuration: where the data lies, and the expansion of its paths.

use crate::shell::{
    leads_with_tilde, tilde_expanded, EnvironmentLookupError, HomeExpander, PathExpander,
};
use std::borrow::Cow;
use vstd::prelude::*;
use vstd::string::*;

verus! {

/// The data directory that is used where the configuration names none.
pub fn data_dir() -> (path: String)
    ensures
        path@ == "~/.local/share/muse"@,
{
    String::from_str("~/.local/share/muse")
}

/// The file of the weight log that is used where the configuration names
/// none.
pub fn weight_csv_file() -> (path: String)
    ensures
        path@ == "weight.csv"@,
{
    String::from_str("weight.csv")
}

/// The paths of the configuration.
#[derive(Debug)]
pub struct Config {
    pub data_dir: String,
    pub weight_csv_file: String,
}

/// The path that a field holds after an expansion: the new path where the
/// expansion brought one, the path that it held where it brought none.
pub open spec fn path_after(current: Seq<char>, outcome: Cow<'_, str>) -> Seq<char> {
    match outcome {
        Cow::Owned(new) => new@,
        Cow::Borrowed(_) => current,
    }
}

/// Whether `expanded` is what comes of expanding the paths of `config` by
/// `expander`: the data directory is expanded first, then the file of the
/// weight log; a field holds a new path only where the expander brought one;
/// the first failure of the expander is the failure of the whole.
pub open spec fn expands_to<E: PathExpander>(
    config: Config,
    expander: &E,
    expanded: Result<Config, EnvironmentLookupError>,
) -> bool {
    exists|first: Result<Cow<'_, str>, EnvironmentLookupError>|
        #![auto]
        expander.may_give(config.data_dir@, first) && match first {
            Err(error) => expanded == Err::<Config, _>(error),
            Ok(first) => exists|second: Result<Cow<'_, str>, EnvironmentLookupError>|
                #![auto]
                expander.may_give(config.weight_csv_file@, second) && match second {
                    Err(error) => expanded == Err::<Config, _>(error),
                    Ok(second) => expanded matches Ok(after) && after.data_dir@ == path_after(
                        config.data_dir@,
                        first,
                    ) && after.weight_csv_file@ == path_after(config.weight_csv_file@, second),
                },
        }
}

impl Config {
    /// Expands the data directory, then the file of the weight log. Each
    /// field is replaced only where the expander brings a new path; the first
    /// failure of the expander is handed on and nothing is expanded after it.
    pub fn expand_paths<E: PathExpander>(self, expander: &E) -> (expanded: Result<
        Config,
        EnvironmentLookupError,
    >)
        ensures
            expands_to(self, expander, expanded),
    {
        let Config { data_dir, weight_csv_file } = self;
        let first = expander.expand(data_dir.as_str());
        let ghost first_seen = first;
        let new_data_dir = match first {
            Err(error) => {
                return Err(error);
            },
            Ok(Cow::Owned(new)) => Some(new),
            Ok(Cow::Borrowed(_)) => None,
        };
        let second = expander.expand(weight_csv_file.as_str());
        let ghost second_seen = second;
        let new_weight_csv_file = match second {
            Err(error) => {
                return Err(error);
            },
            Ok(Cow::Owned(new)) => Some(new),
            Ok(Cow::Borrowed(_)) => None,
        };
        let config = Config {
            data_dir: match new_data_dir {
                Some(new) => new,
                None => data_dir,
            },
            weight_csv_file: match new_weight_csv_file {
                Some(new) => new,
                None => weight_csv_file,
            },
        };
        assert(expander.may_give(self.weight_csv_file@, second_seen));
        assert(expander.may_give(self.data_dir@, first_seen));
        Ok(config)
    }
}

impl Default for Config {
    fn default() -> (config: Config)
        ensures
            config.data_dir@ == "~/.local/share/muse"@,
            config.weight_csv_file@ == "weight.csv"@,
    {
        Config { data_dir: data_dir(), weight_csv_file: weight_csv_file() }
    }
}

/// Paths that do not start with `~` are left as they are, and the expansion
/// succeeds, whether the home directory is known or not.
pub proof fn law_paths_without_tilde_stay(
    config: Config,
    expander: HomeExpander,
    expanded: Result<Config, EnvironmentLookupError>,
)
    requires
        expands_to(config, &expander, expanded),
        !leads_with_tilde(config.data_dir@),
        !leads_with_tilde(config.weight_csv_file@),
    ensures
        expanded matches Ok(after) && after.data_dir@ == config.data_dir@
            && after.weight_csv_file@ == config.weight_csv_file@,
{
}

/// With the home directory known, the expansion succeeds, and each path that
/// starts with `~` has the home directory in its place.
pub proof fn law_paths_with_tilde_are_expanded(
    config: Config,
    expander: HomeExpander,
    expanded: Result<Config, EnvironmentLookupError>,
)
    requires
        expands_to(config, &expander, expanded),
        expander.home is Some,
    ensures
        expanded matches Ok(after) && after.data_dir@ == (if leads_with_tilde(config.data_dir@) {
            tilde_expanded(config.data_dir@, expander.home->0@)
        } else {
            config.data_dir@
        }) && after.weight_csv_file@ == (if leads_with_tilde(config.weight_csv_file@) {
            tilde_expanded(config.weight_csv_file@, expander.home->0@)
        } else {
            config.weight_csv_file@
        }),
{
}

/// With the home directory unknown, the expansion fails exactly where one of
/// the paths starts with `~`.
pub proof fn law_unknown_home_fails_on_tilde(
    config: Config,
    expander: HomeExpander,
    expanded: Result<Config, EnvironmentLookupError>,
)
    requires
        expands_to(config, &expander, expanded),
        expander.home is None,
    ensures
        expanded is Err <==> leads_with_tilde(config.data_dir@) || leads_with_tilde(
            config.weight_csv_file@,
        ),
{
}

} // verus!
