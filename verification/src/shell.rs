//! Expansion of a leading `~` in a path into the home directory.

use std::borrow::Cow;
use vstd::prelude::*;
use vstd::string::*;

verus! {

/// The home directory was needed and the variable that names it is not set.
#[derive(Debug)]
pub struct EnvironmentLookupError {
    /// The name of the variable that was looked up.
    pub variable: String,
}

/// Whether the first component of a path is exactly `~`: the path is `~`
/// itself or goes on with a `/` behind it.
pub open spec fn leads_with_tilde(path: Seq<char>) -> bool {
    path.len() >= 1 && path[0] == '~' && (path.len() == 1 || path[1] == '/')
}

/// Whether a path starts with something that names no component: a
/// separator, or a `.` that stands where a component would.
pub open spec fn starts_idle(path: Seq<char>) -> bool {
    path.len() >= 1 && (path[0] == '/' || (path[0] == '.' && (path.len() == 1 || path[1]
        == '/')))
}

/// A path from its first component on: without the separators and the `.`
/// that lead it.
pub open spec fn from_first_component(path: Seq<char>) -> Seq<char>
    decreases path.len(),
{
    if starts_idle(path) {
        from_first_component(path.skip(1))
    } else {
        path
    }
}

/// A path with its leading `~` replaced by `home`: `home` and behind it what
/// followed the `~`, as it was. Where `home` is empty there is nothing to
/// stand behind, and what followed the `~` stands alone from its first
/// component on, a relative path.
pub open spec fn tilde_expanded(path: Seq<char>, home: Seq<char>) -> Seq<char>
    recommends
        leads_with_tilde(path),
{
    if home.len() == 0 {
        from_first_component(path.skip(1))
    } else {
        home + path.skip(1)
    }
}

/// Decides `starts_idle` of what `path` holds from its character `from` on.
fn idle_at(path: &str, from: usize, len: usize) -> (idle: bool)
    requires
        len == path@.len(),
        from < len,
    ensures
        idle == starts_idle(path@.skip(from as int)),
{
    let first = path.get_char(from);
    if first == '/' {
        true
    } else if first == '.' {
        from + 1 == len || path.get_char(from + 1) == '/'
    } else {
        false
    }
}

/// Expands a leading `~` by the value of one environment variable.
pub struct ShellExpander {
    home_dir_var: String,
}

impl ShellExpander {
    /// The name of the variable that holds the home directory.
    pub closed spec fn variable(&self) -> Seq<char> {
        self.home_dir_var@
    }

    /// An expander that takes the home directory from the variable
    /// `home_dir_var`.
    pub fn new(home_dir_var: &str) -> (expander: ShellExpander)
        ensures
            expander.variable() == home_dir_var@,
    {
        ShellExpander { home_dir_var: String::from_str(home_dir_var) }
    }

    /// The name of the variable that holds the home directory.
    pub fn home_dir_var(&self) -> (name: &str)
        ensures
            name@ == self.variable(),
    {
        self.home_dir_var.as_str()
    }

    /// Expands `path`, given in `home` the value of the expander's variable
    /// (`None` where it is not set). A path whose first component is not `~`
    /// comes back as it was given, borrowed, whatever `home` is. One whose
    /// first component is `~` comes back as a new path with `home` in place
    /// of the `~`, and fails where the variable is not set. With an empty
    /// `home` the new path is what followed the `~`, from its first
    /// component on.
    pub fn tilde<'a>(&self, path: &'a str, home: Option<&str>) -> (expanded: Result<
        Cow<'a, str>,
        EnvironmentLookupError,
    >)
        ensures
            match expanded {
                Ok(Cow::Borrowed(same)) => !leads_with_tilde(path@) && same == path,
                Ok(Cow::Owned(new)) => leads_with_tilde(path@) && (home matches Some(home)
                    && new@ == tilde_expanded(path@, home@)),
                Err(error) => leads_with_tilde(path@) && home is None && error.variable@
                    == self.variable(),
            },
    {
        let n = path.unicode_len();
        if n == 0 || path.get_char(0) != '~' || (n > 1 && path.get_char(1) != '/') {
            return Ok(Cow::Borrowed(path));
        }
        match home {
            None => Err(EnvironmentLookupError { variable: self.home_dir_var.clone() }),
            Some(home) => {
                if home.is_empty() {
                    let mut from: usize = 1;
                    while from < n && idle_at(path, from, n)
                        invariant
                            1 <= from <= n,
                            n == path@.len(),
                            from_first_component(path@.skip(1)) == from_first_component(
                                path@.skip(from as int),
                            ),
                        decreases n - from,
                    {
                        assert(path@.skip(from as int).skip(1) =~= path@.skip(from + 1));
                        from = from + 1;
                    }
                    let rest = path.substring_char(from, n);
                    assert(rest@ =~= path@.skip(from as int));
                    Ok(Cow::Owned(String::from_str(rest)))
                } else {
                    let rest = path.substring_char(1, n);
                    let mut new = String::from_str(home);
                    new.append(rest);
                    assert(new@ =~= tilde_expanded(path@, home@));
                    Ok(Cow::Owned(new))
                }
            },
        }
    }
}

/// Something that expands paths. `Cow::Borrowed` says that the path needs no
/// expansion, `Cow::Owned` brings the path to use in its place.
pub trait PathExpander {
    /// What `expand` may give for a path. An expander that does not say
    /// may give anything.
    open spec fn may_give(
        &self,
        path: Seq<char>,
        outcome: Result<Cow<'_, str>, EnvironmentLookupError>,
    ) -> bool {
        true
    }

    fn expand<'a>(&self, path: &'a str) -> (outcome: Result<Cow<'a, str>, EnvironmentLookupError>)
        ensures
            self.may_give(path@, outcome),
    ;
}

/// A `ShellExpander` together with what its variable held when the
/// environment was read.
pub struct HomeExpander {
    pub expander: ShellExpander,
    pub home: Option<String>,
}

impl PathExpander for HomeExpander {
    open spec fn may_give(
        &self,
        path: Seq<char>,
        outcome: Result<Cow<'_, str>, EnvironmentLookupError>,
    ) -> bool {
        match outcome {
            Ok(Cow::Borrowed(same)) => !leads_with_tilde(path) && same@ == path,
            Ok(Cow::Owned(new)) => leads_with_tilde(path) && (self.home matches Some(home)
                && new@ == tilde_expanded(path, home@)),
            Err(error) => leads_with_tilde(path) && self.home is None && error.variable@
                == self.expander.variable(),
        }
    }

    fn expand<'a>(&self, path: &'a str) -> (outcome: Result<Cow<'a, str>, EnvironmentLookupError>) {
        match &self.home {
            Some(home) => self.expander.tilde(path, Some(home.as_str())),
            None => self.expander.tilde(path, None),
        }
    }
}

} // verus!
