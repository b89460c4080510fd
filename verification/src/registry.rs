//! The path registry: the single holder of the current configuration file
//! path. It starts unset, and a set resolves the raw path against the
//! working directory before storing it.

use vstd::prelude::*;

use crate::errors::ConfigError;
use crate::text::{trim_spec, trim_str};

verus! {

/// Whether a path, as text, is absolute.
pub open spec fn is_absolute_spec(p: Seq<char>) -> bool {
    p.len() > 0 && p[0] == '/'
}

/// Joining a relative path onto a base directory, as text: a separator is
/// put between them unless the base already ends with one.
pub open spec fn join_path_spec(base: Seq<char>, rel: Seq<char>) -> Seq<char> {
    if base.len() > 0 && base.last() == '/' {
        base + rel
    } else {
        base + seq!['/'] + rel
    }
}

/// What a set stores for a trimmed, non-empty raw path: the path itself if
/// absolute, else the path joined onto the working directory, with `.`
/// standing in when no working directory could be determined.
pub open spec fn resolve_path_spec(trimmed: Seq<char>, cwd: Option<Seq<char>>) -> Seq<char> {
    if is_absolute_spec(trimmed) {
        trimmed
    } else {
        join_path_spec(
            match cwd {
                Some(c) => c,
                None => seq!['.'],
            },
            trimmed,
        )
    }
}

/// The single-slot holder of the current configuration file path; unset
/// until the first successful set.
#[derive(Debug)]
pub struct PathRegistry {
    pub path: Option<String>,
}

impl View for PathRegistry {
    type V = Option<Seq<char>>;

    open spec fn view(&self) -> Option<Seq<char>> {
        match self.path {
            Some(p) => Some(p@),
            None => None,
        }
    }
}

impl PathRegistry {
    /// A registry with no path configured.
    pub fn new() -> (r: Self)
        ensures
            r@ is None,
    {
        PathRegistry { path: None }
    }

    /// The stored path, or the empty string while the registry is unset.
    pub fn get_path(&self) -> (r: String)
        ensures
            r@ == match self@ {
                Some(p) => p,
                None => Seq::<char>::empty(),
            },
    {
        match &self.path {
            Some(p) => p.clone(),
            None => String::new(),
        }
    }

    /// The stored path, or `NoPathConfigured` while the registry is unset.
    pub fn require_path(&self) -> (r: Result<String, ConfigError>)
        ensures
            match r {
                Ok(p) => self@ == Some(p@),
                Err(e) => self@ is None && e is NoPathConfigured,
            },
    {
        match &self.path {
            Some(p) => Ok(p.clone()),
            None => Err(ConfigError::NoPathConfigured),
        }
    }

    /// Stores the resolved form of a raw path and returns it. A path that is
    /// empty after trimming is rejected with `InvalidArgument` and the
    /// registry keeps its prior value; a relative path is resolved against
    /// the given working directory. Overwrites any previously stored path.
    pub fn set_path(&mut self, raw: &str, cwd: Option<&str>) -> (r: Result<String, ConfigError>)
        ensures
            ({
                let t = trim_spec(raw@);
                let c = match cwd {
                    Some(s) => Some(s@),
                    None => None,
                };
                match r {
                    Ok(p) => t.len() > 0 && p@ == resolve_path_spec(t, c) && final (self)@ == Some(
                        p@,
                    ),
                    Err(e) => t.len() == 0 && e is InvalidArgument && final (self)@ == old(self)@,
                }
            }),
    {
        let trimmed = trim_str(raw);
        if trimmed.as_str().is_empty() {
            return Err(ConfigError::InvalidArgument);
        }
        let resolved: String = if trimmed.as_str().get_char(0) == '/' {
            trimmed
        } else {
            let base: String = match cwd {
                Some(c) => String::from_str(c),
                None => String::from_str("."),
            };
            proof {
                reveal_strlit(".");
                reveal_strlit("/");
            }
            let base_len = base.as_str().unicode_len();
            if base_len > 0 && base.as_str().get_char(base_len - 1) == '/' {
                base.concat(trimmed.as_str())
            } else {
                base.concat("/").concat(trimmed.as_str())
            }
        };
        self.path = Some(resolved.clone());
        Ok(resolved)
    }
}

} // verus!
