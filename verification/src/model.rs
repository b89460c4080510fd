//! The persisted data model: a document of named database-connection
//! profiles, and the normalization applied to an entry before it is stored.

use vstd::prelude::*;

use crate::text::{
    is_false_ci, is_true_ci, matches_false_ci, matches_true_ci, str_to_char_vec, trim_spec,
    trim_str,
};

verus! {

/// Optional per-entry query hints; each field is independently absent.
#[derive(Debug, Default, PartialEq)]
pub struct OptimizationSettings {
    pub auto_to_lower: Option<String>,
    pub enable_i_like: Option<String>,
    pub identity_strategy: Option<String>,
}

/// One named database-connection profile.
#[derive(Debug, PartialEq)]
pub struct DatabaseEntry {
    pub name: String,
    pub connection_string: String,
    pub db_type: String,
    pub description: Option<String>,
    pub is_default: Option<bool>,
    pub optimization_settings: Option<OptimizationSettings>,
}

/// The root persisted entity: the ordered entries of one configuration file.
#[derive(Debug, PartialEq)]
pub struct DatabaseFile {
    pub databases: Vec<DatabaseEntry>,
}

fn clone_opt_string(o: &Option<String>) -> (r: Option<String>)
    ensures
        opt_str_view(r) == opt_str_view(*o),
{
    match o {
        Some(s) => Some(s.clone()),
        None => None,
    }
}

impl Clone for OptimizationSettings {
    /// A copy with the same value.
    fn clone(&self) -> (r: Self)
        ensures
            r@ == self@,
    {
        OptimizationSettings {
            auto_to_lower: clone_opt_string(&self.auto_to_lower),
            enable_i_like: clone_opt_string(&self.enable_i_like),
            identity_strategy: clone_opt_string(&self.identity_strategy),
        }
    }
}

impl Clone for DatabaseEntry {
    /// A copy with the same value.
    fn clone(&self) -> (r: Self)
        ensures
            r@ == self@,
    {
        DatabaseEntry {
            name: self.name.clone(),
            connection_string: self.connection_string.clone(),
            db_type: self.db_type.clone(),
            description: clone_opt_string(&self.description),
            is_default: self.is_default,
            optimization_settings: match &self.optimization_settings {
                Some(o) => Some(o.clone()),
                None => None,
            },
        }
    }
}

impl Clone for DatabaseFile {
    /// A copy with the same value.
    fn clone(&self) -> (r: Self)
        ensures
            r@ == self@,
    {
        let mut databases: Vec<DatabaseEntry> = Vec::new();
        let mut i: usize = 0;
        while i < self.databases.len()
            invariant
                0 <= i <= self.databases.len(),
                databases@.len() == i,
                forall|j: int| 0 <= j < i ==> databases@[j]@ == self.databases[j]@,
            decreases self.databases.len() - i,
        {
            databases.push(self.databases[i].clone());
            i = i + 1;
        }
        let r = DatabaseFile { databases };
        proof {
            assert(r@ =~= self@);
        }
        r
    }
}

/// The mathematical value of an `OptimizationSettings`.
pub ghost struct OptView {
    pub auto_to_lower: Option<Seq<char>>,
    pub enable_i_like: Option<Seq<char>>,
    pub identity_strategy: Option<Seq<char>>,
}

/// The mathematical value of a `DatabaseEntry`.
pub ghost struct EntryView {
    pub name: Seq<char>,
    pub connection_string: Seq<char>,
    pub db_type: Seq<char>,
    pub description: Option<Seq<char>>,
    pub is_default: Option<bool>,
    pub optimization_settings: Option<OptView>,
}

pub open spec fn opt_str_view(o: Option<String>) -> Option<Seq<char>> {
    match o {
        Some(s) => Some(s@),
        None => None,
    }
}

impl View for OptimizationSettings {
    type V = OptView;

    open spec fn view(&self) -> OptView {
        OptView {
            auto_to_lower: opt_str_view(self.auto_to_lower),
            enable_i_like: opt_str_view(self.enable_i_like),
            identity_strategy: opt_str_view(self.identity_strategy),
        }
    }
}

impl View for DatabaseEntry {
    type V = EntryView;

    open spec fn view(&self) -> EntryView {
        EntryView {
            name: self.name@,
            connection_string: self.connection_string@,
            db_type: self.db_type@,
            description: opt_str_view(self.description),
            is_default: self.is_default,
            optimization_settings: match self.optimization_settings {
                Some(o) => Some(o@),
                None => None,
            },
        }
    }
}

impl View for DatabaseFile {
    type V = Seq<EntryView>;

    open spec fn view(&self) -> Seq<EntryView> {
        Seq::new(self.databases.len() as nat, |i: int| self.databases[i]@)
    }
}

/// What normalization does to a boolean-spelling hint: a case-insensitive
/// `true` or `false` becomes the lower-case literal, anything else is trimmed.
pub open spec fn normalize_bool_spec(s: Seq<char>) -> Seq<char> {
    if matches_true_ci(s) {
        seq!['t', 'r', 'u', 'e']
    } else if matches_false_ci(s) {
        seq!['f', 'a', 'l', 's', 'e']
    } else {
        trim_spec(s)
    }
}

/// What normalization does to the optional settings: the boolean hints are
/// normalized, and the identity strategy is trimmed and dropped when the
/// trimming leaves it empty.
pub open spec fn normalize_opt_spec(o: OptView) -> OptView {
    OptView {
        auto_to_lower: match o.auto_to_lower {
            Some(s) => Some(normalize_bool_spec(s)),
            None => None,
        },
        enable_i_like: match o.enable_i_like {
            Some(s) => Some(normalize_bool_spec(s)),
            None => None,
        },
        identity_strategy: match o.identity_strategy {
            Some(s) => if trim_spec(s).len() == 0 {
                None
            } else {
                Some(trim_spec(s))
            },
            None => None,
        },
    }
}

/// What normalization does to an entry: name, connection string, engine type
/// and description are trimmed, and the optional settings are normalized.
pub open spec fn normalize_entry_spec(e: EntryView) -> EntryView {
    EntryView {
        name: trim_spec(e.name),
        connection_string: trim_spec(e.connection_string),
        db_type: trim_spec(e.db_type),
        description: match e.description {
            Some(d) => Some(trim_spec(d)),
            None => None,
        },
        is_default: e.is_default,
        optimization_settings: match e.optimization_settings {
            Some(o) => Some(normalize_opt_spec(o)),
            None => None,
        },
    }
}

/// Whether one pass of `normalize_bool_spec` reaches a fixed point on this
/// value. It fails to only when the value is not itself a spelling of a
/// boolean but trims to a non-canonical one, as `" TRUE"` does: the first
/// pass only trims it, and the second pass rewrites the result to `true`.
pub open spec fn bool_norm_stable(s: Seq<char>) -> bool {
    matches_true_ci(s) || matches_false_ci(s) || ((matches_true_ci(trim_spec(s)) ==> trim_spec(s)
        =~= seq!['t', 'r', 'u', 'e']) && (matches_false_ci(trim_spec(s)) ==> trim_spec(s)
        =~= seq!['f', 'a', 'l', 's', 'e']))
}

/// Whether one pass of entry normalization reaches a fixed point: every
/// boolean hint of the entry must be stable under `normalize_bool_spec`.
pub open spec fn entry_norm_stable(e: EntryView) -> bool {
    match e.optimization_settings {
        Some(o) => (match o.auto_to_lower {
            Some(s) => bool_norm_stable(s),
            None => true,
        }) && (match o.enable_i_like {
            Some(s) => bool_norm_stable(s),
            None => true,
        }),
        None => true,
    }
}

pub proof fn lemma_normalize_bool_idempotent(s: Seq<char>)
    requires
        bool_norm_stable(s),
    ensures
        normalize_bool_spec(normalize_bool_spec(s)) == normalize_bool_spec(s),
{
    if matches_true_ci(s) {
        assert(matches_true_ci(seq!['t', 'r', 'u', 'e']));
    } else if matches_false_ci(s) {
        assert(matches_false_ci(seq!['f', 'a', 'l', 's', 'e']));
    } else {
        crate::text::lemma_trim_idempotent(s);
    }
}

/// Normalization is idempotent: normalizing an already-normalized entry
/// yields the same entry. The one exception is excluded by the premise: a
/// boolean hint that is not a spelling of a boolean but trims to a
/// non-canonical one, such as `" TRUE"`, changes again on the second pass.
pub proof fn lemma_normalize_entry_idempotent(e: EntryView)
    requires
        entry_norm_stable(e),
    ensures
        normalize_entry_spec(normalize_entry_spec(e)) == normalize_entry_spec(e),
{
    crate::text::lemma_trim_idempotent(e.name);
    crate::text::lemma_trim_idempotent(e.connection_string);
    crate::text::lemma_trim_idempotent(e.db_type);
    match e.description {
        Some(d) => crate::text::lemma_trim_idempotent(d),
        None => (),
    }
    match e.optimization_settings {
        Some(o) => {
            match o.auto_to_lower {
                Some(s) => lemma_normalize_bool_idempotent(s),
                None => (),
            }
            match o.enable_i_like {
                Some(s) => lemma_normalize_bool_idempotent(s),
                None => (),
            }
            match o.identity_strategy {
                Some(s) => crate::text::lemma_trim_idempotent(s),
                None => (),
            }
        },
        None => (),
    }
}

/// Canonicalizes a boolean-spelling hint: a case-insensitive `true` or
/// `false` becomes the lower-case literal; any other value is trimmed.
pub fn normalize_bool_string(value: String) -> (r: String)
    ensures
        r@ == normalize_bool_spec(value@),
{
    let chars: Vec<char> = str_to_char_vec(value.as_str());
    if is_true_ci(&chars) {
        let r = String::from_str("true");
        proof {
            reveal_strlit("true");
            assert(r@ =~= seq!['t', 'r', 'u', 'e']);
        }
        r
    } else if is_false_ci(&chars) {
        let r = String::from_str("false");
        proof {
            reveal_strlit("false");
            assert(r@ =~= seq!['f', 'a', 'l', 's', 'e']);
        }
        r
    } else {
        trim_str(value.as_str())
    }
}

fn normalize_opt_string(value: String) -> (r: Option<String>)
    ensures
        ({
            let t = trim_spec(value@);
            match r {
                Some(s) => s@ == t && t.len() > 0,
                None => t.len() == 0,
            }
        }),
{
    let t = trim_str(value.as_str());
    if t.as_str().is_empty() {
        None
    } else {
        Some(t)
    }
}

impl DatabaseEntry {
    /// The entry as it is stored: every textual field trimmed and the
    /// optional hints canonicalized.
    pub fn normalized(self) -> (r: Self)
        ensures
            r@ == normalize_entry_spec(self@),
    {
        let name = trim_str(self.name.as_str());
        let connection_string = trim_str(self.connection_string.as_str());
        let db_type = trim_str(self.db_type.as_str());
        let description = match self.description {
            Some(d) => Some(trim_str(d.as_str())),
            None => None,
        };
        let optimization_settings = match self.optimization_settings {
            Some(opt) => {
                let auto_to_lower = match opt.auto_to_lower {
                    Some(s) => Some(normalize_bool_string(s)),
                    None => None,
                };
                let enable_i_like = match opt.enable_i_like {
                    Some(s) => Some(normalize_bool_string(s)),
                    None => None,
                };
                let identity_strategy = match opt.identity_strategy {
                    Some(s) => normalize_opt_string(s),
                    None => None,
                };
                Some(OptimizationSettings { auto_to_lower, enable_i_like, identity_strategy })
            },
            None => None,
        };
        DatabaseEntry {
            name,
            connection_string,
            db_type,
            description,
            is_default: self.is_default,
            optimization_settings,
        }
    }
}

} // verus!
