//! The entry-manager operations: load, upsert and delete over the document
//! held in the current configuration file. Reading and writing the file
//! itself is the caller's part; these functions take the file's prior text
//! and return the document and the exact text to write back.

use vstd::prelude::*;

use crate::codec::{decode, decode_spec, encode, encode_spec};
use crate::errors::{ConfigError, EntryField};
use crate::model::{normalize_entry_spec, DatabaseEntry, DatabaseFile, EntryView};
use crate::ops::{delete_from, delete_spec, upsert_into, upsert_spec};
use crate::text::{trim_spec, trim_str};

verus! {

/// The document a read-for-mutate starts from: the decoded prior content,
/// or the empty document when the file could not be read or its content is
/// not a well-formed document.
pub open spec fn content_doc_spec(c: Option<Seq<char>>) -> Seq<EntryView> {
    match c {
        Some(t) => match decode_spec(t) {
            Some(d) => d,
            None => Seq::<EntryView>::empty(),
        },
        None => Seq::<EntryView>::empty(),
    }
}

pub open spec fn opt_content_view(c: Option<&String>) -> Option<Seq<char>> {
    match c {
        Some(s) => Some(s@),
        None => None,
    }
}

/// The first required field of the entry that is empty after trimming, or
/// `None` when the entry is valid.
pub open spec fn validation_spec(e: EntryView) -> Option<EntryField> {
    if trim_spec(e.name).len() == 0 {
        Some(EntryField::Name)
    } else if trim_spec(e.connection_string).len() == 0 {
        Some(EntryField::ConnectionString)
    } else if trim_spec(e.db_type).len() == 0 {
        Some(EntryField::DbType)
    } else {
        None
    }
}

/// Checks the required fields in order: name, connection string, engine
/// type; each must be non-empty after trimming.
pub fn validate_entry(e: &DatabaseEntry) -> (r: Option<EntryField>)
    ensures
        r == validation_spec(e@),
{
    if trim_str(e.name.as_str()).as_str().is_empty() {
        Some(EntryField::Name)
    } else if trim_str(e.connection_string.as_str()).as_str().is_empty() {
        Some(EntryField::ConnectionString)
    } else if trim_str(e.db_type.as_str()).as_str().is_empty() {
        Some(EntryField::DbType)
    } else {
        None
    }
}

/// The document the prior content denotes, with the read-failure tolerance
/// of the mutating operations: unreadable or malformed content is an empty
/// document.
pub fn doc_from_content(content: Option<&String>) -> (f: DatabaseFile)
    ensures
        f@ == content_doc_spec(opt_content_view(content)),
{
    let f = match content {
        Some(s) => match decode(s.as_str()) {
            Some(f) => f,
            None => DatabaseFile { databases: Vec::new() },
        },
        None => DatabaseFile { databases: Vec::new() },
    };
    proof {
        if f.databases.len() == 0 {
            assert(f@ =~= Seq::<EntryView>::empty());
        }
    }
    f
}

/// The explicit load: decodes the current file's content, and reports
/// malformed content as a parse failure carrying the file's path.
pub fn load_database_config(path: &str, content: &str) -> (r: Result<DatabaseFile, ConfigError>)
    ensures
        match r {
            Ok(f) => decode_spec(content@) == Some(f@),
            Err(e) => decode_spec(content@) is None && (e matches ConfigError::Parse {
                path: p,
                cause,
            } && p@ == path@),
        },
{
    match decode(content) {
        Some(f) => Ok(f),
        None => Err(
            ConfigError::Parse {
                path: String::from_str(path),
                cause: String::from_str("the content is not a well-formed configuration document"),
            },
        ),
    }
}

/// Upsert: validates the entry, normalizes it, replaces the first entry
/// carrying its name or appends it, and returns the updated document with
/// the exact text to write back. A validation failure has no other effect.
pub fn upsert_database_entry(content: Option<&String>, entry: DatabaseEntry) -> (r: Result<
    (DatabaseFile, String),
    ConfigError,
>)
    ensures
        ({
            let doc0 = content_doc_spec(opt_content_view(content));
            let ne = normalize_entry_spec(entry@);
            match r {
                Ok(p) => validation_spec(entry@) is None && p.0@ == upsert_spec(doc0, ne) && p.1@
                    == encode_spec(p.0@),
                Err(e) => (e matches ConfigError::Validation(f) && validation_spec(entry@) == Some(
                    f,
                )),
            }
        }),
{
    match validate_entry(&entry) {
        Some(f) => Err(ConfigError::Validation(f)),
        None => {
            let doc = doc_from_content(content);
            let normalized = entry.normalized();
            let updated = upsert_into(doc, normalized);
            let text = encode(&updated);
            Ok((updated, text))
        },
    }
}

/// Delete: removes every entry whose name equals the argument exactly (no
/// trimming, no case folding). An empty name after trimming is invalid; a
/// name no entry carries is `NotFound`, and then nothing is to be written.
pub fn delete_database_entry(content: Option<&String>, name: &String) -> (r: Result<
    (DatabaseFile, String),
    ConfigError,
>)
    ensures
        ({
            let doc0 = content_doc_spec(opt_content_view(content));
            match r {
                Ok(p) => trim_spec(name@).len() > 0 && p.0@ == delete_spec(doc0, name@) && p.0@.len()
                    < doc0.len() && p.1@ == encode_spec(p.0@),
                Err(e) => match e {
                    ConfigError::Validation(f) => f is Name && trim_spec(name@).len() == 0,
                    ConfigError::NotFound => trim_spec(name@).len() > 0 && (forall|i: int|
                        0 <= i < doc0.len() ==> doc0[i].name != name@),
                    _ => false,
                },
            }
        }),
{
    if trim_str(name.as_str()).as_str().is_empty() {
        return Err(ConfigError::Validation(EntryField::Name));
    }
    let doc = doc_from_content(content);
    let (updated, removed) = delete_from(&doc, name);
    proof {
        crate::ops::lemma_delete_exact(doc@, name@);
    }
    if removed == 0 {
        return Err(ConfigError::NotFound);
    }
    let text = encode(&updated);
    Ok((updated, text))
}

} // verus!
