//! The in-memory mutations of a document: replace-or-append keyed by name,
//! and exact-name delete, with the laws they obey.

use vstd::prelude::*;

use crate::model::{DatabaseEntry, DatabaseFile, EntryView};

verus! {

/// The index of the first entry with the given name, or `-1` when none has
/// it.
pub open spec fn find_entry(s: Seq<EntryView>, name: Seq<char>) -> int
    decreases s.len(),
{
    if s.len() == 0 {
        -1
    } else if s[0].name == name {
        0
    } else {
        let r = find_entry(s.drop_first(), name);
        if r == -1 {
            -1
        } else {
            r + 1
        }
    }
}

pub proof fn lemma_find_entry_props(s: Seq<EntryView>, name: Seq<char>)
    ensures
        find_entry(s, name) == -1 ==> forall|i: int| 0 <= i < s.len() ==> s[i].name != name,
        find_entry(s, name) != -1 ==> 0 <= find_entry(s, name) < s.len() && s[find_entry(
            s,
            name,
        )].name == name && (forall|j: int| 0 <= j < find_entry(s, name) ==> s[j].name != name),
    decreases s.len(),
{
    if s.len() > 0 && s[0].name != name {
        let d = s.drop_first();
        lemma_find_entry_props(d, name);
        assert(forall|i: int| 0 <= i < d.len() ==> d[i] == s[i + 1]);
        let r = find_entry(d, name);
        if r == -1 {
            assert(find_entry(s, name) == -1);
            assert forall|i: int| 0 <= i < s.len() implies s[i].name != name by {
                if i > 0 {
                    assert(d[i - 1] == s[i]);
                }
            }
        } else {
            assert(find_entry(s, name) == r + 1);
            assert(s[r + 1] == d[r]);
            assert forall|j: int| 0 <= j < r + 1 implies s[j].name != name by {
                if j > 0 {
                    assert(d[j - 1] == s[j]);
                }
            }
        }
    }
}

/// The document after an upsert of entry `e`: the first entry with `e`'s
/// name is replaced in place, or `e` is appended when no entry has its name.
pub open spec fn upsert_spec(s: Seq<EntryView>, e: EntryView) -> Seq<EntryView> {
    let i = find_entry(s, e.name);
    if i >= 0 {
        s.update(i, e)
    } else {
        s.push(e)
    }
}

/// The document after a delete of `name`: exactly the entries whose name
/// differs from it, in their prior order.
pub open spec fn delete_spec(s: Seq<EntryView>, name: Seq<char>) -> Seq<EntryView> {
    s.filter(|x: EntryView| x.name != name)
}

/// Upsert is replace-or-append, keyed by the entry's exact name: when some
/// entry already carries the name, the first such entry is replaced and
/// keeps its position while every other entry is unchanged; otherwise the
/// entries are unchanged and the new entry stands at the end.
pub proof fn lemma_upsert_replace_or_append(s: Seq<EntryView>, e: EntryView)
    ensures
        find_entry(s, e.name) >= 0 ==> {
            let i = find_entry(s, e.name);
            &&& s[i].name == e.name
            &&& (forall|j: int| 0 <= j < i ==> s[j].name != e.name)
            &&& upsert_spec(s, e).len() == s.len()
            &&& upsert_spec(s, e)[i] == e
            &&& (forall|j: int| 0 <= j < s.len() && j != i ==> upsert_spec(s, e)[j] == s[j])
        },
        find_entry(s, e.name) < 0 ==> {
            &&& (forall|j: int| 0 <= j < s.len() ==> s[j].name != e.name)
            &&& upsert_spec(s, e) == s.push(e)
        },
{
    lemma_find_entry_props(s, e.name);
}

/// Delete removes exactly the entries whose name equals the argument: no
/// surviving entry carries the name, the result is never longer, and when no
/// entry carries the name the document is unchanged.
pub proof fn lemma_delete_exact(s: Seq<EntryView>, name: Seq<char>)
    ensures
        forall|j: int|
            0 <= j < delete_spec(s, name).len() ==> delete_spec(s, name)[j].name != name,
        delete_spec(s, name).len() <= s.len(),
        delete_spec(s, name).len() == s.len() <==> (forall|i: int|
            0 <= i < s.len() ==> s[i].name != name),
        (forall|i: int| 0 <= i < s.len() ==> s[i].name != name) ==> delete_spec(s, name) == s,
    decreases s.len(),
{
    reveal(Seq::filter);
    let pred = |x: EntryView| x.name != name;
    if s.len() > 0 {
        lemma_delete_exact(s.drop_last(), name);
        assert(forall|i: int| 0 <= i < s.drop_last().len() ==> s.drop_last()[i] == s[i]);
        if pred(s.last()) {
            assert(s.filter(pred) == s.drop_last().filter(pred).push(s.last()));
            if forall|i: int| 0 <= i < s.len() ==> s[i].name != name {
                assert(s.drop_last().filter(pred).push(s.last()) =~= s);
            }
        }
    }
}

/// The document invariant: entry names are unique.
pub open spec fn unique_names(s: Seq<EntryView>) -> bool {
    forall|i: int, j: int| 0 <= i < j < s.len() ==> s[i].name != s[j].name
}

/// Upsert preserves the uniqueness of entry names.
pub proof fn lemma_upsert_preserves_unique(s: Seq<EntryView>, e: EntryView)
    requires
        unique_names(s),
    ensures
        unique_names(upsert_spec(s, e)),
{
    lemma_find_entry_props(s, e.name);
    let p = find_entry(s, e.name);
    let r = upsert_spec(s, e);
    if p >= 0 {
        assert forall|i: int, j: int| 0 <= i < j < r.len() implies r[i].name != r[j].name by {
            if i == p {
                assert(r[i].name == e.name && e.name == s[p].name);
                assert(r[j] == s[j]);
            } else if j == p {
                assert(r[j].name == e.name && e.name == s[p].name);
                assert(r[i] == s[i]);
            } else {
                assert(r[i] == s[i] && r[j] == s[j]);
            }
        }
    } else {
        assert forall|i: int, j: int| 0 <= i < j < r.len() implies r[i].name != r[j].name by {
            if j == s.len() as int {
                assert(r[j] == e && r[i] == s[i]);
                assert(s[i].name != e.name);
            } else {
                assert(r[i] == s[i] && r[j] == s[j]);
            }
        }
    }
}

proof fn lemma_filter_elements<A>(s: Seq<A>, pred: spec_fn(A) -> bool)
    ensures
        forall|j: int| 0 <= j < s.filter(pred).len() ==> s.contains(#[trigger] s.filter(pred)[j]),
    decreases s.len(),
{
    reveal(Seq::filter);
    if s.len() > 0 {
        let dl = s.drop_last();
        lemma_filter_elements(dl, pred);
        assert(forall|k: int| 0 <= k < dl.len() ==> dl[k] == s[k]);
        let f = s.filter(pred);
        assert forall|j: int| 0 <= j < f.len() implies s.contains(f[j]) by {
            if j < dl.filter(pred).len() {
                assert(f[j] == dl.filter(pred)[j]);
                assert(dl.contains(dl.filter(pred)[j]));
                let k = choose|k: int| 0 <= k < dl.len() && dl[k] == dl.filter(pred)[j];
                assert(s[k] == f[j]);
            } else {
                assert(f[j] == s.last());
                assert(s[s.len() - 1] == f[j]);
            }
        }
    }
}

/// Delete preserves the uniqueness of entry names.
pub proof fn lemma_delete_preserves_unique(s: Seq<EntryView>, name: Seq<char>)
    requires
        unique_names(s),
    ensures
        unique_names(delete_spec(s, name)),
    decreases s.len(),
{
    reveal(Seq::filter);
    let pred = |x: EntryView| x.name != name;
    if s.len() > 0 {
        let dl = s.drop_last();
        assert(forall|k: int| 0 <= k < dl.len() ==> dl[k] == s[k]);
        lemma_delete_preserves_unique(dl, name);
        if pred(s.last()) {
            let f = dl.filter(pred);
            lemma_filter_elements(dl, pred);
            let r = s.filter(pred);
            assert(r == f.push(s.last()));
            assert forall|i: int, j: int| 0 <= i < j < r.len() implies r[i].name != r[j].name by {
                if j == f.len() as int {
                    assert(r[j] == s.last());
                    assert(r[i] == f[i]);
                    assert(dl.contains(f[i]));
                    let k = choose|k: int| 0 <= k < dl.len() && dl[k] == f[i];
                    assert(s[k] == f[i]);
                    assert(s[k].name != s[s.len() - 1].name);
                } else {
                    assert(r[i] == f[i] && r[j] == f[j]);
                }
            }
        }
    }
}

/// The position of the first entry with the given name, or `None` when no
/// entry has it.
fn position_of(v: &Vec<DatabaseEntry>, name: &String) -> (r: Option<usize>)
    ensures
        ({
            let s = Seq::new(v.len() as nat, |i: int| v[i]@);
            match r {
                Some(i) => 0 <= i < v.len() && find_entry(s, name@) == i,
                None => find_entry(s, name@) == -1,
            }
        }),
{
    let ghost s = Seq::new(v.len() as nat, |i: int| v[i]@);
    let mut i: usize = 0;
    while i < v.len()
        invariant
            0 <= i <= v.len(),
            s == Seq::new(v.len() as nat, |k: int| v[k]@),
            forall|j: int| 0 <= j < i ==> s[j].name != name@,
        decreases v.len() - i,
    {
        if v[i].name == *name {
            proof {
                lemma_find_entry_props(s, name@);
                assert(find_entry(s, name@) != -1);
                if find_entry(s, name@) < i as int {
                    assert(s[find_entry(s, name@)].name != name@);
                }
                if find_entry(s, name@) > i as int {
                    assert(s[i as int].name != name@);
                }
            }
            return Some(i);
        }
        i = i + 1;
    }
    proof {
        lemma_find_entry_props(s, name@);
        if find_entry(s, name@) != -1 {
            assert(s[find_entry(s, name@)].name != name@);
        }
    }
    None
}

/// The document with `entry` upserted: the first entry carrying its name is
/// replaced in place, or `entry` is appended.
pub fn upsert_into(file: DatabaseFile, entry: DatabaseEntry) -> (r: DatabaseFile)
    ensures
        r@ == upsert_spec(file@, entry@),
{
    let mut databases = file.databases;
    let ghost s = Seq::new(databases.len() as nat, |i: int| databases[i]@);
    match position_of(&databases, &entry.name) {
        Some(i) => {
            databases.set(i, entry);
            let r = DatabaseFile { databases };
            proof {
                assert(r@ =~= upsert_spec(s, entry@));
            }
            r
        },
        None => {
            databases.push(entry);
            let r = DatabaseFile { databases };
            proof {
                assert(r@ =~= upsert_spec(s, entry@));
            }
            r
        },
    }
}

/// The document with every entry named exactly `name` removed, and how many
/// entries were removed.
pub fn delete_from(file: &DatabaseFile, name: &String) -> (r: (DatabaseFile, usize))
    ensures
        r.0@ == delete_spec(file@, name@),
        r.1 == file@.len() - delete_spec(file@, name@).len(),
{
    let ghost pred = |x: EntryView| x.name != name@;
    let mut kept: Vec<DatabaseEntry> = Vec::new();
    let mut i: usize = 0;
    proof {
        reveal(Seq::filter);
        assert(file@.take(0).filter(pred) =~= Seq::<EntryView>::empty());
    }
    while i < file.databases.len()
        invariant
            0 <= i <= file.databases.len(),
            file@.len() == file.databases.len(),
            forall|k: int| 0 <= k < file.databases.len() ==> file@[k] == file.databases[k]@,
            pred == (|x: EntryView| x.name != name@),
            Seq::new(kept.len() as nat, |k: int| kept[k]@) == file@.take(i as int).filter(pred),
        decreases file.databases.len() - i,
    {
        proof {
            reveal(Seq::filter);
            assert(file@.take(i as int + 1).drop_last() =~= file@.take(i as int));
            assert(file@.take(i as int + 1).last() == file@[i as int]);
        }
        if !(file.databases[i].name == *name) {
            kept.push(file.databases[i].clone());
        }
        i = i + 1;
        proof {
            reveal(Seq::filter);
            assert(Seq::new(kept.len() as nat, |k: int| kept[k]@) =~= file@.take(
                i as int,
            ).filter(pred));
        }
    }
    proof {
        assert(file@.take(file@.len() as int) =~= file@);
    }
    let removed = file.databases.len() - kept.len();
    let r = DatabaseFile { databases: kept };
    proof {
        assert(r@ =~= delete_spec(file@, name@));
        crate::ops::lemma_delete_exact(file@, name@);
    }
    (r, removed)
}

} // verus!
