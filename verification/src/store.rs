//! The sectioned key/value store over an in-memory document.
//!
//! The document is a sequence of named root entries; a section is a root
//! entry holding a table.  Every operation is specified against the
//! document's model, an association sequence of `(name, value)` pairs.
//! Concurrency is the host's affair: a shared store is this type behind a
//! reader/writer guard, and each operation here is one atomic step under
//! that guard.

use vstd::prelude::*;
use vstd::string::StringExecFns;

use crate::error::{ConferError, ErrModel};
use crate::value::{
    doc_wf, entries_model, has_key, index_of, keys_unique, lemma_entries_model, lemma_index_of,
    lemma_index_of_is, lemma_model_push, lemma_model_update, lemma_upsert,
    lookup, remove_entry, upsert, Timestamp, Val, ConferValue,
};
use crate::value_conversion::{describe, describe_model, mismatch};

verus! {

/// The in-memory document store.
#[derive(Debug)]
pub struct Confer {
    entries: Vec<(String, ConferValue)>,
}

/// Whether the name is free or already holds a table, so that a section can
/// be created or extended there.
pub open spec fn section_ok(m: Seq<(Seq<char>, Val)>, s: Seq<char>) -> bool {
    lookup(m, s) matches Some(v) ==> v is Tab
}

/// The entries of the section named `s`, empty when the section is absent or
/// not a table.
pub open spec fn section_entries(m: Seq<(Seq<char>, Val)>, s: Seq<char>) -> Seq<(Seq<char>, Val)> {
    match lookup(m, s) {
        Some(Val::Tab(t)) => t,
        _ => Seq::empty(),
    }
}

/// The document after the section `s` is ensured to exist as a table: a new
/// empty table under a free name, otherwise the document as it was.
pub open spec fn doc_after_add_section(m: Seq<(Seq<char>, Val)>, s: Seq<char>) -> Seq<
    (Seq<char>, Val),
> {
    if lookup(m, s) is Some {
        m
    } else {
        upsert(m, s, Val::Tab(Seq::empty()))
    }
}

/// The model of the `TypeMismatch` error raised when the name `s` holds a
/// value that is not a table.
pub open spec fn section_mismatch(m: Seq<(Seq<char>, Val)>, s: Seq<char>) -> ErrModel {
    mismatch(s, "<section>"@, "table"@, describe_model(lookup(m, s)->Some_0))
}

/// Index of the first entry named `name`, or nothing when there is none.
#[verifier::loop_isolation(false)]
fn find_entry(entries: &Vec<(String, ConferValue)>, name: &str) -> (r: Option<usize>)
    ensures
        (match r {
            Some(i) => i < entries@.len() && has_key(entries_model(entries@), name@) && index_of(
                entries_model(entries@),
                name@,
            ) == i,
            None => !has_key(entries_model(entries@), name@),
        }),
{
    proof {
        lemma_entries_model(entries@);
    }
    let ghost m = entries_model(entries@);
    let mut i: usize = 0;
    while i < entries.len()
        invariant
            i <= entries@.len(),
            m == entries_model(entries@),
            m.len() == entries@.len(),
            forall|j: int| 0 <= j < entries@.len() ==> #[trigger] m[j] == (
            entries@[j].0@,
            entries@[j].1.model(),
            ),
            forall|j: int| 0 <= j < i ==> #[trigger] m[j].0 != name@,
        decreases entries@.len() - i,
    {
        let hit = {
            let e = &entries[i];
            let owned: String = name.to_owned();
            e.0 == owned
        };
        if hit {
            proof {
                lemma_index_of_is(m, name@, i as int);
            }
            return Some(i);
        }
        i += 1;
    }
    proof {
        assert(!has_key(m, name@));
    }
    None
}

impl Confer {
    /// The document's model.
    pub closed spec fn model(&self) -> Seq<(Seq<char>, Val)> {
        entries_model(self.entries@)
    }

    /// The document's invariant: unique names at the root and inside every
    /// table.  Constructors establish it and every operation keeps it.
    pub open spec fn wf(&self) -> bool {
        doc_wf(self.model())
    }

    /// Creates an empty store.
    pub fn new() -> (r: Confer)
        ensures
            r.wf(),
            r.model() == Seq::<(Seq<char>, Val)>::empty(),
    {
        Confer { entries: Vec::new() }
    }

    /// Inserts `value` at `section.key`, creating the section if necessary.
    /// Fails with `TypeMismatch`, and changes nothing, when the section name
    /// holds a value that is not a table.
    pub fn set_value(&mut self, section: &str, key: &str, value: ConferValue) -> (r: Result<
        (),
        ConferError,
    >)
        requires
            old(self).wf(),
            value.model().wf(),
        ensures
            final(self).wf(),
            section_ok(old(self).model(), section@) ==> r is Ok && final(self).model() == upsert(
                old(self).model(),
                section@,
                Val::Tab(upsert(section_entries(old(self).model(), section@), key@, value.model())),
            ),
            !section_ok(old(self).model(), section@) ==> final(self).model() == old(self).model()
                && (r matches Err(e) && e.model() == section_mismatch(
                old(self).model(),
                section@,
            )),
    {
        let ghost m = self.model();
        proof {
            lemma_entries_model(self.entries@);
        }
        match find_entry(&self.entries, section) {
            Some(i) => {
                let ghost old_entries = self.entries@;
                let pair = &mut self.entries[i];
                match &mut pair.1 {
                    ConferValue::Table(inner) => {
                        let ghost old_inner = inner@;
                        let ghost sec = entries_model(old_inner);
                        proof {
                            lemma_entries_model(old_inner);
                        }
                        match find_entry(inner, key) {
                            Some(j) => {
                                inner[j] = (key.to_owned(), value);
                                proof {
                                    let p = inner@[j as int];
                                    assert(inner@ == old_inner.update(j as int, p));
                                    assert(p.0@ == key@);
                                    assert(p.1 == value);
                                    lemma_model_update(old_inner, j as int, p);
                                    assert(entries_model(inner@) == sec.update(
                                        j as int,
                                        (key@, value.model()),
                                    ));
                                    assert(has_key(sec, key@) && index_of(sec, key@) == j as int);
                                    assert(upsert(sec, key@, value.model()) == sec.update(
                                        j as int,
                                        (key@, value.model()),
                                    ));
                                }
                            },
                            None => {
                                inner.push((key.to_owned(), value));
                                proof {
                                    let p = inner@[old_inner.len() as int];
                                    assert(inner@ == old_inner.push(p));
                                    assert(p.0@ == key@);
                                    assert(p.1 == value);
                                    lemma_model_push(old_inner, p);
                                    assert(entries_model(inner@) == sec.push(
                                        (key@, value.model()),
                                    ));
                                    assert(!has_key(sec, key@));
                                    assert(upsert(sec, key@, value.model()) == sec.push(
                                        (key@, value.model()),
                                    ));
                                }
                            },
                        }
                        proof {
                            assert(entries_model(inner@) == upsert(sec, key@, value.model()));
                        }
                    },
                    other => {
                        let e = ConferError::type_mismatch(
                            section,
                            "<section>",
                            "table",
                            describe(other),
                        );
                        proof {
                            lemma_index_of(m, section@);
                            assert(m[i as int].1 == old_entries[i as int].1.model());
                            assert(lookup(m, section@) == Some(m[i as int].1));
                            assert(self.entries@ == old_entries);
                            assert(!section_ok(m, section@));
                        }
                        return Err(e);
                    },
                }
                proof {
                    lemma_index_of(m, section@);
                    let new_pair = self.entries@[i as int];
                    assert(self.entries@ == old_entries.update(i as int, new_pair));
                    lemma_model_update(old_entries, i as int, new_pair);
                    assert(new_pair.0 == old_entries[i as int].0);
                    assert(m[i as int].0 == section@);
                    assert(lookup(m, section@) == Some(m[i as int].1));
                    assert(m[i as int].1 is Tab);
                    let sec = section_entries(m, section@);
                    let tabval = Val::Tab(upsert(sec, key@, value.model()));
                    assert(self.model() == m.update(i as int, (section@, tabval)));
                    assert(upsert(m, section@, tabval) == m.update(i as int, (section@, tabval)));
                    lemma_upsert(sec, key@, value.model());
                    lemma_upsert(m, section@, tabval);
                    lemma_index_of(sec, key@);
                    assert(m[i as int].1.wf());
                    assert(Val::Tab(sec) == m[i as int].1);
                    crate::value::lemma_tab_wf(m[i as int].1);
                    assert(keys_unique(sec));
                    assert(forall|q: int| 0 <= q < sec.len() ==> #[trigger] sec[q].1.wf());
                    assert forall|q: int|
                        0 <= q < upsert(sec, key@, value.model()).len() implies #[trigger] upsert(
                        sec,
                        key@,
                        value.model(),
                    )[q].1.wf() by {
                        if has_key(sec, key@) {
                            if q != index_of(sec, key@) {
                                assert(upsert(sec, key@, value.model())[q] == sec[q]);
                                assert(sec[q].1.wf());
                            }
                        } else {
                            if q < sec.len() {
                                assert(upsert(sec, key@, value.model())[q] == sec[q]);
                                assert(sec[q].1.wf());
                            }
                        }
                    }
                    crate::value::lemma_table_wf(upsert(sec, key@, value.model()));
                    assert(tabval.wf());
                    assert forall|q: int| 0 <= q < self.model().len() implies #[trigger] self
                        .model()[q].1.wf() by {
                        if q != i {
                            assert(self.model()[q] == m[q]);
                        }
                    }
                    assert(self.wf());
                }
                Ok(())
            },
            None => {
                let mut table: Vec<(String, ConferValue)> = Vec::new();
                table.push((key.to_owned(), value));
                let ghost old_entries = self.entries@;
                self.entries.push((section.to_owned(), ConferValue::Table(table)));
                proof {
                    let new_pair = self.entries@[old_entries.len() as int];
                    lemma_model_push(old_entries, new_pair);
                    lemma_entries_model(new_pair.1->Table_0@);
                    let sec = section_entries(m, section@);
                    assert(sec =~= Seq::<(Seq<char>, Val)>::empty());
                    let tabval = Val::Tab(upsert(sec, key@, value.model()));
                    assert(entries_model(new_pair.1->Table_0@) =~= upsert(
                        sec,
                        key@,
                        value.model(),
                    ));
                    assert(new_pair.1.model() == tabval);
                    assert(self.model() == m.push((section@, tabval)));
                    assert(upsert(m, section@, tabval) == m.push((section@, tabval)));
                    lemma_upsert(sec, key@, value.model());
                    lemma_upsert(m, section@, tabval);
                    crate::value::lemma_table_wf(upsert(sec, key@, value.model()));
                    assert(tabval.wf());
                    assert forall|q: int| 0 <= q < self.model().len() implies #[trigger] self
                        .model()[q].1.wf() by {
                        if q < m.len() {
                            assert(self.model()[q] == m[q]);
                        }
                    }
                    assert(self.wf());
                }
                Ok(())
            },
        }
    }

    /// Returns `true` when the store holds a table for `section`.
    pub fn section_exists(&self, section: &str) -> (r: bool)
        ensures
            r == (lookup(self.model(), section@) matches Some(v) && v is Tab),
    {
        let ghost m = self.model();
        proof {
            lemma_entries_model(self.entries@);
            lemma_index_of(m, section@);
        }
        match find_entry(&self.entries, section) {
            Some(i) => {
                proof {
                    assert(m[i as int].1 == self.entries@[i as int].1.model());
                    assert(lookup(m, section@) == Some(m[i as int].1));
                }
                match &self.entries[i].1 {
                    ConferValue::Table(_) => true,
                    _ => false,
                }
            },
            None => false,
        }
    }

    /// Ensures that `section` exists as a table: a no-op when it already is
    /// one, an error when the name holds another kind of value.
    pub fn add_section(&mut self, section: &str) -> (r: Result<(), ConferError>)
        requires
            old(self).wf(),
        ensures
            final(self).wf(),
            (lookup(old(self).model(), section@) matches Some(v) && v is Tab) ==> r is Ok
                && final(self).model() == old(self).model(),
            lookup(old(self).model(), section@) is None ==> r is Ok && final(self).model()
                == upsert(old(self).model(), section@, Val::Tab(Seq::empty())),
            !section_ok(old(self).model(), section@) ==> final(self).model() == old(self).model()
                && (r matches Err(e) && e.model() == section_mismatch(
                old(self).model(),
                section@,
            )),
    {
        let ghost m = self.model();
        proof {
            lemma_entries_model(self.entries@);
            lemma_index_of(m, section@);
        }
        match find_entry(&self.entries, section) {
            Some(i) => {
                proof {
                    assert(m[i as int].1 == self.entries@[i as int].1.model());
                    assert(lookup(m, section@) == Some(m[i as int].1));
                }
                match &self.entries[i].1 {
                    ConferValue::Table(_) => Ok(()),
                    other => Err(
                        ConferError::type_mismatch(section, "<section>", "table", describe(other)),
                    ),
                }
            },
            None => {
                let ghost old_entries = self.entries@;
                self.entries.push((section.to_owned(), ConferValue::Table(Vec::new())));
                proof {
                    let new_pair = self.entries@[old_entries.len() as int];
                    lemma_model_push(old_entries, new_pair);
                    assert(new_pair.1.model() =~= Val::Tab(Seq::empty()));
                    assert(self.model() == m.push((section@, Val::Tab(Seq::empty()))));
                    assert(upsert(m, section@, Val::Tab(Seq::empty())) == m.push(
                        (section@, Val::Tab(Seq::empty())),
                    ));
                    lemma_upsert(m, section@, Val::Tab(Seq::empty()));
                    assert forall|q: int| 0 <= q < self.model().len() implies #[trigger] self
                        .model()[q].1.wf() by {
                        if q < m.len() {
                            assert(self.model()[q] == m[q]);
                        } else {
                            crate::value::lemma_table_wf(Seq::empty());
                        }
                    }
                    assert(self.wf());
                }
                Ok(())
            },
        }
    }

    /// Removes `key` from `section`.  Succeeds silently when the section or
    /// the key is absent; fails with `TypeMismatch` when the name holds a
    /// value that is not a table.
    pub fn remove_key(&mut self, section: &str, key: &str) -> (r: Result<(), ConferError>)
        requires
            old(self).wf(),
        ensures
            final(self).wf(),
            lookup(old(self).model(), section@) is None ==> r is Ok
                && final(self).model() == old(self).model(),
            (lookup(old(self).model(), section@) matches Some(v) && v is Tab) ==> r is Ok
                && final(self).model() == upsert(
                old(self).model(),
                section@,
                Val::Tab(remove_entry(section_entries(old(self).model(), section@), key@)),
            ),
            !section_ok(old(self).model(), section@) ==> final(self).model() == old(self).model()
                && (r matches Err(e) && e.model() == section_mismatch(
                old(self).model(),
                section@,
            )),
    {
        let ghost m = self.model();
        proof {
            lemma_entries_model(self.entries@);
            lemma_index_of(m, section@);
        }
        match find_entry(&self.entries, section) {
            Some(i) => {
                let ghost old_entries = self.entries@;
                let pair = &mut self.entries[i];
                match &mut pair.1 {
                    ConferValue::Table(inner) => {
                        let ghost old_inner = inner@;
                        let ghost sec = entries_model(old_inner);
                        proof {
                            lemma_entries_model(old_inner);
                        }
                        match find_entry(inner, key) {
                            Some(j) => {
                                inner.remove(j);
                                proof {
                                    crate::value::lemma_model_remove(old_inner, j as int);
                                    assert(entries_model(inner@) == sec.remove(j as int));
                                    assert(remove_entry(sec, key@) == sec.remove(j as int));
                                }
                            },
                            None => {
                                proof {
                                    assert(inner@ == old_inner);
                                    assert(remove_entry(sec, key@) == sec);
                                }
                            },
                        }
                        proof {
                            assert(entries_model(inner@) == remove_entry(sec, key@));
                        }
                    },
                    other => {
                        let e = ConferError::type_mismatch(
                            section,
                            "<section>",
                            "table",
                            describe(other),
                        );
                        proof {
                            assert(m[i as int].1 == old_entries[i as int].1.model());
                            assert(lookup(m, section@) == Some(m[i as int].1));
                            assert(self.entries@ == old_entries);
                            assert(!section_ok(m, section@));
                        }
                        return Err(e);
                    },
                }
                proof {
                    let new_pair = self.entries@[i as int];
                    assert(self.entries@ == old_entries.update(i as int, new_pair));
                    lemma_model_update(old_entries, i as int, new_pair);
                    assert(new_pair.0 == old_entries[i as int].0);
                    assert(m[i as int].0 == section@);
                    assert(lookup(m, section@) == Some(m[i as int].1));
                    let sec = section_entries(m, section@);
                    let newsec = remove_entry(sec, key@);
                    let tabval = Val::Tab(newsec);
                    assert(self.model() == m.update(i as int, (section@, tabval)));
                    assert(upsert(m, section@, tabval) == m.update(i as int, (section@, tabval)));
                    crate::value::lemma_remove_entry(sec, key@);
                    lemma_upsert(m, section@, tabval);
                    assert(m[i as int].1.wf());
                    assert(Val::Tab(sec) == m[i as int].1);
                    crate::value::lemma_tab_wf(m[i as int].1);
                    lemma_index_of(sec, key@);
                    assert forall|q: int| 0 <= q < newsec.len() implies #[trigger] newsec[q].1.wf()
                    by {
                        if has_key(sec, key@) {
                            let jj = index_of(sec, key@);
                            if q < jj {
                                assert(newsec[q] == sec[q]);
                            } else {
                                assert(newsec[q] == sec[q + 1]);
                            }
                        } else {
                            assert(newsec[q] == sec[q]);
                        }
                    }
                    crate::value::lemma_table_wf(newsec);
                    assert(tabval.wf());
                    assert forall|q: int| 0 <= q < self.model().len() implies #[trigger] self
                        .model()[q].1.wf() by {
                        if q != i {
                            assert(self.model()[q] == m[q]);
                        }
                    }
                    assert(self.wf());
                }
                Ok(())
            },
            None => Ok(()),
        }
    }

    /// Removes `section` from the store, whatever value the name holds;
    /// succeeds silently when it is absent.
    pub fn remove_section(&mut self, section: &str) -> (r: Result<(), ConferError>)
        requires
            old(self).wf(),
        ensures
            final(self).wf(),
            r is Ok,
            final(self).model() == remove_entry(old(self).model(), section@),
    {
        let ghost m = self.model();
        proof {
            lemma_entries_model(self.entries@);
            lemma_index_of(m, section@);
        }
        match find_entry(&self.entries, section) {
            Some(i) => {
                let ghost old_entries = self.entries@;
                self.entries.remove(i);
                proof {
                    crate::value::lemma_model_remove(old_entries, i as int);
                    assert(self.model() == m.remove(i as int));
                    assert(remove_entry(m, section@) == m.remove(i as int));
                    crate::value::lemma_remove_entry(m, section@);
                    assert forall|q: int| 0 <= q < self.model().len() implies #[trigger] self
                        .model()[q].1.wf() by {
                        if q < i {
                            assert(self.model()[q] == m[q]);
                        } else {
                            assert(self.model()[q] == m[q + 1]);
                        }
                    }
                    assert(self.wf());
                }
                Ok(())
            },
            None => {
                proof {
                    assert(remove_entry(m, section@) == m);
                }
                Ok(())
            },
        }
    }
}


/// The outcome, at the model level, of fetching the raw value at
/// `section.key`: the value, or the error the fetch raises.
pub open spec fn fetch_model(m: Seq<(Seq<char>, Val)>, s: Seq<char>, k: Seq<char>) -> Result<
    Val,
    ErrModel,
> {
    match lookup(m, s) {
        None => Err(ErrModel::MissingKey { section: s, key: k }),
        Some(v) => if !(v is Tab) {
            Err(section_mismatch(m, s))
        } else {
            match lookup(v->Tab_0, k) {
                None => Err(ErrModel::MissingKey { section: s, key: k }),
                Some(w) => Ok(w),
            }
        },
    }
}

impl Confer {
    /// Returns the raw value stored under `section.key`, if the section is a
    /// table holding that key.
    pub fn get_value(&self, section: &str, key: &str) -> (r: Option<ConferValue>)
        requires
            self.wf(),
        ensures
            (match fetch_model(self.model(), section@, key@) {
                Ok(v) => r matches Some(x) && x.model() == v && v.wf(),
                Err(_) => r is None,
            }),
    {
        match self.fetch_value(section, key) {
            Ok(v) => Some(v),
            Err(_) => None,
        }
    }

    /// Returns a copy of the table stored at `section`, if it exists and is a
    /// table.
    pub fn get_section_table(&self, section: &str) -> (r: Option<Vec<(String, ConferValue)>>)
        requires
            self.wf(),
        ensures
            (match lookup(self.model(), section@) {
                Some(v) => if v is Tab {
                    r matches Some(t) && entries_model(t@) == v->Tab_0
                } else {
                    r is None
                },
                None => r is None,
            }),
    {
        let ghost m = self.model();
        proof {
            lemma_entries_model(self.entries@);
            lemma_index_of(m, section@);
        }
        match find_entry(&self.entries, section) {
            Some(i) => {
                proof {
                    assert(m[i as int].1 == self.entries@[i as int].1.model());
                    assert(lookup(m, section@) == Some(m[i as int].1));
                }
                match &self.entries[i].1 {
                    ConferValue::Table(inner) => Some(crate::value::copy_entries(inner)),
                    _ => None,
                }
            },
            None => None,
        }
    }

    /// Fetches the raw value stored at `section.key`: `MissingKey` exactly
    /// when the section or the key is absent, `TypeMismatch` exactly when the
    /// section name holds a value that is not a table, and otherwise a copy
    /// of the stored value.
    pub fn fetch_value(&self, section: &str, key: &str) -> (r: Result<ConferValue, ConferError>)
        requires
            self.wf(),
        ensures
            (match fetch_model(self.model(), section@, key@) {
                Ok(v) => r matches Ok(x) && x.model() == v && v.wf(),
                Err(em) => r matches Err(e) && e.model() == em,
            }),
    {
        let ghost m = self.model();
        proof {
            lemma_entries_model(self.entries@);
            lemma_index_of(m, section@);
        }
        match find_entry(&self.entries, section) {
            Some(i) => {
                proof {
                    assert(m[i as int].1 == self.entries@[i as int].1.model());
                    assert(lookup(m, section@) == Some(m[i as int].1));
                }
                match &self.entries[i].1 {
                    ConferValue::Table(inner) => {
                        let ghost sec = entries_model(inner@);
                        proof {
                            lemma_entries_model(inner@);
                            lemma_index_of(sec, key@);
                        }
                        match find_entry(inner, key) {
                            Some(j) => {
                                proof {
                                    assert(sec[j as int].1 == inner@[j as int].1.model());
                                    assert(lookup(sec, key@) == Some(sec[j as int].1));
                                    crate::value::lemma_tab_wf(m[i as int].1);
                                    assert(sec[j as int].1.wf());
                                }
                                Ok(inner[j].1.deep_copy())
                            },
                            None => Err(ConferError::missing_key(section, key)),
                        }
                    },
                    other => Err(
                        ConferError::type_mismatch(section, "<section>", "table", describe(other)),
                    ),
                }
            },
            None => Err(ConferError::missing_key(section, key)),
        }
    }

    /// Names of the root entries that hold tables, in entry order.
    #[verifier::loop_isolation(false)]
    pub fn list_sections(&self) -> (r: Vec<String>)
        ensures
            r@.map_values(|x: String| x@) == table_names(self.model()),
    {
        let ghost m = self.model();
        proof {
            lemma_entries_model(self.entries@);
        }
        let mut out: Vec<String> = Vec::new();
        let mut i: usize = 0;
        while i < self.entries.len()
            invariant
                i <= self.entries@.len(),
                out@.map_values(|x: String| x@) == table_names(m.subrange(0, i as int)),
            decreases self.entries@.len() - i,
        {
            let ghost prefix = m.subrange(0, i as int);
            let e = &self.entries[i];
            let is_table = match &e.1 {
                ConferValue::Table(_) => true,
                _ => false,
            };
            proof {
                assert(m[i as int] == (e.0@, e.1.model()));
                assert(m.subrange(0, i + 1 as int).subrange(0, i as int) =~= prefix);
                assert(m.subrange(0, i + 1 as int).last() == m[i as int]);
            }
            if is_table {
                out.push(e.0.clone());
                proof {
                    assert(out@.map_values(|x: String| x@) =~= table_names(prefix).push(e.0@));
                    assert(table_names(m.subrange(0, i + 1 as int)) == table_names(prefix).push(
                        m[i as int].0,
                    ));
                }
            } else {
                proof {
                    assert(table_names(m.subrange(0, i + 1 as int)) == table_names(prefix));
                }
            }
            i += 1;
        }
        proof {
            assert(m.subrange(0, m.len() as int) =~= m);
        }
        out
    }

    /// The keys of `section`, in entry order: an empty vector when the
    /// section is absent, `TypeMismatch` when the name does not hold a table.
    #[verifier::loop_isolation(false)]
    pub fn list_keys(&self, section: &str) -> (r: Result<Vec<String>, ConferError>)
        ensures
            (match lookup(self.model(), section@) {
                None => r matches Ok(v) && v@.len() == 0,
                Some(v) => if v is Tab {
                    r matches Ok(out) && out@.map_values(|x: String| x@) == crate::value::keys_of(
                        v->Tab_0,
                    )
                } else {
                    r matches Err(e) && e.model() == section_mismatch(self.model(), section@)
                },
            }),
    {
        let ghost m = self.model();
        proof {
            lemma_entries_model(self.entries@);
            lemma_index_of(m, section@);
        }
        match find_entry(&self.entries, section) {
            Some(i) => {
                proof {
                    assert(m[i as int].1 == self.entries@[i as int].1.model());
                    assert(lookup(m, section@) == Some(m[i as int].1));
                }
                match &self.entries[i].1 {
                    ConferValue::Table(inner) => {
                        let ghost sec = entries_model(inner@);
                        proof {
                            lemma_entries_model(inner@);
                        }
                        let mut out: Vec<String> = Vec::new();
                        let mut j: usize = 0;
                        while j < inner.len()
                            invariant
                                j <= inner@.len(),
                                out@.len() == j,
                                forall|q: int| 0 <= q < j ==> #[trigger] out@[q]@ == sec[q].0,
                            decreases inner@.len() - j,
                        {
                            out.push(inner[j].0.clone());
                            j += 1;
                        }
                        proof {
                            assert(out@.map_values(|x: String| x@) =~= crate::value::keys_of(sec));
                        }
                        Ok(out)
                    },
                    other => Err(
                        ConferError::type_mismatch(section, "<section>", "table", describe(other)),
                    ),
                }
            },
            None => Ok(Vec::new()),
        }
    }
}

impl Confer {
    /// Retrieves a string stored at `section.key`.
    pub fn get_string(&self, section: &str, key: &str) -> (r: Result<String, ConferError>)
        requires
            self.wf(),
        ensures
            (match fetch_model(self.model(), section@, key@) {
                Err(em) => r matches Err(e) && e.model() == em,
                Ok(v) => match v {
                    Val::Text(t) => r matches Ok(x) && x@ == t,
                    mm => r matches Err(e) && e.model() == mismatch(section@, key@, "string"@, describe_model(mm)),
                },
            }),
    {
        match self.fetch_value(section, key) {
            Ok(v) => crate::value_conversion::string(section, key, v),
            Err(e) => Err(e),
        }
    }

    /// Retrieves a 64-bit signed integer stored at `section.key`.
    pub fn get_integer(&self, section: &str, key: &str) -> (r: Result<i64, ConferError>)
        requires
            self.wf(),
        ensures
            (match fetch_model(self.model(), section@, key@) {
                Err(em) => r matches Err(e) && e.model() == em,
                Ok(v) => match v {
                    Val::Int(x0) => r matches Ok(x) && x == x0,
                    mm => r matches Err(e) && e.model() == mismatch(section@, key@, "integer"@, describe_model(mm)),
                },
            }),
    {
        match self.fetch_value(section, key) {
            Ok(v) => crate::value_conversion::integer(section, key, v),
            Err(e) => Err(e),
        }
    }

    /// Retrieves a float, as its 64-bit encoding, stored at `section.key`; an
    /// integer is widened.
    pub fn get_float(&self, section: &str, key: &str) -> (r: Result<u64, ConferError>)
        requires
            self.wf(),
        ensures
            (match fetch_model(self.model(), section@, key@) {
                Err(em) => r matches Err(e) && e.model() == em,
                Ok(v) => match v {
                    Val::Float(b) => r matches Ok(x) && x == b,
                    Val::Int(x0) => r matches Ok(x) && x
                        == crate::value_conversion::float_bits_of_int(x0),
                    mm => r matches Err(e) && e.model() == mismatch(section@, key@, "float"@, describe_model(mm)),
                },
            }),
    {
        match self.fetch_value(section, key) {
            Ok(v) => crate::value_conversion::float(section, key, v),
            Err(e) => Err(e),
        }
    }

    /// Retrieves a boolean stored at `section.key`.
    pub fn get_boolean(&self, section: &str, key: &str) -> (r: Result<bool, ConferError>)
        requires
            self.wf(),
        ensures
            (match fetch_model(self.model(), section@, key@) {
                Err(em) => r matches Err(e) && e.model() == em,
                Ok(v) => match v {
                    Val::Bool(b) => r matches Ok(x) && x == b,
                    mm => r matches Err(e) && e.model() == mismatch(section@, key@, "boolean"@, describe_model(mm)),
                },
            }),
    {
        match self.fetch_value(section, key) {
            Ok(v) => crate::value_conversion::boolean(section, key, v),
            Err(e) => Err(e),
        }
    }

    /// Retrieves a timestamp stored at `section.key`, parsing a string value
    /// when necessary.
    pub fn get_datetime(&self, section: &str, key: &str) -> (r: Result<Timestamp, ConferError>)
        requires
            self.wf(),
        ensures
            (match fetch_model(self.model(), section@, key@) {
                Err(em) => r matches Err(e) && e.model() == em,
                Ok(v) => match v {
                    Val::Timestamp(t) => r matches Ok(d) && d.model() == t,
                    Val::Text(t) => match crate::value_conversion::datetime_of_text(t) {
                        Some(c) => r matches Ok(d) && d.model() == c,
                        None => r matches Err(e) && (e.model() matches ErrModel::ValueParse {
                            section: es,
                            key: ek,
                            message: _,
                        } && es == section@ && ek == key@),
                    },
                    mm => r matches Err(e) && e.model() == mismatch(section@, key@, "datetime"@, describe_model(mm)),
                },
            }),
    {
        match self.fetch_value(section, key) {
            Ok(v) => crate::value_conversion::datetime(section, key, v),
            Err(e) => Err(e),
        }
    }

    /// Retrieves a string array stored at `section.key`.
    pub fn get_string_vec(&self, section: &str, key: &str) -> (r: Result<Vec<String>, ConferError>)
        requires
            self.wf(),
        ensures
            (match fetch_model(self.model(), section@, key@) {
                Err(em) => r matches Err(e) && e.model() == em,
                Ok(v) => match v {
                    Val::Arr(items) => {
                        let bad = crate::value_conversion::first_bad(
                            items,
                            |w: Val| crate::value_conversion::is_text(w),
                        );
                        if bad < 0 {
                            r matches Ok(out) && out@.len() == items.len() && (forall|q: int|
                                0 <= q < items.len() ==> #[trigger] out@[q]@ == items[q]->Text_0)
                        } else {
                            r matches Err(e) && e.model() == (ErrModel::ValueParse {
                                section: section@,
                                key: key@,
                                message: crate::error::indexed_message(
                                    crate::value_conversion::element_mismatch_message(
                                        "string"@,
                                        describe_model(items[bad]),
                                    ),
                                    bad as nat,
                                ),
                            })
                        }
                    },
                    mm => r matches Err(e) && e.model() == mismatch(section@, key@, "array"@, describe_model(mm)),
                },
            }),
    {
        match self.fetch_value(section, key) {
            Ok(v) => crate::value_conversion::string_vec(section, key, v),
            Err(e) => Err(e),
        }
    }

    /// Retrieves an integer array stored at `section.key`.
    pub fn get_integer_vec(&self, section: &str, key: &str) -> (r: Result<Vec<i64>, ConferError>)
        requires
            self.wf(),
        ensures
            (match fetch_model(self.model(), section@, key@) {
                Err(em) => r matches Err(e) && e.model() == em,
                Ok(v) => match v {
                    Val::Arr(items) => {
                        let bad = crate::value_conversion::first_bad(
                            items,
                            |w: Val| crate::value_conversion::is_int(w),
                        );
                        if bad < 0 {
                            r matches Ok(out) && out@.len() == items.len() && (forall|q: int|
                                0 <= q < items.len() ==> #[trigger] out@[q] == items[q]->Int_0)
                        } else {
                            r matches Err(e) && e.model() == (ErrModel::ValueParse {
                                section: section@,
                                key: key@,
                                message: crate::error::indexed_message(
                                    crate::value_conversion::element_mismatch_message(
                                        "integer"@,
                                        describe_model(items[bad]),
                                    ),
                                    bad as nat,
                                ),
                            })
                        }
                    },
                    mm => r matches Err(e) && e.model() == mismatch(section@, key@, "array"@, describe_model(mm)),
                },
            }),
    {
        match self.fetch_value(section, key) {
            Ok(v) => crate::value_conversion::integer_vec(section, key, v),
            Err(e) => Err(e),
        }
    }

    /// Retrieves a float array, as 64-bit encodings, stored at `section.key`;
    /// integer elements are widened.
    pub fn get_float_vec(&self, section: &str, key: &str) -> (r: Result<Vec<u64>, ConferError>)
        requires
            self.wf(),
        ensures
            (match fetch_model(self.model(), section@, key@) {
                Err(em) => r matches Err(e) && e.model() == em,
                Ok(v) => match v {
                    Val::Arr(items) => {
                        let bad = crate::value_conversion::first_bad(
                            items,
                            |w: Val| crate::value_conversion::is_float_like(w),
                        );
                        if bad < 0 {
                            r matches Ok(out) && out@.len() == items.len() && (forall|q: int|
                                0 <= q < items.len() ==> #[trigger] out@[q]
                                    == crate::value_conversion::float_elem(items[q]))
                        } else {
                            r matches Err(e) && e.model() == (ErrModel::ValueParse {
                                section: section@,
                                key: key@,
                                message: crate::error::indexed_message(
                                    crate::value_conversion::element_mismatch_message(
                                        "float"@,
                                        describe_model(items[bad]),
                                    ),
                                    bad as nat,
                                ),
                            })
                        }
                    },
                    mm => r matches Err(e) && e.model() == mismatch(section@, key@, "array"@, describe_model(mm)),
                },
            }),
    {
        match self.fetch_value(section, key) {
            Ok(v) => crate::value_conversion::float_vec(section, key, v),
            Err(e) => Err(e),
        }
    }

    /// Retrieves a boolean array stored at `section.key`.
    pub fn get_boolean_vec(&self, section: &str, key: &str) -> (r: Result<Vec<bool>, ConferError>)
        requires
            self.wf(),
        ensures
            (match fetch_model(self.model(), section@, key@) {
                Err(em) => r matches Err(e) && e.model() == em,
                Ok(v) => match v {
                    Val::Arr(items) => {
                        let bad = crate::value_conversion::first_bad(
                            items,
                            |w: Val| crate::value_conversion::is_bool(w),
                        );
                        if bad < 0 {
                            r matches Ok(out) && out@.len() == items.len() && (forall|q: int|
                                0 <= q < items.len() ==> #[trigger] out@[q] == items[q]->Bool_0)
                        } else {
                            r matches Err(e) && e.model() == (ErrModel::ValueParse {
                                section: section@,
                                key: key@,
                                message: crate::error::indexed_message(
                                    crate::value_conversion::element_mismatch_message(
                                        "boolean"@,
                                        describe_model(items[bad]),
                                    ),
                                    bad as nat,
                                ),
                            })
                        }
                    },
                    mm => r matches Err(e) && e.model() == mismatch(section@, key@, "array"@, describe_model(mm)),
                },
            }),
    {
        match self.fetch_value(section, key) {
            Ok(v) => crate::value_conversion::boolean_vec(section, key, v),
            Err(e) => Err(e),
        }
    }

    /// Retrieves a timestamp array stored at `section.key`, parsing string
    /// elements when necessary.
    pub fn get_datetime_vec(&self, section: &str, key: &str) -> (r: Result<
        Vec<Timestamp>,
        ConferError,
    >)
        requires
            self.wf(),
        ensures
            (match fetch_model(self.model(), section@, key@) {
                Err(em) => r matches Err(e) && e.model() == em,
                Ok(v) => match v {
                    Val::Arr(items) => {
                        let bad = crate::value_conversion::first_bad(
                            items,
                            |w: Val| crate::value_conversion::is_datetime_like(w),
                        );
                        if bad < 0 {
                            r matches Ok(out) && out@.len() == items.len() && (forall|q: int|
                                0 <= q < items.len() ==> #[trigger] out@[q].model()
                                    == crate::value_conversion::datetime_elem(items[q]))
                        } else {
                            r matches Err(e) && (e.model() matches ErrModel::ValueParse {
                                section: es,
                                key: ek,
                                message: _,
                            } && es == section@ && ek == key@)
                        }
                    },
                    mm => r matches Err(e) && e.model() == mismatch(section@, key@, "array"@, describe_model(mm)),
                },
            }),
    {
        match self.fetch_value(section, key) {
            Ok(v) => crate::value_conversion::datetime_vec(section, key, v),
            Err(e) => Err(e),
        }
    }
}

/// What setting a value at `section.key` does to the document, when the
/// section name is free or holds a table.
pub open spec fn doc_after_set(m: Seq<(Seq<char>, Val)>, s: Seq<char>, k: Seq<char>, v: Val) -> Seq<
    (Seq<char>, Val),
> {
    upsert(m, s, Val::Tab(upsert(section_entries(m, s), k, v)))
}

impl Confer {
    /// Stores a string at `section.key`, creating the section if needed.
    pub fn set_string(&mut self, section: &str, key: &str, value: String) -> (r: Result<
        (),
        ConferError,
    >)
        requires
            old(self).wf(),
        ensures
            final(self).wf(),
            section_ok(old(self).model(), section@) ==> r is Ok && final(self).model()
                == doc_after_set(old(self).model(), section@, key@, Val::Text(value@)),
            !section_ok(old(self).model(), section@) ==> final(self).model() == old(self).model()
                && (r matches Err(e) && e.model() == section_mismatch(
                old(self).model(),
                section@,
            )),
    {
        self.set_value(section, key, ConferValue::String(value))
    }

    /// Stores a 64-bit signed integer at `section.key`, creating the section
    /// if needed.
    pub fn set_integer(&mut self, section: &str, key: &str, value: i64) -> (r: Result<
        (),
        ConferError,
    >)
        requires
            old(self).wf(),
        ensures
            final(self).wf(),
            section_ok(old(self).model(), section@) ==> r is Ok && final(self).model()
                == doc_after_set(old(self).model(), section@, key@, Val::Int(value)),
            !section_ok(old(self).model(), section@) ==> final(self).model() == old(self).model()
                && (r matches Err(e) && e.model() == section_mismatch(
                old(self).model(),
                section@,
            )),
    {
        self.set_value(section, key, ConferValue::Integer(value))
    }

    /// Stores a float, given as its 64-bit encoding, at `section.key`,
    /// creating the section if needed.
    pub fn set_float(&mut self, section: &str, key: &str, value: u64) -> (r: Result<
        (),
        ConferError,
    >)
        requires
            old(self).wf(),
        ensures
            final(self).wf(),
            section_ok(old(self).model(), section@) ==> r is Ok && final(self).model()
                == doc_after_set(old(self).model(), section@, key@, Val::Float(value)),
            !section_ok(old(self).model(), section@) ==> final(self).model() == old(self).model()
                && (r matches Err(e) && e.model() == section_mismatch(
                old(self).model(),
                section@,
            )),
    {
        self.set_value(section, key, ConferValue::Float(value))
    }

    /// Stores a boolean at `section.key`, creating the section if needed.
    pub fn set_boolean(&mut self, section: &str, key: &str, value: bool) -> (r: Result<
        (),
        ConferError,
    >)
        requires
            old(self).wf(),
        ensures
            final(self).wf(),
            section_ok(old(self).model(), section@) ==> r is Ok && final(self).model()
                == doc_after_set(old(self).model(), section@, key@, Val::Bool(value)),
            !section_ok(old(self).model(), section@) ==> final(self).model() == old(self).model()
                && (r matches Err(e) && e.model() == section_mismatch(
                old(self).model(),
                section@,
            )),
    {
        self.set_value(section, key, ConferValue::Boolean(value))
    }

    /// Stores a timestamp at `section.key`, creating the section if needed.
    pub fn set_datetime(&mut self, section: &str, key: &str, value: Timestamp) -> (r: Result<
        (),
        ConferError,
    >)
        requires
            old(self).wf(),
        ensures
            final(self).wf(),
            section_ok(old(self).model(), section@) ==> r is Ok && final(self).model()
                == doc_after_set(old(self).model(), section@, key@, Val::Timestamp(value.model())),
            !section_ok(old(self).model(), section@) ==> final(self).model() == old(self).model()
                && (r matches Err(e) && e.model() == section_mismatch(
                old(self).model(),
                section@,
            )),
    {
        self.set_value(section, key, ConferValue::Timestamp(value))
    }
}

impl Confer {
    /// Stores a string array at `section.key`, creating the section if
    /// needed.
    #[verifier::loop_isolation(false)]
    pub fn set_string_vec(&mut self, section: &str, key: &str, value: Vec<String>) -> (r: Result<
        (),
        ConferError,
    >)
        requires
            old(self).wf(),
        ensures
            final(self).wf(),
            section_ok(old(self).model(), section@) ==> r is Ok && final(self).model()
                == doc_after_set(
                old(self).model(),
                section@,
                key@,
                Val::Arr(value@.map_values(|x: String| Val::Text(x@))),
            ),
            !section_ok(old(self).model(), section@) ==> final(self).model() == old(self).model()
                && (r matches Err(e) && e.model() == section_mismatch(
                old(self).model(),
                section@,
            )),
    {
        let ghost target = value@.map_values(|x: String| Val::Text(x@));
        let mut items: Vec<ConferValue> = Vec::new();
        let mut i: usize = 0;
        while i < value.len()
            invariant
                i <= value@.len(),
                items@.len() == i,
                forall|j: int| 0 <= j < i ==> #[trigger] items@[j].model() == target[j],
            decreases value@.len() - i,
        {
            items.push(ConferValue::String(value[i].clone()));
            i += 1;
        }
        proof {
            crate::value::lemma_items_model(items@);
            assert forall|q: int|
                0 <= q < items@.len() implies crate::value::items_model(items@)[q] == target[q] by {
                assert(crate::value::items_model(items@)[q] == items@[q].model());
            }
            assert(crate::value::items_model(items@) =~= target);
            crate::value::lemma_items_wf(crate::value::items_model(items@));
            assert forall|q: int|
                0 <= q < crate::value::items_model(items@).len() implies #[trigger] crate::value::items_model(
                items@,
            )[q].wf() by {
                assert(crate::value::items_model(items@)[q] == target[q]);
            }
            assert(ConferValue::Array(items).model().wf());
        }
        self.set_value(section, key, ConferValue::Array(items))
    }

    /// Stores an integer array at `section.key`, creating the section if
    /// needed.
    #[verifier::loop_isolation(false)]
    pub fn set_integer_vec(&mut self, section: &str, key: &str, value: Vec<i64>) -> (r: Result<
        (),
        ConferError,
    >)
        requires
            old(self).wf(),
        ensures
            final(self).wf(),
            section_ok(old(self).model(), section@) ==> r is Ok && final(self).model()
                == doc_after_set(
                old(self).model(),
                section@,
                key@,
                Val::Arr(value@.map_values(|x: i64| Val::Int(x))),
            ),
            !section_ok(old(self).model(), section@) ==> final(self).model() == old(self).model()
                && (r matches Err(e) && e.model() == section_mismatch(
                old(self).model(),
                section@,
            )),
    {
        let ghost target = value@.map_values(|x: i64| Val::Int(x));
        let mut items: Vec<ConferValue> = Vec::new();
        let mut i: usize = 0;
        while i < value.len()
            invariant
                i <= value@.len(),
                items@.len() == i,
                forall|j: int| 0 <= j < i ==> #[trigger] items@[j].model() == target[j],
            decreases value@.len() - i,
        {
            items.push(ConferValue::Integer(value[i]));
            i += 1;
        }
        proof {
            crate::value::lemma_items_model(items@);
            assert forall|q: int|
                0 <= q < items@.len() implies crate::value::items_model(items@)[q] == target[q] by {
                assert(crate::value::items_model(items@)[q] == items@[q].model());
            }
            assert(crate::value::items_model(items@) =~= target);
            crate::value::lemma_items_wf(crate::value::items_model(items@));
            assert forall|q: int|
                0 <= q < crate::value::items_model(items@).len() implies #[trigger] crate::value::items_model(
                items@,
            )[q].wf() by {
                assert(crate::value::items_model(items@)[q] == target[q]);
            }
            assert(ConferValue::Array(items).model().wf());
        }
        self.set_value(section, key, ConferValue::Array(items))
    }

    /// Stores a float array, given as 64-bit encodings, at `section.key`,
    /// creating the section if needed.
    #[verifier::loop_isolation(false)]
    pub fn set_float_vec(&mut self, section: &str, key: &str, value: Vec<u64>) -> (r: Result<
        (),
        ConferError,
    >)
        requires
            old(self).wf(),
        ensures
            final(self).wf(),
            section_ok(old(self).model(), section@) ==> r is Ok && final(self).model()
                == doc_after_set(
                old(self).model(),
                section@,
                key@,
                Val::Arr(value@.map_values(|x: u64| Val::Float(x))),
            ),
            !section_ok(old(self).model(), section@) ==> final(self).model() == old(self).model()
                && (r matches Err(e) && e.model() == section_mismatch(
                old(self).model(),
                section@,
            )),
    {
        let ghost target = value@.map_values(|x: u64| Val::Float(x));
        let mut items: Vec<ConferValue> = Vec::new();
        let mut i: usize = 0;
        while i < value.len()
            invariant
                i <= value@.len(),
                items@.len() == i,
                forall|j: int| 0 <= j < i ==> #[trigger] items@[j].model() == target[j],
            decreases value@.len() - i,
        {
            items.push(ConferValue::Float(value[i]));
            i += 1;
        }
        proof {
            crate::value::lemma_items_model(items@);
            assert forall|q: int|
                0 <= q < items@.len() implies crate::value::items_model(items@)[q] == target[q] by {
                assert(crate::value::items_model(items@)[q] == items@[q].model());
            }
            assert(crate::value::items_model(items@) =~= target);
            crate::value::lemma_items_wf(crate::value::items_model(items@));
            assert forall|q: int|
                0 <= q < crate::value::items_model(items@).len() implies #[trigger] crate::value::items_model(
                items@,
            )[q].wf() by {
                assert(crate::value::items_model(items@)[q] == target[q]);
            }
            assert(ConferValue::Array(items).model().wf());
        }
        self.set_value(section, key, ConferValue::Array(items))
    }

    /// Stores a boolean array at `section.key`, creating the section if
    /// needed.
    #[verifier::loop_isolation(false)]
    pub fn set_boolean_vec(&mut self, section: &str, key: &str, value: Vec<bool>) -> (r: Result<
        (),
        ConferError,
    >)
        requires
            old(self).wf(),
        ensures
            final(self).wf(),
            section_ok(old(self).model(), section@) ==> r is Ok && final(self).model()
                == doc_after_set(
                old(self).model(),
                section@,
                key@,
                Val::Arr(value@.map_values(|x: bool| Val::Bool(x))),
            ),
            !section_ok(old(self).model(), section@) ==> final(self).model() == old(self).model()
                && (r matches Err(e) && e.model() == section_mismatch(
                old(self).model(),
                section@,
            )),
    {
        let ghost target = value@.map_values(|x: bool| Val::Bool(x));
        let mut items: Vec<ConferValue> = Vec::new();
        let mut i: usize = 0;
        while i < value.len()
            invariant
                i <= value@.len(),
                items@.len() == i,
                forall|j: int| 0 <= j < i ==> #[trigger] items@[j].model() == target[j],
            decreases value@.len() - i,
        {
            items.push(ConferValue::Boolean(value[i]));
            i += 1;
        }
        proof {
            crate::value::lemma_items_model(items@);
            assert forall|q: int|
                0 <= q < items@.len() implies crate::value::items_model(items@)[q] == target[q] by {
                assert(crate::value::items_model(items@)[q] == items@[q].model());
            }
            assert(crate::value::items_model(items@) =~= target);
            crate::value::lemma_items_wf(crate::value::items_model(items@));
            assert forall|q: int|
                0 <= q < crate::value::items_model(items@).len() implies #[trigger] crate::value::items_model(
                items@,
            )[q].wf() by {
                assert(crate::value::items_model(items@)[q] == target[q]);
            }
            assert(ConferValue::Array(items).model().wf());
        }
        self.set_value(section, key, ConferValue::Array(items))
    }

    /// Stores a timestamp array at `section.key`, creating the section if
    /// needed.
    #[verifier::loop_isolation(false)]
    pub fn set_datetime_vec(&mut self, section: &str, key: &str, value: Vec<Timestamp>) -> (r:
        Result<(), ConferError>)
        requires
            old(self).wf(),
        ensures
            final(self).wf(),
            section_ok(old(self).model(), section@) ==> r is Ok && final(self).model()
                == doc_after_set(
                old(self).model(),
                section@,
                key@,
                Val::Arr(value@.map_values(|x: Timestamp| Val::Timestamp(x.model()))),
            ),
            !section_ok(old(self).model(), section@) ==> final(self).model() == old(self).model()
                && (r matches Err(e) && e.model() == section_mismatch(
                old(self).model(),
                section@,
            )),
    {
        let ghost target = value@.map_values(|x: Timestamp| Val::Timestamp(x.model()));
        let mut items: Vec<ConferValue> = Vec::new();
        let mut i: usize = 0;
        while i < value.len()
            invariant
                i <= value@.len(),
                items@.len() == i,
                forall|j: int| 0 <= j < i ==> #[trigger] items@[j].model() == target[j],
            decreases value@.len() - i,
        {
            items.push(ConferValue::Timestamp(Timestamp::new(value[i].text.clone())));
            i += 1;
        }
        proof {
            crate::value::lemma_items_model(items@);
            assert forall|q: int|
                0 <= q < items@.len() implies crate::value::items_model(items@)[q] == target[q] by {
                assert(crate::value::items_model(items@)[q] == items@[q].model());
            }
            assert(crate::value::items_model(items@) =~= target);
            crate::value::lemma_items_wf(crate::value::items_model(items@));
            assert forall|q: int|
                0 <= q < crate::value::items_model(items@).len() implies #[trigger] crate::value::items_model(
                items@,
            )[q].wf() by {
                assert(crate::value::items_model(items@)[q] == target[q]);
            }
            assert(ConferValue::Array(items).model().wf());
        }
        self.set_value(section, key, ConferValue::Array(items))
    }
}

/// Names of the entries that hold tables, in order.
pub open spec fn table_names(m: Seq<(Seq<char>, Val)>) -> Seq<Seq<char>>
    decreases m,
{
    if m.len() == 0 {
        Seq::empty()
    } else {
        let rest = table_names(m.subrange(0, m.len() - 1));
        if m.last().1 is Tab {
            rest.push(m.last().0)
        } else {
            rest
        }
    }
}

/// The TOML document, as this store models it, that the given text parses
/// to, or nothing when the text is malformed.
pub uninterp spec fn toml_document_of_text(s: Seq<char>) -> Option<Seq<(Seq<char>, Val)>>;

/// The TOML text that the given document renders to, or nothing when the
/// document cannot be represented (a timestamp whose text is not a TOML
/// datetime, or a shape the TOML serialiser refuses).
pub uninterp spec fn toml_text_of_document(d: Seq<(Seq<char>, Val)>) -> Option<Seq<char>>;

/// Relies on `toml::from_str::<toml::Table>`: whether text parses as a TOML
/// document, and what it parses to, depend on the text alone; a parsed table
/// has unique keys at every level.  The error text is toml's own and is
/// promised nothing.
#[verifier::external_body]
fn parse_document_text(s: &str) -> (r: Result<Vec<(String, ConferValue)>, String>)
    ensures
        (r is Ok <==> toml_document_of_text(s@) is Some),
        (r matches Ok(t) ==> toml_document_of_text(s@) == Some(entries_model(t@)) && doc_wf(
            entries_model(t@),
        )),
{
    match toml::from_str::<toml::Table>(s) {
        Ok(t) => Ok(table_entries_from_toml(t)),
        Err(e) => Err(e.to_string()),
    }
}

/// Relies on toml's `Map` iteration: converts a parsed TOML table to the
/// store's entries, one for one and in the map's order.
#[verifier::external_body]
fn table_entries_from_toml(t: toml::Table) -> Vec<(String, ConferValue)> {
    t.into_iter().map(|(k, v)| (k, value_from_toml(v))).collect()
}

/// Relies on toml's `Value` variants and its datetime display form: converts
/// a parsed TOML value to the store's value union, one for one.
#[verifier::external_body]
fn value_from_toml(v: toml::Value) -> ConferValue {
    match v {
        toml::Value::String(s) => ConferValue::String(s),
        toml::Value::Integer(i) => ConferValue::Integer(i),
        toml::Value::Float(f) => ConferValue::Float(f.to_bits()),
        toml::Value::Boolean(b) => ConferValue::Boolean(b),
        toml::Value::Datetime(d) => ConferValue::Timestamp(Timestamp { text: d.to_string() }),
        toml::Value::Array(items) => ConferValue::Array(
            items.into_iter().map(value_from_toml).collect(),
        ),
        toml::Value::Table(t) => ConferValue::Table(table_entries_from_toml(t)),
    }
}

/// Relies on `toml::to_string` over a table rebuilt from the document:
/// whether rendering succeeds, and the text produced, depend on the document
/// alone.  The error text is toml's own and is promised nothing.
#[verifier::external_body]
fn render_document_text(entries: &Vec<(String, ConferValue)>) -> (r: Result<String, String>)
    ensures
        (r is Ok <==> toml_text_of_document(entries_model(entries@)) is Some),
        (r matches Ok(t) ==> toml_text_of_document(entries_model(entries@)) == Some(t@)),
{
    match table_entries_to_toml(entries) {
        Ok(t) => toml::to_string(&t).map_err(|e| e.to_string()),
        Err(e) => Err(e),
    }
}

/// Relies on toml's `Map::insert`: rebuilds a TOML table from the store's
/// entries, one for one.
#[verifier::external_body]
fn table_entries_to_toml(entries: &Vec<(String, ConferValue)>) -> Result<toml::Table, String> {
    let mut t = toml::Table::new();
    for (k, v) in entries.iter() {
        t.insert(k.clone(), value_to_toml(v)?);
    }
    Ok(t)
}

/// Relies on toml's `Value` variants, its datetime parser, and a bit-for-bit
/// cast of the stored float encoding: rebuilds a TOML value from the store's
/// value union, one for one; fails on a timestamp whose text does not parse.
#[verifier::external_body]
fn value_to_toml(v: &ConferValue) -> Result<toml::Value, String> {
    Ok(match v {
        ConferValue::String(s) => toml::Value::String(s.clone()),
        ConferValue::Integer(i) => toml::Value::Integer(*i),
        ConferValue::Float(b) => toml::Value::Float(bytemuck::cast(*b)),
        ConferValue::Boolean(b) => toml::Value::Boolean(*b),
        ConferValue::Timestamp(d) => toml::Value::Datetime(
            <toml::value::Datetime as core::str::FromStr>::from_str(&d.text).map_err(|e| e.to_string())?,
        ),
        ConferValue::Array(xs) => toml::Value::Array(
            xs.iter().map(value_to_toml).collect::<Result<Vec<toml::Value>, String>>()?,
        ),
        ConferValue::Table(es) => toml::Value::Table(table_entries_to_toml(es)?),
    })
}

impl Confer {
    /// Builds a store from TOML text.
    pub fn from_string(source: &str) -> (r: Result<Confer, ConferError>)
        ensures
            (match toml_document_of_text(source@) {
                Some(d) => r matches Ok(c) && c.model() == d && c.wf(),
                None => r matches Err(e) && e.model() matches ErrModel::Parse { message: _ },
            }),
    {
        match parse_document_text(source) {
            Ok(entries) => Ok(Confer { entries }),
            Err(message) => Err(ConferError::Parse { message }),
        }
    }

    /// Parses `source` and replaces the whole document with it; on a parse
    /// error the document is left as it was.
    pub fn load_str(&mut self, source: &str) -> (r: Result<(), ConferError>)
        requires
            old(self).wf(),
        ensures
            final(self).wf(),
            (match toml_document_of_text(source@) {
                Some(d) => r is Ok && final(self).model() == d,
                None => final(self).model() == old(self).model() && (r matches Err(e) && e.model()
                    matches ErrModel::Parse { message: _ }),
            }),
    {
        match parse_document_text(source) {
            Ok(entries) => {
                self.entries = entries;
                Ok(())
            },
            Err(message) => Err(ConferError::Parse { message }),
        }
    }

    /// Renders the whole document as TOML text.
    pub fn save_str(&self) -> (r: Result<String, ConferError>)
        ensures
            (match toml_text_of_document(self.model()) {
                Some(t) => r matches Ok(x) && x@ == t,
                None => r matches Err(e) && e.model() matches ErrModel::Serialize { message: _ },
            }),
    {
        match render_document_text(&self.entries) {
            Ok(text) => Ok(text),
            Err(message) => Err(ConferError::Serialize { message }),
        }
    }
}

/// The sibling path used while a file is written before the atomic rename
/// into place.
pub fn temporary_path(path: &str) -> (r: String)
    ensures
        r@ == path@ + ".tmp"@,
{
    let mut s: String = path.to_owned();
    s.append(".tmp");
    s
}

} // verus!
