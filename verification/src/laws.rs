//! General properties of the store and the synchronisation engine, each
//! proved over the models the operations are specified against.

use vstd::prelude::*;

use crate::confer_module::{
    declared_keys, field_action, field_outcome, pruned, spec_load_from, spec_save, spec_save_from,
    FieldOutcome, Fs, Fv, SaveAction,
};
use crate::error::ErrModel;
use crate::store::{doc_after_add_section, doc_after_set, fetch_model, section_entries, section_ok};
use crate::value::{
    doc_wf, has_key, keys_unique, lemma_remove_entry, lemma_tab_wf, lemma_upsert, lookup,
    remove_entry, upsert, Val,
};

verus! {

/// Storing a value at `section.key` and fetching it back yields that value,
/// for every document whose section name is free or a table.  Each typed
/// accessor then returns the stored payload, by its own contract over the
/// fetched value.
pub proof fn lemma_set_then_get(
    m: Seq<(Seq<char>, Val)>,
    section: Seq<char>,
    key: Seq<char>,
    v: Val,
)
    requires
        section_ok(m, section),
    ensures
        fetch_model(doc_after_set(m, section, key, v), section, key) == Ok::<Val, ErrModel>(v),
{
    let sec = section_entries(m, section);
    lemma_upsert(sec, key, v);
    lemma_upsert(m, section, Val::Tab(upsert(sec, key, v)));
}

/// Adding a section is idempotent: once the name holds a table, adding it
/// again changes nothing, and exactly one (possibly empty) table stands
/// under the name.
pub proof fn lemma_add_section_idempotent(m: Seq<(Seq<char>, Val)>, s: Seq<char>)
    requires
        section_ok(m, s),
    ensures
        doc_after_add_section(doc_after_add_section(m, s), s) == doc_after_add_section(m, s),
        lookup(doc_after_add_section(m, s), s) matches Some(v) && v is Tab,
        section_ok(doc_after_add_section(m, s), s),
{
    if lookup(m, s) is Some {
    } else {
        lemma_upsert(m, s, Val::Tab(Seq::empty()));
    }
}

/// Pruning keeps exactly the names that were present and are kept.
pub proof fn lemma_pruned_keys(w: Seq<(Seq<char>, Val)>, keep: Set<Seq<char>>)
    ensures
        forall|k: Seq<char>|
            #[trigger] has_key(pruned(w, keep), k) <==> (has_key(w, k) && keep.contains(k)),
    decreases w.len(),
{
    let p = pruned(w, keep);
    if w.len() == 0 {
        assert forall|k: Seq<char>| #[trigger] has_key(p, k) <==> (has_key(w, k) && keep.contains(
            k,
        )) by {
            assert(!has_key(p, k));
            assert(!has_key(w, k));
        }
    } else {
        let t = w.subrange(0, w.len() - 1);
        lemma_pruned_keys(t, keep);
        let pt = pruned(t, keep);
        assert forall|k: Seq<char>| #[trigger] has_key(p, k) implies (has_key(w, k)
            && keep.contains(k)) by {
            let q = choose|q: int| 0 <= q < p.len() && p[q].0 == k;
            if keep.contains(w.last().0) && q == p.len() - 1 {
                assert(p[q] == w.last());
                assert(w[w.len() - 1].0 == k);
            } else {
                assert(p[q] == pt[q]);
                assert(has_key(pt, k));
                let j = choose|j: int| 0 <= j < t.len() && t[j].0 == k;
                assert(w[j].0 == k);
            }
        }
        assert forall|k: Seq<char>| has_key(w, k) && keep.contains(k) implies #[trigger] has_key(
            p,
            k,
        ) by {
            let q = choose|q: int| 0 <= q < w.len() && w[q].0 == k;
            if q < w.len() - 1 {
                assert(t[q] == w[q]);
                assert(has_key(t, k));
                assert(has_key(pt, k));
                let j = choose|j: int| 0 <= j < pt.len() && pt[j].0 == k;
                assert(p[j] == pt[j]);
            } else {
                assert(p[p.len() - 1] == w.last());
            }
        }
    }
}

/// Reconciliation: after a save pass that ends without an error, every key
/// the section still holds is one the schema declares.  An undeclared key,
/// whether left by an earlier schema, by hand, or by an ignored field, is
/// gone.
pub proof fn lemma_save_prunes_orphans(
    doc: Seq<(Seq<char>, Val)>,
    section: Seq<char>,
    fields: Seq<Fs>,
    rec: Seq<Fv>,
)
    requires
        spec_save(doc, section, fields, rec).1,
    ensures
        forall|k: Seq<char>|
            #[trigger] has_key(section_entries(spec_save(doc, section, fields, rec).0, section), k)
                ==> declared_keys(fields).contains(k),
{
    let d0 = if lookup(doc, section) is Some {
        doc
    } else {
        upsert(doc, section, Val::Tab(Seq::empty()))
    };
    let step = crate::confer_module::spec_save_from(d0, section, fields, rec, 0);
    let w = section_entries(step.0, section);
    let keep = declared_keys(fields);
    lemma_upsert(step.0, section, Val::Tab(pruned(w, keep)));
    lemma_pruned_keys(w, keep);
    assert(section_entries(spec_save(doc, section, fields, rec).0, section) == pruned(w, keep));
}

/// A load pass only writes at or after the field it is looking at: the
/// prefix of the record before that field keeps its values.
pub proof fn lemma_load_preserves_prefix(
    doc: Seq<(Seq<char>, Val)>,
    section: Seq<char>,
    fields: Seq<Fs>,
    rec: Seq<Fv>,
    i: int,
)
    requires
        rec.len() == fields.len(),
    ensures
        spec_load_from(doc, section, fields, rec, i).0.len() == rec.len(),
        forall|j: int|
            0 <= j < i && j < rec.len() ==> #[trigger] spec_load_from(
                doc,
                section,
                fields,
                rec,
                i,
            ).0[j] == rec[j],
    decreases fields.len() - i,
{
    if 0 <= i < fields.len() {
        match field_outcome(doc, section, fields[i]) {
            FieldOutcome::Skip => {
                lemma_load_preserves_prefix(doc, section, fields, rec, i + 1);
                assert(spec_load_from(doc, section, fields, rec, i) == spec_load_from(
                    doc,
                    section,
                    fields,
                    rec,
                    i + 1,
                ));
                assert forall|j: int| 0 <= j < i && j < rec.len() implies #[trigger] spec_load_from(
                    doc,
                    section,
                    fields,
                    rec,
                    i,
                ).0[j] == rec[j] by {
                    assert(spec_load_from(doc, section, fields, rec, i + 1).0[j] == rec[j]);
                }
            },
            FieldOutcome::Loaded(fv) => {
                let stepped = rec.update(i, fv);
                lemma_load_preserves_prefix(doc, section, fields, stepped, i + 1);
                assert(spec_load_from(doc, section, fields, rec, i) == spec_load_from(
                    doc,
                    section,
                    fields,
                    stepped,
                    i + 1,
                ));
                assert forall|j: int| 0 <= j < i && j < rec.len() implies #[trigger] spec_load_from(
                    doc,
                    section,
                    fields,
                    rec,
                    i,
                ).0[j] == rec[j] by {
                    assert(spec_load_from(doc, section, fields, stepped, i + 1).0[j] == stepped[j]);
                }
            },
            FieldOutcome::Fail => {},
        }
    }
}

/// Loading twice without intervening writes is idempotent: a second pass
/// over a record that a successful pass produced ends without an error and
/// leaves the record as it is.
pub proof fn lemma_load_idempotent(
    doc: Seq<(Seq<char>, Val)>,
    section: Seq<char>,
    fields: Seq<Fs>,
    rec: Seq<Fv>,
)
    requires
        rec.len() == fields.len(),
        spec_load_from(doc, section, fields, rec, 0).1,
    ensures
        spec_load_from(
            doc,
            section,
            fields,
            spec_load_from(doc, section, fields, rec, 0).0,
            0,
        ) == (spec_load_from(doc, section, fields, rec, 0).0, true),
{
    lemma_load_idempotent_from(doc, section, fields, rec, 0);
}

/// The inductive heart of load idempotence, from any starting field.
pub proof fn lemma_load_idempotent_from(
    doc: Seq<(Seq<char>, Val)>,
    section: Seq<char>,
    fields: Seq<Fs>,
    rec: Seq<Fv>,
    i: int,
)
    requires
        rec.len() == fields.len(),
        spec_load_from(doc, section, fields, rec, i).1,
    ensures
        spec_load_from(
            doc,
            section,
            fields,
            spec_load_from(doc, section, fields, rec, i).0,
            i,
        ) == (spec_load_from(doc, section, fields, rec, i).0, true),
    decreases fields.len() - i,
{
    if 0 <= i < fields.len() {
        let r1 = spec_load_from(doc, section, fields, rec, i).0;
        match field_outcome(doc, section, fields[i]) {
            FieldOutcome::Skip => {
                lemma_load_idempotent_from(doc, section, fields, rec, i + 1);
            },
            FieldOutcome::Loaded(fv) => {
                let stepped = rec.update(i, fv);
                lemma_load_idempotent_from(doc, section, fields, stepped, i + 1);
                lemma_load_preserves_prefix(doc, section, fields, stepped, i + 1);
                if 0 <= i < rec.len() {
                    assert(r1[i] == stepped[i]);
                    assert(r1.update(i, fv) =~= r1);
                } else {
                    assert(stepped =~= rec);
                    assert(r1.update(i, fv) =~= r1);
                }
            },
            FieldOutcome::Fail => {},
        }
    }
}

/// Loading against a section with no keys, where every non-ignored field has
/// a declared default, ends without an error and applies exactly the
/// defaults; ignored fields keep their values.
pub proof fn lemma_load_applies_defaults(
    doc: Seq<(Seq<char>, Val)>,
    section: Seq<char>,
    fields: Seq<Fs>,
    rec: Seq<Fv>,
)
    requires
        section_ok(doc, section),
        section_entries(doc, section).len() == 0,
        rec.len() == fields.len(),
        forall|i: int|
            0 <= i < fields.len() ==> (#[trigger] fields[i]).ignore || fields[i].default is Some,
    ensures
        spec_load_from(doc, section, fields, rec, 0).1,
        forall|i: int|
            0 <= i < fields.len() ==> #[trigger] spec_load_from(doc, section, fields, rec, 0).0[i]
                == (if fields[i].ignore {
                rec[i]
            } else {
                fields[i].default->Some_0
            }),
{
    lemma_load_applies_defaults_from(doc, section, fields, rec, 0);
}

/// The inductive heart of default application, from any starting field.
pub proof fn lemma_load_applies_defaults_from(
    doc: Seq<(Seq<char>, Val)>,
    section: Seq<char>,
    fields: Seq<Fs>,
    rec: Seq<Fv>,
    i: int,
)
    requires
        section_ok(doc, section),
        section_entries(doc, section).len() == 0,
        rec.len() == fields.len(),
        forall|q: int|
            0 <= q < fields.len() ==> (#[trigger] fields[q]).ignore || fields[q].default is Some,
        0 <= i,
    ensures
        spec_load_from(doc, section, fields, rec, i).1,
        spec_load_from(doc, section, fields, rec, i).0.len() == rec.len(),
        forall|q: int|
            0 <= q < i && q < fields.len() ==> #[trigger] spec_load_from(
                doc,
                section,
                fields,
                rec,
                i,
            ).0[q] == rec[q],
        forall|q: int|
            i <= q < fields.len() ==> #[trigger] spec_load_from(doc, section, fields, rec, i).0[q]
                == (if fields[q].ignore {
                rec[q]
            } else {
                fields[q].default->Some_0
            }),
    decreases fields.len() - i,
{
    if i < fields.len() {
        let f = fields[i];
        if f.ignore {
            lemma_load_applies_defaults_from(doc, section, fields, rec, i + 1);
        } else {
            assert(!has_key(section_entries(doc, section), f.key));
            assert(fetch_model(doc, section, f.key) == Err::<Val, ErrModel>(
                ErrModel::MissingKey { section, key: f.key },
            ));
            assert(field_outcome(doc, section, f) == FieldOutcome::Loaded(f.default->Some_0));
            let stepped = rec.update(i, f.default->Some_0);
            lemma_load_applies_defaults_from(doc, section, fields, stepped, i + 1);
        }
    }
}


/// Putting a value under a key keeps the section a table, keeps its names
/// unique, makes the key present, and touches no other name.
pub proof fn lemma_put_step(doc: Seq<(Seq<char>, Val)>, section: Seq<char>, key: Seq<char>, v: Val)
    requires
        lookup(doc, section) matches Some(w) && w is Tab,
        keys_unique(section_entries(doc, section)),
    ensures
        ({
            let d1 = doc_after_set(doc, section, key, v);
            &&& (lookup(d1, section) matches Some(w) && w is Tab)
            &&& keys_unique(section_entries(d1, section))
            &&& has_key(section_entries(d1, section), key)
            &&& (forall|k: Seq<char>|
                k != key ==> #[trigger] has_key(section_entries(d1, section), k) == has_key(
                    section_entries(doc, section),
                    k,
                ))
        }),
{
    let sec = section_entries(doc, section);
    lemma_upsert(sec, key, v);
    lemma_upsert(doc, section, Val::Tab(upsert(sec, key, v)));
}

/// Dropping a key keeps the section a table, keeps its names unique, makes
/// the key absent, and touches no other name.
pub proof fn lemma_drop_step(doc: Seq<(Seq<char>, Val)>, section: Seq<char>, key: Seq<char>)
    requires
        lookup(doc, section) matches Some(w) && w is Tab,
        keys_unique(section_entries(doc, section)),
    ensures
        ({
            let d2 = upsert(
                doc,
                section,
                Val::Tab(remove_entry(section_entries(doc, section), key)),
            );
            &&& (lookup(d2, section) matches Some(w) && w is Tab)
            &&& keys_unique(section_entries(d2, section))
            &&& !has_key(section_entries(d2, section), key)
            &&& (forall|k: Seq<char>|
                k != key ==> #[trigger] has_key(section_entries(d2, section), k) == has_key(
                    section_entries(doc, section),
                    k,
                ))
        }),
{
    let sec = section_entries(doc, section);
    lemma_remove_entry(sec, key);
    lemma_upsert(doc, section, Val::Tab(remove_entry(sec, key)));
}

/// The write phase never touches a name that no remaining field declares.
pub proof fn lemma_save_from_untouched(
    doc: Seq<(Seq<char>, Val)>,
    section: Seq<char>,
    fields: Seq<Fs>,
    rec: Seq<Fv>,
    i: int,
    k: Seq<char>,
)
    requires
        lookup(doc, section) matches Some(w) && w is Tab,
        keys_unique(section_entries(doc, section)),
        rec.len() == fields.len(),
        forall|q: int| i <= q < fields.len() ==> (#[trigger] fields[q]).key != k,
    ensures
        ({
            let d1 = spec_save_from(doc, section, fields, rec, i).0;
            &&& (lookup(d1, section) matches Some(w) && w is Tab)
            &&& keys_unique(section_entries(d1, section))
            &&& has_key(section_entries(d1, section), k) == has_key(
                section_entries(doc, section),
                k,
            )
        }),
    decreases fields.len() - i,
{
    if 0 <= i < fields.len() {
        if fields[i].ignore {
            lemma_save_from_untouched(doc, section, fields, rec, i + 1, k);
        } else {
            match field_action(rec[i]) {
                SaveAction::Put(v) => {
                    lemma_put_step(doc, section, fields[i].key, v);
                    lemma_save_from_untouched(
                        doc_after_set(doc, section, fields[i].key, v),
                        section,
                        fields,
                        rec,
                        i + 1,
                        k,
                    );
                },
                SaveAction::Drop => {
                    lemma_drop_step(doc, section, fields[i].key);
                    lemma_save_from_untouched(
                        upsert(
                            doc,
                            section,
                            Val::Tab(remove_entry(section_entries(doc, section), fields[i].key)),
                        ),
                        section,
                        fields,
                        rec,
                        i + 1,
                        k,
                    );
                },
                SaveAction::Fail => {},
            }
        }
    }
}

/// After the write phase, a declared name is present exactly when its field
/// put a value (and absent when the field is an absent optional one), as
/// long as no later field declares the same name.
pub proof fn lemma_save_from_written(
    doc: Seq<(Seq<char>, Val)>,
    section: Seq<char>,
    fields: Seq<Fs>,
    rec: Seq<Fv>,
    i: int,
    j: int,
)
    requires
        lookup(doc, section) matches Some(w) && w is Tab,
        keys_unique(section_entries(doc, section)),
        rec.len() == fields.len(),
        0 <= i <= j < fields.len(),
        !fields[j].ignore,
        forall|q: int| j < q < fields.len() ==> (#[trigger] fields[q]).key != fields[j].key,
        spec_save_from(doc, section, fields, rec, i).1,
    ensures
        has_key(
            section_entries(spec_save_from(doc, section, fields, rec, i).0, section),
            fields[j].key,
        ) == (field_action(rec[j]) is Put),
    decreases fields.len() - i,
{
    if i == j {
        match field_action(rec[i]) {
            SaveAction::Put(v) => {
                lemma_put_step(doc, section, fields[i].key, v);
                lemma_save_from_untouched(
                    doc_after_set(doc, section, fields[i].key, v),
                    section,
                    fields,
                    rec,
                    i + 1,
                    fields[j].key,
                );
            },
            SaveAction::Drop => {
                lemma_drop_step(doc, section, fields[i].key);
                lemma_save_from_untouched(
                    upsert(
                        doc,
                        section,
                        Val::Tab(remove_entry(section_entries(doc, section), fields[i].key)),
                    ),
                    section,
                    fields,
                    rec,
                    i + 1,
                    fields[j].key,
                );
            },
            SaveAction::Fail => {},
        }
    } else {
        if fields[i].ignore {
            lemma_save_from_written(doc, section, fields, rec, i + 1, j);
        } else {
            match field_action(rec[i]) {
                SaveAction::Put(v) => {
                    lemma_put_step(doc, section, fields[i].key, v);
                    lemma_save_from_written(
                        doc_after_set(doc, section, fields[i].key, v),
                        section,
                        fields,
                        rec,
                        i + 1,
                        j,
                    );
                },
                SaveAction::Drop => {
                    lemma_drop_step(doc, section, fields[i].key);
                    lemma_save_from_written(
                        upsert(
                            doc,
                            section,
                            Val::Tab(remove_entry(section_entries(doc, section), fields[i].key)),
                        ),
                        section,
                        fields,
                        rec,
                        i + 1,
                        j,
                    );
                },
                SaveAction::Fail => {},
            }
        }
    }
}

/// Reconciliation, in full: after a save pass that ends without an error on
/// a well-formed document whose schema keys are pairwise distinct, the
/// section holds a declared name exactly when its field put a value -- an
/// absent optional field's name is gone -- and holds no undeclared name at
/// all.
pub proof fn lemma_save_reconciles(
    doc: Seq<(Seq<char>, Val)>,
    section: Seq<char>,
    fields: Seq<Fs>,
    rec: Seq<Fv>,
)
    requires
        doc_wf(doc),
        rec.len() == fields.len(),
        forall|p: int, q: int| 0 <= p < q < fields.len() ==> fields[p].key != fields[q].key,
        spec_save(doc, section, fields, rec).1,
    ensures
        forall|j: int|
            0 <= j < fields.len() && !(#[trigger] fields[j]).ignore ==> has_key(
                section_entries(spec_save(doc, section, fields, rec).0, section),
                fields[j].key,
            ) == (field_action(rec[j]) is Put),
        forall|k: Seq<char>|
            #[trigger] has_key(section_entries(spec_save(doc, section, fields, rec).0, section), k)
                ==> declared_keys(fields).contains(k),
{
    let d0 = if lookup(doc, section) is Some {
        doc
    } else {
        upsert(doc, section, Val::Tab(Seq::empty()))
    };
    if lookup(doc, section) is Some {
        crate::value::lemma_index_of(doc, section);
        assert(doc[crate::value::index_of(doc, section)].1.wf());
        lemma_tab_wf(lookup(doc, section)->Some_0);
    } else {
        lemma_upsert(doc, section, Val::Tab(Seq::empty()));
    }
    assert(lookup(d0, section) matches Some(w) && w is Tab);
    assert(keys_unique(section_entries(d0, section)));
    let step = spec_save_from(d0, section, fields, rec, 0);
    let w = section_entries(step.0, section);
    let keep = declared_keys(fields);
    lemma_upsert(step.0, section, Val::Tab(pruned(w, keep)));
    lemma_pruned_keys(w, keep);
    assert(section_entries(spec_save(doc, section, fields, rec).0, section) == pruned(w, keep));
    assert forall|j: int| 0 <= j < fields.len() && !(#[trigger] fields[j]).ignore implies has_key(
        section_entries(spec_save(doc, section, fields, rec).0, section),
        fields[j].key,
    ) == (field_action(rec[j]) is Put) by {
        lemma_save_from_written(d0, section, fields, rec, 0, j);
        assert(keep.contains(fields[j].key));
        assert(has_key(pruned(w, keep), fields[j].key) == (has_key(w, fields[j].key)
            && keep.contains(fields[j].key)));
    }
    lemma_save_prunes_orphans(doc, section, fields, rec);
}

} // verus!
