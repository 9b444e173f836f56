//! The tagged value union stored in a document, and its mathematical model.
//!
//! A document is a sequence of `(name, value)` entries whose model is an
//! association sequence of `(Seq<char>, Val)` pairs; sections are values of
//! the `Table` variant directly under the document root.

use vstd::prelude::*;

verus! {

broadcast use vstd::std_specs::vec::group_vec_axioms, vstd::seq::group_seq_axioms;

/// A calendar timestamp carried as its text form.  The text is validated by
/// the TOML layer when a document is rendered or when a string is converted
/// to a timestamp; the store itself treats it as opaque.
#[derive(Clone, Debug, PartialEq, Eq)]
pub struct Timestamp {
    pub text: String,
}

impl DeepView for Timestamp {
    type V = Seq<char>;

    open spec fn deep_view(&self) -> Seq<char> {
        self.text@
    }
}

impl Timestamp {
    /// The model of a timestamp is its text.
    pub open spec fn model(self) -> Seq<char> {
        self.text@
    }

    pub fn new(text: String) -> (r: Timestamp)
        ensures
            r.model() == text@,
    {
        Timestamp { text }
    }

    pub fn as_text(&self) -> (r: &String)
        ensures
            r@ == self.model(),
    {
        &self.text
    }
}

/// The closed set of value shapes a document can hold.  A float is carried as
/// the 64-bit encoding of its value, so that the store's logic stays on plain
/// integers; the TOML layer decodes it when rendering.
#[derive(Debug)]
pub enum ConferValue {
    String(String),
    Integer(i64),
    Float(u64),
    Boolean(bool),
    Timestamp(Timestamp),
    Array(Vec<ConferValue>),
    Table(Vec<(String, ConferValue)>),
}

/// The mathematical model of a `ConferValue`.  Tables keep their entry order, since
/// the textual form of a document depends on it.
pub enum Val {
    Text(Seq<char>),
    Int(i64),
    Float(u64),
    Bool(bool),
    Timestamp(Seq<char>),
    Arr(Seq<Val>),
    Tab(Seq<(Seq<char>, Val)>),
}

impl ConferValue {
    /// The mathematical value this one stands for.
    pub open spec fn model(self) -> Val
        decreases self,
    {
        match self {
            ConferValue::String(s) => Val::Text(s@),
            ConferValue::Integer(i) => Val::Int(i),
            ConferValue::Float(b) => Val::Float(b),
            ConferValue::Boolean(b) => Val::Bool(b),
            ConferValue::Timestamp(d) => Val::Timestamp(d.text@),
            ConferValue::Array(items) => Val::Arr(vec_items_model(items)),
            ConferValue::Table(entries) => Val::Tab(vec_entries_model(entries)),
        }
    }
}

/// Model of an array's elements.
pub open spec fn vec_items_model(items: Vec<ConferValue>) -> Seq<Val>
    decreases items,
{
    items_model(items@)
}

/// Model of a sequence of values, elementwise and in order.
pub open spec fn items_model(s: Seq<ConferValue>) -> Seq<Val>
    decreases s,
{
    if s.len() == 0 {
        Seq::empty()
    } else {
        items_model(s.subrange(0, s.len() - 1)).push(s[s.len() - 1].model())
    }
}

/// Model of a table's named entries.
pub open spec fn vec_entries_model(entries: Vec<(String, ConferValue)>) -> Seq<(Seq<char>, Val)>
    decreases entries,
{
    entries_model(entries@)
}

/// Model of a sequence of named entries: each name viewed as characters, each
/// value modelled, order kept.
pub open spec fn entries_model(s: Seq<(String, ConferValue)>) -> Seq<(Seq<char>, Val)>
    decreases s,
{
    if s.len() == 0 {
        Seq::empty()
    } else {
        entries_model(s.subrange(0, s.len() - 1)).push(
            (s[s.len() - 1].0@, s[s.len() - 1].1.model()),
        )
    }
}

/// `items_model` maps the sequence elementwise.
pub proof fn lemma_items_model(s: Seq<ConferValue>)
    ensures
        items_model(s).len() == s.len(),
        forall|i: int| 0 <= i < s.len() ==> items_model(s)[i] == #[trigger] s[i].model(),
    decreases s.len(),
{
    if s.len() > 0 {
        let t = s.subrange(0, s.len() - 1);
        lemma_items_model(t);
        assert forall|i: int| 0 <= i < s.len() implies items_model(s)[i] == #[trigger] s[i].model()
        by {
            if i < s.len() - 1 {
                assert(t[i] == s[i]);
            }
        }
    }
}

/// `entries_model` keeps each entry's place, views its name and models its value.
pub proof fn lemma_entries_model(s: Seq<(String, ConferValue)>)
    ensures
        entries_model(s).len() == s.len(),
        forall|i: int| 0 <= i < s.len() ==> #[trigger] entries_model(s)[i] == (
        s[i].0@,
        s[i].1.model(),
        ),
    decreases s.len(),
{
    if s.len() > 0 {
        let t = s.subrange(0, s.len() - 1);
        lemma_entries_model(t);
        assert forall|i: int| 0 <= i < s.len() implies #[trigger] entries_model(s)[i] == (
        s[i].0@,
        s[i].1.model(),
        ) by {
            if i < s.len() - 1 {
                assert(t[i] == s[i]);
            }
        }
    }
}

impl ConferValue {
    /// A copy with the same model.
    #[verifier::loop_isolation(false)]
    pub fn deep_copy(&self) -> (r: ConferValue)
        ensures
            r.model() == self.model(),
        decreases self,
    {
        match self {
            ConferValue::String(s) => ConferValue::String(s.clone()),
            ConferValue::Integer(i) => ConferValue::Integer(*i),
            ConferValue::Float(b) => ConferValue::Float(*b),
            ConferValue::Boolean(b) => ConferValue::Boolean(*b),
            ConferValue::Timestamp(d) => ConferValue::Timestamp(Timestamp::new(d.text.clone())),
            ConferValue::Array(items) => {
                proof {
                    lemma_items_model(items@);
                }
                let mut out: Vec<ConferValue> = Vec::new();
                let mut k: usize = 0;
                while k < items.len()
                    invariant
                        k <= items@.len(),
                        out@.len() == k,
                        forall|j: int|
                            0 <= j < k ==> #[trigger] out@[j].model() == items@[j].model(),
                    decreases items@.len() - k,
                {
                    proof {
                        assert(decreases_to!(items => items@));
                        assert(decreases_to!(items@ => items@[k as int]));
                    }
                    out.push(items[k].deep_copy());
                    k += 1;
                }
                proof {
                    lemma_items_model(out@);
                    assert forall|j: int| 0 <= j < out@.len() implies items_model(out@)[j]
                        == items_model(items@)[j] by {
                        assert(items_model(out@)[j] == out@[j].model());
                        assert(items_model(items@)[j] == items@[j].model());
                    }
                    assert(items_model(out@) =~= items_model(items@));
                }
                ConferValue::Array(out)
            },
            ConferValue::Table(entries) => {
                proof {
                    lemma_entries_model(entries@);
                }
                let mut out: Vec<(String, ConferValue)> = Vec::new();
                let mut k: usize = 0;
                while k < entries.len()
                    invariant
                        k <= entries@.len(),
                        out@.len() == k,
                        forall|j: int|
                            0 <= j < k ==> (#[trigger] out@[j]).0@ == entries@[j].0@
                                && out@[j].1.model() == entries@[j].1.model(),
                    decreases entries@.len() - k,
                {
                    proof {
                        assert(decreases_to!(entries => entries@));
                        assert(decreases_to!(entries@ => entries@[k as int]));
                        assert(decreases_to!(entries@[k as int] => entries@[k as int].1));
                    }
                    let e = &entries[k];
                    out.push((e.0.clone(), e.1.deep_copy()));
                    k += 1;
                }
                proof {
                    lemma_entries_model(out@);
                    assert forall|j: int| 0 <= j < out@.len() implies entries_model(out@)[j]
                        == entries_model(entries@)[j] by {
                        assert(entries_model(out@)[j] == (out@[j].0@, out@[j].1.model()));
                        assert(entries_model(entries@)[j] == (
                        entries@[j].0@,
                        entries@[j].1.model(),
                        ));
                    }
                    assert(entries_model(out@) =~= entries_model(entries@));
                }
                ConferValue::Table(out)
            },
        }
    }
}

/// A copy of a table's entries with the same model.
#[verifier::loop_isolation(false)]
pub fn copy_entries(entries: &Vec<(String, ConferValue)>) -> (r: Vec<(String, ConferValue)>)
    ensures
        entries_model(r@) == entries_model(entries@),
{
    proof {
        lemma_entries_model(entries@);
    }
    let mut out: Vec<(String, ConferValue)> = Vec::new();
    let mut k: usize = 0;
    while k < entries.len()
        invariant
            k <= entries@.len(),
            out@.len() == k,
            forall|j: int|
                0 <= j < k ==> (#[trigger] out@[j]).0@ == entries@[j].0@ && out@[j].1.model()
                    == entries@[j].1.model(),
        decreases entries@.len() - k,
    {
        let e = &entries[k];
        out.push((e.0.clone(), e.1.deep_copy()));
        k += 1;
    }
    proof {
        lemma_entries_model(out@);
        assert forall|j: int| 0 <= j < out@.len() implies entries_model(out@)[j] == entries_model(
            entries@,
        )[j] by {
            assert(entries_model(out@)[j] == (out@[j].0@, out@[j].1.model()));
            assert(entries_model(entries@)[j] == (entries@[j].0@, entries@[j].1.model()));
        }
        assert(entries_model(out@) =~= entries_model(entries@));
    }
    out
}

/// No two entries share a name.
pub open spec fn keys_unique(s: Seq<(Seq<char>, Val)>) -> bool {
    forall|i: int, j: int| 0 <= i < j < s.len() ==> s[i].0 != s[j].0
}

impl Val {
    /// Well-formedness: every table, at any depth, has pairwise distinct keys.
    pub open spec fn wf(self) -> bool
        decreases self,
    {
        match self {
            Val::Arr(items) => items_wf(items),
            Val::Tab(es) => keys_unique(es) && table_wf(es),
            _ => true,
        }
    }
}

/// Every value of the sequence is well formed.
pub open spec fn items_wf(s: Seq<Val>) -> bool
    decreases s,
{
    if s.len() == 0 {
        true
    } else {
        items_wf(s.subrange(0, s.len() - 1)) && s[s.len() - 1].wf()
    }
}

/// Every value of the entry sequence is well formed.
pub open spec fn table_wf(s: Seq<(Seq<char>, Val)>) -> bool
    decreases s,
{
    if s.len() == 0 {
        true
    } else {
        table_wf(s.subrange(0, s.len() - 1)) && s[s.len() - 1].1.wf()
    }
}

/// `items_wf` holds exactly when every element is well formed.
pub proof fn lemma_items_wf(s: Seq<Val>)
    ensures
        items_wf(s) <==> (forall|q: int| 0 <= q < s.len() ==> #[trigger] s[q].wf()),
    decreases s.len(),
{
    if s.len() > 0 {
        let t = s.subrange(0, s.len() - 1);
        lemma_items_wf(t);
        if items_wf(s) {
            assert forall|q: int| 0 <= q < s.len() implies #[trigger] s[q].wf() by {
                if q < s.len() - 1 {
                    assert(t[q] == s[q]);
                    assert(t[q].wf());
                }
            }
        }
        if forall|q: int| 0 <= q < s.len() ==> #[trigger] s[q].wf() {
            assert forall|q: int| 0 <= q < t.len() implies #[trigger] t[q].wf() by {
                assert(t[q] == s[q]);
                assert(s[q].wf());
            }
            assert(items_wf(t));
            assert(s[s.len() - 1].wf());
        }
    }
}

/// `table_wf` holds exactly when every entry's value is well formed.
pub proof fn lemma_table_wf(s: Seq<(Seq<char>, Val)>)
    ensures
        table_wf(s) <==> (forall|q: int| 0 <= q < s.len() ==> #[trigger] s[q].1.wf()),
    decreases s.len(),
{
    if s.len() > 0 {
        let t = s.subrange(0, s.len() - 1);
        lemma_table_wf(t);
        if table_wf(s) {
            assert forall|q: int| 0 <= q < s.len() implies #[trigger] s[q].1.wf() by {
                if q < s.len() - 1 {
                    assert(t[q] == s[q]);
                    assert(t[q].1.wf());
                }
            }
        }
        if forall|q: int| 0 <= q < s.len() ==> #[trigger] s[q].1.wf() {
            assert forall|q: int| 0 <= q < t.len() implies #[trigger] t[q].1.wf() by {
                assert(t[q] == s[q]);
                assert(s[q].1.wf());
            }
            assert(table_wf(t));
            assert(s[s.len() - 1].1.wf());
        }
    }
}

/// A well-formed table has unique keys and well-formed values.
pub proof fn lemma_tab_wf(v: Val)
    requires
        v.wf(),
        v is Tab,
    ensures
        keys_unique(v->Tab_0),
        forall|q: int| 0 <= q < v->Tab_0.len() ==> #[trigger] v->Tab_0[q].1.wf(),
{
    lemma_table_wf(v->Tab_0);
}

/// A table with unique keys and well-formed values is well formed.
pub proof fn lemma_tab_wf_intro(v: Val)
    requires
        v is Tab,
        keys_unique(v->Tab_0),
        forall|q: int| 0 <= q < v->Tab_0.len() ==> #[trigger] v->Tab_0[q].1.wf(),
    ensures
        v.wf(),
{
    lemma_table_wf(v->Tab_0);
}

/// Well-formedness of a whole document: unique names at the root, and every
/// value well formed.
pub open spec fn doc_wf(s: Seq<(Seq<char>, Val)>) -> bool {
    keys_unique(s) && forall|i: int| 0 <= i < s.len() ==> #[trigger] s[i].1.wf()
}

/// The names of a sequence of entries, in order.
pub open spec fn keys_of(s: Seq<(Seq<char>, Val)>) -> Seq<Seq<char>> {
    s.map_values(|p: (Seq<char>, Val)| p.0)
}

/// Whether some entry carries the name `k`.
pub open spec fn has_key(s: Seq<(Seq<char>, Val)>, k: Seq<char>) -> bool {
    exists|i: int| 0 <= i < s.len() && s[i].0 == k
}

/// Index of the first entry named `k`, or a negative value when there is none.
pub open spec fn index_of(s: Seq<(Seq<char>, Val)>, k: Seq<char>) -> int
    decreases s.len(),
{
    if s.len() == 0 {
        -1
    } else if s[0].0 == k {
        0
    } else {
        let r = index_of(s.drop_first(), k);
        if r < 0 {
            -1
        } else {
            r + 1
        }
    }
}

/// The value stored under the name `k`, if any.
pub open spec fn lookup(s: Seq<(Seq<char>, Val)>, k: Seq<char>) -> Option<Val> {
    if has_key(s, k) {
        Some(s[index_of(s, k)].1)
    } else {
        None
    }
}

/// Replaces the first entry named `k`, or appends one.
pub open spec fn upsert(s: Seq<(Seq<char>, Val)>, k: Seq<char>, v: Val) -> Seq<(Seq<char>, Val)> {
    if has_key(s, k) {
        s.update(index_of(s, k), (k, v))
    } else {
        s.push((k, v))
    }
}

/// Removes the first entry named `k`, if any.
pub open spec fn remove_entry(s: Seq<(Seq<char>, Val)>, k: Seq<char>) -> Seq<(Seq<char>, Val)> {
    if has_key(s, k) {
        s.remove(index_of(s, k))
    } else {
        s
    }
}

/// Updating one entry updates its model pointwise.
pub proof fn lemma_model_update(s: Seq<(String, ConferValue)>, i: int, pair: (String, ConferValue))
    requires
        0 <= i < s.len(),
    ensures
        entries_model(s.update(i, pair)) == entries_model(s).update(
            i,
            (pair.0@, pair.1.model()),
        ),
{
    lemma_entries_model(s);
    lemma_entries_model(s.update(i, pair));
    assert(entries_model(s.update(i, pair)) =~= entries_model(s).update(
        i,
        (pair.0@, pair.1.model()),
    ));
}

/// Appending an entry appends its model.
pub proof fn lemma_model_push(s: Seq<(String, ConferValue)>, pair: (String, ConferValue))
    ensures
        entries_model(s.push(pair)) == entries_model(s).push((pair.0@, pair.1.model())),
{
    lemma_entries_model(s);
    lemma_entries_model(s.push(pair));
    assert(entries_model(s.push(pair)) =~= entries_model(s).push((pair.0@, pair.1.model())));
}

/// Removing an entry removes its model.
pub proof fn lemma_model_remove(s: Seq<(String, ConferValue)>, i: int)
    requires
        0 <= i < s.len(),
    ensures
        entries_model(s.remove(i)) == entries_model(s).remove(i),
{
    lemma_entries_model(s);
    lemma_entries_model(s.remove(i));
    assert(entries_model(s.remove(i)) =~= entries_model(s).remove(i));
}

/// `index_of` finds the first entry with the given name, exactly when one exists.
pub proof fn lemma_index_of(s: Seq<(Seq<char>, Val)>, k: Seq<char>)
    ensures
        has_key(s, k) <==> 0 <= index_of(s, k) < s.len(),
        has_key(s, k) ==> s[index_of(s, k)].0 == k,
        forall|j: int| 0 <= j < index_of(s, k) ==> s[j].0 != k,
        !has_key(s, k) ==> index_of(s, k) == -1,
    decreases s.len(),
{
    if s.len() == 0 {
    } else if s[0].0 == k {
    } else {
        let t = s.drop_first();
        lemma_index_of(t, k);
        assert forall|i: int| 0 <= i < s.len() && s[i].0 == k implies has_key(t, k) by {
            assert(t[i - 1] == s[i]);
        }
        if has_key(t, k) {
            let r = index_of(t, k);
            assert(s[r + 1] == t[r]);
            assert forall|j: int| 0 <= j < index_of(s, k) implies s[j].0 != k by {
                if j > 0 {
                    assert(t[j - 1] == s[j]);
                }
            }
        }
    }
}

/// An entry named `k` at `i`, with none before it, makes `i` the index of `k`.
pub proof fn lemma_index_of_is(s: Seq<(Seq<char>, Val)>, k: Seq<char>, i: int)
    requires
        0 <= i < s.len(),
        s[i].0 == k,
        forall|j: int| 0 <= j < i ==> s[j].0 != k,
    ensures
        has_key(s, k),
        index_of(s, k) == i,
{
    assert(has_key(s, k));
    lemma_index_of(s, k);
    let r = index_of(s, k);
    if r < i {
        assert(s[r].0 != k);
    }
}

/// `upsert` leaves every other name untouched.
pub proof fn lemma_upsert_other(m: Seq<(Seq<char>, Val)>, k: Seq<char>, v: Val, k2: Seq<char>)
    requires
        k2 != k,
    ensures
        lookup(upsert(m, k, v), k2) == lookup(m, k2),
        has_key(upsert(m, k, v), k2) <==> has_key(m, k2),
{
    let u = upsert(m, k, v);
    lemma_index_of(m, k);
    lemma_index_of(m, k2);
    lemma_index_of(u, k2);
    if has_key(m, k2) {
        let i2 = index_of(m, k2);
        lemma_index_of_is(u, k2, i2);
    } else {
        assert forall|j: int| 0 <= j < u.len() implies u[j].0 != k2 by {}
        assert(!has_key(u, k2));
    }
}

/// What `upsert` does: the named entry now holds `v`, every other name is
/// untouched, uniqueness of names is kept, and the name order is kept (with
/// the new name appended when it was absent).
pub proof fn lemma_upsert(m: Seq<(Seq<char>, Val)>, k: Seq<char>, v: Val)
    ensures
        has_key(upsert(m, k, v), k),
        lookup(upsert(m, k, v), k) == Some(v),
        forall|k2: Seq<char>|
            k2 != k ==> #[trigger] lookup(upsert(m, k, v), k2) == lookup(m, k2),
        forall|k2: Seq<char>|
            k2 != k ==> (#[trigger] has_key(upsert(m, k, v), k2) <==> has_key(m, k2)),
        keys_unique(m) ==> keys_unique(upsert(m, k, v)),
        has_key(m, k) ==> keys_of(upsert(m, k, v)) == keys_of(m),
        !has_key(m, k) ==> keys_of(upsert(m, k, v)) == keys_of(m).push(k),
{
    let u = upsert(m, k, v);
    lemma_index_of(m, k);
    if has_key(m, k) {
        let i = index_of(m, k);
        lemma_index_of_is(u, k, i);
        assert(keys_of(u) =~= keys_of(m));
    } else {
        lemma_index_of_is(u, k, m.len() as int);
        assert(keys_of(u) =~= keys_of(m).push(k));
    }
    assert(lookup(u, k) == Some(v));
    assert forall|k2: Seq<char>| k2 != k implies #[trigger] lookup(u, k2) == lookup(m, k2) by {
        lemma_upsert_other(m, k, v, k2);
    }
    assert forall|k2: Seq<char>| k2 != k implies (#[trigger] has_key(u, k2) <==> has_key(
        m,
        k2,
    )) by {
        lemma_upsert_other(m, k, v, k2);
    }
}

/// Upserting the same name twice keeps only the second value.
pub proof fn lemma_upsert_collapse(m: Seq<(Seq<char>, Val)>, k: Seq<char>, v1: Val, v2: Val)
    ensures
        upsert(upsert(m, k, v1), k, v2) == upsert(m, k, v2),
{
    let u1 = upsert(m, k, v1);
    lemma_index_of(m, k);
    if has_key(m, k) {
        let i = index_of(m, k);
        lemma_index_of_is(u1, k, i);
        assert(upsert(u1, k, v2) =~= upsert(m, k, v2));
    } else {
        lemma_index_of_is(u1, k, m.len() as int);
        assert(upsert(u1, k, v2) =~= upsert(m, k, v2));
    }
}

/// `remove_entry` leaves every other name untouched.
pub proof fn lemma_remove_other(m: Seq<(Seq<char>, Val)>, k: Seq<char>, k2: Seq<char>)
    requires
        k2 != k,
    ensures
        lookup(remove_entry(m, k), k2) == lookup(m, k2),
        has_key(remove_entry(m, k), k2) <==> has_key(m, k2),
{
    let u = remove_entry(m, k);
    lemma_index_of(m, k);
    if has_key(m, k) {
        let i = index_of(m, k);
        lemma_index_of(m, k2);
        lemma_index_of(u, k2);
        if has_key(m, k2) {
            let i2 = index_of(m, k2);
            if i2 < i {
                assert(u[i2] == m[i2]);
                lemma_index_of_is(u, k2, i2);
            } else {
                assert(i2 != i);
                assert(u[i2 - 1] == m[i2]);
                assert forall|j: int| 0 <= j < i2 - 1 implies u[j].0 != k2 by {
                    if j < i {
                        assert(u[j] == m[j]);
                    } else {
                        assert(u[j] == m[j + 1]);
                    }
                }
                lemma_index_of_is(u, k2, i2 - 1);
            }
        } else {
            assert forall|j: int| 0 <= j < u.len() implies u[j].0 != k2 by {
                if j < i {
                    assert(u[j] == m[j]);
                } else {
                    assert(u[j] == m[j + 1]);
                }
            }
            assert(!has_key(u, k2));
        }
    }
}

/// What `remove_entry` does: when names are unique the named entry is gone,
/// every other name is untouched, and uniqueness is kept; removing an absent
/// name changes nothing.
pub proof fn lemma_remove_entry(m: Seq<(Seq<char>, Val)>, k: Seq<char>)
    ensures
        keys_unique(m) ==> !has_key(remove_entry(m, k), k),
        forall|k2: Seq<char>|
            k2 != k ==> #[trigger] lookup(remove_entry(m, k), k2) == lookup(m, k2),
        forall|k2: Seq<char>|
            k2 != k ==> (#[trigger] has_key(remove_entry(m, k), k2) <==> has_key(m, k2)),
        keys_unique(m) ==> keys_unique(remove_entry(m, k)),
        !has_key(m, k) ==> remove_entry(m, k) == m,
{
    let u = remove_entry(m, k);
    lemma_index_of(m, k);
    if has_key(m, k) {
        let i = index_of(m, k);
        if keys_unique(m) {
            assert forall|j: int| 0 <= j < u.len() implies u[j].0 != k by {
                if j < i {
                    assert(u[j] == m[j]);
                } else {
                    assert(u[j] == m[j + 1]);
                }
            }
            assert(!has_key(u, k));
            assert forall|p: int, q: int| 0 <= p < q < u.len() implies u[p].0 != u[q].0 by {
                let pm: int = if p < i {
                    p
                } else {
                    p + 1
                };
                let qm: int = if q < i {
                    q
                } else {
                    q + 1
                };
                assert(u[p] == m[pm]);
                assert(u[q] == m[qm]);
            }
        }
    }
    assert forall|k2: Seq<char>| k2 != k implies #[trigger] lookup(u, k2) == lookup(m, k2) by {
        lemma_remove_other(m, k, k2);
    }
    assert forall|k2: Seq<char>| k2 != k implies (#[trigger] has_key(u, k2) <==> has_key(
        m,
        k2,
    )) by {
        lemma_remove_other(m, k, k2);
    }
}

} // verus!
