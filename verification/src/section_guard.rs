//! Tracking the set of keys a schema owns within a section, so that a save
//! pass can prune the keys it does not.

use vstd::prelude::*;

verus! {

/// The character views of a sequence of strings.
pub open spec fn views_of(s: Seq<String>) -> Seq<Seq<char>> {
    s.map_values(|x: String| x@)
}

/// The set of keys known to belong to a section.  The keys are kept in
/// first-appearance order (not sorted): reconciliation only ever asks for
/// membership, so no order is promised.
pub struct SectionGuard {
    known_keys: Vec<String>,
}

impl SectionGuard {
    /// The guarded key set, as the sequence of keys kept, first occurrences
    /// only.
    pub closed spec fn model(&self) -> Seq<Seq<char>> {
        views_of(self.known_keys@)
    }

    /// Creates a guard from key names, keeping each name once, in first
    /// appearance order.
    #[verifier::loop_isolation(false)]
    pub fn new(keys: Vec<String>) -> (r: SectionGuard)
        ensures
            r.model().no_duplicates(),
            forall|k: Seq<char>|
                #[trigger] r.model().contains(k) <==> views_of(keys@).contains(k),
    {
        let mut out: Vec<String> = Vec::new();
        let ghost views = views_of(keys@);
        let mut i: usize = 0;
        while i < keys.len()
            invariant
                i <= keys@.len(),
                views_of(out@).no_duplicates(),
                forall|k: Seq<char>|
                    #[trigger] views_of(out@).contains(k) <==> views.subrange(
                        0,
                        i as int,
                    ).contains(k),
            decreases keys@.len() - i,
        {
            let ghost prefix = views.subrange(0, i as int);
            let ghost outv = views_of(out@);
            let mut seen = false;
            let mut j: usize = 0;
            while j < out.len()
                invariant
                    j <= out@.len(),
                    seen <==> exists|q: int| 0 <= q < j && outv[q] == views[i as int],
                decreases out@.len() - j,
            {
                proof {
                    assert(outv[j as int] == out@[j as int]@);
                    assert(views[i as int] == keys@[i as int]@);
                }
                if out[j] == keys[i] {
                    seen = true;
                }
                j += 1;
            }
            proof {
                assert(seen <==> outv.contains(views[i as int]));
            }
            if !seen {
                out.push(keys[i].clone());
                proof {
                    let newv = views_of(out@);
                    assert(newv =~= outv.push(views[i as int]));
                    assert(newv.no_duplicates());
                }
            }
            proof {
                let newv = views_of(out@);
                let newprefix = views.subrange(0, i + 1 as int);
                assert(newprefix =~= prefix.push(views[i as int]));
                assert forall|k: Seq<char>| #[trigger] newv.contains(k) implies newprefix.contains(
                    k,
                ) by {
                    if outv.contains(k) {
                        assert(prefix.contains(k));
                        let q = choose|q: int| 0 <= q < prefix.len() && prefix[q] == k;
                        assert(newprefix[q] == k);
                    } else {
                        assert(k == views[i as int]);
                        assert(newprefix[newprefix.len() - 1] == k);
                    }
                }
                assert forall|k: Seq<char>| #[trigger] newprefix.contains(k) implies newv.contains(
                    k,
                ) by {
                    let q = choose|q: int| 0 <= q < newprefix.len() && newprefix[q] == k;
                    if q < prefix.len() {
                        assert(prefix[q] == k);
                        assert(prefix.contains(k));
                        assert(outv.contains(k));
                        let w = choose|w: int| 0 <= w < outv.len() && outv[w] == k;
                        assert(newv[w] == k);
                    } else {
                        assert(k == views[i as int]);
                        if outv.contains(k) {
                            let w = choose|w: int| 0 <= w < outv.len() && outv[w] == k;
                            assert(newv[w] == k);
                        } else {
                            assert(newv[newv.len() - 1] == k);
                        }
                    }
                }
            }
            i += 1;
        }
        proof {
            assert(views.subrange(0, views.len() as int) =~= views);
        }
        SectionGuard { known_keys: out }
    }

    /// The keys known to belong to the guarded section, each once, in
    /// first-appearance order.
    pub fn known_keys(&self) -> (r: &Vec<String>)
        ensures
            views_of(r@) == self.model(),
    {
        &self.known_keys
    }

    /// Whether `key` is one of the known keys.
    #[verifier::loop_isolation(false)]
    pub fn contains(&self, key: &str) -> (r: bool)
        ensures
            r == self.model().contains(key@),
    {
        let ghost mv = self.model();
        let mut j: usize = 0;
        while j < self.known_keys.len()
            invariant
                j <= self.known_keys@.len(),
                forall|q: int| 0 <= q < j ==> #[trigger] mv[q] != key@,
            decreases self.known_keys@.len() - j,
        {
            let owned: String = key.to_owned();
            if self.known_keys[j] == owned {
                proof {
                    assert(mv[j as int] == key@);
                    assert(mv.contains(key@));
                }
                return true;
            }
            j += 1;
        }
        proof {
            assert(!mv.contains(key@));
        }
        false
    }
}

} // verus!
