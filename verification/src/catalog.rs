//! The catalog: the names of the sections of the store, sorted.  It is what
//! the walk from section to section goes through.

use vstd::prelude::*;
use crate::dict::{has_key, lemma_position, position};
use crate::sections::{
    ahead, comes_before, in_catalog, is_first, is_neighbour, is_next_after, lemma_lex_irreflexive,
    lemma_lex_total, lemma_lex_transitive, lex_less,
};
use crate::store::{is_reserved, is_reserved_name, Store, StoreView};
use crate::text::chars_of;

verus! {

/// Every name comes before the names that follow it.
pub open spec fn is_sorted(names: Seq<Seq<char>>) -> bool {
    forall|i: int, j: int| 0 <= i < j < names.len() ==> lex_less(names[i], names[j])
}

/// `names` is the catalog of the store: the names of its sections, without
/// the reserved tables, each once and in order.
pub open spec fn is_catalog(store: StoreView, names: Seq<Seq<char>>) -> bool {
    &&& is_sorted(names)
    &&& forall|i: int| 0 <= i < names.len() ==> in_catalog(store, #[trigger] names[i])
    &&& forall|k: Seq<char>| in_catalog(store, k) ==> has_key(names, k)
}

/// The catalog of the store.
pub fn catalog(store: &Store) -> (names: Vec<String>)
    requires
        store.wf(),
    ensures
        is_catalog(store@, names.deep_view()),
{
    let ghost all = store.names.deep_view();
    let mut names: Vec<String> = Vec::new();
    let ghost mut origin: Seq<int> = Seq::empty();
    let mut i: usize = 0;
    while i < store.names.len()
        invariant
            i <= store.names.len(),
            store.wf(),
            all == store.names.deep_view(),
            is_sorted(names.deep_view()),
            origin.len() == names.len(),
            forall|j: int|
                0 <= j < names.len() ==> 0 <= (#[trigger] origin[j]) < i && all[origin[j]]
                    == names.deep_view()[j] && !is_reserved(all[origin[j]]),
            forall|k: int|
                0 <= k < i && !is_reserved(#[trigger] all[k]) ==> has_key(
                    names.deep_view(),
                    all[k],
                ),
        decreases store.names.len() - i,
    {
        assert(all[i as int] == store.names[i as int]@);
        if !is_reserved_name(store.names[i].as_str()) {
            let name = chars_of(store.names[i].as_str());
            let ghost before = names.deep_view();
            let mut at: usize = 0;
            let mut found = false;
            while at < names.len() && !found
                invariant
                    at <= names.len(),
                    before == names.deep_view(),
                    forall|j: int| 0 <= j < at ==> lex_less(before[j], name@),
                    found ==> at < names.len() && !lex_less(before[at as int], name@),
                decreases names.len() - at + if found { 0int } else { 1int },
            {
                assert(before[at as int] == names[at as int]@);
                if comes_before(&chars_of(names[at].as_str()), &name) {
                    at += 1;
                } else {
                    found = true;
                }
            }
            names.insert(at, store.names[i].clone());
            proof {
                let after = names.deep_view();
                assert(after =~= before.insert(at as int, name@));
                // The name is not among the sorted ones: the names of the store differ.
                assert forall|j: int| 0 <= j < before.len() implies before[j] != name@ by {
                    assert(all[origin[j]] != all[i as int]);
                }
                assert(is_sorted(after)) by {
                    assert forall|a: int, b: int| 0 <= a < b < after.len() implies lex_less(
                        after[a],
                        after[b],
                    ) by {
                        if b < at {
                            assert(after[a] == before[a] && after[b] == before[b]);
                        } else if b == at {
                            assert(after[a] == before[a]);
                        } else if a == at {
                            // before[at] does not come before the name.
                            assert(after[b] == before[b - 1]);
                            lemma_lex_total(before[at as int], name@);
                            if b - 1 > at {
                                lemma_lex_transitive(name@, before[at as int], before[b - 1]);
                            }
                        } else if a < at {
                            assert(after[a] == before[a] && after[b] == before[b - 1]);
                        } else {
                            assert(after[a] == before[a - 1] && after[b] == before[b - 1]);
                        }
                    }
                }
                let before_origin = origin;
                origin = origin.insert(at as int, i as int);
                assert forall|j: int| 0 <= j < after.len() implies 0 <= (#[trigger] origin[j]) < i
                    + 1 && all[origin[j]] == after[j] && !is_reserved(all[origin[j]]) by {
                    if j != at {
                        let source = if j < at {
                            j
                        } else {
                            j - 1
                        };
                        assert(after[j] == before[source]);
                        assert(origin[j] == before_origin[source]);
                    }
                }
                assert forall|k: int| 0 <= k < i + 1 && !is_reserved(#[trigger] all[k]) implies has_key(
                    after,
                    all[k],
                ) by {
                    if k == i {
                        assert(after[at as int] == all[k]);
                    } else {
                        let p = position(before, all[k]);
                        let q = if p < at {
                            p
                        } else {
                            p + 1
                        };
                        assert(after[q] == all[k]);
                    }
                }
            }
        }
        i += 1;
    }
    proof {
        let sorted = names.deep_view();
        assert forall|j: int| 0 <= j < sorted.len() implies in_catalog(store@, #[trigger] sorted[j]) by {
            lemma_position(all, origin[j]);
        }
        assert forall|k: Seq<char>| in_catalog(store@, k) implies has_key(sorted, k) by {
            let p = position(all, k);
            assert(all[p] == k);
        }
    }
    names
}

/// Going forwards from an entry of the catalog leads to the entry after it,
/// and from the last entry to the first.
pub proof fn lemma_walk_forwards(store: StoreView, names: Seq<Seq<char>>, at: int)
    requires
        is_catalog(store, names),
        0 <= at < names.len(),
    ensures
        is_neighbour(
            store,
            names[at],
            false,
            if at + 1 < names.len() {
                names[at + 1]
            } else {
                names[0]
            },
        ),
{
    let current = names[at];
    assert(in_catalog(store, current));
    if at + 1 < names.len() {
        let next = names[at + 1];
        assert(in_catalog(store, next));
        assert(is_next_after(store, current, false, next)) by {
            assert forall|k: Seq<char>|
                in_catalog(store, k) && ahead(current, k, false) implies !ahead(k, next, false) by {
                let p = position(names, k);
                assert(names[p] == k);
                if p <= at {
                    if p < at {
                        lemma_lex_transitive(k, current, k);
                    }
                    lemma_lex_irreflexive(k);
                } else if p > at + 1 {
                    if lex_less(k, next) {
                        lemma_lex_transitive(k, next, k);
                        lemma_lex_irreflexive(k);
                    }
                } else {
                    lemma_lex_irreflexive(k);
                }
            }
        }
    } else {
        let first = names[0];
        assert(in_catalog(store, first));
        assert(!(exists|k: Seq<char>| in_catalog(store, k) && ahead(current, k, false))) by {
            assert forall|k: Seq<char>| in_catalog(store, k) implies !ahead(current, k, false) by {
                let p = position(names, k);
                assert(names[p] == k);
                if p < at {
                    if lex_less(current, k) {
                        lemma_lex_transitive(k, current, k);
                    }
                }
                lemma_lex_irreflexive(k);
            }
        }
        assert(is_first(store, false, first)) by {
            assert forall|k: Seq<char>| in_catalog(store, k) implies !ahead(k, first, false) by {
                let p = position(names, k);
                assert(names[p] == k);
                if p > 0 {
                    if lex_less(k, first) {
                        lemma_lex_transitive(k, first, k);
                    }
                }
                lemma_lex_irreflexive(k);
            }
        }
    }
}

/// Going backwards from an entry of the catalog leads to the entry before
/// it, and from the first entry to the last.
pub proof fn lemma_walk_backwards(store: StoreView, names: Seq<Seq<char>>, at: int)
    requires
        is_catalog(store, names),
        0 <= at < names.len(),
    ensures
        is_neighbour(
            store,
            names[at],
            true,
            if at > 0 {
                names[at - 1]
            } else {
                names[names.len() - 1]
            },
        ),
{
    let current = names[at];
    assert(in_catalog(store, current));
    if at > 0 {
        let next = names[at - 1];
        assert(in_catalog(store, next));
        assert(is_next_after(store, current, true, next)) by {
            assert forall|k: Seq<char>|
                in_catalog(store, k) && ahead(current, k, true) implies !ahead(k, next, true) by {
                let p = position(names, k);
                assert(names[p] == k);
                if p >= at {
                    if p > at {
                        lemma_lex_transitive(k, current, k);
                    }
                    lemma_lex_irreflexive(k);
                } else if p < at - 1 {
                    if lex_less(next, k) {
                        lemma_lex_transitive(k, next, k);
                        lemma_lex_irreflexive(k);
                    }
                } else {
                    lemma_lex_irreflexive(k);
                }
            }
        }
    } else {
        let last = names[names.len() - 1];
        assert(in_catalog(store, last));
        assert(!(exists|k: Seq<char>| in_catalog(store, k) && ahead(current, k, true))) by {
            assert forall|k: Seq<char>| in_catalog(store, k) implies !ahead(current, k, true) by {
                let p = position(names, k);
                assert(names[p] == k);
                if p > at {
                    if lex_less(k, current) {
                        lemma_lex_transitive(k, current, k);
                    }
                }
                lemma_lex_irreflexive(k);
            }
        }
        assert(is_first(store, true, last)) by {
            assert forall|k: Seq<char>| in_catalog(store, k) implies !ahead(k, last, true) by {
                let p = position(names, k);
                assert(names[p] == k);
                if p < names.len() - 1 {
                    if lex_less(last, k) {
                        lemma_lex_transitive(k, last, k);
                    }
                }
                lemma_lex_irreflexive(k);
            }
        }
    }
}

} // verus!
