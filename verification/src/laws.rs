//! Engine-wide laws, stated and proved over the models that the public
//! contracts use.

use vstd::prelude::*;
use crate::scan::lemma_dedup_distinct;
use crate::template::{TronTemplate, set_result, first_index, lemma_first_index_in_range};

verus! {

/// Placeholder names are mapping keys, not a multiset: a well-formed
/// template never declares the same name twice.
pub proof fn lemma_placeholder_names_unique(t: TronTemplate)
    requires
        t.wf(),
    ensures
        forall|p: int, q: int| 0 <= p < q < t.keys().len() ==> t.keys()[p] != t.keys()[q],
{
    lemma_dedup_distinct(crate::scan::scan_names(t.content(), 0));
}

/// Extraction determinism: templates constructed from the same text
/// declare exactly the same placeholder names, in the same order.
pub proof fn lemma_extraction_deterministic(a: TronTemplate, b: TronTemplate)
    requires
        a.wf(),
        b.wf(),
        a.content() == b.content(),
    ensures
        a.keys() == b.keys(),
{
}

/// Idempotent rebinding: binding a declared placeholder to `v1` and then
/// to `v2` leaves it bound to `v2` alone, exactly as a single bind to
/// `v2` would; the intermediate value is not observable afterwards.
pub proof fn lemma_rebind_last_wins(
    t0: TronTemplate,
    t1: TronTemplate,
    t2: TronTemplate,
    name: Seq<char>,
    v1: Seq<char>,
    v2: Seq<char>,
)
    requires
        t0.wf(),
        t0.declares(name),
        set_result(t0, t1, name, v1),
        set_result(t1, t2, name, v2),
    ensures
        set_result(t0, t2, name, v2),
{
    let i = first_index(t0.keys(), name);
    lemma_first_index_in_range(t0.keys(), name);
    assert(t0.vals().update(i, v1).update(i, v2) =~= t0.vals().update(i, v2));
}

} // verus!
