//! What one re-filter pass does to the partition, as functions of the item
//! models and the query, with the laws that hold of it.

use vstd::multiset::Multiset;
use vstd::prelude::*;

use crate::item::{identities, AppModel};
use crate::matcher::{fuzzy_score, is_match};
use crate::order::{lemma_sort_ranked_ensures, lemma_sort_ranked_identity, sort_ranked};

verus! {

/// The items of `s` that match `q`, in their order in `s`, each carrying the
/// fresh score the matcher assigned.
pub open spec fn shown_after(s: Seq<AppModel>, q: Seq<char>) -> Seq<AppModel>
    decreases s.len(),
{
    if s.len() == 0 {
        Seq::empty()
    } else {
        let rest = shown_after(s.drop_first(), q);
        match fuzzy_score(s[0].name, q) {
            Option::Some(sc) => seq![s[0].with_score(sc)] + rest,
            Option::None => rest,
        }
    }
}

/// The items of `s` that do not match `q`, in their order in `s`, scores held
/// at zero while hidden.
pub open spec fn hidden_after(s: Seq<AppModel>, q: Seq<char>) -> Seq<AppModel>
    decreases s.len(),
{
    if s.len() == 0 {
        Seq::empty()
    } else {
        let rest = hidden_after(s.drop_first(), q);
        if fuzzy_score(s[0].name, q) is Some {
            rest
        } else {
            seq![s[0].with_score(0)] + rest
        }
    }
}

/// The partition distributes over concatenation of the scanned items.
pub proof fn lemma_partition_append(a: Seq<AppModel>, b: Seq<AppModel>, q: Seq<char>)
    ensures
        shown_after(a + b, q) == shown_after(a, q) + shown_after(b, q),
        hidden_after(a + b, q) == hidden_after(a, q) + hidden_after(b, q),
    decreases a.len(),
{
    if a.len() == 0 {
        assert(a + b =~= b);
        assert(shown_after(a, q) + shown_after(b, q) =~= shown_after(b, q));
        assert(hidden_after(a, q) + hidden_after(b, q) =~= hidden_after(b, q));
    } else {
        assert((a + b).drop_first() =~= a.drop_first() + b);
        assert((a + b)[0] == a[0]);
        lemma_partition_append(a.drop_first(), b, q);
        match fuzzy_score(a[0].name, q) {
            Option::Some(sc) => {
                assert(seq![a[0].with_score(sc)] + (shown_after(a.drop_first(), q) + shown_after(
                    b,
                    q,
                )) =~= (seq![a[0].with_score(sc)] + shown_after(a.drop_first(), q)) + shown_after(
                    b,
                    q,
                ));
            },
            Option::None => {
                assert(seq![a[0].with_score(0)] + (hidden_after(a.drop_first(), q) + hidden_after(
                    b,
                    q,
                )) =~= (seq![a[0].with_score(0)] + hidden_after(a.drop_first(), q)) + hidden_after(
                    b,
                    q,
                ));
            },
        }
    }
}

/// Every shown item matches the query and carries exactly the matcher's score.
pub proof fn lemma_shown_after_elems(s: Seq<AppModel>, q: Seq<char>)
    ensures
        forall|i: int|
            0 <= i < shown_after(s, q).len() ==> {
                let m = #[trigger] shown_after(s, q)[i];
                is_match(m.name, q) && m.score == fuzzy_score(m.name, q).unwrap()
            },
    decreases s.len(),
{
    if s.len() == 0 {
    } else {
        lemma_shown_after_elems(s.drop_first(), q);
    }
}

/// Every hidden item fails the query and carries score zero.
pub proof fn lemma_hidden_after_elems(s: Seq<AppModel>, q: Seq<char>)
    ensures
        forall|i: int|
            0 <= i < hidden_after(s, q).len() ==> {
                let m = #[trigger] hidden_after(s, q)[i];
                !is_match(m.name, q) && m.score == 0
            },
    decreases s.len(),
{
    if s.len() == 0 {
    } else {
        lemma_hidden_after_elems(s.drop_first(), q);
        let rest = hidden_after(s.drop_first(), q);
        assert forall|i: int| 0 <= i < hidden_after(s, q).len() implies {
            let m = #[trigger] hidden_after(s, q)[i];
            !is_match(m.name, q) && m.score == 0
        } by {
            if fuzzy_score(s[0int].name, q) is Some {
                assert(hidden_after(s, q)[i] == rest[i]);
            } else {
                if i == 0 {
                    assert(hidden_after(s, q)[0] == s[0int].with_score(0));
                } else {
                    assert(hidden_after(s, q)[i] == rest[i - 1]);
                }
            }
        }
    }
}

/// Scanning items that all match, with their scores already the matcher's,
/// keeps every one of them unchanged and hides none.
pub proof fn lemma_scan_all_matching(s: Seq<AppModel>, q: Seq<char>)
    requires
        forall|i: int|
            0 <= i < s.len() ==> {
                let m = #[trigger] s[i];
                is_match(m.name, q) && m.score == fuzzy_score(m.name, q).unwrap()
            },
    ensures
        shown_after(s, q) == s,
        hidden_after(s, q) == Seq::<AppModel>::empty(),
    decreases s.len(),
{
    if s.len() == 0 {
        assert(shown_after(s, q) =~= s);
    } else {
        lemma_scan_all_matching(s.drop_first(), q);
        let sc = fuzzy_score(s[0int].name, q).unwrap();
        assert(s[0int].with_score(sc) == s[0int]);
        assert(seq![s[0int]] + s.drop_first() =~= s);
    }
}

/// Scanning items none of which matches, with their scores already zero,
/// keeps every one of them hidden and unchanged.
pub proof fn lemma_scan_none_matching(s: Seq<AppModel>, q: Seq<char>)
    requires
        forall|i: int|
            0 <= i < s.len() ==> {
                let m = #[trigger] s[i];
                !is_match(m.name, q) && m.score == 0
            },
    ensures
        shown_after(s, q) == Seq::<AppModel>::empty(),
        hidden_after(s, q) == s,
    decreases s.len(),
{
    if s.len() == 0 {
        assert(hidden_after(s, q) =~= s);
    } else {
        lemma_scan_none_matching(s.drop_first(), q);
        assert(s[0int].with_score(0) == s[0int]);
        assert(seq![s[0int]] + s.drop_first() =~= s);
    }
}

/// Partition invariant: a pass splits the scanned items into the shown and
/// the hidden ones, losing and inventing none; counted with multiplicity by
/// identity, shown and hidden together are exactly the items that went in.
pub proof fn lemma_partition_complete(s: Seq<AppModel>, q: Seq<char>)
    ensures
        shown_after(s, q).len() + hidden_after(s, q).len() == s.len(),
        identities(shown_after(s, q) + hidden_after(s, q)).to_multiset() == identities(
            s,
        ).to_multiset(),
    decreases s.len(),
{
    broadcast use vstd::seq_lib::group_to_multiset_ensures;
    broadcast use vstd::seq_lib::lemma_multiset_commutative;
    broadcast use vstd::multiset::group_multiset_axioms;

    if s.len() == 0 {
        assert(shown_after(s, q) + hidden_after(s, q) =~= Seq::<AppModel>::empty());
        assert(identities(Seq::<AppModel>::empty()) =~= Seq::<AppModel>::empty());
        assert(identities(s) =~= Seq::<AppModel>::empty());
    } else {
        let rest = s.drop_first();
        lemma_partition_complete(rest, q);
        let sh = shown_after(s, q);
        let hi = hidden_after(s, q);
        let shr = shown_after(rest, q);
        let hir = hidden_after(rest, q);
        let idx = s[0int].identity();
        let one = seq![idx];
        assert(one =~= Seq::<AppModel>::empty().push(idx));
        assert(Seq::<AppModel>::empty().to_multiset().len() == 0);
        assert(Seq::<AppModel>::empty().to_multiset() =~= Multiset::<AppModel>::empty());
        assert(one.to_multiset() =~= Multiset::<AppModel>::empty().insert(idx));
        assert(identities(s) =~= one + identities(rest));
        assert((one + identities(rest)).to_multiset() == one.to_multiset().add(
            identities(rest).to_multiset(),
        ));
        assert(identities(sh + hi) =~= identities(sh) + identities(hi));
        assert((identities(sh) + identities(hi)).to_multiset() == identities(sh).to_multiset().add(
            identities(hi).to_multiset(),
        ));
        assert(identities(shr + hir) =~= identities(shr) + identities(hir));
        assert((identities(shr) + identities(hir)).to_multiset()
            == identities(shr).to_multiset().add(identities(hir).to_multiset()));
        match fuzzy_score(s[0int].name, q) {
            Option::Some(sc) => {
                assert(identities(sh) =~= one + identities(shr)) by {
                    assert(sh =~= seq![s[0int].with_score(sc)] + shr);
                    assert(s[0int].with_score(sc).identity() == idx);
                }
                assert((one + identities(shr)).to_multiset() == one.to_multiset().add(
                    identities(shr).to_multiset(),
                ));
                assert(identities(hi) =~= identities(hir));
                assert(identities(sh + hi).to_multiset() =~= identities(s).to_multiset());
            },
            Option::None => {
                assert(identities(hi) =~= one + identities(hir)) by {
                    assert(hi =~= seq![s[0int].with_score(0)] + hir);
                    assert(s[0int].with_score(0).identity() == idx);
                }
                assert((one + identities(hir)).to_multiset() == one.to_multiset().add(
                    identities(hir).to_multiset(),
                ));
                assert(identities(sh) =~= identities(shr));
                assert(identities(sh + hi).to_multiset() =~= identities(s).to_multiset());
            },
        }
    }
}

/// Idempotence: re-filtering the partition that one pass produced, with the
/// same unchanged query, yields the identical shown ordering and the
/// identical hidden sequence — nothing drifts.
pub proof fn lemma_refilter_idempotent(s: Seq<AppModel>, q: Seq<char>)
    ensures
        ({
            let s1 = sort_ranked(shown_after(s, q));
            let h1 = hidden_after(s, q);
            sort_ranked(shown_after(s1 + h1, q)) == s1 && hidden_after(s1 + h1, q) == h1
        }),
{
    broadcast use vstd::seq_lib::group_to_multiset_ensures;

    let sh = shown_after(s, q);
    let s1 = sort_ranked(sh);
    let h1 = hidden_after(s, q);
    lemma_shown_after_elems(s, q);
    lemma_hidden_after_elems(s, q);
    lemma_sort_ranked_ensures(sh);
    assert forall|i: int| 0 <= i < s1.len() implies {
        let m = #[trigger] s1[i];
        is_match(m.name, q) && m.score == fuzzy_score(m.name, q).unwrap()
    } by {
        assert(s1.contains(s1[i]));
        assert(s1.to_multiset().count(s1[i]) > 0);
        assert(sh.to_multiset().count(s1[i]) > 0);
        assert(sh.contains(s1[i]));
        let j = choose|j: int| 0 <= j < sh.len() && sh[j] == s1[i];
        assert(is_match(sh[j].name, q) && sh[j].score == fuzzy_score(sh[j].name, q).unwrap());
    }
    lemma_partition_append(s1, h1, q);
    lemma_scan_all_matching(s1, q);
    lemma_scan_none_matching(h1, q);
    assert(shown_after(s1 + h1, q) =~= s1);
    assert(hidden_after(s1 + h1, q) =~= h1);
    lemma_sort_ranked_identity(s1);
}

} // verus!
