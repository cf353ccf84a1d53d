//! The total order on shown items: score descending, tie-broken by name
//! ascending (lexicographic on character values), and a verified stable
//! insertion sort for it.

use vstd::multiset::Multiset;
use vstd::prelude::*;
use vstd::string::StrSliceExecFns;

use crate::item::{models, App, AppModel};

verus! {

/// Lexicographic "at most" on character sequences, by scalar value.
pub open spec fn lex_le(s: Seq<char>, t: Seq<char>) -> bool
    decreases s.len(),
{
    if s.len() == 0 {
        true
    } else if t.len() == 0 {
        false
    } else if (s[0] as u32) < (t[0] as u32) {
        true
    } else if (t[0] as u32) < (s[0] as u32) {
        false
    } else {
        lex_le(s.drop_first(), t.drop_first())
    }
}

/// `a` may stand at or before `b` in the shown list: higher score first,
/// equal scores ordered by name ascending.
pub open spec fn rank_le(a: AppModel, b: AppModel) -> bool {
    a.score > b.score || (a.score == b.score && lex_le(a.name, b.name))
}

/// `a` must stand strictly before `b`.
pub open spec fn rank_lt(a: AppModel, b: AppModel) -> bool {
    rank_le(a, b) && !rank_le(b, a)
}

/// Every adjacent pair of `s` is ordered by [`rank_le`].
pub open spec fn sorted_by_rank(s: Seq<AppModel>) -> bool {
    forall|i: int| 0 <= i < s.len() - 1 ==> #[trigger] rank_le(s[i], s[i + 1])
}

/// `m` placed into `s` before the first element that is not strictly ranked
/// ahead of it (so an element already present wins ties: the sort is stable).
pub open spec fn insert_ranked(m: AppModel, s: Seq<AppModel>) -> Seq<AppModel>
    decreases s.len(),
{
    if s.len() == 0 {
        seq![m]
    } else if rank_lt(s[0], m) {
        seq![s[0]] + insert_ranked(m, s.drop_first())
    } else {
        seq![m] + s
    }
}

/// Stable insertion sort of `s` by [`rank_le`].
pub open spec fn sort_ranked(s: Seq<AppModel>) -> Seq<AppModel>
    decreases s.len(),
{
    if s.len() == 0 {
        Seq::empty()
    } else {
        insert_ranked(s[0], sort_ranked(s.drop_first()))
    }
}

pub proof fn lemma_lex_le_total(s: Seq<char>, t: Seq<char>)
    ensures
        lex_le(s, t) || lex_le(t, s),
    decreases s.len(),
{
    if s.len() == 0 || t.len() == 0 {
    } else if (s[0] as u32) < (t[0] as u32) || (t[0] as u32) < (s[0] as u32) {
    } else {
        lemma_lex_le_total(s.drop_first(), t.drop_first());
    }
}

pub proof fn lemma_rank_le_total(a: AppModel, b: AppModel)
    ensures
        rank_le(a, b) || rank_le(b, a),
{
    if a.score == b.score {
        lemma_lex_le_total(a.name, b.name);
    }
}

pub proof fn lemma_insert_ranked_basics(m: AppModel, s: Seq<AppModel>)
    ensures
        insert_ranked(m, s).len() == s.len() + 1,
        insert_ranked(m, s).to_multiset() == s.to_multiset().insert(m),
    decreases s.len(),
{
    broadcast use vstd::seq_lib::group_to_multiset_ensures;
    broadcast use vstd::seq_lib::lemma_multiset_commutative;
    broadcast use vstd::multiset::group_multiset_axioms;

    if s.len() == 0 {
        assert(insert_ranked(m, s) =~= Seq::<AppModel>::empty().push(m));
        assert(Seq::<AppModel>::empty().to_multiset().len() == 0);
        assert(Seq::<AppModel>::empty().to_multiset() =~= Multiset::<AppModel>::empty());
    } else if rank_lt(s[0], m) {
        lemma_insert_ranked_basics(m, s.drop_first());
        let ins = insert_ranked(m, s.drop_first());
        assert(seq![s[0]] =~= Seq::<AppModel>::empty().push(s[0]));
        assert(Seq::<AppModel>::empty().to_multiset().len() == 0);
        assert(Seq::<AppModel>::empty().to_multiset() =~= Multiset::<AppModel>::empty());
        assert(seq![s[0]].to_multiset() =~= Multiset::<AppModel>::empty().insert(s[0]));
        assert(s =~= seq![s[0]] + s.drop_first());
        assert(s.to_multiset() == seq![s[0]].to_multiset().add(s.drop_first().to_multiset()));
        assert((seq![s[0]] + ins).to_multiset() == seq![s[0]].to_multiset().add(ins.to_multiset()));
        assert(seq![s[0]].to_multiset().add(s.drop_first().to_multiset().insert(m)) =~= s.to_multiset().insert(m));
    } else {
        assert(seq![m] =~= Seq::<AppModel>::empty().push(m));
        assert(Seq::<AppModel>::empty().to_multiset().len() == 0);
        assert(Seq::<AppModel>::empty().to_multiset() =~= Multiset::<AppModel>::empty());
        assert(seq![m].to_multiset() =~= Multiset::<AppModel>::empty().insert(m));
        assert((seq![m] + s).to_multiset() == seq![m].to_multiset().add(s.to_multiset()));
        assert(seq![m].to_multiset().add(s.to_multiset()) =~= s.to_multiset().insert(m));
    }
}

pub proof fn lemma_insert_ranked_sorted(m: AppModel, s: Seq<AppModel>)
    requires
        sorted_by_rank(s),
    ensures
        sorted_by_rank(insert_ranked(m, s)),
    decreases s.len(),
{
    if s.len() == 0 {
    } else if rank_lt(s[0], m) {
        let rest = s.drop_first();
        assert(sorted_by_rank(rest)) by {
            assert forall|i: int| 0 <= i < rest.len() - 1 implies #[trigger] rank_le(
                rest[i],
                rest[i + 1],
            ) by {
                assert(rest[i] == s[i + 1]);
                assert(rest[i + 1] == s[i + 2]);
                assert(rank_le(s[i + 1], s[i + 1 + 1]));
            }
        }
        lemma_insert_ranked_sorted(m, rest);
        let ins = insert_ranked(m, rest);
        let r = seq![s[0]] + ins;
        lemma_insert_ranked_basics(m, rest);
        assert(rank_le(s[0], ins[0])) by {
            if rest.len() == 0 {
                assert(ins == seq![m]);
            } else if rank_lt(rest[0], m) {
                assert(ins[0] == rest[0]);
                assert(rank_le(s[0int], s[0int + 1]));
            } else {
                assert(ins[0] == m);
            }
        }
        assert forall|i: int| 0 <= i < r.len() - 1 implies #[trigger] rank_le(r[i], r[i + 1]) by {
            if i == 0 {
                assert(r[0] == s[0] && r[1] == ins[0]);
            } else {
                assert(r[i] == ins[i - 1] && r[i + 1] == ins[i]);
                assert(rank_le(ins[i - 1], ins[i - 1 + 1]));
            }
        }
    } else {
        lemma_rank_le_total(s[0], m);
        let r = seq![m] + s;
        assert forall|i: int| 0 <= i < r.len() - 1 implies #[trigger] rank_le(r[i], r[i + 1]) by {
            if i == 0 {
                assert(r[0] == m && r[1] == s[0]);
            } else {
                assert(r[i] == s[i - 1] && r[i + 1] == s[i]);
                assert(rank_le(s[i - 1], s[i - 1 + 1]));
            }
        }
    }
}

/// The re-sort is a permutation that orders the shown items by rank.
pub proof fn lemma_sort_ranked_ensures(s: Seq<AppModel>)
    ensures
        sort_ranked(s).len() == s.len(),
        sort_ranked(s).to_multiset() == s.to_multiset(),
        sorted_by_rank(sort_ranked(s)),
    decreases s.len(),
{
    broadcast use vstd::seq_lib::group_to_multiset_ensures;
    broadcast use vstd::multiset::group_multiset_axioms;

    if s.len() == 0 {
    } else {
        let rest = s.drop_first();
        lemma_sort_ranked_ensures(rest);
        lemma_insert_ranked_basics(s[0], sort_ranked(rest));
        lemma_insert_ranked_sorted(s[0], sort_ranked(rest));
        assert(s.remove(0) =~= rest);
        assert(rest.to_multiset() =~= s.to_multiset().remove(s[0]));
        assert(s.contains(s[0]));
        assert(s.to_multiset().count(s[0]) > 0);
        assert(s.to_multiset().remove(s[0]).insert(s[0]) =~= s.to_multiset());
    }
}

/// Re-sorting a list that is already ordered by rank leaves it unchanged.
pub proof fn lemma_sort_ranked_identity(s: Seq<AppModel>)
    requires
        sorted_by_rank(s),
    ensures
        sort_ranked(s) == s,
    decreases s.len(),
{
    if s.len() == 0 {
        assert(sort_ranked(s) =~= s);
    } else {
        let rest = s.drop_first();
        assert(sorted_by_rank(rest)) by {
            assert forall|i: int| 0 <= i < rest.len() - 1 implies #[trigger] rank_le(
                rest[i],
                rest[i + 1],
            ) by {
                assert(rest[i] == s[i + 1]);
                assert(rest[i + 1] == s[i + 2]);
                assert(rank_le(s[i + 1], s[i + 1 + 1]));
            }
        }
        lemma_sort_ranked_identity(rest);
        if rest.len() == 0 {
            assert(insert_ranked(s[0], rest) =~= seq![s[0]]);
            assert(sort_ranked(s) =~= s);
        } else {
            assert(rank_le(s[0int], s[0int + 1]));
            assert(!rank_lt(rest[0], s[0]));
            assert(sort_ranked(s) == seq![s[0]] + rest);
            assert(seq![s[0]] + rest =~= s);
        }
    }
}

/// Lexicographic comparison of two strings, character by character.
fn lex_le_str(s: &str, t: &str) -> (r: bool)
    ensures
        r == lex_le(s@, t@),
{
    let sn = s.unicode_len();
    let tn = t.unicode_len();
    let mut i: usize = 0;
    proof {
        assert(s@.skip(0) =~= s@);
        assert(t@.skip(0) =~= t@);
    }
    while i < sn && i < tn
        invariant
            i <= sn,
            i <= tn,
            sn == s@.len(),
            tn == t@.len(),
            lex_le(s@, t@) == lex_le(s@.skip(i as int), t@.skip(i as int)),
        decreases sn - i,
    {
        let cs = s.get_char(i);
        let ct = t.get_char(i);
        if (cs as u32) < (ct as u32) {
            return true;
        } else if (ct as u32) < (cs as u32) {
            return false;
        }
        proof {
            assert(s@.skip(i as int).drop_first() =~= s@.skip(i as int + 1));
            assert(t@.skip(i as int).drop_first() =~= t@.skip(i as int + 1));
        }
        i = i + 1;
    }
    i == sn
}

/// Whether `a` may stand at or before `b` among shown items.
pub fn rank_at_most(a: &App, b: &App) -> (r: bool)
    ensures
        r == rank_le(a@, b@),
{
    if a.score > b.score {
        true
    } else if a.score == b.score {
        lex_le_str(a.name.as_str(), b.name.as_str())
    } else {
        false
    }
}

fn rank_strictly_before(a: &App, b: &App) -> (r: bool)
    ensures
        r == rank_lt(a@, b@),
{
    rank_at_most(a, b) && !rank_at_most(b, a)
}

/// Places `a` into the already built vector at its rank, after every element
/// strictly ranked ahead of it.
fn insert_by_rank(r: &mut Vec<App>, a: App)
    ensures
        models(final(r)@) == insert_ranked(a@, models(old(r)@)),
{
    let ghost r0 = models(old(r)@);
    let mut j: usize = 0;
    proof {
        assert(r0.take(0) =~= Seq::<AppModel>::empty());
        assert(r0.skip(0) =~= r0);
        assert(r0.take(0) + insert_ranked(a@, r0.skip(0)) =~= insert_ranked(a@, r0));
    }
    while j < r.len() && rank_strictly_before(&r[j], &a)
        invariant
            j <= r.len(),
            r@ == old(r)@,
            r0 == models(r@),
            insert_ranked(a@, r0) == r0.take(j as int) + insert_ranked(a@, r0.skip(j as int)),
        decreases r.len() - j,
    {
        proof {
            assert(models(r@)[j as int] == r@[j as int]@);
            assert(r0.skip(j as int)[0] == r0[j as int]);
            assert(r0.skip(j as int).drop_first() =~= r0.skip(j as int + 1));
            assert(r0.take(j as int) + seq![r0[j as int]] =~= r0.take(j as int + 1));
            assert(r0.take(j as int) + (seq![r0[j as int]] + insert_ranked(a@, r0.skip(j as int + 1)))
                =~= r0.take(j as int + 1) + insert_ranked(a@, r0.skip(j as int + 1)));
        }
        j = j + 1;
    }
    proof {
        if j < r.len() {
            assert(models(r@)[j as int] == r@[j as int]@);
            assert(r0.skip(j as int)[0] == r0[j as int]);
            assert(insert_ranked(a@, r0.skip(j as int)) == seq![a@] + r0.skip(j as int));
        } else {
            assert(r0.skip(j as int) =~= Seq::<AppModel>::empty());
        }
    }
    r.insert(j, a);
    proof {
        assert(models(r@) =~= r0.take(j as int) + seq![a@] + r0.skip(j as int));
        assert(insert_ranked(a@, r0) =~= r0.take(j as int) + seq![a@] + r0.skip(j as int));
    }
}

/// Full re-sort of the shown items by rank: a stable insertion sort.
pub fn sort_by_rank(v: Vec<App>) -> (r: Vec<App>)
    ensures
        models(r@) == sort_ranked(models(v@)),
{
    let ghost v0 = models(v@);
    let mut v = v;
    let mut r: Vec<App> = Vec::new();
    proof {
        assert(models(v@) =~= v0.take(v@.len() as int));
        assert(v0.skip(v@.len() as int) =~= Seq::<AppModel>::empty());
    }
    while v.len() > 0
        invariant
            v@.len() <= v0.len(),
            models(v@) == v0.take(v@.len() as int),
            models(r@) == sort_ranked(v0.skip(v@.len() as int)),
        decreases v.len(),
    {
        let ghost j = v@.len() as int;
        let ghost vpre = v@;
        let a = v.pop().unwrap();
        proof {
            assert(a == vpre.last());
            assert(models(vpre)[j - 1] == vpre[j - 1]@);
            assert(a@ == v0.take(j)[j - 1]);
        }
        insert_by_rank(&mut r, a);
        proof {
            assert(a@ == v0[j - 1]);
            assert(models(v@) =~= v0.take(j - 1));
            let rest = v0.skip(j - 1);
            assert(rest[0] == v0[j - 1]);
            assert(rest.drop_first() =~= v0.skip(j));
            assert(models(r@) == sort_ranked(v0.skip(j - 1)));
        }
    }
    proof {
        assert(v0.skip(0) =~= v0);
    }
    r
}

} // verus!
