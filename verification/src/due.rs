//! The due-set collector: evaluate every chore and order the results.
//!
//! `ChoreService::get_due_chores` keeps a chore when it is overdue, or
//! when upcoming chores were asked for too; drops chores whose schedule
//! does not evaluate; and sorts what is left by the next due instant,
//! soonest first, entries without a due instant last. The sort is stable,
//! so ties keep their original order and the output is deterministic.

use vstd::multiset::Multiset;
use vstd::prelude::*;

use crate::models::ChoreWithLastCompletion;
use crate::models::ScheduleType;
use crate::schedule::ChoreService;
use crate::schedule::ChoreWithDueInfo;
use crate::schedule::spec_compute_due_info;

verus! {

/// The collector's order: by next due instant ascending, entries without
/// one last. A total preorder, so ties are possible and resolved by the
/// stable sort below.
pub open spec fn le_due(a: ChoreWithDueInfo, b: ChoreWithDueInfo) -> bool {
    match (a.next_due, b.next_due) {
        (Some(x), Some(y)) => x <= y,
        (Some(_), None) => true,
        (None, Some(_)) => false,
        (None, None) => true,
    }
}

/// Sorted under `le_due`.
pub open spec fn due_sorted(s: Seq<ChoreWithDueInfo>) -> bool {
    forall|i: int, j: int| 0 <= i < j < s.len() ==> le_due(s[i], s[j])
}

/// Insert `x` into `s` behind every element that compares less-or-equal:
/// the insertion step of a stable insertion sort.
pub open spec fn insert_due(x: ChoreWithDueInfo, s: Seq<ChoreWithDueInfo>) -> Seq<
    ChoreWithDueInfo,
>
    decreases s.len(),
{
    if s.len() == 0 {
        seq![x]
    } else if le_due(s[0], x) {
        seq![s[0]] + insert_due(x, s.drop_first())
    } else {
        seq![x] + s
    }
}

/// Stable insertion sort of the collected due list under `le_due`.
pub open spec fn sort_due(s: Seq<ChoreWithDueInfo>) -> Seq<ChoreWithDueInfo>
    decreases s.len(),
{
    if s.len() == 0 {
        Seq::empty()
    } else {
        insert_due(s.last(), sort_due(s.drop_last()))
    }
}

/// The kept evaluations of the chores, in input order: a chore appears
/// when its schedule evaluates and it is overdue or upcoming chores were
/// asked for.
pub open spec fn spec_collect_due(
    chores: Seq<ChoreWithLastCompletion>,
    now: i64,
    include_upcoming: bool,
) -> Seq<ChoreWithDueInfo>
    decreases chores.len(),
{
    if chores.len() == 0 {
        Seq::empty()
    } else {
        let rest = spec_collect_due(chores.drop_last(), now, include_upcoming);
        match spec_compute_due_info(chores.last(), now) {
            Some(info) => if info.is_overdue || include_upcoming {
                rest.push(info)
            } else {
                rest
            },
            None => rest,
        }
    }
}

/// What `get_due_chores` returns: the kept evaluations, stably sorted.
pub open spec fn spec_due_chores(
    chores: Seq<ChoreWithLastCompletion>,
    now: i64,
    include_upcoming: bool,
) -> Seq<ChoreWithDueInfo> {
    sort_due(spec_collect_due(chores, now, include_upcoming))
}

/// Inserting keeps sortedness.
proof fn lemma_insert_due_sorted(x: ChoreWithDueInfo, s: Seq<ChoreWithDueInfo>)
    requires
        due_sorted(s),
    ensures
        due_sorted(insert_due(x, s)),
    decreases s.len(),
{
    if s.len() == 0 {
    } else if le_due(s[0], x) {
        assert(due_sorted(s.drop_first()));
        lemma_insert_due_sorted(x, s.drop_first());
        let t = seq![s[0]] + insert_due(x, s.drop_first());
        assert forall|i: int, j: int| 0 <= i < j < t.len() implies le_due(t[i], t[j]) by {
            lemma_insert_due_elements(x, s.drop_first());
            if i == 0 {
                let u = insert_due(x, s.drop_first());
                assert(t[j] == u[j - 1]);
            }
        }
    } else {
        assert forall|i: int, j: int|
            0 <= i < j < (seq![x] + s).len() implies le_due((seq![x] + s)[i], (seq![x] + s)[j]) by {
            if i == 0 {
                assert(!le_due(s[0], x));
                assert(le_due(x, s[0]));
                if j > 1 {
                    assert(le_due(s[0], s[j - 1]));
                }
            }
        }
    }
}

/// Every element of `insert_due(x, s)` is `x` or an element of `s`.
proof fn lemma_insert_due_elements(x: ChoreWithDueInfo, s: Seq<ChoreWithDueInfo>)
    ensures
        forall|k: int|
            0 <= k < insert_due(x, s).len() ==> (insert_due(x, s)[k] == x || s.contains(
                #[trigger] insert_due(x, s)[k],
            )),
        insert_due(x, s).len() == s.len() + 1,
    decreases s.len(),
{
    if s.len() == 0 {
    } else if le_due(s[0], x) {
        lemma_insert_due_elements(x, s.drop_first());
        let t = seq![s[0]] + insert_due(x, s.drop_first());
        assert forall|k: int|
            0 <= k < t.len() implies (t[k] == x || s.contains(#[trigger] t[k])) by {
            if k == 0 {
                assert(s[0] == t[0]);
                assert(s.contains(t[0]));
            } else {
                let u = insert_due(x, s.drop_first());
                assert(t[k] == u[k - 1]);
                if u[k - 1] != x {
                    let v = u[k - 1];
                    let i = choose|i: int| 0 <= i < s.drop_first().len() && s.drop_first()[i] == v;
                    assert(s[i + 1] == v);
                }
            }
        }
    }
}

/// Where the insertion lands: if everything before `p` compares
/// less-or-equal to `x` and the element at `p` (if any) does not, the
/// insertion splits `s` at `p`.
proof fn lemma_insert_due_position(x: ChoreWithDueInfo, s: Seq<ChoreWithDueInfo>, p: int)
    requires
        0 <= p <= s.len(),
        forall|k: int| 0 <= k < p ==> le_due(#[trigger] s[k], x),
        p < s.len() ==> !le_due(s[p], x),
    ensures
        insert_due(x, s) == s.take(p) + seq![x] + s.skip(p),
    decreases s.len(),
{
    if s.len() == 0 {
        assert(insert_due(x, s) =~= s.take(p) + seq![x] + s.skip(p));
    } else if p == 0 {
        assert(!le_due(s[0], x));
        assert(insert_due(x, s) =~= s.take(0) + seq![x] + s.skip(0));
    } else {
        assert(le_due(s[0], x));
        lemma_insert_due_position(x, s.drop_first(), p - 1);
        assert(insert_due(x, s) == seq![s[0]] + (s.drop_first().take(p - 1) + seq![x]
            + s.drop_first().skip(p - 1)));
        assert(insert_due(x, s) =~= s.take(p) + seq![x] + s.skip(p));
    }
}

/// The multiset of the sorted list is the multiset of the input: sorting
/// permutes and invents nothing.
pub proof fn lemma_insert_due_multiset(x: ChoreWithDueInfo, s: Seq<ChoreWithDueInfo>)
    ensures
        insert_due(x, s).to_multiset() == s.to_multiset().insert(x),
    decreases s.len(),
{
    broadcast use vstd::seq_lib::group_to_multiset_ensures;

    if s.len() == 0 {
        assert(insert_due(x, s) =~= Seq::empty().push(x));
        assert(Seq::<ChoreWithDueInfo>::empty().push(x).to_multiset() =~= Seq::<
            ChoreWithDueInfo,
        >::empty().to_multiset().insert(x));
        assert(Seq::<ChoreWithDueInfo>::empty().to_multiset() =~= Multiset::empty());
    } else if le_due(s[0], x) {
        lemma_insert_due_multiset(x, s.drop_first());
        let u = insert_due(x, s.drop_first());
        assert(insert_due(x, s) == seq![s[0]] + u);
        assert(seq![s[0]] + u =~= u.insert(0, s[0]));
        assert((u.insert(0, s[0])).to_multiset() =~= u.to_multiset().insert(s[0]));
        assert(s =~= s.drop_first().insert(0, s[0]));
        assert(s.to_multiset() =~= s.drop_first().to_multiset().insert(s[0]));
        assert(insert_due(x, s).to_multiset() =~= s.to_multiset().insert(x));
    } else {
        assert(seq![x] + s =~= s.insert(0, x));
        assert((s.insert(0, x)).to_multiset() =~= s.to_multiset().insert(x));
    }
}

/// See `lemma_insert_due_multiset`.
pub proof fn lemma_sort_due_multiset(s: Seq<ChoreWithDueInfo>)
    ensures
        sort_due(s).to_multiset() == s.to_multiset(),
    decreases s.len(),
{
    broadcast use vstd::seq_lib::group_to_multiset_ensures;

    if s.len() == 0 {
        assert(sort_due(s) =~= s);
    } else {
        lemma_sort_due_multiset(s.drop_last());
        lemma_insert_due_multiset(s.last(), sort_due(s.drop_last()));
        assert(s =~= s.drop_last().push(s.last()));
        assert(s.to_multiset() =~= s.drop_last().to_multiset().insert(s.last()));
    }
}

/// Sorting keeps exactly the members of the input.
pub proof fn lemma_sort_due_contains(s: Seq<ChoreWithDueInfo>, x: ChoreWithDueInfo)
    ensures
        sort_due(s).contains(x) <==> s.contains(x),
{
    broadcast use vstd::seq_lib::group_to_multiset_ensures;

    lemma_sort_due_multiset(s);
    assert(sort_due(s).contains(x) <==> sort_due(s).to_multiset().count(x) > 0);
    assert(s.contains(x) <==> s.to_multiset().count(x) > 0);
}

/// Every collected entry is the evaluation of one of the chores, and it
/// passed the filter.
proof fn lemma_collect_due_elements(
    chores: Seq<ChoreWithLastCompletion>,
    now: i64,
    include_upcoming: bool,
)
    ensures
        forall|x: ChoreWithDueInfo|
            spec_collect_due(chores, now, include_upcoming).contains(x) ==> (x.is_overdue
                || include_upcoming) && exists|k: int|
                0 <= k < chores.len() && spec_compute_due_info(#[trigger] chores[k], now) == Some(x),
    decreases chores.len(),
{
    if chores.len() == 0 {
    } else {
        lemma_collect_due_elements(chores.drop_last(), now, include_upcoming);
        let rest = spec_collect_due(chores.drop_last(), now, include_upcoming);
        let cur = spec_collect_due(chores, now, include_upcoming);
        assert forall|x: ChoreWithDueInfo| cur.contains(x) implies (x.is_overdue
            || include_upcoming) && exists|k: int|
            0 <= k < chores.len() && spec_compute_due_info(#[trigger] chores[k], now) == Some(
                x,
            ) by {
            let w = choose|w: int| 0 <= w < cur.len() && cur[w] == x;
            if w < rest.len() {
                assert(rest[w] == x);
                assert(rest.contains(x));
                let k = choose|k: int|
                    0 <= k < chores.drop_last().len() && spec_compute_due_info(
                        #[trigger] chores.drop_last()[k],
                        now,
                    ) == Some(x);
                assert(chores[k] == chores.drop_last()[k]);
            } else {
                assert(match spec_compute_due_info(chores.last(), now) {
                    Some(info) => info == x && (info.is_overdue || include_upcoming),
                    None => false,
                });
                assert(chores[chores.len() - 1] == chores.last());
            }
        }
    }
}

/// A chore whose evaluation passes the filter is in the collected list.
proof fn lemma_collect_due_complete(
    chores: Seq<ChoreWithLastCompletion>,
    now: i64,
    include_upcoming: bool,
    k: int,
)
    requires
        0 <= k < chores.len(),
        spec_compute_due_info(chores[k], now) is Some,
        spec_compute_due_info(chores[k], now)->Some_0.is_overdue || include_upcoming,
    ensures
        spec_collect_due(chores, now, include_upcoming).contains(
            spec_compute_due_info(chores[k], now)->Some_0,
        ),
    decreases chores.len(),
{
    let info = spec_compute_due_info(chores[k], now)->Some_0;
    let rest = spec_collect_due(chores.drop_last(), now, include_upcoming);
    let cur = spec_collect_due(chores, now, include_upcoming);
    if k == chores.len() - 1 {
        assert(chores.last() == chores[k]);
        assert(cur[rest.len() as int] == info);
    } else {
        assert(chores.drop_last()[k] == chores[k]);
        lemma_collect_due_complete(chores.drop_last(), now, include_upcoming, k);
        let w = choose|w: int| 0 <= w < rest.len() && rest[w] == info;
        assert(cur[w] == info);
    }
}

/// A chore without an automatic due date never appears in the due view:
/// with upcoming chores excluded, everything returned is overdue, and
/// such a chore never is.
pub proof fn lemma_once_in_a_while_never_due(
    chores: Seq<ChoreWithLastCompletion>,
    now: i64,
    j: int,
)
    requires
        0 <= j < spec_due_chores(chores, now, false).len(),
    ensures
        spec_due_chores(chores, now, false)[j].is_overdue,
        spec_due_chores(chores, now, false)[j].chore.schedule_type != ScheduleType::OnceInAWhile,
{
    let collected = spec_collect_due(chores, now, false);
    let item = spec_due_chores(chores, now, false)[j];
    assert(spec_due_chores(chores, now, false).contains(item));
    lemma_sort_due_contains(collected, item);
    lemma_collect_due_elements(chores, now, false);
    assert(item.is_overdue);
    let k = choose|k: int|
        0 <= k < chores.len() && spec_compute_due_info(#[trigger] chores[k], now) == Some(item);
    assert(chores[k].schedule_type == item.chore.schedule_type);
}

/// A chore without an automatic due date does appear in the upcoming
/// view, with no due instant and not overdue.
pub proof fn lemma_once_in_a_while_upcoming(
    chores: Seq<ChoreWithLastCompletion>,
    now: i64,
    k: int,
)
    requires
        0 <= k < chores.len(),
        chores[k].schedule_type == ScheduleType::OnceInAWhile,
    ensures
        exists|j: int|
            0 <= j < spec_due_chores(chores, now, true).len() && (#[trigger] spec_due_chores(
                chores,
                now,
                true,
            )[j]).chore == chores[k] && spec_due_chores(chores, now, true)[j].next_due is None
                && !spec_due_chores(chores, now, true)[j].is_overdue,
{
    let info = ChoreWithDueInfo { chore: chores[k], next_due: None, is_overdue: false };
    assert(spec_compute_due_info(chores[k], now) == Some(info));
    lemma_collect_due_complete(chores, now, true, k);
    let collected = spec_collect_due(chores, now, true);
    lemma_sort_due_contains(collected, info);
    let sorted = spec_due_chores(chores, now, true);
    let j = choose|j: int| 0 <= j < sorted.len() && sorted[j] == info;
    assert(sorted[j].chore == chores[k] && sorted[j].next_due is None && !sorted[j].is_overdue);
}

/// `le_due` compares, exactly as the specification `le_due` says.
fn le_due_exec(a: &ChoreWithDueInfo, b: &ChoreWithDueInfo) -> (r: bool)
    ensures
        r == le_due(*a, *b),
{
    match (a.next_due, b.next_due) {
        (Some(x), Some(y)) => x <= y,
        (Some(_), None) => true,
        (None, Some(_)) => false,
        (None, None) => true,
    }
}

impl Clone for ChoreWithDueInfo {
    fn clone(&self) -> (r: Self)
        ensures
            r == *self,
    {
        ChoreWithDueInfo {
            chore: self.chore.clone(),
            next_due: self.next_due,
            is_overdue: self.is_overdue,
        }
    }
}

impl ChoreService {
    /// Evaluate all chores and return the due set, ordered soonest first.
    ///
    /// With `include_upcoming` false only overdue chores are returned;
    /// with it true every evaluable chore is. Chores whose schedule does
    /// not evaluate are skipped.
    pub fn get_due_chores(
        chores: &Vec<ChoreWithLastCompletion>,
        now: i64,
        include_upcoming: bool,
    ) -> (r: Vec<ChoreWithDueInfo>)
        requires
            forall|i: int| 0 <= i < chores@.len() ==> (#[trigger] chores@[i]).wf(),
        ensures
            r@ == spec_due_chores(chores@, now, include_upcoming),
            due_sorted(r@),
    {
        let mut collected: Vec<ChoreWithDueInfo> = Vec::new();
        let mut i: usize = 0;
        while i < chores.len()
            invariant
                i <= chores@.len(),
                forall|k: int| 0 <= k < chores@.len() ==> (#[trigger] chores@[k]).wf(),
                collected@ == spec_collect_due(chores@.take(i as int), now, include_upcoming),
            decreases chores@.len() - i,
        {
            let info = ChoreService::compute_due_info(&chores[i], now);
            proof {
                assert(chores@.take(i + 1 as int).drop_last() =~= chores@.take(i as int));
                assert(chores@.take(i + 1 as int).last() == chores@[i as int]);
            }
            match info {
                Some(info) => {
                    if info.is_overdue || include_upcoming {
                        collected.push(info);
                    }
                },
                None => {},
            }
            i += 1;
        }
        proof {
            assert(chores@.take(chores@.len() as int) =~= chores@);
        }
        let mut sorted: Vec<ChoreWithDueInfo> = Vec::new();
        let mut i: usize = 0;
        while i < collected.len()
            invariant
                i <= collected@.len(),
                collected@ == spec_collect_due(chores@, now, include_upcoming),
                sorted@ == sort_due(collected@.take(i as int)),
                due_sorted(sorted@),
            decreases collected@.len() - i,
        {
            let item = collected[i].clone();
            let ghost prev = sorted@;
            let mut j: usize = sorted.len();
            while j > 0 && !le_due_exec(&sorted[j - 1], &item)
                invariant
                    j <= sorted@.len(),
                    sorted@ == prev,
                    forall|k: int| j <= k < sorted@.len() ==> !le_due(#[trigger] sorted@[k], item),
                decreases j,
            {
                j -= 1;
            }
            proof {
                assert forall|k: int| 0 <= k < j implies le_due(#[trigger] prev[k], item) by {
                    if j > 0 {
                        assert(le_due(prev[j - 1], item));
                        if k < j - 1 {
                            assert(le_due(prev[k], prev[j - 1]));
                        }
                    }
                }
                lemma_insert_due_position(item, prev, j as int);
                lemma_insert_due_sorted(item, prev);
            }
            sorted.insert(j, item);
            proof {
                assert(sorted@ =~= prev.take(j as int) + seq![item] + prev.skip(j as int));
                assert(collected@.take(i + 1 as int).drop_last() =~= collected@.take(i as int));
                assert(collected@.take(i + 1 as int).last() == collected@[i as int]);
                assert(sorted@ == sort_due(collected@.take(i + 1 as int)));
            }
            i += 1;
        }
        proof {
            assert(collected@.take(collected@.len() as int) =~= collected@);
        }
        sorted
    }
}

} // verus!
