//! The position registry: one slot per lender id ever issued. A slot holds
//! the position while its certificate lives and is emptied, never reused,
//! when the certificate is surrendered in full.

use crate::decimal::Amount;
use vstd::prelude::*;

verus! {

/// A lender's position: where it started and what it is worth now.
#[derive(Clone, Copy, Debug, PartialEq, Eq, Structural)]
pub struct LenderData {
    /// The amount deposited when the position was opened.
    pub initial_deposit: Amount,
    /// When the position was opened, in minutes since the Unix epoch.
    pub date: u64,
    /// The position's present claim on the pool.
    pub current_amount: Amount,
}

/// What a slot contributes to the pool's claims.
pub open spec fn slot_amount(o: Option<LenderData>) -> int {
    match o {
        Some(p) => p.current_amount@ as int,
        None => 0,
    }
}

/// Sum of the claims of all live positions.
pub open spec fn live_sum(s: Seq<Option<LenderData>>) -> int
    decreases s.len(),
{
    if s.len() == 0 {
        0
    } else {
        live_sum(s.drop_last()) + slot_amount(s.last())
    }
}

/// The id names a live position.
pub open spec fn is_live(s: Seq<Option<LenderData>>, id: u64) -> bool {
    1 <= id <= s.len() && s[id - 1] is Some
}

/// The ids name live positions, each once.
pub open spec fn valid_ids(s: Seq<Option<LenderData>>, ids: Seq<u64>) -> bool {
    &&& forall|k: int| 0 <= k < ids.len() ==> is_live(s, #[trigger] ids[k])
    &&& forall|j: int, k: int| 0 <= j < k < ids.len() ==> ids[j] != ids[k]
}

/// Sum of the claims of the positions named by `ids`.
pub open spec fn claim_total(s: Seq<Option<LenderData>>, ids: Seq<u64>) -> int
    decreases ids.len(),
{
    if ids.len() == 0 {
        0
    } else {
        claim_total(s, ids.drop_last()) + slot_amount(s[ids.last() - 1])
    }
}

/// The slots named by `ids` replaced by `f` of their contents.
pub open spec fn update_each(
    s: Seq<Option<LenderData>>,
    ids: Seq<u64>,
    f: spec_fn(Option<LenderData>) -> Option<LenderData>,
) -> Seq<Option<LenderData>>
    decreases ids.len(),
{
    if ids.len() == 0 {
        s
    } else {
        update_each(s, ids.drop_last(), f).update(ids.last() - 1, f(s[ids.last() - 1]))
    }
}

/// Sum of what the slots named by `ids` contribute once replaced by `f`.
pub open spec fn image_total(
    s: Seq<Option<LenderData>>,
    ids: Seq<u64>,
    f: spec_fn(Option<LenderData>) -> Option<LenderData>,
) -> int
    decreases ids.len(),
{
    if ids.len() == 0 {
        0
    } else {
        image_total(s, ids.drop_last(), f) + slot_amount(f(s[ids.last() - 1]))
    }
}

pub proof fn lemma_live_sum_nonneg(s: Seq<Option<LenderData>>)
    ensures
        live_sum(s) >= 0,
    decreases s.len(),
{
    if s.len() > 0 {
        lemma_live_sum_nonneg(s.drop_last());
    }
}

/// Replacing one slot changes the live sum by the difference of the two.
pub proof fn lemma_live_sum_update(s: Seq<Option<LenderData>>, i: int, v: Option<LenderData>)
    requires
        0 <= i < s.len(),
    ensures
        live_sum(s.update(i, v)) == live_sum(s) - slot_amount(s[i]) + slot_amount(v),
    decreases s.len(),
{
    let t = s.update(i, v);
    if i == s.len() - 1 {
        assert(t.drop_last() =~= s.drop_last());
    } else {
        assert(t.drop_last() =~= s.drop_last().update(i, v));
        lemma_live_sum_update(s.drop_last(), i, v);
    }
}

/// Appending a slot adds its contribution.
pub proof fn lemma_live_sum_push(s: Seq<Option<LenderData>>, v: Option<LenderData>)
    ensures
        live_sum(s.push(v)) == live_sum(s) + slot_amount(v),
{
    assert(s.push(v).drop_last() =~= s);
}

/// No slot is worth more than all of them together.
pub proof fn lemma_slot_le_live_sum(s: Seq<Option<LenderData>>, i: int)
    requires
        0 <= i < s.len(),
    ensures
        slot_amount(s[i]) <= live_sum(s),
    decreases s.len(),
{
    lemma_live_sum_nonneg(s.drop_last());
    if i < s.len() - 1 {
        lemma_slot_le_live_sum(s.drop_last(), i);
    }
}

/// What `update_each` does slot by slot, and what it does to the live sum.
pub proof fn lemma_update_each(
    s: Seq<Option<LenderData>>,
    ids: Seq<u64>,
    f: spec_fn(Option<LenderData>) -> Option<LenderData>,
)
    requires
        valid_ids(s, ids),
    ensures
        update_each(s, ids, f).len() == s.len(),
        forall|i: int|
            0 <= i < s.len() && !ids.contains((i + 1) as u64) ==> #[trigger] update_each(
                s,
                ids,
                f,
            )[i] == s[i],
        forall|k: int|
            0 <= k < ids.len() ==> #[trigger] update_each(s, ids, f)[ids[k] - 1] == f(
                s[ids[k] - 1],
            ),
        live_sum(update_each(s, ids, f)) == live_sum(s) - claim_total(s, ids) + image_total(
            s,
            ids,
            f,
        ),
    decreases ids.len(),
{
    if ids.len() > 0 {
        let p = ids.drop_last();
        let last = ids.last();
        assert(valid_ids(s, p)) by {
            assert forall|k: int| 0 <= k < p.len() implies is_live(s, #[trigger] p[k]) by {
                assert(p[k] == ids[k]);
            }
        }
        lemma_update_each(s, p, f);
        let t = update_each(s, p, f);
        assert(!p.contains(last)) by {
            if p.contains(last) {
                let j = choose|j: int| 0 <= j < p.len() && p[j] == last;
                assert(ids[j] == ids[ids.len() - 1]);
            }
        }
        assert(is_live(s, ids[ids.len() - 1]));
        assert(t[last - 1] == s[last - 1]);
        lemma_live_sum_update(t, last - 1, f(s[last - 1]));
        let u = update_each(s, ids, f);
        assert forall|i: int|
            0 <= i < s.len() && !ids.contains((i + 1) as u64) implies #[trigger] u[i] == s[i] by {
            if p.contains((i + 1) as u64) {
                let j = choose|j: int| 0 <= j < p.len() && p[j] == (i + 1) as u64;
                assert(ids[j] == p[j]);
            }
            assert(ids[ids.len() - 1] == last);
        }
        assert forall|k: int| 0 <= k < ids.len() implies #[trigger] u[ids[k] - 1] == f(
            s[ids[k] - 1],
        ) by {
            if k < ids.len() - 1 {
                assert(p[k] == ids[k]);
                assert(ids[k] != last);
                assert(is_live(s, ids[k]));
            }
        }
    }
}

/// The positions named by valid ids are together worth at most all live
/// positions.
pub proof fn lemma_claim_total_le_live_sum(s: Seq<Option<LenderData>>, ids: Seq<u64>)
    requires
        valid_ids(s, ids),
    ensures
        0 <= claim_total(s, ids) <= live_sum(s),
    decreases ids.len(),
{
    let none = |o: Option<LenderData>| None::<LenderData>;
    lemma_update_each(s, ids, none);
    lemma_live_sum_nonneg(update_each(s, ids, none));
    lemma_image_total_of_none(s, ids);
    lemma_claim_total_nonneg(s, ids);
}

pub proof fn lemma_claim_total_nonneg(s: Seq<Option<LenderData>>, ids: Seq<u64>)
    ensures
        claim_total(s, ids) >= 0,
    decreases ids.len(),
{
    if ids.len() > 0 {
        lemma_claim_total_nonneg(s, ids.drop_last());
    }
}

pub proof fn lemma_image_total_of_none(s: Seq<Option<LenderData>>, ids: Seq<u64>)
    ensures
        image_total(s, ids, |o: Option<LenderData>| None::<LenderData>) == 0,
    decreases ids.len(),
{
    if ids.len() > 0 {
        lemma_image_total_of_none(s, ids.drop_last());
    }
}

/// A prefix of valid ids is valid.
pub proof fn lemma_valid_prefix(s: Seq<Option<LenderData>>, ids: Seq<u64>, k: int)
    requires
        valid_ids(s, ids),
        0 <= k <= ids.len(),
    ensures
        valid_ids(s, ids.take(k)),
        k < ids.len() ==> !ids.take(k).contains(ids[k]),
        k > 0 ==> ids.take(k).drop_last() == ids.take(k - 1),
{
    let t = ids.take(k);
    assert forall|j: int| 0 <= j < t.len() implies is_live(s, #[trigger] t[j]) by {
        assert(t[j] == ids[j]);
    }
    assert forall|i: int, j: int| 0 <= i < j < t.len() implies t[i] != t[j] by {
        assert(t[i] == ids[i] && t[j] == ids[j]);
    }
    if k < ids.len() && t.contains(ids[k]) {
        let j = choose|j: int| 0 <= j < t.len() && t[j] == ids[k];
        assert(ids[j] == ids[k]);
    }
    if k > 0 {
        assert(t.drop_last() =~= ids.take(k - 1));
    }
}

} // verus!
