//! Laws of the ledger that relate several operations: the first-swap path
//! can succeed at most once per user; the swap counter starts at 0 and grows
//! by exactly 1 per swap created; operations for one user leave every other
//! user's record untouched; and a user's running settled total is exactly
//! the sum of the amounts of every `complete_swap` call ever issued for that
//! user's swap — repeats included.

use vstd::prelude::*;
use crate::admin::admin_key;
use crate::ledger::{
    count_owned, has_swap, has_user, lemma_count_update, lemma_has_user_same_authorities,
    lemma_swap_index_is, lemma_user_index_is, spec_complete_swap, spec_first_swap, spec_new_swap,
    spec_new_user, swap_at, swap_index, user_at, user_index, LedgerView,
};
use crate::types::{LedgerError, SwapStage, UserView};

verus! {

/// Once `first_swap` has succeeded for a user, the same call — and any other
/// `first_swap` call for that user, whatever the swap identifier — fails
/// with `NotFirstSwap`: the user's swap count is now 1.
pub proof fn lemma_first_swap_succeeds_once(
    l: LedgerView,
    caller: Seq<char>,
    authority: Seq<char>,
    swap_id: Seq<char>,
    swap_id2: Seq<char>,
)
    requires
        l.wf(),
        spec_first_swap(l, caller, authority, swap_id) is Ok,
    ensures
        spec_first_swap(
            spec_first_swap(l, caller, authority, swap_id)->Ok_0,
            caller,
            authority,
            swap_id2,
        ) == Err::<LedgerView, LedgerError>(LedgerError::NotFirstSwap),
{
    let l2 = spec_first_swap(l, caller, authority, swap_id)->Ok_0;
    let uidx = user_index(l.users, authority);
    assert(0 <= uidx < l.users.len() && l.users[uidx].authority == authority);
    assert(l2.users == l.users.update(
        uidx,
        UserView {
            authority,
            swaps_count: 1,
            total_swaps_value: user_at(l.users, authority).total_swaps_value,
        },
    ));
    assert(forall|i: int|
        0 <= i < l2.users.len() ==> (#[trigger] l2.users[i]).authority == l.users[i].authority);
    lemma_has_user_same_authorities(l.users, l2.users, authority);
    lemma_user_index_is(l2.users, authority, uidx);
    assert(user_at(l2.users, authority).swaps_count == 1);
}

/// A user's swap count is 0 on registration, becomes 1 on the successful
/// first-swap path (allowed only at 0), and grows by exactly 1 on every
/// successful further swap creation.
pub proof fn lemma_swap_count_steps(
    l: LedgerView,
    caller: Seq<char>,
    authority: Seq<char>,
    swap_id: Seq<char>,
)
    requires
        l.wf(),
    ensures
        spec_new_user(l, authority) is Ok ==> user_at(
            spec_new_user(l, authority)->Ok_0.users,
            authority,
        ).swaps_count == 0,
        spec_first_swap(l, caller, authority, swap_id) is Ok ==> user_at(
            l.users,
            authority,
        ).swaps_count == 0 && user_at(
            spec_first_swap(l, caller, authority, swap_id)->Ok_0.users,
            authority,
        ).swaps_count == 1,
        (spec_new_swap(l, caller, authority, swap_id) is Ok && user_at(
            l.users,
            authority,
        ).swaps_count < u64::MAX) ==> user_at(
            spec_new_swap(l, caller, authority, swap_id)->Ok_0.users,
            authority,
        ).swaps_count == user_at(l.users, authority).swaps_count + 1,
{
    if spec_new_user(l, authority) is Ok {
        let l2 = spec_new_user(l, authority)->Ok_0;
        let n = l.users.len() as int;
        assert(l2.users[n].authority == authority);
        lemma_user_index_is(l2.users, authority, n);
    }
    if spec_first_swap(l, caller, authority, swap_id) is Ok {
        let l2 = spec_first_swap(l, caller, authority, swap_id)->Ok_0;
        let i = user_index(l.users, authority);
        assert(0 <= i < l.users.len() && l.users[i].authority == authority);
        assert(forall|j: int|
            0 <= j < l2.users.len() ==> (#[trigger] l2.users[j]).authority
                == l.users[j].authority);
        lemma_user_index_is(l2.users, authority, i);
    }
    if spec_new_swap(l, caller, authority, swap_id) is Ok {
        let l2 = spec_new_swap(l, caller, authority, swap_id)->Ok_0;
        let i = user_index(l.users, authority);
        assert(0 <= i < l.users.len() && l.users[i].authority == authority);
        assert(forall|j: int|
            0 <= j < l2.users.len() ==> (#[trigger] l2.users[j]).authority
                == l.users[j].authority);
        lemma_user_index_is(l2.users, authority, i);
    }
}

/// Operations for one user never touch another user's record: whatever a
/// registration, either swap-creation path, or a completion does for
/// `authority`, every other registered user's record is exactly as it was.
pub proof fn lemma_other_users_untouched(
    l: LedgerView,
    caller: Seq<char>,
    authority: Seq<char>,
    swap_id: Seq<char>,
    settled: bool,
    settled_amount: u64,
    now: i64,
    other: Seq<char>,
)
    requires
        l.wf(),
        has_user(l.users, other),
        other != authority,
    ensures
        spec_new_user(l, authority) is Ok ==> user_at(
            spec_new_user(l, authority)->Ok_0.users,
            other,
        ) == user_at(l.users, other),
        spec_first_swap(l, caller, authority, swap_id) is Ok ==> user_at(
            spec_first_swap(l, caller, authority, swap_id)->Ok_0.users,
            other,
        ) == user_at(l.users, other),
        spec_new_swap(l, caller, authority, swap_id) is Ok ==> user_at(
            spec_new_swap(l, caller, authority, swap_id)->Ok_0.users,
            other,
        ) == user_at(l.users, other),
        spec_complete_swap(l, caller, authority, swap_id, settled, settled_amount, now) is Ok
            ==> user_at(
            spec_complete_swap(l, caller, authority, swap_id, settled, settled_amount, now)
                ->Ok_0.users,
            other,
        ) == user_at(l.users, other),
{
    let k = user_index(l.users, other);
    assert(0 <= k < l.users.len() && l.users[k].authority == other);
    if spec_new_user(l, authority) is Ok {
        let l2 = spec_new_user(l, authority)->Ok_0;
        assert(forall|j: int|
            0 <= j < l.users.len() ==> l2.users[j] == (#[trigger] l.users[j]));
        assert(l2.users[l.users.len() as int].authority == authority);
        lemma_user_index_is(l2.users, other, k);
    }
    if spec_first_swap(l, caller, authority, swap_id) is Ok {
        let l2 = spec_first_swap(l, caller, authority, swap_id)->Ok_0;
        let i = user_index(l.users, authority);
        assert(0 <= i < l.users.len() && l.users[i].authority == authority);
        assert(forall|j: int|
            0 <= j < l2.users.len() ==> (#[trigger] l2.users[j]).authority
                == l.users[j].authority);
        lemma_user_index_is(l2.users, other, k);
        assert(l2.users[k] == l.users[k]);
    }
    if spec_new_swap(l, caller, authority, swap_id) is Ok {
        let l2 = spec_new_swap(l, caller, authority, swap_id)->Ok_0;
        let i = user_index(l.users, authority);
        assert(0 <= i < l.users.len() && l.users[i].authority == authority);
        assert(forall|j: int|
            0 <= j < l2.users.len() ==> (#[trigger] l2.users[j]).authority
                == l.users[j].authority);
        lemma_user_index_is(l2.users, other, k);
        assert(l2.users[k] == l.users[k]);
    }
    if spec_complete_swap(l, caller, authority, swap_id, settled, settled_amount, now) is Ok {
        let l2 = spec_complete_swap(
            l,
            caller,
            authority,
            swap_id,
            settled,
            settled_amount,
            now,
        )->Ok_0;
        let i = user_index(l.users, authority);
        assert(0 <= i < l.users.len() && l.users[i].authority == authority);
        assert(forall|j: int|
            0 <= j < l2.users.len() ==> (#[trigger] l2.users[j]).authority
                == l.users[j].authority);
        lemma_user_index_is(l2.users, other, k);
        assert(l2.users[k] == l.users[k]);
    }
}

/// Apply a run of `complete_swap` calls against one swap record, each event
/// carrying the reported outcome flag and amount; stop at the first
/// rejection.
pub open spec fn apply_completes(
    l: LedgerView,
    caller: Seq<char>,
    authority: Seq<char>,
    swap_id: Seq<char>,
    events: Seq<(bool, u64)>,
    now: i64,
) -> Result<LedgerView, LedgerError>
    decreases events.len(),
{
    if events.len() == 0 {
        Ok(l)
    } else {
        match spec_complete_swap(l, caller, authority, swap_id, events[0].0, events[0].1, now) {
            Ok(l2) => apply_completes(l2, caller, authority, swap_id, events.drop_first(), now),
            Err(e) => Err(e),
        }
    }
}

/// The sum of the reported amounts of a run of `complete_swap` events.
pub open spec fn sum_amounts(events: Seq<(bool, u64)>) -> int
    decreases events.len(),
{
    if events.len() == 0 {
        0
    } else {
        events[0].1 + sum_amounts(events.drop_first())
    }
}

/// The sum of reported amounts is never negative.
proof fn lemma_sum_amounts_nonneg(events: Seq<(bool, u64)>)
    ensures
        sum_amounts(events) >= 0,
    decreases events.len(),
{
    if events.len() > 0 {
        lemma_sum_amounts_nonneg(events.drop_first());
    }
}

/// A successful `complete_swap` keeps the ledger well formed, keeps the
/// record addressable at its pair and completed, and adds exactly the
/// reported amount to the owner's total.
proof fn lemma_spec_complete_swap_wf(
    l: LedgerView,
    caller: Seq<char>,
    authority: Seq<char>,
    swap_id: Seq<char>,
    settled: bool,
    settled_amount: u64,
    now: i64,
)
    requires
        l.wf(),
        spec_complete_swap(l, caller, authority, swap_id, settled, settled_amount, now) is Ok,
    ensures
        ({
            let l2 = spec_complete_swap(
                l,
                caller,
                authority,
                swap_id,
                settled,
                settled_amount,
                now,
            )->Ok_0;
            l2.wf() && has_swap(l2.swaps, authority, swap_id) && swap_at(
                l2.swaps,
                authority,
                swap_id,
            ).account.stage == SwapStage::Completed && has_user(l2.users, authority) && user_at(
                l2.users,
                authority,
            ).total_swaps_value == ((user_at(l.users, authority).total_swaps_value
                + settled_amount) as u64)
        }),
{
    let l2 = spec_complete_swap(l, caller, authority, swap_id, settled, settled_amount, now)->Ok_0;
    let uidx = user_index(l.users, authority);
    let sidx = swap_index(l.swaps, authority, swap_id);
    assert(0 <= uidx < l.users.len() && l.users[uidx].authority == authority);
    assert(0 <= sidx < l.swaps.len() && l.swaps[sidx].account.authority == authority
        && l.swaps[sidx].swap_id == swap_id);
    let ev = l2.swaps[sidx];
    assert(forall|i: int|
        0 <= i < l2.users.len() ==> (#[trigger] l2.users[i]).authority == l.users[i].authority);
    assert(forall|k: int|
        0 <= k < l2.swaps.len() ==> (#[trigger] l2.swaps[k]).account.authority
            == l.swaps[k].account.authority && l2.swaps[k].swap_id == l.swaps[k].swap_id);
    assert forall|k: int| 0 <= k < l2.swaps.len() implies has_user(
        l2.users,
        (#[trigger] l2.swaps[k]).account.authority,
    ) by {
        lemma_has_user_same_authorities(l.users, l2.users, l.swaps[k].account.authority);
    }
    assert forall|j: int| 0 <= j < l2.users.len() implies (#[trigger] l2.users[j]).swaps_count
        == count_owned(l2.swaps, l2.users[j].authority) by {
        lemma_count_update(l.swaps, sidx, ev, l2.users[j].authority);
    }
    lemma_user_index_is(l2.users, authority, uidx);
    lemma_swap_index_is(l2.swaps, authority, swap_id, sidx);
}

/// A user's running settled total accumulates exactly: starting from any
/// well-formed ledger holding an initiated (or already completed) swap
/// record, a run of admin `complete_swap` calls against that record all
/// succeed, and they grow the owner's `total_swaps_value` by exactly the sum
/// of the reported amounts — every call counted, repeats and
/// `settled = false` reports included.
pub proof fn lemma_total_accumulates(
    l: LedgerView,
    caller: Seq<char>,
    authority: Seq<char>,
    swap_id: Seq<char>,
    events: Seq<(bool, u64)>,
    now: i64,
)
    requires
        l.wf(),
        caller == admin_key(),
        has_swap(l.swaps, authority, swap_id),
        swap_at(l.swaps, authority, swap_id).account.stage != SwapStage::Created,
        user_at(l.users, authority).total_swaps_value + sum_amounts(events) <= u64::MAX,
    ensures
        apply_completes(l, caller, authority, swap_id, events, now) is Ok,
        ({
            let l2 = apply_completes(l, caller, authority, swap_id, events, now)->Ok_0;
            l2.wf() && user_at(l2.users, authority).total_swaps_value == user_at(
                l.users,
                authority,
            ).total_swaps_value + sum_amounts(events)
        }),
    decreases events.len(),
{
    let sidx = swap_index(l.swaps, authority, swap_id);
    assert(0 <= sidx < l.swaps.len() && l.swaps[sidx].account.authority == authority);
    assert(has_user(l.users, authority));
    if events.len() == 0 {
    } else {
        lemma_sum_amounts_nonneg(events.drop_first());
        let r1 = spec_complete_swap(
            l,
            caller,
            authority,
            swap_id,
            events[0].0,
            events[0].1,
            now,
        );
        assert(r1 is Ok);
        let l2 = r1->Ok_0;
        lemma_spec_complete_swap_wf(
            l,
            caller,
            authority,
            swap_id,
            events[0].0,
            events[0].1,
            now,
        );
        lemma_total_accumulates(l2, caller, authority, swap_id, events.drop_first(), now);
    }
}

} // verus!
