//! The swap lifecycle state machine: one record per registered user, one
//! record per `(owner, swap_id)` pair, and the five operations that create
//! and advance them. The host environment executes each operation atomically
//! and commits its effect only when it returns `Ok`.

use vstd::prelude::*;
use crate::admin::{admin_key, is_admin};
use crate::types::{
    LedgerError, MizumiFiat, MizumiStable, SwapAccount, SwapAccountView, SwapStage, TransactionKind,
    UserAccount, UserView,
};
use crate::vault::{move_funds, spec_transfer_plan, TransferPlan};

verus! {

/// A swap record together with the admin-supplied identifier that
/// co-addresses it.
#[derive(Clone, Debug, PartialEq)]
pub struct SwapEntry {
    pub swap_id: String,
    pub account: SwapAccount,
}

/// Mathematical model of a [`SwapEntry`].
#[verifier::ext_equal]
pub struct SwapEntryView {
    pub swap_id: Seq<char>,
    pub account: SwapAccountView,
}

impl View for SwapEntry {
    type V = SwapEntryView;

    open spec fn view(&self) -> SwapEntryView {
        SwapEntryView { swap_id: self.swap_id@, account: self.account@ }
    }
}

/// The persisted state of the whole system: every user record and every
/// swap record, each locatable by its key material alone.
pub struct Ledger {
    users: Vec<UserAccount>,
    swaps: Vec<SwapEntry>,
}

/// Mathematical model of a [`Ledger`].
#[verifier::ext_equal]
pub struct LedgerView {
    pub users: Seq<UserView>,
    pub swaps: Seq<SwapEntryView>,
}

impl View for Ledger {
    type V = LedgerView;

    closed spec fn view(&self) -> LedgerView {
        LedgerView {
            users: self.users@.map_values(|u: UserAccount| u@),
            swaps: self.swaps@.map_values(|e: SwapEntry| e@),
        }
    }
}

/// Some user record carries this identity key.
pub open spec fn has_user(users: Seq<UserView>, owner: Seq<char>) -> bool {
    exists|i: int| 0 <= i < users.len() && (#[trigger] users[i]).authority == owner
}

/// The index of the user record carrying this identity key; meaningful only
/// when `has_user` holds and indices are unique.
pub open spec fn user_index(users: Seq<UserView>, owner: Seq<char>) -> int {
    choose|i: int| 0 <= i < users.len() && (#[trigger] users[i]).authority == owner
}

/// The user record carrying this identity key.
pub open spec fn user_at(users: Seq<UserView>, owner: Seq<char>) -> UserView {
    users[user_index(users, owner)]
}

/// Some swap record carries this `(owner, swap_id)` pair.
pub open spec fn has_swap(swaps: Seq<SwapEntryView>, owner: Seq<char>, swap_id: Seq<char>) -> bool {
    exists|i: int|
        0 <= i < swaps.len() && (#[trigger] swaps[i]).account.authority == owner
            && swaps[i].swap_id == swap_id
}

/// The index of the swap record at this `(owner, swap_id)` pair; meaningful
/// only when `has_swap` holds and pairs are unique.
pub open spec fn swap_index(swaps: Seq<SwapEntryView>, owner: Seq<char>, swap_id: Seq<char>) -> int {
    choose|i: int|
        0 <= i < swaps.len() && (#[trigger] swaps[i]).account.authority == owner
            && swaps[i].swap_id == swap_id
}

/// The swap record at this `(owner, swap_id)` pair.
pub open spec fn swap_at(
    swaps: Seq<SwapEntryView>,
    owner: Seq<char>,
    swap_id: Seq<char>,
) -> SwapEntryView {
    swaps[swap_index(swaps, owner, swap_id)]
}

/// How many swap records this identity key owns.
pub open spec fn count_owned(swaps: Seq<SwapEntryView>, owner: Seq<char>) -> nat
    decreases swaps.len(),
{
    if swaps.len() == 0 {
        0
    } else {
        count_owned(swaps.drop_last(), owner) + (if swaps.last().account.authority == owner {
            1nat
        } else {
            0nat
        })
    }
}

impl LedgerView {
    /// No two user records carry the same identity key.
    pub open spec fn users_distinct(&self) -> bool {
        forall|i: int, j: int|
            0 <= i < j < self.users.len() ==> (#[trigger] self.users[i]).authority != (
            #[trigger] self.users[j]).authority
    }

    /// No two swap records carry the same `(owner, swap_id)` pair.
    pub open spec fn swaps_distinct(&self) -> bool {
        forall|i: int, j: int|
            0 <= i < j < self.swaps.len() ==> !((#[trigger] self.swaps[i]).account.authority == (
            #[trigger] self.swaps[j]).account.authority && self.swaps[i].swap_id
                == self.swaps[j].swap_id)
    }

    /// Every swap record's owner is a registered user.
    pub open spec fn swap_owners_registered(&self) -> bool {
        forall|i: int|
            0 <= i < self.swaps.len() ==> has_user(
                self.users,
                (#[trigger] self.swaps[i]).account.authority,
            )
    }

    /// Every user's `swaps_count` equals the number of swap records ever
    /// created under that owner (records are never deleted).
    pub open spec fn counts_consistent(&self) -> bool {
        forall|i: int|
            0 <= i < self.users.len() ==> (#[trigger] self.users[i]).swaps_count == count_owned(
                self.swaps,
                self.users[i].authority,
            )
    }

    /// Well-formedness of the whole ledger.
    pub open spec fn wf(&self) -> bool {
        self.users_distinct() && self.swaps_distinct() && self.swap_owners_registered()
            && self.counts_consistent()
    }
}

/// A freshly created swap record: all fields zero-initialized, owner set.
pub open spec fn new_swap_entry(owner: Seq<char>, swap_id: Seq<char>) -> SwapEntryView {
    SwapEntryView {
        swap_id,
        account: SwapAccountView {
            authority: owner,
            token: MizumiStable::USDC,
            settled: false,
            amount_in: 0,
            fiat: MizumiFiat::GHS,
            tx_kind: TransactionKind::Onramp,
            settled_amount: 0,
            created_ts: 0,
            settled_ts: 0,
            stage: SwapStage::Created,
        },
    }
}

/// Effect of `new_user`: a zero-initialized user record is created, unless
/// one already exists for this identity.
pub open spec fn spec_new_user(l: LedgerView, authority: Seq<char>) -> Result<
    LedgerView,
    LedgerError,
> {
    if has_user(l.users, authority) {
        Err(LedgerError::AlreadyExists)
    } else {
        Ok(
            LedgerView {
                users: l.users.push(
                    UserView { authority, swaps_count: 0, total_swaps_value: 0 },
                ),
                swaps: l.swaps,
            },
        )
    }
}

/// Effect of `first_swap`: admin-gated; the user's very first swap record is
/// created and the swap count becomes 1, allowed only while the count is 0.
pub open spec fn spec_first_swap(
    l: LedgerView,
    caller: Seq<char>,
    authority: Seq<char>,
    swap_id: Seq<char>,
) -> Result<LedgerView, LedgerError> {
    if caller != admin_key() {
        Err(LedgerError::Unauthorized)
    } else if !has_user(l.users, authority) {
        Err(LedgerError::PrecursorMissing)
    } else if user_at(l.users, authority).swaps_count > 0 {
        Err(LedgerError::NotFirstSwap)
    } else if has_swap(l.swaps, authority, swap_id) {
        Err(LedgerError::AlreadyExists)
    } else {
        Ok(
            LedgerView {
                users: l.users.update(
                    user_index(l.users, authority),
                    UserView {
                        authority,
                        swaps_count: 1,
                        total_swaps_value: user_at(l.users, authority).total_swaps_value,
                    },
                ),
                swaps: l.swaps.push(new_swap_entry(authority, swap_id)),
            },
        )
    }
}

/// Effect of `new_swap`: admin-gated; a further swap record is created and
/// the swap count grows by exactly 1.
pub open spec fn spec_new_swap(
    l: LedgerView,
    caller: Seq<char>,
    authority: Seq<char>,
    swap_id: Seq<char>,
) -> Result<LedgerView, LedgerError> {
    if caller != admin_key() {
        Err(LedgerError::Unauthorized)
    } else if !has_user(l.users, authority) {
        Err(LedgerError::PrecursorMissing)
    } else if has_swap(l.swaps, authority, swap_id) {
        Err(LedgerError::AlreadyExists)
    } else {
        Ok(
            LedgerView {
                users: l.users.update(
                    user_index(l.users, authority),
                    UserView {
                        authority,
                        swaps_count: ((user_at(l.users, authority).swaps_count + 1) as u64),
                        total_swaps_value: user_at(l.users, authority).total_swaps_value,
                    },
                ),
                swaps: l.swaps.push(new_swap_entry(authority, swap_id)),
            },
        )
    }
}

/// A swap record populated by `initiate_swap`: terms and creation time set,
/// settlement fields untouched.
pub open spec fn initiated_entry(
    e: SwapEntryView,
    token: MizumiStable,
    amount: u64,
    fiat: MizumiFiat,
    tx_kind: TransactionKind,
    now: i64,
) -> SwapEntryView {
    SwapEntryView {
        swap_id: e.swap_id,
        account: SwapAccountView {
            authority: e.account.authority,
            token,
            settled: false,
            amount_in: amount,
            fiat,
            tx_kind,
            settled_amount: e.account.settled_amount,
            created_ts: now,
            settled_ts: e.account.settled_ts,
            stage: SwapStage::Initiated,
        },
    }
}

/// Effect of `initiate_swap`: admin-gated; an existing, still-unpopulated
/// swap record is populated, and the custody transfer for its
/// `(asset, direction)` cell is decided.
pub open spec fn spec_initiate_swap(
    l: LedgerView,
    caller: Seq<char>,
    authority: Seq<char>,
    swap_id: Seq<char>,
    token: MizumiStable,
    amount: u64,
    fiat: MizumiFiat,
    tx_kind: TransactionKind,
    now: i64,
) -> Result<(LedgerView, TransferPlan), LedgerError> {
    if caller != admin_key() {
        Err(LedgerError::Unauthorized)
    } else if !has_swap(l.swaps, authority, swap_id) {
        Err(LedgerError::PrecursorMissing)
    } else if swap_at(l.swaps, authority, swap_id).account.stage != SwapStage::Created {
        Err(LedgerError::PrecursorMissing)
    } else {
        Ok(
            (
                LedgerView {
                    users: l.users,
                    swaps: l.swaps.update(
                        swap_index(l.swaps, authority, swap_id),
                        initiated_entry(
                            swap_at(l.swaps, authority, swap_id),
                            token,
                            amount,
                            fiat,
                            tx_kind,
                            now,
                        ),
                    ),
                },
                spec_transfer_plan(token, tx_kind, amount),
            ),
        )
    }
}

/// A swap record closed by `complete_swap`: the reported outcome and amount
/// recorded, the settlement time stamped.
pub open spec fn completed_entry(
    e: SwapEntryView,
    settled: bool,
    settled_amount: u64,
    now: i64,
) -> SwapEntryView {
    SwapEntryView {
        swap_id: e.swap_id,
        account: SwapAccountView {
            authority: e.account.authority,
            token: e.account.token,
            settled,
            amount_in: e.account.amount_in,
            fiat: e.account.fiat,
            tx_kind: e.account.tx_kind,
            settled_amount,
            created_ts: e.account.created_ts,
            settled_ts: now,
            stage: SwapStage::Completed,
        },
    }
}

/// Effect of `complete_swap`: admin-gated; an initiated (or already
/// completed) swap record takes the reported outcome, and the reported
/// amount is added to the owner's running total — on every call, whatever
/// the reported outcome, with no guard against repetition.
pub open spec fn spec_complete_swap(
    l: LedgerView,
    caller: Seq<char>,
    authority: Seq<char>,
    swap_id: Seq<char>,
    settled: bool,
    settled_amount: u64,
    now: i64,
) -> Result<LedgerView, LedgerError> {
    if caller != admin_key() {
        Err(LedgerError::Unauthorized)
    } else if !has_swap(l.swaps, authority, swap_id) {
        Err(LedgerError::PrecursorMissing)
    } else if swap_at(l.swaps, authority, swap_id).account.stage == SwapStage::Created {
        Err(LedgerError::PrecursorMissing)
    } else if !has_user(l.users, authority) {
        Err(LedgerError::PrecursorMissing)
    } else {
        Ok(
            LedgerView {
                users: l.users.update(
                    user_index(l.users, authority),
                    UserView {
                        authority,
                        swaps_count: user_at(l.users, authority).swaps_count,
                        total_swaps_value: ((user_at(l.users, authority).total_swaps_value
                            + settled_amount) as u64),
                    },
                ),
                swaps: l.swaps.update(
                    swap_index(l.swaps, authority, swap_id),
                    completed_entry(swap_at(l.swaps, authority, swap_id), settled, settled_amount, now),
                ),
            },
        )
    }
}

/// Appending a swap record grows its owner's count by one and no other.
pub(crate) proof fn lemma_count_push(swaps: Seq<SwapEntryView>, e: SwapEntryView, owner: Seq<char>)
    ensures
        count_owned(swaps.push(e), owner) == count_owned(swaps, owner) + (
        if e.account.authority == owner {
            1nat
        } else {
            0nat
        }),
{
    assert(swaps.push(e).drop_last() =~= swaps);
    assert(swaps.push(e).last() == e);
}

/// Replacing a swap record by one with the same owner changes no owner's
/// count.
pub(crate) proof fn lemma_count_update(swaps: Seq<SwapEntryView>, k: int, e: SwapEntryView, owner: Seq<char>)
    requires
        0 <= k < swaps.len(),
        e.account.authority == swaps[k].account.authority,
    ensures
        count_owned(swaps.update(k, e), owner) == count_owned(swaps, owner),
    decreases swaps.len(),
{
    let s2 = swaps.update(k, e);
    if k == swaps.len() - 1 {
        assert(s2.drop_last() =~= swaps.drop_last());
        assert(s2.last() == e);
    } else {
        assert(s2.drop_last() =~= swaps.drop_last().update(k, e));
        assert(s2.last() == swaps.last());
        lemma_count_update(swaps.drop_last(), k, e, owner);
    }
}

/// An owner's count is positive exactly when some swap record is theirs.
pub(crate) proof fn lemma_count_pos_iff(swaps: Seq<SwapEntryView>, owner: Seq<char>)
    ensures
        count_owned(swaps, owner) > 0 <==> exists|i: int|
            0 <= i < swaps.len() && (#[trigger] swaps[i]).account.authority == owner,
    decreases swaps.len(),
{
    if swaps.len() == 0 {
    } else {
        lemma_count_pos_iff(swaps.drop_last(), owner);
        if swaps.last().account.authority == owner {
            assert(swaps[swaps.len() - 1].account.authority == owner);
        } else {
            if count_owned(swaps, owner) > 0 {
                let i = choose|i: int|
                    0 <= i < swaps.drop_last().len() && (#[trigger] swaps.drop_last()[i])
                        .account.authority == owner;
                assert(swaps[i].account.authority == owner);
            }
            if exists|i: int|
                0 <= i < swaps.len() && (#[trigger] swaps[i]).account.authority == owner {
                let i = choose|i: int|
                    0 <= i < swaps.len() && (#[trigger] swaps[i]).account.authority == owner;
                assert(i < swaps.len() - 1);
                assert(swaps.drop_last()[i].account.authority == owner);
            }
        }
    }
}

/// With distinct user keys, the index of a matching record is the index
/// `user_index` denotes.
pub(crate) proof fn lemma_user_index_is(users: Seq<UserView>, owner: Seq<char>, i: int)
    requires
        forall|p: int, q: int|
            0 <= p < q < users.len() ==> (#[trigger] users[p]).authority != (
            #[trigger] users[q]).authority,
        0 <= i < users.len(),
        users[i].authority == owner,
    ensures
        has_user(users, owner),
        user_index(users, owner) == i,
        user_at(users, owner) == users[i],
{
    assert(has_user(users, owner));
    let k = user_index(users, owner);
    assert(0 <= k < users.len() && users[k].authority == owner);
    if k < i {
        assert(false);
    } else if i < k {
        assert(false);
    }
}

/// With distinct `(owner, swap_id)` pairs, the index of a matching record is
/// the index `swap_index` denotes.
pub(crate) proof fn lemma_swap_index_is(swaps: Seq<SwapEntryView>, owner: Seq<char>, swap_id: Seq<char>, i: int)
    requires
        forall|p: int, q: int|
            0 <= p < q < swaps.len() ==> !((#[trigger] swaps[p]).account.authority == (
            #[trigger] swaps[q]).account.authority && swaps[p].swap_id == swaps[q].swap_id),
        0 <= i < swaps.len(),
        swaps[i].account.authority == owner,
        swaps[i].swap_id == swap_id,
    ensures
        has_swap(swaps, owner, swap_id),
        swap_index(swaps, owner, swap_id) == i,
        swap_at(swaps, owner, swap_id) == swaps[i],
{
    assert(has_swap(swaps, owner, swap_id));
    let k = swap_index(swaps, owner, swap_id);
    assert(0 <= k < swaps.len() && swaps[k].account.authority == owner && swaps[k].swap_id
        == swap_id);
    if k < i {
        assert(false);
    } else if i < k {
        assert(false);
    }
}

/// Two user sequences with the same keys at each index register the same
/// owners.
pub(crate) proof fn lemma_has_user_same_authorities(a: Seq<UserView>, b: Seq<UserView>, owner: Seq<char>)
    requires
        a.len() == b.len(),
        forall|i: int| 0 <= i < a.len() ==> (#[trigger] a[i]).authority == b[i].authority,
    ensures
        has_user(a, owner) == has_user(b, owner),
{
    if has_user(a, owner) {
        let i = choose|i: int| 0 <= i < a.len() && (#[trigger] a[i]).authority == owner;
        assert(b[i].authority == owner);
    }
    if has_user(b, owner) {
        let i = choose|i: int| 0 <= i < b.len() && (#[trigger] b[i]).authority == owner;
        assert(a[i].authority == owner);
    }
}

impl Ledger {
    /// An empty ledger: the state right after system bootstrap, before any
    /// user has registered.
    pub fn new() -> (l: Ledger)
        ensures
            l@.wf(),
            l@.users.len() == 0,
            l@.swaps.len() == 0,
    {
        let l = Ledger { users: Vec::new(), swaps: Vec::new() };
        proof {
            assert(l@.users =~= Seq::<UserView>::empty());
            assert(l@.swaps =~= Seq::<SwapEntryView>::empty());
        }
        l
    }

    /// Register a user: create the one record this identity key will ever
    /// own, zero-initialized. Any identity may self-register, exactly once.
    pub fn new_user(&mut self, authority: &String) -> (r: Result<(), LedgerError>)
        requires
            old(self)@.wf(),
        ensures
            final(self)@.wf(),
            (match spec_new_user(old(self)@, authority@) {
                Ok(l2) => r is Ok && final(self)@ == l2,
                Err(e) => r is Err && r->Err_0 == e && final(self)@ == old(self)@,
            }),
            r is Ok <==> !has_user(old(self)@.users, authority@),
            r is Err ==> r->Err_0 == LedgerError::AlreadyExists,
            r is Ok ==> user_at(final(self)@.users, authority@) == (UserView {
                authority: authority@,
                swaps_count: 0,
                total_swaps_value: 0,
            }),
    {
        match self.find_user_index(authority) {
            Some(i) => {
                proof {
                    assert(has_user(self@.users, authority@));
                }
                Err(LedgerError::AlreadyExists)
            },
            None => {
                let u = UserAccount {
                    authority: authority.clone(),
                    swaps_count: 0,
                    total_swaps_value: 0,
                };
                self.users.push(u);
                proof {
                    let uv = UserView { authority: authority@, swaps_count: 0, total_swaps_value: 0 };
                    assert(self@.users =~= old(self)@.users.push(uv));
                    assert(self@.swaps =~= old(self)@.swaps);
                    assert(self@ =~= (LedgerView {
                        users: old(self)@.users.push(uv),
                        swaps: old(self)@.swaps,
                    }));
                    let n = old(self)@.users.len() as int;
                    assert forall|k: int| 0 <= k < self@.swaps.len() implies has_user(
                        self@.users,
                        (#[trigger] self@.swaps[k]).account.authority,
                    ) by {
                        assert(has_user(old(self)@.users, old(self)@.swaps[k].account.authority));
                        let i = choose|i: int|
                            0 <= i < old(self)@.users.len() && (#[trigger] old(self)@.users[i])
                                .authority == old(self)@.swaps[k].account.authority;
                        assert(self@.users[i].authority == self@.swaps[k].account.authority);
                    }
                    lemma_count_pos_iff(self@.swaps, authority@);
                    if count_owned(self@.swaps, authority@) > 0 {
                        let i = choose|i: int|
                            0 <= i < self@.swaps.len() && (#[trigger] self@.swaps[i])
                                .account.authority == authority@;
                        assert(has_user(old(self)@.users, authority@));
                    }
                    assert(self@.users[n] == uv);
                    lemma_user_index_is(self@.users, authority@, n);
                }
                Ok(())
            },
        }
    }

    /// Create one swap record for the user at `uidx` and grow that user's
    /// swap count by one: the shared core of both creation entry points.
    fn create_swap_record(&mut self, uidx: usize, authority: &String, swap_id: &String)
        requires
            old(self)@.wf(),
            uidx < old(self)@.users.len(),
            old(self)@.users[uidx as int].authority == authority@,
            !has_swap(old(self)@.swaps, authority@, swap_id@),
            old(self)@.users[uidx as int].swaps_count < u64::MAX,
        ensures
            final(self)@.wf(),
            final(self)@ == (LedgerView {
                users: old(self)@.users.update(
                    uidx as int,
                    UserView {
                        authority: authority@,
                        swaps_count: (old(self)@.users[uidx as int].swaps_count + 1) as u64,
                        total_swaps_value: old(self)@.users[uidx as int].total_swaps_value,
                    },
                ),
                swaps: old(self)@.swaps.push(new_swap_entry(authority@, swap_id@)),
            }),
    {
        let entry = SwapEntry {
            swap_id: swap_id.clone(),
            account: SwapAccount {
                authority: authority.clone(),
                token: MizumiStable::USDC,
                settled: false,
                amount_in: 0,
                fiat: MizumiFiat::GHS,
                tx_kind: TransactionKind::Onramp,
                settled_amount: 0,
                created_ts: 0,
                settled_ts: 0,
                stage: SwapStage::Created,
            },
        };
        self.swaps.push(entry);
        let u = &mut self.users[uidx];
        u.swaps_count = u.swaps_count + 1;
        proof {
            let ev = new_swap_entry(authority@, swap_id@);
            let uv = UserView {
                authority: authority@,
                swaps_count: (old(self)@.users[uidx as int].swaps_count + 1) as u64,
                total_swaps_value: old(self)@.users[uidx as int].total_swaps_value,
            };
            assert(self@.swaps =~= old(self)@.swaps.push(ev));
            assert(self@.users =~= old(self)@.users.update(uidx as int, uv));
            assert(self@ =~= (LedgerView {
                users: old(self)@.users.update(uidx as int, uv),
                swaps: old(self)@.swaps.push(ev),
            }));
            // user keys are unchanged index by index
            assert(forall|i: int|
                0 <= i < self@.users.len() ==> (#[trigger] self@.users[i]).authority == old(
                    self,
                )@.users[i].authority);
            // the new pair is fresh, so pairwise distinctness carries over
            assert(forall|i: int|
                0 <= i < old(self)@.swaps.len() ==> !((#[trigger] old(self)@.swaps[i])
                    .account.authority == authority@ && old(self)@.swaps[i].swap_id == swap_id@));
            // every swap owner, old or new, is still registered
            assert forall|k: int| 0 <= k < self@.swaps.len() implies has_user(
                self@.users,
                (#[trigger] self@.swaps[k]).account.authority,
            ) by {
                if k < old(self)@.swaps.len() {
                    lemma_has_user_same_authorities(
                        old(self)@.users,
                        self@.users,
                        old(self)@.swaps[k].account.authority,
                    );
                } else {
                    assert(self@.users[uidx as int].authority == authority@);
                }
            }
            // counts: the owner gains one, everyone else keeps theirs
            assert forall|j: int| 0 <= j < self@.users.len() implies (
            #[trigger] self@.users[j]).swaps_count == count_owned(
                self@.swaps,
                self@.users[j].authority,
            ) by {
                lemma_count_push(old(self)@.swaps, ev, self@.users[j].authority);
                if j != uidx as int {
                    assert(self@.users[j] == old(self)@.users[j]);
                    if j < uidx as int {
                        assert(old(self)@.users[j].authority != authority@);
                    } else {
                        assert(old(self)@.users[uidx as int].authority != old(
                            self,
                        )@.users[j].authority);
                    }
                }
            }
        }
    }

    /// Open a user's very first swap record. Admin-gated; allowed only
    /// while the user's swap count is 0, and sets it to 1.
    pub fn first_swap(&mut self, caller: &String, authority: &String, swap_id: &String) -> (r:
        Result<(), LedgerError>)
        requires
            old(self)@.wf(),
        ensures
            final(self)@.wf(),
            (match spec_first_swap(old(self)@, caller@, authority@, swap_id@) {
                Ok(l2) => r is Ok && final(self)@ == l2,
                Err(e) => r is Err && r->Err_0 == e && final(self)@ == old(self)@,
            }),
            caller@ == admin_key() && has_user(old(self)@.users, authority@) ==> (r is Ok <==> user_at(
                old(self)@.users,
                authority@,
            ).swaps_count == 0),
            r is Ok ==> user_at(final(self)@.users, authority@).swaps_count == 1,
            r is Ok ==> swap_at(final(self)@.swaps, authority@, swap_id@) == new_swap_entry(
                authority@,
                swap_id@,
            ),
    {
        if !is_admin(caller) {
            return Err(LedgerError::Unauthorized);
        }
        let uidx = match self.find_user_index(authority) {
            Some(i) => i,
            None => {
                return Err(LedgerError::PrecursorMissing);
            },
        };
        proof {
            lemma_user_index_is(self@.users, authority@, uidx as int);
        }
        if self.users[uidx].swaps_count > 0 {
            return Err(LedgerError::NotFirstSwap);
        }
        if self.find_swap_index(authority, swap_id).is_some() {
            proof {
                let i = choose|i: int|
                    0 <= i < self@.swaps.len() && (#[trigger] self@.swaps[i]).account.authority
                        == authority@ && self@.swaps[i].swap_id == swap_id@;
                assert(has_swap(self@.swaps, authority@, swap_id@));
                // a user whose count is 0 owns no swap record, so this exit
                // cannot be taken past the count check
                lemma_count_pos_iff(self@.swaps, authority@);
                assert(self@.swaps[i].account.authority == authority@);
                assert(false);
            }
            return Err(LedgerError::AlreadyExists);
        }
        self.create_swap_record(uidx, authority, swap_id);
        proof {
            lemma_user_index_is(old(self)@.users, authority@, uidx as int);
            assert(final(self)@ =~= spec_first_swap(
                old(self)@,
                caller@,
                authority@,
                swap_id@,
            )->Ok_0);
            lemma_user_index_is(final(self)@.users, authority@, uidx as int);
            let n = old(self)@.swaps.len() as int;
            assert(final(self)@.swaps[n] == new_swap_entry(authority@, swap_id@));
            lemma_swap_index_is(final(self)@.swaps, authority@, swap_id@, n);
        }
        Ok(())
    }

    /// Open a further swap record for a registered user. Admin-gated; grows
    /// the user's swap count by exactly 1.
    pub fn new_swap(&mut self, caller: &String, authority: &String, swap_id: &String) -> (r: Result<
        (),
        LedgerError,
    >)
        requires
            old(self)@.wf(),
            has_user(old(self)@.users, authority@) ==> user_at(
                old(self)@.users,
                authority@,
            ).swaps_count < u64::MAX,
        ensures
            final(self)@.wf(),
            (match spec_new_swap(old(self)@, caller@, authority@, swap_id@) {
                Ok(l2) => r is Ok && final(self)@ == l2,
                Err(e) => r is Err && r->Err_0 == e && final(self)@ == old(self)@,
            }),
            r is Ok <==> (caller@ == admin_key() && has_user(old(self)@.users, authority@)
                && !has_swap(old(self)@.swaps, authority@, swap_id@)),
            r is Ok ==> user_at(final(self)@.users, authority@).swaps_count == user_at(
                old(self)@.users,
                authority@,
            ).swaps_count + 1,
            r is Ok ==> swap_at(final(self)@.swaps, authority@, swap_id@) == new_swap_entry(
                authority@,
                swap_id@,
            ),
    {
        if !is_admin(caller) {
            return Err(LedgerError::Unauthorized);
        }
        let uidx = match self.find_user_index(authority) {
            Some(i) => i,
            None => {
                return Err(LedgerError::PrecursorMissing);
            },
        };
        proof {
            lemma_user_index_is(self@.users, authority@, uidx as int);
        }
        if self.find_swap_index(authority, swap_id).is_some() {
            proof {
                let i = choose|i: int|
                    0 <= i < self@.swaps.len() && (#[trigger] self@.swaps[i]).account.authority
                        == authority@ && self@.swaps[i].swap_id == swap_id@;
                assert(has_swap(self@.swaps, authority@, swap_id@));
            }
            return Err(LedgerError::AlreadyExists);
        }
        self.create_swap_record(uidx, authority, swap_id);
        proof {
            lemma_user_index_is(old(self)@.users, authority@, uidx as int);
            assert(final(self)@ =~= spec_new_swap(old(self)@, caller@, authority@, swap_id@)->Ok_0);
            lemma_user_index_is(final(self)@.users, authority@, uidx as int);
            let n = old(self)@.swaps.len() as int;
            assert(final(self)@.swaps[n] == new_swap_entry(authority@, swap_id@));
            lemma_swap_index_is(final(self)@.swaps, authority@, swap_id@, n);
        }
        Ok(())
    }

    /// Initiate a swap: admin-gated; populate an existing, still-empty swap
    /// record with its terms and decide the custody transfer for its
    /// `(asset, direction)` cell. The host performs the returned transfer and
    /// commits this operation's effect only if the transfer succeeds.
    pub fn initiate_swap(
        &mut self,
        caller: &String,
        authority: &String,
        swap_id: &String,
        token: MizumiStable,
        amount: u64,
        fiat: MizumiFiat,
        tx_kind: TransactionKind,
        now: i64,
    ) -> (r: Result<TransferPlan, LedgerError>)
        requires
            old(self)@.wf(),
        ensures
            final(self)@.wf(),
            (match spec_initiate_swap(
                old(self)@,
                caller@,
                authority@,
                swap_id@,
                token,
                amount,
                fiat,
                tx_kind,
                now,
            ) {
                Ok(pair) => r is Ok && r->Ok_0 == pair.1 && final(self)@ == pair.0,
                Err(e) => r is Err && r->Err_0 == e && final(self)@ == old(self)@,
            }),
            r is Ok <==> (caller@ == admin_key() && has_swap(old(self)@.swaps, authority@, swap_id@)
                && swap_at(old(self)@.swaps, authority@, swap_id@).account.stage
                == SwapStage::Created),
            r is Ok ==> r->Ok_0 == crate::vault::spec_transfer_plan(token, tx_kind, amount),
            r is Ok ==> swap_at(final(self)@.swaps, authority@, swap_id@) == initiated_entry(
                swap_at(old(self)@.swaps, authority@, swap_id@),
                token,
                amount,
                fiat,
                tx_kind,
                now,
            ),
            r is Ok ==> final(self)@.users == old(self)@.users,
    {
        if !is_admin(caller) {
            return Err(LedgerError::Unauthorized);
        }
        let sidx = match self.find_swap_index(authority, swap_id) {
            Some(i) => i,
            None => {
                return Err(LedgerError::PrecursorMissing);
            },
        };
        proof {
            lemma_swap_index_is(self@.swaps, authority@, swap_id@, sidx as int);
        }
        if !(self.swaps[sidx].account.stage == SwapStage::Created) {
            return Err(LedgerError::PrecursorMissing);
        }
        let e = &mut self.swaps[sidx];
        e.account.token = token;
        e.account.settled = false;
        e.account.amount_in = amount;
        e.account.fiat = fiat;
        e.account.tx_kind = tx_kind;
        e.account.created_ts = now;
        e.account.stage = SwapStage::Initiated;
        let plan = move_funds(token, tx_kind, amount);
        proof {
            let old_entry = old(self)@.swaps[sidx as int];
            let ev = initiated_entry(old_entry, token, amount, fiat, tx_kind, now);
            assert(self@.swaps =~= old(self)@.swaps.update(sidx as int, ev));
            assert(self@.users =~= old(self)@.users);
            assert(self@ =~= (LedgerView {
                users: old(self)@.users,
                swaps: old(self)@.swaps.update(sidx as int, ev),
            }));
            lemma_swap_index_is(old(self)@.swaps, authority@, swap_id@, sidx as int);
            // the replaced record keeps its key pair, so distinctness and
            // owner registration carry over
            assert forall|k: int| 0 <= k < self@.swaps.len() implies has_user(
                self@.users,
                (#[trigger] self@.swaps[k]).account.authority,
            ) by {
                assert(self@.swaps[k].account.authority == old(
                    self,
                )@.swaps[k].account.authority);
            }
            assert forall|j: int| 0 <= j < self@.users.len() implies (
            #[trigger] self@.users[j]).swaps_count == count_owned(
                self@.swaps,
                self@.users[j].authority,
            ) by {
                lemma_count_update(old(self)@.swaps, sidx as int, ev, self@.users[j].authority);
            }
            lemma_swap_index_is(self@.swaps, authority@, swap_id@, sidx as int);
        }
        Ok(plan)
    }

    /// Complete a swap: admin-gated; record the reported outcome and amount
    /// on an initiated (or already completed) record, stamp the settlement
    /// time, and add the reported amount to the owner's running total — on
    /// every call, whatever the reported outcome, with no guard against
    /// repetition.
    pub fn complete_swap(
        &mut self,
        caller: &String,
        authority: &String,
        swap_id: &String,
        settled: bool,
        settled_amount: u64,
        now: i64,
    ) -> (r: Result<(), LedgerError>)
        requires
            old(self)@.wf(),
            has_user(old(self)@.users, authority@) ==> user_at(
                old(self)@.users,
                authority@,
            ).total_swaps_value + settled_amount <= u64::MAX,
        ensures
            final(self)@.wf(),
            (match spec_complete_swap(
                old(self)@,
                caller@,
                authority@,
                swap_id@,
                settled,
                settled_amount,
                now,
            ) {
                Ok(l2) => r is Ok && final(self)@ == l2,
                Err(e) => r is Err && r->Err_0 == e && final(self)@ == old(self)@,
            }),
            r is Ok <==> (caller@ == admin_key() && has_swap(old(self)@.swaps, authority@, swap_id@)
                && swap_at(old(self)@.swaps, authority@, swap_id@).account.stage
                != SwapStage::Created),
            r is Ok ==> user_at(final(self)@.users, authority@).total_swaps_value == user_at(
                old(self)@.users,
                authority@,
            ).total_swaps_value + settled_amount,
            r is Ok ==> user_at(final(self)@.users, authority@).swaps_count == user_at(
                old(self)@.users,
                authority@,
            ).swaps_count,
            r is Ok ==> swap_at(final(self)@.swaps, authority@, swap_id@) == completed_entry(
                swap_at(old(self)@.swaps, authority@, swap_id@),
                settled,
                settled_amount,
                now,
            ),
    {
        if !is_admin(caller) {
            return Err(LedgerError::Unauthorized);
        }
        let sidx = match self.find_swap_index(authority, swap_id) {
            Some(i) => i,
            None => {
                return Err(LedgerError::PrecursorMissing);
            },
        };
        proof {
            lemma_swap_index_is(self@.swaps, authority@, swap_id@, sidx as int);
        }
        if self.swaps[sidx].account.stage == SwapStage::Created {
            return Err(LedgerError::PrecursorMissing);
        }
        let uidx = match self.find_user_index(authority) {
            Some(i) => i,
            None => {
                proof {
                    // a swap record's owner is always registered
                    assert(has_user(self@.users, self@.swaps[sidx as int].account.authority));
                    assert(false);
                }
                return Err(LedgerError::PrecursorMissing);
            },
        };
        proof {
            lemma_user_index_is(self@.users, authority@, uidx as int);
        }
        let e = &mut self.swaps[sidx];
        e.account.settled = settled;
        e.account.settled_amount = settled_amount;
        e.account.settled_ts = now;
        e.account.stage = SwapStage::Completed;
        let t = self.users[uidx].total_swaps_value;
        let u = &mut self.users[uidx];
        u.total_swaps_value = t + settled_amount;
        proof {
            let old_entry = old(self)@.swaps[sidx as int];
            let ev = completed_entry(old_entry, settled, settled_amount, now);
            let uv = UserView {
                authority: authority@,
                swaps_count: old(self)@.users[uidx as int].swaps_count,
                total_swaps_value: (old(self)@.users[uidx as int].total_swaps_value
                    + settled_amount) as u64,
            };
            assert(self@.swaps =~= old(self)@.swaps.update(sidx as int, ev));
            assert(self@.users =~= old(self)@.users.update(uidx as int, uv));
            assert(self@ =~= (LedgerView {
                users: old(self)@.users.update(uidx as int, uv),
                swaps: old(self)@.swaps.update(sidx as int, ev),
            }));
            lemma_swap_index_is(old(self)@.swaps, authority@, swap_id@, sidx as int);
            lemma_user_index_is(old(self)@.users, authority@, uidx as int);
            // user keys unchanged index by index; swap key pairs unchanged
            assert(forall|i: int|
                0 <= i < self@.users.len() ==> (#[trigger] self@.users[i]).authority == old(
                    self,
                )@.users[i].authority);
            assert forall|k: int| 0 <= k < self@.swaps.len() implies has_user(
                self@.users,
                (#[trigger] self@.swaps[k]).account.authority,
            ) by {
                lemma_has_user_same_authorities(
                    old(self)@.users,
                    self@.users,
                    old(self)@.swaps[k].account.authority,
                );
                assert(self@.swaps[k].account.authority == old(
                    self,
                )@.swaps[k].account.authority);
            }
            assert forall|j: int| 0 <= j < self@.users.len() implies (
            #[trigger] self@.users[j]).swaps_count == count_owned(
                self@.swaps,
                self@.users[j].authority,
            ) by {
                lemma_count_update(old(self)@.swaps, sidx as int, ev, self@.users[j].authority);
            }
            lemma_swap_index_is(self@.swaps, authority@, swap_id@, sidx as int);
            lemma_user_index_is(self@.users, authority@, uidx as int);
        }
        Ok(())
    }

    /// The user record this identity key owns, if any.
    pub fn get_user(&self, authority: &String) -> (r: Option<&UserAccount>)
        requires
            self@.wf(),
        ensures
            match r {
                Some(u) => has_user(self@.users, authority@) && u@ == user_at(
                    self@.users,
                    authority@,
                ),
                None => !has_user(self@.users, authority@),
            },
    {
        match self.find_user_index(authority) {
            Some(i) => {
                proof {
                    lemma_user_index_is(self@.users, authority@, i as int);
                }
                Some(&self.users[i])
            },
            None => None,
        }
    }

    /// The swap record at this `(owner, swap_id)` pair, if any.
    pub fn get_swap(&self, authority: &String, swap_id: &String) -> (r: Option<&SwapAccount>)
        requires
            self@.wf(),
        ensures
            match r {
                Some(s) => has_swap(self@.swaps, authority@, swap_id@) && s@ == swap_at(
                    self@.swaps,
                    authority@,
                    swap_id@,
                ).account,
                None => !has_swap(self@.swaps, authority@, swap_id@),
            },
    {
        match self.find_swap_index(authority, swap_id) {
            Some(i) => {
                proof {
                    lemma_swap_index_is(self@.swaps, authority@, swap_id@, i as int);
                }
                Some(&self.swaps[i].account)
            },
            None => None,
        }
    }

    /// Index of the user record carrying this identity key, if any.
    fn find_user_index(&self, owner: &String) -> (r: Option<usize>)
        ensures
            match r {
                Some(i) => i < self@.users.len() && self@.users[i as int].authority == owner@,
                None => !has_user(self@.users, owner@),
            },
    {
        let mut i: usize = 0;
        while i < self.users.len()
            invariant
                i <= self@.users.len(),
                self@.users.len() == self.users@.len(),
                forall|j: int| 0 <= j < i ==> (#[trigger] self@.users[j]).authority != owner@,
            decreases self.users@.len() - i,
        {
            if self.users[i].authority == *owner {
                return Some(i);
            }
            i = i + 1;
        }
        None
    }

    /// Index of the swap record carrying this `(owner, swap_id)` pair, if
    /// any.
    fn find_swap_index(&self, owner: &String, swap_id: &String) -> (r: Option<usize>)
        ensures
            match r {
                Some(i) => i < self@.swaps.len() && self@.swaps[i as int].account.authority
                    == owner@ && self@.swaps[i as int].swap_id == swap_id@,
                None => !has_swap(self@.swaps, owner@, swap_id@),
            },
    {
        let mut i: usize = 0;
        while i < self.swaps.len()
            invariant
                i <= self@.swaps.len(),
                self@.swaps.len() == self.swaps@.len(),
                forall|j: int|
                    0 <= j < i ==> !((#[trigger] self@.swaps[j]).account.authority == owner@
                        && self@.swaps[j].swap_id == swap_id@),
            decreases self.swaps@.len() - i,
        {
            if self.swaps[i].account.authority == *owner && self.swaps[i].swap_id == *swap_id {
                return Some(i);
            }
            i = i + 1;
        }
        None
    }
}

} // verus!
