//! The DAO treasury: per-asset balances held by the DAO, its parameters,
//! and the flag that records that the parameters were changed in this block.
use vstd::prelude::*;

verus! {

/// The 32-byte encoding of an asset identifier.
#[derive(Clone, Copy)]
pub struct AssetId(pub [u8; 32]);

impl View for AssetId {
    type V = Seq<u8>;

    open spec fn view(&self) -> Seq<u8> {
        self.0@
    }
}

impl AssetId {
    /// Whether two asset identifiers have the same encoding.
    pub fn same_as(&self, other: &AssetId) -> (r: bool)
        ensures
            r == (self@ == other@),
    {
        let mut i: usize = 0;
        while i < 32
            invariant
                0 <= i <= 32,
                self@.len() == 32,
                other@.len() == 32,
                forall|j: int| 0 <= j < i ==> self@[j] == other@[j],
            decreases 32 - i,
        {
            if self.0[i] != other.0[i] {
                return false;
            }
            i = i + 1;
        }
        assert(self@ =~= other@);
        true
    }

    /// Whether this asset comes before `other` in the order of asset ids.
    pub fn precedes(&self, other: &AssetId) -> (r: bool)
        ensures
            r == asset_precedes(self@, other@),
            r == (le_value(self@) < le_value(other@)),
    {
        proof {
            lemma_asset_precedes_is_numeric_order(self@, other@);
        }
        let mut i: usize = 32;
        assert(self@.take(32) =~= self@);
        assert(other@.take(32) =~= other@);
        while i > 0
            invariant
                0 <= i <= 32,
                self@.len() == 32,
                other@.len() == 32,
                asset_precedes(self@, other@) == (le_value(self@) < le_value(other@)),
                asset_precedes(self@, other@) == asset_precedes(
                    self@.take(i as int),
                    other@.take(i as int),
                ),
            decreases i,
        {
            let a = self.0[i - 1];
            let b = other.0[i - 1];
            assert(self@.take(i as int).last() == a && other@.take(i as int).last() == b);
            if a != b {
                return a < b;
            }
            assert(self@.take(i as int).drop_last() =~= self@.take(i - 1));
            assert(other@.take(i as int).drop_last() =~= other@.take(i - 1));
            i = i - 1;
        }
        false
    }
}

/// Whether the asset encoded by `a` comes before the asset encoded by `b`.
/// An asset id is a field element whose encoding is little-endian, so ids are
/// ordered by the numbers their encodings stand for: bytes are compared from
/// the last (most significant) one down.
pub open spec fn asset_precedes(a: Seq<u8>, b: Seq<u8>) -> bool
    decreases a.len(),
{
    if a.len() == 0 || b.len() == 0 {
        false
    } else if a.last() != b.last() {
        a.last() < b.last()
    } else {
        asset_precedes(a.drop_last(), b.drop_last())
    }
}

/// 256 to the power `n`.
pub open spec fn pow256(n: nat) -> nat
    decreases n,
{
    if n == 0 {
        1
    } else {
        256 * pow256((n - 1) as nat)
    }
}

/// The number a little-endian byte string stands for: the sum of
/// `s[i] * 256^i` over its bytes.
pub open spec fn le_value(s: Seq<u8>) -> nat
    decreases s.len(),
{
    if s.len() == 0 {
        0
    } else {
        le_value(s.drop_last()) + (s.last() as nat) * pow256((s.len() - 1) as nat)
    }
}

/// A little-endian number of `n` bytes is below `256^n`.
proof fn lemma_le_value_bound(s: Seq<u8>)
    ensures
        le_value(s) < pow256(s.len()),
        pow256(s.len()) > 0,
    decreases s.len(),
{
    if s.len() > 0 {
        lemma_le_value_bound(s.drop_last());
        let p = pow256((s.len() - 1) as nat);
        let l = s.last() as nat;
        let v = le_value(s.drop_last());
        assert(v + l * p < 256 * p) by (nonlinear_arith)
            requires
                v < p,
                l <= 255,
                p > 0,
        ;
    }
}

/// The order on assets is the order of the numbers their encodings stand for.
pub proof fn lemma_asset_precedes_is_numeric_order(a: Seq<u8>, b: Seq<u8>)
    requires
        a.len() == b.len(),
    ensures
        asset_precedes(a, b) <==> le_value(a) < le_value(b),
    decreases a.len(),
{
    if a.len() > 0 {
        lemma_asset_precedes_is_numeric_order(a.drop_last(), b.drop_last());
        lemma_le_value_bound(a.drop_last());
        lemma_le_value_bound(b.drop_last());
        let p = pow256((a.len() - 1) as nat);
        let la = a.last() as nat;
        let lb = b.last() as nat;
        let va = le_value(a.drop_last());
        let vb = le_value(b.drop_last());
        if la < lb {
            assert(va + la * p < vb + lb * p) by (nonlinear_arith)
                requires
                    va < p,
                    la < lb,
                    p > 0,
            ;
        } else if lb < la {
            assert(vb + lb * p < va + la * p) by (nonlinear_arith)
                requires
                    vb < p,
                    lb < la,
                    p > 0,
            ;
        }
    }
}

/// One asset comes before another exactly when, at the last (most
/// significant) byte where their encodings differ, its byte is the smaller.
pub proof fn lemma_asset_precedes_at_highest_difference(a: Seq<u8>, b: Seq<u8>)
    requires
        a.len() == b.len(),
    ensures
        asset_precedes(a, b) <==> exists|k: int|
            0 <= k < a.len() && #[trigger] a[k] < b[k] && forall|j: int|
                k < j < a.len() ==> #[trigger] a[j] == b[j],
    decreases a.len(),
{
    if a.len() > 0 {
        let n = a.len() - 1;
        lemma_asset_precedes_at_highest_difference(a.drop_last(), b.drop_last());
        if a.last() < b.last() {
            assert(a[n] < b[n]);
        } else if a.last() > b.last() {
            if exists|k: int|
                0 <= k < a.len() && #[trigger] a[k] < b[k] && forall|j: int|
                    k < j < a.len() ==> #[trigger] a[j] == b[j] {
                let k = choose|k: int|
                    0 <= k < a.len() && #[trigger] a[k] < b[k] && forall|j: int|
                        k < j < a.len() ==> #[trigger] a[j] == b[j];
                if k < n {
                    assert(a[n] == b[n]);
                }
            }
        } else {
            let da = a.drop_last();
            let db = b.drop_last();
            if asset_precedes(a, b) {
                let k = choose|k: int|
                    0 <= k < da.len() && #[trigger] da[k] < db[k] && forall|j: int|
                        k < j < da.len() ==> #[trigger] da[j] == db[j];
                assert(a[k] < b[k]);
                assert forall|j: int| k < j < a.len() implies #[trigger] a[j] == b[j] by {
                    if j < n {
                        assert(da[j] == db[j]);
                    }
                }
            }
            if exists|k: int|
                0 <= k < a.len() && #[trigger] a[k] < b[k] && forall|j: int|
                    k < j < a.len() ==> #[trigger] a[j] == b[j] {
                let k = choose|k: int|
                    0 <= k < a.len() && #[trigger] a[k] < b[k] && forall|j: int|
                        k < j < a.len() ==> #[trigger] a[j] == b[j];
                assert(k < n);
                assert(da[k] < db[k]);
                assert forall|j: int| k < j < da.len() implies #[trigger] da[j] == db[j] by {
                    assert(a[j] == b[j]);
                }
            }
        }
    }
}

/// No asset comes before itself.
pub proof fn lemma_asset_precedes_irreflexive(a: Seq<u8>)
    ensures
        !asset_precedes(a, a),
    decreases a.len(),
{
    if a.len() > 0 {
        lemma_asset_precedes_irreflexive(a.drop_last());
    }
}

/// The order on assets is transitive.
pub proof fn lemma_asset_precedes_transitive(a: Seq<u8>, b: Seq<u8>, c: Seq<u8>)
    requires
        a.len() == b.len(),
        b.len() == c.len(),
        asset_precedes(a, b),
        asset_precedes(b, c),
    ensures
        asset_precedes(a, c),
    decreases a.len(),
{
    if a.last() == b.last() && b.last() == c.last() {
        lemma_asset_precedes_transitive(a.drop_last(), b.drop_last(), c.drop_last());
    }
}

/// Of two different assets, one comes before the other.
pub proof fn lemma_asset_precedes_total(a: Seq<u8>, b: Seq<u8>)
    requires
        a.len() == b.len(),
        a != b,
    ensures
        asset_precedes(a, b) || asset_precedes(b, a),
    decreases a.len(),
{
    if a.len() == 0 {
        assert(a =~= b);
    } else if a.last() == b.last() {
        assert(a =~= a.drop_last().push(a.last()));
        assert(b =~= b.drop_last().push(b.last()));
        lemma_asset_precedes_total(a.drop_last(), b.drop_last());
    }
}

/// An amount of some asset.
#[derive(Clone, Copy)]
pub struct Value {
    pub amount: u128,
    pub asset_id: AssetId,
}

/// Why a DAO operation was refused.
pub enum DaoError {
    /// No DAO parameters have been stored.
    MissingDaoParameters,
    /// The DAO holds less of the asset than the withdrawal asks for.
    InsufficientBalance { amount: u128, asset_id: AssetId },
}

/// The balance recorded for an asset: the stored amount, or zero when nothing is stored.
pub open spec fn balance_of(balances: Map<Seq<u8>, u128>, asset: Seq<u8>) -> int {
    if balances.contains_key(asset) {
        balances[asset] as int
    } else {
        0
    }
}

/// The balances after a deposit: the asset's entry is written with the old balance plus the amount.
pub open spec fn deposit_balances(balances: Map<Seq<u8>, u128>, value: Value) -> Map<
    Seq<u8>,
    u128,
> {
    balances.insert(
        value.asset_id@,
        (balance_of(balances, value.asset_id@) + value.amount) as u128,
    )
}

/// The balances after a withdrawal, or `None` when the balance does not cover it.
/// An entry whose balance drops to zero is removed.
pub open spec fn withdraw_balances(balances: Map<Seq<u8>, u128>, value: Value) -> Option<
    Map<Seq<u8>, u128>,
> {
    let current = balance_of(balances, value.asset_id@);
    if current < value.amount {
        None
    } else if current - value.amount > 0 {
        Some(balances.insert(value.asset_id@, (current - value.amount) as u128))
    } else {
        Some(balances.remove(value.asset_id@))
    }
}

/// The state after the DAO parameters are written: the parameters are replaced
/// and the change is recorded; balances stay.
pub open spec fn put_params<P>(s: DaoStateView<P>, params: P) -> DaoStateView<P> {
    DaoStateView { balances: s.balances, params: Some(params), params_updated: true }
}

/// Reading the parameters after writing them gives back what was written, and
/// the change is recorded.
pub proof fn lemma_params_read_after_write<P>(s: DaoStateView<P>, params: P)
    ensures
        put_params(s, params).params == Some(params),
        put_params(s, params).params_updated,
        put_params(s, params).balances == s.balances,
{
}

/// A deposit raises the asset's balance by the amount and leaves every other
/// asset's balance as it was.
pub proof fn lemma_deposit_balance(balances: Map<Seq<u8>, u128>, value: Value)
    requires
        balance_of(balances, value.asset_id@) + value.amount <= u128::MAX,
    ensures
        balance_of(deposit_balances(balances, value), value.asset_id@) == balance_of(
            balances,
            value.asset_id@,
        ) + value.amount,
        forall|k: Seq<u8>|
            k != value.asset_id@ ==> #[trigger] balance_of(deposit_balances(balances, value), k)
                == balance_of(balances, k),
{
}

/// A withdrawal is refused exactly when the balance is smaller than the amount;
/// otherwise it lowers the asset's balance by the amount, removes the asset's
/// entry when nothing is left, and leaves every other asset's balance as it was.
pub proof fn lemma_withdraw_balance(balances: Map<Seq<u8>, u128>, value: Value)
    ensures
        withdraw_balances(balances, value) is None <==> balance_of(balances, value.asset_id@)
            < value.amount,
        withdraw_balances(balances, value) matches Some(after) ==> {
            &&& balance_of(after, value.asset_id@) == balance_of(balances, value.asset_id@)
                - value.amount
            &&& (balance_of(after, value.asset_id@) == 0 <==> !after.contains_key(
                value.asset_id@,
            ))
            &&& forall|k: Seq<u8>|
                k != value.asset_id@ ==> #[trigger] balance_of(after, k) == balance_of(
                    balances,
                    k,
                )
        },
{
}

/// Withdrawing the value just deposited succeeds and leaves every asset's
/// balance as it was before the deposit.
pub proof fn lemma_withdraw_undoes_deposit(balances: Map<Seq<u8>, u128>, value: Value)
    requires
        balance_of(balances, value.asset_id@) + value.amount <= u128::MAX,
    ensures
        withdraw_balances(deposit_balances(balances, value), value) matches Some(after)
            && forall|k: Seq<u8>| #[trigger] balance_of(after, k) == balance_of(balances, k),
{
    lemma_deposit_balance(balances, value);
    lemma_withdraw_balance(deposit_balances(balances, value), value);
}

/// Depositing back a value just withdrawn is within range and leaves every
/// asset's balance as it was before the withdrawal.
pub proof fn lemma_deposit_undoes_withdraw(balances: Map<Seq<u8>, u128>, value: Value)
    requires
        withdraw_balances(balances, value) is Some,
    ensures
        withdraw_balances(balances, value) matches Some(after) && {
            &&& balance_of(after, value.asset_id@) + value.amount <= u128::MAX
            &&& forall|k: Seq<u8>| #[trigger]
                balance_of(deposit_balances(after, value), k) == balance_of(balances, k)
        },
{
    lemma_withdraw_balance(balances, value);
    let after = withdraw_balances(balances, value)->Some_0;
    lemma_deposit_balance(after, value);
}

/// The state at the end of a block: the record of a parameter change is
/// forgotten; balances and parameters stay.
pub open spec fn end_block_view<P>(s: DaoStateView<P>) -> DaoStateView<P> {
    DaoStateView { balances: s.balances, params: s.params, params_updated: false }
}

/// The record of a parameter change lasts until the end of its block: after
/// the end of a block no change is recorded until the parameters are written
/// again, and the parameters themselves stay.
pub proof fn lemma_params_updated_is_per_block<P>(s: DaoStateView<P>, params: P)
    ensures
        !end_block_view(s).params_updated,
        end_block_view(s).params == s.params,
        end_block_view(s).balances == s.balances,
        end_block_view(put_params(s, params)).params == Some(params),
        !end_block_view(put_params(s, params)).params_updated,
        put_params(end_block_view(s), params).params_updated,
{
}

/// What the DAO's part of the chain state holds.
pub struct DaoStateView<P> {
    /// The stored balance of each asset, keyed by the asset's encoding.
    pub balances: Map<Seq<u8>, u128>,
    /// The stored DAO parameters, if any.
    pub params: Option<P>,
    /// Whether the parameters were written in this block.
    pub params_updated: bool,
}


/// The balance entries are in strictly increasing asset order, and they are
/// exactly the balance map.
spec fn entries_match(s: Seq<(AssetId, u128)>, m: Map<Seq<u8>, u128>) -> bool {
    &&& forall|i: int, j: int|
        0 <= i < j < s.len() ==> asset_precedes((#[trigger] s[i]).0@, (#[trigger] s[j]).0@)
    &&& forall|i: int|
        0 <= i < s.len() ==> #[trigger] m.contains_key(s[i].0@) && m[s[i].0@] == s[i].1
    &&& forall|k: Seq<u8>| #[trigger]
        m.contains_key(k) ==> exists|i: int| 0 <= i < s.len() && s[i].0@ == k
}

/// Entries in strictly increasing order hold each asset once.
proof fn lemma_entries_distinct(s: Seq<(AssetId, u128)>, m: Map<Seq<u8>, u128>, i: int, j: int)
    requires
        entries_match(s, m),
        0 <= i < s.len(),
        0 <= j < s.len(),
        i != j,
    ensures
        s[i].0@ != s[j].0@,
{
    lemma_asset_precedes_irreflexive(s[i].0@);
    if i < j {
        assert(asset_precedes(s[i].0@, s[j].0@));
    } else {
        assert(asset_precedes(s[j].0@, s[i].0@));
    }
}

/// Where an asset stands among the entries: the position of its entry, or the
/// position where its entry would go, and whether it has one.
fn locate(entries: &Vec<(AssetId, u128)>, Ghost(m): Ghost<Map<Seq<u8>, u128>>, asset_id: &AssetId) -> (r: (
    usize,
    bool,
))
    requires
        entries_match(entries@, m),
    ensures
        r.0 <= entries@.len(),
        forall|j: int| 0 <= j < r.0 ==> asset_precedes((#[trigger] entries@[j]).0@, asset_id@),
        r.1 ==> r.0 < entries@.len() && entries@[r.0 as int].0@ == asset_id@ && m.contains_key(
            asset_id@,
        ) && m[asset_id@] == entries@[r.0 as int].1,
        !r.1 ==> !m.contains_key(asset_id@) && (r.0 < entries@.len() ==> asset_precedes(
            asset_id@,
            entries@[r.0 as int].0@,
        )),
{
    let ghost s = entries@;
    let mut i: usize = 0;
    while i < entries.len() && entries[i].0.precedes(asset_id)
        invariant
            s == entries@,
            entries_match(s, m),
            0 <= i <= s.len(),
            forall|j: int| 0 <= j < i ==> asset_precedes((#[trigger] s[j]).0@, asset_id@),
        decreases s.len() - i,
    {
        i = i + 1;
    }
    let found = i < entries.len() && entries[i].0.same_as(asset_id);
    proof {
        if found {
            assert(m.contains_key(s[i as int].0@));
        } else {
            if i < s.len() {
                lemma_asset_precedes_total(asset_id@, s[i as int].0@);
            }
            if m.contains_key(asset_id@) {
                let j = choose|j: int| 0 <= j < s.len() && s[j].0@ == asset_id@;
                lemma_asset_precedes_irreflexive(asset_id@);
                if j < i {
                    assert(asset_precedes(s[j].0@, asset_id@));
                } else if j > i {
                    assert(asset_precedes(s[i as int].0@, s[j].0@));
                    lemma_asset_precedes_transitive(asset_id@, s[i as int].0@, s[j].0@);
                }
            }
        }
    }
    (i, found)
}

/// Stores an amount for an asset, in place of any amount stored before,
/// keeping the entries in order.
fn write_entry(
    entries: &mut Vec<(AssetId, u128)>,
    Ghost(m): Ghost<Map<Seq<u8>, u128>>,
    asset_id: AssetId,
    amount: u128,
)
    requires
        entries_match(old(entries)@, m),
    ensures
        entries_match(final(entries)@, m.insert(asset_id@, amount)),
{
    let ghost old_s = entries@;
    let ghost m2 = m.insert(asset_id@, amount);
    let (i, found) = locate(entries, Ghost(m), &asset_id);
    if found {
        entries.set(i, (asset_id, amount));
        proof {
            let s = entries@;
            assert forall|j: int| 0 <= j < s.len() implies #[trigger] s[j].0@ == old_s[j].0@ by {}
            assert forall|a: int, b: int| 0 <= a < b < s.len() implies asset_precedes(
                (#[trigger] s[a]).0@,
                (#[trigger] s[b]).0@,
            ) by {
                assert(asset_precedes(old_s[a].0@, old_s[b].0@));
            }
            assert forall|j: int| 0 <= j < s.len() implies #[trigger] m2.contains_key(s[j].0@)
                && m2[s[j].0@] == s[j].1 by {
                if j != i {
                    lemma_entries_distinct(old_s, m, j, i as int);
                    assert(m.contains_key(old_s[j].0@));
                }
            }
            assert forall|k: Seq<u8>| #[trigger] m2.contains_key(k) implies exists|j: int|
                0 <= j < s.len() && s[j].0@ == k by {
                if k == asset_id@ {
                    assert(s[i as int].0@ == k);
                } else {
                    let j = choose|j: int| 0 <= j < old_s.len() && old_s[j].0@ == k;
                    assert(s[j].0@ == k);
                }
            }
        }
    } else {
        entries.insert(i, (asset_id, amount));
        proof {
            let s = entries@;
            assert forall|j: int| 0 <= j < s.len() implies #[trigger] s[j] == (if j < i {
                old_s[j]
            } else if j == i {
                (asset_id, amount)
            } else {
                old_s[j - 1]
            }) by {}
            assert forall|a: int, b: int| 0 <= a < b < s.len() implies asset_precedes(
                (#[trigger] s[a]).0@,
                (#[trigger] s[b]).0@,
            ) by {
                if b < i {
                    assert(asset_precedes(old_s[a].0@, old_s[b].0@));
                } else if b == i {
                    assert(asset_precedes(old_s[a].0@, asset_id@));
                } else if a < i {
                    assert(asset_precedes(old_s[a].0@, old_s[b - 1].0@));
                } else if a == i {
                    if b - 1 > i {
                        assert(asset_precedes(old_s[i as int].0@, old_s[b - 1].0@));
                        lemma_asset_precedes_transitive(
                            asset_id@,
                            old_s[i as int].0@,
                            old_s[b - 1].0@,
                        );
                    }
                } else {
                    assert(asset_precedes(old_s[a - 1].0@, old_s[b - 1].0@));
                }
            }
            assert forall|j: int| 0 <= j < s.len() implies #[trigger] m2.contains_key(s[j].0@)
                && m2[s[j].0@] == s[j].1 by {
                if j < i {
                    assert(m.contains_key(old_s[j].0@));
                } else if j > i {
                    assert(m.contains_key(old_s[j - 1].0@));
                }
            }
            assert forall|k: Seq<u8>| #[trigger] m2.contains_key(k) implies exists|j: int|
                0 <= j < s.len() && s[j].0@ == k by {
                if k == asset_id@ {
                    assert(s[i as int].0@ == k);
                } else {
                    let j = choose|j: int| 0 <= j < old_s.len() && old_s[j].0@ == k;
                    if j < i {
                        assert(s[j].0@ == k);
                    } else {
                        assert(s[j + 1].0@ == k);
                    }
                }
            }
        }
    }
}

/// Removes the entry of an asset, if there is one, keeping the entries in order.
fn delete_entry(
    entries: &mut Vec<(AssetId, u128)>,
    Ghost(m): Ghost<Map<Seq<u8>, u128>>,
    asset_id: AssetId,
)
    requires
        entries_match(old(entries)@, m),
    ensures
        entries_match(final(entries)@, m.remove(asset_id@)),
{
    let ghost old_s = entries@;
    let ghost m2 = m.remove(asset_id@);
    let (i, found) = locate(entries, Ghost(m), &asset_id);
    if found {
        let _ = entries.remove(i);
        proof {
            let s = entries@;
            assert forall|j: int| 0 <= j < s.len() implies #[trigger] s[j] == (if j < i {
                old_s[j]
            } else {
                old_s[j + 1]
            }) by {}
            assert forall|a: int, b: int| 0 <= a < b < s.len() implies asset_precedes(
                (#[trigger] s[a]).0@,
                (#[trigger] s[b]).0@,
            ) by {
                let oa = if a < i { a } else { a + 1 };
                let ob = if b < i { b } else { b + 1 };
                assert(asset_precedes(old_s[oa].0@, old_s[ob].0@));
            }
            assert forall|j: int| 0 <= j < s.len() implies #[trigger] m2.contains_key(s[j].0@)
                && m2[s[j].0@] == s[j].1 by {
                let oj = if j < i { j } else { j + 1 };
                lemma_entries_distinct(old_s, m, oj, i as int);
                assert(m.contains_key(old_s[oj].0@));
            }
            assert forall|k: Seq<u8>| #[trigger] m2.contains_key(k) implies exists|j: int|
                0 <= j < s.len() && s[j].0@ == k by {
                let j = choose|j: int| 0 <= j < old_s.len() && old_s[j].0@ == k;
                if j < i {
                    assert(s[j].0@ == k);
                } else {
                    assert(s[j - 1].0@ == k);
                }
            }
        }
    } else {
        assert(m2 =~= m);
    }
}

/// The DAO's part of the chain state: balances per asset, parameters, and the
/// per-block flag that records a parameter change.
pub struct DaoState<P> {
    /// One entry per asset with a stored balance, in increasing asset order.
    balances: Vec<(AssetId, u128)>,
    params: Option<P>,
    params_updated: bool,
    model: Ghost<Map<Seq<u8>, u128>>,
}

impl<P> View for DaoState<P> {
    type V = DaoStateView<P>;

    closed spec fn view(&self) -> DaoStateView<P> {
        DaoStateView {
            balances: self.model@,
            params: self.params,
            params_updated: self.params_updated,
        }
    }
}

impl<P> DaoState<P> {
    /// The entries are in increasing asset order and are exactly the balances.
    #[verifier::type_invariant]
    spec fn entries_are_balances(&self) -> bool {
        entries_match(self.balances@, self.model@)
    }

    /// An empty DAO: no balances, no parameters, nothing changed in this block.
    pub fn new() -> (r: Self)
        ensures
            r@.balances == Map::<Seq<u8>, u128>::empty(),
            r@.params is None,
            !r@.params_updated,
    {
        DaoState {
            balances: Vec::new(),
            params: None,
            params_updated: false,
            model: Ghost(Map::empty()),
        }
    }

    /// Whether the DAO parameters were written in this block.
    pub fn dao_params_updated(&self) -> (r: bool)
        ensures
            r == self@.params_updated,
    {
        self.params_updated
    }

    /// The stored DAO parameters; an error when none are stored.
    pub fn get_dao_params(&self) -> (r: Result<&P, DaoError>)
        ensures
            match self@.params {
                Some(p) => r == Ok::<&P, DaoError>(&p),
                None => r matches Err(DaoError::MissingDaoParameters),
            },
    {
        match &self.params {
            Some(p) => Ok(p),
            None => Err(DaoError::MissingDaoParameters),
        }
    }

    /// The DAO's balance of one asset: the stored amount, zero when none is stored.
    pub fn dao_asset_balance(&self, asset_id: AssetId) -> (r: u128)
        ensures
            r == balance_of(self@.balances, asset_id@),
    {
        proof {
            use_type_invariant(self);
        }
        let (i, found) = locate(&self.balances, Ghost(self.model@), &asset_id);
        if found {
            self.balances[i].1
        } else {
            0
        }
    }

    /// Every stored balance, in increasing order of asset id, each asset once.
    pub fn dao_balance(&self) -> (r: Vec<(AssetId, u128)>)
        ensures
            forall|i: int, j: int|
                0 <= i < j < r@.len() ==> asset_precedes((#[trigger] r@[i]).0@, (#[trigger] r@[j]).0@),
            forall|i: int, j: int|
                0 <= i < j < r@.len() ==> le_value((#[trigger] r@[i]).0@) < le_value((#[trigger] r@[j]).0@),
            forall|i: int, j: int| 0 <= i < j < r@.len() ==> (#[trigger] r@[i]).0@ != (#[trigger] r@[j]).0@,
            forall|i: int|
                0 <= i < r@.len() ==> #[trigger] self@.balances.contains_key(r@[i].0@)
                    && self@.balances[r@[i].0@] == r@[i].1,
            forall|k: Seq<u8>|
                #[trigger] self@.balances.contains_key(k) ==> exists|i: int|
                    0 <= i < r@.len() && r@[i].0@ == k,
    {
        proof {
            use_type_invariant(self);
        }
        let mut r: Vec<(AssetId, u128)> = Vec::new();
        let mut i: usize = 0;
        while i < self.balances.len()
            invariant
                0 <= i <= self.balances@.len(),
                r@ == self.balances@.subrange(0, i as int),
            decreases self.balances@.len() - i,
        {
            let entry = self.balances[i];
            r.push(entry);
            i = i + 1;
            assert(r@ =~= self.balances@.subrange(0, i as int));
        }
        assert(r@ =~= self.balances@);
        proof {
            assert forall|a: int, b: int| 0 <= a < b < r@.len() implies (#[trigger] r@[a]).0@
                != (#[trigger] r@[b]).0@ by {
                lemma_entries_distinct(self.balances@, self.model@, a, b);
            }
            assert forall|a: int, b: int| 0 <= a < b < r@.len() implies le_value(
                (#[trigger] r@[a]).0@,
            ) < le_value((#[trigger] r@[b]).0@) by {
                lemma_asset_precedes_is_numeric_order(r@[a].0@, r@[b].0@);
            }
        }
        r
    }

    /// Writes the DAO parameters and records that they changed in this block.
    pub fn put_dao_params(&mut self, params: P)
        ensures
            final(self)@ == put_params(old(self)@, params),
    {
        proof {
            use_type_invariant(&*self);
        }
        self.params_updated = true;
        self.params = Some(params);
    }

    /// The block ends: what was recorded for this block alone, the record of a
    /// parameter change, is forgotten; balances and parameters stay.
    pub fn end_block(&mut self)
        ensures
            final(self)@ == end_block_view(old(self)@),
    {
        proof {
            use_type_invariant(&*self);
        }
        self.params_updated = false;
    }

    /// Adds an amount to the DAO's balance of its asset.
    pub fn dao_deposit(&mut self, value: Value) -> (r: Result<(), DaoError>)
        requires
            balance_of(old(self)@.balances, value.asset_id@) + value.amount <= u128::MAX,
        ensures
            r is Ok,
            final(self)@.balances == deposit_balances(old(self)@.balances, value),
            final(self)@.params == old(self)@.params,
            final(self)@.params_updated == old(self)@.params_updated,
    {
        let current = self.dao_asset_balance(value.asset_id);
        self.write_balance(value.asset_id, current + value.amount);
        Ok(())
    }

    /// Takes an amount out of the DAO's balance of its asset; refused, with the
    /// state unchanged, when the balance is smaller than the amount. A balance
    /// that drops to zero is removed.
    pub fn dao_withdraw(&mut self, value: Value) -> (r: Result<(), DaoError>)
        ensures
            final(self)@.params == old(self)@.params,
            final(self)@.params_updated == old(self)@.params_updated,
            match withdraw_balances(old(self)@.balances, value) {
                Some(balances) => r is Ok && final(self)@.balances == balances,
                None => r matches Err(DaoError::InsufficientBalance { amount, asset_id })
                    && amount == value.amount && asset_id == value.asset_id
                    && final(self)@.balances == old(self)@.balances,
            },
    {
        let current = self.dao_asset_balance(value.asset_id);
        match current.checked_sub(value.amount) {
            Some(remaining) => {
                if remaining > 0 {
                    self.write_balance(value.asset_id, remaining);
                } else {
                    self.delete_balance(value.asset_id);
                }
                Ok(())
            },
            None => Err(DaoError::InsufficientBalance { amount: value.amount, asset_id: value.asset_id }),
        }
    }

    /// Stores an amount for an asset, in place of any amount stored before.
    fn write_balance(&mut self, asset_id: AssetId, amount: u128)
        ensures
            final(self)@.balances == old(self)@.balances.insert(asset_id@, amount),
            final(self)@.params == old(self)@.params,
            final(self)@.params_updated == old(self)@.params_updated,
    {
        let mut state = DaoState::new();
        std::mem::swap(self, &mut state);
        proof {
            use_type_invariant(&state);
        }
        let DaoState { mut balances, params, params_updated, model } = state;
        write_entry(&mut balances, model, asset_id, amount);
        *self = DaoState {
            balances,
            params,
            params_updated,
            model: Ghost(model@.insert(asset_id@, amount)),
        };
    }

    /// Removes the entry of an asset, if there is one.
    fn delete_balance(&mut self, asset_id: AssetId)
        ensures
            final(self)@.balances == old(self)@.balances.remove(asset_id@),
            final(self)@.params == old(self)@.params,
            final(self)@.params_updated == old(self)@.params_updated,
    {
        let mut state = DaoState::new();
        std::mem::swap(self, &mut state);
        proof {
            use_type_invariant(&state);
        }
        let DaoState { mut balances, params, params_updated, model } = state;
        delete_entry(&mut balances, model, asset_id);
        *self = DaoState {
            balances,
            params,
            params_updated,
            model: Ghost(model@.remove(asset_id@)),
        };
    }
}

} // verus!
