use itertools::Itertools;
use vstd::prelude::*;

verus! {

/// Where a validator stands in the staking state machine.
#[derive(Clone, Copy, Debug, PartialEq, Eq, Structural)]
pub enum ValidatorState {
    Inactive,
    Active,
    Unbonding { unbonding_epoch: u64 },
    Slashed,
}

/// The externally visible view of a validator.
#[derive(Clone, Copy, Debug, PartialEq, Eq, Structural)]
pub struct ValidatorStatus {
    pub identity_key: u64,
    pub voting_power: u64,
    pub state: ValidatorState,
}

/// `a` ranks above `b`: more voting power, or as much and a smaller identity key.
pub open spec fn ranks_above(a: ValidatorStatus, b: ValidatorStatus) -> bool {
    a.voting_power > b.voting_power || (a.voting_power == b.voting_power && a.identity_key
        < b.identity_key)
}

/// How many of the first `n` statuses of `s` rank above `v`.
pub open spec fn count_above(s: Seq<ValidatorStatus>, n: int, v: ValidatorStatus) -> nat
    decreases n,
{
    if n <= 0 {
        0
    } else {
        count_above(s, n - 1, v) + if ranks_above(s[n - 1], v) {
            1nat
        } else {
            0nat
        }
    }
}

/// `s[i]` is among the `limit` highest-ranked statuses of `s`.
pub open spec fn in_top(s: Seq<ValidatorStatus>, limit: u64, i: int) -> bool {
    count_above(s, s.len() as int, s[i]) < limit
}

/// Identity keys of `s` are pairwise distinct.
pub open spec fn distinct_keys(s: Seq<ValidatorStatus>) -> bool {
    forall|i: int, j: int|
        0 <= i < s.len() && 0 <= j < s.len() && i != j ==> #[trigger] s[i].identity_key
            != #[trigger] s[j].identity_key
}

/// The state after an epoch boundary of a validator in state `st`, given whether it ranks
/// in the top of the set and the epoch at which a displaced validator finishes unbonding.
pub open spec fn next_state_spec(st: ValidatorState, top: bool, current_epoch: u64, unbond_at: u64) -> ValidatorState {
    let promoted = match st {
        ValidatorState::Inactive => if top {
            ValidatorState::Active
        } else {
            st
        },
        ValidatorState::Unbonding { .. } => if top {
            ValidatorState::Active
        } else {
            st
        },
        ValidatorState::Active => if top {
            st
        } else {
            ValidatorState::Unbonding { unbonding_epoch: unbond_at }
        },
        ValidatorState::Slashed => st,
    };
    match promoted {
        ValidatorState::Unbonding { unbonding_epoch } => if unbonding_epoch <= current_epoch {
            ValidatorState::Inactive
        } else {
            promoted
        },
        _ => promoted,
    }
}

/// The statuses `s` after the rotation of an epoch boundary.
pub open spec fn rotate_spec(s: Seq<ValidatorStatus>, limit: u64, current_epoch: u64, unbond_at: u64) -> Seq<ValidatorStatus> {
    Seq::new(
        s.len(),
        |i: int|
            ValidatorStatus {
                state: next_state_spec(s[i].state, in_top(s, limit, i), current_epoch, unbond_at),
                ..s[i]
            },
    )
}

/// Computes the state after an epoch boundary of one validator.
pub fn next_state(st: ValidatorState, top: bool, current_epoch: u64, unbond_at: u64) -> (r: ValidatorState)
    ensures
        r == next_state_spec(st, top, current_epoch, unbond_at),
{
    let promoted = match st {
        ValidatorState::Inactive | ValidatorState::Unbonding { .. } => if top {
            ValidatorState::Active
        } else {
            st
        },
        ValidatorState::Active => if top {
            st
        } else {
            ValidatorState::Unbonding { unbonding_epoch: unbond_at }
        },
        ValidatorState::Slashed => st,
    };
    match promoted {
        ValidatorState::Unbonding { unbonding_epoch } => if unbonding_epoch <= current_epoch {
            ValidatorState::Inactive
        } else {
            promoted
        },
        _ => promoted,
    }
}

/// The sort key that orders statuses by rank: voting power descending, then identity key
/// ascending.
pub open spec fn rank_key(v: ValidatorStatus) -> (u64, u64) {
    ((u64::MAX - v.voting_power) as u64, v.identity_key)
}

/// Lexicographic `<` on pairs, as std orders tuples.
pub open spec fn pair_lt(a: (u64, u64), b: (u64, u64)) -> bool {
    a.0 < b.0 || (a.0 == b.0 && a.1 < b.1)
}

/// Lexicographic `<=` on pairs, as std orders tuples.
pub open spec fn pair_le(a: (u64, u64), b: (u64, u64)) -> bool {
    pair_lt(a, b) || a == b
}

/// How many pairs of `s` are below `e`.
pub open spec fn count_lt(s: Seq<(u64, u64)>, e: (u64, u64)) -> nat
    decreases s.len(),
{
    if s.len() == 0 {
        0
    } else {
        count_lt(s.drop_last(), e) + if pair_lt(s.last(), e) {
            1nat
        } else {
            0nat
        }
    }
}

/// Relies on `itertools::Itertools::sorted`, which collects the items into a `Vec` and
/// sorts it with std's `sort`: the items come out in ascending order of the tuple order, as
/// a permutation of the input.
#[verifier::external_body]
fn sorted_pairs(v: Vec<(u64, u64)>) -> (r: Vec<(u64, u64)>)
    ensures
        r@.to_multiset() == v@.to_multiset(),
        forall|i: int, j: int| 0 <= i < j < r@.len() ==> pair_le(#[trigger] r@[i], #[trigger] r@[j]),
{
    v.into_iter().sorted().collect()
}

/// Whether one of the first `limit` pairs of `r` carries `key`.
fn top_contains(r: &Vec<(u64, u64)>, limit: u64, key: u64) -> (b: bool)
    ensures
        b <==> exists|q: int| 0 <= q < r@.len() && q < limit && (#[trigger] r@[q]).1 == key,
{
    let mut q: usize = 0;
    while q < r.len() && (q as u64) < limit
        invariant
            q <= r.len(),
            q <= limit,
            forall|k: int| 0 <= k < q ==> (#[trigger] r@[k]).1 != key,
        decreases r.len() - q,
    {
        if r[q].1 == key {
            return true;
        }
        q = q + 1;
    }
    false
}

/// Applies the rotation of an epoch boundary to `statuses`: each validator among the
/// `limit` highest-ranked becomes active, a displaced active one starts unbonding until
/// `unbond_at`, and one whose unbonding ends by `current_epoch` becomes inactive.
pub fn rotate(statuses: &Vec<ValidatorStatus>, limit: u64, current_epoch: u64, unbond_at: u64) -> (r: Vec<ValidatorStatus>)
    requires
        distinct_keys(statuses@),
    ensures
        r@ == rotate_spec(statuses@, limit, current_epoch, unbond_at),
{
    let ghost keys = statuses@.map_values(|v: ValidatorStatus| rank_key(v));
    let mut t: Vec<(u64, u64)> = Vec::new();
    let mut k: usize = 0;
    while k < statuses.len()
        invariant
            k <= statuses.len(),
            keys == statuses@.map_values(|v: ValidatorStatus| rank_key(v)),
            t@ == keys.take(k as int),
        decreases statuses.len() - k,
    {
        t.push((u64::MAX - statuses[k].voting_power, statuses[k].identity_key));
        assert(keys.take(k + 1) == keys.take(k as int).push(keys[k as int]));
        k = k + 1;
    }
    assert(keys.take(k as int) == keys);
    let ranked = sorted_pairs(t);
    proof { lemma_ranked_distinct(statuses@, keys, ranked@); }
    let mut out: Vec<ValidatorStatus> = Vec::new();
    let mut i: usize = 0;
    while i < statuses.len()
        invariant
            i <= statuses.len(),
            distinct_keys(statuses@),
            keys == statuses@.map_values(|v: ValidatorStatus| rank_key(v)),
            ranked@.to_multiset() == keys.to_multiset(),
            ranked@.no_duplicates(),
            forall|a: int, b: int| 0 <= a < b < ranked@.len() ==> pair_le(#[trigger] ranked@[a], #[trigger] ranked@[b]),
            out@ == rotate_spec(statuses@, limit, current_epoch, unbond_at).take(i as int),
        decreases statuses.len() - i,
    {
        let v = statuses[i];
        let top = top_contains(&ranked, limit, v.identity_key);
        proof { lemma_top_iff_in_top(statuses@, keys, ranked@, limit, i as int); }
        let st = next_state(v.state, top, current_epoch, unbond_at);
        out.push(ValidatorStatus { state: st, ..v });
        i = i + 1;
    }
    assert(out@ == rotate_spec(statuses@, limit, current_epoch, unbond_at));
    out
}

/// Counting ranks above a status is counting rank keys below its own.
proof fn lemma_count_keys(s: Seq<ValidatorStatus>, keys: Seq<(u64, u64)>, n: int, v: ValidatorStatus)
    requires
        keys == s.map_values(|x: ValidatorStatus| rank_key(x)),
        0 <= n <= s.len(),
    ensures
        count_above(s, n, v) == count_lt(keys.take(n), rank_key(v)),
    decreases n,
{
    if n > 0 {
        lemma_count_keys(s, keys, n - 1, v);
        assert(keys.take(n).drop_last() == keys.take(n - 1));
        assert(keys.take(n).last() == rank_key(s[n - 1]));
    }
}

proof fn lemma_count_remove(b: Seq<(u64, u64)>, k: int, e: (u64, u64))
    requires
        0 <= k < b.len(),
    ensures
        count_lt(b, e) == count_lt(b.remove(k), e) + if pair_lt(b[k], e) { 1nat } else { 0nat },
    decreases b.len(),
{
    if k == b.len() - 1 {
        assert(b.remove(k) == b.drop_last());
    } else {
        lemma_count_remove(b.drop_last(), k, e);
        assert(b.drop_last().remove(k) == b.remove(k).drop_last());
        assert(b.remove(k).last() == b.last());
    }
}

/// Reordering keeps the count of pairs below a bound.
proof fn lemma_count_perm(a: Seq<(u64, u64)>, b: Seq<(u64, u64)>, e: (u64, u64))
    requires
        a.to_multiset() == b.to_multiset(),
    ensures
        count_lt(a, e) == count_lt(b, e),
    decreases a.len(),
{
    broadcast use vstd::seq_lib::to_multiset_len, vstd::seq_lib::to_multiset_contains, vstd::seq_lib::to_multiset_remove;
    if a.len() == 0 {
        assert(a.to_multiset().len() == 0);
        assert(b.to_multiset().len() == b.len());
    } else {
        let x = a.last();
        assert(a.contains(x)) by {
            assert(a[a.len() - 1] == x);
        }
        assert(a.to_multiset().count(x) > 0);
        assert(b.to_multiset().count(x) > 0);
        assert(b.contains(x));
        let k = choose|k: int| 0 <= k < b.len() && b[k] == x;
        assert(a.remove(a.len() - 1) == a.drop_last());
        assert(a.remove(a.len() - 1).to_multiset() == a.to_multiset().remove(x));
        assert(b.remove(k).to_multiset() == b.to_multiset().remove(x));
        lemma_count_perm(a.drop_last(), b.remove(k), e);
        lemma_count_remove(b, k, e);
    }
}

/// In a sorted sequence without repeats, the pairs below the one at `q` are those before it.
proof fn lemma_sorted_position(r: Seq<(u64, u64)>, q: int, n: int)
    requires
        r.no_duplicates(),
        forall|a: int, b: int| 0 <= a < b < r.len() ==> pair_le(#[trigger] r[a], #[trigger] r[b]),
        0 <= q < r.len(),
        0 <= n <= r.len(),
    ensures
        count_lt(r.take(n), r[q]) == if n <= q { n } else { q },
    decreases n,
{
    if n > 0 {
        lemma_sorted_position(r, q, n - 1);
        assert(r.take(n).drop_last() == r.take(n - 1));
        assert(r.take(n).last() == r[n - 1]);
        if n - 1 < q {
            assert(pair_le(r[n - 1], r[q]));
            assert(r[n - 1] != r[q]);
        } else if n - 1 > q {
            assert(pair_le(r[q], r[n - 1]));
        }
    }
}

/// Rank keys of statuses with distinct identity keys do not repeat, nor do they in any
/// reordering.
proof fn lemma_ranked_distinct(s: Seq<ValidatorStatus>, keys: Seq<(u64, u64)>, ranked: Seq<(u64, u64)>)
    requires
        distinct_keys(s),
        keys == s.map_values(|x: ValidatorStatus| rank_key(x)),
        ranked.to_multiset() == keys.to_multiset(),
    ensures
        ranked.no_duplicates(),
{
    assert(keys.no_duplicates()) by {
        assert forall|i: int, j: int| 0 <= i < keys.len() && 0 <= j < keys.len() && i != j implies keys[i] != keys[j] by {
            assert(s[i].identity_key != s[j].identity_key);
        }
    }
    keys.lemma_multiset_has_no_duplicates();
    ranked.lemma_multiset_has_no_duplicates_conv();
}

/// The status at `i` is among the first `limit` of the sorted rank keys exactly when it
/// ranks among the `limit` highest.
proof fn lemma_top_iff_in_top(s: Seq<ValidatorStatus>, keys: Seq<(u64, u64)>, ranked: Seq<(u64, u64)>, limit: u64, i: int)
    requires
        distinct_keys(s),
        keys == s.map_values(|x: ValidatorStatus| rank_key(x)),
        ranked.to_multiset() == keys.to_multiset(),
        ranked.no_duplicates(),
        forall|a: int, b: int| 0 <= a < b < ranked.len() ==> pair_le(#[trigger] ranked[a], #[trigger] ranked[b]),
        0 <= i < s.len(),
    ensures
        (exists|q: int| 0 <= q < ranked.len() && q < limit && (#[trigger] ranked[q]).1 == s[i].identity_key)
            <==> in_top(s, limit, i),
{
    broadcast use vstd::seq_lib::to_multiset_len, vstd::seq_lib::to_multiset_contains;
    let n = s.len() as int;
    let e = rank_key(s[i]);
    lemma_count_keys(s, keys, n, s[i]);
    assert(keys.take(n) == keys);
    lemma_count_perm(keys, ranked, e);
    assert(ranked.to_multiset().len() == ranked.len());
    assert(keys.to_multiset().len() == keys.len());
    assert(ranked.len() == n);
    assert(ranked.take(n) == ranked);
    if exists|q: int| 0 <= q < ranked.len() && q < limit && (#[trigger] ranked[q]).1 == s[i].identity_key {
        let q = choose|q: int| 0 <= q < ranked.len() && q < limit && (#[trigger] ranked[q]).1 == s[i].identity_key;
        assert(ranked.contains(ranked[q]));
        assert(ranked.to_multiset().count(ranked[q]) > 0);
        assert(keys.contains(ranked[q]));
        let j = choose|j: int| 0 <= j < keys.len() && keys[j] == ranked[q];
        if j != i {
            assert(s[j].identity_key != s[i].identity_key);
        }
        assert(ranked[q] == e);
        lemma_sorted_position(ranked, q, n);
    }
    if in_top(s, limit, i) {
        assert(keys[i] == e);
        assert(keys.contains(e));
        assert(keys.to_multiset().count(e) > 0);
        assert(ranked.contains(e));
        let p = choose|p: int| 0 <= p < ranked.len() && ranked[p] == e;
        lemma_sorted_position(ranked, p, n);
        assert(ranked[p].1 == s[i].identity_key);
    }
}

/// Everything above `a` in a prefix of `s` is above `b` too when `a` ranks above `b`,
/// and `a` itself counts for `b` when it stands in that prefix.
proof fn lemma_count_above_mono(s: Seq<ValidatorStatus>, n: int, a: ValidatorStatus, b: ValidatorStatus)
    requires
        ranks_above(a, b),
        0 <= n <= s.len(),
    ensures
        count_above(s, n, a) + (if exists|k: int| 0 <= k < n && s[k] == a { 1int } else { 0int })
            <= count_above(s, n, b),
    decreases n,
{
    if n > 0 {
        lemma_count_above_mono(s, n - 1, a, b);
        if exists|k: int| 0 <= k < n - 1 && s[k] == a {
            let k = choose|k: int| 0 <= k < n - 1 && s[k] == a;
            assert(0 <= k < n && s[k] == a);
        } else if s[n - 1] == a {
            assert(0 <= n - 1 < n && s[n - 1] == a);
        } else {
            assert forall|k: int| 0 <= k < n implies s[k] != a by {}
        }
    }
}

/// Positions of the active validators of `s`.
pub open spec fn active_indices(s: Seq<ValidatorStatus>) -> Set<int> {
    Set::new(|i: int| 0 <= i < s.len() && s[i].state == ValidatorState::Active)
}

/// Two statuses of a set with distinct identity keys stand at distinct ranks.
proof fn lemma_ranks_distinct(s: Seq<ValidatorStatus>, i: int, j: int)
    requires
        distinct_keys(s),
        0 <= i < s.len(),
        0 <= j < s.len(),
        i != j,
    ensures
        count_above(s, s.len() as int, s[i]) != count_above(s, s.len() as int, s[j]),
{
    let n = s.len() as int;
    assert(s[i].identity_key != s[j].identity_key);
    if ranks_above(s[i], s[j]) {
        lemma_count_above_mono(s, n, s[i], s[j]);
        assert(0 <= i < n && s[i] == s[i]);
    } else {
        lemma_count_above_mono(s, n, s[j], s[i]);
        assert(0 <= j < n && s[j] == s[j]);
    }
}

/// After the rotation of an epoch boundary at most `limit` validators are active.
pub proof fn lemma_active_within_limit(s: Seq<ValidatorStatus>, limit: u64, current_epoch: u64, unbond_at: u64)
    requires
        distinct_keys(s),
    ensures
        active_indices(rotate_spec(s, limit, current_epoch, unbond_at)).finite(),
        active_indices(rotate_spec(s, limit, current_epoch, unbond_at)).len() <= limit,
{
    let r = rotate_spec(s, limit, current_epoch, unbond_at);
    let a = active_indices(r);
    let n = s.len() as int;
    vstd::set_lib::lemma_int_range(0, n);
    assert(a.subset_of(vstd::set_lib::set_int_range(0, n)));
    vstd::set_lib::lemma_len_subset(a, vstd::set_lib::set_int_range(0, n));
    let f = |i: int| count_above(s, n, s[i]) as int;
    assert forall|i: int| a.contains(i) implies in_top(s, limit, i) by {
        assert(r[i].state == next_state_spec(s[i].state, in_top(s, limit, i), current_epoch, unbond_at));
    }
    assert(vstd::relations::injective_on(f, a)) by {
        assert forall|x: int, y: int| a.contains(x) && a.contains(y) && #[trigger] f(x) == #[trigger] f(y) implies x == y by {
            if x != y {
                lemma_ranks_distinct(s, x, y);
            }
        }
    }
    let y = a.map(f);
    vstd::set_lib::lemma_map_size(a, y, f);
    vstd::set_lib::lemma_int_range(0, limit as int);
    assert(y.subset_of(vstd::set_lib::set_int_range(0, limit as int))) by {
        assert forall|v: int| y.contains(v) implies 0 <= v < limit by {
            let i = choose|i: int| a.contains(i) && f(i) == v;
        }
    }
    vstd::set_lib::lemma_len_subset(y, vstd::set_lib::set_int_range(0, limit as int));
}

} // verus!
