//! The decision rules of the draft, verify, accept loop.

use vstd::prelude::*;

use crate::token::LlamaToken;

verus! {

/// The length of the longest prefix on which two token sequences agree.
pub open spec fn agreement(target: Seq<LlamaToken>, draft: Seq<LlamaToken>) -> nat
    decreases target.len(),
{
    if target.len() == 0 || draft.len() == 0 || target[0] != draft[0] {
        0
    } else {
        1 + agreement(target.drop_first(), draft.drop_first())
    }
}

/// Whether `n` is the length of the longest prefix on which two token sequences
/// agree: they agree up to `n`, and one of them ends there or they differ there.
pub open spec fn is_agreement(target: Seq<LlamaToken>, draft: Seq<LlamaToken>, n: int) -> bool {
    &&& 0 <= n <= target.len()
    &&& n <= draft.len()
    &&& forall|i: int| 0 <= i < n ==> target[i] == draft[i]
    &&& n < target.len() && n < draft.len() ==> target[n] != draft[n]
}

/// The agreement is the one length that [`is_agreement`] describes.
pub proof fn lemma_agreement(target: Seq<LlamaToken>, draft: Seq<LlamaToken>)
    ensures
        is_agreement(target, draft, agreement(target, draft) as int),
        forall|n: int| is_agreement(target, draft, n) ==> n == agreement(target, draft),
    decreases target.len(),
{
    if target.len() == 0 || draft.len() == 0 || target[0] != draft[0] {
    } else {
        let t = target.drop_first();
        let d = draft.drop_first();
        lemma_agreement(t, d);
        let m = agreement(t, d) as int;
        assert forall|i: int| 0 <= i < m + 1 implies target[i] == draft[i] by {
            if i > 0 {
                assert(t[i - 1] == d[i - 1]);
            }
        }
        if m + 1 < target.len() && m + 1 < draft.len() {
            assert(t[m] != d[m]);
        }
        assert forall|n: int| is_agreement(target, draft, n) implies n == m + 1 by {
            if n < m + 1 {
                assert(target[n] == draft[n]);
            } else if n > m + 1 {
                assert(target[m + 1] == draft[m + 1]);
                assert(t[m] == d[m]);
            }
        }
    }
}

/// The length of the longest prefix where the target's and the draft's tokens
/// agree.
#[must_use]
pub fn longest_accepted_prefix(target: &[LlamaToken], draft: &[LlamaToken]) -> (r: usize)
    ensures
        is_agreement(target@, draft@, r as int),
        r == agreement(target@, draft@),
        r <= target@.len(),
        r <= draft@.len(),
        target@.take(r as int) == draft@.take(r as int),
        r < target@.len() && r < draft@.len() ==> target@[r as int].0 != draft@[r as int].0,
{
    let mut n: usize = 0;
    while n < target.len() && n < draft.len() && target[n].0 == draft[n].0
        invariant
            n <= target@.len(),
            n <= draft@.len(),
            forall|i: int| 0 <= i < n ==> target@[i] == draft@[i],
        decreases target@.len() - n,
    {
        n = n + 1;
    }
    proof {
        lemma_agreement(target@, draft@);
        assert(is_agreement(target@, draft@, n as int));
    }
    n
}

/// The index of the captured row to carry forward after `n_accepted` drafts
/// were accepted: the row of the last accepted token, but never past the last
/// of the `n_rows` rows.
pub open spec fn accepted_row(n_accepted: nat, n_rows: nat) -> nat {
    if n_rows == 0 {
        0
    } else if n_accepted < n_rows {
        n_accepted
    } else {
        (n_rows - 1) as nat
    }
}

/// The index of the captured row to carry forward after acceptance, see
/// [`accepted_row`].
#[must_use]
pub fn accept_h_index(n_accepted: usize, n_rows: usize) -> (r: usize)
    ensures
        r == accepted_row(n_accepted as nat, n_rows as nat),
        n_rows == 0 ==> r == 0,
        n_rows > 0 ==> r < n_rows && r <= n_accepted && (r == n_accepted || r == n_rows - 1),
{
    let last: usize = if n_rows == 0 {
        0
    } else {
        n_rows - 1
    };
    if n_accepted < last {
        n_accepted
    } else {
        last
    }
}

/// Which captured row goes with each of `n` mirrored tokens: the first takes
/// the carried row (`None`), token `k` the row of the token before it,
/// `Some(k - 1)`.
#[must_use]
pub fn shift_h_mapping(n: usize) -> (r: Vec<Option<usize>>)
    ensures
        r@ == Seq::new(
            n as nat,
            |k: int|
                if k == 0 {
                    None::<usize>
                } else {
                    Some((k - 1) as usize)
                },
        ),
{
    let mut mapping: Vec<Option<usize>> = Vec::new();
    for k in 0..n
        invariant
            mapping@.len() == k,
            forall|j: int| 1 <= j < k ==> mapping@[j] == Some((j - 1) as usize),
            k > 0 ==> mapping@[0] == None::<usize>,
    {
        mapping.push(
            if k == 0 {
                None
            } else {
                Some(k - 1)
            },
        );
    }
    mapping
}

/// The outcome of one verified step, out of the target's choice at each index
/// of the batch that holds the last token and then the drafts.
///
/// The choice at index `i` is what the target puts behind entry `i`, so it is
/// held against draft `i`. The first component is the number of drafts that the
/// target agrees with, the second the target's own token behind them, which
/// there is for every number since one more choice is given than drafts.
#[must_use]
pub fn verify_acceptance(target_chosen: &[LlamaToken], drafts: &[LlamaToken]) -> (r: (
    usize,
    LlamaToken,
))
    requires
        target_chosen@.len() == drafts@.len() + 1,
    ensures
        r.0 == agreement(target_chosen@.drop_last(), drafts@),
        r.0 <= drafts@.len(),
        r.1 == target_chosen@[r.0 as int],
        drafts@.take(r.0 as int) == target_chosen@.take(r.0 as int),
        r.0 < drafts@.len() ==> r.1.0 != drafts@[r.0 as int].0,
{
    let predictions: &[LlamaToken] = vstd::slice::slice_subrange(target_chosen, 0, drafts.len());
    assert(predictions@ =~= target_chosen@.drop_last());
    let n_accepted: usize = longest_accepted_prefix(predictions, drafts);
    assert(predictions@.take(n_accepted as int) =~= target_chosen@.take(n_accepted as int));
    (n_accepted, target_chosen[n_accepted])
}

/// The tokens that a verified step emits: the accepted drafts and the target's
/// own next token.
#[must_use]
pub fn compose_emitted(accepted: &[LlamaToken], next_token: LlamaToken) -> (r: Vec<LlamaToken>)
    ensures
        r@ == accepted@.push(next_token),
{
    let mut emitted: Vec<LlamaToken> = crate::slices::copied(accepted);
    emitted.push(next_token);
    emitted
}

/// The `count` consecutive positions from `start` on.
pub open spec fn positions_from(start: int, count: nat) -> Seq<i32> {
    Seq::new(count, |k: int| (start + k) as i32)
}

/// Whether [`sequential_positions`] can give these positions: every offset, and
/// every position, is a 32-bit integer.
pub open spec fn positions_fit(start: int, count: nat) -> bool {
    count > 0 ==> count - 1 <= i32::MAX && start + count - 1 <= i32::MAX
}

/// The `count` consecutive positions from `start` on.
#[must_use]
pub fn sequential_positions(start: i32, count: usize) -> (r: Vec<i32>)
    requires
        positions_fit(start as int, count as nat),
    ensures
        r@ == positions_from(start as int, count as nat),
        r@.len() == count,
        forall|k: int| 0 <= k < count ==> #[trigger] r@[k] == start + k,
{
    let mut positions: Vec<i32> = Vec::new();
    for k in 0..count
        invariant
            positions_fit(start as int, count as nat),
            positions@.len() == k,
            forall|j: int| 0 <= j < k ==> positions@[j] == start + j,
    {
        positions.push(start + (k as i32));
    }
    positions
}

/// Whether drafting stops: the best candidate fell below the confidence that is
/// asked for, or `n_max` tokens are drafted.
#[must_use]
pub fn draft_should_stop(below_p_min: bool, drafted_len: usize, n_max: usize) -> (r: bool)
    ensures
        r == (below_p_min || drafted_len >= n_max),
{
    below_p_min || drafted_len >= n_max
}

/// The agreement of two token sequences: up to it they are the same, and it
/// cannot be longer, for one of them ends there or they differ there. No other
/// length is so.
pub proof fn law_agreement(target: Seq<LlamaToken>, draft: Seq<LlamaToken>)
    ensures
        agreement(target, draft) <= target.len(),
        agreement(target, draft) <= draft.len(),
        forall|i: int|
            0 <= i < agreement(target, draft) ==> (#[trigger] target[i]).0 == draft[i].0,
        agreement(target, draft) < target.len() && agreement(target, draft) < draft.len()
            ==> target[agreement(target, draft) as int].0 != draft[agreement(
            target,
            draft,
        ) as int].0,
        forall|n: int|
            #![trigger is_agreement(target, draft, n)]
            is_agreement(target, draft, n) <==> {
                &&& 0 <= n <= target.len()
                &&& n <= draft.len()
                &&& target.take(n) == draft.take(n)
                &&& n == target.len() || n == draft.len() || target[n].0 != draft[n].0
            },
{
    lemma_agreement(target, draft);
    assert forall|n: int|
        #![trigger is_agreement(target, draft, n)]
        is_agreement(target, draft, n) <==> {
            &&& 0 <= n <= target.len()
            &&& n <= draft.len()
            &&& target.take(n) == draft.take(n)
            &&& n == target.len() || n == draft.len() || target[n].0 != draft[n].0
        } by {
        if 0 <= n <= target.len() && n <= draft.len() {
            if target.take(n) == draft.take(n) {
                assert forall|i: int| 0 <= i < n implies target[i] == draft[i] by {
                    assert(target.take(n)[i] == draft.take(n)[i]);
                }
            } else if is_agreement(target, draft, n) {
                assert(target.take(n) =~= draft.take(n));
            }
        }
    }
}

/// The agreement does not depend on which sequence is which, a sequence agrees
/// with itself throughout, and a common token in front adds one to it.
pub proof fn law_agreement_laws(
    target: Seq<LlamaToken>,
    draft: Seq<LlamaToken>,
    token: LlamaToken,
)
    ensures
        agreement(target, draft) == agreement(draft, target),
        agreement(target, target) == target.len(),
        agreement(seq![token] + target, seq![token] + draft) == 1 + agreement(target, draft),
    decreases target.len(),
{
    lemma_agreement(target, target);
    assert(is_agreement(target, target, target.len() as int));
    lemma_agreement(target, draft);
    lemma_agreement(draft, target);
    assert(is_agreement(draft, target, agreement(target, draft) as int));
    assert((seq![token] + target).drop_first() =~= target);
    assert((seq![token] + draft).drop_first() =~= draft);
}

/// The row that is carried after an acceptance is one of the captured rows: that
/// of the last accepted token, or the last row where that token has none.
pub proof fn law_accepted_row(n_accepted: nat, n_rows: nat)
    requires
        n_rows > 0,
    ensures
        accepted_row(n_accepted, n_rows) < n_rows,
        n_accepted < n_rows ==> accepted_row(n_accepted, n_rows) == n_accepted,
        n_accepted >= n_rows ==> accepted_row(n_accepted, n_rows) + 1 == n_rows,
{
}

/// Positions are consecutive: entry `k` is the integer `start + k`, so each is
/// one more than the one before it. They fit exactly when the last of them, and
/// its distance from the first, are 32-bit integers.
pub proof fn law_positions(start: i32, count: nat)
    ensures
        positions_fit(start as int, count) <==> count == 0 || (count - 1 <= i32::MAX && start + (
        count - 1) <= i32::MAX),
        positions_from(start as int, count).len() == count,
        positions_fit(start as int, count) ==> forall|k: int|
            0 <= k < count ==> #[trigger] positions_from(start as int, count)[k] == start + k,
        positions_fit(start as int, count) ==> forall|k: int|
            0 < k < count ==> #[trigger] positions_from(start as int, count)[k] == positions_from(
                start as int,
                count,
            )[k - 1] + 1,
{
}

/// Positions go on behind one another: those of two runs, the second from where
/// the first ended, are those of one run.
pub proof fn law_positions_split(start: i32, count1: nat, count2: nat)
    requires
        positions_fit(start as int, count1 + count2),
    ensures
        positions_from(start as int, count1) + positions_from(start + count1, count2)
            == positions_from(start as int, count1 + count2),
{
    assert(positions_from(start as int, count1) + positions_from(start + count1, count2)
        =~= positions_from(start as int, count1 + count2));
}

} // verus!
