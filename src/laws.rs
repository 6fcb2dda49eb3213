//! Properties that every execution of a transaction keeps.
use vstd::prelude::*;
use crate::ledger::{
    covered, find, get, lemma_find, lemma_put, lemma_total_update, present, put, AccountView,
    total,
};
use crate::transactions::{
    accept_debited, accept_released, effect, fits, next, outcome, settled, Error, TxView,
};

verus! {

/// The amount that `tx` brings into existence on ledger `s`: the issued
/// amount of an issue that succeeds, zero otherwise.
pub open spec fn minted(s: Seq<AccountView>, author: Seq<u8>, tx: TxView) -> int {
    match tx {
        TxView::Issue { amount } => if outcome(s, author, tx) is Ok {
            amount as int
        } else {
            0
        },
        _ => 0,
    }
}

/// Whether `tx` names one wallet as both its sender and its receiver.
pub open spec fn to_itself(author: Seq<u8>, tx: TxView) -> bool {
    match tx {
        TxView::Transfer { to, .. } => to == author,
        TxView::TransferMultisign { from, to, .. } => from == to,
        TxView::AcceptMultisign { from, to, .. } => from == to,
        _ => false,
    }
}

/// What the updates of an acceptance leave in the sender's and the
/// receiver's wallets.
proof fn lemma_accept_steps(s: Seq<AccountView>, proposal: Seq<u8>, from: Seq<u8>, to: Seq<u8>)
    requires
        present(s, from),
        present(s, to),
        from != to,
    ensures
        present(accept_released(s, proposal, from), from),
        get(accept_released(s, proposal, from), from) == crate::ledger::released(get(s, from), proposal),
        get(accept_released(s, proposal, from), to) == get(s, to),
        present(accept_debited(s, proposal, from), to),
        get(accept_debited(s, proposal, from), from) == crate::ledger::debited(
            crate::ledger::released(get(s, from), proposal),
            settled(get(s, from)),
            proposal,
        ),
        get(accept_debited(s, proposal, from), to) == get(s, to),
        forall|q: Seq<u8>| #[trigger] find(accept_debited(s, proposal, from), q) == find(s, q),
{
    lemma_find(s, from);
    let a = crate::ledger::released(get(s, from), proposal);
    lemma_put(s, from, a, to);
    let s1 = accept_released(s, proposal, from);
    let b = crate::ledger::debited(get(s1, from), settled(get(s, from)), proposal);
    lemma_put(s1, from, b, to);
    assert forall|q: Seq<u8>| #[trigger] find(accept_debited(s, proposal, from), q) == find(s, q) by {
        lemma_put(s, from, a, q);
        lemma_put(s1, from, b, q);
    }
}

proof fn lemma_total_put(s: Seq<AccountView>, k: Seq<u8>, a: AccountView)
    requires
        present(s, k),
    ensures
        total(put(s, k, a)) == total(s) - get(s, k).wallet.balance + a.wallet.balance,
{
    lemma_find(s, k);
    lemma_total_update(s, find(s, k), a);
}

proof fn lemma_covered_put(s: Seq<AccountView>, k: Seq<u8>, a: AccountView)
    requires
        covered(s),
        present(s, k),
        a.wallet.pending_balance <= a.wallet.balance,
    ensures
        covered(put(s, k, a)),
{
    lemma_find(s, k);
}

/// Conservation: a transaction changes the sum of all balances by exactly
/// the amount it issues, so transfers, proposals, acceptances and wallet
/// creations keep it, and a successful issue raises it by its amount.
pub proof fn lemma_conservation(s: Seq<AccountView>, author: Seq<u8>, hash: Seq<u8>, tx: TxView)
    requires
        covered(s),
        fits(s, author, tx),
    ensures
        total(next(s, author, hash, tx)) == total(s) + minted(s, author, tx),
{
    if outcome(s, author, tx) is Ok {
        let t = effect(s, author, hash, tx);
        match tx {
            TxView::CreateWallet { name } => {
                assert(t.drop_last() =~= s);
            },
            TxView::Issue { amount } => {
                lemma_total_put(s, author, crate::ledger::credited(get(s, author), amount, hash));
            },
            TxView::Transfer { to, amount } => {
                let a = crate::ledger::debited(get(s, author), amount, hash);
                lemma_find(s, author);
                lemma_put(s, author, a, to);
                lemma_total_put(s, author, a);
                let s1 = put(s, author, a);
                lemma_total_put(s1, to, crate::ledger::credited(get(s1, to), amount, hash));
            },
            TxView::TransferMultisign { from, amount, .. } => {
                lemma_total_put(s, from, crate::ledger::reserved(get(s, from), amount, hash));
            },
            TxView::AcceptMultisign { proposal, from, to, .. } => {
                lemma_find(s, from);
                lemma_find(s, to);
                lemma_accept_steps(s, proposal, from, to);
                let s1 = accept_released(s, proposal, from);
                let s2 = accept_debited(s, proposal, from);
                lemma_total_put(s, from, get(s1, from));
                lemma_total_put(s1, from, get(s2, from));
                lemma_total_put(s2, to, crate::ledger::credited(get(s, to), settled(get(s, from)), proposal));
            },
        }
    }
}

/// Balances are unsigned, so never negative; and where every earmarked
/// balance is covered before a transaction, it still is after it.
pub proof fn lemma_reserves_stay_covered(
    s: Seq<AccountView>,
    author: Seq<u8>,
    hash: Seq<u8>,
    tx: TxView,
)
    requires
        covered(s),
        fits(s, author, tx),
    ensures
        covered(next(s, author, hash, tx)),
{
    if outcome(s, author, tx) is Ok {
        match tx {
            TxView::CreateWallet { name } => {},
            TxView::Issue { amount } => {
                lemma_find(s, author);
                lemma_covered_put(s, author, crate::ledger::credited(get(s, author), amount, hash));
            },
            TxView::Transfer { to, amount } => {
                let a = crate::ledger::debited(get(s, author), amount, hash);
                lemma_find(s, author);
                lemma_put(s, author, a, to);
                lemma_covered_put(s, author, a);
                let s1 = put(s, author, a);
                lemma_find(s, to);
                lemma_covered_put(s1, to, crate::ledger::credited(get(s1, to), amount, hash));
            },
            TxView::TransferMultisign { from, amount, .. } => {
                lemma_find(s, from);
                lemma_covered_put(s, from, crate::ledger::reserved(get(s, from), amount, hash));
            },
            TxView::AcceptMultisign { proposal, from, to, .. } => {
                lemma_find(s, from);
                lemma_find(s, to);
                lemma_accept_steps(s, proposal, from, to);
                let s1 = accept_released(s, proposal, from);
                let s2 = accept_debited(s, proposal, from);
                lemma_covered_put(s, from, get(s1, from));
                lemma_covered_put(s1, from, get(s2, from));
                lemma_covered_put(s2, to, crate::ledger::credited(get(s, to), settled(get(s, from)), proposal));
            },
        }
    }
}

/// A transaction that is rejected leaves the ledger as it was, so
/// submitting it again is rejected with the same error; and a wallet
/// creation that succeeded is rejected as `WalletAlreadyExists` when
/// submitted again.
pub proof fn lemma_rejection_is_stable(
    s: Seq<AccountView>,
    author: Seq<u8>,
    hash: Seq<u8>,
    tx: TxView,
)
    ensures
        outcome(s, author, tx) is Err ==> next(s, author, hash, tx) == s && outcome(
            next(s, author, hash, tx),
            author,
            tx,
        ) == outcome(s, author, tx),
        tx is CreateWallet && outcome(s, author, tx) is Ok ==> outcome(
            next(s, author, hash, tx),
            author,
            tx,
        ) == Err::<(), Error>(Error::WalletAlreadyExists),
{
}

/// A transfer, proposal or acceptance whose sender is its receiver fails
/// with `SenderSameAsReceiver`, whatever the balances, and changes nothing.
pub proof fn lemma_self_transfer_rejected(
    s: Seq<AccountView>,
    author: Seq<u8>,
    hash: Seq<u8>,
    tx: TxView,
)
    requires
        to_itself(author, tx),
    ensures
        outcome(s, author, tx) == Err::<(), Error>(Error::SenderSameAsReceiver),
        next(s, author, hash, tx) == s,
{
}

/// One delivered transaction: its author, its hash and what it asks.
pub struct Step {
    pub author: Seq<u8>,
    pub hash: Seq<u8>,
    pub tx: TxView,
}

/// The ledger after executing `steps` in order, starting from `s`.
pub open spec fn run(s: Seq<AccountView>, steps: Seq<Step>) -> Seq<AccountView>
    decreases steps.len(),
{
    if steps.len() == 0 {
        s
    } else {
        run(next(s, steps[0].author, steps[0].hash, steps[0].tx), steps.drop_first())
    }
}

/// Every step of the run keeps its counters within `u64`, as `execute`
/// asks.
pub open spec fn run_fits(s: Seq<AccountView>, steps: Seq<Step>) -> bool
    decreases steps.len(),
{
    steps.len() == 0 || (fits(s, steps[0].author, steps[0].tx) && run_fits(
        next(s, steps[0].author, steps[0].hash, steps[0].tx),
        steps.drop_first(),
    ))
}

/// The total amount issued by the successful issues of the run.
pub open spec fn run_minted(s: Seq<AccountView>, steps: Seq<Step>) -> int
    decreases steps.len(),
{
    if steps.len() == 0 {
        0
    } else {
        minted(s, steps[0].author, steps[0].tx) + run_minted(
            next(s, steps[0].author, steps[0].hash, steps[0].tx),
            steps.drop_first(),
        )
    }
}

/// Conservation over any sequence of transactions, from any ledger whose
/// earmarks are covered (every ledger that `execute` works on): the sum of all balances
/// changes by exactly the amount that the successful issues among them
/// issued; transfers and acceptances alone leave it as it was.
pub proof fn lemma_run_conservation(s: Seq<AccountView>, steps: Seq<Step>)
    requires
        covered(s),
        run_fits(s, steps),
    ensures
        total(run(s, steps)) == total(s) + run_minted(s, steps),
    decreases steps.len(),
{
    if steps.len() > 0 {
        lemma_conservation(s, steps[0].author, steps[0].hash, steps[0].tx);
        lemma_reserves_stay_covered(s, steps[0].author, steps[0].hash, steps[0].tx);
        lemma_run_conservation(
            next(s, steps[0].author, steps[0].hash, steps[0].tx),
            steps.drop_first(),
        );
    }
}

/// In every state reached from the empty ledger, each earmarked balance
/// is covered by its balance.
pub proof fn lemma_reachable_covered(steps: Seq<Step>)
    requires
        run_fits(Seq::empty(), steps),
    ensures
        covered(run(Seq::empty(), steps)),
{
    lemma_run_covered(Seq::empty(), steps);
}

proof fn lemma_run_covered(s: Seq<AccountView>, steps: Seq<Step>)
    requires
        covered(s),
        run_fits(s, steps),
    ensures
        covered(run(s, steps)),
    decreases steps.len(),
{
    if steps.len() > 0 {
        lemma_reserves_stay_covered(s, steps[0].author, steps[0].hash, steps[0].tx);
        lemma_run_covered(next(s, steps[0].author, steps[0].hash, steps[0].tx), steps.drop_first());
    }
}

/// Whether the proposal that `tx` accepts is outstanding at most once in
/// its sender's wallet.
pub open spec fn proposal_unique(s: Seq<AccountView>, tx: TxView) -> bool {
    match tx {
        TxView::AcceptMultisign { proposal, from, .. } => {
            let p = get(s, from).wallet.pending_txs;
            forall|i: int, j: int|
                0 <= i < p.len() && 0 <= j < p.len() && p[i] == proposal && p[j] == proposal
                    ==> i == j
        },
        _ => false,
    }
}

/// A proposal is settled at most once: after an acceptance succeeds, the
/// same acceptance fails with `SenderNotFound` and changes nothing.
pub proof fn lemma_accept_once(s: Seq<AccountView>, author: Seq<u8>, hash: Seq<u8>, tx: TxView)
    requires
        covered(s),
        fits(s, author, tx),
        outcome(s, author, tx) is Ok,
        proposal_unique(s, tx),
    ensures
        outcome(next(s, author, hash, tx), author, tx) == Err::<(), Error>(Error::SenderNotFound),
        next(next(s, author, hash, tx), author, hash, tx) == next(s, author, hash, tx),
{
    match tx {
        TxView::AcceptMultisign { proposal, from, to, .. } => {
            lemma_accept_steps(s, proposal, from, to);
            let s2 = accept_debited(s, proposal, from);
            let c = crate::ledger::credited(get(s, to), settled(get(s, from)), proposal);
            lemma_find(s2, from);
            lemma_put(s2, to, c, from);
            lemma_put(s2, to, c, to);
            crate::wallet::lemma_remove_first_gone(get(s, from).wallet.pending_txs, proposal);
        },
        _ => {},
    }
}

} // verus!
