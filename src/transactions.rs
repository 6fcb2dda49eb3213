//! Wallet transactions and the rules by which they change the ledger.
//!
//! Each transaction either fails with an [`Error`] and leaves the ledger as
//! it was, or applies all of its effect.
use vstd::prelude::*;
use crate::keys::{zero_digest, Digest, PublicKey};
use crate::ledger::{
    credited, debited, fresh, get, lemma_find, lemma_put, present, total, put, released, reserved, AccountView, Ledger,
    ledger_wf,
};

use crate::laws::{lemma_conservation, minted};

verus! {

/// Error codes emitted by wallet transactions during execution.
#[derive(Clone, Copy, Debug, PartialEq, Eq, Structural)]
pub enum Error {
    /// A wallet already exists for the author of `CreateWallet`.
    WalletAlreadyExists,
    /// The sender's or author's wallet does not exist (for `Issue`, the
    /// author's), the author is not an approver, or the accepted proposal
    /// is not outstanding.
    SenderNotFound,
    /// The receiver's wallet does not exist.
    ReceiverNotFound,
    /// The sender's balance less what is earmarked is less than the amount.
    InsufficientCurrencyAmount,
    /// Sender and receiver are the same wallet.
    SenderSameAsReceiver,
}

/// The code by which an error is reported.
pub open spec fn error_code(e: Error) -> u8 {
    match e {
        Error::WalletAlreadyExists => 0,
        Error::SenderNotFound => 1,
        Error::ReceiverNotFound => 2,
        Error::InsufficientCurrencyAmount => 3,
        Error::SenderSameAsReceiver => 4,
    }
}

impl Error {
    /// The code by which this error is reported; distinct for each error.
    pub fn code(&self) -> (r: u8)
        ensures
            r == error_code(*self),
    {
        match self {
            Error::WalletAlreadyExists => 0,
            Error::SenderNotFound => 1,
            Error::ReceiverNotFound => 2,
            Error::InsufficientCurrencyAmount => 3,
            Error::SenderSameAsReceiver => 4,
        }
    }
}

/// A transaction as a mathematical value; the seeds, which only keep
/// otherwise equal transactions apart, are left out.
pub enum TxView {
    Transfer { to: Seq<u8>, amount: u64 },
    TransferMultisign { from: Seq<u8>, to: Seq<u8>, approvers: Seq<Seq<u8>>, amount: u64 },
    AcceptMultisign { proposal: Seq<u8>, from: Seq<u8>, to: Seq<u8>, approvers: Seq<Seq<u8>> },
    Issue { amount: u64 },
    CreateWallet { name: Seq<char> },
}

/// The views of a list of keys.
pub open spec fn keys_view(v: Seq<PublicKey>) -> Seq<Seq<u8>> {
    v.map_values(|k: PublicKey| k@)
}

/// The amount that accepting a proposal moves: the balance that is not
/// earmarked.
pub open spec fn settled(a: AccountView) -> u64 {
    (a.wallet.balance - a.wallet.pending_balance) as u64
}

/// How `tx`, authored by `author`, ends on ledger `s`: its preconditions
/// are checked in order and the first that fails gives the error. A
/// sender's funds are its balance less what proposals have earmarked.
pub open spec fn outcome(s: Seq<AccountView>, author: Seq<u8>, tx: TxView) -> Result<(), Error> {
    match tx {
        TxView::CreateWallet { .. } => if present(s, author) {
            Err(Error::WalletAlreadyExists)
        } else {
            Ok(())
        },
        TxView::Issue { .. } => if present(s, author) {
            Ok(())
        } else {
            Err(Error::SenderNotFound)
        },
        TxView::Transfer { to, amount } => if author == to {
            Err(Error::SenderSameAsReceiver)
        } else if !present(s, author) {
            Err(Error::SenderNotFound)
        } else if !present(s, to) {
            Err(Error::ReceiverNotFound)
        } else if get(s, author).wallet.balance - get(s, author).wallet.pending_balance < amount {
            Err(Error::InsufficientCurrencyAmount)
        } else {
            Ok(())
        },
        TxView::TransferMultisign { from, to, approvers, amount } => if from == to {
            Err(Error::SenderSameAsReceiver)
        } else if !present(s, from) {
            Err(Error::SenderNotFound)
        } else if !present(s, to) {
            Err(Error::ReceiverNotFound)
        } else if !approvers.contains(author) {
            Err(Error::SenderNotFound)
        } else if get(s, from).wallet.balance - get(s, from).wallet.pending_balance < amount {
            Err(Error::InsufficientCurrencyAmount)
        } else {
            Ok(())
        },
        TxView::AcceptMultisign { proposal, from, to, approvers } => if from == to {
            Err(Error::SenderSameAsReceiver)
        } else if !present(s, from) {
            Err(Error::SenderNotFound)
        } else if !present(s, to) {
            Err(Error::ReceiverNotFound)
        } else if !get(s, from).wallet.pending_txs.contains(proposal) {
            Err(Error::SenderNotFound)
        } else if !approvers.contains(author) {
            Err(Error::SenderNotFound)
        } else {
            Ok(())
        },
    }
}

/// The ledger after an acceptance closes `proposal` in the wallet `from`.
pub open spec fn accept_released(s: Seq<AccountView>, proposal: Seq<u8>, from: Seq<u8>) -> Seq<
    AccountView,
> {
    put(s, from, released(get(s, from), proposal))
}

/// The ledger after an acceptance closes `proposal` in the wallet `from`
/// and debits it with the settled amount.
pub open spec fn accept_debited(s: Seq<AccountView>, proposal: Seq<u8>, from: Seq<u8>) -> Seq<
    AccountView,
> {
    let s1 = accept_released(s, proposal, from);
    put(s1, from, debited(get(s1, from), settled(get(s, from)), proposal))
}

/// What `tx`, with hash `hash` and authored by `author`, does to ledger `s`
/// when its preconditions hold.
pub open spec fn effect(s: Seq<AccountView>, author: Seq<u8>, hash: Seq<u8>, tx: TxView) -> Seq<
    AccountView,
> {
    match tx {
        TxView::CreateWallet { name } => s.push(fresh(author, name, zero_digest())),
        TxView::Issue { amount } => put(s, author, credited(get(s, author), amount, hash)),
        TxView::Transfer { to, amount } => {
            let s1 = put(s, author, debited(get(s, author), amount, hash));
            put(s1, to, credited(get(s1, to), amount, hash))
        },
        TxView::TransferMultisign { from, amount, .. } => put(
            s,
            from,
            reserved(get(s, from), amount, hash),
        ),
        TxView::AcceptMultisign { proposal, from, to, .. } => {
            let s2 = accept_debited(s, proposal, from);
            put(s2, to, credited(get(s2, to), settled(get(s, from)), proposal))
        },
    }
}

/// The ledger after `tx`: its effect where it succeeds, `s` itself where
/// it fails.
pub open spec fn next(s: Seq<AccountView>, author: Seq<u8>, hash: Seq<u8>, tx: TxView) -> Seq<
    AccountView,
> {
    if outcome(s, author, tx) is Ok {
        effect(s, author, hash, tx)
    } else {
        s
    }
}

/// Where `tx` succeeds, no counter of an account it changes passes
/// `u64::MAX`.
pub open spec fn fits(s: Seq<AccountView>, author: Seq<u8>, tx: TxView) -> bool {
    outcome(s, author, tx) is Ok ==> match tx {
        TxView::CreateWallet { .. } => true,
        TxView::Issue { amount } => get(s, author).wallet.balance + amount <= u64::MAX
            && get(s, author).wallet.history_len < u64::MAX,
        TxView::Transfer { to, amount } => get(s, to).wallet.balance + amount <= u64::MAX
            && get(s, author).wallet.history_len < u64::MAX && get(s, to).wallet.history_len
            < u64::MAX,
        TxView::TransferMultisign { .. } => true,
        TxView::AcceptMultisign { from, to, .. } => get(s, to).wallet.balance + settled(
            get(s, from),
        ) <= u64::MAX
            && get(s, from).wallet.history_len < u64::MAX && get(s, to).wallet.history_len
            < u64::MAX,
    }
}

/// Keys of the wallets whose history `tx` extends when it succeeds.
pub open spec fn history_keys(author: Seq<u8>, tx: TxView) -> Seq<Seq<u8>> {
    match tx {
        TxView::Transfer { to, .. } => seq![author, to],
        TxView::AcceptMultisign { from, to, .. } => seq![from, to],
        TxView::Issue { .. } => seq![author],
        _ => Seq::empty(),
    }
}

/// Whether `author` is among `approvers`.
fn is_approver(approvers: &Vec<PublicKey>, author: &PublicKey) -> (r: bool)
    ensures
        r == keys_view(approvers@).contains(author@),
{
    let mut i: usize = 0;
    while i < approvers.len()
        invariant
            0 <= i <= approvers@.len(),
            forall|j: int| 0 <= j < i ==> approvers@[j]@ != author@,
        decreases approvers@.len() - i,
    {
        if approvers[i] == *author {
            assert(keys_view(approvers@)[i as int] == author@);
            return true;
        }
        i += 1;
    }
    assert(!keys_view(approvers@).contains(author@)) by {
        if keys_view(approvers@).contains(author@) {
            let j = choose|j: int| 0 <= j < approvers@.len() && keys_view(approvers@)[j] == author@;
            assert(approvers@[j]@ == author@);
        }
    }
    false
}

/// Transfers `amount` from the author's wallet to the wallet `to`.
#[derive(Clone, Debug)]
pub struct Transfer {
    /// Key of the receiver's wallet.
    pub to: PublicKey,
    /// Amount of currency to transfer.
    pub amount: u64,
    /// Auxiliary number that keeps otherwise equal transactions apart.
    pub seed: u64,
}

/// Proposes to transfer `amount` from the wallet `from` to the wallet `to`,
/// earmarking it until an approver accepts.
#[derive(Clone, Debug)]
pub struct TransferMultisign {
    /// Key of the sender's wallet.
    pub from: PublicKey,
    /// Key of the receiver's wallet.
    pub to: PublicKey,
    /// Approvers of this transfer.
    pub approvers: Vec<PublicKey>,
    /// Amount of currency to transfer.
    pub amount: u64,
    /// Auxiliary number that keeps otherwise equal transactions apart.
    pub seed: u64,
}

/// Accepts an outstanding multisignature transfer.
#[derive(Clone, Debug)]
pub struct AcceptMultisign {
    /// Hash of the accepted proposal.
    pub tx_hash: Digest,
    /// Key of the sender's wallet.
    pub from: PublicKey,
    /// Key of the receiver's wallet.
    pub to: PublicKey,
    /// Approvers of this transfer.
    pub approvers: Vec<PublicKey>,
    /// Auxiliary number that keeps otherwise equal transactions apart.
    pub seed: u64,
}

/// Issues `amount` of the currency to the author's wallet.
#[derive(Clone, Debug)]
pub struct Issue {
    /// Issued amount of currency.
    pub amount: u64,
    /// Auxiliary number that keeps otherwise equal transactions apart.
    pub seed: u64,
}

/// Creates a wallet with the given `name` for the author.
#[derive(Clone, Debug)]
pub struct CreateWallet {
    /// Name of the new wallet.
    pub name: String,
}

/// The transactions of the wallet service.
#[derive(Clone, Debug)]
pub enum WalletTransactions {
    Transfer(Transfer),
    TransferMultisign(TransferMultisign),
    AcceptMultisign(AcceptMultisign),
    Issue(Issue),
    CreateWallet(CreateWallet),
}

impl View for Transfer {
    type V = TxView;

    open spec fn view(&self) -> TxView {
        TxView::Transfer { to: self.to@, amount: self.amount }
    }
}

impl View for TransferMultisign {
    type V = TxView;

    open spec fn view(&self) -> TxView {
        TxView::TransferMultisign {
            from: self.from@,
            to: self.to@,
            approvers: keys_view(self.approvers@),
            amount: self.amount,
        }
    }
}

impl View for AcceptMultisign {
    type V = TxView;

    open spec fn view(&self) -> TxView {
        TxView::AcceptMultisign {
            proposal: self.tx_hash@,
            from: self.from@,
            to: self.to@,
            approvers: keys_view(self.approvers@),
        }
    }
}

impl View for Issue {
    type V = TxView;

    open spec fn view(&self) -> TxView {
        TxView::Issue { amount: self.amount }
    }
}

impl View for CreateWallet {
    type V = TxView;

    open spec fn view(&self) -> TxView {
        TxView::CreateWallet { name: self.name@ }
    }
}

impl View for WalletTransactions {
    type V = TxView;

    open spec fn view(&self) -> TxView {
        match self {
            WalletTransactions::Transfer(t) => t@,
            WalletTransactions::TransferMultisign(t) => t@,
            WalletTransactions::AcceptMultisign(t) => t@,
            WalletTransactions::Issue(t) => t@,
            WalletTransactions::CreateWallet(t) => t@,
        }
    }
}

impl Transfer {
    /// Moves `amount` from the author's wallet to `to`.
    pub fn execute(&self, ledger: &mut Ledger, author: &PublicKey, tx_hash: &Digest) -> (r: Result<
        (),
        Error,
    >)
        requires
            ledger_wf(old(ledger)@),
            fits(old(ledger)@, author@, self@),
        ensures
            r == outcome(old(ledger)@, author@, self@),
            final(ledger)@ == next(old(ledger)@, author@, tx_hash@, self@),
            ledger_wf(final(ledger)@),
            total(final(ledger)@) == total(old(ledger)@) + minted(old(ledger)@, author@, self@),
    {
        proof {
            lemma_conservation(ledger@, author@, tx_hash@, self@);
        }
        if *author == self.to {
            return Err(Error::SenderSameAsReceiver);
        }
        proof {
            lemma_find(ledger@, author@);
        }
        let sender = match ledger.wallet(author) {
            Some(w) => w,
            None => return Err(Error::SenderNotFound),
        };
        if ledger.wallet(&self.to).is_none() {
            return Err(Error::ReceiverNotFound);
        }
        if sender.balance - sender.pending_balance < self.amount {
            return Err(Error::InsufficientCurrencyAmount);
        }
        let ghost s = ledger@;
        ledger.debit(author, self.amount, tx_hash);
        proof {
            lemma_put(s, author@, debited(get(s, author@), self.amount, tx_hash@), self.to@);
        }
        ledger.credit(&self.to, self.amount, tx_hash);
        Ok(())
    }
}

impl Issue {
    /// Adds `amount` to the author's wallet.
    pub fn execute(&self, ledger: &mut Ledger, author: &PublicKey, tx_hash: &Digest) -> (r: Result<
        (),
        Error,
    >)
        requires
            ledger_wf(old(ledger)@),
            fits(old(ledger)@, author@, self@),
        ensures
            r == outcome(old(ledger)@, author@, self@),
            final(ledger)@ == next(old(ledger)@, author@, tx_hash@, self@),
            ledger_wf(final(ledger)@),
            total(final(ledger)@) == total(old(ledger)@) + minted(old(ledger)@, author@, self@),
    {
        proof {
            lemma_conservation(ledger@, author@, tx_hash@, self@);
        }
        if ledger.wallet(author).is_some() {
            ledger.credit(author, self.amount, tx_hash);
            Ok(())
        } else {
            Err(Error::SenderNotFound)
        }
    }
}

impl CreateWallet {
    /// Creates an empty wallet named `name` for the author.
    pub fn execute(&self, ledger: &mut Ledger, author: &PublicKey, tx_hash: &Digest) -> (r: Result<
        (),
        Error,
    >)
        requires
            ledger_wf(old(ledger)@),
            fits(old(ledger)@, author@, self@),
        ensures
            r == outcome(old(ledger)@, author@, self@),
            final(ledger)@ == next(old(ledger)@, author@, tx_hash@, self@),
            ledger_wf(final(ledger)@),
            total(final(ledger)@) == total(old(ledger)@) + minted(old(ledger)@, author@, self@),
    {
        proof {
            lemma_conservation(ledger@, author@, tx_hash@, self@);
        }
        if ledger.wallet(author).is_none() {
            ledger.create(author, self.name.as_str());
            Ok(())
        } else {
            Err(Error::WalletAlreadyExists)
        }
    }
}

impl TransferMultisign {
    /// Records the proposal in the sender's wallet and earmarks `amount`
    /// of its balance.
    pub fn execute(&self, ledger: &mut Ledger, author: &PublicKey, tx_hash: &Digest) -> (r: Result<
        (),
        Error,
    >)
        requires
            ledger_wf(old(ledger)@),
            fits(old(ledger)@, author@, self@),
        ensures
            r == outcome(old(ledger)@, author@, self@),
            final(ledger)@ == next(old(ledger)@, author@, tx_hash@, self@),
            ledger_wf(final(ledger)@),
            total(final(ledger)@) == total(old(ledger)@) + minted(old(ledger)@, author@, self@),
    {
        proof {
            lemma_conservation(ledger@, author@, tx_hash@, self@);
        }
        if self.from == self.to {
            return Err(Error::SenderSameAsReceiver);
        }
        proof {
            lemma_find(ledger@, self.from@);
        }
        let sender = match ledger.wallet(&self.from) {
            Some(w) => w,
            None => return Err(Error::SenderNotFound),
        };
        if ledger.wallet(&self.to).is_none() {
            return Err(Error::ReceiverNotFound);
        }
        if !is_approver(&self.approvers, author) {
            return Err(Error::SenderNotFound);
        }
        if sender.balance - sender.pending_balance < self.amount {
            return Err(Error::InsufficientCurrencyAmount);
        }
        ledger.reserve(&self.from, self.amount, tx_hash);
        Ok(())
    }
}

impl AcceptMultisign {
    /// Closes the proposal and moves the sender's balance that is not
    /// earmarked to the receiver.
    pub fn execute(&self, ledger: &mut Ledger, author: &PublicKey) -> (r: Result<(), Error>)
        requires
            ledger_wf(old(ledger)@),
            fits(old(ledger)@, author@, self@),
        ensures
            r == outcome(old(ledger)@, author@, self@),
            final(ledger)@ == next(old(ledger)@, author@, self.tx_hash@, self@),
            ledger_wf(final(ledger)@),
            total(final(ledger)@) == total(old(ledger)@) + minted(old(ledger)@, author@, self@),
    {
        proof {
            lemma_conservation(ledger@, author@, self.tx_hash@, self@);
        }
        if self.from == self.to {
            return Err(Error::SenderSameAsReceiver);
        }
        proof {
            lemma_find(ledger@, self.from@);
        }
        let sender = match ledger.wallet(&self.from) {
            Some(w) => w,
            None => return Err(Error::SenderNotFound),
        };
        if ledger.wallet(&self.to).is_none() {
            return Err(Error::ReceiverNotFound);
        }
        if !sender.has_pending_tx(&self.tx_hash) {
            return Err(Error::SenderNotFound);
        }
        if !is_approver(&self.approvers, author) {
            return Err(Error::SenderNotFound);
        }
        let ghost s = ledger@;
        let ghost from = self.from@;
        let ghost to = self.to@;
        let ghost p = self.tx_hash@;
        ledger.release(&self.from, &self.tx_hash);
        let ghost s1 = ledger@;
        proof {
            lemma_put(s, from, released(get(s, from), p), to);
        }
        let amount = sender.balance - sender.pending_balance;
        ledger.debit(&self.from, amount, &self.tx_hash);
        proof {
            lemma_put(s1, from, debited(get(s1, from), amount, p), to);
        }
        ledger.credit(&self.to, amount, &self.tx_hash);
        Ok(())
    }
}

impl WalletTransactions {
    /// Executes this transaction, authored by `author` and with hash
    /// `tx_hash`, on `ledger`.
    pub fn execute(&self, ledger: &mut Ledger, author: &PublicKey, tx_hash: &Digest) -> (r: Result<
        (),
        Error,
    >)
        requires
            ledger_wf(old(ledger)@),
            fits(old(ledger)@, author@, self@),
        ensures
            r == outcome(old(ledger)@, author@, self@),
            final(ledger)@ == next(old(ledger)@, author@, tx_hash@, self@),
            ledger_wf(final(ledger)@),
            total(final(ledger)@) == total(old(ledger)@) + minted(old(ledger)@, author@, self@),
    {
        proof {
            lemma_conservation(ledger@, author@, tx_hash@, self@);
        }
        match self {
            WalletTransactions::Transfer(t) => t.execute(ledger, author, tx_hash),
            WalletTransactions::TransferMultisign(t) => t.execute(ledger, author, tx_hash),
            WalletTransactions::AcceptMultisign(t) => t.execute(ledger, author),
            WalletTransactions::Issue(t) => t.execute(ledger, author, tx_hash),
            WalletTransactions::CreateWallet(t) => t.execute(ledger, author, tx_hash),
        }
    }

    /// Whether executing this transaction keeps every counter it changes
    /// within `u64`: the condition `execute` asks for.
    pub fn counters_fit(&self, ledger: &Ledger, author: &PublicKey) -> (r: bool)
        requires
            ledger_wf(ledger@),
        ensures
            r == fits(ledger@, author@, self@),
    {
        match self {
            WalletTransactions::CreateWallet(_) => true,
            WalletTransactions::Issue(t) => match ledger.wallet(author) {
                Some(w) => w.balance <= u64::MAX - t.amount && w.history_len < u64::MAX,
                None => true,
            },
            WalletTransactions::Transfer(t) => {
                if *author == t.to {
                    return true;
                }
                proof {
                    lemma_find(ledger@, author@);
                }
                let (sender, receiver) = match (ledger.wallet(author), ledger.wallet(&t.to)) {
                    (Some(a), Some(b)) => (a, b),
                    _ => return true,
                };
                sender.balance - sender.pending_balance < t.amount || (receiver.balance <= u64::MAX - t.amount
                    && sender.history_len < u64::MAX && receiver.history_len < u64::MAX)
            },
            WalletTransactions::TransferMultisign(_) => true,
            WalletTransactions::AcceptMultisign(t) => {
                if t.from == t.to {
                    return true;
                }
                let (sender, receiver) = match (ledger.wallet(&t.from), ledger.wallet(&t.to)) {
                    (Some(a), Some(b)) => (a, b),
                    _ => return true,
                };
                proof {
                    lemma_find(ledger@, t.from@);
                }
                if !sender.has_pending_tx(&t.tx_hash) || !is_approver(&t.approvers, author) {
                    return true;
                }
                receiver.balance <= u64::MAX - (
                sender.balance - sender.pending_balance) && sender.history_len < u64::MAX
                    && receiver.history_len < u64::MAX
            },
        }
    }

    /// Keys of the wallets whose history this transaction extends when it
    /// succeeds: those it credits or debits.
    pub fn history_keys(&self, author: &PublicKey) -> (r: Vec<PublicKey>)
        ensures
            keys_view(r@) == history_keys(author@, self@),
    {
        let mut r: Vec<PublicKey> = Vec::new();
        match self {
            WalletTransactions::Transfer(t) => {
                r.push(*author);
                r.push(t.to);
            },
            WalletTransactions::AcceptMultisign(t) => {
                r.push(t.from);
                r.push(t.to);
            },
            WalletTransactions::Issue(_) => {
                r.push(*author);
            },
            _ => {},
        }
        assert(keys_view(r@) =~= history_keys(author@, self@));
        r
    }
}

} // verus!
