//! The ledger: every wallet with its history, and the primitive mutations
//! that transactions are built from. The ledger decides nothing; the
//! transactions check every precondition before they call it.
use vstd::prelude::*;
use crate::keys::{zero_digest, Digest, PublicKey};
use crate::wallet::{remove_first, Wallet, WalletView};

verus! {

/// A wallet together with the hashes of the transactions that changed its
/// balance, oldest first.
pub struct AccountView {
    pub wallet: WalletView,
    pub history: Seq<Seq<u8>>,
}

/// Index of the last account with key `k`, or -1 where there is none.
pub open spec fn find(s: Seq<AccountView>, k: Seq<u8>) -> int
    decreases s.len(),
{
    if s.len() == 0 {
        -1
    } else if s.last().wallet.pub_key == k {
        s.len() - 1
    } else {
        find(s.drop_last(), k)
    }
}

/// Whether an account with key `k` exists.
pub open spec fn present(s: Seq<AccountView>, k: Seq<u8>) -> bool {
    find(s, k) >= 0
}

/// The account with key `k`.
pub open spec fn get(s: Seq<AccountView>, k: Seq<u8>) -> AccountView {
    s[find(s, k)]
}

/// Every wallet's earmarked balance is covered by its balance.
pub open spec fn covered(s: Seq<AccountView>) -> bool {
    forall|i: int| 0 <= i < s.len() ==> s[i].wallet.pending_balance <= s[i].wallet.balance
}

/// No two accounts share a key, each wallet's history length is that of
/// its recorded history, and each earmarked balance is covered.
pub open spec fn ledger_wf(s: Seq<AccountView>) -> bool {
    &&& forall|i: int, j: int|
        0 <= i < s.len() && 0 <= j < s.len() && i != j ==> s[i].wallet.pub_key
            != s[j].wallet.pub_key
    &&& forall|i: int| 0 <= i < s.len() ==> s[i].wallet.history_len == s[i].history.len()
    &&& covered(s)
}

/// Sum of all balances.
pub open spec fn total(s: Seq<AccountView>) -> int
    decreases s.len(),
{
    if s.len() == 0 {
        0
    } else {
        total(s.drop_last()) + s.last().wallet.balance
    }
}

/// A fresh account: no funds, no proposals, no history.
pub open spec fn fresh(k: Seq<u8>, name: Seq<char>, digest: Seq<u8>) -> AccountView {
    AccountView {
        wallet: WalletView {
            pub_key: k,
            name,
            balance: 0,
            pending_balance: 0,
            pending_txs: Seq::empty(),
            history_len: 0,
            history_hash: digest,
        },
        history: Seq::empty(),
    }
}

/// `a` with `amount` added to its balance, caused by `cause`.
pub open spec fn credited(a: AccountView, amount: u64, cause: Seq<u8>) -> AccountView {
    AccountView {
        wallet: WalletView {
            balance: (a.wallet.balance + amount) as u64,
            history_len: (a.wallet.history_len + 1) as u64,
            ..a.wallet
        },
        history: a.history.push(cause),
    }
}

/// `a` with `amount` taken from its balance, caused by `cause`.
pub open spec fn debited(a: AccountView, amount: u64, cause: Seq<u8>) -> AccountView {
    AccountView {
        wallet: WalletView {
            balance: (a.wallet.balance - amount) as u64,
            history_len: (a.wallet.history_len + 1) as u64,
            ..a.wallet
        },
        history: a.history.push(cause),
    }
}

/// `a` with proposal `proposal` outstanding and `amount` more earmarked.
pub open spec fn reserved(a: AccountView, amount: u64, proposal: Seq<u8>) -> AccountView {
    AccountView {
        wallet: WalletView {
            pending_balance: (a.wallet.pending_balance + amount) as u64,
            pending_txs: a.wallet.pending_txs.push(proposal),
            ..a.wallet
        },
        ..a
    }
}

/// `a` with proposal `proposal` no longer outstanding.
pub open spec fn released(a: AccountView, proposal: Seq<u8>) -> AccountView {
    AccountView {
        wallet: WalletView { pending_txs: remove_first(a.wallet.pending_txs, proposal), ..a.wallet },
        ..a
    }
}

/// `s` with the account of key `k` replaced by `a`.
pub open spec fn put(s: Seq<AccountView>, k: Seq<u8>, a: AccountView) -> Seq<AccountView> {
    s.update(find(s, k), a)
}

pub proof fn lemma_find(s: Seq<AccountView>, k: Seq<u8>)
    ensures
        -1 <= find(s, k) < s.len(),
        find(s, k) >= 0 ==> s[find(s, k)].wallet.pub_key == k,
        find(s, k) < 0 ==> forall|i: int| 0 <= i < s.len() ==> s[i].wallet.pub_key != k,
    decreases s.len(),
{
    if s.len() > 0 {
        lemma_find(s.drop_last(), k);
        assert forall|i: int| 0 <= i < s.len() - 1 implies s[i] == s.drop_last()[i] by {}
    }
}

pub proof fn lemma_total_update(s: Seq<AccountView>, i: int, a: AccountView)
    requires
        0 <= i < s.len(),
    ensures
        total(s.update(i, a)) == total(s) - s[i].wallet.balance + a.wallet.balance,
    decreases s.len(),
{
    let t = s.update(i, a);
    if i == s.len() - 1 {
        assert(t.drop_last() =~= s.drop_last());
    } else {
        lemma_total_update(s.drop_last(), i, a);
        assert(t.drop_last() =~= s.drop_last().update(i, a));
    }
}

/// Finding a key after one account changed, keeping its key.
pub proof fn lemma_find_put(s: Seq<AccountView>, k: Seq<u8>, a: AccountView, q: Seq<u8>)
    requires
        present(s, k),
        a.wallet.pub_key == k,
    ensures
        find(put(s, k, a), q) == find(s, q),
    decreases s.len(),
{
    lemma_find(s, k);
    let t = put(s, k, a);
    if find(s, k) == s.len() - 1 {
        assert(t.drop_last() =~= s.drop_last());
    } else {
        lemma_find(s.drop_last(), k);
        assert(t.drop_last() =~= put(s.drop_last(), k, a));
        lemma_find_put(s.drop_last(), k, a, q);
    }
}

/// Replacing one account, keeping its key, changes no other lookup.
pub proof fn lemma_put(s: Seq<AccountView>, k: Seq<u8>, a: AccountView, q: Seq<u8>)
    requires
        present(s, k),
        a.wallet.pub_key == get(s, k).wallet.pub_key,
    ensures
        put(s, k, a).len() == s.len(),
        find(put(s, k, a), q) == find(s, q),
        present(put(s, k, a), k),
        get(put(s, k, a), k) == a,
        q != k && present(s, q) ==> get(put(s, k, a), q) == get(s, q),
{
    lemma_find(s, k);
    lemma_find_put(s, k, a, q);
    lemma_find_put(s, k, a, k);
    lemma_find(s, q);
}

proof fn lemma_put_wf(s: Seq<AccountView>, k: Seq<u8>, a: AccountView)
    requires
        present(s, k),
        a.wallet.pub_key == k,
        ledger_wf(s) ==> a.wallet.history_len == a.history.len(),
        ledger_wf(s) ==> a.wallet.pending_balance <= a.wallet.balance,
    ensures
        ledger_wf(s) ==> ledger_wf(put(s, k, a)),
{
    lemma_find(s, k);
}

struct Entry {
    wallet: Wallet,
    history: Vec<Digest>,
}

impl Entry {
    spec fn view(&self) -> AccountView {
        AccountView { wallet: self.wallet@, history: self.history@.map_values(|h: Digest| h@) }
    }
}

/// Every wallet of the ledger, in the order of creation.
pub struct Ledger {
    entries: Vec<Entry>,
}

impl View for Ledger {
    type V = Seq<AccountView>;

    closed spec fn view(&self) -> Seq<AccountView> {
        self.entries@.map_values(|e: Entry| e.view())
    }
}

impl Ledger {
    /// A ledger without wallets.
    pub fn new() -> (r: Ledger)
        ensures
            r@ == Seq::<AccountView>::empty(),
            ledger_wf(r@),
    {
        let r = Ledger { entries: Vec::new() };
        assert(r@ =~= Seq::<AccountView>::empty());
        r
    }

    /// Position of the wallet with key `key`, searching from the newest.
    fn index_of(&self, key: &PublicKey) -> (r: Option<usize>)
        ensures
            match r {
                Some(i) => i == find(self@, key@) && i < self.entries@.len(),
                None => !present(self@, key@),
            },
    {
        let mut i: usize = self.entries.len();
        assert(self@.subrange(0, i as int) =~= self@);
        while i > 0
            invariant
                0 <= i <= self@.len(),
                self@.len() == self.entries@.len(),
                find(self@, key@) == find(self@.subrange(0, i as int), key@),
            decreases i,
        {
            let ghost t = self@.subrange(0, i as int);
            assert(t.drop_last() =~= self@.subrange(0, i - 1));
            assert(self@[i - 1] == self.entries@[i - 1].view());
            if self.entries[i - 1].wallet.pub_key == *key {
                return Some(i - 1);
            }
            i -= 1;
        }
        None
    }

    /// A copy of the wallet with key `key`, if there is one.
    pub fn wallet(&self, key: &PublicKey) -> (r: Option<Wallet>)
        ensures
            match r {
                Some(w) => present(self@, key@) && w@ == get(self@, key@).wallet,
                None => !present(self@, key@),
            },
    {
        match self.index_of(key) {
            Some(i) => {
                let w = &self.entries[i].wallet;
                assert(self@[i as int] == self.entries@[i as int].view());
                Some(
                    Wallet::new(
                        &w.pub_key,
                        w.name.as_str(),
                        w.balance,
                        w.pending_balance,
                        w.pending_txs.as_slice(),
                        w.history_len,
                        &w.history_hash,
                    ),
                )
            },
            None => None,
        }
    }

    /// A copy of the recorded history of the wallet with key `key`.
    pub fn history(&self, key: &PublicKey) -> (r: Option<Vec<Digest>>)
        ensures
            match r {
                Some(h) => present(self@, key@) && h@.map_values(|d: Digest| d@) == get(
                    self@,
                    key@,
                ).history,
                None => !present(self@, key@),
            },
    {
        match self.index_of(key) {
            Some(i) => {
                assert(self@[i as int] == self.entries@[i as int].view());
                Some(vstd::slice::slice_to_vec(self.entries[i].history.as_slice()))
            },
            None => None,
        }
    }

    /// Takes the entry at `i` out; `put_back` returns it.
    fn take(&mut self, i: usize) -> (e: Entry)
        requires
            i < old(self)@.len(),
        ensures
            e.view() == old(self)@[i as int],
            final(self).entries@ == old(self).entries@.remove(i as int),
    {
        assert(old(self)@[i as int] == old(self).entries@[i as int].view());
        self.entries.remove(i)
    }

    fn put_back(&mut self, i: usize, e: Entry, Ghost(before): Ghost<Seq<AccountView>>)
        requires
            i < before.len(),
            old(self).entries@.len() + 1 == before.len(),
            forall|j: int| 0 <= j < i ==> old(self).entries@[j].view() == before[j],
            forall|j: int| i <= j < old(self).entries@.len() ==> old(self).entries@[j].view() == before[j + 1],
        ensures
            final(self)@ == before.update(i as int, e.view()),
    {
        self.entries.insert(i, e);
        assert(self@ =~= before.update(i as int, e.view()));
    }

    /// Adds a fresh wallet with key `key` and name `name`.
    pub fn create(&mut self, key: &PublicKey, name: &str)
        requires
            ledger_wf(old(self)@),
            !present(old(self)@, key@),
        ensures
            final(self)@ == old(self)@.push(fresh(key@, name@, zero_digest())),
            ledger_wf(final(self)@),
    {
        let empty: Vec<Digest> = Vec::new();
        let wallet = Wallet::new(key, name, 0, 0, empty.as_slice(), 0, &Digest::zero());
        let e = Entry { wallet, history: Vec::new() };
        self.entries.push(e);
        proof {
            lemma_find(old(self)@, key@);
            assert(e.view().wallet.pending_txs =~= Seq::<Seq<u8>>::empty());
            assert(e.view().history =~= Seq::<Seq<u8>>::empty());
            assert(self@ =~= old(self)@.push(fresh(key@, name@, zero_digest())));
        }
    }

    /// Adds `amount` to the balance of the wallet with key `key`, and
    /// records `cause` in its history. The history digest is left as it
    /// was: the caller refreshes it with `set_history_hash`.
    pub fn credit(&mut self, key: &PublicKey, amount: u64, cause: &Digest)
        requires
            ledger_wf(old(self)@),
            present(old(self)@, key@),
            get(old(self)@, key@).wallet.balance + amount <= u64::MAX,
            get(old(self)@, key@).wallet.history_len < u64::MAX,
        ensures
            final(self)@ == put(old(self)@, key@, credited(get(old(self)@, key@), amount, cause@)),
            ledger_wf(final(self)@),
    {
        let i = self.index_of(key).unwrap();
        let ghost before = self@;
        let e = self.take(i);
        let Entry { wallet, mut history } = e;
        let balance = wallet.balance + amount;
        let digest = wallet.history_hash;
        let wallet = wallet.set_balance(balance, &digest);
        history.push(*cause);
        let ne = Entry { wallet, history };
        assert(ne.view().history =~= e.view().history.push(cause@));
        self.put_back(i, ne, Ghost(before));
        proof {
            lemma_find(before, key@);
            lemma_put_wf(before, key@, credited(get(before, key@), amount, cause@));
        }
    }

    /// Takes `amount` from the balance of the wallet with key `key`, and
    /// records `cause` in its history; the part taken must not be
    /// earmarked. The history digest is left as it was: the caller
    /// refreshes it with `set_history_hash`.
    pub fn debit(&mut self, key: &PublicKey, amount: u64, cause: &Digest)
        requires
            ledger_wf(old(self)@),
            present(old(self)@, key@),
            get(old(self)@, key@).wallet.pending_balance + amount <= get(old(self)@, key@).wallet.balance,
            get(old(self)@, key@).wallet.history_len < u64::MAX,
        ensures
            final(self)@ == put(old(self)@, key@, debited(get(old(self)@, key@), amount, cause@)),
            ledger_wf(final(self)@),
    {
        let i = self.index_of(key).unwrap();
        let ghost before = self@;
        let e = self.take(i);
        let Entry { wallet, mut history } = e;
        let balance = wallet.balance - amount;
        let digest = wallet.history_hash;
        let wallet = wallet.set_balance(balance, &digest);
        history.push(*cause);
        let ne = Entry { wallet, history };
        assert(ne.view().history =~= e.view().history.push(cause@));
        self.put_back(i, ne, Ghost(before));
        proof {
            lemma_find(before, key@);
            lemma_put_wf(before, key@, debited(get(before, key@), amount, cause@));
        }
    }

    /// Records proposal `proposal` as outstanding for the wallet with key
    /// `key`, and earmarks `amount` more of its balance, which must not be
    /// earmarked yet.
    /// Only `credit` and `debit` count as history entries: earmarking
    /// moves no funds, so the history length and digest stay as they were.
    pub fn reserve(&mut self, key: &PublicKey, amount: u64, proposal: &Digest)
        requires
            ledger_wf(old(self)@),
            present(old(self)@, key@),
            get(old(self)@, key@).wallet.pending_balance + amount <= get(old(self)@, key@).wallet.balance,
        ensures
            final(self)@ == put(old(self)@, key@, reserved(get(old(self)@, key@), amount, proposal@)),
            ledger_wf(final(self)@),
    {
        let i = self.index_of(key).unwrap();
        let ghost before = self@;
        let e = self.take(i);
        let Entry { wallet, history } = e;
        let pending = wallet.pending_balance + amount;
        let wallet = wallet.add_pending_tx(proposal).set_pending_balance(pending);
        self.put_back(i, Entry { wallet, history }, Ghost(before));
        proof {
            lemma_find(before, key@);
            lemma_put_wf(before, key@, reserved(get(before, key@), amount, proposal@));
        }
    }

    /// Takes proposal `proposal` out of the outstanding proposals of the
    /// wallet with key `key`. Like `reserve`, it moves no funds and leaves the
    /// history length and digest as they were.
    pub fn release(&mut self, key: &PublicKey, proposal: &Digest)
        requires
            ledger_wf(old(self)@),
            present(old(self)@, key@),
        ensures
            final(self)@ == put(old(self)@, key@, released(get(old(self)@, key@), proposal@)),
            ledger_wf(final(self)@),
    {
        let i = self.index_of(key).unwrap();
        let ghost before = self@;
        let e = self.take(i);
        let Entry { wallet, history } = e;
        let wallet = wallet.delete_pending_tx(proposal);
        self.put_back(i, Entry { wallet, history }, Ghost(before));
        proof {
            lemma_find(before, key@);
            lemma_put_wf(before, key@, released(get(before, key@), proposal@));
        }
    }

    /// Stores `digest` as the history digest of the wallet with key `key`.
    pub fn set_history_hash(&mut self, key: &PublicKey, digest: &Digest)
        requires
            ledger_wf(old(self)@),
            present(old(self)@, key@),
        ensures
            final(self)@ == put(
                old(self)@,
                key@,
                AccountView {
                    wallet: WalletView { history_hash: digest@, ..get(old(self)@, key@).wallet },
                    ..get(old(self)@, key@)
                },
            ),
            ledger_wf(final(self)@),
    {
        let i = self.index_of(key).unwrap();
        let ghost before = self@;
        let e = self.take(i);
        let Entry { wallet, history } = e;
        let wallet = Wallet { history_hash: *digest, ..wallet };
        let ghost a = AccountView {
            wallet: WalletView { history_hash: digest@, ..get(before, key@).wallet },
            ..get(before, key@)
        };
        self.put_back(i, Entry { wallet, history }, Ghost(before));
        proof {
            lemma_find(before, key@);
            lemma_put_wf(before, key@, a);
        }
    }
}

} // verus!
