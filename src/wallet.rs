//! The wallet record: one per public key.
use vstd::prelude::*;
use crate::keys::{Digest, PublicKey};

verus! {

/// What a wallet holds, as mathematical values.
pub struct WalletView {
    pub pub_key: Seq<u8>,
    pub name: Seq<char>,
    pub balance: u64,
    pub pending_balance: u64,
    pub pending_txs: Seq<Seq<u8>>,
    pub history_len: u64,
    pub history_hash: Seq<u8>,
}

/// The views of a list of hashes.
pub open spec fn hashes_view(v: Seq<Digest>) -> Seq<Seq<u8>> {
    v.map_values(|h: Digest| h@)
}

/// `s` without the first entry equal to `h`; `s` itself where there is none.
pub open spec fn remove_first(s: Seq<Seq<u8>>, h: Seq<u8>) -> Seq<Seq<u8>>
    decreases s.len(),
{
    if s.len() == 0 {
        s
    } else if s[0] == h {
        s.drop_first()
    } else {
        seq![s[0]] + remove_first(s.drop_first(), h)
    }
}

proof fn lemma_remove_first_at(s: Seq<Seq<u8>>, h: Seq<u8>, i: int)
    requires
        0 <= i < s.len(),
        s[i] == h,
        forall|j: int| 0 <= j < i ==> s[j] != h,
    ensures
        remove_first(s, h) == s.remove(i),
    decreases i,
{
    if i > 0 {
        let t = s.drop_first();
        assert forall|j: int| 0 <= j < i - 1 implies t[j] != h by {
            assert(t[j] == s[j + 1]);
        }
        lemma_remove_first_at(t, h, i - 1);
        assert(seq![s[0]] + t.remove(i - 1) =~= s.remove(i));
    }
}

/// Where `h` occurs at most once in `s`, it does not occur after removing
/// its first occurrence.
pub proof fn lemma_remove_first_gone(s: Seq<Seq<u8>>, h: Seq<u8>)
    requires
        forall|i: int, j: int| 0 <= i < s.len() && 0 <= j < s.len() && s[i] == h && s[j] == h ==> i == j,
    ensures
        !remove_first(s, h).contains(h),
    decreases s.len(),
{
    if s.len() > 0 {
        let t = s.drop_first();
        if s[0] == h {
            if t.contains(h) {
                let k = choose|k: int| 0 <= k < t.len() && t[k] == h;
                assert(s[k + 1] == h);
            }
        } else {
            assert forall|i: int, j: int|
                0 <= i < t.len() && 0 <= j < t.len() && t[i] == h && t[j] == h implies i == j by {
                assert(s[i + 1] == h && s[j + 1] == h);
            }
            lemma_remove_first_gone(t, h);
            let r = seq![s[0]] + remove_first(t, h);
            if r.contains(h) {
                let k = choose|k: int| 0 <= k < r.len() && r[k] == h;
                if k > 0 {
                    assert(remove_first(t, h)[k - 1] == h);
                }
            }
        }
    }
}

proof fn lemma_remove_first_absent(s: Seq<Seq<u8>>, h: Seq<u8>)
    requires
        forall|j: int| 0 <= j < s.len() ==> s[j] != h,
    ensures
        remove_first(s, h) == s,
    decreases s.len(),
{
    if s.len() > 0 {
        let t = s.drop_first();
        assert forall|j: int| 0 <= j < t.len() implies t[j] != h by {
            assert(t[j] == s[j + 1]);
        }
        lemma_remove_first_absent(t, h);
        assert(seq![s[0]] + t =~= s);
    }
}

/// Index of the first entry of `v` equal to `h`, if any.
pub(crate) fn position_of(v: &Vec<Digest>, h: &Digest) -> (r: Option<usize>)
    ensures
        match r {
            Some(i) => i < v@.len() && v@[i as int]@ == h@ && forall|j: int|
                0 <= j < i ==> v@[j]@ != h@,
            None => forall|j: int| 0 <= j < v@.len() ==> v@[j]@ != h@,
        },
{
    let mut i: usize = 0;
    while i < v.len()
        invariant
            0 <= i <= v@.len(),
            forall|j: int| 0 <= j < i ==> v@[j]@ != h@,
        decreases v@.len() - i,
    {
        if v[i] == *h {
            return Some(i);
        }
        i += 1;
    }
    None
}

/// Wallet information: balance, earmarked balance, outstanding proposals
/// and the length and digest of the wallet's history.
#[derive(Clone, Debug)]
pub struct Wallet {
    /// Key of the wallet.
    pub pub_key: PublicKey,
    /// Name of the wallet.
    pub name: String,
    /// Current balance of the wallet.
    pub balance: u64,
    /// Part of the balance earmarked by outstanding multisignature proposals.
    pub pending_balance: u64,
    /// Hashes of the outstanding multisignature proposals of this wallet.
    pub pending_txs: Vec<Digest>,
    /// Length of the transactions history.
    pub history_len: u64,
    /// Digest of the transactions history.
    pub history_hash: Digest,
}

impl View for Wallet {
    type V = WalletView;

    open spec fn view(&self) -> WalletView {
        WalletView {
            pub_key: self.pub_key@,
            name: self.name@,
            balance: self.balance,
            pending_balance: self.pending_balance,
            pending_txs: hashes_view(self.pending_txs@),
            history_len: self.history_len,
            history_hash: self.history_hash@,
        }
    }
}

impl Wallet {
    /// Creates a new wallet.
    pub fn new(
        pub_key: &PublicKey,
        name: &str,
        balance: u64,
        pending_balance: u64,
        pending_txs_list: &[Digest],
        history_len: u64,
        history_hash: &Digest,
    ) -> (r: Self)
        ensures
            r@ == (WalletView {
                pub_key: pub_key@,
                name: name@,
                balance,
                pending_balance,
                pending_txs: hashes_view(pending_txs_list@),
                history_len,
                history_hash: history_hash@,
            }),
    {
        let pending_txs = vstd::slice::slice_to_vec(pending_txs_list);
        Wallet {
            pub_key: *pub_key,
            name: name.to_owned(),
            balance,
            pending_balance,
            pending_txs,
            history_len,
            history_hash: *history_hash,
        }
    }

    /// Returns this wallet with a new balance and history digest, its
    /// history one entry longer.
    pub fn set_balance(self, balance: u64, history_hash: &Digest) -> (r: Self)
        requires
            self.history_len < u64::MAX,
        ensures
            r@ == (WalletView {
                balance,
                history_len: (self.history_len + 1) as u64,
                history_hash: history_hash@,
                ..self@
            }),
    {
        let history_len = self.history_len + 1;
        Wallet { balance, history_len, history_hash: *history_hash, ..self }
    }

    /// Returns this wallet with a new pending balance.
    pub fn set_pending_balance(self, balance: u64) -> (r: Self)
        ensures
            r@ == (WalletView { pending_balance: balance, ..self@ }),
    {
        Wallet { pending_balance: balance, ..self }
    }

    /// Returns this wallet with `tx_hash` added to its outstanding proposals.
    pub fn add_pending_tx(self, tx_hash: &Digest) -> (r: Self)
        ensures
            r@ == (WalletView { pending_txs: self@.pending_txs.push(tx_hash@), ..self@ }),
    {
        let mut pending_txs = self.pending_txs;
        pending_txs.push(*tx_hash);
        assert(hashes_view(pending_txs@) =~= hashes_view(self.pending_txs@).push(tx_hash@));
        Wallet { pending_txs, ..self }
    }

    /// Returns this wallet with the first occurrence of `tx_hash` taken out
    /// of its outstanding proposals, if there is one.
    pub fn delete_pending_tx(self, tx_hash: &Digest) -> (r: Self)
        ensures
            r@ == (WalletView {
                pending_txs: remove_first(self@.pending_txs, tx_hash@),
                ..self@
            }),
    {
        let mut pending_txs = self.pending_txs;
        let ghost s = hashes_view(pending_txs@);
        match position_of(&pending_txs, tx_hash) {
            Some(i) => {
                proof {
                    lemma_remove_first_at(s, tx_hash@, i as int);
                }
                pending_txs.remove(i);
                assert(hashes_view(pending_txs@) =~= s.remove(i as int));
            },
            None => {
                proof {
                    lemma_remove_first_absent(s, tx_hash@);
                }
            },
        }
        Wallet { pending_txs, ..self }
    }

    /// Whether `tx_hash` is among the outstanding proposals of this wallet.
    pub fn has_pending_tx(&self, tx_hash: &Digest) -> (r: bool)
        ensures
            r == self@.pending_txs.contains(tx_hash@),
    {
        let ghost s = self@.pending_txs;
        match position_of(&self.pending_txs, tx_hash) {
            Some(i) => {
                assert(s[i as int] == tx_hash@);
                true
            },
            None => {
                assert(!s.contains(tx_hash@)) by {
                    if s.contains(tx_hash@) {
                        let j = choose|j: int| 0 <= j < s.len() && s[j] == tx_hash@;
                        assert(self.pending_txs@[j]@ == tx_hash@);
                    }
                }
                false
            },
        }
    }
}

} // verus!
