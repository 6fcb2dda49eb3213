use cryptocurrency::keys::{Digest, PublicKey};
use cryptocurrency::ledger::Ledger;
use cryptocurrency::transactions::{
    AcceptMultisign, CreateWallet, Error, Issue, Transfer, TransferMultisign, WalletTransactions,
};
use cryptocurrency::wallet::Wallet;

fn key(n: u8) -> PublicKey {
    PublicKey::new([n; 32])
}

fn digest(n: u8) -> Digest {
    Digest::new([n; 32])
}

fn create(ledger: &mut Ledger, who: u8, name: &str, h: u8) -> Result<(), Error> {
    CreateWallet { name: name.to_string() }.execute(ledger, &key(who), &digest(h))
}

fn issue(ledger: &mut Ledger, who: u8, amount: u64, h: u8) -> Result<(), Error> {
    Issue { amount, seed: 0 }.execute(ledger, &key(who), &digest(h))
}

fn transfer(ledger: &mut Ledger, from: u8, to: u8, amount: u64, h: u8) -> Result<(), Error> {
    Transfer { to: key(to), amount, seed: 0 }.execute(ledger, &key(from), &digest(h))
}

fn wallet(ledger: &Ledger, who: u8) -> Wallet {
    ledger.wallet(&key(who)).expect("wallet exists")
}

fn alice_and_bob(alice_balance: u64) -> Ledger {
    let mut ledger = Ledger::new();
    create(&mut ledger, 1, "alice", 100).unwrap();
    create(&mut ledger, 2, "bob", 101).unwrap();
    if alice_balance > 0 {
        issue(&mut ledger, 1, alice_balance, 102).unwrap();
    }
    ledger
}

fn total(ledger: &Ledger, who: &[u8]) -> u64 {
    who.iter().map(|w| wallet(ledger, *w).balance).sum()
}

#[test]
fn create_twice_fails() {
    let mut ledger = Ledger::new();
    assert_eq!(create(&mut ledger, 1, "alice", 1), Ok(()));
    assert_eq!(create(&mut ledger, 1, "alice", 2), Err(Error::WalletAlreadyExists));
    let w = wallet(&ledger, 1);
    assert_eq!(w.balance, 0);
    assert_eq!(w.pending_balance, 0);
    assert_eq!(w.name, "alice");
    assert!(w.pending_txs.is_empty());
    assert_eq!(w.history_len, 0);
    assert_eq!(w.history_hash, Digest::zero());
}

#[test]
fn transfer_moves_funds() {
    let mut ledger = alice_and_bob(100);
    assert_eq!(transfer(&mut ledger, 1, 2, 30, 7), Ok(()));
    assert_eq!(wallet(&ledger, 1).balance, 70);
    assert_eq!(wallet(&ledger, 2).balance, 30);
    assert_eq!(wallet(&ledger, 1).history_len, 2);
    assert_eq!(wallet(&ledger, 2).history_len, 1);
    assert_eq!(ledger.history(&key(2)).unwrap(), vec![digest(7)]);
    assert_eq!(ledger.history(&key(1)).unwrap(), vec![digest(102), digest(7)]);
}

#[test]
fn transfer_over_balance_fails() {
    let mut ledger = alice_and_bob(100);
    assert_eq!(transfer(&mut ledger, 1, 2, 150, 7), Err(Error::InsufficientCurrencyAmount));
    assert_eq!(wallet(&ledger, 1).balance, 100);
    assert_eq!(wallet(&ledger, 2).balance, 0);
}

#[test]
fn multisig_propose_then_accept() {
    let mut ledger = alice_and_bob(100);
    let carol = key(3);
    let proposal = digest(50);
    let propose = TransferMultisign {
        from: key(1),
        to: key(2),
        approvers: vec![carol],
        amount: 40,
        seed: 1,
    };
    assert_eq!(propose.execute(&mut ledger, &carol, &proposal), Ok(()));
    let a = wallet(&ledger, 1);
    assert_eq!(a.pending_balance, 40);
    assert_eq!(a.pending_txs, vec![proposal]);
    assert_eq!(a.balance, 100);

    let accept = AcceptMultisign {
        tx_hash: proposal,
        from: key(1),
        to: key(2),
        approvers: vec![carol],
        seed: 2,
    };
    assert_eq!(accept.execute(&mut ledger, &carol), Ok(()));
    let a = wallet(&ledger, 1);
    assert_eq!(a.balance, 40);
    assert_eq!(a.pending_balance, 40);
    assert!(a.pending_txs.is_empty());
    assert_eq!(wallet(&ledger, 2).balance, 60);
    assert_eq!(ledger.history(&key(2)).unwrap(), vec![proposal]);
}

#[test]
fn accept_twice_fails() {
    let mut ledger = alice_and_bob(100);
    let carol = key(3);
    let proposal = digest(50);
    let propose =
        TransferMultisign { from: key(1), to: key(2), approvers: vec![carol], amount: 40, seed: 1 };
    propose.execute(&mut ledger, &carol, &proposal).unwrap();
    let accept =
        AcceptMultisign { tx_hash: proposal, from: key(1), to: key(2), approvers: vec![carol], seed: 2 };
    accept.execute(&mut ledger, &carol).unwrap();
    assert_eq!(accept.execute(&mut ledger, &carol), Err(Error::SenderNotFound));
    assert_eq!(wallet(&ledger, 2).balance, 60);
}

#[test]
fn accept_by_stranger_fails() {
    let mut ledger = alice_and_bob(100);
    let carol = key(3);
    let proposal = digest(50);
    TransferMultisign { from: key(1), to: key(2), approvers: vec![carol], amount: 40, seed: 1 }
        .execute(&mut ledger, &carol, &proposal)
        .unwrap();
    let accept =
        AcceptMultisign { tx_hash: proposal, from: key(1), to: key(2), approvers: vec![carol], seed: 2 };
    assert_eq!(accept.execute(&mut ledger, &key(9)), Err(Error::SenderNotFound));
    assert_eq!(wallet(&ledger, 1).pending_txs, vec![proposal]);
    assert_eq!(wallet(&ledger, 1).balance, 100);
}

#[test]
fn propose_errors() {
    let mut ledger = alice_and_bob(100);
    let carol = key(3);
    let p = |from: u8, to: u8, amount: u64| TransferMultisign {
        from: key(from),
        to: key(to),
        approvers: vec![carol],
        amount,
        seed: 0,
    };
    assert_eq!(p(1, 1, 10).execute(&mut ledger, &carol, &digest(9)), Err(Error::SenderSameAsReceiver));
    assert_eq!(p(5, 2, 10).execute(&mut ledger, &carol, &digest(9)), Err(Error::SenderNotFound));
    assert_eq!(p(1, 5, 10).execute(&mut ledger, &carol, &digest(9)), Err(Error::ReceiverNotFound));
    assert_eq!(p(1, 2, 10).execute(&mut ledger, &key(4), &digest(9)), Err(Error::SenderNotFound));
    assert_eq!(
        p(1, 2, 101).execute(&mut ledger, &carol, &digest(9)),
        Err(Error::InsufficientCurrencyAmount)
    );
    let a = wallet(&ledger, 1);
    assert_eq!(a.pending_balance, 0);
    assert!(a.pending_txs.is_empty());
}

#[test]
fn accept_errors() {
    let mut ledger = alice_and_bob(100);
    let carol = key(3);
    let a = |from: u8, to: u8, h: u8| AcceptMultisign {
        tx_hash: digest(h),
        from: key(from),
        to: key(to),
        approvers: vec![carol],
        seed: 0,
    };
    assert_eq!(a(1, 1, 50).execute(&mut ledger, &carol), Err(Error::SenderSameAsReceiver));
    assert_eq!(a(5, 2, 50).execute(&mut ledger, &carol), Err(Error::SenderNotFound));
    assert_eq!(a(1, 5, 50).execute(&mut ledger, &carol), Err(Error::ReceiverNotFound));
    assert_eq!(a(1, 2, 50).execute(&mut ledger, &carol), Err(Error::SenderNotFound));
    assert_eq!(wallet(&ledger, 1).balance, 100);
    assert_eq!(wallet(&ledger, 2).balance, 0);
}

#[test]
fn transfer_errors() {
    let mut ledger = alice_and_bob(100);
    assert_eq!(transfer(&mut ledger, 1, 1, 10, 7), Err(Error::SenderSameAsReceiver));
    assert_eq!(transfer(&mut ledger, 5, 1, 10, 7), Err(Error::SenderNotFound));
    assert_eq!(transfer(&mut ledger, 1, 5, 10, 7), Err(Error::ReceiverNotFound));
    assert_eq!(wallet(&ledger, 1).balance, 100);
}

#[test]
fn issue_without_wallet_fails() {
    let mut ledger = Ledger::new();
    assert_eq!(issue(&mut ledger, 1, 10, 1), Err(Error::SenderNotFound));
    assert!(ledger.wallet(&key(1)).is_none());
}

#[test]
fn issue_raises_total_by_amount() {
    let mut ledger = alice_and_bob(100);
    let before = total(&ledger, &[1, 2]);
    issue(&mut ledger, 2, 25, 8).unwrap();
    assert_eq!(total(&ledger, &[1, 2]), before + 25);
    assert_eq!(wallet(&ledger, 2).history_len, 1);
}

#[test]
fn transfers_keep_total() {
    let mut ledger = alice_and_bob(100);
    create(&mut ledger, 3, "carol", 103).unwrap();
    transfer(&mut ledger, 1, 2, 30, 10).unwrap();
    transfer(&mut ledger, 2, 3, 10, 11).unwrap();
    assert!(transfer(&mut ledger, 3, 1, 11, 12).is_err());
    TransferMultisign { from: key(1), to: key(3), approvers: vec![key(2)], amount: 20, seed: 0 }
        .execute(&mut ledger, &key(2), &digest(13))
        .unwrap();
    AcceptMultisign { tx_hash: digest(13), from: key(1), to: key(3), approvers: vec![key(2)], seed: 0 }
        .execute(&mut ledger, &key(2))
        .unwrap();
    assert_eq!(total(&ledger, &[1, 2, 3]), 100);
    assert_eq!(wallet(&ledger, 1).balance, 20);
    assert_eq!(wallet(&ledger, 3).balance, 60);
}

#[test]
fn earmark_stays_covered() {
    let mut ledger = alice_and_bob(100);
    TransferMultisign { from: key(1), to: key(2), approvers: vec![key(2)], amount: 30, seed: 0 }
        .execute(&mut ledger, &key(2), &digest(20))
        .unwrap();
    transfer(&mut ledger, 1, 2, 70, 21).unwrap();
    issue(&mut ledger, 1, 5, 22).unwrap();
    for who in [1u8, 2] {
        let w = wallet(&ledger, who);
        assert!(w.pending_balance <= w.balance);
    }
}

#[test]
fn rejection_repeats_without_change() {
    let mut ledger = alice_and_bob(100);
    let before = wallet(&ledger, 1);
    for h in 0..3u8 {
        assert_eq!(transfer(&mut ledger, 1, 2, 500, h), Err(Error::InsufficientCurrencyAmount));
        assert_eq!(create(&mut ledger, 1, "again", h), Err(Error::WalletAlreadyExists));
    }
    let after = wallet(&ledger, 1);
    assert_eq!(after.balance, before.balance);
    assert_eq!(after.history_len, before.history_len);
    assert_eq!(after.name, "alice");
}

#[test]
fn self_transfer_rejected_whatever_balance() {
    for balance in [0u64, 5, u64::MAX] {
        let mut ledger = alice_and_bob(balance);
        assert_eq!(transfer(&mut ledger, 1, 1, 1, 7), Err(Error::SenderSameAsReceiver));
        assert_eq!(transfer(&mut ledger, 1, 1, 0, 7), Err(Error::SenderSameAsReceiver));
        assert_eq!(wallet(&ledger, 1).balance, balance);
    }
}

#[test]
fn dispatch_through_enum() {
    let mut ledger = Ledger::new();
    let author = key(1);
    let tx = WalletTransactions::CreateWallet(CreateWallet { name: "alice".to_string() });
    assert_eq!(tx.execute(&mut ledger, &author, &digest(1)), Ok(()));
    let tx = WalletTransactions::Issue(Issue { amount: 9, seed: 3 });
    assert_eq!(tx.execute(&mut ledger, &author, &digest(2)), Ok(()));
    assert_eq!(tx.history_keys(&author), vec![author]);
    assert_eq!(wallet(&ledger, 1).balance, 9);
    let tx = WalletTransactions::Transfer(Transfer { to: key(2), amount: 1, seed: 0 });
    assert_eq!(tx.execute(&mut ledger, &author, &digest(3)), Err(Error::ReceiverNotFound));
    assert_eq!(tx.history_keys(&author), vec![author, key(2)]);
}

#[test]
fn error_codes_are_distinct() {
    let codes = [
        Error::WalletAlreadyExists.code(),
        Error::SenderNotFound.code(),
        Error::ReceiverNotFound.code(),
        Error::InsufficientCurrencyAmount.code(),
        Error::SenderSameAsReceiver.code(),
    ];
    assert_eq!(codes, [0, 1, 2, 3, 4]);
}

#[test]
fn wallet_setters() {
    let w = Wallet::new(&key(1), "w", 10, 2, &[digest(1), digest(2), digest(1)], 4, &digest(0));
    let w = w.set_balance(12, &digest(9));
    assert_eq!((w.balance, w.history_len, w.history_hash), (12, 5, digest(9)));
    let w = w.set_pending_balance(7);
    assert_eq!(w.pending_balance, 7);
    let w = w.add_pending_tx(&digest(3));
    assert_eq!(w.pending_txs, vec![digest(1), digest(2), digest(1), digest(3)]);
    let w = w.delete_pending_tx(&digest(1));
    assert_eq!(w.pending_txs, vec![digest(2), digest(1), digest(3)]);
    let w = w.delete_pending_tx(&digest(8));
    assert_eq!(w.pending_txs.len(), 3);
    assert!(w.has_pending_tx(&digest(3)));
    assert!(!w.has_pending_tx(&digest(8)));
}

#[test]
fn history_hash_can_be_refreshed() {
    let mut ledger = alice_and_bob(10);
    ledger.set_history_hash(&key(1), &digest(77));
    assert_eq!(wallet(&ledger, 1).history_hash, digest(77));
    assert_eq!(wallet(&ledger, 1).balance, 10);
}

#[test]
fn counters_fit_detects_overflow() {
    let ledger = alice_and_bob(1);
    let author = key(1);
    let big = WalletTransactions::Issue(Issue { amount: u64::MAX, seed: 0 });
    assert!(!big.counters_fit(&ledger, &author));
    let small = WalletTransactions::Issue(Issue { amount: 5, seed: 0 });
    assert!(small.counters_fit(&ledger, &author));
    assert!(big.counters_fit(&ledger, &key(9)));
    let mut rich = alice_and_bob(u64::MAX);
    issue(&mut rich, 2, 1, 5).unwrap();
    let t = WalletTransactions::Transfer(Transfer { to: key(2), amount: u64::MAX, seed: 0 });
    assert!(!t.counters_fit(&rich, &author));
    let t = WalletTransactions::Transfer(Transfer { to: key(2), amount: u64::MAX - 1, seed: 0 });
    assert!(t.counters_fit(&rich, &author));
}

#[test]
fn transfer_cannot_spend_earmarked_funds() {
    let mut ledger = alice_and_bob(100);
    let carol = key(3);
    TransferMultisign { from: key(1), to: key(2), approvers: vec![carol], amount: 40, seed: 0 }
        .execute(&mut ledger, &carol, &digest(30))
        .unwrap();
    assert_eq!(transfer(&mut ledger, 1, 2, 80, 31), Err(Error::InsufficientCurrencyAmount));
    let a = wallet(&ledger, 1);
    assert_eq!((a.balance, a.pending_balance), (100, 40));
    assert_eq!(transfer(&mut ledger, 1, 2, 60, 32), Ok(()));
    let a = wallet(&ledger, 1);
    assert_eq!((a.balance, a.pending_balance), (40, 40));
}

#[test]
fn proposal_cannot_earmark_twice() {
    let mut ledger = alice_and_bob(100);
    let carol = key(3);
    let propose =
        TransferMultisign { from: key(1), to: key(2), approvers: vec![carol], amount: 60, seed: 0 };
    assert_eq!(propose.execute(&mut ledger, &carol, &digest(40)), Ok(()));
    assert_eq!(
        propose.execute(&mut ledger, &carol, &digest(41)),
        Err(Error::InsufficientCurrencyAmount)
    );
    let a = wallet(&ledger, 1);
    assert_eq!((a.balance, a.pending_balance), (100, 60));
    assert_eq!(a.pending_txs, vec![digest(40)]);
}
