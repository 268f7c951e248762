use parser::bank::{Deposit, Storage, Transaction, Transfer, TxCombinator, TxError, Withdraw};

fn deposit(name: &str, amount: i64) -> Deposit {
    Deposit { from_account: name.to_string(), amount }
}

fn withdraw(name: &str, amount: i64) -> Withdraw {
    Withdraw { from_account: name.to_string(), amount }
}

fn transfer(from: &str, to: &str, amount: i64) -> Transfer {
    Transfer { from_account: from.to_string(), to_account: to.to_string(), amount }
}

#[test]
fn deposit_opens_and_credits() {
    let mut storage = Storage::new();
    assert_eq!(storage.balance("Alice"), None);
    assert_eq!(deposit("Alice", 500).apply(&mut storage), Ok(()));
    assert_eq!(deposit("Alice", 25).apply(&mut storage), Ok(()));
    assert_eq!(storage.balance("Alice"), Some(525));
}

#[test]
fn withdraw_refuses_without_funds_but_opens_account() {
    let mut storage = Storage::new();
    assert_eq!(withdraw("Bob", 10).apply(&mut storage), Err(TxError::InsufficientFunds));
    assert_eq!(storage.balance("Bob"), Some(0));
    assert_eq!(deposit("Bob", 10).apply(&mut storage), Ok(()));
    assert_eq!(withdraw("Bob", 10).apply(&mut storage), Ok(()));
    assert_eq!(storage.balance("Bob"), Some(0));
}

#[test]
fn chained_transactions_like_the_example() {
    let mut storage = Storage::new();
    let chain = TxCombinator {
        t1: deposit("Alice", 500),
        t2: TxCombinator { t1: transfer("Alice", "Bob", 50), t2: withdraw("Alice", 100) },
    };
    assert_eq!(chain.apply(&mut storage), Ok(()));
    assert_eq!(storage.balance("Alice"), Some(350));
    assert_eq!(storage.balance("Bob"), Some(50));
}

#[test]
fn chain_stops_at_first_refusal() {
    let mut storage = Storage::new();
    let chain = transfer("Alice", "Bob", 1) + deposit("Alice", 5);
    assert_eq!(chain.apply(&mut storage), Err(TxError::InsufficientFunds));
    assert_eq!(storage.balance("Alice"), Some(0));
    assert_eq!(storage.balance("Bob"), None);
}

#[test]
fn added_transactions_apply_in_order() {
    let mut storage = Storage::new();
    let both = deposit("Carol", 40) + transfer("Carol", "Dave", 15);
    assert_eq!(both.apply(&mut storage), Ok(()));
    assert_eq!(storage.balance("Carol"), Some(25));
    assert_eq!(storage.balance("Dave"), Some(15));
    let twice = deposit("Dave", 1) + deposit("Dave", 2);
    assert_eq!(twice.apply(&mut storage), Ok(()));
    assert_eq!(storage.balance("Dave"), Some(18));
    let swap = transfer("Dave", "Carol", 18) + transfer("Carol", "Dave", 43);
    assert_eq!(swap.apply(&mut storage), Ok(()));
    assert_eq!(storage.balance("Carol"), Some(0));
    assert_eq!(storage.balance("Dave"), Some(43));
    let back = transfer("Dave", "Carol", 3) + deposit("Carol", 1);
    assert_eq!(back.apply(&mut storage), Ok(()));
    assert_eq!(storage.balance("Carol"), Some(4));
}

#[test]
fn transfer_to_self_keeps_balance() {
    let mut storage = Storage::new();
    assert_eq!(deposit("Eve", 7).apply(&mut storage), Ok(()));
    assert_eq!(transfer("Eve", "Eve", 5).apply(&mut storage), Ok(()));
    assert_eq!(storage.balance("Eve"), Some(7));
}
