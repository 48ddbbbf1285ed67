use qwen2api::refresh::{
    due_accounts, next_refresh_wait, refresh_cutoff, refresh_jitter, select_due, Account,
};

fn account(email: &str, password: &str, token: &str) -> Account {
    Account { email: email.to_string(), password: password.to_string(), token: token.to_string() }
}

#[test]
fn the_cutoff_lies_days_ahead() {
    assert_eq!(refresh_cutoff(1000, 0), 1000);
    assert_eq!(refresh_cutoff(1000, 7), 605_800);
    assert_eq!(refresh_cutoff(0, -1), -86_400);
}

#[test]
fn due_accounts_are_taken_in_order_up_to_the_limit() {
    let accounts = vec![
        account("a", "p1", "t"),
        account("b", "", "t"),
        account("c", "p3", ""),
        account("d", "p4", "t"),
        account("e", "p5", "t"),
        account("f", "p6", "t"),
    ];
    let expiries = vec![Some(100), Some(1), Some(1), Some(101), None, Some(-7)];
    let all = select_due(&accounts, &expiries, 100, 10);
    assert_eq!(all.due_total, 2);
    assert_eq!(
        all.due,
        vec![("a".to_string(), "p1".to_string()), ("f".to_string(), "p6".to_string())]
    );
    let one = select_due(&accounts, &expiries, 100, 1);
    assert_eq!(one.due_total, 2);
    assert_eq!(one.due, vec![("a".to_string(), "p1".to_string())]);
    let none = select_due(&accounts, &expiries, 100, 0);
    assert_eq!((none.due_total, none.due.len()), (2, 0));
}

#[test]
fn the_expiry_comes_from_the_token() {
    let soon = "h.eyJleHAiOjE3NTAwMDAwMDB9.s";
    let accounts = vec![account("a", "p", soon), account("b", "p", "unreadable")];
    assert_eq!(due_accounts(&accounts, 1_750_000_000, 5).due.len(), 1);
    assert_eq!(due_accounts(&accounts, 1_749_999_999, 5).due_total, 0);
}

#[test]
fn waits_are_spread_over_the_range() {
    assert_eq!(refresh_jitter(100, 200, 0), 100);
    assert_eq!(refresh_jitter(100, 200, 250), 150);
    assert_eq!(refresh_jitter(100, 100, 77), 100);
    assert_eq!(refresh_jitter(100, 50, u64::MAX), 100);
    let mut seen = [false; 3];
    for _ in 0..1000 {
        let ms = next_refresh_wait(5, 8);
        assert!((5..8).contains(&ms));
        seen[(ms - 5) as usize] = true;
    }
    assert_eq!(seen, [true; 3]);
}
