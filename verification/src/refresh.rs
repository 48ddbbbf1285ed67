//! Which accounts sign in again before their tokens run out, and how long to wait in between.
use vstd::prelude::*;
use vstd::seq_lib::*;
use crate::outside::random_u64;
use crate::util::{jwt_exp, token_exp};

verus! {

/// An account of the pool.
#[derive(Debug)]
pub struct Account {
    pub email: String,
    pub password: String,
    pub token: String,
}

/// The accounts of one round, and how many were due in all.
#[derive(Debug)]
pub struct DueBatch {
    /// Names and passwords.
    pub due: Vec<(String, String)>,
    pub due_total: usize,
}

/// Seconds of a day.
pub const DAY_SECS: i64 = 86_400;

/// The time until which a token must last, `ahead_days` after `now`.
pub fn refresh_cutoff(now: i64, ahead_days: i64) -> (cutoff: i64)
    requires
        i64::MIN <= ahead_days * DAY_SECS <= i64::MAX,
        i64::MIN <= now + ahead_days * DAY_SECS <= i64::MAX,
    ensures
        cutoff == now + ahead_days * DAY_SECS,
        cutoff == now + ahead_days * 86_400,
{
    now + ahead_days * DAY_SECS
}

/// An account, with the expiry of its token, that signs in again: it has a password and a token,
/// and the token runs out by `cutoff`. One whose expiry cannot be read is left alone.
pub open spec fn due_by(cutoff: int) -> spec_fn((Account, Option<i64>)) -> bool {
    |entry: (Account, Option<i64>)|
        entry.0.password@.len() > 0 && entry.0.token@.len() > 0 && (entry.1 matches Some(exp) && exp
            <= cutoff)
}

/// Accounts together with the expiries of their tokens.
pub open spec fn with_expiries(accounts: Seq<Account>, expiries: Seq<Option<i64>>) -> Seq<
    (Account, Option<i64>),
> {
    Seq::new(accounts.len(), |i: int| (accounts[i], expiries[i]))
}

/// Names and passwords.
pub open spec fn credentials(entries: Seq<(Account, Option<i64>)>) -> Seq<(String, String)> {
    Seq::new(entries.len(), |i: int| (entries[i].0.email, entries[i].0.password))
}

/// `batch` holds the first `limit` of the due accounts, and counts all of them.
pub open spec fn is_due_batch(
    batch: DueBatch,
    entries: Seq<(Account, Option<i64>)>,
    cutoff: int,
    limit: int,
) -> bool {
    let due = credentials(entries.filter(due_by(cutoff)));
    &&& batch.due_total == due.len()
    &&& batch.due@ == due.take(
        if due.len() < limit {
            due.len() as int
        } else {
            limit
        },
    )
}

/// The expiries that the tokens of some accounts state.
pub open spec fn stated_expiries(accounts: Seq<Account>) -> Seq<Option<i64>> {
    Seq::new(accounts.len(), |i: int| token_exp(accounts[i].token@))
}

/// The accounts to sign in again in one round, where the expiries of their tokens are known.
pub fn select_due(
    accounts: &Vec<Account>,
    expiries: &Vec<Option<i64>>,
    cutoff: i64,
    limit: usize,
) -> (batch: DueBatch)
    requires
        accounts@.len() == expiries@.len(),
    ensures
        is_due_batch(batch, with_expiries(accounts@, expiries@), cutoff as int, limit as int),
{
    let ghost entries = with_expiries(accounts@, expiries@);
    let mut due: Vec<(String, String)> = Vec::new();
    let mut i: usize = 0;
    proof {
        reveal(Seq::filter);
        assert(due@ =~= credentials(entries.take(0).filter(due_by(cutoff as int))));
    }
    while i < accounts.len()
        invariant
            accounts@.len() == expiries@.len(),
            entries == with_expiries(accounts@, expiries@),
            i <= accounts.len(),
            due@ == credentials(entries.take(i as int).filter(due_by(cutoff as int))),
            due@.len() <= i,
        decreases accounts.len() - i,
    {
        let ghost before = due@;
        proof {
            entries.take(i as int).lemma_filter_push(entries[i as int], due_by(cutoff as int));
            assert(entries.take(i as int).push(entries[i as int]) =~= entries.take(i + 1));
        }
        let account = &accounts[i];
        if account.password.as_str().unicode_len() > 0 && account.token.as_str().unicode_len() > 0 {
            match expiries[i] {
                Some(exp) => {
                    if exp <= cutoff {
                        due.push((account.email.clone(), account.password.clone()));
                    }
                },
                None => {},
            }
        }
        i = i + 1;
        assert(due@ =~= credentials(entries.take(i as int).filter(due_by(cutoff as int))));
    }
    assert(entries.take(i as int) =~= entries);
    let due_total: usize = due.len();
    if due_total > limit {
        due.truncate(limit);
    }
    assert(due@ =~= credentials(entries.filter(due_by(cutoff as int))).take(
        if due_total < limit {
            due_total as int
        } else {
            limit as int
        },
    ));
    DueBatch { due, due_total }
}

/// The accounts to sign in again in one round: those with a password whose token says that it
/// runs out by `cutoff`, at most `limit` of them.
pub fn due_accounts(accounts: &Vec<Account>, cutoff: i64, limit: usize) -> (batch: DueBatch)
    ensures
        is_due_batch(
            batch,
            with_expiries(accounts@, stated_expiries(accounts@)),
            cutoff as int,
            limit as int,
        ),
{
    let mut expiries: Vec<Option<i64>> = Vec::new();
    while expiries.len() < accounts.len()
        invariant
            expiries@.len() <= accounts@.len(),
            expiries@ == stated_expiries(accounts@).take(expiries@.len() as int),
        decreases accounts.len() - expiries.len(),
    {
        let exp = jwt_exp(accounts[expiries.len()].token.as_str());
        expiries.push(exp);
        assert(expiries@ =~= stated_expiries(accounts@).take(expiries@.len() as int));
    }
    assert(expiries@ =~= stated_expiries(accounts@));
    select_due(accounts, &expiries, cutoff, limit)
}

/// An account signs in again exactly where it has a password, it has a token, and the token's
/// expiry is known and is no later than the cutoff.
pub proof fn who_is_due(account: Account, expiry: Option<i64>, cutoff: int)
    ensures
        due_by(cutoff)((account, expiry)) <==> account.password@.len() > 0 && account.token@.len()
            > 0 && expiry is Some && expiry->0 <= cutoff,
{
}

/// A list of places, in order.
pub open spec fn rises(places: Seq<int>) -> bool {
    forall|i: int, j: int| 0 <= i < j < places.len() ==> places[i] < places[j]
}

/// A round takes the accounts that are due in their order, up to the limit: there is a rising list
/// of the places of exactly the due accounts, their number is the total, and the round holds the
/// names and passwords of the first of them, as many as the limit allows.
pub proof fn round_takes_the_due_in_order(
    batch: DueBatch,
    accounts: Seq<Account>,
    expiries: Seq<Option<i64>>,
    cutoff: int,
    limit: int,
) -> (places: Seq<int>)
    requires
        accounts.len() == expiries.len(),
        limit >= 0,
        is_due_batch(batch, with_expiries(accounts, expiries), cutoff, limit),
    ensures
        rises(places),
        forall|i: int|
            0 <= i < places.len() ==> 0 <= #[trigger] places[i] < accounts.len()
                && accounts[places[i]].password@.len() > 0 && accounts[places[i]].token@.len() > 0
                && (expiries[places[i]] matches Some(exp) && exp <= cutoff),
        forall|p: int|
            0 <= p < accounts.len() && (#[trigger] accounts[p]).password@.len() > 0
                && accounts[p].token@.len() > 0 && expiries[p] is Some && expiries[p]->0 <= cutoff
                ==> places.contains(p),
        batch.due_total == places.len(),
        batch.due@.len() == if places.len() < limit {
            places.len() as int
        } else {
            limit
        },
        forall|i: int|
            0 <= i < batch.due@.len() ==> (#[trigger] batch.due@[i]) == (
                accounts[places[i]].email,
                accounts[places[i]].password,
            ),
{
    let entries = with_expiries(accounts, expiries);
    let places = due_places(entries, cutoff);
    due_places_are(entries, cutoff);
    let due = credentials(entries.filter(due_by(cutoff)));
    assert forall|p: int|
        0 <= p < accounts.len() && (#[trigger] accounts[p]).password@.len() > 0
            && accounts[p].token@.len() > 0 && expiries[p] is Some && expiries[p]->0
            <= cutoff implies places.contains(p) by {
        assert(due_by(cutoff)(entries[p]));
    }
    assert forall|i: int| 0 <= i < places.len() implies 0 <= #[trigger] places[i] < accounts.len()
        && accounts[places[i]].password@.len() > 0 && accounts[places[i]].token@.len() > 0 && (
    expiries[places[i]] matches Some(exp) && exp <= cutoff) by {
        assert(due_by(cutoff)(entries[places[i]]));
    }
    assert forall|i: int| 0 <= i < batch.due@.len() implies (#[trigger] batch.due@[i]) == (
        accounts[places[i]].email,
        accounts[places[i]].password,
    ) by {
        assert(batch.due@[i] == due[i]);
        assert(entries.filter(due_by(cutoff))[i] == entries[places[i]]);
    }
    places
}

/// The places of the due accounts.
spec fn due_places(entries: Seq<(Account, Option<i64>)>, cutoff: int) -> Seq<int>
    decreases entries.len(),
{
    if entries.len() == 0 {
        Seq::empty()
    } else {
        let before = due_places(entries.drop_last(), cutoff);
        if due_by(cutoff)(entries.last()) {
            before.push(entries.len() - 1)
        } else {
            before
        }
    }
}

proof fn due_places_are(entries: Seq<(Account, Option<i64>)>, cutoff: int)
    ensures
        ({
            let places = due_places(entries, cutoff);
            let due = entries.filter(due_by(cutoff));
            &&& rises(places)
            &&& places.len() == due.len()
            &&& forall|i: int|
                0 <= i < places.len() ==> 0 <= #[trigger] places[i] < entries.len() && due_by(
                    cutoff,
                )(entries[places[i]]) && due[i] == entries[places[i]]
            &&& forall|p: int|
                0 <= p < entries.len() && due_by(cutoff)(#[trigger] entries[p]) ==> places.contains(
                    p,
                )
        }),
    decreases entries.len(),
{
    reveal(Seq::filter);
    if entries.len() > 0 {
        let init = entries.drop_last();
        due_places_are(init, cutoff);
        let before = due_places(init, cutoff);
        let places = due_places(entries, cutoff);
        let due = entries.filter(due_by(cutoff));
        assert forall|i: int| 0 <= i < places.len() implies 0 <= #[trigger] places[i]
            < entries.len() && due_by(cutoff)(entries[places[i]]) && due[i]
            == entries[places[i]] by {
            if i < before.len() {
                assert(before[i] == places[i]);
                assert(init[before[i]] == entries[before[i]]);
            }
        }
        assert forall|p: int| 0 <= p < entries.len() && due_by(cutoff)(
            #[trigger] entries[p],
        ) implies places.contains(p) by {
            if p < entries.len() - 1 {
                assert(init[p] == entries[p]);
                assert(before.contains(p));
                let i = choose|i: int| 0 <= i < before.len() && before[i] == p;
                assert(places[i] == p);
            } else {
                assert(places[places.len() - 1] == p);
            }
        }
        assert forall|i: int, j: int| 0 <= i < j < places.len() implies places[i] < places[j] by {
            assert(places[i] == before[i]);
            if j < before.len() {
                assert(places[j] == before[j]);
            }
        }
    }
}

/// The expiries that a round goes by are those that the tokens state.
pub proof fn expiries_come_from_the_tokens(accounts: Seq<Account>, i: int)
    requires
        0 <= i < accounts.len(),
    ensures
        stated_expiries(accounts).len() == accounts.len(),
        stated_expiries(accounts)[i] == token_exp(accounts[i].token@),
{
}

/// No token is left to run out by `cutoff` where the round takes every due account: the accounts
/// that have a password and a readable expiry and are not in the round last longer.
pub proof fn others_last_longer(
    batch: DueBatch,
    entries: Seq<(Account, Option<i64>)>,
    cutoff: int,
    limit: int,
    i: int,
)
    requires
        is_due_batch(batch, entries, cutoff, limit),
        batch.due_total <= limit,
        0 <= i < entries.len(),
        entries[i].0.password@.len() > 0,
        entries[i].0.token@.len() > 0,
        !batch.due@.contains((entries[i].0.email, entries[i].0.password)),
    ensures
        entries[i].1 matches Some(exp) ==> exp > cutoff,
{
    broadcast use group_filter_ensures;

    let due = entries.filter(due_by(cutoff));
    if entries[i].1 matches Some(exp) && exp <= cutoff {
        assert(due_by(cutoff)(entries[i]));
        assert(entries.contains(entries[i]));
        assert(due.contains(entries[i]));
        let j = choose|j: int| 0 <= j < due.len() && due[j] == entries[i];
        assert(batch.due@ =~= credentials(due));
        assert(batch.due@[j] == (entries[i].0.email, entries[i].0.password));
    }
}

/// A wait between two sign-ins, from a random number: at least `min_ms`, and less than `max_ms`
/// where that is more.
pub fn refresh_jitter(min_ms: u64, max_ms: u64, random: u64) -> (ms: u64)
    ensures
        ms == min_ms + random as int % (if max_ms > min_ms {
            max_ms - min_ms
        } else {
            1
        }),
        max_ms > min_ms ==> min_ms <= ms < max_ms,
        max_ms <= min_ms ==> ms == min_ms,
{
    let span: u64 = if max_ms > min_ms {
        max_ms - min_ms
    } else {
        1
    };
    min_ms + random % span
}

/// A wait of random length between two sign-ins.
pub fn next_refresh_wait(min_ms: u64, max_ms: u64) -> (ms: u64)
    ensures
        max_ms > min_ms ==> min_ms <= ms < max_ms,
        max_ms <= min_ms ==> ms == min_ms,
{
    refresh_jitter(min_ms, max_ms, random_u64())
}

} // verus!
