//! Changing firmware fan curves through `asusd`: what is to be changed, the
//! transaction in which it happens, and what has to hold afterwards.
use crate::asusd_config::{fan_named, is_wire_form, profile_named, same_numbers, wire_error};
use crate::asusd_config::{Config, CurveConfig, Fan, Profile, ProfileConfig, WireCurve};
use crate::text;
use vstd::prelude::*;

verus! {

// ---- Failures ----

/// What went wrong, and why, if there is more to say.
#[derive(Debug)]
pub struct Failure {
    pub head: String,
    pub cause: Option<String>,
}

/// What a failure says: what went wrong and why.
pub struct Said {
    pub head: Seq<char>,
    pub cause: Option<Seq<char>>,
}

impl Failure {
    /// What the failure says.
    pub open spec fn said(self) -> Said {
        Said {
            head: self.head@,
            cause: match self.cause {
                Some(c) => Some(c@),
                None => None,
            },
        }
    }

    /// The whole story: what went wrong and why.
    pub open spec fn text(self) -> Seq<char> {
        match self.cause {
            Some(c) => self.head@ + ": "@ + c@,
            None => self.head@,
        }
    }

    pub fn new(head: &str) -> (r: Self)
        ensures
            r.head@ == head@,
            r.cause is None,
    {
        Failure { head: head.to_owned(), cause: None }
    }

    /// `cause` in the context that `head` gives.
    pub fn because(head: &str, cause: &str) -> (r: Self)
        ensures
            r.head@ == head@,
            r.cause matches Some(c) && c@ == cause@,
    {
        Failure { head: head.to_owned(), cause: Some(cause.to_owned()) }
    }

    /// The whole story: what went wrong and why.
    pub fn message(&self) -> (r: String)
        ensures
            r@ == self.text(),
    {
        match &self.cause {
            Some(c) => text::around(self.head.as_str(), ": ", c.as_str()),
            None => self.head.clone(),
        }
    }
}

// ---- Transactions ----

/// A transaction that failed.
#[derive(Debug)]
pub struct TransactionError {
    /// The item at which it failed.
    pub failed_at: usize,
    pub failure: Failure,
    /// Why rolling back failed, item by item, the last one first.
    pub rollback: Vec<Option<String>>,
}

/// The messages among the first `n`.
pub open spec fn told(rollback: Seq<Option<String>>, n: int) -> Seq<Seq<char>>
    decreases n,
{
    if n <= 0 {
        Seq::empty()
    } else {
        match rollback[n - 1] {
            Some(m) => told(rollback, n - 1).push(m@),
            None => told(rollback, n - 1),
        }
    }
}

impl TransactionError {
    /// Whether rolling back succeeded, or how it did not.
    pub open spec fn head_text(self) -> Seq<char> {
        let errors = told(self.rollback@, self.rollback@.len() as int);
        if errors.len() == 0 {
            "asusd transaction rolled back"@
        } else {
            "asusd transaction rollback also failed: "@ + text::joined(errors, "; "@)
        }
    }

    /// Whether rolling back succeeded, or how it did not.
    pub fn head(&self) -> (r: String)
        ensures
            r@ == self.head_text(),
    {
        let mut errors: Vec<String> = Vec::new();
        assert(text::views(errors@) =~= told(self.rollback@, 0));
        for i in 0..self.rollback.len()
            invariant
                text::views(errors@) == told(self.rollback@, i as int),
        {
            if let Some(m) = &self.rollback[i] {
                let ghost was = errors@;
                errors.push(m.clone());
                assert(text::views(errors@) =~= text::views(was).push(m@));
            }
        }
        if errors.len() == 0 {
            "asusd transaction rolled back".to_owned()
        } else {
            "asusd transaction rollback also failed: ".to_owned().concat(
                text::join(&errors, "; ").as_str(),
            )
        }
    }

    /// The whole story: how rolling back went, and why it was needed.
    pub fn message(&self) -> (r: String)
        ensures
            r@ == self.head_text() + ": "@ + self.failure.text(),
    {
        text::around(self.head().as_str(), ": ", self.failure.message().as_str())
    }
}

/// Whether the items may have been written and verified one after another, each
/// verified after it was written and all of that with success, while the state went
/// from `from` to `to`.
pub open spec fn carried_out<
    T,
    S,
    W: Fn(S, &T) -> (S, Result<(), Failure>),
    V: Fn(S, &T) -> (S, Result<(), Failure>),
>(write: W, verify: V, items: Seq<T>, from: S, to: S) -> bool
    decreases items.len(),
{
    if items.len() == 0 {
        to == from
    } else {
        exists|a: S, b: S|
            {
                &&& carried_out(write, verify, items.drop_last(), from, a)
                &&& #[trigger] call_ensures(write, (a, &items.last()), (b, Ok(())))
                &&& call_ensures(verify, (b, &items.last()), (to, Ok(())))
            }
    }
}

/// Whether the item may have failed, when it was written or, after that, when it
/// was verified, while the state went from `from` to `to`.
pub open spec fn failed_there<
    T,
    S,
    W: Fn(S, &T) -> (S, Result<(), Failure>),
    V: Fn(S, &T) -> (S, Result<(), Failure>),
>(write: W, verify: V, item: T, from: S, to: S, failure: Failure) -> bool {
    ||| call_ensures(write, (from, &item), (to, Err(failure)))
    ||| exists|a: S| #[trigger]
        call_ensures(write, (from, &item), (a, Ok(()))) && call_ensures(
            verify,
            (a, &item),
            (to, Err(failure)),
        )
}

/// What is recorded of rolling an item back: what went wrong, if anything.
pub open spec fn recorded(outcome: Result<(), Failure>) -> Option<String> {
    match outcome {
        Ok(_) => None,
        Err(f) => Some(f.head),
    }
}

/// Whether the items may have been rolled back one after another, in the order in
/// which they are given and with the outcomes that `said` records, while the state
/// went from `from` to `to`.
pub open spec fn taken_back<T, S, R: Fn(S, &T) -> (S, Result<(), Failure>)>(
    rollback: R,
    items: Seq<T>,
    from: S,
    to: S,
    said: Seq<Option<String>>,
) -> bool
    decreases items.len(),
{
    if items.len() == 0 {
        to == from && said.len() == 0
    } else {
        said.len() > 0 && exists|a: S, outcome: Result<(), Failure>|
            {
                &&& taken_back(rollback, items.drop_last(), from, a, said.drop_last())
                &&& #[trigger] call_ensures(rollback, (a, &items.last()), (to, outcome))
                &&& said.last() == recorded(outcome)
            }
    }
}

/// Whether a transaction may have had the outcome `r` while the state went from
/// `from` to `to`: with success, every item was carried out and none was rolled
/// back; otherwise the items before the one that failed were carried out, that one
/// failed, and then it and those before it were rolled back, the last one first.
pub open spec fn transacted<
    T,
    S,
    W: Fn(S, &T) -> (S, Result<(), Failure>),
    V: Fn(S, &T) -> (S, Result<(), Failure>),
    R: Fn(S, &T) -> (S, Result<(), Failure>),
>(
    write: W,
    verify: V,
    rollback: R,
    items: Seq<T>,
    from: S,
    to: S,
    r: Result<(), TransactionError>,
) -> bool {
    match r {
        Ok(_) => carried_out(write, verify, items, from, to),
        Err(e) => e.failed_at < items.len() && exists|a: S, b: S|
            {
                &&& carried_out(write, verify, items.take(e.failed_at as int), from, a)
                &&& #[trigger] failed_there(
                    write,
                    verify,
                    items[e.failed_at as int],
                    a,
                    b,
                    e.failure,
                )
                &&& taken_back(
                    rollback,
                    items.take(e.failed_at + 1).reverse(),
                    b,
                    to,
                    e.rollback@,
                )
            },
    }
}

proof fn lemma_unit(u: ())
    ensures
        u == (),
{
}

/// Writes and verifies `items` one after another. Where one fails, every item
/// that was attempted is rolled back, the last one first, whichever of these
/// fail.
///
/// The calls hand a state on from one to the next. Each of them uses the state up,
/// so that none can be made beside those that lead from the state before to the
/// state after.
pub fn transact<
    T,
    S,
    W: Fn(S, &T) -> (S, Result<(), Failure>),
    V: Fn(S, &T) -> (S, Result<(), Failure>),
    R: Fn(S, &T) -> (S, Result<(), Failure>),
>(items: &Vec<T>, state: S, write: W, verify: V, rollback: R) -> (r: (
    S,
    Result<(), TransactionError>,
))
    requires
        forall|s: S, i: int|
            0 <= i < items@.len() ==> #[trigger] call_requires(write, (s, &items@[i])),
        forall|s: S, i: int|
            0 <= i < items@.len() ==> #[trigger] call_requires(verify, (s, &items@[i])),
        forall|s: S, i: int|
            0 <= i < items@.len() ==> #[trigger] call_requires(rollback, (s, &items@[i])),
    ensures
        transacted(write, verify, rollback, items@, state, r.0, r.1),
{
    let n: usize = items.len();
    let ghost start = state;
    let ghost mut before = state;
    let mut s = state;
    let mut at: usize = 0;
    let mut failure: Option<Failure> = None;
    while at < n && failure.is_none()
        invariant
            n == items@.len(),
            at <= n,
            forall|s: S, i: int|
                0 <= i < items@.len() ==> #[trigger] call_requires(write, (s, &items@[i])),
            forall|s: S, i: int|
                0 <= i < items@.len() ==> #[trigger] call_requires(verify, (s, &items@[i])),
            carried_out(write, verify, items@.take(at as int), start, before),
            match failure {
                None => s == before,
                Some(f) => at < n && failed_there(write, verify, items@[at as int], before, s, f),
            },
        decreases
                n - at + if failure is None {
                    1int
                } else {
                    0
                },
    {
        let item = &items[at];
        let (written, outcome) = write(s, item);
        match outcome {
            Err(f) => {
                s = written;
                failure = Some(f);
            },
            Ok(u) => {
                let ghost between = written;
                proof {
                    lemma_unit(u);
                    assert(call_ensures(write, (before, item), (between, Ok(()))));
                }
                let (verified, outcome) = verify(written, item);
                s = verified;
                match outcome {
                    Err(f) => {
                        failure = Some(f);
                    },
                    Ok(u) => {
                        proof {
                            lemma_unit(u);
                            let done = items@.take(at + 1);
                            assert(done.drop_last() =~= items@.take(at as int));
                            assert(done.last() == *item);
                            assert(call_ensures(write, (before, &done.last()), (between, Ok(()))));
                            before = s;
                        }
                        at = at + 1;
                    },
                }
            },
        }
    }
    let f = match failure {
        None => {
            assert(items@.take(n as int) =~= items@);
            return (s, Ok(()));
        },
        Some(f) => f,
    };
    let ghost after = s;
    let ghost undone = items@.take(at + 1).reverse();
    let mut said: Vec<Option<String>> = Vec::new();
    let mut left: usize = at + 1;
    assert(undone.take(0) =~= Seq::empty());
    while left > 0
        invariant
            at < items@.len(),
            left <= at + 1,
            undone == items@.take(at + 1).reverse(),
            forall|s: S, i: int|
                0 <= i < items@.len() ==> #[trigger] call_requires(rollback, (s, &items@[i])),
            taken_back(rollback, undone.take(at + 1 - left), after, s, said@),
        decreases left,
    {
        left = left - 1;
        let item = &items[left];
        let ghost was = said@;
        let ghost here = s;
        let (next, outcome) = rollback(s, item);
        s = next;
        let ghost seen = outcome;
        said.push(
            match outcome {
                Ok(_) => None,
                Err(f) => Some(f.head),
            },
        );
        proof {
            let some = undone.take(at + 1 - left);
            assert(some.drop_last() =~= undone.take(at - left));
            assert(some.last() == *item);
            assert(said@.drop_last() =~= was);
            assert(call_ensures(rollback, (here, &some.last()), (s, seen)));
        }
    }
    assert(undone.take(at + 1) =~= undone);
    assert(taken_back(rollback, undone, after, s, said@));
    assert(failed_there(write, verify, items@[at as int], before, after, f));
    (s, Err(TransactionError { failed_at: at, failure: f, rollback: said }))
}

/// A call that a transaction makes.
pub ghost enum Called<T> {
    Write(T),
    Verify(T),
    Rollback(T),
}

/// The calls by which the items are carried out.
pub open spec fn forward_calls<T>(items: Seq<T>) -> Seq<Called<T>>
    decreases items.len(),
{
    if items.len() == 0 {
        Seq::empty()
    } else {
        forward_calls(items.drop_last()).push(Called::Write(items.last())).push(
            Called::Verify(items.last()),
        )
    }
}

/// The calls by which the items are rolled back in the given order.
pub open spec fn rollback_calls<T>(items: Seq<T>) -> Seq<Called<T>> {
    items.map_values(|x: T| Called::Rollback(x))
}

/// Whether each call adds itself to the log that `log` finds in the state, whatever
/// comes of the call.
pub open spec fn keeps_log<
    T,
    S,
    W: Fn(S, &T) -> (S, Result<(), Failure>),
    V: Fn(S, &T) -> (S, Result<(), Failure>),
    R: Fn(S, &T) -> (S, Result<(), Failure>),
>(write: W, verify: V, rollback: R, log: spec_fn(S) -> Seq<Called<T>>) -> bool {
    &&& forall|s: S, x: T, t: S, o: Result<(), Failure>| #[trigger]
        call_ensures(write, (s, &x), (t, o)) ==> log(t) == log(s).push(Called::Write(x))
    &&& forall|s: S, x: T, t: S, o: Result<(), Failure>| #[trigger]
        call_ensures(verify, (s, &x), (t, o)) ==> log(t) == log(s).push(Called::Verify(x))
    &&& forall|s: S, x: T, t: S, o: Result<(), Failure>| #[trigger]
        call_ensures(rollback, (s, &x), (t, o)) ==> log(t) == log(s).push(Called::Rollback(x))
}

proof fn lemma_forward_log<
    T,
    S,
    W: Fn(S, &T) -> (S, Result<(), Failure>),
    V: Fn(S, &T) -> (S, Result<(), Failure>),
    R: Fn(S, &T) -> (S, Result<(), Failure>),
>(
    write: W,
    verify: V,
    rollback: R,
    items: Seq<T>,
    from: S,
    to: S,
    log: spec_fn(S) -> Seq<Called<T>>,
)
    requires
        keeps_log(write, verify, rollback, log),
        carried_out(write, verify, items, from, to),
    ensures
        log(to) == log(from) + forward_calls(items),
    decreases items.len(),
{
    if items.len() == 0 {
        assert(log(from) + forward_calls(items) =~= log(from));
    } else {
        let (a, b) = choose|a: S, b: S|
            {
                &&& carried_out(write, verify, items.drop_last(), from, a)
                &&& #[trigger] call_ensures(write, (a, &items.last()), (b, Ok(())))
                &&& call_ensures(verify, (b, &items.last()), (to, Ok(())))
            };
        lemma_forward_log(write, verify, rollback, items.drop_last(), from, a, log);
        assert(log(to) =~= log(from) + forward_calls(items));
    }
}

proof fn lemma_rollback_log<
    T,
    S,
    W: Fn(S, &T) -> (S, Result<(), Failure>),
    V: Fn(S, &T) -> (S, Result<(), Failure>),
    R: Fn(S, &T) -> (S, Result<(), Failure>),
>(
    write: W,
    verify: V,
    rollback: R,
    items: Seq<T>,
    from: S,
    to: S,
    said: Seq<Option<String>>,
    log: spec_fn(S) -> Seq<Called<T>>,
)
    requires
        keeps_log(write, verify, rollback, log),
        taken_back(rollback, items, from, to, said),
    ensures
        log(to) == log(from) + rollback_calls(items),
        said.len() == items.len(),
    decreases items.len(),
{
    if items.len() == 0 {
        assert(log(from) + rollback_calls(items) =~= log(from));
    } else {
        let (a, outcome) = choose|a: S, outcome: Result<(), Failure>|
            {
                &&& taken_back(rollback, items.drop_last(), from, a, said.drop_last())
                &&& #[trigger] call_ensures(rollback, (a, &items.last()), (to, outcome))
                &&& said.last() == recorded(outcome)
            };
        lemma_rollback_log(
            write,
            verify,
            rollback,
            items.drop_last(),
            from,
            a,
            said.drop_last(),
            log,
        );
        assert(log(to) =~= log(from) + rollback_calls(items));
    }
}

/// The calls that a transaction makes. Where all succeeds: write and verify, item
/// by item, and no rollback. Otherwise: write and verify of the items before the
/// one that failed, the write of that one and, where it was not the write that
/// failed, its verify, which did; then one rollback for each item up to that one, the last one first, whatever
/// comes of them; and nothing of any later item.
pub proof fn law_transaction_calls<
    T,
    S,
    W: Fn(S, &T) -> (S, Result<(), Failure>),
    V: Fn(S, &T) -> (S, Result<(), Failure>),
    R: Fn(S, &T) -> (S, Result<(), Failure>),
>(
    write: W,
    verify: V,
    rollback: R,
    items: Seq<T>,
    from: S,
    to: S,
    r: Result<(), TransactionError>,
    log: spec_fn(S) -> Seq<Called<T>>,
)
    requires
        keeps_log(write, verify, rollback, log),
        transacted(write, verify, rollback, items, from, to, r),
    ensures
        match r {
            Ok(_) => log(to) == log(from) + forward_calls(items),
            Err(e) => {
                let k = e.failed_at as int;
                let before = log(from) + forward_calls(items.take(k)).push(Called::Write(items[k]));
                let back = rollback_calls(items.take(k + 1).reverse());
                &&& k < items.len()
                &&& e.rollback@.len() == k + 1
                &&& {
                    ||| log(to) == before + back && exists|s: S, t: S| #[trigger]
                        call_ensures(write, (s, &items[k]), (t, Err(e.failure)))
                    ||| log(to) == before.push(Called::Verify(items[k])) + back && exists|
                        s: S,
                        t: S,
                    | #[trigger]
                        call_ensures(verify, (s, &items[k]), (t, Err(e.failure)))
                }
            },
        },
{
    match r {
        Ok(_) => {
            lemma_forward_log(write, verify, rollback, items, from, to, log);
        },
        Err(e) => {
            let k = e.failed_at as int;
            let undone = items.take(k + 1).reverse();
            let (a, b) = choose|a: S, b: S|
                {
                    &&& carried_out(write, verify, items.take(k), from, a)
                    &&& #[trigger] failed_there(write, verify, items[k], a, b, e.failure)
                    &&& taken_back(rollback, undone, b, to, e.rollback@)
                };
            lemma_forward_log(write, verify, rollback, items.take(k), from, a, log);
            lemma_rollback_log(write, verify, rollback, undone, b, to, e.rollback@, log);
            let before = log(from) + forward_calls(items.take(k)).push(Called::Write(items[k]));
            assert(log(a).push(Called::Write(items[k])) =~= before);
            if !call_ensures(write, (a, &items[k]), (b, Err(e.failure))) {
                let m = choose|m: S| #[trigger]
                    call_ensures(write, (a, &items[k]), (m, Ok(()))) && call_ensures(
                        verify,
                        (m, &items[k]),
                        (b, Err(e.failure)),
                    );
                assert(log(b) == log(m).push(Called::Verify(items[k])));
            }
        },
    }
}

/// A transaction succeeds where no write and no verify of its items can fail.
pub proof fn law_transaction_succeeds<
    T,
    S,
    W: Fn(S, &T) -> (S, Result<(), Failure>),
    V: Fn(S, &T) -> (S, Result<(), Failure>),
    R: Fn(S, &T) -> (S, Result<(), Failure>),
>(
    write: W,
    verify: V,
    rollback: R,
    items: Seq<T>,
    from: S,
    to: S,
    r: Result<(), TransactionError>,
)
    requires
        transacted(write, verify, rollback, items, from, to, r),
        forall|s: S, i: int, t: S, o: Result<(), Failure>|
            0 <= i < items.len() && #[trigger] call_ensures(write, (s, &items[i]), (t, o))
                ==> o is Ok,
        forall|s: S, i: int, t: S, o: Result<(), Failure>|
            0 <= i < items.len() && #[trigger] call_ensures(verify, (s, &items[i]), (t, o))
                ==> o is Ok,
    ensures
        r is Ok,
{
}

/// A transaction fails where some item's write or verify cannot succeed.
pub proof fn law_transaction_fails<
    T,
    S,
    W: Fn(S, &T) -> (S, Result<(), Failure>),
    V: Fn(S, &T) -> (S, Result<(), Failure>),
    R: Fn(S, &T) -> (S, Result<(), Failure>),
>(
    write: W,
    verify: V,
    rollback: R,
    items: Seq<T>,
    from: S,
    to: S,
    r: Result<(), TransactionError>,
    i: int,
)
    requires
        transacted(write, verify, rollback, items, from, to, r),
        0 <= i < items.len(),
        (forall|s: S, t: S, o: Result<(), Failure>| #[trigger]
            call_ensures(write, (s, &items[i]), (t, o)) ==> o is Err) || (forall|
            s: S,
            t: S,
            o: Result<(), Failure>,
        | #[trigger]
            call_ensures(verify, (s, &items[i]), (t, o)) ==> o is Err),
    ensures
        r matches Err(e) && e.failed_at <= i,
{
    match r {
        Ok(_) => {
            lemma_item_carried_out(write, verify, items, from, to, i);
        },
        Err(e) => {
            let k = e.failed_at as int;
            if i < k {
                let (a, b) = choose|a: S, b: S|
                    {
                        &&& carried_out(write, verify, items.take(k), from, a)
                        &&& #[trigger] failed_there(write, verify, items[k], a, b, e.failure)
                        &&& taken_back(
                            rollback,
                            items.take(k + 1).reverse(),
                            b,
                            to,
                            e.rollback@,
                        )
                    };
                lemma_item_carried_out(write, verify, items.take(k), from, a, i);
            }
        },
    }
}

proof fn lemma_item_carried_out<
    T,
    S,
    W: Fn(S, &T) -> (S, Result<(), Failure>),
    V: Fn(S, &T) -> (S, Result<(), Failure>),
>(write: W, verify: V, items: Seq<T>, from: S, to: S, i: int)
    requires
        carried_out(write, verify, items, from, to),
        0 <= i < items.len(),
    ensures
        exists|a: S, b: S| #[trigger] call_ensures(write, (a, &items[i]), (b, Ok(()))),
        exists|a: S, b: S| #[trigger] call_ensures(verify, (a, &items[i]), (b, Ok(()))),
    decreases items.len(),
{
    let (a, b) = choose|a: S, b: S|
        {
            &&& carried_out(write, verify, items.drop_last(), from, a)
            &&& #[trigger] call_ensures(write, (a, &items.last()), (b, Ok(())))
            &&& call_ensures(verify, (b, &items.last()), (to, Ok(())))
        };
    if i < items.len() - 1 {
        lemma_item_carried_out(write, verify, items.drop_last(), from, a, i);
        assert(items.drop_last()[i] == items[i]);
    }
}

// ---- Curves ----

/// A curve on the bus by its parts.
pub ghost struct WireView {
    pub fan: Seq<char>,
    pub pwm: Seq<u8>,
    pub temp: Seq<u8>,
    pub enabled: bool,
}

pub open spec fn wire_view(w: WireCurve) -> WireView {
    WireView { fan: w.0@, pwm: w.1@, temp: w.2@, enabled: w.3 }
}

pub open spec fn wire_views(s: Seq<WireCurve>) -> Seq<WireView> {
    s.map_values(|w: WireCurve| wire_view(w))
}

/// The numbers as bytes.
pub open spec fn as_bytes(v: Seq<u32>) -> Seq<u8> {
    Seq::new(v.len(), |i: int| v[i] as u8)
}

/// A configured curve in the form of the bus.
pub open spec fn wired(c: CurveConfig) -> WireView {
    WireView {
        fan: match fan_named(c.fan@) {
            Some(f) => f.label(),
            None => Seq::empty(),
        },
        pwm: as_bytes(c.pwm@),
        temp: as_bytes(c.temp@),
        enabled: c.enabled,
    }
}

proof fn lemma_wired(w: WireCurve, c: CurveConfig)
    requires
        is_wire_form(w, c),
    ensures
        wire_view(w) == wired(c),
{
    assert(w.1@ =~= as_bytes(c.pwm@)) by {
        assert(same_numbers(w.1@, c.pwm@));
    }
    assert(w.2@ =~= as_bytes(c.temp@)) by {
        assert(same_numbers(w.2@, c.temp@));
    }
}

fn same_bytes(a: &[u8; 8], b: &[u8; 8]) -> (r: bool)
    ensures
        r == (a@ == b@),
{
    for i in 0..8usize
        invariant
            forall|k: int| 0 <= k < i ==> #[trigger] a@[k] == b@[k],
    {
        if a[i] != b[i] {
            assert(a@[i as int] != b@[i as int]);
            return false;
        }
    }
    assert(a@ =~= b@);
    true
}

fn same_curve(a: &WireCurve, b: &WireCurve) -> (r: bool)
    ensures
        r == (wire_view(*a) == wire_view(*b)),
{
    text::same(a.0.as_str(), b.0.as_str()) && same_bytes(&a.1, &b.1) && same_bytes(&a.2, &b.2)
        && a.3 == b.3
}

fn copy_curve(w: &WireCurve) -> (r: WireCurve)
    ensures
        wire_view(r) == wire_view(*w),
{
    (w.0.clone(), w.1, w.2, w.3)
}

fn has_curve(curves: &Vec<WireCurve>, w: &WireCurve) -> (r: bool)
    ensures
        r == wire_views(curves@).contains(wire_view(*w)),
{
    for i in 0..curves.len()
        invariant
            forall|k: int| 0 <= k < i ==> wire_view(#[trigger] curves@[k]) != wire_view(*w),
    {
        if same_curve(&curves[i], w) {
            assert(wire_views(curves@)[i as int] == wire_view(*w));
            return true;
        }
    }
    assert forall|k: int| 0 <= k < curves@.len() implies #[trigger] wire_views(curves@)[k]
        != wire_view(*w) by {
        assert(wire_view(curves@[k]) != wire_view(*w));
    }
    false
}

// ---- The platform ----

/// What the platform offers and how it stands.
#[derive(Debug)]
pub struct RuntimeState {
    pub active: Profile,
    pub profiles: Vec<Profile>,
    /// The curves of each profile.
    pub curves: Vec<Vec<WireCurve>>,
}

/// Where `profile` stands last among the first `n`.
pub open spec fn place_of(profiles: Seq<Profile>, profile: Profile, n: int) -> Option<int>
    decreases n,
{
    if n <= 0 {
        None
    } else if profiles[n - 1] == profile {
        Some(n - 1)
    } else {
        place_of(profiles, profile, n - 1)
    }
}

impl RuntimeState {
    pub open spec fn wf(self) -> bool {
        self.curves@.len() == self.profiles@.len()
    }

    /// The curves of a profile that the platform supports.
    pub open spec fn available(self, profile: Profile) -> Option<Seq<WireCurve>> {
        match place_of(self.profiles@, profile, self.profiles@.len() as int) {
            Some(i) => Some(self.curves@[i]@),
            None => None,
        }
    }

    /// The curves of a profile that the platform supports.
    pub fn find(&self, profile: Profile) -> (r: Option<&Vec<WireCurve>>)
        requires
            self.wf(),
        ensures
            match r {
                Some(v) => self.available(profile) == Some(v@),
                None => self.available(profile) is None,
            },
    {
        let mut i: usize = self.profiles.len();
        while i > 0
            invariant
                self.wf(),
                i <= self.profiles@.len(),
                place_of(self.profiles@, profile, self.profiles@.len() as int) == place_of(
                    self.profiles@,
                    profile,
                    i as int,
                ),
            decreases i,
        {
            i = i - 1;
            if self.profiles[i] == profile {
                return Some(&self.curves[i]);
            }
        }
        None
    }
}

/// What to say of the first number from the `i`-th on that stands for no profile.
pub open spec fn unknown_profile(ids: Seq<u32>, i: int) -> Option<Seq<char>>
    decreases ids.len() - i,
{
    if i >= ids.len() {
        None
    } else if ids[i] > 4 {
        Some("asusd returned unknown platform profile "@ + text::decimal(ids[i] as nat))
    } else {
        unknown_profile(ids, i + 1)
    }
}

/// The profiles that the numbers stand for.
pub fn profiles_from_ids(ids: &Vec<u32>) -> (r: Result<Vec<Profile>, String>)
    ensures
        match r {
            Ok(v) => {
                &&& unknown_profile(ids@, 0) is None
                &&& v@.len() == ids@.len()
                &&& forall|i: int| 0 <= i < v@.len() ==> (#[trigger] v@[i]).number() == ids@[i]
            },
            Err(m) => unknown_profile(ids@, 0) == Some(m@),
        },
{
    let mut v: Vec<Profile> = Vec::new();
    for i in 0..ids.len()
        invariant
            v@.len() == i,
            unknown_profile(ids@, 0) == unknown_profile(ids@, i as int),
            forall|k: int| 0 <= k < i ==> (#[trigger] v@[k]).number() == ids@[k],
    {
        match Profile::from_id(ids[i]) {
            Ok(p) => {
                v.push(p);
            },
            Err(m) => {
                return Err(m);
            },
        }
    }
    Ok(v)
}

/// What to say where a profile's curves could not be read.
pub fn read_failure(profile: Profile, cause: &str) -> (r: Failure)
    ensures
        r.head@ == "read '"@ + profile.label() + "' fan curves"@,
        r.cause matches Some(c) && c@ == cause@,
{
    Failure::because(text::around("read '", profile.name(), "' fan curves").as_str(), cause)
}

// ---- What is to be changed ----

/// One curve to be stored, and the one that it takes the place of.
#[derive(Debug)]
pub struct Change {
    pub profile: Profile,
    pub desired: WireCurve,
    pub snapshot: WireCurve,
}

/// A change by its parts.
pub ghost struct ChangeView {
    pub profile: Profile,
    pub desired: WireView,
    pub snapshot: WireView,
}

impl View for Change {
    type V = ChangeView;

    open spec fn view(&self) -> ChangeView {
        ChangeView {
            profile: self.profile,
            desired: wire_view(self.desired),
            snapshot: wire_view(self.snapshot),
        }
    }
}

pub open spec fn change_views(s: Seq<Change>) -> Seq<ChangeView> {
    s.map_values(|c: Change| c@)
}

/// The first of the curves from the `i`-th on that is for the fan.
pub open spec fn curve_for(curves: Seq<WireCurve>, fan: Fan, i: int) -> Option<WireCurve>
    decreases curves.len() - i,
{
    if i >= curves.len() {
        None
    } else if fan_named(curves[i].0@) == Some(fan) {
        Some(curves[i])
    } else {
        curve_for(curves, fan, i + 1)
    }
}

/// What stands against storing the curve in the profile.
pub open spec fn change_error(
    profile: Profile,
    available: Seq<WireCurve>,
    c: CurveConfig,
) -> Option<Seq<char>> {
    match fan_named(c.fan@) {
        None => Some("unknown asusd fan '"@ + c.fan@ + "'"@),
        Some(fan) => match curve_for(available, fan, 0) {
            None => Some(
                "fan '"@ + fan.label() + "' is not supported for profile '"@ + profile.label()
                    + "'"@,
            ),
            Some(_) => wire_error(c),
        },
    }
}

/// What stands against storing the first of the curves from the `j`-th on that
/// cannot be stored.
pub open spec fn changes_error(
    profile: Profile,
    available: Seq<WireCurve>,
    curves: Seq<CurveConfig>,
    j: int,
) -> Option<Seq<char>>
    decreases curves.len() - j,
{
    if j >= curves.len() {
        None
    } else if change_error(profile, available, curves[j]) is Some {
        change_error(profile, available, curves[j])
    } else {
        changes_error(profile, available, curves, j + 1)
    }
}

/// What stands against the profile's configuration.
pub open spec fn profile_plan_error(runtime: RuntimeState, p: ProfileConfig) -> Option<Seq<char>> {
    match profile_named(p.name@) {
        None => Some("unknown asusd profile '"@ + p.name@ + "'"@),
        Some(profile) => match runtime.available(profile) {
            None => Some(
                "profile '"@ + profile.label() + "' is not supported by this platform"@,
            ),
            Some(available) => changes_error(profile, available, p.curves@, 0),
        },
    }
}

/// What stands against the first of the profiles from the `i`-th on whose
/// configuration cannot be applied.
pub open spec fn plan_error(
    runtime: RuntimeState,
    profiles: Seq<ProfileConfig>,
    i: int,
) -> Option<Seq<char>>
    decreases profiles.len() - i,
{
    if i >= profiles.len() {
        None
    } else if profile_plan_error(runtime, profiles[i]) is Some {
        profile_plan_error(runtime, profiles[i])
    } else {
        plan_error(runtime, profiles, i + 1)
    }
}

/// The changes that the first `j` curves of a profile make.
pub open spec fn curve_changes(
    profile: Profile,
    available: Seq<WireCurve>,
    curves: Seq<CurveConfig>,
    j: int,
) -> Seq<ChangeView>
    decreases j,
{
    if j <= 0 {
        Seq::empty()
    } else {
        curve_changes(profile, available, curves, j - 1).push(
            ChangeView {
                profile,
                desired: wired(curves[j - 1]),
                snapshot: wire_view(
                    curve_for(available, fan_named(curves[j - 1].fan@)->0, 0)->0,
                ),
            },
        )
    }
}

/// The changes that the first `i` profiles make, curve by curve.
pub open spec fn planned_changes(
    runtime: RuntimeState,
    profiles: Seq<ProfileConfig>,
    i: int,
) -> Seq<ChangeView>
    decreases i,
{
    if i <= 0 {
        Seq::empty()
    } else {
        let p = profiles[i - 1];
        let profile = profile_named(p.name@)->0;
        planned_changes(runtime, profiles, i - 1) + curve_changes(
            profile,
            runtime.available(profile)->0,
            p.curves@,
            p.curves@.len() as int,
        )
    }
}

fn find_curve(curves: &Vec<WireCurve>, fan: Fan) -> (r: Option<WireCurve>)
    ensures
        match (r, curve_for(curves@, fan, 0)) {
            (Some(w), Some(v)) => wire_view(w) == wire_view(v),
            (None, None) => true,
            _ => false,
        },
{
    for i in 0..curves.len()
        invariant
            curve_for(curves@, fan, 0) == curve_for(curves@, fan, i as int),
    {
        if let Ok(f) = Fan::parse(curves[i].0.as_str()) {
            if f == fan {
                return Some(copy_curve(&curves[i]));
            }
        }
    }
    None
}

fn plan_change(profile: Profile, available: &Vec<WireCurve>, c: &CurveConfig) -> (r: Result<
    Change,
    String,
>)
    ensures
        match r {
            Ok(change) => {
                &&& change_error(profile, available@, *c) is None
                &&& change@ == (ChangeView {
                    profile,
                    desired: wired(*c),
                    snapshot: wire_view(
                        curve_for(available@, fan_named(c.fan@)->0, 0)->0,
                    ),
                })
            },
            Err(m) => change_error(profile, available@, *c) == Some(m@),
        },
{
    let fan = match Fan::parse(c.fan.as_str()) {
        Ok(fan) => fan,
        Err(m) => {
            return Err(m);
        },
    };
    let snapshot = match find_curve(available, fan) {
        Some(w) => w,
        None => {
            return Err(
                text::around("fan '", fan.name(), "' is not supported for profile '").concat(
                    profile.name(),
                ).concat("'"),
            );
        },
    };
    let desired = match c.wire() {
        Ok(w) => w,
        Err(m) => {
            return Err(m);
        },
    };
    proof {
        lemma_wired(desired, *c);
    }
    Ok(Change { profile, desired, snapshot })
}

fn plan_profile(
    profile: Profile,
    available: &Vec<WireCurve>,
    curves: &Vec<CurveConfig>,
    changes: &mut Vec<Change>,
) -> (r: Result<(), String>)
    ensures
        match r {
            Ok(_) => {
                &&& changes_error(profile, available@, curves@, 0) is None
                &&& change_views(final(changes)@) == change_views(old(changes)@)
                    + curve_changes(profile, available@, curves@, curves@.len() as int)
            },
            Err(m) => changes_error(profile, available@, curves@, 0) == Some(m@),
        },
{
    let ghost start = change_views(changes@);
    assert(start =~= start + curve_changes(profile, available@, curves@, 0));
    for j in 0..curves.len()
        invariant
            changes_error(profile, available@, curves@, 0) == changes_error(
                profile,
                available@,
                curves@,
                j as int,
            ),
            change_views(changes@) == start + curve_changes(
                profile,
                available@,
                curves@,
                j as int,
            ),
    {
        match plan_change(profile, available, &curves[j]) {
            Ok(change) => {
                let ghost was = changes@;
                changes.push(change);
                assert(change_views(changes@) =~= change_views(was).push(change@));
                assert(change_views(changes@) =~= start + curve_changes(
                    profile,
                    available@,
                    curves@,
                    j + 1,
                ));
            },
            Err(m) => {
                return Err(m);
            },
        }
    }
    Ok(())
}

/// The changes that a configuration makes on the platform, in its own order; or
/// what stands against it. Nothing is planned where anything stands against it.
pub fn plan_changes(config: &Config, runtime: &RuntimeState) -> (r: Result<Vec<Change>, String>)
    requires
        runtime.wf(),
    ensures
        match r {
            Ok(v) => {
                &&& plan_error(*runtime, config.profiles@, 0) is None
                &&& change_views(v@) == planned_changes(
                    *runtime,
                    config.profiles@,
                    config.profiles@.len() as int,
                )
            },
            Err(m) => plan_error(*runtime, config.profiles@, 0) == Some(m@),
        },
{
    let mut changes: Vec<Change> = Vec::new();
    assert(change_views(changes@) =~= planned_changes(*runtime, config.profiles@, 0));
    for i in 0..config.profiles.len()
        invariant
            runtime.wf(),
            plan_error(*runtime, config.profiles@, 0) == plan_error(
                *runtime,
                config.profiles@,
                i as int,
            ),
            change_views(changes@) == planned_changes(*runtime, config.profiles@, i as int),
    {
        let p = &config.profiles[i];
        let profile = match Profile::parse(p.name.as_str()) {
            Ok(profile) => profile,
            Err(m) => {
                return Err(m);
            },
        };
        let available = match runtime.find(profile) {
            Some(v) => v,
            None => {
                return Err(
                    text::around(
                        "profile '",
                        profile.name(),
                        "' is not supported by this platform",
                    ),
                );
            },
        };
        if let Err(m) = plan_profile(profile, available, &p.curves, &mut changes) {
            return Err(m);
        }
    }
    Ok(changes)
}

/// `"<profile>/<fan>"`.
pub open spec fn curve_id(profile: Profile, fan: Seq<char>) -> Seq<char> {
    profile.label() + "/"@ + fan
}

fn id_of(profile: Profile, fan: &str) -> (r: String)
    ensures
        r@ == curve_id(profile, fan@),
{
    text::around(profile.name(), "/", fan)
}

/// What to say where a change could not be written.
pub fn write_failure(change: &Change, cause: &str) -> (r: Failure)
    ensures
        r.head@ == "set "@ + curve_id(change.profile, change.desired.0@) + " fan curve"@,
        r.cause matches Some(c) && c@ == cause@,
{
    Failure::because(
        text::around(
            "set ",
            id_of(change.profile, change.desired.0.as_str()).as_str(),
            " fan curve",
        ).as_str(),
        cause,
    )
}

/// What to say where a profile's curves could not be reset.
pub fn reset_failure(profile: Profile, cause: &str) -> (r: Failure)
    ensures
        r.head@ == "reset '"@ + profile.label() + "' curves"@,
        r.cause matches Some(c) && c@ == cause@,
{
    Failure::because(text::around("reset '", profile.name(), "' curves").as_str(), cause)
}

/// Whether a change is there when the profile's curves are read back.
pub fn verify_change(change: &Change, read: &Result<Vec<WireCurve>, String>) -> (r: Result<
    (),
    Failure,
>)
    ensures
        match (*read, r) {
            (Err(e), Err(f)) => f.head@ == "read '"@ + change.profile.label() + "' fan curves"@ && (
            f.cause matches Some(c) && c@ == e@),
            (Ok(v), Ok(_)) => wire_views(v@).contains(wire_view(change.desired)),
            (Ok(v), Err(f)) => !wire_views(v@).contains(wire_view(change.desired)) && f.head@
                == "read-back mismatch for "@ + curve_id(change.profile, change.desired.0@)
                && f.cause is None,
            _ => false,
        },
{
    match read {
        Err(e) => Err(read_failure(change.profile, e.as_str())),
        Ok(v) => if has_curve(v, &change.desired) {
            Ok(())
        } else {
            Err(
                Failure::new(
                    "read-back mismatch for ".to_owned().concat(
                        id_of(change.profile, change.desired.0.as_str()).as_str(),
                    ).as_str(),
                ),
            )
        },
    }
}

/// What to say of putting one curve back: nothing where it was written and is
/// there when read back.
pub open spec fn put_back_error(
    profile: Profile,
    snapshot: WireCurve,
    wrote: Option<String>,
    read: Result<Vec<WireCurve>, String>,
) -> Option<Seq<char>> {
    match wrote {
        Some(_) => Some("restore "@ + curve_id(profile, snapshot.0@) + " fan curve"@),
        None => match read {
            Err(_) => Some("read '"@ + profile.label() + "' fan curves"@),
            Ok(v) => if wire_views(v@).contains(wire_view(snapshot)) {
                None
            } else {
                Some("rollback read-back mismatch for "@ + curve_id(profile, snapshot.0@))
            },
        },
    }
}

/// The parts that are there, joined.
pub open spec fn both(a: Option<Seq<char>>, b: Option<Seq<char>>) -> Option<Seq<char>> {
    match (a, b) {
        (None, None) => None,
        (Some(x), None) => Some(x),
        (None, Some(y)) => Some(y),
        (Some(x), Some(y)) => Some(x + "; "@ + y),
    }
}

/// What a failed step says first.
pub open spec fn head_of(r: Result<(), Failure>) -> Option<Seq<char>> {
    match r {
        Ok(_) => None,
        Err(f) => Some(f.head@),
    }
}

/// Whether a change was undone: the snapshot was written (`wrote` says why not)
/// and is there when read back, and the active profile is the one from before.
pub fn undone_change(
    change: &Change,
    wrote: &Option<String>,
    read: &Result<Vec<WireCurve>, String>,
    profile: &Result<(), Failure>,
) -> (r: Result<(), Failure>)
    ensures
        match (
            r,
            both(
                put_back_error(change.profile, change.snapshot, *wrote, *read),
                head_of(*profile),
            ),
        ) {
            (Ok(_), None) => true,
            (Err(f), Some(m)) => f.head@ == m && f.cause is None,
            _ => false,
        },
{
    let id = id_of(change.profile, change.snapshot.0.as_str());
    let first: Option<String> = match wrote {
        Some(_) => Some(text::around("restore ", id.as_str(), " fan curve")),
        None => match read {
            Err(e) => Some(read_failure(change.profile, e.as_str()).head),
            Ok(v) => if has_curve(v, &change.snapshot) {
                None
            } else {
                Some("rollback read-back mismatch for ".to_owned().concat(id.as_str()))
            },
        },
    };
    match (first, profile) {
        (None, Ok(_)) => Ok(()),
        (Some(m), Ok(_)) => Err(Failure::new(m.as_str())),
        (None, Err(f)) => Err(Failure::new(f.head.as_str())),
        (Some(m), Err(f)) => Err(
            Failure::new(text::around(m.as_str(), "; ", f.head.as_str()).as_str()),
        ),
    }
}

// ---- Resetting a profile ----

/// What stands against resetting the profile that the user means.
pub open spec fn reset_error(runtime: RuntimeState, requested: Seq<char>) -> Option<Seq<char>> {
    match profile_named(requested) {
        None => Some("unknown asusd profile '"@ + requested + "'"@),
        Some(profile) => match runtime.available(profile) {
            None => Some(
                "profile '"@ + profile.label() + "' is not supported by this platform"@,
            ),
            Some(curves) => if curves.len() == 0 {
                Some("profile '"@ + profile.label() + "' has no readable fan curves"@)
            } else {
                None
            },
        },
    }
}

/// The profile that the user means and the curves that it has before the reset;
/// or what stands against resetting it.
pub fn plan_reset(requested: &str, runtime: &RuntimeState) -> (r: Result<
    (Profile, Vec<WireCurve>),
    String,
>)
    requires
        runtime.wf(),
    ensures
        match r {
            Ok(p) => {
                &&& reset_error(*runtime, requested@) is None
                &&& profile_named(requested@) == Some(p.0)
                &&& runtime.available(p.0) matches Some(a) && wire_views(p.1@) == wire_views(a)
            },
            Err(m) => reset_error(*runtime, requested@) == Some(m@),
        },
{
    let profile = match Profile::parse(requested) {
        Ok(profile) => profile,
        Err(m) => {
            return Err(m);
        },
    };
    match runtime.find(profile) {
        None => Err(
            text::around("profile '", profile.name(), "' is not supported by this platform"),
        ),
        Some(curves) => {
            if curves.len() == 0 {
                return Err(
                    text::around("profile '", profile.name(), "' has no readable fan curves"),
                );
            }
            let mut snapshots: Vec<WireCurve> = Vec::new();
            for i in 0..curves.len()
                invariant
                    snapshots@.len() == i,
                    forall|k: int|
                        0 <= k < i ==> wire_view(#[trigger] snapshots@[k]) == wire_view(
                            curves@[k],
                        ),
            {
                snapshots.push(copy_curve(&curves[i]));
            }
            assert(wire_views(snapshots@) =~= wire_views(curves@));
            Ok((profile, snapshots))
        },
    }
}

/// What to say of the first of the curves from the `i`-th on whose fan is unknown.
pub open spec fn unknown_fan(curves: Seq<WireCurve>, i: int) -> Option<Seq<char>>
    decreases curves.len() - i,
{
    if i >= curves.len() {
        None
    } else if fan_named(curves[i].0@) is None {
        Some("unknown asusd fan '"@ + curves[i].0@ + "'"@)
    } else {
        unknown_fan(curves, i + 1)
    }
}

/// Whether one of the curves is for the fan.
pub open spec fn has_fan(curves: Seq<WireCurve>, fan: Fan) -> bool {
    exists|i: int| 0 <= i < curves.len() && fan_named((#[trigger] curves[i]).0@) == Some(fan)
}

fn fans_of(curves: &Vec<WireCurve>) -> (r: Result<Vec<Fan>, String>)
    ensures
        match r {
            Ok(v) => {
                &&& unknown_fan(curves@, 0) is None
                &&& v@.len() == curves@.len()
                &&& forall|i: int|
                    0 <= i < v@.len() ==> fan_named(curves@[i].0@) == Some(#[trigger] v@[i])
            },
            Err(m) => unknown_fan(curves@, 0) == Some(m@),
        },
{
    let mut v: Vec<Fan> = Vec::new();
    for i in 0..curves.len()
        invariant
            v@.len() == i,
            unknown_fan(curves@, 0) == unknown_fan(curves@, i as int),
            forall|k: int| 0 <= k < i ==> fan_named(curves@[k].0@) == Some(#[trigger] v@[k]),
    {
        match Fan::parse(curves[i].0.as_str()) {
            Ok(f) => {
                v.push(f);
            },
            Err(m) => {
                return Err(m);
            },
        }
    }
    Ok(v)
}

fn holds_fan(fans: &Vec<Fan>, fan: Fan) -> (r: bool)
    ensures
        r == fans@.contains(fan),
{
    for i in 0..fans.len()
        invariant
            forall|k: int| 0 <= k < i ==> #[trigger] fans@[k] != fan,
    {
        if fans[i] == fan {
            assert(fans@[i as int] == fan);
            return true;
        }
    }
    false
}

proof fn lemma_has_fan(curves: Seq<WireCurve>, fans: Seq<Fan>, fan: Fan)
    requires
        fans.len() == curves.len(),
        forall|i: int|
            0 <= i < fans.len() ==> fan_named(curves[i].0@) == Some(#[trigger] fans[i]),
    ensures
        has_fan(curves, fan) == fans.contains(fan),
{
    if has_fan(curves, fan) {
        let i = choose|i: int|
            0 <= i < curves.len() && fan_named((#[trigger] curves[i]).0@) == Some(fan);
        assert(fans[i] == fan);
    }
    if fans.contains(fan) {
        let i = choose|i: int| 0 <= i < fans.len() && fans[i] == fan;
        assert(fan_named(curves[i].0@) == Some(fan));
    }
}

/// Whether two lists of curves are for the same fans, and are equally many.
pub open spec fn same_fans(a: Seq<WireCurve>, b: Seq<WireCurve>) -> bool {
    &&& a.len() == b.len()
    &&& has_fan(a, Fan::Cpu) == has_fan(b, Fan::Cpu)
    &&& has_fan(a, Fan::Gpu) == has_fan(b, Fan::Gpu)
    &&& has_fan(a, Fan::Mid) == has_fan(b, Fan::Mid)
}

/// What stands against taking the curves read back for those of a reset profile.
pub open spec fn reset_check(
    profile: Profile,
    snapshots: Seq<WireCurve>,
    read: Result<Vec<WireCurve>, String>,
) -> Option<Seq<char>> {
    match read {
        Err(_) => Some("read '"@ + profile.label() + "' fan curves"@),
        Ok(v) => if unknown_fan(snapshots, 0) is Some {
            unknown_fan(snapshots, 0)
        } else if unknown_fan(v@, 0) is Some {
            unknown_fan(v@, 0)
        } else if !same_fans(v@, snapshots) {
            Some("reset read-back fan set mismatch for '"@ + profile.label() + "'"@)
        } else {
            None
        },
    }
}

/// Whether the profile has curves for the same fans as before its reset.
pub fn verify_reset(
    profile: Profile,
    snapshots: &Vec<WireCurve>,
    read: &Result<Vec<WireCurve>, String>,
) -> (r: Result<(), Failure>)
    ensures
        match (r, reset_check(profile, snapshots@, *read)) {
            (Ok(_), None) => true,
            (Err(f), Some(m)) => f.head@ == m && match *read {
                Err(e) => f.cause matches Some(c) && c@ == e@,
                Ok(_) => f.cause is None,
            },
            _ => false,
        },
{
    let curves = match read {
        Err(e) => {
            return Err(read_failure(profile, e.as_str()));
        },
        Ok(v) => v,
    };
    let expected = match fans_of(snapshots) {
        Ok(v) => v,
        Err(m) => {
            return Err(Failure::new(m.as_str()));
        },
    };
    let actual = match fans_of(curves) {
        Ok(v) => v,
        Err(m) => {
            return Err(Failure::new(m.as_str()));
        },
    };
    proof {
        lemma_has_fan(snapshots@, expected@, Fan::Cpu);
        lemma_has_fan(snapshots@, expected@, Fan::Gpu);
        lemma_has_fan(snapshots@, expected@, Fan::Mid);
        lemma_has_fan(curves@, actual@, Fan::Cpu);
        lemma_has_fan(curves@, actual@, Fan::Gpu);
        lemma_has_fan(curves@, actual@, Fan::Mid);
    }
    if curves.len() == snapshots.len() && holds_fan(&actual, Fan::Cpu) == holds_fan(
        &expected,
        Fan::Cpu,
    ) && holds_fan(&actual, Fan::Gpu) == holds_fan(&expected, Fan::Gpu) && holds_fan(
        &actual,
        Fan::Mid,
    ) == holds_fan(&expected, Fan::Mid) {
        return Ok(());
    }
    Err(
        Failure::new(
            text::around(
                "reset read-back fan set mismatch for '",
                profile.name(),
                "'",
            ).as_str(),
        ),
    )
}

/// What to say of the first `n` writes of a rollback, which go through the
/// snapshots from the last to the first; `wrote` says why a write failed.
pub open spec fn put_back_failures(
    profile: Profile,
    snapshots: Seq<WireCurve>,
    wrote: Seq<Option<String>>,
    n: int,
) -> Seq<Seq<char>>
    decreases n,
{
    if n <= 0 {
        Seq::empty()
    } else {
        let rest = put_back_failures(profile, snapshots, wrote, n - 1);
        match wrote[n - 1] {
            Some(e) => rest.push(
                "restore "@ + curve_id(profile, snapshots[snapshots.len() - n].0@)
                    + " fan curve: "@ + e@,
            ),
            None => rest,
        }
    }
}

/// What to say of those of the first `n` snapshots that are not there when read
/// back.
pub open spec fn missing_curves(
    profile: Profile,
    snapshots: Seq<WireCurve>,
    curves: Seq<WireCurve>,
    n: int,
) -> Seq<Seq<char>>
    decreases n,
{
    if n <= 0 {
        Seq::empty()
    } else {
        let rest = missing_curves(profile, snapshots, curves, n - 1);
        if wire_views(curves).contains(wire_view(snapshots[n - 1])) {
            rest
        } else {
            rest.push(
                "rollback read-back mismatch for "@ + curve_id(profile, snapshots[n - 1].0@),
            )
        }
    }
}

/// Everything that is to be said of undoing a reset.
pub open spec fn undo_reset_errors(
    profile: Profile,
    snapshots: Seq<WireCurve>,
    wrote: Seq<Option<String>>,
    read: Result<Vec<WireCurve>, String>,
    active: Result<(), Failure>,
) -> Seq<Seq<char>> {
    let writes = put_back_failures(profile, snapshots, wrote, snapshots.len() as int);
    let reads = match read {
        Ok(v) => missing_curves(profile, snapshots, v@, snapshots.len() as int),
        Err(_) => seq!["read '"@ + profile.label() + "' fan curves"@],
    };
    let last = match active {
        Ok(_) => Seq::empty(),
        Err(f) => seq![f.head@],
    };
    writes + reads + last
}

/// Whether a reset was undone: every snapshot was written, from the last to the
/// first, and is there when read back, and the active profile is the one from
/// before.
pub fn undone_reset(
    profile: Profile,
    snapshots: &Vec<WireCurve>,
    wrote: &Vec<Option<String>>,
    read: &Result<Vec<WireCurve>, String>,
    active: &Result<(), Failure>,
) -> (r: Result<(), Failure>)
    requires
        wrote@.len() == snapshots@.len(),
    ensures
        ({
            let errors = undo_reset_errors(profile, snapshots@, wrote@, *read, *active);
            match r {
                Ok(_) => errors.len() == 0,
                Err(f) => errors.len() > 0 && f.head@ == text::joined(errors, "; "@)
                    && f.cause is None,
            }
        }),
{
    let n: usize = snapshots.len();
    let mut errors: Vec<String> = Vec::new();
    assert(text::views(errors@) =~= put_back_failures(profile, snapshots@, wrote@, 0));
    for i in 0..n
        invariant
            n == snapshots@.len(),
            n == wrote@.len(),
            text::views(errors@) == put_back_failures(profile, snapshots@, wrote@, i as int),
    {
        if let Some(e) = &wrote[i] {
            let ghost was = errors@;
            let id = id_of(profile, snapshots[n - 1 - i].0.as_str());
            errors.push(
                text::around("restore ", id.as_str(), " fan curve: ").concat(e.as_str()),
            );
            assert(text::views(errors@) =~= text::views(was).push(errors@.last()@));
        }
    }
    let ghost writes = text::views(errors@);
    match read {
        Err(e) => {
            let ghost was = errors@;
            errors.push(read_failure(profile, e.as_str()).head);
            assert(text::views(errors@) =~= writes + seq![
                "read '"@ + profile.label() + "' fan curves"@,
            ]);
        },
        Ok(v) => {
            assert(text::views(errors@) =~= writes + missing_curves(profile, snapshots@, v@, 0));
            for i in 0..n
                invariant
                    n == snapshots@.len(),
                    text::views(errors@) == writes + missing_curves(
                        profile,
                        snapshots@,
                        v@,
                        i as int,
                    ),
            {
                if !has_curve(v, &snapshots[i]) {
                    let ghost was = errors@;
                    errors.push(
                        "rollback read-back mismatch for ".to_owned().concat(
                            id_of(profile, snapshots[i].0.as_str()).as_str(),
                        ),
                    );
                    assert(text::views(errors@) =~= text::views(was).push(errors@.last()@));
                    assert(text::views(errors@) =~= writes + missing_curves(
                        profile,
                        snapshots@,
                        v@,
                        i + 1,
                    ));
                }
            }
        },
    }
    let ghost before = text::views(errors@);
    if let Err(f) = active {
        errors.push(f.head.clone());
        assert(text::views(errors@) =~= before + seq![f.head@]);
    }
    assert(text::views(errors@) =~= undo_reset_errors(
        profile,
        snapshots@,
        wrote@,
        *read,
        *active,
    ));
    if errors.len() == 0 {
        Ok(())
    } else {
        Err(Failure::new(text::join(&errors, "; ").as_str()))
    }
}

// ---- The active profile ----

/// What reading the active profile gave: the profile, or what to say.
pub open spec fn active_read(read: Result<u32, String>, context: Option<Seq<char>>) -> Result<
    u32,
    Said,
> {
    match read {
        Err(e) => Err(
            match context {
                Some(c) => Said { head: c, cause: Some(e@) },
                None => Said { head: e@, cause: None },
            },
        ),
        Ok(id) => if id > 4 {
            Err(
                Said {
                    head: "asusd returned unknown platform profile "@ + text::decimal(id as nat),
                    cause: None,
                },
            )
        } else {
            Ok(id)
        },
    }
}

/// What is read before anything is set, and what is said where it cannot be.
pub open spec fn first_read(read: Result<u32, String>) -> Result<u32, Said> {
    active_read(read, Some("verify active asusd platform profile"@))
}

/// What is read after setting, and what is said where it cannot be.
pub open spec fn last_read(read: Result<u32, String>) -> Result<u32, Said> {
    active_read(read, Some("verify restored asusd platform profile"@))
}

fn read_active(read: Result<u32, String>, context: &str) -> (r: Result<Profile, Failure>)
    ensures
        match (r, active_read(read, Some(context@))) {
            (Ok(p), Ok(id)) => p.number() == id,
            (Err(f), Err(m)) => f.said() == m,
            _ => false,
        },
{
    match read {
        Err(e) => Err(Failure::because(context, e.as_str())),
        Ok(id) => match Profile::from_id(id) {
            Ok(p) => Ok(p),
            Err(m) => Err(Failure::new(m.as_str())),
        },
    }
}

/// Looks whether the active profile is still the expected one: nothing where it
/// is, the one found where it is not.
pub fn preserve_active_profile(expected: Profile, read: Result<u32, String>) -> (r: Result<
    Option<Profile>,
    Failure,
>)
    ensures
        match (r, first_read(read)) {
            (Ok(None), Ok(id)) => id == expected.number(),
            (Ok(Some(p)), Ok(id)) => id != expected.number() && p.number() == id,
            (Err(f), Err(m)) => f.said() == m,
            _ => false,
        },
{
    match read_active(read, "verify active asusd platform profile") {
        Err(f) => Err(f),
        Ok(p) => if p == expected {
            Ok(None)
        } else {
            Ok(Some(p))
        },
    }
}

/// What is said where the active profile was changed behind the transaction's
/// back.
pub open spec fn changed_said(expected: Profile, current: Profile) -> Said {
    Said {
        head: "active platform profile changed from '"@ + expected.label() + "' to '"@
            + current.label() + "'"@,
        cause: None,
    }
}

/// What to say where the active profile was changed behind the transaction's
/// back.
pub fn profile_changed(expected: Profile, current: Profile) -> (r: Failure)
    ensures
        r.said() == changed_said(expected, current),
{
    Failure::new(
        text::around("active platform profile changed from '", expected.name(), "' to '").concat(
            current.name(),
        ).concat("'").as_str(),
    )
}

/// The number to set to restore the expected profile; none where it is active.
pub fn restore_active_profile(expected: Profile, read: Result<u32, String>) -> (r: Result<
    Option<u32>,
    Failure,
>)
    ensures
        match (r, active_read(read, None)) {
            (Ok(None), Ok(id)) => id == expected.number(),
            (Ok(Some(n)), Ok(id)) => id != expected.number() && n == expected.number(),
            (Err(f), Err(m)) => f.said() == m,
            _ => false,
        },
{
    match read {
        Err(e) => Err(Failure::new(e.as_str())),
        Ok(id) => match Profile::from_id(id) {
            Err(m) => Err(Failure::new(m.as_str())),
            Ok(p) => if p == expected {
                Ok(None)
            } else {
                Ok(Some(expected.id()))
            },
        },
    }
}

/// What is said where the expected profile could not be set.
pub open spec fn not_set_said(expected: Profile, cause: Seq<char>) -> Said {
    Said {
        head: "restore active platform profile '"@ + expected.label() + "'"@,
        cause: Some(cause),
    }
}

/// Whether the expected profile was set.
pub fn set_outcome(expected: Profile, set: Result<(), String>) -> (r: Result<(), Failure>)
    ensures
        match (r, set) {
            (Ok(_), Ok(_)) => true,
            (Err(f), Err(e)) => f.said() == not_set_said(expected, e@),
            _ => false,
        },
{
    match set {
        Ok(_) => Ok(()),
        Err(e) => Err(
            Failure::because(
                text::around(
                    "restore active platform profile '",
                    expected.name(),
                    "'",
                ).as_str(),
                e.as_str(),
            ),
        ),
    }
}

/// The profile that has the number.
pub open spec fn profile_of(id: u32) -> Profile {
    if id == 0 {
        Profile::Balanced
    } else if id == 1 {
        Profile::Performance
    } else if id == 2 {
        Profile::Quiet
    } else if id == 3 {
        Profile::LowPower
    } else {
        Profile::Custom
    }
}

/// What is said where another profile is active than the one that was restored.
pub open spec fn mismatch_said(expected: Profile, id: u32) -> Said {
    Said {
        head: "active platform profile restoration read-back mismatch: expected '"@
            + expected.label() + "', got '"@ + profile_of(id).label() + "'"@,
        cause: None,
    }
}

/// Whether the expected profile is active again, given what was read since it was
/// set.
pub fn confirm_restored(expected: Profile, read: Result<u32, String>) -> (r: Result<(), Failure>)
    ensures
        match (r, last_read(read)) {
            (Ok(_), Ok(id)) => id == expected.number(),
            (Err(f), Ok(id)) => id != expected.number() && f.said() == mismatch_said(expected, id),
            (Err(f), Err(m)) => f.said() == m,
            _ => false,
        },
{
    match read_active(read, "verify restored asusd platform profile") {
        Err(f) => Err(f),
        Ok(p) => {
            if p == expected {
                return Ok(());
            }
            Err(
                Failure::new(
                    text::around(
                        "active platform profile restoration read-back mismatch: expected '",
                        expected.name(),
                        "', got '",
                    ).concat(p.name()).concat("'").as_str(),
                ),
            )
        },
    }
}

/// How far the keeping of the active profile has come. A stage past the first
/// holds the other profile that was found, unless nothing was looked for and the
/// expected profile is only to be put back.
#[derive(Debug)]
pub enum Stage {
    /// The active profile is to be read.
    Looking,
    /// The active profile is to be read before setting the expected one.
    Restoring(Option<Profile>),
    /// The expected profile is to be set.
    Setting(Option<Profile>),
    /// The active profile is to be read back.
    Confirming(Option<Profile>),
    /// All is done, with this outcome.
    Done(Result<(), Failure>),
}

/// A stage, with what the outcome says in place of the outcome; nothing is said of
/// success.
pub enum StageView {
    Looking,
    Restoring(Option<Profile>),
    Setting(Option<Profile>),
    Confirming(Option<Profile>),
    Done(Option<Said>),
}

impl View for Stage {
    type V = StageView;

    open spec fn view(&self) -> StageView {
        match self {
            Stage::Looking => StageView::Looking,
            Stage::Restoring(found) => StageView::Restoring(*found),
            Stage::Setting(found) => StageView::Setting(*found),
            Stage::Confirming(found) => StageView::Confirming(*found),
            Stage::Done(Ok(_)) => StageView::Done(None),
            Stage::Done(Err(f)) => StageView::Done(Some(f.said())),
        }
    }
}

/// The outcome where the expected profile is active again: a failure where another
/// had been found.
pub open spec fn put_right(expected: Profile, found: Option<Profile>) -> Option<Said> {
    match found {
        None => None,
        Some(current) => Some(changed_said(expected, current)),
    }
}

/// The stage that follows, given what was read.
pub open spec fn stage_read(
    expected: Profile,
    stage: StageView,
    read: Result<u32, String>,
) -> StageView {
    match stage {
        StageView::Looking => match first_read(read) {
            Err(m) => StageView::Done(Some(m)),
            Ok(id) => if id == expected.number() {
                StageView::Done(None)
            } else {
                StageView::Restoring(Some(profile_of(id)))
            },
        },
        StageView::Restoring(found) => match active_read(read, None) {
            Err(m) => StageView::Done(Some(m)),
            Ok(id) => if id == expected.number() {
                StageView::Done(put_right(expected, found))
            } else {
                StageView::Setting(found)
            },
        },
        StageView::Confirming(found) => match last_read(read) {
            Err(m) => StageView::Done(Some(m)),
            Ok(id) => if id == expected.number() {
                StageView::Done(put_right(expected, found))
            } else {
                StageView::Done(Some(mismatch_said(expected, id)))
            },
        },
        _ => stage,
    }
}

/// The stage that follows, given the outcome of setting.
pub open spec fn stage_set(
    expected: Profile,
    stage: StageView,
    set: Result<(), String>,
) -> StageView {
    match stage {
        StageView::Setting(found) => match set {
            Err(e) => StageView::Done(Some(not_set_said(expected, e@))),
            Ok(_) => StageView::Confirming(found),
        },
        _ => stage,
    }
}

/// What is to be done next to keep the active profile.
#[derive(Debug, PartialEq, Eq, Structural, Clone, Copy)]
pub enum Call {
    /// Read the number of the active profile.
    Read,
    /// Set the active profile to the one with this number.
    Assign(u32),
    /// Nothing any more.
    Finish,
}

/// The keeping of the active profile: it is looked up, put back where another one
/// is found, and read back.
#[derive(Debug)]
pub struct Keeping {
    pub expected: Profile,
    pub stage: Stage,
}

impl Keeping {
    /// Looks whether the expected profile is active, and puts it back if not.
    pub fn preserving(expected: Profile) -> (r: Self)
        ensures
            r.expected == expected,
            r.stage@ == StageView::Looking,
    {
        Keeping { expected, stage: Stage::Looking }
    }

    /// Puts the expected profile back where it is not active.
    pub fn restoring(expected: Profile) -> (r: Self)
        ensures
            r.expected == expected,
            r.stage@ == StageView::Restoring(None),
    {
        Keeping { expected, stage: Stage::Restoring(None) }
    }

    /// What is to be done next.
    pub fn next(&self) -> (r: Call)
        ensures
            r == match self.stage@ {
                StageView::Setting(_) => Call::Assign(self.expected.number()),
                StageView::Done(_) => Call::Finish,
                _ => Call::Read,
            },
    {
        match &self.stage {
            Stage::Setting(_) => Call::Assign(self.expected.id()),
            Stage::Done(_) => Call::Finish,
            Stage::Looking | Stage::Restoring(_) | Stage::Confirming(_) => Call::Read,
        }
    }

    fn ending(&self, found: Option<Profile>) -> (r: Stage)
        ensures
            r@ == StageView::Done(put_right(self.expected, found)),
    {
        match found {
            None => Stage::Done(Ok(())),
            Some(current) => Stage::Done(Err(profile_changed(self.expected, current))),
        }
    }

    /// Takes what was read.
    pub fn read(&mut self, read: Result<u32, String>)
        ensures
            final(self).expected == old(self).expected,
            final(self).stage@ == stage_read(old(self).expected, old(self).stage@, read),
    {
        match &self.stage {
            Stage::Looking => {
                self.stage =
                match preserve_active_profile(self.expected, read) {
                    Err(f) => Stage::Done(Err(f)),
                    Ok(None) => Stage::Done(Ok(())),
                    Ok(Some(current)) => Stage::Restoring(Some(current)),
                };
            },
            Stage::Restoring(found) => {
                let found = *found;
                self.stage =
                match restore_active_profile(self.expected, read) {
                    Err(f) => Stage::Done(Err(f)),
                    Ok(None) => self.ending(found),
                    Ok(Some(_)) => Stage::Setting(found),
                };
            },
            Stage::Confirming(found) => {
                let found = *found;
                self.stage =
                match confirm_restored(self.expected, read) {
                    Err(f) => Stage::Done(Err(f)),
                    Ok(_) => self.ending(found),
                };
            },
            Stage::Setting(_) | Stage::Done(_) => {},
        }
    }

    /// Takes the outcome of setting.
    pub fn assigned(&mut self, set: Result<(), String>)
        ensures
            final(self).expected == old(self).expected,
            final(self).stage@ == stage_set(old(self).expected, old(self).stage@, set),
    {
        if let Stage::Setting(found) = &self.stage {
            let found = *found;
            self.stage =
            match set_outcome(self.expected, set) {
                Err(f) => Stage::Done(Err(f)),
                Ok(_) => Stage::Confirming(found),
            };
        }
    }

    /// The outcome; none while there is something left to do.
    pub fn outcome(self) -> (r: Option<Result<(), Failure>>)
        ensures
            match (r, self.stage@) {
                (None, StageView::Done(_)) => false,
                (None, _) => true,
                (Some(Ok(_)), StageView::Done(said)) => said is None,
                (Some(Err(f)), StageView::Done(said)) => said == Some(f.said()),
                _ => false,
            },
    {
        match self.stage {
            Stage::Done(outcome) => Some(outcome),
            _ => None,
        }
    }
}

// ---- What is printed ----

/// The decimal forms of the first `n` bytes.
pub open spec fn byte_texts(v: Seq<u8>, n: int) -> Seq<Seq<char>> {
    Seq::new(n as nat, |i: int| text::decimal(v[i] as nat))
}

/// The bytes as a list in brackets.
pub open spec fn byte_list(v: Seq<u8>) -> Seq<char> {
    "["@ + text::joined(byte_texts(v, v.len() as int), ", "@) + "]"@
}

fn list_bytes(v: &[u8; 8]) -> (r: String)
    ensures
        r@ == byte_list(v@),
{
    let mut parts: Vec<String> = Vec::new();
    for i in 0..8usize
        invariant
            parts@.len() == i,
            forall|k: int| 0 <= k < i ==> (#[trigger] parts@[k])@ == text::decimal(v@[k] as nat),
    {
        parts.push(text::decimal_of(v[i] as u64));
    }
    assert(text::views(parts@) =~= byte_texts(v@, 8));
    text::around("[", text::join(&parts, ", ").as_str(), "]")
}

/// A curve on a line.
pub open spec fn curve_text(prefix: Seq<char>, w: WireView) -> Seq<char> {
    prefix + w.fan + " enabled="@ + (if w.enabled {
        "true"@
    } else {
        "false"@
    }) + " temp="@ + byte_list(w.temp) + " pwm="@ + byte_list(w.pwm)
}

/// A curve on a line.
pub fn curve_line(prefix: &str, curve: &WireCurve) -> (r: String)
    ensures
        r@ == curve_text(prefix@, wire_view(*curve)),
{
    let enabled = if curve.3 {
        "true"
    } else {
        "false"
    };
    text::around(prefix, curve.0.as_str(), " enabled=").concat(enabled).concat(" temp=").concat(
        list_bytes(&curve.2).as_str(),
    ).concat(" pwm=").concat(list_bytes(&curve.1).as_str())
}

/// A planned change on a line.
pub fn change_line(change: &Change) -> (r: String)
    ensures
        r@ == curve_text("  "@ + change.profile.label() + " "@, change@.desired),
{
    let prefix = text::around("  ", change.profile.name(), " ");
    curve_line(prefix.as_str(), &change.desired)
}

/// The lines that tell how the first `n` curves of a profile run.
pub open spec fn curve_lines(curves: Seq<WireCurve>, n: int) -> Seq<Seq<char>> {
    Seq::new(n as nat, |i: int| curve_text("    "@, wire_view(curves[i])))
}

/// The lines that tell how the first `n` profiles stand.
pub open spec fn profile_lines(runtime: RuntimeState, n: int) -> Seq<Seq<char>>
    decreases n,
{
    if n <= 0 {
        Seq::empty()
    } else {
        let profile = runtime.profiles@[n - 1];
        let curves = runtime.available(profile)->0;
        profile_lines(runtime, n - 1).push("  "@ + profile.label() + ":"@) + curve_lines(
            curves,
            curves.len() as int,
        )
    }
}

/// The lines that tell how the platform stands.
pub fn status_lines(runtime: &RuntimeState) -> (r: Vec<String>)
    requires
        runtime.wf(),
    ensures
        text::views(r@) == seq![
            "Active platform profile: "@ + runtime.active.label(),
            "Supported profiles and fan curves:"@,
        ] + profile_lines(*runtime, runtime.profiles@.len() as int),
{
    let mut lines: Vec<String> = Vec::new();
    lines.push("Active platform profile: ".to_owned().concat(runtime.active.name()));
    lines.push("Supported profiles and fan curves:".to_owned());
    let ghost head = text::views(lines@);
    assert(head =~= seq![
        "Active platform profile: "@ + runtime.active.label(),
        "Supported profiles and fan curves:"@,
    ]);
    assert(text::views(lines@) =~= head + profile_lines(*runtime, 0));
    for i in 0..runtime.profiles.len()
        invariant
            runtime.wf(),
            text::views(lines@) == head + profile_lines(*runtime, i as int),
    {
        let profile = runtime.profiles[i];
        let ghost before = text::views(lines@);
        lines.push(text::around("  ", profile.name(), ":"));
        let ghost titled = text::views(lines@);
        assert(titled =~= before.push("  "@ + profile.label() + ":"@));
        proof {
            lemma_placed(runtime.profiles@, i as int, runtime.profiles@.len() as int);
        }
        if let Some(curves) = runtime.find(profile) {
            assert(titled =~= titled + curve_lines(curves@, 0));
            for j in 0..curves.len()
                invariant
                    text::views(lines@) == titled + curve_lines(curves@, j as int),
            {
                let ghost was = lines@;
                lines.push(curve_line("    ", &curves[j]));
                assert(text::views(lines@) =~= text::views(was).push(lines@.last()@));
                assert(text::views(lines@) =~= titled + curve_lines(curves@, j + 1));
            }
            assert(text::views(lines@) =~= head + profile_lines(*runtime, i + 1));
        }
    }
    lines
}

proof fn lemma_placed(profiles: Seq<Profile>, i: int, n: int)
    requires
        0 <= i < n <= profiles.len(),
    ensures
        place_of(profiles, profiles[i], n) is Some,
    decreases n,
{
    if profiles[n - 1] != profiles[i] {
        lemma_placed(profiles, i, n - 1);
    }
}

// ---- Laws ----

proof fn lemma_accepted_curves(
    c: Config,
    profile: Profile,
    available: Seq<WireCurve>,
    i: int,
    j: int,
)
    requires
        crate::asusd_config::first_error(c) is None,
        0 <= i < c.profiles@.len(),
        0 <= j,
        forall|fan: Fan| #[trigger] curve_for(available, fan, 0) is Some,
    ensures
        changes_error(profile, available, c.profiles@[i].curves@, j) is None,
    decreases c.profiles@[i].curves@.len() - j,
{
    if j < c.profiles@[i].curves@.len() {
        crate::asusd_config::law_accepted_curves_have_wire_form(c, i, j);
        let fan = fan_named(c.profiles@[i].curves@[j].fan@)->0;
        assert(curve_for(available, fan, 0) is Some);
        lemma_accepted_curves(c, profile, available, i, j + 1);
    }
}

/// An accepted configuration can be planned on every platform that supports its
/// profiles with curves for every fan.
pub proof fn law_accepted_config_can_be_planned(c: Config, runtime: RuntimeState, i: int)
    requires
        crate::asusd_config::first_error(c) is None,
        0 <= i,
        forall|p: Profile| #[trigger]
            runtime.available(p) matches Some(a) && (forall|fan: Fan| #[trigger]
                curve_for(a, fan, 0) is Some),
    ensures
        plan_error(runtime, c.profiles@, i) is None,
    decreases c.profiles@.len() - i,
{
    if i < c.profiles@.len() {
        crate::asusd_config::law_accepted_profile(c, i);
        let profile = profile_named(c.profiles@[i].name@)->0;
        assert(runtime.available(profile) is Some);
        lemma_accepted_curves(c, profile, runtime.available(profile)->0, i, 0);
        law_accepted_config_can_be_planned(c, runtime, i + 1);
    }
}

/// What comes of looking after the expected profile, whatever the replies are:
/// `first` and `again` are read, `set` is the outcome of setting, `last` is read
/// back. All is done after these. It succeeds exactly where the expected profile
/// is found active at once, and then nothing more is asked. Where another one is
/// found it fails, even where the expected one is back in the end. The expected
/// profile is set at most once, exactly where another one is found twice; nothing
/// is set where the first reading fails or tells of no known profile.
pub proof fn law_preserving(
    expected: Profile,
    first: Result<u32, String>,
    again: Result<u32, String>,
    set: Result<(), String>,
    last: Result<u32, String>,
)
    ensures
        ({
            let there = |r: Result<u32, String>| r matches Ok(id) && id == expected.number();
            let looked = stage_read(expected, StageView::Looking, first);
            let checked = stage_read(expected, looked, again);
            let assigned = stage_set(expected, checked, set);
            let end = stage_read(expected, assigned, last);
            let other = |r: Result<u32, String>|
                r matches Ok(id) && id <= 4 && id != expected.number();
            &&& end is Done
            &&& end == StageView::Done(None) <==> there(first)
            &&& there(first) ==> looked == StageView::Done(None)
            &&& looked is Restoring <==> other(first)
            &&& checked is Setting <==> other(first) && other(again)
            &&& !(assigned is Setting)
            &&& other(first) && other(again) && set is Ok && there(last) ==> end == StageView::Done(
                Some(changed_said(expected, profile_of(first->Ok_0))),
            )
        }),
{
}

/// What comes of putting the expected profile back, whatever the replies are:
/// `first` is read, `set` is the outcome of setting, `last` is read back. All is
/// done after these. It succeeds exactly where the expected profile is active, at
/// once or when read back after it was set, and it is set exactly where another
/// one is found.
pub proof fn law_restoring(
    expected: Profile,
    first: Result<u32, String>,
    set: Result<(), String>,
    last: Result<u32, String>,
)
    ensures
        ({
            let checked = stage_read(expected, StageView::Restoring(None), first);
            let assigned = stage_set(expected, checked, set);
            let end = stage_read(expected, assigned, last);
            let there = |r: Result<u32, String>| r matches Ok(id) && id == expected.number();
            let other = |r: Result<u32, String>|
                r matches Ok(id) && id <= 4 && id != expected.number();
            &&& end is Done
            &&& end == StageView::Done(None) <==> there(first) || (other(first) && set is Ok
                && there(last))
            &&& checked is Setting <==> other(first)
            &&& !(assigned is Setting)
        }),
{
}

// ---- Laws of planning ----

/// Two curves look the same exactly where every part of them is the same.
pub proof fn law_curves_told_apart(a: WireCurve, b: WireCurve)
    ensures
        wire_view(a) == wire_view(b) <==> a.0@ == b.0@ && a.1@ == b.1@ && a.2@ == b.2@ && a.3 == b.3,
{
}

/// Two changes look the same only where every part of them is the same.
pub proof fn law_changes_told_apart(a: Change, b: Change)
    ensures
        a@ == b@ <==> a.profile == b.profile && wire_view(a.desired) == wire_view(b.desired)
            && wire_view(a.snapshot) == wire_view(b.snapshot),
{
}

/// The curves that the platform has for a profile are those at the last place where
/// it lists the profile; it has none where it does not list it.
pub proof fn law_available(runtime: RuntimeState, profile: Profile)
    requires
        runtime.wf(),
    ensures
        match runtime.available(profile) {
            None => forall|a: int|
                0 <= a < runtime.profiles@.len() ==> #[trigger] runtime.profiles@[a] != profile,
            Some(curves) => exists|a: int|
                {
                    &&& 0 <= a < runtime.profiles@.len()
                    &&& #[trigger] runtime.profiles@[a] == profile
                    &&& runtime.curves@[a]@ == curves
                    &&& forall|b: int|
                        a < b < runtime.profiles@.len() ==> #[trigger] runtime.profiles@[b]
                            != profile
                },
        },
{
    lemma_place_of(runtime.profiles@, profile, runtime.profiles@.len() as int);
    if let Some(a) = place_of(runtime.profiles@, profile, runtime.profiles@.len() as int) {
        assert(runtime.profiles@[a] == profile);
    }
}

proof fn lemma_place_of(profiles: Seq<Profile>, profile: Profile, n: int)
    requires
        0 <= n <= profiles.len(),
    ensures
        match place_of(profiles, profile, n) {
            None => forall|a: int| 0 <= a < n ==> #[trigger] profiles[a] != profile,
            Some(a) => 0 <= a < n && profiles[a] == profile && forall|b: int|
                a < b < n ==> #[trigger] profiles[b] != profile,
        },
    decreases n,
{
    if n > 0 {
        lemma_place_of(profiles, profile, n - 1);
    }
}

/// The curve that is there for a fan is the first one of that fan; there is none
/// exactly where no curve is of that fan.
pub proof fn law_curve_for(curves: Seq<WireCurve>, fan: Fan)
    ensures
        match curve_for(curves, fan, 0) {
            None => forall|b: int|
                0 <= b < curves.len() ==> fan_named((#[trigger] curves[b]).0@) != Some(fan),
            Some(w) => exists|b: int|
                {
                    &&& 0 <= b < curves.len()
                    &&& #[trigger] curves[b] == w
                    &&& fan_named(w.0@) == Some(fan)
                    &&& forall|c: int|
                        0 <= c < b ==> fan_named((#[trigger] curves[c]).0@) != Some(fan)
                },
        },
{
    lemma_curve_for(curves, fan, 0);
}

proof fn lemma_curve_for(curves: Seq<WireCurve>, fan: Fan, i: int)
    requires
        0 <= i <= curves.len(),
    ensures
        match curve_for(curves, fan, i) {
            None => forall|b: int|
                i <= b < curves.len() ==> fan_named((#[trigger] curves[b]).0@) != Some(fan),
            Some(w) => exists|b: int|
                {
                    &&& i <= b < curves.len()
                    &&& #[trigger] curves[b] == w
                    &&& fan_named(w.0@) == Some(fan)
                    &&& forall|c: int|
                        i <= c < b ==> fan_named((#[trigger] curves[c]).0@) != Some(fan)
                },
        },
    decreases curves.len() - i,
{
    if i < curves.len() {
        lemma_curve_for(curves, fan, i + 1);
        if fan_named(curves[i].0@) == Some(fan) {
            assert(curves[i] == curves[i]);
        } else if let Some(w) = curve_for(curves, fan, i + 1) {
            let b = choose|b: int|
                {
                    &&& i + 1 <= b < curves.len()
                    &&& #[trigger] curves[b] == w
                    &&& fan_named(w.0@) == Some(fan)
                    &&& forall|c: int|
                        i + 1 <= c < b ==> fan_named((#[trigger] curves[c]).0@) != Some(fan)
                };
            assert(curves[b] == w);
        }
    }
}

proof fn lemma_curve_changes(
    profile: Profile,
    available: Seq<WireCurve>,
    curves: Seq<CurveConfig>,
    n: int,
)
    requires
        0 <= n,
    ensures
        curve_changes(profile, available, curves, n).len() == n,
        forall|j: int|
            0 <= j < n ==> {
                let c = #[trigger] curve_changes(profile, available, curves, n)[j];
                &&& c.profile == profile
                &&& c.desired == wired(curves[j])
                &&& c.snapshot == wire_view(curve_for(available, fan_named(curves[j].fan@)->0, 0)->0)
            },
    decreases n,
{
    if n > 0 {
        lemma_curve_changes(profile, available, curves, n - 1);
    }
}

proof fn lemma_planned(runtime: RuntimeState, profiles: Seq<ProfileConfig>, n: int, i: int, j: int)
    requires
        0 <= n <= profiles.len(),
    ensures
        planned_changes(runtime, profiles, n).len() == profiles.take(n).fold_left(
            0,
            |t: int, p: ProfileConfig| t + p.curves@.len(),
        ),
        0 <= i < n && 0 <= j < profiles[i].curves@.len() ==> {
            let at = profiles.take(i).fold_left(
                0,
                |t: int, p: ProfileConfig| t + p.curves@.len(),
            ) + j;
            let profile = profile_named(profiles[i].name@)->0;
            &&& 0 <= at < planned_changes(runtime, profiles, n).len()
            &&& planned_changes(runtime, profiles, n)[at] == curve_changes(
                profile,
                runtime.available(profile)->0,
                profiles[i].curves@,
                profiles[i].curves@.len() as int,
            )[j]
        },
    decreases n,
{
    if n > 0 {
        let p = profiles[n - 1];
        let profile = profile_named(p.name@)->0;
        let available = runtime.available(profile)->0;
        let before = planned_changes(runtime, profiles, n - 1);
        lemma_planned(runtime, profiles, n - 1, i, j);
        lemma_curve_changes(profile, available, p.curves@, p.curves@.len() as int);
        assert(profiles.take(n).drop_last() =~= profiles.take(n - 1));
        assert(profiles.take(n).last() == p);
        if 0 <= i < n - 1 && 0 <= j < profiles[i].curves@.len() {
            let at = profiles.take(i).fold_left(
                0,
                |t: int, p: ProfileConfig| t + p.curves@.len(),
            ) + j;
            assert(planned_changes(runtime, profiles, n)[at] == before[at]);
        }
    }
}

/// What is planned: every curve of every configured profile, once. There are as many
/// changes as there are curves in all profiles together, and the one of the `j`-th
/// curve of the `i`-th profile stands behind those of the profiles and curves before
/// it. It is for that profile; it stores the configured numbers, unscaled, under the
/// name of that fan; and its snapshot is the curve that the platform has for that
/// profile and that fan.
pub proof fn law_every_curve_is_planned(
    runtime: RuntimeState,
    profiles: Seq<ProfileConfig>,
    i: int,
    j: int,
)
    requires
        runtime.wf(),
        plan_error(runtime, profiles, 0) is None,
        0 <= i < profiles.len(),
        0 <= j < profiles[i].curves@.len(),
    ensures
        ({
            let planned = planned_changes(runtime, profiles, profiles.len() as int);
            let at = profiles.take(i).fold_left(
                0,
                |t: int, p: ProfileConfig| t + p.curves@.len(),
            ) + j;
            let change = planned[at];
            let c = profiles[i].curves@[j];
            &&& planned.len() == profiles.fold_left(
                0,
                |t: int, p: ProfileConfig| t + p.curves@.len(),
            )
            &&& 0 <= at < planned.len()
            &&& profile_named(profiles[i].name@) == Some(change.profile)
            &&& change.desired.enabled == c.enabled
            &&& change.desired.pwm.len() == 8 && c.pwm@.len() == 8
            &&& change.desired.temp.len() == 8 && c.temp@.len() == 8
            &&& forall|k: int|
                0 <= k < 8 ==> #[trigger] change.desired.pwm[k] == c.pwm@[k]
                    && change.desired.temp[k] == c.temp@[k]
            &&& fan_named(c.fan@) matches Some(fan) && change.desired.fan == fan.label()
            &&& exists|a: int, b: int|
                {
                    &&& 0 <= a < runtime.profiles@.len()
                    &&& runtime.profiles@[a] == change.profile
                    &&& forall|d: int|
                        a < d < runtime.profiles@.len() ==> #[trigger] runtime.profiles@[d]
                            != change.profile
                    &&& 0 <= b < runtime.curves@[a]@.len()
                    &&& change.snapshot == wire_view(#[trigger] runtime.curves@[a]@[b])
                    &&& fan_named(runtime.curves@[a]@[b].0@) == fan_named(c.fan@)
                    &&& forall|d: int|
                        0 <= d < b ==> fan_named((#[trigger] runtime.curves@[a]@[d]).0@)
                            != fan_named(c.fan@)
                }
        }),
{
    let n = profiles.len() as int;
    lemma_planned(runtime, profiles, n, i, j);
    assert(profiles.take(n) =~= profiles);
    lemma_profile_plans(runtime, profiles, 0, i);
    let c = profiles[i].curves@[j];
    let profile = profile_named(profiles[i].name@)->0;
    let available = runtime.available(profile)->0;
    lemma_curve_plans(profile, available, profiles[i].curves@, 0, j);
    lemma_curve_changes(profile, available, profiles[i].curves@, profiles[i].curves@.len() as int);
    let fan = fan_named(c.fan@)->0;
    let at = profiles.take(i).fold_left(0, |t: int, p: ProfileConfig| t + p.curves@.len()) + j;
    let change = planned_changes(runtime, profiles, n)[at];
    assert forall|k: int| 0 <= k < 8 implies #[trigger] change.desired.pwm[k] == c.pwm@[k]
        && change.desired.temp[k] == c.temp@[k] by {
        assert(c.pwm@[k] <= 255 && c.temp@[k] <= 255);
    }
    law_available(runtime, profile);
    law_curve_for(available, fan);
    let a = choose|a: int|
        {
            &&& 0 <= a < runtime.profiles@.len()
            &&& #[trigger] runtime.profiles@[a] == profile
            &&& runtime.curves@[a]@ == available
            &&& forall|b: int|
                a < b < runtime.profiles@.len() ==> #[trigger] runtime.profiles@[b] != profile
        };
    let w = curve_for(available, fan, 0)->0;
    let b = choose|b: int|
        {
            &&& 0 <= b < available.len()
            &&& #[trigger] available[b] == w
            &&& fan_named(w.0@) == Some(fan)
            &&& forall|c: int| 0 <= c < b ==> fan_named((#[trigger] available[c]).0@) != Some(fan)
        };
    assert(runtime.curves@[a]@[b] == w);
}

proof fn lemma_profile_plans(
    runtime: RuntimeState,
    profiles: Seq<ProfileConfig>,
    from: int,
    i: int,
)
    requires
        plan_error(runtime, profiles, from) is None,
        0 <= from <= i < profiles.len(),
    ensures
        profile_plan_error(runtime, profiles[i]) is None,
    decreases i - from,
{
    if from < i {
        lemma_profile_plans(runtime, profiles, from + 1, i);
    }
}

proof fn lemma_curve_plans(
    profile: Profile,
    available: Seq<WireCurve>,
    curves: Seq<CurveConfig>,
    from: int,
    j: int,
)
    requires
        changes_error(profile, available, curves, from) is None,
        0 <= from <= j < curves.len(),
    ensures
        change_error(profile, available, curves[j]) is None,
    decreases j - from,
{
    if from < j {
        lemma_curve_plans(profile, available, curves, from + 1, j);
    }
}

/// Whether the configured curve can be stored in the profile of the platform: the
/// fan is known, the profile has a curve for it, and there are eight temperatures and
/// eight PWM values, each of which fits a byte.
pub open spec fn can_be_stored(available: Seq<WireCurve>, c: CurveConfig) -> bool {
    &&& fan_named(c.fan@) is Some
    &&& exists|b: int|
        0 <= b < available.len() && fan_named((#[trigger] available[b]).0@) == fan_named(c.fan@)
    &&& c.temp@.len() == 8
    &&& c.pwm@.len() == 8
    &&& forall|k: int| 0 <= k < 8 ==> #[trigger] c.temp@[k] <= 255
    &&& forall|k: int| 0 <= k < 8 ==> #[trigger] c.pwm@[k] <= 255
}

/// A configuration is refused exactly where one of its profiles is unknown, is not
/// supported by the platform, or has a curve that cannot be stored there.
pub proof fn law_plan_refused_iff(runtime: RuntimeState, profiles: Seq<ProfileConfig>)
    requires
        runtime.wf(),
    ensures
        plan_error(runtime, profiles, 0) is None <==> forall|i: int|
            0 <= i < profiles.len() ==> {
                &&& profile_named((#[trigger] profiles[i]).name@) is Some
                &&& runtime.available(profile_named(profiles[i].name@)->0) is Some
                &&& forall|j: int|
                    0 <= j < profiles[i].curves@.len() ==> can_be_stored(
                        runtime.available(profile_named(profiles[i].name@)->0)->0,
                        #[trigger] profiles[i].curves@[j],
                    )
            },
{
    assert forall|i: int| 0 <= i < profiles.len() implies (profile_plan_error(
        runtime,
        #[trigger] profiles[i],
    ) is None <==> {
        &&& profile_named(profiles[i].name@) is Some
        &&& runtime.available(profile_named(profiles[i].name@)->0) is Some
        &&& forall|j: int|
            0 <= j < profiles[i].curves@.len() ==> can_be_stored(
                runtime.available(profile_named(profiles[i].name@)->0)->0,
                #[trigger] profiles[i].curves@[j],
            )
    }) by {
        if profile_named(profiles[i].name@) is Some {
            let profile = profile_named(profiles[i].name@)->0;
            if runtime.available(profile) is Some {
                lemma_changes_refused(
                    profile,
                    runtime.available(profile)->0,
                    profiles[i].curves@,
                    0,
                );
            }
        }
    }
    lemma_plan_refused(runtime, profiles, 0);
}

proof fn lemma_plan_refused(runtime: RuntimeState, profiles: Seq<ProfileConfig>, from: int)
    requires
        0 <= from <= profiles.len(),
    ensures
        plan_error(runtime, profiles, from) is None <==> forall|i: int|
            from <= i < profiles.len() ==> profile_plan_error(runtime, #[trigger] profiles[i]) is None,
    decreases profiles.len() - from,
{
    if from < profiles.len() {
        lemma_plan_refused(runtime, profiles, from + 1);
    }
}

proof fn lemma_changes_refused(
    profile: Profile,
    available: Seq<WireCurve>,
    curves: Seq<CurveConfig>,
    from: int,
)
    requires
        0 <= from <= curves.len(),
    ensures
        changes_error(profile, available, curves, from) is None <==> forall|j: int|
            from <= j < curves.len() ==> can_be_stored(available, #[trigger] curves[j]),
    decreases curves.len() - from,
{
    if from < curves.len() {
        lemma_changes_refused(profile, available, curves, from + 1);
        let c = curves[from];
        if fan_named(c.fan@) is Some {
            law_curve_for(available, fan_named(c.fan@)->0);
            if curve_for(available, fan_named(c.fan@)->0, 0) is Some {
                let w = curve_for(available, fan_named(c.fan@)->0, 0)->0;
                let b = choose|b: int|
                    0 <= b < available.len() && #[trigger] available[b] == w && fan_named(w.0@)
                        == fan_named(c.fan@);
                assert(fan_named(available[b].0@) == fan_named(c.fan@));
            }
        }
        assert((change_error(profile, available, c) is None) == can_be_stored(available, c));
    }
}

/// Whether the curve is among the curves, with every part of it.
pub open spec fn is_stored(w: WireCurve, curves: Seq<WireCurve>) -> bool {
    exists|k: int|
        {
            &&& 0 <= k < curves.len()
            &&& (#[trigger] curves[k]).0@ == w.0@
            &&& curves[k].1@ == w.1@
            &&& curves[k].2@ == w.2@
            &&& curves[k].3 == w.3
        }
}

proof fn lemma_stored(w: WireCurve, curves: Seq<WireCurve>)
    ensures
        wire_views(curves).contains(wire_view(w)) == is_stored(w, curves),
{
    if wire_views(curves).contains(wire_view(w)) {
        let k = choose|k: int| 0 <= k < curves.len() && wire_views(curves)[k] == wire_view(w);
        assert(curves[k].0@ == w.0@);
    }
    if is_stored(w, curves) {
        let k = choose|k: int|
            {
                &&& 0 <= k < curves.len()
                &&& (#[trigger] curves[k]).0@ == w.0@
                &&& curves[k].1@ == w.1@
                &&& curves[k].2@ == w.2@
                &&& curves[k].3 == w.3
            };
        assert(wire_views(curves)[k] == wire_view(w));
    }
}

/// A curve is found when read back exactly where one of those read is the same in
/// its fan, its eight PWM values, its eight temperatures, and in being enabled.
pub proof fn law_read_back_is_exact(w: WireCurve, curves: Seq<WireCurve>)
    ensures
        wire_views(curves).contains(wire_view(w)) <==> is_stored(w, curves),
{
    lemma_stored(w, curves);
}

/// A change counts as undone exactly where the snapshot was written, is there when
/// read back, and the active profile is the one from before; otherwise something is
/// said, and nothing that is said gets lost where both went wrong.
pub proof fn law_change_undone_iff(
    profile: Profile,
    snapshot: WireCurve,
    wrote: Option<String>,
    read: Result<Vec<WireCurve>, String>,
    active: Result<(), Failure>,
)
    ensures
        ({
            let said = both(put_back_error(profile, snapshot, wrote, read), head_of(active));
            &&& said is None <==> {
                &&& wrote is None
                &&& read matches Ok(v) && is_stored(snapshot, v@)
                &&& active is Ok
            }
            &&& active matches Err(f) ==> said matches Some(m) && f.head@.is_suffix_of(m)
        }),
{
    if let Ok(v) = read {
        lemma_stored(snapshot, v@);
    }
    if let Err(f) = active {
        let said = both(put_back_error(profile, snapshot, wrote, read), head_of(active))->0;
        assert(f.head@ =~= said.subrange(said.len() - f.head@.len(), said.len() as int));
    }
}

/// A reset counts as undone exactly where every snapshot was written, all of them are
/// there when read back, and the active profile is the one from before.
pub proof fn law_reset_undone_iff(
    profile: Profile,
    snapshots: Seq<WireCurve>,
    wrote: Seq<Option<String>>,
    read: Result<Vec<WireCurve>, String>,
    active: Result<(), Failure>,
)
    requires
        wrote.len() == snapshots.len(),
    ensures
        undo_reset_errors(profile, snapshots, wrote, read, active).len() == 0 <==> {
            &&& forall|k: int| 0 <= k < wrote.len() ==> #[trigger] wrote[k] is None
            &&& read matches Ok(v) && forall|k: int|
                0 <= k < snapshots.len() ==> is_stored(#[trigger] snapshots[k], v@)
            &&& active is Ok
        },
{
    lemma_put_back_failures(profile, snapshots, wrote, snapshots.len() as int);
    if let Ok(v) = read {
        lemma_missing_curves(profile, snapshots, v@, snapshots.len() as int);
    }
}

proof fn lemma_put_back_failures(
    profile: Profile,
    snapshots: Seq<WireCurve>,
    wrote: Seq<Option<String>>,
    n: int,
)
    requires
        0 <= n <= wrote.len(),
    ensures
        put_back_failures(profile, snapshots, wrote, n).len() == 0 <==> forall|k: int|
            0 <= k < n ==> #[trigger] wrote[k] is None,
    decreases n,
{
    if n > 0 {
        lemma_put_back_failures(profile, snapshots, wrote, n - 1);
    }
}

proof fn lemma_missing_curves(
    profile: Profile,
    snapshots: Seq<WireCurve>,
    curves: Seq<WireCurve>,
    n: int,
)
    requires
        0 <= n <= snapshots.len(),
    ensures
        missing_curves(profile, snapshots, curves, n).len() == 0 <==> forall|k: int|
            0 <= k < n ==> is_stored(#[trigger] snapshots[k], curves),
    decreases n,
{
    if n > 0 {
        lemma_missing_curves(profile, snapshots, curves, n - 1);
        lemma_stored(snapshots[n - 1], curves);
    }
}

/// Resetting is refused exactly where the profile is unknown, is not supported by the
/// platform, or has no curves to put back.
pub proof fn law_reset_refused_iff(runtime: RuntimeState, requested: Seq<char>)
    ensures
        reset_error(runtime, requested) is None <==> {
            &&& profile_named(requested) matches Some(p)
            &&& runtime.available(p) matches Some(curves)
            &&& curves.len() > 0
        },
{
}

/// Curves have a fan exactly where one of them is of that fan.
pub proof fn law_has_fan(curves: Seq<WireCurve>, fan: Fan)
    ensures
        has_fan(curves, fan) <==> exists|k: int|
            0 <= k < curves.len() && fan_named((#[trigger] curves[k]).0@) == Some(fan),
{
}

/// A reset is verified exactly where the curves could be read back, all fans before
/// and after are known, there are as many curves as before, and the fans that have
/// one are the same as before.
pub proof fn law_reset_verified_iff(
    profile: Profile,
    snapshots: Seq<WireCurve>,
    read: Result<Vec<WireCurve>, String>,
)
    ensures
        reset_check(profile, snapshots, read) is None <==> {
            &&& read matches Ok(v)
            &&& v@.len() == snapshots.len()
            &&& forall|k: int|
                0 <= k < v@.len() ==> fan_named((#[trigger] v@[k]).0@) is Some
            &&& forall|k: int|
                0 <= k < snapshots.len() ==> fan_named((#[trigger] snapshots[k]).0@) is Some
            &&& forall|f: Fan| #[trigger] has_fan(v@, f) <==> has_fan(snapshots, f)
        },
{
    if let Ok(v) = read {
        lemma_unknown_fan(v@, 0);
        lemma_unknown_fan(snapshots, 0);
        if same_fans(v@, snapshots) {
            assert forall|f: Fan| #[trigger] has_fan(v@, f) <==> has_fan(snapshots, f) by {
                match f {
                    Fan::Cpu => {},
                    Fan::Gpu => {},
                    Fan::Mid => {},
                }
            }
        }
    }
}

proof fn lemma_unknown_fan(curves: Seq<WireCurve>, i: int)
    requires
        0 <= i <= curves.len(),
    ensures
        unknown_fan(curves, i) is None <==> forall|k: int|
            i <= k < curves.len() ==> fan_named((#[trigger] curves[k]).0@) is Some,
    decreases curves.len() - i,
{
    if i < curves.len() {
        lemma_unknown_fan(curves, i + 1);
    }
}

/// A failed transaction says that it was rolled back exactly where no rollback
/// failed, and otherwise names every failure of a rollback, in order.
pub proof fn law_rollback_failures_told(e: TransactionError)
    ensures
        told(e.rollback@, e.rollback@.len() as int) == e.rollback@.filter(
            |m: Option<String>| m is Some,
        ).map_values(|m: Option<String>| m->0@),
        (forall|k: int| 0 <= k < e.rollback@.len() ==> #[trigger] e.rollback@[k] is None)
            ==> e.head_text() == "asusd transaction rolled back"@,
{
    lemma_told(e.rollback@, e.rollback@.len() as int);
    assert(e.rollback@.take(e.rollback@.len() as int) =~= e.rollback@);
    if forall|k: int| 0 <= k < e.rollback@.len() ==> #[trigger] e.rollback@[k] is None {
        lemma_nothing_told(e.rollback@, e.rollback@.len() as int);
    }
}

proof fn lemma_told(rollback: Seq<Option<String>>, n: int)
    requires
        0 <= n <= rollback.len(),
    ensures
        told(rollback, n) == rollback.take(n).filter(|m: Option<String>| m is Some).map_values(
            |m: Option<String>| m->0@,
        ),
    decreases n,
{
    reveal(Seq::filter);
    let pred = |m: Option<String>| m is Some;
    let text = |m: Option<String>| m->0@;
    if n > 0 {
        lemma_told(rollback, n - 1);
        assert(rollback.take(n).drop_last() =~= rollback.take(n - 1));
        assert(rollback.take(n).last() == rollback[n - 1]);
    }
    assert(told(rollback, n) =~= rollback.take(n).filter(pred).map_values(text));
}

proof fn lemma_nothing_told(rollback: Seq<Option<String>>, n: int)
    requires
        0 <= n <= rollback.len(),
        forall|k: int| 0 <= k < n ==> #[trigger] rollback[k] is None,
    ensures
        told(rollback, n).len() == 0,
    decreases n,
{
    if n > 0 {
        lemma_nothing_told(rollback, n - 1);
    }
}

/// Reading the active profile gives the profile exactly where a number was read that is
/// one of a profile's, and then it is that number.
pub proof fn law_active_read(read: Result<u32, String>, context: Option<Seq<char>>)
    ensures
        match active_read(read, context) {
            Ok(id) => read == Ok::<u32, String>(id) && id <= 4,
            Err(_) => read matches Ok(id) ==> id > 4,
        },
{
}

/// Profiles are numbered from nought to four, and no two share a number.
pub proof fn law_profile_numbers(p: Profile, id: u32)
    ensures
        p.number() <= 4,
        profile_of(p.number()) == p,
        id <= 4 ==> profile_of(id).number() == id,
        p.number() == 0 <==> p == Profile::Balanced,
        p.number() == 1 <==> p == Profile::Performance,
        p.number() == 2 <==> p == Profile::Quiet,
        p.number() == 3 <==> p == Profile::LowPower,
        p.number() == 4 <==> p == Profile::Custom,
{
}

/// What is said of putting back names each write that failed, in the order of the
/// writes, with the snapshot that it was to write, the last snapshot first; it is
/// nothing exactly where no write failed.
pub proof fn law_put_back_failures(
    profile: Profile,
    snapshots: Seq<WireCurve>,
    wrote: Seq<Option<String>>,
    n: int,
)
    requires
        0 <= n <= wrote.len(),
        wrote.len() <= snapshots.len(),
    ensures
        put_back_failures(profile, snapshots, wrote, n) == Seq::new(n as nat, |i: int| i).filter(
            |i: int| wrote[i] is Some,
        ).map_values(
            |i: int|
                "restore "@ + curve_id(profile, snapshots[snapshots.len() - 1 - i].0@)
                    + " fan curve: "@ + wrote[i]->Some_0@,
        ),
    decreases n,
{
    reveal(Seq::filter);
    let pred = |i: int| wrote[i] is Some;
    let told = |i: int|
        "restore "@ + curve_id(profile, snapshots[snapshots.len() - 1 - i].0@) + " fan curve: "@
            + wrote[i]->Some_0@;
    let all = Seq::new(n as nat, |i: int| i);
    if n > 0 {
        law_put_back_failures(profile, snapshots, wrote, n - 1);
        let rest = Seq::new((n - 1) as nat, |i: int| i);
        assert(all.drop_last() =~= rest);
        assert(all.last() == n - 1);
        if pred(n - 1) {
            assert(rest.filter(pred).push(n - 1).map_values(told) =~= rest.filter(pred).map_values(
                told,
            ).push(told(n - 1)));
        }
    }
    assert(put_back_failures(profile, snapshots, wrote, n) =~= all.filter(pred).map_values(told));
}

/// The status tells every supported profile, in order, each by a line with its name and
/// then one line for each of its curves, in order.
pub proof fn law_status_tells_all(runtime: RuntimeState)
    ensures
        profile_lines(runtime, runtime.profiles@.len() as int) == runtime.profiles@.fold_left(
            Seq::<Seq<char>>::empty(),
            |t: Seq<Seq<char>>, p: Profile|
                t + seq!["  "@ + p.label() + ":"@] + runtime.available(p)->0.map_values(
                    |w: WireCurve| curve_text("    "@, wire_view(w)),
                ),
        ),
{
    let n = runtime.profiles@.len() as int;
    assert(runtime.profiles@.take(n) =~= runtime.profiles@);
    lemma_profile_lines(
        runtime,
        |t: Seq<Seq<char>>, p: Profile|
            t + seq!["  "@ + p.label() + ":"@] + runtime.available(p)->0.map_values(
                |w: WireCurve| curve_text("    "@, wire_view(w)),
            ),
        n,
    );
}

proof fn lemma_profile_lines(
    runtime: RuntimeState,
    more: spec_fn(Seq<Seq<char>>, Profile) -> Seq<Seq<char>>,
    n: int,
)
    requires
        0 <= n <= runtime.profiles@.len(),
        forall|t: Seq<Seq<char>>, p: Profile| #[trigger]
            more(t, p) == t + seq!["  "@ + p.label() + ":"@] + runtime.available(p)->0.map_values(
                |w: WireCurve| curve_text("    "@, wire_view(w)),
            ),
    ensures
        profile_lines(runtime, n) == runtime.profiles@.take(n).fold_left(
            Seq::<Seq<char>>::empty(),
            more,
        ),
    decreases n,
{
    if n > 0 {
        lemma_profile_lines(runtime, more, n - 1);
        let s = runtime.profiles@.take(n);
        assert(s.drop_last() =~= runtime.profiles@.take(n - 1));
        let p = runtime.profiles@[n - 1];
        let curves = runtime.available(p)->0;
        let before = profile_lines(runtime, n - 1);
        let title = "  "@ + p.label() + ":"@;
        assert(curve_lines(curves, curves.len() as int) =~= curves.map_values(
            |w: WireCurve| curve_text("    "@, wire_view(w)),
        ));
        assert(before.push(title) =~= before + seq![title]);
        assert(s.fold_left(Seq::<Seq<char>>::empty(), more) == more(
            s.drop_last().fold_left(Seq::<Seq<char>>::empty(), more),
            s.last(),
        ));
    }
}

} // verus!
