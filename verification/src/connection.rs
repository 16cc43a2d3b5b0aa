//! Connection strings of the form `call@host:port`, and the retry budget of a
//! listener that tries to connect.

use vstd::prelude::*;

use crate::text::{
    all_ascii_digits, chars_of, decimal_digits, decimal_value, last_index_before, last_index_of,
    lemma_decimal_digits_valid, lemma_last_index_before_bounds, lemma_last_index_before_is,
    parse_u16_digits, string_of,
};

verus! {

/// A cluster server to listen to, with the callsign to log in with.
pub struct ConnectionInfo {
    pub callsign: String,
    pub host: String,
    pub port: u16,
}

impl View for ConnectionInfo {
    type V = (Seq<char>, Seq<char>, u16);

    open spec fn view(&self) -> (Seq<char>, Seq<char>, u16) {
        (self.callsign@, self.host@, self.port)
    }
}


/// What a connection string means: callsign, host and port.
///
/// A connection string is `call@host:port` with a nonempty callsign and host
/// and no line break anywhere. The port is everything after the last `:`; it
/// must be a nonempty run of ASCII digits whose value fits in 16 bits. The
/// callsign is as long as it can be: the separating `@` is the last one that
/// still leaves a nonempty host before that `:`.
pub open spec fn constring_meaning(s: Seq<char>) -> Option<(Seq<char>, Seq<char>, u16)> {
    let colon: int = last_index_before(s, ':', s.len() as int);
    let at: int = last_index_before(s, '@', colon - 1);
    let port = s.subrange(colon + 1, s.len() as int);
    if !s.contains('\n') && colon >= 0 && at >= 1 && port.len() > 0 && all_ascii_digits(port)
        && decimal_value(port) <= 65535 {
        Some((s.subrange(0, at), s.subrange(at + 1, colon), decimal_value(port) as u16))
    } else {
        None
    }
}

/// The connection string for a callsign, a host and a port.
pub open spec fn constring_text(callsign: Seq<char>, host: Seq<char>, port: u16) -> Seq<char> {
    callsign + seq!['@'] + host + seq![':'] + decimal_digits(port as nat)
}

/// The meaning of a parse result, for contracts.
pub open spec fn info_meaning(r: Option<ConnectionInfo>) -> Option<(Seq<char>, Seq<char>, u16)> {
    match r {
        Some(info) => Some(info@),
        None => None,
    }
}




/// Whether `c` occurs in `v`.
fn contains_char(v: &Vec<char>, c: char) -> (r: bool)
    ensures
        r == v@.contains(c),
{
    let mut i: usize = 0;
    while i < v.len()
        invariant
            i <= v.len(),
            forall|j: int| 0 <= j < i ==> v@[j] != c,
        decreases v.len() - i,
    {
        if v[i] == c {
            assert(v@[i as int] == c);
            return true;
        }
        i = i + 1;
    }
    false
}

/// The string made of `v[start..end]`.
fn string_of_range(v: &Vec<char>, start: usize, end: usize) -> (r: String)
    requires
        start <= end <= v.len(),
    ensures
        r@ == v@.subrange(start as int, end as int),
{
    let mut part: Vec<char> = Vec::new();
    let mut i: usize = start;
    while i < end
        invariant
            start <= i <= end <= v.len(),
            part@ == v@.subrange(start as int, i as int),
        decreases end - i,
    {
        part.push(v[i]);
        i = i + 1;
        assert(part@ =~= v@.subrange(start as int, i as int));
    }
    string_of(&part)
}

/// Parses a connection string of the form `call@host:port`.
pub fn parse_constring(raw: &str) -> (r: Option<ConnectionInfo>)
    ensures
        info_meaning(r) == constring_meaning(raw@),
{
    let s = chars_of(raw);
    if contains_char(&s, '\n') {
        return None;
    }
    let colon: usize = match last_index_of(&s, ':', s.len()) {
        Some(k) => k,
        None => {
            return None;
        },
    };
    proof {
        lemma_last_index_before_bounds(s@, ':', s.len() as int);
    }
    if colon < 2 {
        proof {
            lemma_last_index_before_bounds(s@, '@', colon - 1);
        }
        return None;
    }
    let at: usize = match last_index_of(&s, '@', colon - 1) {
        Some(k) => k,
        None => {
            return None;
        },
    };
    proof {
        lemma_last_index_before_bounds(s@, '@', colon - 1);
    }
    if at < 1 {
        return None;
    }
    let port: u16 = match parse_u16_digits(&s, colon + 1, s.len()) {
        Some(p) => p,
        None => {
            return None;
        },
    };
    let callsign = string_of_range(&s, 0, at);
    let host = string_of_range(&s, at + 1, colon);
    Some(ConnectionInfo { callsign, host, port })
}

/// Reading back a connection string written from a callsign, a host and a
/// port gives them back, provided both names are nonempty, hold no line
/// break, and the host holds no `@`.
pub proof fn lemma_constring_round_trip(callsign: Seq<char>, host: Seq<char>, port: u16)
    requires
        callsign.len() > 0,
        host.len() > 0,
        !callsign.contains('\n'),
        !host.contains('\n'),
        !host.contains('@'),
    ensures
        constring_meaning(constring_text(callsign, host, port)) == Some((callsign, host, port)),
{
    let digits = decimal_digits(port as nat);
    lemma_decimal_digits_valid(port as nat);
    let s = constring_text(callsign, host, port);
    let colon: int = callsign.len() as int + 1 + host.len() as int;
    let at: int = callsign.len() as int;
    assert(s[colon] == ':');
    assert forall|j: int| colon < j < s.len() implies s[j] != ':' by {
        assert(s[j] == digits[j - colon - 1]);
    }
    lemma_last_index_before_is(s, ':', s.len() as int, colon);
    assert(s[at] == '@');
    assert forall|j: int| at < j < colon - 1 implies s[j] != '@' by {
        assert(s[j] == host[j - at - 1]);
    }
    lemma_last_index_before_is(s, '@', colon - 1, at);
    assert(s.subrange(colon + 1, s.len() as int) =~= digits);
    assert(s.subrange(0, at) =~= callsign);
    assert(s.subrange(at + 1, colon) =~= host);
    assert(!s.contains('\n')) by {
        if s.contains('\n') {
            let j = choose|j: int| 0 <= j < s.len() && s[j] == '\n';
            if j < at {
                assert(callsign[j] == '\n');
            } else if at < j < colon {
                assert(host[j - at - 1] == '\n');
            } else if j > colon {
                assert(digits[j - colon - 1] == '\n');
            }
        }
    }
}

/// Whatever a connection string is read as, the string is made of the
/// callsign, `@`, the host, `:`, and the port written in ASCII digits (leading
/// zeros allowed); callsign and host are nonempty, and no part holds a line
/// break.
pub proof fn lemma_constring_parts(s: Seq<char>)
    requires
        constring_meaning(s) is Some,
    ensures
        ({
            let (callsign, host, port) = constring_meaning(s).unwrap();
            let digits = s.subrange(callsign.len() + host.len() + 2int, s.len() as int);
            &&& callsign.len() > 0
            &&& host.len() > 0
            &&& !s.contains('\n')
            &&& s == callsign + seq!['@'] + host + seq![':'] + digits
            &&& digits.len() > 0
            &&& all_ascii_digits(digits)
            &&& decimal_value(digits) == port
        }),
{
    let colon: int = last_index_before(s, ':', s.len() as int);
    let at: int = last_index_before(s, '@', colon - 1);
    lemma_last_index_before_bounds(s, ':', s.len() as int);
    lemma_last_index_before_bounds(s, '@', colon - 1);
    let (callsign, host, port) = constring_meaning(s).unwrap();
    assert(callsign =~= s.subrange(0, at));
    assert(host =~= s.subrange(at + 1, colon));
    let digits = s.subrange(callsign.len() + host.len() + 2int, s.len() as int);
    assert(digits =~= s.subrange(colon + 1, s.len() as int));
    assert(s =~= callsign + seq!['@'] + host + seq![':'] + digits);
}

} // verus!

verus! {

/// How many more connection attempts a listener may make.
pub struct RetryBudget {
    remaining: u64,
}

/// One failed attempt: the budget left, and whether the listener is given up.
/// A budget of 0 or 1 attempts is used up by the failure.
pub open spec fn after_failure(remaining: nat) -> (nat, bool) {
    if remaining <= 1 {
        (0, true)
    } else {
        ((remaining - 1) as nat, false)
    }
}

/// The answers to `failures` failed attempts in a row, from a budget of `remaining`.
pub open spec fn failure_answers(remaining: nat, failures: nat) -> Seq<bool>
    decreases failures,
{
    if failures == 0 {
        Seq::empty()
    } else {
        let (left, give_up) = after_failure(remaining);
        seq![give_up] + failure_answers(left, (failures - 1) as nat)
    }
}

/// The number of attempts a listener makes before it is given up: the
/// configured retries, and at least one.
pub open spec fn attempts_allowed(retries: nat) -> nat {
    if retries == 0 {
        1
    } else {
        retries
    }
}

impl View for RetryBudget {
    type V = nat;

    closed spec fn view(&self) -> nat {
        self.remaining as nat
    }
}

impl RetryBudget {
    /// A budget of `retries` attempts.
    pub fn new(retries: u64) -> (r: Self)
        ensures
            r@ == retries,
    {
        RetryBudget { remaining: retries }
    }

    /// The attempts left.
    pub fn remaining(&self) -> (r: u64)
        ensures
            r == self@,
    {
        self.remaining
    }

    /// Records a failed attempt; returns whether the listener is to be given up.
    pub fn record_failure(&mut self) -> (give_up: bool)
        ensures
            (final(self)@, give_up) == after_failure(old(self)@),
    {
        if self.remaining <= 1 {
            self.remaining = 0;
            true
        } else {
            self.remaining = self.remaining - 1;
            false
        }
    }
}

/// A listener configured with `retries` is given up at its
/// `attempts_allowed(retries)`-th failed attempt (its `retries`-th, or its
/// first when `retries` is 0), and not before.
pub proof fn lemma_given_up_after_retries(retries: nat)
    ensures
        attempts_allowed(retries) == if retries == 0 {
            1
        } else {
            retries
        },
        failure_answers(retries, attempts_allowed(retries)).len() == attempts_allowed(retries),
        forall|k: int|
            0 <= k < attempts_allowed(retries) ==> #[trigger] failure_answers(
                retries,
                attempts_allowed(retries),
            )[k] == (k == attempts_allowed(retries) - 1),
    decreases retries,
{
    let n = attempts_allowed(retries);
    let s = failure_answers(retries, n);
    if retries <= 1 {
        assert(failure_answers(0, 0) == Seq::<bool>::empty());
        assert(s =~= seq![true]);
    } else {
        let r1 = (retries - 1) as nat;
        lemma_given_up_after_retries(r1);
        assert(attempts_allowed(r1) == r1);
        assert(s == seq![false] + failure_answers(r1, r1));
        assert forall|k: int| 0 <= k < n implies #[trigger] s[k] == (k == n - 1) by {
            if k > 0 {
                assert(s[k] == failure_answers(r1, r1)[k - 1]);
            }
        }
    }
}

/// Where the task that connects a listener stands.
#[derive(Clone, Copy, PartialEq, Eq, Structural, Debug)]
pub enum ConnectPhase {
    /// An attempt to connect is under way.
    Connecting,
    /// Waiting before the next attempt.
    BackingOff,
    /// The task is over.
    Finished,
}

/// What happened to the task that connects a listener.
#[derive(Clone, Copy, PartialEq, Eq, Structural, Debug)]
pub enum ConnectEvent {
    /// The application is shutting down.
    Shutdown,
    /// The listener connected.
    Connected,
    /// The attempt to connect failed.
    AttemptFailed,
    /// The wait before the next attempt is over.
    BackoffElapsed,
}

/// What the task that connects a listener does next.
#[derive(Clone, Copy, PartialEq, Eq, Structural, Debug)]
pub enum ConnectAction {
    /// End the task.
    Stop,
    /// Add the connected listener to the running ones, and end the task.
    Register,
    /// Count the listener as lost, and end the task.
    GiveUp,
    /// Wait for the backoff delay.
    Wait,
    /// Try to connect again.
    Attempt,
    /// The event does not fit the phase: nothing changes.
    Ignore,
}

/// One step of the connecting task: from its budget and phase and an event,
/// the next budget and phase and the action to take.
pub open spec fn connect_transition(state: (nat, ConnectPhase), event: ConnectEvent) -> (
    (nat, ConnectPhase),
    ConnectAction,
) {
    let (remaining, phase) = state;
    match phase {
        ConnectPhase::Finished => (state, ConnectAction::Ignore),
        ConnectPhase::Connecting => match event {
            ConnectEvent::Shutdown => ((remaining, ConnectPhase::Finished), ConnectAction::Stop),
            ConnectEvent::Connected => (
                (remaining, ConnectPhase::Finished),
                ConnectAction::Register,
            ),
            ConnectEvent::AttemptFailed => {
                let (left, give_up) = after_failure(remaining);
                if give_up {
                    ((left, ConnectPhase::Finished), ConnectAction::GiveUp)
                } else {
                    ((left, ConnectPhase::BackingOff), ConnectAction::Wait)
                }
            },
            ConnectEvent::BackoffElapsed => (state, ConnectAction::Ignore),
        },
        ConnectPhase::BackingOff => match event {
            ConnectEvent::Shutdown => ((remaining, ConnectPhase::Finished), ConnectAction::Stop),
            ConnectEvent::BackoffElapsed => (
                (remaining, ConnectPhase::Connecting),
                ConnectAction::Attempt,
            ),
            _ => (state, ConnectAction::Ignore),
        },
    }
}

/// The state after `rounds` rounds of a failed attempt followed by the end of
/// the backoff delay.
pub open spec fn failed_rounds(state: (nat, ConnectPhase), rounds: nat) -> (nat, ConnectPhase)
    decreases rounds,
{
    if rounds == 0 {
        state
    } else {
        let after_fail = connect_transition(state, ConnectEvent::AttemptFailed).0;
        failed_rounds(
            connect_transition(after_fail, ConnectEvent::BackoffElapsed).0,
            (rounds - 1) as nat,
        )
    }
}

/// The task that connects a listener: its retry budget and its phase.
pub struct ConnectTask {
    budget: RetryBudget,
    phase: ConnectPhase,
}

impl View for ConnectTask {
    type V = (nat, ConnectPhase);

    closed spec fn view(&self) -> (nat, ConnectPhase) {
        (self.budget@, self.phase)
    }
}

impl ConnectTask {
    /// A task that starts connecting, with `retries` attempts.
    pub fn new(retries: u64) -> (r: Self)
        ensures
            r@ == (retries as nat, ConnectPhase::Connecting),
    {
        ConnectTask { budget: RetryBudget::new(retries), phase: ConnectPhase::Connecting }
    }

    /// The phase the task is in.
    pub fn phase(&self) -> (r: ConnectPhase)
        ensures
            r == self@.1,
    {
        self.phase
    }

    /// Handles `event`; returns the action to take.
    pub fn step(&mut self, event: ConnectEvent) -> (r: ConnectAction)
        ensures
            (final(self)@, r) == connect_transition(old(self)@, event),
    {
        match self.phase {
            ConnectPhase::Finished => ConnectAction::Ignore,
            ConnectPhase::Connecting => match event {
                ConnectEvent::Shutdown => {
                    self.phase = ConnectPhase::Finished;
                    ConnectAction::Stop
                },
                ConnectEvent::Connected => {
                    self.phase = ConnectPhase::Finished;
                    ConnectAction::Register
                },
                ConnectEvent::AttemptFailed => {
                    if self.budget.record_failure() {
                        self.phase = ConnectPhase::Finished;
                        ConnectAction::GiveUp
                    } else {
                        self.phase = ConnectPhase::BackingOff;
                        ConnectAction::Wait
                    }
                },
                ConnectEvent::BackoffElapsed => ConnectAction::Ignore,
            },
            ConnectPhase::BackingOff => match event {
                ConnectEvent::Shutdown => {
                    self.phase = ConnectPhase::Finished;
                    ConnectAction::Stop
                },
                ConnectEvent::BackoffElapsed => {
                    self.phase = ConnectPhase::Connecting;
                    ConnectAction::Attempt
                },
                _ => ConnectAction::Ignore,
            },
        }
    }
}

/// Once the task is over, every event is ignored and nothing changes.
pub proof fn lemma_finished_task_ignores_events(remaining: nat, event: ConnectEvent)
    ensures
        connect_transition((remaining, ConnectPhase::Finished), event) == (
            (remaining, ConnectPhase::Finished),
            ConnectAction::Ignore,
        ),
{
}

/// The task ends at every shutdown, connection, or given-up listener, and
/// only at these: a step finishes the task exactly when it answers `Stop`,
/// `Register` or `GiveUp`.
pub proof fn lemma_task_ends_on_final_actions(state: (nat, ConnectPhase), event: ConnectEvent)
    requires
        state.1 != ConnectPhase::Finished,
    ensures
        connect_transition(state, event).0.1 == ConnectPhase::Finished <==> (connect_transition(
            state,
            event,
        ).1 == ConnectAction::Stop || connect_transition(state, event).1 == ConnectAction::Register
            || connect_transition(state, event).1 == ConnectAction::GiveUp),
{
}

proof fn lemma_failed_rounds(remaining: nat, rounds: nat)
    requires
        rounds + 1 <= remaining,
    ensures
        failed_rounds((remaining, ConnectPhase::Connecting), rounds) == (
            (remaining - rounds) as nat,
            ConnectPhase::Connecting,
        ),
    decreases rounds,
{
    if rounds > 0 {
        lemma_failed_rounds((remaining - 1) as nat, (rounds - 1) as nat);
    }
}

/// When no attempt succeeds and no shutdown comes, the task waits and tries
/// again after each of the first `attempts_allowed(retries) - 1` failures,
/// and gives the listener up at the next failure.
pub proof fn lemma_connect_gives_up_after_retries(retries: nat)
    ensures
        attempts_allowed(retries) == if retries == 0 {
            1
        } else {
            retries
        },
        forall|k: nat|
            k + 1 < attempts_allowed(retries) ==> #[trigger] connect_transition(
                failed_rounds((retries, ConnectPhase::Connecting), k),
                ConnectEvent::AttemptFailed,
            ).1 == ConnectAction::Wait,
        connect_transition(
            failed_rounds(
                (retries, ConnectPhase::Connecting),
                (attempts_allowed(retries) - 1) as nat,
            ),
            ConnectEvent::AttemptFailed,
        ) == ((0nat, ConnectPhase::Finished), ConnectAction::GiveUp),
{
    let n = attempts_allowed(retries);
    assert forall|k: nat| k + 1 < n implies #[trigger] connect_transition(
        failed_rounds((retries, ConnectPhase::Connecting), k),
        ConnectEvent::AttemptFailed,
    ).1 == ConnectAction::Wait by {
        lemma_failed_rounds(retries, k);
    }
    if retries > 0 {
        lemma_failed_rounds(retries, (n - 1) as nat);
    }
}

/// A listener that connects is always registered, whatever budget of
/// attempts is left, and the task ends there.
pub proof fn lemma_connected_registers(remaining: nat)
    ensures
        connect_transition((remaining, ConnectPhase::Connecting), ConnectEvent::Connected) == (
            (remaining, ConnectPhase::Finished),
            ConnectAction::Register,
        ),
{
}

/// A listener that connects after some failed attempts (each followed by
/// the backoff delay) is registered, as long as it was not given up before.
pub proof fn lemma_connected_after_failures_registers(retries: nat, failures: nat)
    requires
        failures + 1 <= retries,
    ensures
        connect_transition(
            failed_rounds((retries, ConnectPhase::Connecting), failures),
            ConnectEvent::Connected,
        ).1 == ConnectAction::Register,
{
    lemma_failed_rounds(retries, failures);
}

/// A shutdown ends the task from any phase but the last, without
/// registering or giving up the listener.
pub proof fn lemma_shutdown_stops(remaining: nat, phase: ConnectPhase)
    requires
        phase != ConnectPhase::Finished,
    ensures
        connect_transition((remaining, phase), ConnectEvent::Shutdown) == (
            (remaining, ConnectPhase::Finished),
            ConnectAction::Stop,
        ),
{
}

/// Each failed attempt uses up one attempt of the budget; the listener is
/// given up exactly at the failure that uses up the last attempt (or at once
/// when no attempt was left).
pub proof fn lemma_failure_uses_one_attempt(remaining: nat)
    ensures
        remaining >= 2 ==> after_failure(remaining) == ((remaining - 1) as nat, false),
        remaining <= 1 ==> after_failure(remaining) == (0nat, true),
{
}

/// After the backoff delay the task tries again, keeping its budget.
pub proof fn lemma_backoff_then_attempt(remaining: nat)
    ensures
        connect_transition((remaining, ConnectPhase::BackingOff), ConnectEvent::BackoffElapsed) == (
            (remaining, ConnectPhase::Connecting),
            ConnectAction::Attempt,
        ),
        connect_transition((remaining + 2, ConnectPhase::Connecting), ConnectEvent::AttemptFailed)
            == (((remaining + 1) as nat, ConnectPhase::BackingOff), ConnectAction::Wait),
{
}

} // verus!
