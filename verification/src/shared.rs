use vstd::prelude::*;
use crate::trace::{run, stays_open, work, Call, Line, Work};

verus! {

/// What happens, step by step, to a channel that several holders share
/// behind one lock.
pub enum Event {
    /// A caller gets the lock for its call. Callers that wait for the lock
    /// do nothing to the channel, so they do not show up here.
    Acquire(Call),
    /// The write of the caller that holds the lock gets this many more of
    /// its bytes through.
    Push(nat),
    /// The caller that holds the lock has done its work and gives the lock
    /// back.
    Release,
    /// The caller that holds the lock stops before its work is done, because
    /// the I/O failed or the caller itself was abandoned, and the lock comes
    /// back all the same.
    GiveUp,
}

/// The call that holds the lock, and how many of its bytes the sink has.
pub struct Turn {
    pub call: Call,
    pub sent: nat,
}

/// A shared channel: the line, and the turn of whoever holds the lock.
pub struct Shared {
    pub line: Line,
    pub turn: Option<Turn>,
}

/// A shared channel that nobody works on.
pub open spec fn idle(line: Line) -> Shared {
    Shared { line, turn: None }
}

/// The bytes that the call holding the lock has to deliver in all.
pub open spec fn owed(shared: Shared) -> Seq<u8> {
    match shared.turn {
        Some(turn) => match work(shared.line.open, turn.call) {
            Work::Deliver(bytes) => bytes,
            _ => Seq::empty(),
        },
        None => Seq::empty(),
    }
}

/// What the lock and the channel's `&mut` operations let happen: the lock is
/// taken only when it is free, bytes are pushed only by the call that holds
/// it and only as far as it has any, and the lock comes back when the work
/// is done or given up.
pub open spec fn allowed(shared: Shared, event: Event) -> bool {
    match event {
        Event::Acquire(_) => shared.turn.is_none(),
        Event::Push(n) => shared.turn.is_some() && shared.turn.unwrap().sent + n <= owed(
            shared,
        ).len(),
        Event::Release => shared.turn.is_some() && shared.turn.unwrap().sent == owed(shared).len(),
        Event::GiveUp => shared.turn.is_some(),
    }
}

/// The shared channel after one event.
pub open spec fn after(shared: Shared, event: Event) -> Shared {
    match event {
        Event::Acquire(call) => Shared { line: shared.line, turn: Some(Turn { call, sent: 0 }) },
        Event::Push(n) => {
            let turn = shared.turn.unwrap();
            Shared {
                line: Line {
                    open: shared.line.open,
                    received: shared.line.received + owed(shared).subrange(
                        turn.sent as int,
                        (turn.sent + n) as int,
                    ),
                },
                turn: Some(Turn { call: turn.call, sent: turn.sent + n }),
            }
        },
        Event::Release | Event::GiveUp => Shared {
            line: Line {
                open: stays_open(shared.line.open, shared.turn.unwrap().call),
                received: shared.line.received,
            },
            turn: None,
        },
    }
}

/// The shared channel after a sequence of events.
pub open spec fn play(shared: Shared, events: Seq<Event>) -> Shared
    decreases events.len(),
{
    if events.len() == 0 {
        shared
    } else {
        after(play(shared, events.drop_last()), events.last())
    }
}

/// Whether every event of the sequence was allowed when it happened.
pub open spec fn lawful(shared: Shared, events: Seq<Event>) -> bool
    decreases events.len(),
{
    events.len() == 0 || (lawful(shared, events.drop_last()) && allowed(
        play(shared, events.drop_last()),
        events.last(),
    ))
}

/// What a call that stopped after `sent` bytes amounts to, for the sink: a
/// write of the bytes that got through. A close is a close, however its
/// flush went.
pub open spec fn cut_short(call: Call, sent: nat) -> Call {
    match call {
        Call::Write(bytes) => Call::Write(bytes.take(sent as int)),
        Call::Close => Call::Close,
    }
}

/// The calls that have had the lock and given it back, in that order, each
/// as what it amounted to: itself where its work was done, cut short where it
/// gave up.
pub open spec fn served(start: Line, events: Seq<Event>) -> Seq<Call>
    decreases events.len(),
{
    if events.len() == 0 {
        Seq::empty()
    } else {
        let earlier = events.drop_last();
        let turn = play(idle(start), earlier).turn;
        match events.last() {
            Event::Release if turn.is_some() => served(start, earlier).push(turn.unwrap().call),
            Event::GiveUp if turn.is_some() => served(start, earlier).push(
                cut_short(turn.unwrap().call, turn.unwrap().sent),
            ),
            _ => served(start, earlier),
        }
    }
}

/// Mutual exclusion makes calls atomic. However the pieces of the writes
/// are spread over time, however many callers wait, and whichever calls
/// fail, a shared channel that starts idle goes through the lines of a
/// one-at-a-time service of the calls, in the order in which they had the
/// lock.
///
/// When the lock is free, the line is the one after all calls served so far.
/// A call whose work was done has left all of its bytes, in one piece; one
/// that gave up has left the first part of its own bytes and has touched
/// nothing else: no byte of another call is lost, moved or sent twice. While
/// a call holds the lock, the sink holds what the calls before it made of
/// it, followed by the part of this call's bytes that is through; only then
/// is a write seen half done.
pub proof fn lemma_lock_serializes(start: Line, events: Seq<Event>)
    requires
        lawful(idle(start), events),
    ensures
        match play(idle(start), events).turn {
            None => play(idle(start), events).line == run(start, served(start, events)),
            Some(turn) => {
                let now = play(idle(start), events);
                let before = run(start, served(start, events));
                &&& now.line.open == before.open
                &&& turn.sent <= owed(now).len()
                &&& now.line.received == before.received + owed(now).take(turn.sent as int)
            },
        },
    decreases events.len(),
{
    if events.len() > 0 {
        let earlier = events.drop_last();
        lemma_lock_serializes(start, earlier);
        let then = play(idle(start), earlier);
        let now = play(idle(start), events);
        let before = run(start, served(start, earlier));
        match events.last() {
            Event::Acquire(call) => {
                assert(then.line.received + owed(now).take(0) =~= then.line.received);
            },
            Event::Push(n) => {
                let turn = then.turn.unwrap();
                assert(owed(now) == owed(then));
                assert(owed(then).take(turn.sent as int) + owed(then).subrange(
                    turn.sent as int,
                    (turn.sent + n) as int,
                ) =~= owed(then).take((turn.sent + n) as int));
                assert(now.line.received =~= before.received + owed(now).take(
                    (turn.sent + n) as int,
                ));
            },
            Event::Release => {
                let turn = then.turn.unwrap();
                assert(served(start, events).drop_last() =~= served(start, earlier));
                assert(owed(then).take(turn.sent as int) =~= owed(then));
                assert(before.received + Seq::<u8>::empty() =~= before.received);
            },
            Event::GiveUp => {
                let turn = then.turn.unwrap();
                assert(served(start, events).drop_last() =~= served(start, earlier));
                assert(before.received + Seq::<u8>::empty().take(0) =~= before.received);
            },
        }
    }
}

} // verus!
