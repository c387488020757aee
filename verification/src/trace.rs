use vstd::prelude::*;

verus! {

/// One call on a handle, as the channel behind the lock sees it.
pub enum Call {
    /// Deliver these bytes.
    Write(Seq<u8>),
    /// Flush, let go of the sink, and stay closed.
    Close,
}

/// The I/O that a call asks for.
pub enum Work {
    /// None at all: the sink is not touched.
    Nothing,
    /// Write all of these bytes to the sink.
    Deliver(Seq<u8>),
    /// Flush the sink, then let go of it.
    FlushAndRelease,
}

/// The I/O that a call asks for, given whether the channel is open when the
/// call is served. An open channel asks for what the call names; a closed
/// one asks for nothing, whatever the call.
pub open spec fn work(open: bool, call: Call) -> Work {
    if !open {
        Work::Nothing
    } else {
        match call {
            Call::Write(bytes) => Work::Deliver(bytes),
            Call::Close => Work::FlushAndRelease,
        }
    }
}

/// Whether the channel is open after a call has been served. This does not
/// depend on how the I/O went: a failed write leaves the channel open, and a
/// failed flush leaves it closed.
pub open spec fn stays_open(open: bool, call: Call) -> bool {
    match call {
        Call::Write(_) => open,
        Call::Close => false,
    }
}

/// What a call answers, given the outcome of the I/O that was performed for
/// it; `None` stands for no I/O. Without I/O the call succeeds; with I/O it
/// answers what the I/O answered, the failure untouched.
pub open spec fn answer(performed: Option<Result<(), std::io::Error>>) -> Result<
    (),
    std::io::Error,
> {
    match performed {
        Some(outcome) => outcome,
        None => Ok(()),
    }
}

/// A channel together with its sink: whether the channel is open, and every
/// byte that the sink has received so far.
pub struct Line {
    pub open: bool,
    pub received: Seq<u8>,
}

/// The line after one call has been served in full and its I/O succeeded.
pub open spec fn step(line: Line, call: Call) -> Line {
    Line {
        open: stays_open(line.open, call),
        received: match work(line.open, call) {
            Work::Deliver(bytes) => line.received + bytes,
            _ => line.received,
        },
    }
}

/// The line after a sequence of calls, served one at a time in this order.
///
/// This is what a lock around the channel provides: whoever holds it is
/// served in full before the next call is looked at. The order itself is the
/// lock's choice, so the laws below are stated for every order.
pub open spec fn run(line: Line, calls: Seq<Call>) -> Line
    decreases calls.len(),
{
    if calls.len() == 0 {
        line
    } else {
        step(run(line, calls.drop_last()), calls.last())
    }
}

/// All chunks, one after the other.
pub open spec fn joined(chunks: Seq<Seq<u8>>) -> Seq<u8>
    decreases chunks.len(),
{
    if chunks.len() == 0 {
        Seq::empty()
    } else {
        joined(chunks.drop_last()) + chunks.last()
    }
}

/// One write per chunk, in the order of the chunks.
pub open spec fn writes(chunks: Seq<Seq<u8>>) -> Seq<Call> {
    Seq::new(chunks.len(), |i: int| Call::Write(chunks[i]))
}

/// Writes served on an open channel reach the sink in the order in which
/// they were served, each byte once: the sink holds what it held before,
/// then the chunks one after the other, and the channel is still open.
pub proof fn lemma_writes_arrive_in_order(line: Line, chunks: Seq<Seq<u8>>)
    requires
        line.open,
    ensures
        run(line, writes(chunks)) == (Line {
            open: true,
            received: line.received + joined(chunks),
        }),
    decreases chunks.len(),
{
    if chunks.len() == 0 {
        assert(line.received + joined(chunks) =~= line.received);
    } else {
        let calls = writes(chunks);
        assert(calls.drop_last() =~= writes(chunks.drop_last()));
        lemma_writes_arrive_in_order(line, chunks.drop_last());
        assert((line.received + joined(chunks.drop_last())) + chunks.last()
            =~= line.received + joined(chunks));
    }
}

/// Closing twice is closing once: the second close finds the channel
/// closed, asks for no I/O, answers with success, and leaves the line as
/// the first one left it.
pub proof fn lemma_close_is_idempotent(line: Line)
    ensures
        step(step(line, Call::Close), Call::Close) == step(line, Call::Close),
        work(step(line, Call::Close).open, Call::Close) == Work::Nothing,
        answer(None) == Ok::<(), std::io::Error>(()),
{
}

/// A closed channel never fails: whatever the call, it asks for no I/O, and
/// a call without I/O answers with success.
pub proof fn lemma_closed_never_fails(call: Call)
    ensures
        work(false, call) == Work::Nothing,
        answer(None) == Ok::<(), std::io::Error>(()),
{
}

/// A closed channel stays closed, and its sink receives nothing more,
/// whatever calls follow.
pub proof fn lemma_closed_is_terminal(line: Line, calls: Seq<Call>)
    requires
        !line.open,
    ensures
        run(line, calls) == line,
    decreases calls.len(),
{
    if calls.len() > 0 {
        lemma_closed_is_terminal(line, calls.drop_last());
    }
}

/// A write that is served after a close, with any calls in between, asks
/// for no I/O and succeeds: the sink holds what it held when the close was
/// done.
pub proof fn lemma_write_after_close_is_dropped(line: Line, between: Seq<Call>, bytes: Seq<u8>)
    ensures
        work(run(step(line, Call::Close), between).open, Call::Write(bytes)) == Work::Nothing,
        answer(None) == Ok::<(), std::io::Error>(()),
        step(run(step(line, Call::Close), between), Call::Write(bytes)) == step(line, Call::Close),
        step(line, Call::Close).received == line.received,
{
    lemma_closed_is_terminal(step(line, Call::Close), between);
}

/// Serving calls one after the other composes: the line after `first` and
/// then `rest` is the line that `rest` makes of what `first` left.
pub proof fn lemma_run_splits(line: Line, first: Seq<Call>, rest: Seq<Call>)
    ensures
        run(line, first + rest) == run(run(line, first), rest),
    decreases rest.len(),
{
    if rest.len() == 0 {
        assert(first + rest =~= first);
    } else {
        assert((first + rest).drop_last() =~= first + rest.drop_last());
        lemma_run_splits(line, first, rest.drop_last());
    }
}

/// The sink of a channel that was open holds, in the end, exactly what was
/// written before the close: those chunks in the order of their writes,
/// nothing lost and nothing twice, and nothing of any call that came later.
pub proof fn lemma_sink_holds_the_writes_before_close(
    line: Line,
    chunks: Seq<Seq<u8>>,
    later: Seq<Call>,
)
    requires
        line.open,
    ensures
        run(line, writes(chunks).push(Call::Close) + later) == (Line {
            open: false,
            received: line.received + joined(chunks),
        }),
{
    let head = writes(chunks).push(Call::Close);
    assert(head.drop_last() =~= writes(chunks));
    lemma_writes_arrive_in_order(line, chunks);
    lemma_run_splits(line, head, later);
    lemma_closed_is_terminal(run(line, head), later);
}

/// Calls served one at a time never mix their bytes. Take the calls in the
/// order in which they were served, whatever that order is: a write that
/// found the channel open has its bytes in the sink in one piece, right
/// behind everything that the calls before it had sent.
pub proof fn lemma_write_is_unbroken(line: Line, calls: Seq<Call>, i: int, bytes: Seq<u8>)
    requires
        0 <= i < calls.len(),
        calls[i] == Call::Write(bytes),
        run(line, calls.take(i)).open,
    ensures
        run(line, calls.take(i)).received.len() + bytes.len() <= run(line, calls).received.len(),
        run(line, calls).received.subrange(
            run(line, calls.take(i)).received.len() as int,
            (run(line, calls.take(i)).received.len() + bytes.len()) as int,
        ) == bytes,
        run(line, calls).received.take(run(line, calls.take(i)).received.len() as int)
            == run(line, calls.take(i)).received,
    decreases calls.len(),
{
    let before = run(line, calls.take(i));
    let start = before.received.len() as int;
    if i == calls.len() - 1 {
        assert(calls.take(i) =~= calls.drop_last());
        assert(run(line, calls).received == before.received + bytes);
        assert((before.received + bytes).subrange(start, start + bytes.len()) =~= bytes);
        assert((before.received + bytes).take(start) =~= before.received);
    } else {
        let shorter = calls.drop_last();
        assert(shorter.take(i) =~= calls.take(i));
        lemma_write_is_unbroken(line, shorter, i, bytes);
        let so_far = run(line, shorter).received;
        let all = run(line, calls).received;
        assert(all.take(so_far.len() as int) =~= so_far);
        assert(all.subrange(start, start + bytes.len())
            =~= so_far.subrange(start, start + bytes.len()));
        assert(all.take(start) =~= so_far.take(start));
    }
}

/// A write and a close that are issued together are served in one order or
/// the other. Either the write comes first and the sink gets all of its
/// bytes, or the close comes first and the sink gets none of them. Both ways
/// the channel ends up closed.
pub proof fn lemma_write_racing_close(line: Line, bytes: Seq<u8>)
    requires
        line.open,
    ensures
        run(line, seq![Call::Write(bytes), Call::Close]) == (Line {
            open: false,
            received: line.received + bytes,
        }),
        run(line, seq![Call::Close, Call::Write(bytes)]) == (Line {
            open: false,
            received: line.received,
        }),
{
    let first = seq![Call::Write(bytes), Call::Close];
    assert(first.drop_last() =~= seq![Call::Write(bytes)]);
    assert(first.drop_last().drop_last() =~= Seq::<Call>::empty());
    assert(run(line, first.drop_last().drop_last()) == line);
    assert(run(line, first.drop_last()) == step(line, Call::Write(bytes)));
    let second = seq![Call::Close, Call::Write(bytes)];
    assert(second.drop_last() =~= seq![Call::Close]);
    assert(second.drop_last().drop_last() =~= Seq::<Call>::empty());
    assert(run(line, second.drop_last().drop_last()) == line);
    assert(run(line, second.drop_last()) == step(line, Call::Close));
}

} // verus!
