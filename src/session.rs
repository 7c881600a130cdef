//! The reply protocol of a socket connection: only a connection's first line
//! gets a reply; every line is applied.
use vstd::prelude::*;

verus! {

/// Where a connection stands in its protocol.
#[derive(Debug, Clone, Copy, PartialEq, Eq, Structural)]
pub enum Connection {
    /// No line has arrived yet: the next one carries the reply.
    AwaitingFirstLine,
    /// The first line has arrived: later lines are applied without a reply.
    Streaming,
}

/// What to do with a line that arrived on a connection.
#[derive(Debug, Clone, Copy, PartialEq, Eq, Structural)]
pub struct LineAction {
    /// The connection's state after the line.
    pub next: Connection,
    /// Whether the result of the line is written back.
    pub reply: bool,
}

/// The protocol step for one line: forward it, with the reply capability on the
/// first line only.
pub fn on_line(state: Connection) -> (a: LineAction)
    ensures
        a.next == Connection::Streaming,
        a.reply == (state == Connection::AwaitingFirstLine),
{
    LineAction { next: Connection::Streaming, reply: state == Connection::AwaitingFirstLine }
}

/// Reply flags of `n` lines received from state `s`, in order.
pub open spec fn reply_flags(s: Connection, n: nat) -> Seq<bool>
    decreases n,
{
    if n == 0 {
        seq![]
    } else {
        seq![s == Connection::AwaitingFirstLine] + reply_flags(Connection::Streaming, (n - 1) as nat)
    }
}

/// Of `n` lines sent on one new connection, exactly the first is answered.
pub proof fn lemma_only_first_line_replies(n: nat)
    ensures
        reply_flags(Connection::AwaitingFirstLine, n).len() == n,
        forall|k: int| 0 <= k < n ==> #[trigger] reply_flags(Connection::AwaitingFirstLine, n)[k] == (k == 0),
{
    lemma_streaming_silent(if n == 0 { 0 } else { (n - 1) as nat });
}

proof fn lemma_streaming_silent(n: nat)
    ensures
        reply_flags(Connection::Streaming, n).len() == n,
        forall|k: int| 0 <= k < n ==> !#[trigger] reply_flags(Connection::Streaming, n)[k],
    decreases n,
{
    if n > 0 {
        lemma_streaming_silent((n - 1) as nat);
        let rest = reply_flags(Connection::Streaming, (n - 1) as nat);
        assert forall|k: int| 0 <= k < n implies !#[trigger] reply_flags(Connection::Streaming, n)[k] by {
            if k > 0 {
                assert(reply_flags(Connection::Streaming, n)[k] == rest[k - 1]);
            }
        }
    }
}

/// The replies that a run of `n` lines gets from the state machine, computed step
/// by step.
pub fn reply_plan(n: usize) -> (r: Vec<bool>)
    ensures
        r@ == reply_flags(Connection::AwaitingFirstLine, n as nat),
{
    let mut state = Connection::AwaitingFirstLine;
    let mut out: Vec<bool> = Vec::new();
    let mut i: usize = 0;
    while i < n
        invariant
            i <= n,
            out@ + reply_flags(state, (n - i) as nat) == reply_flags(Connection::AwaitingFirstLine, n as nat),
        decreases n - i,
    {
        let a = on_line(state);
        proof {
            assert(reply_flags(state, (n - i) as nat) == seq![a.reply] + reply_flags(a.next, (n - i - 1) as nat));
            assert(out@.push(a.reply) + reply_flags(a.next, (n - i - 1) as nat) =~= out@ + reply_flags(state, (n - i) as nat));
        }
        out.push(a.reply);
        state = a.next;
        i = i + 1;
    }
    proof {
        assert(out@ + reply_flags(state, 0) =~= out@);
    }
    out
}

} // verus!
