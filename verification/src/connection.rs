//! The protocol state of one connection to the game server.
//!
//! The socket itself lives outside this crate; a `Connection` here holds
//! the text that travels over it: what has been written but not yet
//! flushed, what has been flushed to the peer, and what has arrived from
//! the peer but has not been consumed.  Unverified transport code pumps
//! [`Connection::take_delivered`] into the socket and arriving bytes into
//! [`Connection::feed`]; every encoding, framing and policy decision in
//! between is made — and verified — here.
use crate::text::find_char;
use crate::text::first_index_of;
use crate::text::lemma_first_index_unique;
use vstd::prelude::*;
use vstd::string::StrSliceExecFns;
use vstd::string::StringExecFns;

verus! {

/// The observable state of a connection.
#[verifier::ext_equal]
pub struct ConnState {
    /// The connection has not been closed.
    pub is_open: bool,
    /// Every write is flushed to the peer before the call returns.
    pub auto_flush: bool,
    /// Written but not yet flushed to the peer.
    pub pending: Seq<char>,
    /// Flushed, in order: what the peer is guaranteed to see.
    pub delivered: Seq<char>,
    /// Arrived from the peer, not yet consumed.
    pub inbound: Seq<char>,
}

/// Text that may stand in one protocol line: no embedded newline.
pub open spec fn line_text(s: Seq<char>) -> bool {
    forall|i: int| 0 <= i < s.len() ==> s[i] != '\n'
}

/// The arguments of a command joined by commas.
pub open spec fn join_args(args: Seq<Seq<char>>) -> Seq<char>
    decreases args.len(),
{
    if args.len() == 0 {
        Seq::empty()
    } else if args.len() == 1 {
        args[0]
    } else {
        join_args(args.drop_last()) + seq![','] + args.last()
    }
}

/// The request line of a command: `name(arg1,arg2,...)` and a newline;
/// with no arguments, `name()` and a newline.
pub open spec fn encode_command(name: Seq<char>, args: Seq<Seq<char>>) -> Seq<char> {
    name + seq!['('] + join_args(args) + seq![')', '\n']
}

/// The request line of a raw command: the text itself and a newline.
pub open spec fn encode_raw(text: Seq<char>) -> Seq<char> {
    text + seq!['\n']
}

/// The state of a connection just opened: auto-flush on, nothing written,
/// nothing received.
pub open spec fn init_state() -> ConnState {
    ConnState {
        is_open: true,
        auto_flush: true,
        pending: Seq::empty(),
        delivered: Seq::empty(),
        inbound: Seq::empty(),
    }
}

/// Writing one request line: stale inbound text is dropped, the line is
/// appended to the pending text, and under auto-flush everything pending
/// is delivered at once.
pub open spec fn spec_write(c: ConnState, line: Seq<char>) -> ConnState {
    if c.auto_flush {
        ConnState {
            is_open: c.is_open,
            auto_flush: c.auto_flush,
            pending: Seq::empty(),
            delivered: c.delivered + c.pending + line,
            inbound: Seq::empty(),
        }
    } else {
        ConnState {
            is_open: c.is_open,
            auto_flush: c.auto_flush,
            pending: c.pending + line,
            delivered: c.delivered,
            inbound: Seq::empty(),
        }
    }
}

/// Sending a command writes its request line.
pub open spec fn spec_send(c: ConnState, name: Seq<char>, args: Seq<Seq<char>>) -> ConnState {
    spec_write(c, encode_command(name, args))
}

/// Sending a raw line writes the text and a newline.
pub open spec fn spec_send_raw(c: ConnState, text: Seq<char>) -> ConnState {
    spec_write(c, encode_raw(text))
}

/// Flushing delivers everything pending, in order.
pub open spec fn spec_flush(c: ConnState) -> ConnState {
    ConnState {
        is_open: c.is_open,
        auto_flush: c.auto_flush,
        pending: Seq::empty(),
        delivered: c.delivered + c.pending,
        inbound: c.inbound,
    }
}

/// Draining discards whatever has arrived and nothing else.
pub open spec fn spec_drain(c: ConnState) -> ConnState {
    ConnState {
        is_open: c.is_open,
        auto_flush: c.auto_flush,
        pending: c.pending,
        delivered: c.delivered,
        inbound: Seq::empty(),
    }
}

/// Switching the auto-flush policy; enabling it flushes once as a
/// synchronization point.
pub open spec fn spec_set_auto_flush(c: ConnState, enabled: bool) -> ConnState {
    if enabled {
        ConnState {
            is_open: c.is_open,
            auto_flush: true,
            pending: Seq::empty(),
            delivered: c.delivered + c.pending,
            inbound: c.inbound,
        }
    } else {
        ConnState {
            is_open: c.is_open,
            auto_flush: false,
            pending: c.pending,
            delivered: c.delivered,
            inbound: c.inbound,
        }
    }
}

/// Bytes arriving from the peer append to the inbound text.
pub open spec fn spec_feed(c: ConnState, data: Seq<char>) -> ConnState {
    ConnState {
        is_open: c.is_open,
        auto_flush: c.auto_flush,
        pending: c.pending,
        delivered: c.delivered,
        inbound: c.inbound + data,
    }
}

/// Closing half-closes both directions; the buffers keep their text.
pub open spec fn spec_close(c: ConnState) -> ConnState {
    ConnState {
        is_open: false,
        auto_flush: c.auto_flush,
        pending: c.pending,
        delivered: c.delivered,
        inbound: c.inbound,
    }
}

/// A complete line has arrived: the inbound text holds a newline.
pub open spec fn has_line(inbound: Seq<char>) -> bool {
    exists|i: int| first_index_of(inbound, '\n', i)
}

/// The index of the first newline of the inbound text.
pub open spec fn line_end(inbound: Seq<char>) -> int {
    choose|i: int| first_index_of(inbound, '\n', i)
}

/// Consuming one line: the inbound text loses the first line and the
/// newline that ended it.
pub open spec fn spec_receive(c: ConnState) -> ConnState {
    ConnState {
        is_open: c.is_open,
        auto_flush: c.auto_flush,
        pending: c.pending,
        delivered: c.delivered,
        inbound: c.inbound.skip(line_end(c.inbound) + 1),
    }
}

/// One connection to the server: a handle on the byte traffic, plus the
/// auto-flush policy.
pub struct Connection {
    is_open: bool,
    auto_flush: bool,
    pending: String,
    delivered: String,
    inbound: String,
}

impl View for Connection {
    type V = ConnState;

    closed spec fn view(&self) -> ConnState {
        ConnState {
            is_open: self.is_open,
            auto_flush: self.auto_flush,
            pending: self.pending@,
            delivered: self.delivered@,
            inbound: self.inbound@,
        }
    }
}

impl Connection {
    /// A connection just opened over a fresh transport.
    pub fn new() -> (r: Connection)
        ensures
            r@ == init_state(),
    {
        let r = Connection {
            is_open: true,
            auto_flush: true,
            pending: String::new(),
            delivered: String::new(),
            inbound: String::new(),
        };
        proof {
            assert(r@ =~= init_state());
        }
        r
    }

    /// The connection has not been closed.
    pub fn is_open(&self) -> (r: bool)
        ensures
            r == self@.is_open,
    {
        self.is_open
    }

    /// How much inbound text is buffered and unconsumed.
    pub fn inbound_len(&self) -> (r: usize)
        ensures
            r == self@.inbound.len(),
    {
        self.inbound.as_str().unicode_len()
    }

    /// Hands out what has been flushed so far, in order, leaving nothing
    /// behind.  The transport writes exactly this text to the socket.
    pub fn take_delivered(&mut self) -> (r: String)
        ensures
            r@ == old(self)@.delivered,
            final(self)@ == (ConnState { delivered: Seq::empty(), ..old(self)@ }),
    {
        let r = self.delivered.clone();
        self.delivered = String::new();
        proof {
            assert(final(self)@ =~= (ConnState { delivered: Seq::empty(), ..old(self)@ }));
        }
        r
    }

    /// Appends one request line and applies the flush policy; stale
    /// inbound text is dropped first so that it can never pass for the
    /// reply to this request.
    fn emit(&mut self, line: &str)
        requires
            old(self)@.is_open,
        ensures
            final(self)@ == spec_write(old(self)@, line@),
    {
        self.inbound = String::new();
        self.pending.append(line);
        if self.auto_flush {
            self.delivered.append(self.pending.as_str());
            self.pending = String::new();
        }
        proof {
            assert(final(self)@ =~= spec_write(old(self)@, line@));
        }
    }

    /// Sends the command `name` with the given arguments: exactly the
    /// text `name(arg1,arg2,...)` and a newline go to the peer, the
    /// arguments joined by commas — `name()` and a newline when there are
    /// none.
    pub fn send(&mut self, name: &str, args: &Vec<String>)
        requires
            old(self)@.is_open,
            line_text(name@),
            forall|k: int| 0 <= k < args@.len() ==> line_text(#[trigger] args@[k]@),
        ensures
            final(self)@ == spec_send(old(self)@, name@, args.deep_view()),
    {
        let mut line = String::from_str(name);
        line.append("(");
        proof {
            reveal_strlit("(");
            assert(line@ =~= name@ + seq!['('] + join_args(args.deep_view().take(0)));
        }
        let mut k: usize = 0;
        while k < args.len()
            invariant
                0 <= k <= args@.len(),
                line@ == name@ + seq!['('] + join_args(args.deep_view().take(k as int)),
            decreases args@.len() - k,
        {
            if k > 0 {
                line.append(",");
            }
            line.append(args[k].as_str());
            proof {
                reveal_strlit(",");
                let dv = args.deep_view();
                assert(dv[k as int] == args@[k as int]@);
                assert(dv.take(k as int + 1).drop_last() =~= dv.take(k as int));
                assert(dv.take(k as int + 1).last() == dv[k as int]);
                if k == 0 {
                    assert(join_args(dv.take(1)) == dv.take(1)[0]);
                    assert(line@ =~= name@ + seq!['('] + join_args(dv.take(k as int + 1)));
                } else {
                    assert(join_args(dv.take(k as int + 1)) == join_args(dv.take(k as int))
                        + seq![','] + dv[k as int]);
                    assert(line@ =~= name@ + seq!['('] + join_args(dv.take(k as int + 1)));
                }
            }
            k = k + 1;
        }
        line.append(")\n");
        proof {
            reveal_strlit(")\n");
            assert(args.deep_view().take(args@.len() as int) =~= args.deep_view());
            assert(line@ =~= encode_command(name@, args.deep_view()));
        }
        self.emit(line.as_str());
    }

    /// Sends a pre-formatted command: exactly the given text and a
    /// newline go to the peer.
    pub fn send_s(&mut self, text: &str)
        requires
            old(self)@.is_open,
            line_text(text@),
        ensures
            final(self)@ == spec_send_raw(old(self)@, text@),
    {
        let mut line = String::from_str(text);
        line.append("\n");
        proof {
            reveal_strlit("\n");
            assert(line@ =~= encode_raw(text@));
        }
        self.emit(line.as_str());
    }

    /// Delivers everything pending to the peer, in order.
    pub fn flush(&mut self)
        requires
            old(self)@.is_open,
        ensures
            final(self)@ == spec_flush(old(self)@),
    {
        self.delivered.append(self.pending.as_str());
        self.pending = String::new();
        proof {
            assert(final(self)@ =~= spec_flush(old(self)@));
        }
    }

    /// Discards whatever inbound text is buffered, and nothing else.
    pub fn drain(&mut self)
        requires
            old(self)@.is_open,
        ensures
            final(self)@ == spec_drain(old(self)@),
    {
        self.inbound = String::new();
        proof {
            assert(final(self)@ =~= spec_drain(old(self)@));
        }
    }

    /// Switches the auto-flush policy; enabling it flushes once as a
    /// synchronization point.
    pub fn auto_flush(&mut self, enabled: bool)
        requires
            old(self)@.is_open,
        ensures
            final(self)@ == spec_set_auto_flush(old(self)@, enabled),
    {
        self.auto_flush = enabled;
        if enabled {
            self.delivered.append(self.pending.as_str());
            self.pending = String::new();
        }
        proof {
            assert(final(self)@ =~= spec_set_auto_flush(old(self)@, enabled));
        }
    }

    /// Appends text that arrived from the peer.  The transport calls this
    /// with whatever the socket produced, newlines included.
    pub fn feed(&mut self, data: &str)
        requires
            old(self)@.is_open,
        ensures
            final(self)@ == spec_feed(old(self)@, data@),
    {
        self.inbound.append(data);
        proof {
            assert(final(self)@ =~= spec_feed(old(self)@, data@));
        }
    }

    /// Takes one reply line: the inbound text up to but excluding its
    /// first newline, consuming the newline as well.  `None` — with
    /// nothing consumed — while no complete line has arrived; the
    /// transport then reads more from the socket and feeds it in.
    pub fn receive(&mut self) -> (r: Option<String>)
        requires
            old(self)@.is_open,
        ensures
            r is Some <==> has_line(old(self)@.inbound),
            r matches Some(line) ==> {
                &&& line@ == old(self)@.inbound.take(line_end(old(self)@.inbound))
                &&& line_text(line@)
                &&& final(self)@ == spec_receive(old(self)@)
            },
            r is None ==> final(self)@ == old(self)@,
    {
        let n = self.inbound.as_str().unicode_len();
        match find_char(self.inbound.as_str(), '\n') {
            Some(i) => {
                proof {
                    let w = choose|k: int| first_index_of(self.inbound@, '\n', k);
                    lemma_first_index_unique(self.inbound@, '\n', w, i as int);
                }
                let line = String::from_str(self.inbound.as_str().substring_char(0, i));
                let rest = String::from_str(self.inbound.as_str().substring_char(i + 1, n));
                self.inbound = rest;
                proof {
                    assert(line@ =~= old(self)@.inbound.take(line_end(old(self)@.inbound)));
                    assert(final(self)@ =~= spec_receive(old(self)@));
                }
                Some(line)
            },
            None => None,
        }
    }

    /// Closes the connection in both directions; every later operation on
    /// it is refused.
    pub fn close(&mut self)
        requires
            old(self)@.is_open,
        ensures
            final(self)@ == spec_close(old(self)@),
    {
        self.is_open = false;
        proof {
            assert(final(self)@ =~= spec_close(old(self)@));
        }
    }
}

/// Joining newline-free arguments with commas yields newline-free text.
proof fn lemma_join_args_line(args: Seq<Seq<char>>)
    requires
        forall|k: int| 0 <= k < args.len() ==> line_text(#[trigger] args[k]),
    ensures
        line_text(join_args(args)),
    decreases args.len(),
{
    if args.len() > 1 {
        assert(forall|k: int| 0 <= k < args.drop_last().len() ==> line_text(
            #[trigger] args.drop_last()[k],
        ));
        lemma_join_args_line(args.drop_last());
        assert(line_text(args.last()));
    }
}

/// Every request line is exactly one line: it ends with one newline and
/// holds no other.
pub proof fn lemma_command_is_one_line(name: Seq<char>, args: Seq<Seq<char>>)
    requires
        line_text(name),
        forall|k: int| 0 <= k < args.len() ==> line_text(#[trigger] args[k]),
    ensures
        encode_command(name, args).last() == '\n',
        line_text(encode_command(name, args).drop_last()),
{
    lemma_join_args_line(args);
}

/// Receive framing: when the inbound text starts with one framed line,
/// what is received is exactly that line, and exactly its text and its
/// newline are consumed — nothing of what follows.
pub proof fn lemma_receive_framing(text: Seq<char>, rest: Seq<char>)
    requires
        line_text(text),
    ensures
        ({
            let inbound = encode_raw(text) + rest;
            &&& has_line(inbound)
            &&& inbound.take(line_end(inbound)) == text
            &&& inbound.skip(line_end(inbound) + 1) == rest
        }),
{
    let inbound = encode_raw(text) + rest;
    let i = text.len() as int;
    assert(inbound[i] == '\n');
    assert(first_index_of(inbound, '\n', i));
    let w = choose|k: int| first_index_of(inbound, '\n', k);
    lemma_first_index_unique(inbound, '\n', w, i);
    assert(inbound.take(i) =~= text);
    assert(inbound.skip(i + 1) =~= rest);
}

/// Draining is idempotent: with nothing newly arrived, a second drain
/// finds nothing and changes nothing — in particular an already-empty
/// inbound buffer stays empty and no other part of the state moves.
pub proof fn lemma_drain_idempotent(c: ConnState)
    ensures
        spec_drain(spec_drain(c)) == spec_drain(c),
{
    assert(spec_drain(spec_drain(c)) =~= spec_drain(c));
}

/// With auto-flush enabled, each send delivers its own request line (and
/// anything still pending) to the peer before it returns.
pub proof fn lemma_send_auto_flush_immediate(c: ConnState, name: Seq<char>, args: Seq<Seq<char>>)
    requires
        c.auto_flush,
    ensures
        spec_send(c, name, args).delivered == c.delivered + c.pending + encode_command(name, args),
        spec_send(c, name, args).pending == Seq::<char>::empty(),
{
}

/// With auto-flush disabled, two sends followed by one explicit flush
/// deliver both request lines to the peer in their original order by the
/// time the flush returns.
pub proof fn lemma_batched_sends_deliver_in_order(
    c: ConnState,
    name1: Seq<char>,
    args1: Seq<Seq<char>>,
    name2: Seq<char>,
    args2: Seq<Seq<char>>,
)
    ensures
        ({
            let off = spec_set_auto_flush(c, false);
            let sent = spec_send(spec_send(off, name1, args1), name2, args2);
            spec_flush(sent).delivered == c.delivered + c.pending + encode_command(name1, args1)
                + encode_command(name2, args2)
        }),
{
    let off = spec_set_auto_flush(c, false);
    let sent = spec_send(spec_send(off, name1, args1), name2, args2);
    assert(spec_flush(sent).delivered =~= c.delivered + c.pending + encode_command(name1, args1)
        + encode_command(name2, args2));
}

} // verus!
