//! The row stream: a forward-only walk over a list of lines that hands out
//! one outcome per pull.

use vstd::prelude::*;
use crate::offsets::{Column, Offsets};
use crate::row::{slice_line, Row, RowView, SliceError};

verus! {

/// What the stream does after a line that could not be cut. Either way the
/// pull that met the line reports it.
#[derive(Clone, Copy, Debug, PartialEq, Eq, Structural)]
pub enum Policy {
    /// The stream ends: every later pull is empty.
    Stop,
    /// The stream goes on with the line after.
    Skip,
}

/// A line of the stream that could not be cut: `line` counts the lines from
/// 0, `column` is the first cell that does not lie within the line.
#[derive(Clone, Copy, Debug, PartialEq, Eq, Structural)]
pub struct LineError {
    pub line: usize,
    pub column: Column,
}

/// A stream of rows over lines held in memory. It cannot be rewound: to
/// walk the lines again, make a new one.
pub struct Parser<'a> {
    lines: Vec<&'a str>,
    offsets: Offsets,
    policy: Policy,
    next_line: usize,
    stopped: bool,
}

/// A stream as plain values: the lines, the table, the policy, how many
/// lines have been taken, and whether a refused line has ended the stream.
pub struct ParserView {
    pub lines: Seq<Seq<char>>,
    pub offsets: Offsets,
    pub policy: Policy,
    pub next_line: nat,
    pub stopped: bool,
}

/// What one pull hands out, with the row taken by its view.
pub type Pulled = Option<Result<RowView, LineError>>;

/// The text of each line.
pub open spec fn texts(lines: Seq<&str>) -> Seq<Seq<char>> {
    Seq::new(lines.len(), |i: int| lines[i]@)
}

/// What a pull hands out, with the row taken by its view.
pub open spec fn pulled_view(res: Option<Result<Row, LineError>>) -> Pulled {
    match res {
        Some(Ok(row)) => Some(Ok(row@)),
        Some(Err(e)) => Some(Err(e)),
        None => None,
    }
}

impl ParserView {
    /// No line is left to take, or a refused line has ended the stream.
    pub open spec fn finished(self) -> bool {
        self.stopped || self.next_line >= self.lines.len()
    }

    /// What the next pull hands out: nothing once the stream is finished,
    /// else the outcome of cutting the next line, an error carrying the
    /// line's number.
    pub open spec fn pull(self) -> Pulled {
        if self.finished() {
            None
        } else {
            match slice_line(self.offsets, self.lines[self.next_line as int]) {
                Ok(row) => Some(Ok(row)),
                Err(e) => Some(Err(LineError { line: self.next_line as usize, column: e.column })),
            }
        }
    }

    /// The stream after the next pull: unchanged once it is finished, else
    /// one line further, and stopped where the line was refused and the
    /// policy is to stop.
    pub open spec fn advance(self) -> ParserView {
        if self.finished() {
            self
        } else {
            ParserView {
                next_line: self.next_line + 1,
                stopped: self.policy == Policy::Stop && slice_line(
                    self.offsets,
                    self.lines[self.next_line as int],
                ) is Err,
                ..self
            }
        }
    }

    /// The stream after `n` pulls.
    pub open spec fn after(self, n: nat) -> ParserView
        decreases n,
    {
        if n == 0 {
            self
        } else {
            self.advance().after((n - 1) as nat)
        }
    }

    /// Each of the first `n` lines can be cut.
    pub open spec fn cuts_first(self, n: nat) -> bool {
        forall|i: int| 0 <= i < n && i < self.lines.len() ==> slice_line(self.offsets, #[trigger] self.lines[i]) is Ok
    }
}

impl<'a> View for Parser<'a> {
    type V = ParserView;

    closed spec fn view(&self) -> ParserView {
        ParserView {
            lines: texts(self.lines@),
            offsets: self.offsets,
            policy: self.policy,
            next_line: self.next_line as nat,
            stopped: self.stopped,
        }
    }
}

impl Offsets {
    /// A stream over `lines` that cuts each by this table, starting at the
    /// first line. It stops at the first line that cannot be cut; see
    /// [`Parser::with_policy`] for the other choice.
    pub fn parser<'a>(&self, lines: Vec<&'a str>) -> (res: Parser<'a>)
        ensures
            res@ == (ParserView {
                lines: texts(lines@),
                offsets: *self,
                policy: Policy::Stop,
                next_line: 0,
                stopped: false,
            }),
    {
        Parser { lines, offsets: *self, policy: Policy::Stop, next_line: 0, stopped: false }
    }
}

impl<'a> Parser<'a> {
    /// The same stream, at the same place, with `policy` for the lines to
    /// come.
    pub fn with_policy(self, policy: Policy) -> (res: Parser<'a>)
        ensures
            res@ == (ParserView { policy, ..self@ }),
    {
        Parser {
            lines: self.lines,
            offsets: self.offsets,
            policy,
            next_line: self.next_line,
            stopped: self.stopped,
        }
    }

    /// Whether every later pull is empty.
    pub fn is_finished(&self) -> (res: bool)
        ensures
            res == self@.finished(),
    {
        self.stopped || self.next_line >= self.lines.len()
    }

    /// Takes the next line and hands out what cutting it gave: a row, or
    /// the error with the line's number. Hands out nothing, and changes
    /// nothing, once the stream is finished.
    pub fn next(&mut self) -> (res: Option<Result<Row, LineError>>)
        ensures
            pulled_view(res) == old(self)@.pull(),
            final(self)@ == old(self)@.advance(),
    {
        if self.stopped || self.next_line >= self.lines.len() {
            return None;
        }
        let at: usize = self.next_line;
        let line: &str = self.lines[at];
        self.next_line = at + 1;
        match self.offsets.parse_line(line) {
            Ok(row) => Some(Ok(row)),
            Err(e) => {
                self.stopped = match self.policy {
                    Policy::Stop => true,
                    Policy::Skip => false,
                };
                Some(Err(LineError { line: at, column: e.column }))
            },
        }
    }
}

/// A finished stream stays finished: every pull from then on is empty and
/// leaves the stream as it was.
pub proof fn lemma_finished_stays_empty(s: ParserView, n: nat)
    requires
        s.finished(),
    ensures
        s.after(n) == s,
        s.after(n).pull() is None,
    decreases n,
{
    if n > 0 {
        lemma_finished_stays_empty(s, (n - 1) as nat);
    }
}

/// A stream never goes back: a pull takes at most one line, and a stopped
/// stream stays stopped.
pub proof fn lemma_advance_forward(s: ParserView)
    ensures
        s.next_line <= s.advance().next_line <= s.next_line + 1,
        s.stopped ==> s.advance().stopped,
        s.advance().lines == s.lines,
        s.advance().offsets == s.offsets,
        s.advance().policy == s.policy,
{
}

/// Rows come one per line, in the order of the lines: from a fresh stream,
/// as long as no line before it was refused or the policy is to skip, pull
/// number `n` hands out the outcome of line `n`.
pub proof fn lemma_pull_in_order(s: ParserView, n: nat)
    requires
        s.next_line == 0,
        !s.stopped,
        n < s.lines.len(),
        s.policy == Policy::Skip || s.cuts_first(n),
    ensures
        s.after(n).next_line == n,
        !s.after(n).stopped,
        s.after(n).pull() == match slice_line(s.offsets, s.lines[n as int]) {
            Ok(row) => Some(Ok::<RowView, LineError>(row)),
            Err(e) => Some(Err(LineError { line: n as usize, column: e.column })),
        },
{
    lemma_after_walks(s, n);
}

/// `after` may be unfolded at its far end.
proof fn lemma_after_last(s: ParserView, n: nat)
    ensures
        s.after(n + 1) == s.after(n).advance(),
    decreases n,
{
    assert(s.after(n + 1) == s.advance().after(n));
    if n > 0 {
        lemma_after_last(s.advance(), (n - 1) as nat);
        assert(s.after(n) == s.advance().after((n - 1) as nat));
    } else {
        assert(s.advance().after(0) == s.advance());
    }
}

/// Where nothing ends the stream early, `n` pulls take `n` lines.
proof fn lemma_after_walks(s: ParserView, n: nat)
    requires
        s.next_line == 0,
        !s.stopped,
        n <= s.lines.len(),
        s.policy == Policy::Skip || s.cuts_first(n),
    ensures
        s.after(n) == (ParserView { next_line: n, ..s }),
    decreases n,
{
    if n > 0 {
        let m = (n - 1) as nat;
        lemma_after_walks(s, m);
        lemma_after_last(s, m);
        assert(s.policy == Policy::Stop ==> slice_line(s.offsets, s.lines[m as int]) is Ok);
    }
}

} // verus!
