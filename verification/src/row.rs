//! Cutting one data line into its nine cells.
//!
//! A cell is a stretch of the line fixed by the offset table alone. What a
//! line holds never moves a boundary: a value wider than its column runs
//! over into the cells that follow and may leave a cell between empty.

use vstd::prelude::*;
use vstd::string::StringExecFns;
use crate::offsets::{marker, Column, Offsets};
use crate::text::{chars_of, trim_bounds, trim_spaces};

verus! {

/// One parsed line: the text of each cell, with the spaces at either end
/// taken off.
#[derive(Clone, Debug, PartialEq, Eq)]
pub struct Row {
    pub command: String,
    pub pid: String,
    pub user: String,
    pub fd: String,
    pub type_: String,
    pub device: String,
    pub size_off: String,
    pub node: String,
    pub name: String,
}

/// A row as nine sequences of characters.
pub struct RowView {
    pub command: Seq<char>,
    pub pid: Seq<char>,
    pub user: Seq<char>,
    pub fd: Seq<char>,
    pub type_: Seq<char>,
    pub device: Seq<char>,
    pub size_off: Seq<char>,
    pub node: Seq<char>,
    pub name: Seq<char>,
}

impl View for Row {
    type V = RowView;

    open spec fn view(&self) -> RowView {
        RowView {
            command: self.command@,
            pid: self.pid@,
            user: self.user@,
            fd: self.fd@,
            type_: self.type_@,
            device: self.device@,
            size_off: self.size_off@,
            node: self.node@,
            name: self.name@,
        }
    }
}

/// A line that could not be cut: `column` is the first cell, left to right,
/// that does not lie within the line.
#[derive(Clone, Copy, Debug, PartialEq, Eq, Structural)]
pub struct SliceError {
    pub column: Column,
}

/// How far past its offset a column's cell reaches: the length of the
/// column's marker, and for `FD` one more, for the mode letter that follows
/// the descriptor. The cells are right-aligned under their labels, so a
/// cell ends where its label ends.
pub open spec fn width(c: Column) -> int {
    match c {
        Column::Command => 0,
        Column::Pid => 5,
        Column::User => 4,
        Column::Fd => 3,
        Column::Type => 4,
        Column::Device => 6,
        Column::SizeOff => 8,
        Column::Node => 4,
        Column::Name => 0,
    }
}

/// The column to the left of `c`.
pub open spec fn before(c: Column) -> Column {
    match c {
        Column::Command => Column::Command,
        Column::Pid => Column::Command,
        Column::User => Column::Pid,
        Column::Fd => Column::User,
        Column::Type => Column::Fd,
        Column::Device => Column::Type,
        Column::SizeOff => Column::Device,
        Column::Node => Column::SizeOff,
        Column::Name => Column::Node,
    }
}

/// Where the cell of column `c` ends in a line of `len` characters.
/// `COMMAND` ends where `PID` starts, `NAME` runs to the end of the line,
/// and every other cell ends `width(c)` past its offset.
pub open spec fn cell_end(o: Offsets, c: Column, len: int) -> int {
    match c {
        Column::Command => o.pid as int,
        Column::Name => len,
        _ => o.of(c) + width(c),
    }
}

/// Where the cell of column `c` starts. `COMMAND` starts the line, `PID`
/// and `NAME` start at their offsets, and every other cell starts where
/// the cell to its left ends.
pub open spec fn cell_start(o: Offsets, c: Column) -> int {
    match c {
        Column::Command => 0,
        Column::Pid => o.pid as int,
        Column::Name => o.name as int,
        _ => cell_end(o, before(c), 0),
    }
}

/// The cell of column `c` lies within a line of `len` characters.
pub open spec fn fits(o: Offsets, c: Column, len: int) -> bool {
    cell_start(o, c) <= cell_end(o, c, len) <= len
}

/// The first column, left to right, whose cell does not lie within a line
/// of `len` characters.
pub open spec fn first_misfit(o: Offsets, len: int) -> Option<Column> {
    if !fits(o, Column::Command, len) {
        Some(Column::Command)
    } else if !fits(o, Column::Pid, len) {
        Some(Column::Pid)
    } else if !fits(o, Column::User, len) {
        Some(Column::User)
    } else if !fits(o, Column::Fd, len) {
        Some(Column::Fd)
    } else if !fits(o, Column::Type, len) {
        Some(Column::Type)
    } else if !fits(o, Column::Device, len) {
        Some(Column::Device)
    } else if !fits(o, Column::SizeOff, len) {
        Some(Column::SizeOff)
    } else if !fits(o, Column::Node, len) {
        Some(Column::Node)
    } else if !fits(o, Column::Name, len) {
        Some(Column::Name)
    } else {
        None
    }
}

/// The text of the cell of column `c`, trimmed of spaces.
pub open spec fn cell_text(o: Offsets, line: Seq<char>, c: Column) -> Seq<char> {
    trim_spaces(line.subrange(cell_start(o, c), cell_end(o, c, line.len() as int)))
}

/// What cutting `line` by the table `o` gives: the nine trimmed cells where
/// all of them lie within the line, else the first one that does not.
pub open spec fn slice_line(o: Offsets, line: Seq<char>) -> Result<RowView, SliceError> {
    match first_misfit(o, line.len() as int) {
        Some(c) => Err(SliceError { column: c }),
        None => Ok(
            RowView {
                command: cell_text(o, line, Column::Command),
                pid: cell_text(o, line, Column::Pid),
                user: cell_text(o, line, Column::User),
                fd: cell_text(o, line, Column::Fd),
                type_: cell_text(o, line, Column::Type),
                device: cell_text(o, line, Column::Device),
                size_off: cell_text(o, line, Column::SizeOff),
                node: cell_text(o, line, Column::Node),
                name: cell_text(o, line, Column::Name),
            },
        ),
    }
}

/// The outcome of cutting a line, with the row taken by its view.
pub open spec fn outcome_view(res: Result<Row, SliceError>) -> Result<RowView, SliceError> {
    match res {
        Ok(row) => Ok(row@),
        Err(e) => Err(e),
    }
}

/// `at + by`, where that is at most `len`.
fn edge(at: usize, by: usize, len: usize) -> (res: Option<usize>)
    ensures
        res == if at + by <= len {
            Some((at + by) as usize)
        } else {
            None::<usize>
        },
{
    if at <= len && by <= len - at {
        Some(at + by)
    } else {
        None
    }
}

impl Offsets {
    /// Every cell ends at or after the one to its left, and `NAME` starts
    /// at or after the end of `NODE`.
    pub open spec fn is_ordered(self) -> bool {
        &&& cell_end(self, Column::Command, 0) <= cell_end(self, Column::Pid, 0)
        &&& cell_end(self, Column::Pid, 0) <= cell_end(self, Column::User, 0)
        &&& cell_end(self, Column::User, 0) <= cell_end(self, Column::Fd, 0)
        &&& cell_end(self, Column::Fd, 0) <= cell_end(self, Column::Type, 0)
        &&& cell_end(self, Column::Type, 0) <= cell_end(self, Column::Device, 0)
        &&& cell_end(self, Column::Device, 0) <= cell_end(self, Column::SizeOff, 0)
        &&& cell_end(self, Column::SizeOff, 0) <= cell_end(self, Column::Node, 0)
        &&& cell_end(self, Column::Node, 0) <= self.name
    }

    /// The bounds of the cell of column `c` in a line of `len` characters,
    /// where the cell lies within the line.
    pub fn cell_bounds(&self, c: Column, len: usize) -> (res: Option<(usize, usize)>)
        ensures
            res is Some <==> fits(*self, c, len as int),
            res matches Some(b) ==> b.0 == cell_start(*self, c) && b.1 == cell_end(
                *self,
                c,
                len as int,
            ),
    {
        let start: usize = match c {
            Column::Command => Some(0),
            Column::Pid => edge(self.pid, 0, len),
            Column::User => edge(self.pid, 5, len),
            Column::Fd => edge(self.user, 4, len),
            Column::Type => edge(self.fd, 3, len),
            Column::Device => edge(self.type_, 4, len),
            Column::SizeOff => edge(self.device, 6, len),
            Column::Node => edge(self.size_off, 8, len),
            Column::Name => edge(self.name, 0, len),
        }?;
        let end: usize = match c {
            Column::Command => edge(self.pid, 0, len),
            Column::Pid => edge(self.pid, 5, len),
            Column::User => edge(self.user, 4, len),
            Column::Fd => edge(self.fd, 3, len),
            Column::Type => edge(self.type_, 4, len),
            Column::Device => edge(self.device, 6, len),
            Column::SizeOff => edge(self.size_off, 8, len),
            Column::Node => edge(self.node, 4, len),
            Column::Name => Some(len),
        }?;
        if start <= end {
            Some((start, end))
        } else {
            None
        }
    }

    /// Cuts the cell of column `c` out of `line` and trims it. `chars`
    /// holds the characters of `line`.
    fn cell(&self, line: &str, chars: &Vec<char>, c: Column) -> (res: Result<String, SliceError>)
        requires
            chars@ == line@,
        ensures
            res is Ok <==> fits(*self, c, line@.len() as int),
            res matches Ok(s) ==> s@ == cell_text(*self, line@, c),
            res matches Err(e) ==> e.column == c,
    {
        match self.cell_bounds(c, chars.len()) {
            Some((start, end)) => {
                let (a, b) = trim_bounds(chars.as_slice(), start, end);
                Ok(String::from_str(line.substring_char(a, b)))
            },
            None => Err(SliceError { column: c }),
        }
    }

    /// Cuts `line` into its nine cells by this table and trims each of the
    /// spaces at either end. The cut goes by position alone. Where a cell
    /// does not lie within the line (the line is too short, or the table
    /// is out of order) the line is refused, and the error names the first
    /// such cell.
    pub fn parse_line(&self, line: &str) -> (res: Result<Row, SliceError>)
        ensures
            outcome_view(res) == slice_line(*self, line@),
    {
        let chars = chars_of(line);
        let command = self.cell(line, &chars, Column::Command)?;
        let pid = self.cell(line, &chars, Column::Pid)?;
        let user = self.cell(line, &chars, Column::User)?;
        let fd = self.cell(line, &chars, Column::Fd)?;
        let type_ = self.cell(line, &chars, Column::Type)?;
        let device = self.cell(line, &chars, Column::Device)?;
        let size_off = self.cell(line, &chars, Column::SizeOff)?;
        let node = self.cell(line, &chars, Column::Node)?;
        let name = self.cell(line, &chars, Column::Name)?;
        Ok(Row { command, pid, user, fd, type_, device, size_off, node, name })
    }
}

/// Cutting is a function of the table and the line: two outcomes for the
/// same pair are the same.
pub proof fn lemma_parse_line_deterministic(
    o: Offsets,
    line: Seq<char>,
    first: Result<Row, SliceError>,
    second: Result<Row, SliceError>,
)
    requires
        outcome_view(first) == slice_line(o, line),
        outcome_view(second) == slice_line(o, line),
    ensures
        outcome_view(first) == outcome_view(second),
        first is Ok <==> second is Ok,
        first matches Ok(a) ==> second matches Ok(b) && a@ == b@,
        first matches Err(e) ==> second == Err::<Row, SliceError>(e),
{
}

/// With a table in order, a line is cut exactly when it reaches the start
/// of `NAME`: no such line is refused, and every shorter one is.
pub proof fn lemma_parse_line_complete(o: Offsets, line: Seq<char>)
    requires
        o.is_ordered(),
    ensures
        slice_line(o, line) is Ok <==> line.len() >= o.name,
{
}

/// A header whose labels stand left to right gives a table in order.
pub proof fn lemma_left_to_right_is_ordered(header: Seq<char>, o: Offsets)
    requires
        o.resolves(header),
        o.left_to_right(),
    ensures
        o.is_ordered(),
{
    reveal_strlit("SIZE/OFF");
    reveal_strlit("NODE");
    reveal_strlit("NAME");
    let size_off = header.subrange(o.size_off as int, o.size_off + 8);
    let node = header.subrange(o.node as int, o.node + 4);
    let name = header.subrange(o.name as int, o.name + 4);
    assert(size_off == marker(Column::SizeOff));
    assert(node == marker(Column::Node));
    assert(name == marker(Column::Name));
    assert(header[o.node as int] == node[0]);
    assert(header[o.name as int] == name[0]);
    if o.node < o.size_off + 4 {
        let k = o.node - o.size_off;
        assert(header[o.node as int] == size_off[k]);
    }
    if o.name < o.node + 4 {
        let k = o.name - o.node;
        assert(header[o.name as int] == node[k]);
    }
}

} // verus!
