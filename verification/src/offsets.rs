//! The offset table: where each column of the listing starts, as read off
//! the header line.

use vstd::prelude::*;
use crate::text::{chars_of, find_first, is_first_occurrence, occurs, occurs_at};

verus! {

/// The nine columns of a listing, left to right.
#[derive(Clone, Copy, Debug, PartialEq, Eq, Structural)]
pub enum Column {
    Command,
    Pid,
    User,
    Fd,
    Type,
    Device,
    SizeOff,
    Node,
    Name,
}

/// Where each column starts, counted in characters from the start of the
/// header line. `command` is always 0. The table is a small plain value:
/// copy it freely, nothing ever changes it.
#[derive(Clone, Copy, Debug, PartialEq, Eq)]
pub struct Offsets {
    pub command: usize,
    pub pid: usize,
    pub user: usize,
    pub fd: usize,
    pub type_: usize,
    pub device: usize,
    pub size_off: usize,
    pub node: usize,
    pub name: usize,
}

/// The text that marks a column in the header. `PID` is looked for with the
/// two spaces before it, which tells the label from the same letters inside
/// another word. `COMMAND` is not looked for: it starts the line.
pub open spec fn marker(c: Column) -> Seq<char> {
    match c {
        Column::Command => Seq::empty(),
        Column::Pid => "  PID"@,
        Column::User => "USER"@,
        Column::Fd => "FD"@,
        Column::Type => "TYPE"@,
        Column::Device => "DEVICE"@,
        Column::SizeOff => "SIZE/OFF"@,
        Column::Node => "NODE"@,
        Column::Name => "NAME"@,
    }
}

/// The header holds the marker of every column.
pub open spec fn has_all_markers(header: Seq<char>) -> bool {
    &&& occurs(header, marker(Column::Pid))
    &&& occurs(header, marker(Column::User))
    &&& occurs(header, marker(Column::Fd))
    &&& occurs(header, marker(Column::Type))
    &&& occurs(header, marker(Column::Device))
    &&& occurs(header, marker(Column::SizeOff))
    &&& occurs(header, marker(Column::Node))
    &&& occurs(header, marker(Column::Name))
}

impl Offsets {
    /// The start of column `c` in this table.
    pub open spec fn of(self, c: Column) -> int {
        match c {
            Column::Command => self.command as int,
            Column::Pid => self.pid as int,
            Column::User => self.user as int,
            Column::Fd => self.fd as int,
            Column::Type => self.type_ as int,
            Column::Device => self.device as int,
            Column::SizeOff => self.size_off as int,
            Column::Node => self.node as int,
            Column::Name => self.name as int,
        }
    }

    /// This table is the one that `header` fixes: `COMMAND` at 0, and every
    /// other column at the leftmost place where its marker stands. Each
    /// marker is looked for on its own, wherever the others are.
    pub open spec fn resolves(self, header: Seq<char>) -> bool {
        &&& self.command == 0
        &&& is_first_occurrence(header, marker(Column::Pid), self.pid as int)
        &&& is_first_occurrence(header, marker(Column::User), self.user as int)
        &&& is_first_occurrence(header, marker(Column::Fd), self.fd as int)
        &&& is_first_occurrence(header, marker(Column::Type), self.type_ as int)
        &&& is_first_occurrence(header, marker(Column::Device), self.device as int)
        &&& is_first_occurrence(header, marker(Column::SizeOff), self.size_off as int)
        &&& is_first_occurrence(header, marker(Column::Node), self.node as int)
        &&& is_first_occurrence(header, marker(Column::Name), self.name as int)
    }

    /// The columns start one after another, left to right.
    pub open spec fn left_to_right(self) -> bool {
        self.pid < self.user < self.fd < self.type_ < self.device < self.size_off < self.node
            < self.name
    }

    /// Reads the offset table off a header line. There is a table exactly
    /// when the header holds every marker; with one missing there is none,
    /// not even in part.
    pub fn from_str(s: &str) -> (res: Option<Offsets>)
        ensures
            res is Some <==> has_all_markers(s@),
            res matches Some(o) ==> o.resolves(s@),
    {
        let header = chars_of(s);
        let pid = find_marker(&header, "  PID")?;
        let user = find_marker(&header, "USER")?;
        let fd = find_marker(&header, "FD")?;
        let type_ = find_marker(&header, "TYPE")?;
        let device = find_marker(&header, "DEVICE")?;
        let size_off = find_marker(&header, "SIZE/OFF")?;
        let node = find_marker(&header, "NODE")?;
        let name = find_marker(&header, "NAME")?;
        Some(Offsets { command: 0, pid, user, fd, type_, device, size_off, node, name })
    }
}

/// A header fixes at most one table.
pub proof fn lemma_resolves_unique(header: Seq<char>, a: Offsets, b: Offsets)
    requires
        a.resolves(header),
        b.resolves(header),
    ensures
        a == b,
{
}

/// A header that lacks the marker of a column fixes no table.
pub proof fn lemma_missing_marker(header: Seq<char>, c: Column, o: Offsets)
    requires
        c != Column::Command,
        !occurs(header, marker(c)),
    ensures
        !has_all_markers(header),
        !o.resolves(header),
{
    if o.resolves(header) {
        assert(occurs_at(header, marker(c), o.of(c)));
    }
}

/// Finds the leftmost place of `marker` in `header`.
fn find_marker(header: &Vec<char>, marker: &str) -> (res: Option<usize>)
    ensures
        res is Some <==> occurs(header@, marker@),
        res matches Some(i) ==> is_first_occurrence(header@, marker@, i as int),
{
    let needle = chars_of(marker);
    find_first(header.as_slice(), needle.as_slice())
}

} // verus!
