//! Which columns the process table shows and how a click on a column header
//! changes the order of the list.

use vstd::prelude::*;

verus! {

/// A column of the process table by which the list can be ordered.
#[derive(Clone, Copy, PartialEq, Eq, Structural, Debug)]
pub enum SortColumn {
    Name,
    Pid,
    Cpu,
    Memory,
    Status,
    VirtualMemory,
    ParentPid,
    StartTime,
    ExecutablePath,
    WorkingDirectory,
}

impl SortColumn {
    /// The columns whose header is a button that orders the list by them;
    /// the name and status headers are plain labels.
    pub open spec fn has_sort_button(self) -> bool {
        !(self is Name) && !(self is Status)
    }

    /// The direction a column is ordered in when its header is first clicked:
    /// the usage columns show the largest values first.
    pub open spec fn first_click_ascending(self) -> bool {
        match self {
            SortColumn::Cpu | SortColumn::Memory | SortColumn::VirtualMemory => false,
            _ => true,
        }
    }

    /// Executable form of `has_sort_button`.
    pub fn sortable_header(self) -> (b: bool)
        ensures
            b == self.has_sort_button(),
    {
        match self {
            SortColumn::Name | SortColumn::Status => false,
            _ => true,
        }
    }

    /// Executable form of `first_click_ascending`.
    pub fn starts_ascending(self) -> (b: bool)
        ensures
            b == self.first_click_ascending(),
    {
        match self {
            SortColumn::Cpu | SortColumn::Memory | SortColumn::VirtualMemory => false,
            _ => true,
        }
    }
}

impl Default for SortColumn {
    fn default() -> (c: Self)
        ensures
            c == SortColumn::Name,
    {
        SortColumn::Name
    }
}

/// The order of the process list: the column it is sorted by and the direction.
#[derive(Clone, Copy, PartialEq, Eq, Structural, Debug)]
pub struct SortState {
    pub column: SortColumn,
    pub ascending: bool,
}

impl SortState {
    /// The state after a click on the header of `column`: a click on the
    /// current column flips the direction, a click on another column selects
    /// it in its first-click direction.
    pub open spec fn clicked(self, column: SortColumn) -> SortState {
        if self.column == column {
            SortState { column, ascending: !self.ascending }
        } else {
            SortState { column, ascending: column.first_click_ascending() }
        }
    }

    /// The order the explorer starts with: by name, ascending.
    pub fn new() -> (s: Self)
        ensures
            s.column == SortColumn::Name,
            s.ascending,
    {
        SortState { column: SortColumn::Name, ascending: true }
    }

    /// Applies a click on the header of `column`.
    pub fn click_header(&mut self, column: SortColumn)
        requires
            column.has_sort_button(),
        ensures
            *final(self) == old(self).clicked(column),
    {
        if self.column == column {
            self.ascending = !self.ascending;
        } else {
            self.column = column;
            self.ascending = column.starts_ascending();
        }
    }
}

impl SortState {
    /// The state after a click on the header cell of `column` in a table
    /// that shows `visible`: only a header that is drawn as a sort button
    /// changes the order.
    pub open spec fn clicked_in(self, visible: VisibleColumns, column: SortColumn) -> SortState {
        if visible.shows_sort_button(column) {
            self.clicked(column)
        } else {
            self
        }
    }

    /// Applies a click on the header cell of `column` in a table that shows
    /// `visible`; a click on a label or on a hidden column changes nothing.
    pub fn click_shown_header(&mut self, visible: &VisibleColumns, column: SortColumn)
        ensures
            *final(self) == old(self).clicked_in(*visible, column),
    {
        if visible.sort_button_shown(column) {
            self.click_header(column);
        }
    }
}

/// Clicks select only headers that are drawn as sort buttons: the list comes
/// to be ordered by name or status only if it already was, and by an
/// optional column only while that column is shown.
pub proof fn law_clicks_select_only_shown_headers(s: SortState, visible: VisibleColumns, column: SortColumn)
    ensures
        s.clicked_in(visible, column).column is Name ==> s.column is Name,
        s.clicked_in(visible, column).column is Status ==> s.column is Status,
        s.clicked_in(visible, column).column != s.column ==> visible.shows_sort_button(
            s.clicked_in(visible, column).column,
        ),
{
}

/// What a header click does, told by the column alone: a click on the
/// column the list is sorted by flips the direction; a click on another
/// column sorts by it, largest first for CPU, memory and virtual memory and
/// smallest first for the others, whatever the direction was before.
pub proof fn law_click_directions(s: SortState, column: SortColumn)
    ensures
        s.column == column ==> s.clicked(column).column == column && s.clicked(column).ascending == !s.ascending,
        s.column != column ==> s.clicked(column).column == column && s.clicked(column).ascending == !(column is Cpu
            || column is Memory || column is VirtualMemory),
{
}

/// Which header cells act, told field by field: PID, CPU and memory always,
/// each optional column exactly while its flag is set, name and status
/// never; a cell that does not act leaves the state as it was.
pub proof fn law_shown_headers(s: SortState, visible: VisibleColumns, column: SortColumn)
    ensures
        column is Name || column is Status ==> s.clicked_in(visible, column) == s,
        column is Pid || column is Cpu || column is Memory ==> s.clicked_in(visible, column) == s.clicked(column),
        column is VirtualMemory ==> s.clicked_in(visible, column) == if visible.virtual_memory {
            s.clicked(column)
        } else {
            s
        },
        column is ParentPid ==> s.clicked_in(visible, column) == if visible.parent_pid {
            s.clicked(column)
        } else {
            s
        },
        column is StartTime ==> s.clicked_in(visible, column) == if visible.start_time {
            s.clicked(column)
        } else {
            s
        },
        column is ExecutablePath ==> s.clicked_in(visible, column) == if visible.executable_path {
            s.clicked(column)
        } else {
            s
        },
        column is WorkingDirectory ==> s.clicked_in(visible, column) == if visible.working_directory {
            s.clicked(column)
        } else {
            s
        },
{
}

/// Two clicks on the header of the column the list is already sorted by
/// leave the order as it was.
pub proof fn law_double_click_restores(s: SortState, column: SortColumn)
    requires
        s.column == column,
    ensures
        s.clicked(column).clicked(column) == s,
{
}

/// Whatever the state, a click on a header sorts the list by that column, and
/// two clicks on it give the two directions.
pub proof fn law_click_selects_column(s: SortState, column: SortColumn)
    ensures
        s.clicked(column).column == column,
        s.clicked(column).clicked(column).column == column,
        s.clicked(column).clicked(column).ascending == !s.clicked(column).ascending,
{
}

/// The optional columns of the process table.
#[derive(Clone, Copy, PartialEq, Eq, Structural, Debug)]
pub struct VisibleColumns {
    pub virtual_memory: bool,
    pub parent_pid: bool,
    pub start_time: bool,
    pub executable_path: bool,
    pub working_directory: bool,
}

impl VisibleColumns {
    /// Whether the header of `column` is drawn as a sort button: PID, CPU and
    /// memory always, an optional column while it is shown, name and status
    /// never (they are plain labels).
    pub open spec fn shows_sort_button(self, column: SortColumn) -> bool {
        match column {
            SortColumn::Name | SortColumn::Status => false,
            SortColumn::Pid | SortColumn::Cpu | SortColumn::Memory => true,
            SortColumn::VirtualMemory => self.virtual_memory,
            SortColumn::ParentPid => self.parent_pid,
            SortColumn::StartTime => self.start_time,
            SortColumn::ExecutablePath => self.executable_path,
            SortColumn::WorkingDirectory => self.working_directory,
        }
    }

    /// Executable form of `shows_sort_button`.
    pub fn sort_button_shown(&self, column: SortColumn) -> (b: bool)
        ensures
            b == self.shows_sort_button(column),
    {
        match column {
            SortColumn::Name | SortColumn::Status => false,
            SortColumn::Pid | SortColumn::Cpu | SortColumn::Memory => true,
            SortColumn::VirtualMemory => self.virtual_memory,
            SortColumn::ParentPid => self.parent_pid,
            SortColumn::StartTime => self.start_time,
            SortColumn::ExecutablePath => self.executable_path,
            SortColumn::WorkingDirectory => self.working_directory,
        }
    }

    /// The number of optional columns that are shown.
    pub open spec fn shown_extra(self) -> nat {
        (if self.virtual_memory { 1nat } else { 0nat }) + (if self.parent_pid { 1nat } else { 0nat })
            + (if self.start_time { 1nat } else { 0nat }) + (if self.executable_path { 1nat } else { 0nat })
            + (if self.working_directory { 1nat } else { 0nat })
    }

    /// The number of columns of the table: the five fixed ones (process,
    /// PID, CPU, memory, status) and the optional ones that are shown.
    pub fn column_count(&self) -> (n: usize)
        ensures
            n == 5 + self.shown_extra(),
            5 <= n <= 10,
    {
        let mut n: usize = 5;
        if self.virtual_memory {
            n += 1;
        }
        if self.parent_pid {
            n += 1;
        }
        if self.start_time {
            n += 1;
        }
        if self.executable_path {
            n += 1;
        }
        if self.working_directory {
            n += 1;
        }
        n
    }
}

/// Each optional column adds exactly one column to the table: showing any
/// one of them, the others left as they are, raises the count by one, and
/// with none shown the table has its five fixed columns.
pub proof fn law_each_shown_column_counts_once(v: VisibleColumns)
    ensures
        (VisibleColumns { virtual_memory: true, ..v }).shown_extra() == (VisibleColumns {
            virtual_memory: false,
            ..v
        }).shown_extra() + 1,
        (VisibleColumns { parent_pid: true, ..v }).shown_extra() == (VisibleColumns {
            parent_pid: false,
            ..v
        }).shown_extra() + 1,
        (VisibleColumns { start_time: true, ..v }).shown_extra() == (VisibleColumns {
            start_time: false,
            ..v
        }).shown_extra() + 1,
        (VisibleColumns { executable_path: true, ..v }).shown_extra() == (VisibleColumns {
            executable_path: false,
            ..v
        }).shown_extra() + 1,
        (VisibleColumns { working_directory: true, ..v }).shown_extra() == (VisibleColumns {
            working_directory: false,
            ..v
        }).shown_extra() + 1,
        (VisibleColumns {
            virtual_memory: false,
            parent_pid: false,
            start_time: false,
            executable_path: false,
            working_directory: false,
        }).shown_extra() == 0,
{
}

impl Default for VisibleColumns {
    /// No optional column is shown at first.
    fn default() -> (v: Self)
        ensures
            !v.virtual_memory,
            !v.parent_pid,
            !v.start_time,
            !v.executable_path,
            !v.working_directory,
    {
        VisibleColumns {
            virtual_memory: false,
            parent_pid: false,
            start_time: false,
            executable_path: false,
            working_directory: false,
        }
    }
}

} // verus!
