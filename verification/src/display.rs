//! The small decisions of the explorer's panels: the shape of the per-core
//! CPU grid, which process stays selected, the free memory figure and the
//! parent column's text.

use vstd::prelude::*;
use crate::text::{decimal, decimal_chars, string_from_chars};

verus! {

/// The grid of per-core CPU graphs: at most eight graphs a row.
#[derive(Clone, Copy, PartialEq, Eq, Structural, Debug)]
pub struct CpuGrid {
    pub columns: usize,
    pub rows: usize,
}

impl CpuGrid {
    /// The grid for `cpu_count` cores.
    pub fn new(cpu_count: usize) -> (g: Self)
        requires
            cpu_count > 0,
            cpu_count <= usize::MAX - 8,
        ensures
            g.columns == if cpu_count < 8 { cpu_count } else { 8 },
            g.rows == (cpu_count + g.columns - 1) / g.columns as int,
            g.columns * g.rows >= cpu_count,
            g.columns * (g.rows - 1) < cpu_count,
    {
        let columns: usize = if cpu_count < 8 {
            cpu_count
        } else {
            8
        };
        let rows: usize = (cpu_count + columns - 1) / columns;
        assert(columns * rows >= cpu_count && columns * (rows - 1) < cpu_count) by (nonlinear_arith)
            requires
                columns >= 1,
                rows == (cpu_count + columns - 1) / columns as int,
        ;
        CpuGrid { columns, rows }
    }

    /// Whether the graph of core `index` is the last of its row.
    pub fn ends_row(&self, index: usize) -> (b: bool)
        requires
            self.columns > 0,
            index < usize::MAX,
        ensures
            b == ((index + 1) % (self.columns as int) == 0),
    {
        (index + 1) % self.columns == 0
    }
}

/// The number of cores the CPU tab reports: half the logical processors.
pub fn estimated_cores(logical: usize) -> (n: usize)
    ensures
        n == logical / 2,
{
    logical / 2
}

/// The selected process after a pass over the list: a click selects the
/// clicked process, else the selection stays.
pub fn selection_after_click(selected: Option<u32>, clicked: Option<u32>) -> (s: Option<u32>)
    ensures
        s == if clicked is Some {
            clicked
        } else {
            selected
        },
{
    match clicked {
        Some(pid) => Some(pid),
        None => selected,
    }
}

/// The selection once the details panel has looked the process up: it is
/// dropped when the process no longer exists.
pub fn selection_if_present(selected: Option<u32>, present: bool) -> (s: Option<u32>)
    ensures
        s == if present {
            selected
        } else {
            None
        },
{
    if present {
        selected
    } else {
        None
    }
}

/// The memory shown as available: total less used, and no less than zero.
pub fn available_memory(total: u64, used: u64) -> (a: u64)
    ensures
        a == if used <= total {
            total - used
        } else {
            0
        },
{
    total.saturating_sub(used)
}

/// The parent column's text: the parent's PID, or `-` where there is none.
pub fn parent_text(parent: Option<u32>) -> (s: String)
    ensures
        s@ == match parent {
            Some(p) => decimal(p as nat),
            None => seq!['-'],
        },
{
    let chars: Vec<char> = match parent {
        Some(p) => decimal_chars(p as u64),
        None => {
            let mut v: Vec<char> = Vec::new();
            v.push('-');
            assert(v@ =~= seq!['-']);
            v
        },
    };
    string_from_chars(&chars)
}

} // verus!
