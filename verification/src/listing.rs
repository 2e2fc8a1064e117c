//! The process list: which processes pass the filter, and the order in which
//! they are listed.
//!
//! The list is ordered by the selected column, in the selected direction;
//! processes that agree on the column keep the order in which they were
//! handed in, as a stable sort leaves them. That makes the listing a function
//! of its inputs: `is_listing` has exactly one solution.

use vstd::prelude::*;
use crate::columns::{SortColumn, SortState};
use crate::text::{
    ascii_lowercase, decimal, has_substring, is_ascii_text, law_ascii_lowercase_keeps_substrings,
    law_substring_transitive, lowercase, contains_text, decimal_chars, to_lowercase_chars,
};

verus! {

/// What the process list reads of one process.
pub struct ProcessRow {
    pub pid: u32,
    pub name: Vec<char>,
    /// A number that orders processes as their CPU usage does.
    pub cpu_key: u32,
    /// Resident memory in bytes.
    pub memory: u64,
    /// Virtual memory in bytes.
    pub virtual_memory: u64,
    pub parent: Option<u32>,
    /// Start time in seconds since the epoch.
    pub start_time: u64,
    /// The path of the executable, where it is known.
    pub exe: Option<Vec<char>>,
    /// The working directory, where it is known.
    pub cwd: Option<Vec<char>>,
}

/// The outcome of comparing two keys.
#[derive(Clone, Copy, PartialEq, Eq, Structural, Debug)]
pub enum Order {
    Less,
    Equal,
    Greater,
}

/// The order of two numbers.
pub open spec fn number_order(a: int, b: int) -> Order {
    if a < b {
        Order::Less
    } else if a == b {
        Order::Equal
    } else {
        Order::Greater
    }
}

/// The lexicographic order of two texts by the code points of their
/// characters, the order `String`'s `Ord` gives them.
pub open spec fn text_order(a: Seq<char>, b: Seq<char>) -> Order
    decreases a.len(),
{
    if a.len() == 0 {
        if b.len() == 0 {
            Order::Equal
        } else {
            Order::Less
        }
    } else if b.len() == 0 {
        Order::Greater
    } else if (a[0] as int) < (b[0] as int) {
        Order::Less
    } else if (a[0] as int) > (b[0] as int) {
        Order::Greater
    } else {
        text_order(a.drop_first(), b.drop_first())
    }
}

/// A path as the list compares it: a missing one counts as the empty text.
pub open spec fn path_text(p: Option<Vec<char>>) -> Seq<char> {
    match p {
        Some(v) => v@,
        None => Seq::empty(),
    }
}

/// The columns whose key is a text.
pub open spec fn is_text_column(column: SortColumn) -> bool {
    column is Name || column is ExecutablePath || column is WorkingDirectory
}

/// The text key of a row in a text column.
pub open spec fn text_key(row: ProcessRow, column: SortColumn) -> Seq<char> {
    match column {
        SortColumn::Name => row.name@,
        SortColumn::ExecutablePath => path_text(row.exe),
        SortColumn::WorkingDirectory => path_text(row.cwd),
        _ => Seq::empty(),
    }
}

/// The numeric key of a row in a numeric column. The status column is ordered
/// by memory; a missing parent comes before every parent.
pub open spec fn number_key(row: ProcessRow, column: SortColumn) -> int {
    match column {
        SortColumn::Pid => row.pid as int,
        SortColumn::Cpu => row.cpu_key as int,
        SortColumn::Memory => row.memory as int,
        SortColumn::Status => row.memory as int,
        SortColumn::VirtualMemory => row.virtual_memory as int,
        SortColumn::ParentPid => match row.parent {
            Some(p) => p as int,
            None => -1,
        },
        SortColumn::StartTime => row.start_time as int,
        _ => 0,
    }
}

/// How two rows compare in a column.
pub open spec fn row_order(a: ProcessRow, b: ProcessRow, column: SortColumn) -> Order {
    if is_text_column(column) {
        text_order(text_key(a, column), text_key(b, column))
    } else {
        number_order(number_key(a, column), number_key(b, column))
    }
}

/// Row `i` is listed before row `j`: it comes first in the selected
/// direction, or the two agree on the column and `i` was handed in first.
pub open spec fn listed_before(rows: Seq<ProcessRow>, sort: SortState, i: int, j: int) -> bool {
    let o = row_order(rows[i], rows[j], sort.column);
    if sort.ascending {
        o is Less || (o is Equal && i < j)
    } else {
        o is Greater || (o is Equal && i < j)
    }
}

/// The filter test on already lowercased texts: the filter occurs in the
/// name, ignoring case, or the filter as typed occurs in the decimal PID.
pub open spec fn text_matches(name_lower: Seq<char>, filter_lower: Seq<char>, pid: u32, filter: Seq<char>) -> bool {
    has_substring(name_lower, filter_lower) || has_substring(decimal(pid as nat), filter)
}

/// A row passes the filter: the filter is empty, or it matches the row.
pub open spec fn matches_filter(row: ProcessRow, filter: Seq<char>) -> bool {
    filter.len() == 0 || text_matches(lowercase(row.name@), lowercase(filter), row.pid, filter)
}

/// A sequence of row indices in listing order.
pub open spec fn in_listing_order(rows: Seq<ProcessRow>, sort: SortState, order: Seq<usize>) -> bool {
    &&& forall|p: int| 0 <= p < order.len() ==> (order[p] as int) < rows.len()
    &&& forall|p: int, q: int|
        0 <= p < q < order.len() ==> listed_before(rows, sort, order[p] as int, order[q] as int)
}

/// `order` is the listing of `rows` under `filter` and `sort`: the indices of
/// exactly the rows that pass the filter, each once, in listing order.
pub open spec fn is_listing(rows: Seq<ProcessRow>, filter: Seq<char>, sort: SortState, order: Seq<usize>) -> bool {
    &&& in_listing_order(rows, sort, order)
    &&& forall|p: int| 0 <= p < order.len() ==> matches_filter(rows[order[p] as int], filter)
    &&& forall|k: int| 0 <= k < rows.len() && matches_filter(rows[k], filter) ==> order.contains(k as usize)
}

proof fn lemma_text_order(a: Seq<char>, b: Seq<char>, c: Seq<char>)
    ensures
        (text_order(a, b) is Equal) == (a == b),
        (text_order(a, b) is Less) == (text_order(b, a) is Greater),
        text_order(a, b) is Less && text_order(b, c) is Less ==> text_order(a, c) is Less,
    decreases a.len(),
{
    if a.len() > 0 && b.len() > 0 && (a[0] as int) == (b[0] as int) {
        if c.len() > 0 {
            lemma_text_order(a.drop_first(), b.drop_first(), c.drop_first());
        } else {
            lemma_text_order(a.drop_first(), b.drop_first(), c);
        }
        assert(a[0] == b[0]);
        if a.drop_first() == b.drop_first() {
            assert(a =~= b) by {
                assert forall|i: int| 0 <= i < a.len() implies a[i] == b[i] by {
                    if i > 0 {
                        assert(a[i] == a.drop_first()[i - 1]);
                        assert(b[i] == b.drop_first()[i - 1]);
                    }
                }
            }
        }
        if a == b {
            assert(a.drop_first() == b.drop_first());
        }
    } else if a.len() > 0 && b.len() > 0 {
        assert(a != b) by {
            if a == b {
                assert(a[0] == b[0]);
            }
        }
    } else if a.len() == 0 && b.len() == 0 {
        assert(a =~= b);
    } else {
        assert(a != b) by {
            if a == b {
                assert(a.len() == b.len());
            }
        }
    }
}

/// The order facts on rows that the listing rests on.
proof fn lemma_row_order(a: ProcessRow, b: ProcessRow, c: ProcessRow, column: SortColumn)
    ensures
        row_order(a, a, column) is Equal,
        (row_order(a, b, column) is Less) == (row_order(b, a, column) is Greater),
        (row_order(a, b, column) is Equal) == (row_order(b, a, column) is Equal),
        row_order(a, b, column) is Equal ==> row_order(a, c, column) == row_order(b, c, column)
            && row_order(c, a, column) == row_order(c, b, column),
        row_order(a, b, column) is Less && row_order(b, c, column) is Less ==> row_order(a, c, column) is Less,
        row_order(a, b, column) is Greater && row_order(b, c, column) is Greater ==> row_order(
            a,
            c,
            column,
        ) is Greater,
{
    if is_text_column(column) {
        let ka = text_key(a, column);
        let kb = text_key(b, column);
        let kc = text_key(c, column);
        lemma_text_order(ka, ka, kc);
        lemma_text_order(ka, kb, kc);
        lemma_text_order(kb, ka, kc);
        lemma_text_order(kc, kb, ka);
        lemma_text_order(ka, kc, kb);
        lemma_text_order(kc, ka, kb);
    }
}

/// The facts that make `listed_before` a strict total order on row indices.
proof fn lemma_listed(rows: Seq<ProcessRow>, sort: SortState, i: int, j: int, k: int)
    requires
        0 <= i < rows.len(),
        0 <= j < rows.len(),
        0 <= k < rows.len(),
    ensures
        !listed_before(rows, sort, i, i),
        i != j ==> listed_before(rows, sort, i, j) || listed_before(rows, sort, j, i),
        listed_before(rows, sort, i, j) ==> !listed_before(rows, sort, j, i),
        listed_before(rows, sort, i, j) && listed_before(rows, sort, j, k) ==> listed_before(rows, sort, i, k),
{
    let c = sort.column;
    lemma_row_order(rows[i], rows[j], rows[k], c);
    lemma_row_order(rows[j], rows[k], rows[i], c);
    lemma_row_order(rows[i], rows[k], rows[j], c);
    lemma_row_order(rows[j], rows[i], rows[k], c);
}

/// Compares two numbers.
fn compare_numbers(a: u64, b: u64) -> (o: Order)
    ensures
        o == number_order(a as int, b as int),
{
    if a < b {
        Order::Less
    } else if a == b {
        Order::Equal
    } else {
        Order::Greater
    }
}

/// Compares two texts by code points.
pub fn compare_text(a: &Vec<char>, b: &Vec<char>) -> (o: Order)
    ensures
        o == text_order(a@, b@),
{
    let mut i: usize = 0;
    assert(a@.skip(0) =~= a@);
    assert(b@.skip(0) =~= b@);
    while i < a.len() && i < b.len()
        invariant
            i <= a@.len(),
            i <= b@.len(),
            text_order(a@, b@) == text_order(a@.skip(i as int), b@.skip(i as int)),
        decreases a@.len() - i,
    {
        let x: char = a[i];
        let y: char = b[i];
        assert(a@.skip(i as int)[0] == a@[i as int]);
        assert(b@.skip(i as int)[0] == b@[i as int]);
        if x < y {
            return Order::Less;
        }
        if x > y {
            return Order::Greater;
        }
        assert(a@.skip(i as int).drop_first() =~= a@.skip(i + 1));
        assert(b@.skip(i as int).drop_first() =~= b@.skip(i + 1));
        i += 1;
    }
    if i == a.len() {
        if i == b.len() {
            Order::Equal
        } else {
            Order::Less
        }
    } else {
        Order::Greater
    }
}

/// Compares two optional paths, a missing one as the empty text.
fn compare_paths(a: &Option<Vec<char>>, b: &Option<Vec<char>>) -> (o: Order)
    ensures
        o == text_order(path_text(*a), path_text(*b)),
{
    match a {
        Some(x) => match b {
            Some(y) => compare_text(x, y),
            None => {
                if x.len() == 0 {
                    Order::Equal
                } else {
                    Order::Greater
                }
            },
        },
        None => match b {
            Some(y) => {
                if y.len() == 0 {
                    Order::Equal
                } else {
                    Order::Less
                }
            },
            None => Order::Equal,
        },
    }
}

/// Compares two optional parent PIDs; a missing parent comes first.
fn compare_parents(a: Option<u32>, b: Option<u32>) -> (o: Order)
    ensures
        o == number_order(
            match a {
                Some(p) => p as int,
                None => -1,
            },
            match b {
                Some(p) => p as int,
                None => -1,
            },
        ),
{
    match a {
        Some(x) => match b {
            Some(y) => compare_numbers(x as u64, y as u64),
            None => Order::Greater,
        },
        None => match b {
            Some(_) => Order::Less,
            None => Order::Equal,
        },
    }
}

/// How two rows compare in a column.
pub fn compare_rows(a: &ProcessRow, b: &ProcessRow, column: SortColumn) -> (o: Order)
    ensures
        o == row_order(*a, *b, column),
{
    match column {
        SortColumn::Name => compare_text(&a.name, &b.name),
        SortColumn::ExecutablePath => compare_paths(&a.exe, &b.exe),
        SortColumn::WorkingDirectory => compare_paths(&a.cwd, &b.cwd),
        SortColumn::Pid => compare_numbers(a.pid as u64, b.pid as u64),
        SortColumn::Cpu => compare_numbers(a.cpu_key as u64, b.cpu_key as u64),
        SortColumn::Memory => compare_numbers(a.memory, b.memory),
        SortColumn::Status => compare_numbers(a.memory, b.memory),
        SortColumn::VirtualMemory => compare_numbers(a.virtual_memory, b.virtual_memory),
        SortColumn::ParentPid => compare_parents(a.parent, b.parent),
        SortColumn::StartTime => compare_numbers(a.start_time, b.start_time),
    }
}

/// Whether row `i` is listed before row `j`.
fn listed_first(rows: &Vec<ProcessRow>, sort: SortState, i: usize, j: usize) -> (b: bool)
    requires
        i < rows@.len(),
        j < rows@.len(),
    ensures
        b == listed_before(rows@, sort, i as int, j as int),
{
    let o = compare_rows(&rows[i], &rows[j], sort.column);
    if sort.ascending {
        match o {
            Order::Less => true,
            Order::Equal => i < j,
            Order::Greater => false,
        }
    } else {
        match o {
            Order::Greater => true,
            Order::Equal => i < j,
            Order::Less => false,
        }
    }
}

/// Inserts index `k`, larger than every index already there, at its place in
/// listing order.
fn insert_in_order(rows: &Vec<ProcessRow>, sort: SortState, order: &mut Vec<usize>, k: usize)
    requires
        k < rows@.len(),
        in_listing_order(rows@, sort, old(order)@),
        forall|p: int| 0 <= p < old(order)@.len() ==> old(order)@[p] < k,
    ensures
        in_listing_order(rows@, sort, final(order)@),
        final(order)@.len() == old(order)@.len() + 1,
        forall|x: usize| final(order)@.contains(x) <==> (old(order)@.contains(x) || x == k),
        forall|p: int| 0 <= p < final(order)@.len() ==> final(order)@[p] <= k,
{
    let ghost start = order@;
    let mut lo: usize = 0;
    let mut hi: usize = order.len();
    while lo < hi
        invariant
            order@ == start,
            k < rows@.len(),
            in_listing_order(rows@, sort, start),
            forall|p: int| 0 <= p < start.len() ==> start[p] < k,
            lo <= hi <= start.len(),
            forall|m: int| 0 <= m < lo ==> listed_before(rows@, sort, start[m] as int, k as int),
            forall|m: int| hi <= m < start.len() ==> listed_before(rows@, sort, k as int, start[m] as int),
        decreases hi - lo,
    {
        let mid: usize = lo + (hi - lo) / 2;
        let other: usize = order[mid];
        if listed_first(rows, sort, k, other) {
            assert forall|m: int| mid <= m < start.len() implies listed_before(
                rows@,
                sort,
                k as int,
                start[m] as int,
            ) by {
                if m > mid {
                    lemma_listed(rows@, sort, k as int, other as int, start[m] as int);
                }
            }
            hi = mid;
        } else {
            proof {
                lemma_listed(rows@, sort, k as int, other as int, other as int);
            }
            assert forall|m: int| 0 <= m <= mid implies listed_before(
                rows@,
                sort,
                start[m] as int,
                k as int,
            ) by {
                if m < mid {
                    lemma_listed(rows@, sort, start[m] as int, other as int, k as int);
                }
            }
            lo = mid + 1;
        }
    }
    let pos = lo;
    order.insert(pos, k);
    proof {
        start.insert_ensures(pos as int, k);
        let now = order@;
        assert forall|p: int, q: int| 0 <= p < q < now.len() implies listed_before(
            rows@,
            sort,
            now[p] as int,
            now[q] as int,
        ) by {
            if q < pos {
            } else if q == pos {
            } else if p < pos {
                lemma_listed(rows@, sort, now[p] as int, k as int, now[q] as int);
            } else if p == pos {
            } else {
            }
        }
        assert forall|x: usize| now.contains(x) <==> (start.contains(x) || x == k) by {
            if now.contains(x) {
                let q = choose|q: int| 0 <= q < now.len() && now[q] == x;
                if q < pos {
                    assert(start[q] == x);
                } else if q > pos {
                    assert(start[q - 1] == x);
                }
            }
            if start.contains(x) {
                let m = choose|m: int| 0 <= m < start.len() && start[m] == x;
                if m < pos {
                    assert(now[m] == x);
                } else {
                    assert(now[m + 1] == x);
                }
            }
            if x == k {
                assert(now[pos as int] == x);
            }
        }
    }
}

/// The filter test on already lowercased texts: whether the lowercased
/// filter occurs in the lowercased name, or the filter as typed in the
/// decimal PID.
pub fn row_matches(name_lower: &Vec<char>, filter_lower: &Vec<char>, pid: u32, filter: &Vec<char>) -> (b: bool)
    ensures
        b == text_matches(name_lower@, filter_lower@, pid, filter@),
{
    if contains_text(name_lower, filter_lower) {
        true
    } else {
        let digits = decimal_chars(pid as u64);
        contains_text(&digits, filter)
    }
}

/// The process list: the indices of the rows that pass `filter`, ordered by
/// `sort`, ties kept in the order of `rows`.
pub fn process_order(rows: &Vec<ProcessRow>, filter: &Vec<char>, sort: SortState) -> (order: Vec<usize>)
    ensures
        is_listing(rows@, filter@, sort, order@),
        filter@.len() > 0 && is_ascii_text(filter@) ==> lowercase(filter@) == ascii_lowercase(filter@),
{
    let filtering = filter.len() > 0;
    let filter_lower = if filtering {
        to_lowercase_chars(filter)
    } else {
        Vec::new()
    };
    let mut order: Vec<usize> = Vec::new();
    let mut k: usize = 0;
    while k < rows.len()
        invariant
            k <= rows@.len(),
            filtering == (filter@.len() > 0),
            filtering ==> filter_lower@ == lowercase(filter@),
            filtering && is_ascii_text(filter@) ==> lowercase(filter@) == ascii_lowercase(filter@),
            in_listing_order(rows@, sort, order@),
            forall|p: int| 0 <= p < order@.len() ==> order@[p] < k,
            forall|p: int| 0 <= p < order@.len() ==> matches_filter(rows@[order@[p] as int], filter@),
            forall|m: int| 0 <= m < k && matches_filter(rows@[m], filter@) ==> order@.contains(m as usize),
        decreases rows@.len() - k,
    {
        let keep = if !filtering {
            true
        } else {
            let name_lower = to_lowercase_chars(&rows[k].name);
            row_matches(&name_lower, &filter_lower, rows[k].pid, filter)
        };
        if keep {
            let ghost before = order@;
            insert_in_order(rows, sort, &mut order, k);
            proof {
                assert forall|p: int| 0 <= p < order@.len() implies matches_filter(
                    rows@[order@[p] as int],
                    filter@,
                ) by {
                    assert(order@.contains(order@[p]));
                    if order@[p] != k {
                        assert(before.contains(order@[p]));
                    }
                }
                assert forall|m: int| 0 <= m < k + 1 && matches_filter(rows@[m], filter@) implies order@.contains(
                    m as usize,
                ) by {
                    if m < k {
                        assert(before.contains(m as usize));
                    }
                }
                assert forall|p: int| 0 <= p < order@.len() implies order@[p] < k + 1 by {}
            }
        } else {
            assert forall|p: int| 0 <= p < order@.len() implies order@[p] < k + 1 by {}
        }
        k += 1;
    }
    order
}

/// Two strictly ordered sequences that hold the same elements are equal.
proof fn lemma_sorted_unique(
    a: Seq<usize>,
    b: Seq<usize>,
    member: spec_fn(usize) -> bool,
    lt: spec_fn(usize, usize) -> bool,
)
    requires
        forall|x: usize| a.contains(x) <==> member(x),
        forall|x: usize| b.contains(x) <==> member(x),
        forall|p: int, q: int| 0 <= p < q < a.len() ==> lt(a[p], a[q]),
        forall|p: int, q: int| 0 <= p < q < b.len() ==> lt(b[p], b[q]),
        forall|x: usize, y: usize| member(x) && member(y) && #[trigger] lt(x, y) ==> !lt(y, x),
    ensures
        a == b,
    decreases a.len(),
{
    if a.len() == 0 {
        if b.len() > 0 {
            assert(b.contains(b[0]));
            assert(a.contains(b[0]));
        }
        assert(a =~= b);
    } else {
        let first = a[0];
        assert(a.contains(first));
        assert(b.contains(first));
        assert(b.len() > 0);
        if b[0] != first {
            let q = choose|q: int| 0 <= q < b.len() && b[q] == first;
            assert(q > 0);
            assert(lt(b[0], first));
            assert(b.contains(b[0]));
            assert(a.contains(b[0]));
            let p = choose|p: int| 0 <= p < a.len() && a[p] == b[0];
            assert(p > 0);
            assert(lt(first, b[0]));
        }
        let rest = |x: usize| member(x) && x != first;
        let a2 = a.drop_first();
        let b2 = b.drop_first();
        assert forall|x: usize| a2.contains(x) <==> rest(x) by {
            if a2.contains(x) {
                let p = choose|p: int| 0 <= p < a2.len() && a2[p] == x;
                assert(a[p + 1] == x);
                assert(a.contains(x));
                if x == first {
                    assert(lt(a[0], a[p + 1]));
                }
            }
            if rest(x) {
                assert(a.contains(x));
                let p = choose|p: int| 0 <= p < a.len() && a[p] == x;
                assert(p > 0);
                assert(a2[p - 1] == x);
            }
        }
        assert forall|x: usize| b2.contains(x) <==> rest(x) by {
            if b2.contains(x) {
                let p = choose|p: int| 0 <= p < b2.len() && b2[p] == x;
                assert(b[p + 1] == x);
                assert(b.contains(x));
                if x == first {
                    assert(lt(b[0], b[p + 1]));
                }
            }
            if rest(x) {
                assert(b.contains(x));
                let p = choose|p: int| 0 <= p < b.len() && b[p] == x;
                assert(p > 0);
                assert(b2[p - 1] == x);
            }
        }
        assert forall|p: int, q: int| 0 <= p < q < a2.len() implies lt(a2[p], a2[q]) by {
            assert(a2[p] == a[p + 1]);
            assert(a2[q] == a[q + 1]);
        }
        assert forall|p: int, q: int| 0 <= p < q < b2.len() implies lt(b2[p], b2[q]) by {
            assert(b2[p] == b[p + 1]);
            assert(b2[q] == b[q + 1]);
        }
        lemma_sorted_unique(a2, b2, rest, lt);
        assert(a =~= b) by {
            assert forall|i: int| 0 <= i < a.len() implies a[i] == b[i] by {
                if i > 0 {
                    assert(a[i] == a2[i - 1]);
                    assert(b[i] == b2[i - 1]);
                }
            }
        }
    }
}

/// The listing is determined by the rows, the filter and the order: any two
/// sequences that meet `is_listing` for the same inputs are the same, so the
/// result of `process_order` is the one that a stable sort of the filtered
/// rows gives.
pub proof fn law_listing_is_unique(
    rows: Seq<ProcessRow>,
    filter: Seq<char>,
    sort: SortState,
    first: Seq<usize>,
    second: Seq<usize>,
)
    requires
        is_listing(rows, filter, sort, first),
        is_listing(rows, filter, sort, second),
    ensures
        first == second,
{
    let member = |x: usize| (x as int) < rows.len() && matches_filter(rows[x as int], filter);
    let lt = |x: usize, y: usize| listed_before(rows, sort, x as int, y as int);
    assert forall|x: usize| first.contains(x) <==> member(x) by {
        if first.contains(x) {
            let p = choose|p: int| 0 <= p < first.len() && first[p] == x;
        }
    }
    assert forall|x: usize| second.contains(x) <==> member(x) by {
        if second.contains(x) {
            let p = choose|p: int| 0 <= p < second.len() && second[p] == x;
        }
    }
    assert forall|x: usize, y: usize| member(x) && member(y) && #[trigger] lt(x, y) implies !lt(y, x) by {
        lemma_listed(rows, sort, x as int, y as int, y as int);
    }
    lemma_sorted_unique(first, second, member, lt);
}

/// Where no two listed rows agree on the column, the descending listing is
/// the ascending one reversed.
pub proof fn law_descending_reverses_ascending(
    rows: Seq<ProcessRow>,
    filter: Seq<char>,
    column: SortColumn,
    up: Seq<usize>,
    down: Seq<usize>,
)
    requires
        is_listing(rows, filter, SortState { column, ascending: true }, up),
        is_listing(rows, filter, SortState { column, ascending: false }, down),
        forall|i: int, j: int|
            0 <= i < rows.len() && 0 <= j < rows.len() && i != j && matches_filter(rows[i], filter)
                && matches_filter(rows[j], filter) ==> !(row_order(rows[i], rows[j], column) is Equal),
    ensures
        down == up.reverse(),
{
    let asc = SortState { column, ascending: true };
    let desc = SortState { column, ascending: false };
    let rev = up.reverse();
    let n = up.len();
    assert forall|p: int, q: int| 0 <= p < q < rev.len() implies listed_before(
        rows,
        desc,
        rev[p] as int,
        rev[q] as int,
    ) by {
        let x = up[n - 1 - p] as int;
        let y = up[n - 1 - q] as int;
        assert(rev[p] as int == x);
        assert(rev[q] as int == y);
        assert(listed_before(rows, asc, y, x));
        lemma_listed(rows, asc, y, x, x);
        lemma_row_order(rows[y], rows[x], rows[x], column);
        assert(up.contains(up[n - 1 - p]));
        assert(up.contains(up[n - 1 - q]));
    }
    assert forall|p: int| 0 <= p < rev.len() implies (rev[p] as int) < rows.len() && matches_filter(
        rows[rev[p] as int],
        filter,
    ) by {
        assert(rev[p] == up[n - 1 - p]);
    }
    assert forall|k: int| 0 <= k < rows.len() && matches_filter(rows[k], filter) implies rev.contains(
        k as usize,
    ) by {
        assert(up.contains(k as usize));
        let p = choose|p: int| 0 <= p < n && up[p] == k as usize;
        assert(rev[n - 1 - p] == up[p]);
    }
    law_listing_is_unique(rows, filter, desc, down, rev);
}

/// `small` is a subsequence of `big`: its elements occur in `big` in the
/// same order.
pub open spec fn is_subsequence(small: Seq<usize>, big: Seq<usize>) -> bool {
    exists|pos: Seq<int>|
        {
            &&& #[trigger] pos.len() == small.len()
            &&& forall|p: int| 0 <= p < small.len() ==> 0 <= pos[p] < big.len() && big[pos[p]] == small[p]
            &&& forall|p: int, q: int| 0 <= p < q < small.len() ==> pos[p] < pos[q]
        }
}

/// A filter that contains another one, in lowercase and as typed, matches
/// only rows that the other one matches.
pub proof fn law_text_matches_narrowing(
    name_lower: Seq<char>,
    pid: u32,
    short_lower: Seq<char>,
    short: Seq<char>,
    long_lower: Seq<char>,
    long: Seq<char>,
)
    requires
        has_substring(long_lower, short_lower),
        has_substring(long, short),
        text_matches(name_lower, long_lower, pid, long),
    ensures
        text_matches(name_lower, short_lower, pid, short),
{
    if has_substring(name_lower, long_lower) {
        law_substring_transitive(name_lower, long_lower, short_lower);
    } else {
        law_substring_transitive(decimal(pid as nat), long, short);
    }
}

/// When every row that passes one filter passes another, the listing under
/// the first is a subsequence of the listing under the second: the narrower
/// filter only removes rows and keeps the order of the rest.
pub proof fn law_nested_filters_give_subsequence(
    rows: Seq<ProcessRow>,
    wide: Seq<char>,
    narrow: Seq<char>,
    sort: SortState,
    wide_order: Seq<usize>,
    narrow_order: Seq<usize>,
)
    requires
        is_listing(rows, wide, sort, wide_order),
        is_listing(rows, narrow, sort, narrow_order),
        forall|k: int| 0 <= k < rows.len() && #[trigger] matches_filter(rows[k], narrow) ==> matches_filter(rows[k], wide),
    ensures
        is_subsequence(narrow_order, wide_order),
{
    assert forall|p: int| 0 <= p < narrow_order.len() implies wide_order.contains(#[trigger] narrow_order[p]) by {
        let k = narrow_order[p] as int;
        assert(matches_filter(rows[k], narrow));
    }
    let pos = Seq::new(
        narrow_order.len(),
        |p: int| choose|q: int| 0 <= q < wide_order.len() && wide_order[q] == narrow_order[p],
    );
    assert forall|p: int| 0 <= p < narrow_order.len() implies 0 <= pos[p] < wide_order.len()
        && wide_order[pos[p]] == narrow_order[p] by {
        assert(wide_order.contains(narrow_order[p]));
    }
    assert forall|p: int, q: int| 0 <= p < q < narrow_order.len() implies pos[p] < pos[q] by {
        assert(wide_order.contains(narrow_order[p]));
        assert(wide_order.contains(narrow_order[q]));
        let x = narrow_order[p] as int;
        let y = narrow_order[q] as int;
        assert(listed_before(rows, sort, x, y));
        lemma_listed(rows, sort, x, y, y);
        if pos[p] > pos[q] {
            assert(listed_before(rows, sort, y, x));
        }
        if pos[p] == pos[q] {
            assert(x == y);
        }
    }
    assert(pos.len() == narrow_order.len());
}

/// Typing more filter text only removes rows: where the shorter ASCII filter
/// occurs in the longer one, the listing under the longer filter is a
/// subsequence of the listing under the shorter one. The two lowercase
/// facts are what `process_order` states of its filter.
pub proof fn law_longer_filter_narrows(
    rows: Seq<ProcessRow>,
    short: Seq<char>,
    long: Seq<char>,
    sort: SortState,
    short_order: Seq<usize>,
    long_order: Seq<usize>,
)
    requires
        has_substring(long, short),
        is_ascii_text(short),
        is_ascii_text(long),
        short.len() > 0 ==> lowercase(short) == ascii_lowercase(short),
        long.len() > 0 ==> lowercase(long) == ascii_lowercase(long),
        is_listing(rows, short, sort, short_order),
        is_listing(rows, long, sort, long_order),
    ensures
        is_subsequence(long_order, short_order),
{
    assert forall|k: int| 0 <= k < rows.len() && #[trigger] matches_filter(rows[k], long) implies matches_filter(
        rows[k],
        short,
    ) by {
        if short.len() > 0 {
            assert(long.len() > 0) by {
                let at = choose|at: int| crate::text::occurs_at(long, short, at);
            }
            law_ascii_lowercase_keeps_substrings(long, short);
            law_text_matches_narrowing(
                lowercase(rows[k].name@),
                rows[k].pid,
                lowercase(short),
                short,
                lowercase(long),
                long,
            );
        }
    }
    law_nested_filters_give_subsequence(rows, short, long, sort, short_order, long_order);
}

/// The numeric columns compare the rows' own fields: PID, CPU key, memory,
/// memory again for status, virtual memory, and start time, each by the
/// order of the numbers, whatever the other fields hold.
pub proof fn law_numeric_columns_compare_their_fields(a: ProcessRow, b: ProcessRow)
    ensures
        (row_order(a, b, SortColumn::Pid) is Less) == (a.pid < b.pid),
        (row_order(a, b, SortColumn::Pid) is Equal) == (a.pid == b.pid),
        (row_order(a, b, SortColumn::Cpu) is Less) == (a.cpu_key < b.cpu_key),
        (row_order(a, b, SortColumn::Cpu) is Equal) == (a.cpu_key == b.cpu_key),
        (row_order(a, b, SortColumn::Memory) is Less) == (a.memory < b.memory),
        (row_order(a, b, SortColumn::Memory) is Equal) == (a.memory == b.memory),
        (row_order(a, b, SortColumn::Status) is Less) == (a.memory < b.memory),
        (row_order(a, b, SortColumn::Status) is Equal) == (a.memory == b.memory),
        (row_order(a, b, SortColumn::VirtualMemory) is Less) == (a.virtual_memory < b.virtual_memory),
        (row_order(a, b, SortColumn::VirtualMemory) is Equal) == (a.virtual_memory == b.virtual_memory),
        (row_order(a, b, SortColumn::StartTime) is Less) == (a.start_time < b.start_time),
        (row_order(a, b, SortColumn::StartTime) is Equal) == (a.start_time == b.start_time),
{
}

/// The parent column puts a missing parent before every parent, treats two
/// missing parents as equal, and orders present parents by PID.
pub proof fn law_parent_column_missing_first(a: ProcessRow, b: ProcessRow)
    ensures
        a.parent is None && b.parent is Some ==> row_order(a, b, SortColumn::ParentPid) is Less,
        a.parent is None && b.parent is None ==> row_order(a, b, SortColumn::ParentPid) is Equal,
        a.parent is Some && b.parent is Some ==> ((row_order(a, b, SortColumn::ParentPid) is Less) == (
        a.parent->0 < b.parent->0) && (row_order(a, b, SortColumn::ParentPid) is Equal) == (a.parent->0
            == b.parent->0)),
{
}

/// Two texts compare as the first code point in which they differ does,
/// and a proper prefix comes before the longer text; equal texts are equal.
pub proof fn law_text_order_is_lexicographic(a: Seq<char>, b: Seq<char>)
    ensures
        (text_order(a, b) is Equal) == (a == b),
        (text_order(a, b) is Less) == ((a.len() < b.len() && a == b.subrange(0, a.len() as int)) || exists|i: int|
            0 <= i < a.len() && i < b.len() && #[trigger] a.subrange(0, i) == b.subrange(0, i) && (a[i] as int) < (
            b[i] as int)),
        (text_order(a, b) is Greater) == (text_order(b, a) is Less),
    decreases a.len(),
{
    lemma_text_order(a, b, b);
    lemma_text_order(b, a, a);
    let less = text_order(a, b) is Less;
    let prefix = a.len() < b.len() && a == b.subrange(0, a.len() as int);
    let differs = exists|i: int|
        0 <= i < a.len() && i < b.len() && #[trigger] a.subrange(0, i) == b.subrange(0, i) && (a[i] as int) < (
        b[i] as int);
    if a.len() == 0 {
        if b.len() > 0 {
            assert(a =~= b.subrange(0, 0));
        }
    } else if b.len() == 0 {
    } else if (a[0] as int) != (b[0] as int) {
        if (a[0] as int) < (b[0] as int) {
            assert(a.subrange(0, 0) =~= b.subrange(0, 0));
        } else {
            assert(!prefix) by {
                if prefix {
                    assert(a[0] == b.subrange(0, a.len() as int)[0]);
                }
            }
            assert(!differs) by {
                if differs {
                    let i = choose|i: int|
                        0 <= i < a.len() && i < b.len() && #[trigger] a.subrange(0, i) == b.subrange(0, i) && (
                        a[i] as int) < (b[i] as int);
                    if i > 0 {
                        assert(a.subrange(0, i)[0] == b.subrange(0, i)[0]);
                    }
                }
            }
        }
    } else {
        let a2 = a.drop_first();
        let b2 = b.drop_first();
        law_text_order_is_lexicographic(a2, b2);
        assert(text_order(a, b) == text_order(a2, b2));
        let prefix2 = a2.len() < b2.len() && a2 == b2.subrange(0, a2.len() as int);
        let differs2 = exists|i: int|
            0 <= i < a2.len() && i < b2.len() && #[trigger] a2.subrange(0, i) == b2.subrange(0, i) && (
            a2[i] as int) < (b2[i] as int);
        assert(a[0] == b[0]);
        if prefix2 {
            assert(a =~= b.subrange(0, a.len() as int)) by {
                assert forall|k: int| 0 <= k < a.len() implies a[k] == b.subrange(0, a.len() as int)[k] by {
                    if k > 0 {
                        assert(a[k] == a2[k - 1]);
                        assert(b2.subrange(0, a2.len() as int)[k - 1] == b2[k - 1]);
                    }
                }
            }
        }
        if prefix {
            assert(a2 =~= b2.subrange(0, a2.len() as int)) by {
                assert forall|k: int| 0 <= k < a2.len() implies a2[k] == b2.subrange(0, a2.len() as int)[k] by {
                    assert(b.subrange(0, a.len() as int)[k + 1] == b[k + 1]);
                }
            }
        }
        if differs2 {
            let i = choose|i: int|
                0 <= i < a2.len() && i < b2.len() && #[trigger] a2.subrange(0, i) == b2.subrange(0, i) && (
                a2[i] as int) < (b2[i] as int);
            let j = i + 1;
            let sa = a.subrange(0, j);
            let sb = b.subrange(0, j);
            assert(sa =~= sb) by {
                assert forall|k: int| 0 <= k < j implies sa[k] == sb[k] by {
                    if k > 0 {
                        assert(a2.subrange(0, i)[k - 1] == b2.subrange(0, i)[k - 1]);
                    }
                }
            }
            assert(a[i + 1] == a2[i]);
            assert(b[i + 1] == b2[i]);
        }
        if differs {
            let i = choose|i: int|
                0 <= i < a.len() && i < b.len() && #[trigger] a.subrange(0, i) == b.subrange(0, i) && (a[i] as int)
                    < (b[i] as int);
            assert(i > 0);
            let j = i - 1;
            let sa = a2.subrange(0, j);
            let sb = b2.subrange(0, j);
            assert(sa =~= sb) by {
                assert forall|k: int| 0 <= k < j implies sa[k] == sb[k] by {
                    assert(a.subrange(0, i)[k + 1] == b.subrange(0, i)[k + 1]);
                }
            }
            assert(a2[i - 1] == a[i]);
            assert(b2[i - 1] == b[i]);
        }
    }
}

/// The text columns compare the name, the executable path and the working
/// directory, a missing path as the empty text.
pub proof fn law_text_columns_compare_their_fields(a: ProcessRow, b: ProcessRow)
    ensures
        row_order(a, b, SortColumn::Name) == text_order(a.name@, b.name@),
        row_order(a, b, SortColumn::ExecutablePath) == text_order(
            match a.exe {
                Some(p) => p@,
                None => Seq::<char>::empty(),
            },
            match b.exe {
                Some(p) => p@,
                None => Seq::<char>::empty(),
            },
        ),
        row_order(a, b, SortColumn::WorkingDirectory) == text_order(
            match a.cwd {
                Some(p) => p@,
                None => Seq::<char>::empty(),
            },
            match b.cwd {
                Some(p) => p@,
                None => Seq::<char>::empty(),
            },
        ),
{
}

/// A listing runs in the selected direction: in an ascending listing no row
/// comes after one with a larger key, in a descending one after one with a
/// smaller key, and rows that agree on the column stay in the order they
/// were handed in.
pub proof fn law_listing_runs_in_direction(
    rows: Seq<ProcessRow>,
    filter: Seq<char>,
    sort: SortState,
    order: Seq<usize>,
    p: int,
    q: int,
)
    requires
        is_listing(rows, filter, sort, order),
        0 <= p < q < order.len(),
    ensures
        sort.ascending ==> !(row_order(rows[order[p] as int], rows[order[q] as int], sort.column) is Greater),
        !sort.ascending ==> !(row_order(rows[order[p] as int], rows[order[q] as int], sort.column) is Less),
        row_order(rows[order[p] as int], rows[order[q] as int], sort.column) is Equal ==> order[p] < order[q],
{
    assert(listed_before(rows, sort, order[p] as int, order[q] as int));
}

/// The filter: an empty one keeps every row; otherwise a row is kept when the
/// lowercased filter occurs in its lowercased name or the filter as typed
/// occurs in its decimal PID, whatever the filter's length, and only then.
pub proof fn law_filter_keeps(row: ProcessRow, filter: Seq<char>)
    ensures
        filter.len() == 0 ==> matches_filter(row, filter),
        has_substring(decimal(row.pid as nat), filter) ==> matches_filter(row, filter),
        has_substring(lowercase(row.name@), lowercase(filter)) ==> matches_filter(row, filter),
        matches_filter(row, filter) ==> filter.len() == 0 || has_substring(decimal(row.pid as nat), filter)
            || has_substring(lowercase(row.name@), lowercase(filter)),
{
}

/// The filter test on lowercased texts holds exactly when the lowercased
/// filter occurs in the lowercased name or the filter occurs in the decimal
/// PID; in particular the PID's own numeral always matches.
pub proof fn law_row_matches_cases(name_lower: Seq<char>, filter_lower: Seq<char>, pid: u32, filter: Seq<char>)
    ensures
        has_substring(decimal(pid as nat), filter) ==> text_matches(name_lower, filter_lower, pid, filter),
        has_substring(name_lower, filter_lower) ==> text_matches(name_lower, filter_lower, pid, filter),
        !has_substring(decimal(pid as nat), filter) && !has_substring(name_lower, filter_lower) ==> !text_matches(
            name_lower,
            filter_lower,
            pid,
            filter,
        ),
        text_matches(name_lower, filter_lower, pid, decimal(pid as nat)),
{
    crate::text::law_text_contains_itself(decimal(pid as nat));
}

} // verus!
