//! The process table: which processes a search query keeps, and the order in
//! which each sort mode lists them.

use vstd::prelude::*;
use crate::text::{
    chars_of, decimal, decimal_string, join_with_spaces, joined, lemma_trimmed_idempotent,
    lowercase, occurs_in, text_contains, texts, to_lowercase, trim_text, trimmed,
};

verus! {

broadcast use vstd::string::group_string_axioms;

/// The orders in which the process table can be listed.
#[derive(Clone, Copy, Debug, PartialEq, Eq, Structural)]
pub enum SortBy {
    CpuDesc,
    MemoryDesc,
    DiskReadDesc,
    DiskWriteDesc,
    NameAsc,
    PidAsc,
}

/// The label shown for each sort order.
pub open spec fn sort_label_text(sort_by: SortBy) -> Seq<char> {
    match sort_by {
        SortBy::CpuDesc => "CPU desc"@,
        SortBy::MemoryDesc => "Memory desc"@,
        SortBy::DiskReadDesc => "Disk Read desc"@,
        SortBy::DiskWriteDesc => "Disk Write desc"@,
        SortBy::NameAsc => "Name asc"@,
        SortBy::PidAsc => "PID asc"@,
    }
}

/// The label of a sort order, as the status line shows it.
pub fn sort_label(sort_by: SortBy) -> (label: &'static str)
    ensures
        label@ == sort_label_text(sort_by),
{
    match sort_by {
        SortBy::CpuDesc => "CPU desc",
        SortBy::MemoryDesc => "Memory desc",
        SortBy::DiskReadDesc => "Disk Read desc",
        SortBy::DiskWriteDesc => "Disk Write desc",
        SortBy::NameAsc => "Name asc",
        SortBy::PidAsc => "PID asc",
    }
}

/// What the table knows of one process.
pub struct ProcessRow {
    /// The process id.
    pub pid: u32,
    /// The executable name.
    pub name: String,
    /// The command line, one string per argument.
    pub cmd: Vec<String>,
    /// A number that orders processes as their CPU usage does: a busier
    /// process has a larger rank, equally busy processes equal ranks.
    pub cpu_rank: u32,
    /// Resident memory, in bytes.
    pub memory: u64,
    /// Bytes read from disk in total.
    pub disk_read: u64,
    /// Bytes written to disk in total.
    pub disk_written: u64,
}

/// The command line of a row: its arguments joined with single spaces.
pub open spec fn command_text(row: ProcessRow) -> Seq<char> {
    joined(texts(row.cmd@), seq![' '])
}

/// The command line of a row, its arguments joined with single spaces.
pub fn command_line(row: &ProcessRow) -> (out: String)
    ensures
        out@ == command_text(*row),
{
    join_with_spaces(&row.cmd)
}

// ---------------------------------------------------------------------------
// Matching a search query
// ---------------------------------------------------------------------------

/// A query, already lowercased, matches the lowercased name, the lowercased
/// command line or the decimal pid.
pub open spec fn lowered_match(name_lc: Seq<char>, cmd_lc: Seq<char>, pid: u32, query_lc: Seq<char>) -> bool {
    ||| occurs_in(name_lc, query_lc)
    ||| occurs_in(cmd_lc, query_lc)
    ||| occurs_in(decimal(pid as nat), query_lc)
}

/// A query matches a process when, compared without regard to case, it occurs
/// in the name or the command line, or it occurs in the decimal pid.
pub open spec fn query_matches(name: Seq<char>, cmd: Seq<char>, pid: u32, query: Seq<char>) -> bool {
    lowered_match(lowercase(name), lowercase(cmd), pid, lowercase(query))
}

/// Whether the lowercased query occurs in the lowercased name, the lowercased
/// command line or the decimal pid.
pub fn lowered_query_matches(name_lc: &str, cmd_lc: &str, pid: u32, query_lc: &str) -> (r: bool)
    ensures
        r == lowered_match(name_lc@, cmd_lc@, pid, query_lc@),
{
    let pid_str = decimal_string(pid as u64);
    text_contains(name_lc, query_lc) || text_contains(cmd_lc, query_lc)
        || text_contains(pid_str.as_str(), query_lc)
}

/// Whether a process matches the search query, without regard to case.
pub fn process_matches_query(name: &str, cmd: &str, pid: u32, query: &str) -> (r: bool)
    ensures
        r == query_matches(name@, cmd@, pid, query@),
{
    let query_lc = to_lowercase(query);
    let name_lc = to_lowercase(name);
    let cmd_lc = to_lowercase(cmd);
    lowered_query_matches(name_lc.as_str(), cmd_lc.as_str(), pid, query_lc.as_str())
}

/// A row is kept by a (trimmed) query when the query is empty or matches it.
pub open spec fn row_matches(row: ProcessRow, query: Seq<char>) -> bool {
    query.len() == 0 || query_matches(row.name@, command_text(row), row.pid, query)
}

// ---------------------------------------------------------------------------
// Ordering
// ---------------------------------------------------------------------------

/// Lexicographic order of character sequences by code point; it is the byte
/// order of their UTF-8 encodings.
pub open spec fn lex_lt(a: Seq<char>, b: Seq<char>) -> bool
    decreases a.len(),
{
    if b.len() == 0 {
        false
    } else if a.len() == 0 {
        true
    } else if a[0] < b[0] {
        true
    } else if a[0] == b[0] {
        lex_lt(a.drop_first(), b.drop_first())
    } else {
        false
    }
}

proof fn lemma_lex_irreflexive(a: Seq<char>)
    ensures
        !lex_lt(a, a),
    decreases a.len(),
{
    if a.len() > 0 {
        lemma_lex_irreflexive(a.drop_first());
    }
}

proof fn lemma_lex_asymmetric(a: Seq<char>, b: Seq<char>)
    ensures
        !(lex_lt(a, b) && lex_lt(b, a)),
    decreases a.len(),
{
    if a.len() > 0 && b.len() > 0 && a[0] == b[0] {
        lemma_lex_asymmetric(a.drop_first(), b.drop_first());
    }
}

proof fn lemma_lex_total(a: Seq<char>, b: Seq<char>)
    ensures
        lex_lt(a, b) || lex_lt(b, a) || a == b,
    decreases a.len(),
{
    if a.len() == 0 {
        if b.len() == 0 {
            assert(a =~= b);
        }
    } else if b.len() > 0 && a[0] != b[0] {
        assert(a[0] < b[0] || b[0] < a[0]);
    } else if b.len() > 0 && a[0] == b[0] {
        lemma_lex_total(a.drop_first(), b.drop_first());
        if a.drop_first() == b.drop_first() {
            assert(a.drop_first().len() == a.len() - 1);
            assert(b.drop_first().len() == b.len() - 1);
            assert(a.len() == b.len());
            assert forall|i: int| 0 <= i < a.len() implies a[i] == b[i] by {
                if i > 0 {
                    assert(a[i] == a.drop_first()[i - 1]);
                    assert(b[i] == b.drop_first()[i - 1]);
                }
            }
            assert(a.len() == b.len());
            assert(a =~= b);
        }
    }
}

proof fn lemma_lex_transitive(a: Seq<char>, b: Seq<char>, c: Seq<char>)
    requires
        lex_lt(a, b),
        lex_lt(b, c),
    ensures
        lex_lt(a, c),
    decreases a.len(),
{
    if a.len() > 0 && a[0] == b[0] && b[0] == c[0] {
        lemma_lex_transitive(a.drop_first(), b.drop_first(), c.drop_first());
    }
}

/// Whether `a` comes before `b` in lexicographic order.
fn chars_lt(a: &Vec<char>, b: &Vec<char>) -> (r: bool)
    ensures
        r == lex_lt(a@, b@),
{
    let mut i: usize = 0;
    assert(a@.skip(0) =~= a@);
    assert(b@.skip(0) =~= b@);
    loop
        invariant
            i <= a.len(),
            i <= b.len(),
            lex_lt(a@, b@) == lex_lt(a@.skip(i as int), b@.skip(i as int)),
        decreases a.len() - i,
    {
        if i == b.len() {
            return false;
        }
        if i == a.len() {
            return true;
        }
        let x = a[i];
        let y = b[i];
        if x < y {
            return true;
        }
        if x != y {
            return false;
        }
        assert(a@.skip(i as int).drop_first() =~= a@.skip(i + 1));
        assert(b@.skip(i as int).drop_first() =~= b@.skip(i + 1));
        i = i + 1;
    }
}

/// `a` ranks strictly ahead of `b` under the sort order (equal keys tie).
pub open spec fn ranks_before(sort_by: SortBy, a: ProcessRow, b: ProcessRow) -> bool {
    match sort_by {
        SortBy::CpuDesc => a.cpu_rank > b.cpu_rank,
        SortBy::MemoryDesc => a.memory > b.memory,
        SortBy::DiskReadDesc => a.disk_read > b.disk_read,
        SortBy::DiskWriteDesc => a.disk_written > b.disk_written,
        SortBy::NameAsc => lex_lt(a.name@, b.name@),
        SortBy::PidAsc => a.pid < b.pid,
    }
}

/// Rows `i` and `j` have equal sort keys.
pub open spec fn same_key(sort_by: SortBy, a: ProcessRow, b: ProcessRow) -> bool {
    match sort_by {
        SortBy::CpuDesc => a.cpu_rank == b.cpu_rank,
        SortBy::MemoryDesc => a.memory == b.memory,
        SortBy::DiskReadDesc => a.disk_read == b.disk_read,
        SortBy::DiskWriteDesc => a.disk_written == b.disk_written,
        SortBy::NameAsc => a.name@ == b.name@,
        SortBy::PidAsc => a.pid == b.pid,
    }
}

/// In the listing, row `i` comes before row `j`: its key ranks ahead, or the
/// keys tie and `i` comes first in the input (the sort is stable).
pub open spec fn listed_before(rows: Seq<ProcessRow>, sort_by: SortBy, i: int, j: int) -> bool {
    ||| ranks_before(sort_by, rows[i], rows[j])
    ||| (same_key(sort_by, rows[i], rows[j]) && i < j)
}

proof fn lemma_key_facts(sort_by: SortBy, a: ProcessRow, b: ProcessRow)
    ensures
        !ranks_before(sort_by, a, a),
        !(ranks_before(sort_by, a, b) && ranks_before(sort_by, b, a)),
        same_key(sort_by, a, b) ==> !ranks_before(sort_by, a, b),
        ranks_before(sort_by, a, b) || ranks_before(sort_by, b, a) || same_key(sort_by, a, b),
{
    lemma_lex_irreflexive(a.name@);
    lemma_lex_irreflexive(b.name@);
    lemma_lex_asymmetric(a.name@, b.name@);
    lemma_lex_total(a.name@, b.name@);
}

proof fn lemma_key_transitive(sort_by: SortBy, a: ProcessRow, b: ProcessRow, c: ProcessRow)
    ensures
        ranks_before(sort_by, a, b) && ranks_before(sort_by, b, c) ==> ranks_before(sort_by, a, c),
        ranks_before(sort_by, a, b) && same_key(sort_by, b, c) ==> ranks_before(sort_by, a, c),
        same_key(sort_by, a, b) && ranks_before(sort_by, b, c) ==> ranks_before(sort_by, a, c),
        same_key(sort_by, a, b) && same_key(sort_by, b, c) ==> same_key(sort_by, a, c),
{
    if ranks_before(sort_by, a, b) && ranks_before(sort_by, b, c) && sort_by == SortBy::NameAsc {
        lemma_lex_transitive(a.name@, b.name@, c.name@);
    }
}

/// `listed_before` is a strict total order on the positions of `rows`.
pub proof fn lemma_listed_before_order(rows: Seq<ProcessRow>, sort_by: SortBy, i: int, j: int, k: int)
    ensures
        !listed_before(rows, sort_by, i, i),
        !(listed_before(rows, sort_by, i, j) && listed_before(rows, sort_by, j, i)),
        i != j ==> listed_before(rows, sort_by, i, j) || listed_before(rows, sort_by, j, i),
        listed_before(rows, sort_by, i, j) && listed_before(rows, sort_by, j, k) ==> listed_before(
            rows,
            sort_by,
            i,
            k,
        ),
{
    lemma_key_facts(sort_by, rows[i], rows[j]);
    lemma_key_facts(sort_by, rows[j], rows[i]);
    lemma_key_facts(sort_by, rows[i], rows[k]);
    lemma_key_facts(sort_by, rows[k], rows[i]);
    lemma_key_transitive(sort_by, rows[i], rows[j], rows[k]);
}

/// Whether row `a` ranks strictly ahead of row `b`; `an` and `bn` are their names.
fn row_ranks_before(sort_by: SortBy, a: &ProcessRow, b: &ProcessRow, an: &Vec<char>, bn: &Vec<char>) -> (r: bool)
    requires
        an@ == a.name@,
        bn@ == b.name@,
    ensures
        r == ranks_before(sort_by, *a, *b),
{
    match sort_by {
        SortBy::CpuDesc => a.cpu_rank > b.cpu_rank,
        SortBy::MemoryDesc => a.memory > b.memory,
        SortBy::DiskReadDesc => a.disk_read > b.disk_read,
        SortBy::DiskWriteDesc => a.disk_written > b.disk_written,
        SortBy::NameAsc => chars_lt(an, bn),
        SortBy::PidAsc => a.pid < b.pid,
    }
}

// ---------------------------------------------------------------------------
// The listing
// ---------------------------------------------------------------------------

/// `order` lists, by position in `rows`, exactly the rows that `query` keeps,
/// each once, in sort order, with ties in input order.
pub open spec fn is_listing(rows: Seq<ProcessRow>, sort_by: SortBy, query: Seq<char>, order: Seq<usize>) -> bool {
    &&& forall|k: int| 0 <= k < order.len() ==> #[trigger] order[k] < rows.len()
    &&& forall|k: int| 0 <= k < order.len() ==> row_matches(rows[#[trigger] order[k] as int], query)
    &&& forall|i: int| 0 <= i < rows.len() && row_matches(rows[i], query) ==> order.contains(i as usize)
    &&& forall|a: int, b: int|
        0 <= a < b < order.len() ==> listed_before(rows, sort_by, #[trigger] order[a] as int, #[trigger] order[b] as int)
}

/// The positions of the rows that the search query keeps, in the order in which
/// the table lists them. The query is trimmed first; an empty query keeps every
/// row.
pub fn listing_order(processes: &[ProcessRow], sort_by: SortBy, search_query: &str) -> (order: Vec<usize>)
    ensures
        is_listing(processes@, sort_by, trimmed(search_query@), order@),
{
    let ghost rows = processes@;
    let ghost q = trimmed(search_query@);
    let query = trim_text(search_query);
    let filter = !query.as_str().is_empty();
    let n = processes.len();
    let mut names: Vec<Vec<char>> = Vec::new();
    for r in 0..n
        invariant
            n == processes@.len(),
            names@.len() == r,
            forall|k: int| 0 <= k < r ==> (#[trigger] names@[k])@ == processes@[k].name@,
    {
        names.push(chars_of(processes[r].name.as_str()));
    }
    let mut order: Vec<usize> = Vec::new();
    for r in 0..n
        invariant
            rows == processes@,
            n == rows.len(),
            query@ == q,
            filter == (q.len() != 0),
            names@.len() == n,
            forall|k: int| 0 <= k < n ==> (#[trigger] names@[k])@ == rows[k].name@,
            forall|k: int| 0 <= k < order@.len() ==> #[trigger] order@[k] < r,
            forall|k: int| 0 <= k < order@.len() ==> row_matches(rows[#[trigger] order@[k] as int], q),
            forall|i: int| 0 <= i < r && row_matches(rows[i], q) ==> order@.contains(i as usize),
            forall|a: int, b: int|
                0 <= a < b < order@.len() ==> listed_before(rows, sort_by, #[trigger] order@[a] as int, #[trigger] order@[b] as int),
    {
        let row = &processes[r];
        let keep = if filter {
            let cmd = command_line(row);
            process_matches_query(row.name.as_str(), cmd.as_str(), row.pid, query.as_str())
        } else {
            true
        };
        assert(keep == row_matches(rows[r as int], q));
        if keep {
            let mut p: usize = 0;
            loop
                invariant
                    rows == processes@,
                    n == rows.len(),
                    r < n,
                    names@.len() == n,
                    forall|k: int| 0 <= k < n ==> (#[trigger] names@[k])@ == rows[k].name@,
                    forall|k: int| 0 <= k < order@.len() ==> #[trigger] order@[k] < r,
                    p <= order.len(),
                    forall|k: int| 0 <= k < p ==> !ranks_before(sort_by, rows[r as int], rows[#[trigger] order@[k] as int]),
                ensures
                    p <= order.len(),
                    forall|k: int| 0 <= k < p ==> !ranks_before(sort_by, rows[r as int], rows[#[trigger] order@[k] as int]),
                    p < order.len() ==> ranks_before(sort_by, rows[r as int], rows[order@[p as int] as int]),
                decreases order.len() - p,
            {
                if p == order.len() {
                    break;
                }
                let other = order[p];
                assert(other < r);
                let ahead = row_ranks_before(sort_by, &processes[r], &processes[other], &names[r], &names[other]);
                if ahead {
                    break;
                }
                p = p + 1;
            }
            let ghost old_order = order@;
            order.insert(p, r);
            proof {
                assert(order@ == old_order.insert(p as int, r));
                assert forall|k: int| 0 <= k < order@.len() implies #[trigger] order@[k] < r + 1 by {
                    if k < p {
                        assert(order@[k] == old_order[k]);
                    } else if k > p {
                        assert(order@[k] == old_order[k - 1]);
                    }
                }
                assert forall|k: int| 0 <= k < order@.len() implies row_matches(rows[#[trigger] order@[k] as int], q) by {
                    if k < p {
                        assert(order@[k] == old_order[k]);
                    } else if k > p {
                        assert(order@[k] == old_order[k - 1]);
                    }
                }
                assert forall|i: int| 0 <= i < r + 1 && row_matches(rows[i], q) implies order@.contains(i as usize) by {
                    if i == r {
                        assert(order@[p as int] == r);
                    } else {
                        assert(old_order.contains(i as usize));
                        let w = choose|w: int| 0 <= w < old_order.len() && old_order[w] == i as usize;
                        if w < p {
                            assert(order@[w] == i as usize);
                        } else {
                            assert(order@[w + 1] == i as usize);
                        }
                    }
                }
                // The new row comes after every row before `p` and before every row from `p` on.
                assert forall|k: int| 0 <= k < p implies listed_before(rows, sort_by, old_order[k] as int, r as int) by {
                    let x = old_order[k] as int;
                    lemma_key_facts(sort_by, rows[x], rows[r as int]);
                }
                if p < old_order.len() {
                    assert forall|k: int| p <= k < old_order.len() implies listed_before(rows, sort_by, r as int, old_order[k] as int) by {
                        if k > p {
                            assert(listed_before(rows, sort_by, old_order[p as int] as int, old_order[k] as int));
                            lemma_listed_before_order(rows, sort_by, r as int, old_order[p as int] as int, old_order[k] as int);
                        }
                    }
                }
                assert forall|a: int, b: int|
                    0 <= a < b < order@.len() implies listed_before(rows, sort_by, #[trigger] order@[a] as int, #[trigger] order@[b] as int) by {
                    if b < p {
                        assert(order@[a] == old_order[a] && order@[b] == old_order[b]);
                    } else if b == p {
                        assert(order@[a] == old_order[a]);
                    } else if a < p {
                        assert(order@[a] == old_order[a] && order@[b] == old_order[b - 1]);
                    } else if a == p {
                        assert(order@[b] == old_order[b - 1]);
                    } else {
                        assert(order@[a] == old_order[a - 1] && order@[b] == old_order[b - 1]);
                    }
                }
            }
        }
    }
    order
}

/// The processes that the search query keeps, in the order in which the table
/// lists them (see `listing_order`).
pub fn sorted_processes<'a>(processes: &'a [ProcessRow], sort_by: SortBy, search_query: &str) -> (out: Vec<&'a ProcessRow>)
    ensures
        exists|order: Seq<usize>|
            {
                &&& is_listing(processes@, sort_by, trimmed(search_query@), order)
                &&& out@.len() == order.len()
                &&& forall|k: int| 0 <= k < order.len() ==> *out@[k] == processes@[#[trigger] order[k] as int]
            },
{
    let order = listing_order(processes, sort_by, search_query);
    let mut out: Vec<&'a ProcessRow> = Vec::new();
    for k in 0..order.len()
        invariant
            is_listing(processes@, sort_by, trimmed(search_query@), order@),
            out@.len() == k,
            forall|m: int| 0 <= m < k ==> *out@[m] == processes@[#[trigger] order@[m] as int],
    {
        assert(order@[k as int] < processes@.len());
        out.push(&processes[order[k]]);
    }
    out
}

/// Two listings of the same rows, sort order and query are the same sequence:
/// the contract of `listing_order` and `sorted_processes` fixes their result.
pub proof fn lemma_listing_unique(
    rows: Seq<ProcessRow>,
    sort_by: SortBy,
    query: Seq<char>,
    o1: Seq<usize>,
    o2: Seq<usize>,
)
    requires
        is_listing(rows, sort_by, query, o1),
        is_listing(rows, sort_by, query, o2),
    ensures
        o1 == o2,
{
    assert forall|x: usize| o1.contains(x) <==> o2.contains(x) by {
        if o1.contains(x) {
            let w = choose|w: int| 0 <= w < o1.len() && o1[w] == x;
            assert(o1[w] < rows.len());
            assert(row_matches(rows[o1[w] as int], query));
        }
        if o2.contains(x) {
            let w = choose|w: int| 0 <= w < o2.len() && o2[w] == x;
            assert(o2[w] < rows.len());
            assert(row_matches(rows[o2[w] as int], query));
        }
    }
    lemma_sorted_unique(rows, sort_by, o1, o2);
}

/// Sequences strictly ordered by `listed_before` that hold the same positions
/// are equal.
proof fn lemma_sorted_unique(rows: Seq<ProcessRow>, sort_by: SortBy, o1: Seq<usize>, o2: Seq<usize>)
    requires
        forall|a: int, b: int|
            0 <= a < b < o1.len() ==> listed_before(rows, sort_by, #[trigger] o1[a] as int, #[trigger] o1[b] as int),
        forall|a: int, b: int|
            0 <= a < b < o2.len() ==> listed_before(rows, sort_by, #[trigger] o2[a] as int, #[trigger] o2[b] as int),
        forall|x: usize| o1.contains(x) <==> o2.contains(x),
    ensures
        o1 == o2,
    decreases o1.len(),
{
    if o1.len() == 0 {
        if o2.len() > 0 {
            assert(o2.contains(o2[0]));
        }
        assert(o1 =~= o2);
    } else {
        assert(o1.contains(o1[0]));
        assert(o2.len() > 0);
        assert(o2.contains(o2[0]));
        let x = o1[0];
        let y = o2[0];
        if x != y {
            let w1 = choose|w: int| 0 <= w < o1.len() && o1[w] == y;
            let w2 = choose|w: int| 0 <= w < o2.len() && o2[w] == x;
            assert(w1 > 0);
            assert(w2 > 0);
            assert(listed_before(rows, sort_by, o1[0] as int, o1[w1] as int));
            assert(listed_before(rows, sort_by, o2[0] as int, o2[w2] as int));
            lemma_listed_before_order(rows, sort_by, x as int, y as int, x as int);
            assert(false);
        }
        let t1 = o1.drop_first();
        let t2 = o2.drop_first();
        assert forall|v: usize| t1.contains(v) <==> t2.contains(v) by {
            if t1.contains(v) {
                let w = choose|w: int| 0 <= w < t1.len() && t1[w] == v;
                assert(listed_before(rows, sort_by, o1[0] as int, o1[w + 1] as int));
                lemma_listed_before_order(rows, sort_by, x as int, x as int, x as int);
                assert(v != x);
                assert(o1.contains(v));
                let u = choose|u: int| 0 <= u < o2.len() && o2[u] == v;
                assert(u != 0);
                assert(t2[u - 1] == v);
            }
            if t2.contains(v) {
                let w = choose|w: int| 0 <= w < t2.len() && t2[w] == v;
                assert(listed_before(rows, sort_by, o2[0] as int, o2[w + 1] as int));
                lemma_listed_before_order(rows, sort_by, x as int, x as int, x as int);
                assert(v != x);
                assert(o2.contains(v));
                let u = choose|u: int| 0 <= u < o1.len() && o1[u] == v;
                assert(u != 0);
                assert(t1[u - 1] == v);
            }
        }
        assert forall|a: int, b: int| 0 <= a < b < t1.len() implies listed_before(rows, sort_by, #[trigger] t1[a] as int, #[trigger] t1[b] as int) by {
            assert(t1[a] == o1[a + 1] && t1[b] == o1[b + 1]);
        }
        assert forall|a: int, b: int| 0 <= a < b < t2.len() implies listed_before(rows, sort_by, #[trigger] t2[a] as int, #[trigger] t2[b] as int) by {
            assert(t2[a] == o2[a + 1] && t2[b] == o2[b + 1]);
        }
        lemma_sorted_unique(rows, sort_by, t1, t2);
        assert(o1 =~= o2) by {
            assert forall|i: int| 0 <= i < o1.len() implies o1[i] == o2[i] by {
                if i > 0 {
                    assert(o1[i] == t1[i - 1]);
                    assert(o2[i] == t2[i - 1]);
                }
            }
        }
    }
}

/// Matching ignores the case of the query: queries with the same lowercase form
/// match the same processes.
pub proof fn lemma_match_ignores_query_case(
    name: Seq<char>,
    cmd: Seq<char>,
    pid: u32,
    q1: Seq<char>,
    q2: Seq<char>,
)
    requires
        lowercase(q1) == lowercase(q2),
    ensures
        query_matches(name, cmd, pid, q1) == query_matches(name, cmd, pid, q2),
{
}

/// A query matches a process exactly when, ignoring case, it occurs in the
/// process name, or in its command line, or in the decimal digits of its pid.
pub proof fn lemma_query_match_sources(name: Seq<char>, cmd: Seq<char>, pid: u32, query: Seq<char>)
    ensures
        occurs_in(lowercase(name), lowercase(query)) ==> query_matches(name, cmd, pid, query),
        occurs_in(lowercase(cmd), lowercase(query)) ==> query_matches(name, cmd, pid, query),
        occurs_in(decimal(pid as nat), lowercase(query)) ==> query_matches(name, cmd, pid, query),
        query_matches(name, cmd, pid, query) ==> occurs_in(lowercase(name), lowercase(query))
            || occurs_in(lowercase(cmd), lowercase(query)) || occurs_in(
            decimal(pid as nat),
            lowercase(query),
        ),
{
}

/// A listing holds exactly the rows that the query finds, ignoring case, in
/// the name, in the command line (arguments joined by spaces) or in the
/// decimal pid; a blank query keeps every row.
pub proof fn lemma_listing_members(rows: Seq<ProcessRow>, sort_by: SortBy, query: Seq<char>, order: Seq<usize>)
    requires
        is_listing(rows, sort_by, query, order),
    ensures
        forall|i: usize|
            i < rows.len() ==> (#[trigger] order.contains(i) <==> (query.len() == 0 || occurs_in(
                lowercase(rows[i as int].name@),
                lowercase(query),
            ) || occurs_in(lowercase(joined(texts(rows[i as int].cmd@), seq![' '])), lowercase(query))
                || occurs_in(decimal(rows[i as int].pid as nat), lowercase(query)))),
{
    assert forall|i: usize| i < rows.len() implies (#[trigger] order.contains(i) <==> (query.len() == 0
        || occurs_in(lowercase(rows[i as int].name@), lowercase(query)) || occurs_in(
        lowercase(joined(texts(rows[i as int].cmd@), seq![' '])),
        lowercase(query),
    ) || occurs_in(decimal(rows[i as int].pid as nat), lowercase(query)))) by {
        if order.contains(i) {
            let w = choose|w: int| 0 <= w < order.len() && order[w] == i;
            assert(row_matches(rows[order[w] as int], query));
        }
        if row_matches(rows[i as int], query) {
            assert(order.contains(i));
        }
    }
}

/// Code point order of texts, written out: `x` is a prefix of `y`, or at the
/// first position where they differ `x` has the smaller character.
pub open spec fn code_point_le(x: Seq<char>, y: Seq<char>) -> bool {
    ||| (x.len() <= y.len() && y.subrange(0, x.len() as int) == x)
    ||| exists|k: int|
        0 <= k < x.len() && k < y.len() && x.subrange(0, k) == y.subrange(0, k) && #[trigger] x[k] < y[k]
}

proof fn lemma_not_lex_lt_is_code_point_le(x: Seq<char>, y: Seq<char>)
    requires
        !lex_lt(y, x),
    ensures
        code_point_le(x, y),
    decreases x.len(),
{
    if x.len() == 0 {
        assert(y.subrange(0, 0) =~= x);
    } else if x[0] < y[0] {
        assert(x.subrange(0, 0) =~= y.subrange(0, 0));
    } else {
        let x1 = x.drop_first();
        let y1 = y.drop_first();
        lemma_not_lex_lt_is_code_point_le(x1, y1);
        if x1.len() <= y1.len() && y1.subrange(0, x1.len() as int) == x1 {
            assert(y.subrange(0, x.len() as int) =~= x) by {
                assert forall|i: int| 0 <= i < x.len() implies y.subrange(0, x.len() as int)[i] == x[i] by {
                    if i > 0 {
                        assert(y1.subrange(0, x1.len() as int)[i - 1] == x1[i - 1]);
                    }
                }
            }
        } else {
            let k = choose|k: int|
                0 <= k < x1.len() && k < y1.len() && x1.subrange(0, k) == y1.subrange(0, k) && #[trigger] x1[k]
                    < y1[k];
            assert(x.subrange(0, k + 1) =~= y.subrange(0, k + 1)) by {
                assert forall|i: int| 0 <= i < k + 1 implies x[i] == y[i] by {
                    if i > 0 {
                        assert(x1.subrange(0, k)[i - 1] == y1.subrange(0, k)[i - 1]);
                    }
                }
            }
            assert(x[k + 1] < y[k + 1]);
        }
    }
}

/// In a listing, an earlier row never has a smaller key than a later one for
/// the descending sorts (CPU rank, memory, bytes read, bytes written), nor a
/// larger one for the ascending sorts (name in code point order, pid); rows
/// with equal keys keep their input order.
pub proof fn lemma_listing_in_key_order(
    rows: Seq<ProcessRow>,
    sort_by: SortBy,
    query: Seq<char>,
    order: Seq<usize>,
    a: int,
    b: int,
)
    requires
        is_listing(rows, sort_by, query, order),
        0 <= a < b < order.len(),
    ensures
        ({
            let x = rows[order[a] as int];
            let y = rows[order[b] as int];
            &&& sort_by == SortBy::CpuDesc ==> x.cpu_rank >= y.cpu_rank && (x.cpu_rank == y.cpu_rank
                ==> order[a] < order[b])
            &&& sort_by == SortBy::MemoryDesc ==> x.memory >= y.memory && (x.memory == y.memory
                ==> order[a] < order[b])
            &&& sort_by == SortBy::DiskReadDesc ==> x.disk_read >= y.disk_read && (x.disk_read
                == y.disk_read ==> order[a] < order[b])
            &&& sort_by == SortBy::DiskWriteDesc ==> x.disk_written >= y.disk_written && (
            x.disk_written == y.disk_written ==> order[a] < order[b])
            &&& sort_by == SortBy::NameAsc ==> code_point_le(x.name@, y.name@) && (x.name@
                == y.name@ ==> order[a] < order[b])
            &&& sort_by == SortBy::PidAsc ==> x.pid <= y.pid && (x.pid == y.pid ==> order[a]
                < order[b])
        }),
{
    let i = order[a] as int;
    let j = order[b] as int;
    assert(listed_before(rows, sort_by, i, j));
    lemma_key_facts(sort_by, rows[i], rows[j]);
    if sort_by == SortBy::NameAsc {
        lemma_lex_asymmetric(rows[i].name@, rows[j].name@);
        lemma_lex_irreflexive(rows[i].name@);
        lemma_not_lex_lt_is_code_point_le(rows[i].name@, rows[j].name@);
    }
}

/// A listing names each row at most once, and with a blank query it names
/// every row.
pub proof fn lemma_listing_rows_once(rows: Seq<ProcessRow>, sort_by: SortBy, query: Seq<char>, order: Seq<usize>)
    requires
        is_listing(rows, sort_by, query, order),
    ensures
        forall|a: int, b: int| 0 <= a < b < order.len() ==> order[a] != order[b],
        query.len() == 0 ==> forall|i: usize| i < rows.len() ==> #[trigger] order.contains(i),
{
    assert forall|a: int, b: int| 0 <= a < b < order.len() implies order[a] != order[b] by {
        assert(listed_before(rows, sort_by, order[a] as int, order[b] as int));
        lemma_listed_before_order(rows, sort_by, order[a] as int, order[a] as int, order[a] as int);
    }
    if query.len() == 0 {
        assert forall|i: usize| i < rows.len() implies #[trigger] order.contains(i) by {
            assert(row_matches(rows[i as int], query));
        }
    }
}

/// White space around a query changes nothing: a query lists the same rows,
/// in the same order, as its trimmed form.
pub proof fn lemma_listing_ignores_surrounding_space(
    rows: Seq<ProcessRow>,
    sort_by: SortBy,
    query: Seq<char>,
    order: Seq<usize>,
)
    ensures
        is_listing(rows, sort_by, trimmed(query), order) == is_listing(
            rows,
            sort_by,
            trimmed(trimmed(query)),
            order,
        ),
{
    lemma_trimmed_idempotent(query);
}

/// The pid in the selected row of the table, if a row is selected and exists.
pub open spec fn selected_pid(visible_pids: Seq<u32>, selected: Option<usize>) -> Option<u32> {
    match selected {
        Some(i) => if i < visible_pids.len() {
            Some(visible_pids[i as int])
        } else {
            None
        },
        None => None,
    }
}

/// The selected pid is the pid shown in the selected row: none without a
/// selection or past the last row.
pub proof fn lemma_selected_pid_is_row_pid(visible_pids: Seq<u32>, selected: Option<usize>)
    ensures
        selected is None ==> selected_pid(visible_pids, selected) is None,
        forall|i: usize|
            selected == Some(i) ==> (i < visible_pids.len() ==> selected_pid(visible_pids, selected) == Some(
                #[trigger] visible_pids[i as int],
            )) && (i >= visible_pids.len() ==> selected_pid(visible_pids, selected) is None),
{
}

/// The pid in the selected row of the table, if a row is selected and exists.
pub fn selected_pid_from_visible(visible_pids: &[u32], selected: Option<usize>) -> (r: Option<u32>)
    ensures
        r == selected_pid(visible_pids@, selected),
{
    match selected {
        Some(index) => {
            if index < visible_pids.len() {
                Some(visible_pids[index])
            } else {
                None
            }
        },
        None => None,
    }
}

} // verus!
