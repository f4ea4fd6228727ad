//! The row grammar of the timetable export, and a scanner for it.
//!
//! A data row is twelve adjacent `<td>`-delimited cells; the first cell
//! wraps the true course code in a double-underscore inner marker:
//!
//! `<td>__CODE__rest</td><td>NAME</td>` ... ten more plain cells.
//!
//! The scanner walks the blob left to right, emits the captured cell
//! contents of every position where the whole pattern matches, and
//! resumes after each match; any text that does not match is skipped.

use vstd::prelude::*;

verus! {

/// First position at or after `i` that holds `stop`, else the length.
pub open spec fn run_end(data: Seq<char>, i: int, stop: char) -> int
    decreases data.len() - i,
{
    if i < 0 || i >= data.len() {
        data.len() as int
    } else if data[i] == stop {
        i
    } else {
        run_end(data, i + 1, stop)
    }
}

pub proof fn lemma_run_end(data: Seq<char>, i: int, stop: char)
    requires
        0 <= i <= data.len(),
    ensures
        i <= run_end(data, i, stop) <= data.len(),
        forall|j: int| i <= j < run_end(data, i, stop) ==> data[j] != stop,
        run_end(data, i, stop) < data.len() ==> data[run_end(data, i, stop)] == stop,
    decreases data.len() - i,
{
    if i < data.len() && data[i] != stop {
        lemma_run_end(data, i + 1, stop);
    }
}

/// `run_end` is the unique boundary of a stop-free run.
pub proof fn lemma_run_end_is(data: Seq<char>, i: int, stop: char, j: int)
    requires
        0 <= i <= j <= data.len(),
        forall|k: int| i <= k < j ==> data[k] != stop,
        j == data.len() || data[j] == stop,
    ensures
        run_end(data, i, stop) == j,
    decreases j - i,
{
    if i < j {
        lemma_run_end_is(data, i + 1, stop, j);
    }
}

/// Is the literal `<td>` at position `i`?
pub open spec fn spec_open_tag_at(data: Seq<char>, i: int) -> bool {
    &&& 0 <= i
    &&& i + 4 <= data.len()
    &&& data[i] == '<'
    &&& data[i + 1] == 't'
    &&& data[i + 2] == 'd'
    &&& data[i + 3] == '>'
}

/// Is the literal `</td>` at position `i`?
pub open spec fn spec_close_tag_at(data: Seq<char>, i: int) -> bool {
    &&& 0 <= i
    &&& i + 5 <= data.len()
    &&& data[i] == '<'
    &&& data[i + 1] == '/'
    &&& data[i + 2] == 't'
    &&& data[i + 3] == 'd'
    &&& data[i + 4] == '>'
}

/// A plain cell at `i`: `<td>`, the longest run free of `<`, `</td>`.
/// Yields the run and the position one past the cell.
pub open spec fn spec_cell_at(data: Seq<char>, i: int) -> Option<(Seq<char>, int)> {
    if spec_open_tag_at(data, i) {
        let e = run_end(data, i + 4, '<');
        if spec_close_tag_at(data, e) {
            Some((data.subrange(i + 4, e), e + 5))
        } else {
            None
        }
    } else {
        None
    }
}

/// The code cell at `i`: `<td>__`, a non-empty run free of `_`, `__`,
/// then anything free of `<`, then `</td>`. Yields the inner run (the
/// course code) and the position one past the cell.
pub open spec fn spec_code_cell_at(data: Seq<char>, i: int) -> Option<(Seq<char>, int)> {
    if spec_open_tag_at(data, i) && i + 6 <= data.len() && data[i + 4] == '_' && data[i + 5]
        == '_' {
        let e1 = run_end(data, i + 6, '_');
        if e1 > i + 6 && e1 + 2 <= data.len() && data[e1 + 1] == '_' {
            let e2 = run_end(data, e1 + 2, '<');
            if spec_close_tag_at(data, e2) {
                Some((data.subrange(i + 6, e1), e2 + 5))
            } else {
                None
            }
        } else {
            None
        }
    } else {
        None
    }
}

/// `n` plain cells in a row starting at `i`.
pub open spec fn spec_cells_at(data: Seq<char>, i: int, n: nat) -> Option<(Seq<Seq<char>>, int)>
    decreases n,
{
    if n == 0 {
        Some((Seq::empty(), i))
    } else {
        match spec_cell_at(data, i) {
            Option::Some(c) => match spec_cells_at(data, c.1, (n - 1) as nat) {
                Option::Some(rest) => Some((seq![c.0] + rest.0, rest.1)),
                Option::None => None,
            },
            Option::None => None,
        }
    }
}

/// A full data row at `i`: the code cell and eleven plain cells. Yields
/// the twelve captured cell contents and the position one past the row.
pub open spec fn spec_row_at(data: Seq<char>, i: int) -> Option<(Seq<Seq<char>>, int)> {
    match spec_code_cell_at(data, i) {
        Option::Some(c) => match spec_cells_at(data, c.1, 11) {
            Option::Some(rest) => Some((seq![c.0] + rest.0, rest.1)),
            Option::None => None,
        },
        Option::None => None,
    }
}

pub proof fn lemma_cell_end(data: Seq<char>, i: int)
    requires
        spec_cell_at(data, i) is Some,
    ensures
        i < spec_cell_at(data, i)->Some_0.1 <= data.len(),
{
    lemma_run_end(data, i + 4, '<');
}

pub proof fn lemma_code_cell_end(data: Seq<char>, i: int)
    requires
        spec_code_cell_at(data, i) is Some,
    ensures
        i < spec_code_cell_at(data, i)->Some_0.1 <= data.len(),
{
    lemma_run_end(data, i + 6, '_');
    let e1 = run_end(data, i + 6, '_');
    lemma_run_end(data, e1 + 2, '<');
}

pub proof fn lemma_cells_end(data: Seq<char>, i: int, n: nat)
    requires
        0 <= i <= data.len(),
        spec_cells_at(data, i, n) is Some,
    ensures
        i <= spec_cells_at(data, i, n)->Some_0.1 <= data.len(),
        spec_cells_at(data, i, n)->Some_0.0.len() == n,
    decreases n,
{
    if n > 0 {
        let c = spec_cell_at(data, i)->Some_0;
        lemma_cell_end(data, i);
        lemma_cells_end(data, c.1, (n - 1) as nat);
    }
}

pub proof fn lemma_row_end(data: Seq<char>, i: int)
    requires
        0 <= i <= data.len(),
        spec_row_at(data, i) is Some,
    ensures
        i < spec_row_at(data, i)->Some_0.1 <= data.len(),
        spec_row_at(data, i)->Some_0.0.len() == 12,
{
    let c = spec_code_cell_at(data, i)->Some_0;
    lemma_code_cell_end(data, i);
    lemma_cells_end(data, c.1, 11);
}

/// Every data row of the blob from position `i` on, leftmost first, each
/// match resumed after its end.
pub open spec fn spec_scan(data: Seq<char>, i: int) -> Seq<Seq<Seq<char>>>
    decreases data.len() - i,
    when 0 <= i
    via spec_scan_decreases
{
    if i >= data.len() {
        Seq::empty()
    } else {
        match spec_row_at(data, i) {
            Option::Some(m) => seq![m.0] + spec_scan(data, m.1),
            Option::None => spec_scan(data, i + 1),
        }
    }
}

#[via_fn]
proof fn spec_scan_decreases(data: Seq<char>, i: int) {
    if i < data.len() {
        match spec_row_at(data, i) {
            Option::Some(m) => {
                lemma_row_end(data, i);
            },
            Option::None => {},
        }
    }
}

/// The view of one scanned row: its cells as character sequences.
pub open spec fn row_view(r: Seq<Vec<char>>) -> Seq<Seq<char>> {
    r.map(|j: int, c: Vec<char>| c@)
}

/// The view of the whole scan result.
pub open spec fn rows_view(rs: Seq<Vec<Vec<char>>>) -> Seq<Seq<Seq<char>>> {
    rs.map(|i: int, r: Vec<Vec<char>>| row_view(r@))
}

/// First position at or after `i` holding `stop`, else the length.
pub fn find_stop(data: &Vec<char>, i: usize, stop: char) -> (r: usize)
    requires
        i <= data@.len(),
    ensures
        r == run_end(data@, i as int, stop),
        i <= r <= data@.len(),
{
    let n = data.len();
    let mut j = i;
    while j < n && data[j] != stop
        invariant
            i <= j <= n,
            n == data@.len(),
            forall|k: int| i <= k < j ==> data@[k] != stop,
        decreases n - j,
    {
        j += 1;
    }
    proof {
        lemma_run_end_is(data@, i as int, stop, j as int);
    }
    j
}

/// Copy `data[a..b]` into an owned vector.
fn copy_range(data: &Vec<char>, a: usize, b: usize) -> (r: Vec<char>)
    requires
        a <= b <= data@.len(),
    ensures
        r@ == data@.subrange(a as int, b as int),
{
    let mut r: Vec<char> = Vec::new();
    let mut i = a;
    while i < b
        invariant
            a <= i <= b,
            b <= data@.len(),
            r@ == data@.subrange(a as int, i as int),
        decreases b - i,
    {
        let c = data[i];
        r.push(c);
        assert(r@ =~= data@.subrange(a as int, (i + 1) as int));
        i += 1;
    }
    r
}

/// Is the literal `<td>` at position `i`?
fn open_tag_at(data: &Vec<char>, i: usize) -> (r: bool)
    requires
        i <= data@.len(),
    ensures
        r == spec_open_tag_at(data@, i as int),
{
    data.len() - i >= 4 && data[i] == '<' && data[i + 1] == 't' && data[i + 2] == 'd' && data[i
        + 3] == '>'
}

/// Is the literal `</td>` at position `i`?
fn close_tag_at(data: &Vec<char>, i: usize) -> (r: bool)
    requires
        i <= data@.len(),
    ensures
        r == spec_close_tag_at(data@, i as int),
{
    data.len() - i >= 5 && data[i] == '<' && data[i + 1] == '/' && data[i + 2] == 't' && data[i
        + 3] == 'd' && data[i + 4] == '>'
}

/// Match a plain cell at `i`.
fn scan_cell_at(data: &Vec<char>, i: usize) -> (r: Option<(Vec<char>, usize)>)
    requires
        i <= data@.len(),
    ensures
        match r {
            Option::Some(p) => spec_cell_at(data@, i as int) == Some((p.0@, p.1 as int)) && i
                < p.1 <= data@.len(),
            Option::None => spec_cell_at(data@, i as int) is None,
        },
{
    let n = data.len();
    if !open_tag_at(data, i) {
        return None;
    }
    let e = find_stop(data, i + 4, '<');
    if !close_tag_at(data, e) {
        return None;
    }
    let content = copy_range(data, i + 4, e);
    Some((content, e + 5))
}

/// Match the code cell at `i`.
fn scan_code_cell_at(data: &Vec<char>, i: usize) -> (r: Option<(Vec<char>, usize)>)
    requires
        i <= data@.len(),
    ensures
        match r {
            Option::Some(p) => spec_code_cell_at(data@, i as int) == Some((p.0@, p.1 as int))
                && i < p.1 <= data@.len(),
            Option::None => spec_code_cell_at(data@, i as int) is None,
        },
{
    if !(open_tag_at(data, i) && data.len() - i >= 6 && data[i + 4] == '_' && data[i + 5] == '_')
    {
        return None;
    }
    let e1 = find_stop(data, i + 6, '_');
    if !(e1 > i + 6 && data.len() - e1 >= 2 && data[e1 + 1] == '_') {
        return None;
    }
    let e2 = find_stop(data, e1 + 2, '<');
    if !close_tag_at(data, e2) {
        return None;
    }
    let content = copy_range(data, i + 6, e1);
    Some((content, e2 + 5))
}

/// Match a full data row at `i` and capture its twelve cells.
fn scan_row_at(data: &Vec<char>, i: usize) -> (r: Option<(Vec<Vec<char>>, usize)>)
    requires
        i <= data@.len(),
    ensures
        match r {
            Option::Some(p) => spec_row_at(data@, i as int) == Some((row_view(p.0@), p.1 as int))
                && i < p.1 <= data@.len() && p.0@.len() == 12,
            Option::None => spec_row_at(data@, i as int) is None,
        },
{
    let first = scan_code_cell_at(data, i);
    match first {
        None => None,
        Some((code, p0)) => {
            let mut cells: Vec<Vec<char>> = Vec::new();
            cells.push(code);
            let mut p = p0;
            let mut k: usize = 0;
            // collect the eleven plain cells
            while k < 11
                invariant
                    0 <= k <= 11,
                    p <= data@.len(),
                    cells@.len() == k + 1,
                    spec_code_cell_at(data@, i as int) is Some,
                    i < p0 <= data@.len(),
                    spec_code_cell_at(data@, i as int)->Some_0.0 == cells@[0]@,
                    spec_code_cell_at(data@, i as int)->Some_0.1 == p0 as int,
                    spec_cells_at(data@, p0 as int, 11) == (match spec_cells_at(
                        data@,
                        p as int,
                        (11 - k) as nat,
                    ) {
                        Option::Some(rest) => Some((row_view(cells@).skip(1) + rest.0, rest.1)),
                        Option::None => None::<(Seq<Seq<char>>, int)>,
                    }),
                decreases 11 - k,
            {
                let ghost m = (11 - k) as nat;
                let ghost tail_old = row_view(cells@).skip(1);
                let cell = scan_cell_at(data, p);
                match cell {
                    None => {
                        proof {
                            assert(spec_cells_at(data@, p as int, m) is None);
                            assert(spec_cells_at(data@, p0 as int, 11) is None);
                            assert(spec_row_at(data@, i as int) is None);
                        }
                        return None;
                    },
                    Some((c, q)) => {
                        cells.push(c);
                        p = q;
                        k += 1;
                        proof {
                            assert(row_view(cells@).skip(1) =~= tail_old.push(c@));
                            let m2 = (11 - k) as nat;
                            assert(m2 == (m - 1) as nat);
                            if spec_cells_at(data@, p as int, m2) is Some {
                                let rest = spec_cells_at(data@, p as int, m2)->Some_0;
                                assert(tail_old + (seq![c@] + rest.0) =~= tail_old.push(c@)
                                    + rest.0);
                            }
                        }
                    },
                }
            }
            proof {
                assert(spec_cells_at(data@, p as int, 0) == Some(
                    (Seq::<Seq<char>>::empty(), p as int),
                ));
                assert(row_view(cells@).skip(1) + Seq::<Seq<char>>::empty() =~= row_view(
                    cells@,
                ).skip(1));
                assert(seq![cells@[0]@] + row_view(cells@).skip(1) =~= row_view(cells@));
                lemma_row_end(data@, i as int);
            }
            Some((cells, p))
        },
    }
}

/// Scan the whole blob and capture every data row, leftmost first.
pub fn scan_rows(data: &Vec<char>) -> (rows: Vec<Vec<Vec<char>>>)
    ensures
        rows_view(rows@) == spec_scan(data@, 0),
        forall|i: int| 0 <= i < rows@.len() ==> rows@[i]@.len() == 12,
{
    let mut rows: Vec<Vec<Vec<char>>> = Vec::new();
    let mut i: usize = 0;
    let n = data.len();
    while i < n
        invariant
            0 <= i <= n,
            n == data@.len(),
            rows_view(rows@) + spec_scan(data@, i as int) == spec_scan(data@, 0),
            forall|j: int| 0 <= j < rows@.len() ==> rows@[j]@.len() == 12,
        decreases n - i,
    {
        let m = scan_row_at(data, i);
        match m {
            Some((row, end)) => {
                let ghost rows_old = rows@;
                rows.push(row);
                proof {
                    assert(rows_view(rows@) =~= rows_view(rows_old).push(row_view(row@)));
                    assert(rows_view(rows_old) + (seq![row_view(row@)] + spec_scan(
                        data@,
                        end as int,
                    )) =~= rows_view(rows@) + spec_scan(data@, end as int));
                }
                i = end;
            },
            None => {
                i += 1;
            },
        }
    }
    proof {
        assert(spec_scan(data@, i as int) =~= Seq::<Seq<Seq<char>>>::empty());
        assert(rows_view(rows@) + Seq::<Seq<Seq<char>>>::empty() =~= rows_view(rows@));
    }
    rows
}

} // verus!
