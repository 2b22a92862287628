//! The line grammar of a pH calibration file: one `raw_ph,actual_ph` row per
//! line; blank lines and lines starting with '#' are ignored. Which rows are
//! points, and the values they hold, is decided by the reader of the cells.

use vstd::prelude::*;
use crate::text::{trim_white, trimmed};

verus! {

/// Index of the first `c` in `s`, or `s.len()` when there is none.
pub open spec fn index_of(s: Seq<char>, c: char) -> int
    decreases s.len(),
{
    if s.len() == 0 {
        0
    } else if s[0] == c {
        0
    } else {
        1 + index_of(s.drop_first(), c)
    }
}

/// The text before the first comma of `t` (all of `t` when it has none).
pub open spec fn first_field(t: Seq<char>) -> Seq<char> {
    t.take(index_of(t, ','))
}

/// The text between the first and the second comma of `t` (to the end when
/// there is no second one; empty when there is no comma at all).
pub open spec fn second_field(t: Seq<char>) -> Seq<char> {
    let i = index_of(t, ',');
    if i >= t.len() {
        Seq::empty()
    } else {
        let rest = t.skip(i + 1);
        rest.take(index_of(rest, ','))
    }
}

/// The raw and actual cells of one line, each without surrounding white
/// space; `None` for a line that is blank or starts with '#' once trimmed.
pub open spec fn line_cells(line: Seq<char>) -> Option<(Seq<char>, Seq<char>)> {
    let t = trimmed(line);
    if t.len() == 0 || t[0] == '#' {
        None
    } else {
        Some((trimmed(first_field(t)), trimmed(second_field(t))))
    }
}

/// The pieces of `s` between line feeds; there is always at least one, and
/// the piece after a final line feed is empty. A carriage return before a
/// line feed stays on its piece and is white space to `line_cells`.
pub open spec fn pieces(s: Seq<char>) -> Seq<Seq<char>>
    decreases s.len(),
{
    if s.len() == 0 {
        seq![Seq::<char>::empty()]
    } else if s.last() == '\n' {
        pieces(s.drop_last()).push(Seq::<char>::empty())
    } else {
        let p = pieces(s.drop_last());
        p.update(p.len() - 1, p.last().push(s.last()))
    }
}

/// The rows of the lines `lines`: line number (from 1), raw cell and actual
/// cell of each line that is not blank or a comment, in order.
pub open spec fn rows_of(lines: Seq<Seq<char>>) -> Seq<(nat, Seq<char>, Seq<char>)>
    decreases lines.len(),
{
    if lines.len() == 0 {
        Seq::empty()
    } else {
        let prev = rows_of(lines.drop_last());
        match line_cells(lines.last()) {
            Some(c) => prev.push((lines.len(), c.0, c.1)),
            None => prev,
        }
    }
}

/// One row of a calibration file, before its cells are read as numbers.
pub struct CsvRow {
    /// Line number, from 1.
    pub line: usize,
    /// The raw pH cell.
    pub raw: String,
    /// The actual pH cell.
    pub actual: String,
}

/// A row as plain values.
pub open spec fn row_view(r: CsvRow) -> (nat, Seq<char>, Seq<char>) {
    (r.line as nat, r.raw@, r.actual@)
}

fn index_of_from(s: &str, from: usize, c: char) -> (i: usize)
    requires
        from <= s@.len(),
    ensures
        i == from + index_of(s@.skip(from as int), c),
        from <= i <= s@.len(),
{
    let n = s.unicode_len();
    let mut k: usize = from;
    while k < n && s.get_char(k) != c
        invariant
            n == s@.len(),
            from <= k <= n,
            index_of(s@.skip(from as int), c) == (k - from) + index_of(s@.skip(k as int), c),
        decreases n - k,
    {
        assert(s@.skip(k as int).drop_first() =~= s@.skip(k + 1));
        assert(s@.skip(k as int)[0] == s@[k as int]);
        k = k + 1;
    }
    proof {
        if k < n {
            assert(s@.skip(k as int)[0] == s@[k as int]);
        }
    }
    k
}

fn cells(line: &str) -> (r: Option<(String, String)>)
    ensures
        r is None <==> line_cells(line@) is None,
        r matches Some(p) ==> line_cells(line@) == Some((p.0@, p.1@)),
{
    let t = trim_white(line);
    let n = t.unicode_len();
    if n == 0 || t.get_char(0) == '#' {
        return None;
    }
    let i0 = index_of_from(t, 0, ',');
    assert(t@.skip(0) =~= t@);
    let f0 = t.substring_char(0, i0);
    assert(f0@ =~= first_field(t@));
    let f1 = if i0 < n {
        let i1 = index_of_from(t, i0 + 1, ',');
        t.substring_char(i0 + 1, i1)
    } else {
        t.substring_char(n, n)
    };
    assert(f1@ =~= second_field(t@));
    Some((String::from_str(trim_white(f0)), String::from_str(trim_white(f1))))
}

/// The rows of a calibration file's text, one per line that is neither
/// blank nor a comment, with the line's first two comma-separated cells.
pub fn calibration_rows(content: &str) -> (rows: Vec<CsvRow>)
    requires
        content@.len() < usize::MAX,
    ensures
        rows@.map_values(|r: CsvRow| row_view(r)) == rows_of(pieces(content@)),
{
    let n = content.unicode_len();
    let mut rows: Vec<CsvRow> = Vec::new();
    let mut start: usize = 0;
    let mut k: usize = 0;
    let mut line_no: usize = 1;
    let ghost mut done: Seq<Seq<char>> = Seq::empty();
    assert(content@.take(0) =~= Seq::<char>::empty());
    assert(pieces(content@.take(0)) =~= done.push(content@.subrange(0, 0)));
    assert(rows@.map_values(|r: CsvRow| row_view(r)) =~= rows_of(done));
    while k < n
        invariant
            n == content@.len(),
            n < usize::MAX,
            start <= k <= n,
            pieces(content@.take(k as int)) == done.push(content@.subrange(start as int, k as int)),
            line_no == done.len() + 1,
            done.len() <= k,
            rows@.map_values(|r: CsvRow| row_view(r)) == rows_of(done),
        decreases n - k,
    {
        let c = content.get_char(k);
        let ghost cur = content@.subrange(start as int, k as int);
        assert(content@.take(k + 1).drop_last() =~= content@.take(k as int));
        assert(content@.take(k + 1).last() == c);
        if c == '\n' {
            let piece = content.substring_char(start, k);
            let ghost before = rows@.map_values(|r: CsvRow| row_view(r));
            match cells(piece) {
                Some((raw, actual)) => {
                    let row = CsvRow { line: line_no, raw, actual };
                    rows.push(row);
                    assert(rows@.map_values(|r: CsvRow| row_view(r)) =~= before.push(row_view(row)));
                },
                None => {},
            }
            proof {
                assert(done.push(cur).drop_last() =~= done);
                done = done.push(cur);
                assert(content@.subrange(k + 1, k + 1) =~= Seq::<char>::empty());
                assert(pieces(content@.take(k + 1)) =~= done.push(content@.subrange(k + 1, k + 1)));
            }
            line_no = line_no + 1;
            start = k + 1;
        } else {
            proof {
                assert(cur.push(c) =~= content@.subrange(start as int, k + 1));
                assert(pieces(content@.take(k + 1)) =~= done.push(content@.subrange(start as int, k + 1)));
            }
        }
        k = k + 1;
    }
    let piece = content.substring_char(start, n);
    let ghost lines = done.push(piece@);
    assert(content@.take(n as int) =~= content@);
    assert(lines.drop_last() =~= done);
    let ghost before = rows@.map_values(|r: CsvRow| row_view(r));
    match cells(piece) {
        Some((raw, actual)) => {
            let row = CsvRow { line: line_no, raw, actual };
            rows.push(row);
            assert(rows@.map_values(|r: CsvRow| row_view(r)) =~= before.push(row_view(row)));
        },
        None => {},
    }
    rows
}

/// A text without line feeds is a single piece.
pub proof fn lemma_pieces_single(s: Seq<char>)
    requires
        forall|i: int| 0 <= i < s.len() ==> #[trigger] s[i] != '\n',
    ensures
        pieces(s) == seq![s],
    decreases s.len(),
{
    if s.len() > 0 {
        lemma_pieces_single(s.drop_last());
        assert(s.drop_last().push(s.last()) =~= s);
        assert(seq![s.drop_last()].update(0, s.drop_last().push(s.last())) =~= seq![s]);
    } else {
        assert(s =~= Seq::<char>::empty());
    }
}

/// Splitting at a line feed: the pieces of `a`, a line feed and `b` are the
/// pieces of `a` followed by the pieces of `b`.
pub proof fn lemma_pieces_split(a: Seq<char>, b: Seq<char>)
    ensures
        pieces(a.push('\n') + b) == pieces(a) + pieces(b),
    decreases b.len(),
{
    let x = a.push('\n');
    if b.len() == 0 {
        assert(x + b =~= x);
        assert(x.drop_last() =~= a);
        assert(pieces(a).push(Seq::<char>::empty()) =~= pieces(a) + seq![Seq::<char>::empty()]);
    } else {
        lemma_pieces_split(a, b.drop_last());
        assert((x + b).drop_last() =~= x + b.drop_last());
        assert((x + b).last() == b.last());
        let pa = pieces(a);
        let pb = pieces(b.drop_last());
        lemma_pieces_nonempty(b.drop_last());
        if b.last() == '\n' {
            assert((pa + pb).push(Seq::<char>::empty()) =~= pa + pb.push(Seq::<char>::empty()));
        } else {
            let c = b.last();
            assert((pa + pb).update((pa + pb).len() - 1, (pa + pb).last().push(c)) =~= pa + pb.update(
                pb.len() - 1,
                pb.last().push(c),
            ));
        }
    }
}

proof fn lemma_pieces_nonempty(s: Seq<char>)
    ensures
        pieces(s).len() >= 1,
    decreases s.len(),
{
    if s.len() > 0 {
        lemma_pieces_nonempty(s.drop_last());
    }
}

/// The rows are exactly the lines that are neither blank nor comments, in
/// order: each row carries the number of its line and that line's cells,
/// line numbers increase, and no such line is left out.
pub proof fn lemma_rows_of_lines(lines: Seq<Seq<char>>)
    ensures
        forall|k: int|
            0 <= k < rows_of(lines).len() ==> 1 <= (#[trigger] rows_of(lines)[k]).0 <= lines.len()
                && line_cells(lines[rows_of(lines)[k].0 - 1]) == Some(
                (rows_of(lines)[k].1, rows_of(lines)[k].2),
            ),
        forall|k: int, l: int|
            0 <= k < l < rows_of(lines).len() ==> (#[trigger] rows_of(lines)[k]).0 < (
            #[trigger] rows_of(lines)[l]).0,
        forall|j: int|
            0 <= j < lines.len() && (#[trigger] line_cells(lines[j])) is Some ==> exists|k: int|
                0 <= k < rows_of(lines).len() && (#[trigger] rows_of(lines)[k]).0 == j + 1,
    decreases lines.len(),
{
    if lines.len() > 0 {
        let prev = lines.drop_last();
        lemma_rows_of_lines(prev);
        let rp = rows_of(prev);
        let r = rows_of(lines);
        assert forall|k: int| 0 <= k < rp.len() implies 1 <= (#[trigger] rp[k]).0 <= prev.len()
            && lines[rp[k].0 - 1] == prev[rp[k].0 - 1] by {}
        assert forall|k: int|
            0 <= k < r.len() implies 1 <= (#[trigger] r[k]).0 <= lines.len() && line_cells(
            lines[r[k].0 - 1],
        ) == Some((r[k].1, r[k].2)) by {
            if k < rp.len() {
                assert(r[k] == rp[k]);
                assert(lines[rp[k].0 - 1] == prev[rp[k].0 - 1]);
            }
        }
        assert forall|k: int, l: int| 0 <= k < l < r.len() implies (#[trigger] r[k]).0 < (
        #[trigger] r[l]).0 by {
            assert(r[k] == rp[k]);
            if l < rp.len() {
                assert(r[l] == rp[l]);
            }
        }
        assert forall|j: int|
            0 <= j < lines.len() && (#[trigger] line_cells(lines[j])) is Some implies exists|k: int|
                0 <= k < r.len() && (#[trigger] r[k]).0 == j + 1 by {
            if j < prev.len() {
                assert(lines[j] == prev[j]);
                assert(line_cells(prev[j]) is Some);
                let k = choose|k: int| 0 <= k < rp.len() && (#[trigger] rp[k]).0 == j + 1;
                assert(r[k] == rp[k]);
            } else {
                assert(r[rp.len() as int].0 == j + 1);
            }
        }
    }
}

} // verus!
