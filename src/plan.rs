//! Row assembly: transposing encoded columns into rows, partitioning rows into
//! bounded chunks, and writing the statements of a load.
use vstd::prelude::*;
use crate::encode::{quoted};

verus! {

/// The texts that a sequence of strings holds.
pub open spec fn views(v: Seq<String>) -> Seq<Seq<char>> {
    v.map_values(|s: String| s@)
}

/// The items of `s` separated by `, `.
pub open spec fn join(s: Seq<Seq<char>>) -> Seq<char>
    decreases s.len(),
{
    if s.len() == 0 {
        Seq::empty()
    } else if s.len() == 1 {
        s[0]
    } else {
        join(s.drop_last()) + ", "@ + s.last()
    }
}

/// Appends the items of `items` separated by `, `.
pub fn push_joined(out: &mut String, items: &Vec<String>)
    ensures
        final(out)@ == old(out)@ + join(views(items@)),
{
    let ghost start = out@;
    let mut i: usize = 0;
    assert(views(items@).take(0) =~= Seq::<Seq<char>>::empty());
    while i < items.len()
        invariant
            i <= items.len(),
            out@ == start + join(views(items@).take(i as int)),
        decreases items.len() - i,
    {
        let ghost prev = views(items@).take(i as int);
        let ghost next = views(items@).take(i + 1);
        assert(next.drop_last() =~= prev);
        if i > 0 {
            out.append(", ");
        }
        out.append(items[i].as_str());
        i = i + 1;
        proof {
            if i == 1 {
                assert(out@ =~= start + join(next));
            } else {
                assert(out@ =~= start + join(next));
            }
        }
    }
    assert(views(items@).take(items.len() as int) =~= views(items@));
}

/// Whether `columns` has at least one column and all columns have `m` cells.
pub open spec fn rectangular(columns: Seq<Vec<String>>, m: int) -> bool {
    columns.len() >= 1 && forall|c: int| 0 <= c < columns.len() ==> #[trigger] columns[c].len() == m
}

/// Turns `n` columns of `m` cells into `m` rows of `n` cells: cell `c` of row
/// `r` is cell `r` of column `c`.
pub fn transpose(columns: &Vec<Vec<String>>) -> (rows: Vec<Vec<String>>)
    requires
        rectangular(columns@, columns@[0].len() as int),
    ensures
        rows.len() == columns@[0].len(),
        forall|r: int| 0 <= r < rows.len() ==> #[trigger] rows@[r].len() == columns.len(),
        forall|r: int, c: int|
            0 <= r < rows.len() && 0 <= c < columns.len() ==> (#[trigger] rows@[r]@[c])@
                == columns@[c]@[r]@,
{
    let m = columns[0].len();
    let n = columns.len();
    let mut rows: Vec<Vec<String>> = Vec::new();
    let mut r: usize = 0;
    while r < m
        invariant
            m == columns@[0].len(),
            n == columns.len(),
            rectangular(columns@, m as int),
            r <= m,
            rows.len() == r,
            forall|i: int| 0 <= i < r ==> #[trigger] rows@[i].len() == n,
            forall|i: int, c: int|
                0 <= i < r && 0 <= c < n ==> (#[trigger] rows@[i]@[c])@ == columns@[c]@[i]@,
        decreases m - r,
    {
        let mut row: Vec<String> = Vec::new();
        let mut c: usize = 0;
        while c < n
            invariant
                m == columns@[0].len(),
                n == columns.len(),
                rectangular(columns@, m as int),
                r < m,
                c <= n,
                row.len() == c,
                forall|j: int| 0 <= j < c ==> (#[trigger] row@[j])@ == columns@[j]@[r as int]@,
            decreases n - c,
        {
            assert(columns@[c as int].len() == m);
            row.push(columns[c][r].clone());
            c = c + 1;
        }
        rows.push(row);
        r = r + 1;
    }
    rows
}

/// Number of chunks of at most `k` rows that `m` rows need.
pub open spec fn chunk_count(m: int, k: int) -> int {
    if m <= 0 { 0 } else { (m - 1) / k + 1 }
}

/// Length of chunk `j` when `m` rows are cut into chunks of `k`.
pub open spec fn chunk_len(m: int, k: int, j: int) -> int {
    if m - j * k < k { m - j * k } else { k }
}

proof fn lemma_chunk_count(m: int, k: int, len: int)
    requires
        k > 0,
        len >= 0,
        (len == 0 && m == 0) || (len > 0 && (len - 1) * k < m <= len * k),
    ensures
        len == chunk_count(m, k),
{
    if len > 0 {
        assert((m - 1) / k == len - 1) by (nonlinear_arith)
            requires
                k > 0,
                len > 0,
                (len - 1) * k < m <= len * k,
        {
            let q = (m - 1) / k;
            assert((len - 1) * k <= m - 1 < len * k);
            assert(q * k <= m - 1 < q * k + k);
            if q < len - 1 {
                assert(q + 1 <= len - 1);
                assert((q + 1) * k <= (len - 1) * k);
            } else if q > len - 1 {
                assert(len <= q);
                assert(len * k <= q * k);
            }
        }
    }
}

/// Cuts `rows` into consecutive chunks of `k` rows, the last one possibly
/// shorter; row `i` of chunk `j` is row `j * k + i` of the input.
pub fn plan_chunks(rows: &Vec<String>, k: usize) -> (chunks: Vec<Vec<String>>)
    requires
        k > 0,
    ensures
        chunks.len() == chunk_count(rows.len() as int, k as int),
        forall|j: int| 0 <= j < chunks.len() ==> #[trigger] chunks@[j].len() == chunk_len(
            rows.len() as int,
            k as int,
            j,
        ),
        forall|j: int, i: int|
            0 <= j < chunks.len() && 0 <= i < chunks@[j].len() ==> (#[trigger] chunks@[j]@[i])@
                == rows@[j * k + i]@,
{
    let m = rows.len();
    let mut chunks: Vec<Vec<String>> = Vec::new();
    let mut start: usize = 0;
    assert(chunks.len() == 0);
    assert(chunks.len() * k == 0) by (nonlinear_arith)
        requires
            chunks.len() == 0,
    ;
    while start < m
        invariant
            m == rows.len(),
            k > 0,
            start <= m,
            start < m ==> start == chunks.len() * k,
            start == m ==> (chunks.len() == 0 && m == 0) || (chunks.len() > 0 && (chunks.len()
                - 1) * k < m <= chunks.len() * k),
            forall|j: int| 0 <= j < chunks.len() ==> #[trigger] chunks@[j].len() == chunk_len(
                m as int,
                k as int,
                j,
            ),
            forall|j: int, i: int|
                0 <= j < chunks.len() && 0 <= i < chunks@[j].len() ==> (
                #[trigger] chunks@[j]@[i])@ == rows@[j * k + i]@,
        decreases m - start,
    {
        let ghost j = chunks.len() as int;
        let end: usize = if m - start > k { start + k } else { m };
        let mut chunk: Vec<String> = Vec::new();
        let mut i: usize = start;
        while i < end
            invariant
                m == rows.len(),
                start <= i <= end <= m,
                chunk.len() == i - start,
                forall|x: int| 0 <= x < chunk.len() ==> (#[trigger] chunk@[x])@ == rows@[start + x]@,
            decreases end - i,
        {
            chunk.push(rows[i].clone());
            i = i + 1;
        }
        chunks.push(chunk);
        proof {
            assert((j + 1) * k == j * k + k) by (nonlinear_arith);
            assert(chunks@[j].len() == chunk_len(m as int, k as int, j));
        }
        start = end;
    }
    proof {
        lemma_chunk_count(m as int, k as int, chunks.len() as int);
    }
    chunks
}

/// `(<cell>, <cell>, ...)`: the literal of one row.
pub open spec fn row_sql(cells: Seq<Seq<char>>) -> Seq<char> {
    "("@ + join(cells) + ")"@
}

/// The literal of one row of encoded cells.
pub fn row_literal(cells: &Vec<String>) -> (r: String)
    ensures
        r@ == row_sql(views(cells@)),
{
    let mut s = String::from_str("(");
    push_joined(&mut s, cells);
    s.append(")");
    s
}

/// `INSERT INTO "<table>" VALUES <row>, <row>, ...`.
pub open spec fn insert_sql(table: Seq<char>, rows: Seq<Seq<char>>) -> Seq<char> {
    "INSERT INTO "@ + quoted(table, '"') + " VALUES "@ + join(rows)
}

/// The statement that inserts the given row literals into `table`.
pub fn insert_statement(table: &str, rows: &Vec<String>) -> (r: String)
    ensures
        r@ == insert_sql(table@, views(rows@)),
{
    let mut s = String::from_str("INSERT INTO ");
    crate::encode::push_quoted(&mut s, table, '"');
    s.append(" VALUES ");
    push_joined(&mut s, rows);
    s
}

/// The items of all the sequences of `s`, in order.
pub open spec fn flatten(s: Seq<Seq<Seq<char>>>) -> Seq<Seq<char>>
    decreases s.len(),
{
    if s.len() == 0 { Seq::empty() } else { flatten(s.drop_last()) + s.last() }
}

/// Chunk `j` of `rows` cut into chunks of `k`.
pub open spec fn chunk_of(rows: Seq<Seq<char>>, k: int, j: int) -> Seq<Seq<char>> {
    rows.subrange(j * k, j * k + chunk_len(rows.len() as int, k, j))
}

/// All chunks of `rows` cut into chunks of `k`, in order.
pub open spec fn chunks_of(rows: Seq<Seq<char>>, k: int) -> Seq<Seq<Seq<char>>> {
    Seq::new(chunk_count(rows.len() as int, k) as nat, |j: int| chunk_of(rows, k, j))
}

proof fn lemma_chunk_bounds(m: int, k: int, t: int)
    requires
        k > 0,
        0 <= t < chunk_count(m, k),
    ensures
        0 <= t * k < m,
        (t + 1) * k == t * k + k,
        t + 1 < chunk_count(m, k) ==> (t + 1) * k < m && chunk_len(m, k, t) == k,
        t + 1 == chunk_count(m, k) ==> t * k + chunk_len(m, k, t) == m,
{
    let q = (m - 1) / k;
    assert(q * k <= m - 1 < q * k + k) by (nonlinear_arith)
        requires
            q == (m - 1) / k,
            k > 0,
            m > 0,
    ;
    assert((t + 1) * k == t * k + k) by (nonlinear_arith);
    assert(0 <= t * k) by (nonlinear_arith)
        requires
            t >= 0,
            k > 0,
    ;
    assert(t * k <= q * k) by (nonlinear_arith)
        requires
            t <= q,
            k > 0,
    ;
    if t + 1 < chunk_count(m, k) {
        assert((t + 1) * k <= q * k) by (nonlinear_arith)
            requires
                t + 1 <= q,
                k > 0,
        ;
    }
}

proof fn lemma_flatten_prefix(rows: Seq<Seq<char>>, k: int, t: int)
    requires
        k > 0,
        0 <= t <= chunk_count(rows.len() as int, k),
    ensures
        flatten(chunks_of(rows, k).take(t)) == rows.take(
            if t < chunk_count(rows.len() as int, k) { t * k } else { rows.len() as int },
        ),
    decreases t,
{
    let m = rows.len() as int;
    let cs = chunks_of(rows, k);
    if t == 0 {
        assert(cs.take(0) =~= Seq::<Seq<Seq<char>>>::empty());
        if chunk_count(m, k) == 0 {
            assert(rows.take(m) =~= Seq::<Seq<char>>::empty());
        } else {
            assert(rows.take(0) =~= Seq::<Seq<char>>::empty());
        }
    } else {
        let p = t - 1;
        lemma_flatten_prefix(rows, k, p);
        lemma_chunk_bounds(m, k, p);
        assert(cs.take(t).drop_last() =~= cs.take(p));
        assert(cs.take(t).last() == chunk_of(rows, k, p));
        let end = p * k + chunk_len(m, k, p);
        assert(rows.take(p * k) + rows.subrange(p * k, end) =~= rows.take(end));
        if t < chunk_count(m, k) {
            assert(end == t * k);
        }
    }
}

/// Cutting rows into chunks loses nothing and reorders nothing: the chunks,
/// concatenated in order, are the rows.
pub proof fn lemma_chunks_reassemble(rows: Seq<Seq<char>>, k: int)
    requires
        k > 0,
    ensures
        flatten(chunks_of(rows, k)) == rows,
        chunks_of(rows, k).len() == chunk_count(rows.len() as int, k),
{
    let n = chunk_count(rows.len() as int, k);
    lemma_flatten_prefix(rows, k, n);
    assert(chunks_of(rows, k).take(n) =~= chunks_of(rows, k));
    assert(rows.take(rows.len() as int) =~= rows);
}

} // verus!
