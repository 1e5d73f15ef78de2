//! The row-insert loading strategy as a state machine: the caller opens the
//! source and the destination, runs the statements this module writes, and
//! reports back how many rows each one persisted.
use vstd::prelude::*;
use crate::encode::{quoted, storage_of, storage_name, storage_type, push_quoted, LogicalType, Value};
use crate::text::{int_text, nat_text, push_int, push_nat};
use crate::plan::{
    chunk_count, chunk_len, insert_sql, insert_statement, join, plan_chunks, push_joined,
    rectangular, row_literal, row_sql, transpose, views,
};

verus! {

/// A named column type of a schema.
#[derive(Debug, Clone, PartialEq, Eq)]
pub struct Field {
    pub name: String,
    pub ty: LogicalType,
}

/// A named column of cells of one logical type.
#[derive(Debug, Clone, PartialEq, Eq)]
pub struct Column {
    pub name: String,
    pub ty: LogicalType,
    pub cells: Vec<Value>,
}

/// A column-major slice of a dataset.
#[derive(Debug, Clone, PartialEq, Eq)]
pub struct Batch {
    pub columns: Vec<Column>,
}

/// Why a load stopped. Indices count from zero.
#[derive(Debug, Clone, Copy, PartialEq, Eq, Structural)]
pub enum LoadError {
    /// The source path is missing or unreadable.
    SourceOpen,
    /// The source is not a valid stream of columnar batches, or a batch has
    /// columns of different lengths.
    SourceFormat,
    /// No connection to the destination could be made.
    DestinationOpen,
    /// A column's logical type has no storage type.
    SchemaMapping { column: usize, ty: LogicalType },
    /// A later batch's columns differ from the table's schema.
    SchemaDrift,
    /// The table could not be created.
    TableCreation,
    /// A cell holds a value that has no literal encoding.
    UnsupportedValue { column: usize, row: usize },
    /// An insert statement failed; `statement` statements had succeeded.
    StatementExecution { statement: u64 },
    /// Every statement ran, yet fewer rows were persisted than read.
    PartialInsert { shortfall: u64 },
    /// The bulk-append session refused batch `batch`; nothing was committed.
    AppendRejected { batch: u64 },
    /// More rows were reported persisted than were read.
    InvariantViolation { observed: u64, inserted: u64 },
}

/// What a completed load reports.
#[derive(Debug, Clone, Copy, PartialEq, Eq, Structural)]
pub struct LoadSummary {
    pub rows: u64,
    pub statements: u64,
}

/// The literal of a cell; `None` for a value that has no encoding.
pub open spec fn value_literal(v: Value) -> Option<Seq<char>> {
    match v {
        Value::Null => Option::Some("NULL"@),
        Value::Boolean(b) => Option::Some(if b { "TRUE"@ } else { "FALSE"@ }),
        Value::Int(n) => Option::Some(int_text(n as int)),
        Value::UInt(n) => Option::Some(nat_text(n as nat)),
        Value::Float(s) => Option::Some(s@),
        Value::Text(s) => Option::Some(quoted(s@, '\'')),
        _ => Option::None,
    }
}

/// Encodes one cell as a statement literal.
pub fn encode_value(v: &Value) -> (r: Option<String>)
    ensures
        match r {
            Option::Some(s) => value_literal(*v) == Option::Some(s@),
            Option::None => value_literal(*v).is_none(),
        },
{
    match v {
        Value::Null => Option::Some(String::from_str("NULL")),
        Value::Boolean(b) => Option::Some(String::from_str(if *b { "TRUE" } else { "FALSE" })),
        Value::Int(n) => {
            let mut s = String::new();
            push_int(&mut s, *n);
            assert(s@ =~= int_text(*n as int));
            Option::Some(s)
        },
        Value::UInt(n) => {
            let mut s = String::new();
            push_nat(&mut s, *n);
            assert(s@ =~= nat_text(*n as nat));
            Option::Some(s)
        },
        Value::Float(t) => Option::Some(t.clone()),
        Value::Text(t) => Option::Some(crate::encode::quote_text(t.as_str())),
        _ => Option::None,
    }
}

/// Number of rows of a batch.
pub open spec fn batch_len(b: Batch) -> int {
    if b.columns.len() == 0 { 0 } else { b.columns@[0].cells.len() as int }
}

/// Whether all columns of a batch have the same number of cells.
pub open spec fn batch_rectangular(b: Batch) -> bool {
    forall|c: int| 0 <= c < b.columns.len() ==> (#[trigger] b.columns@[c]).cells.len() == batch_len(b)
}

/// Whether every cell of a batch has a literal.
pub open spec fn batch_encodable(b: Batch) -> bool {
    forall|c: int, r: int|
        0 <= c < b.columns.len() && 0 <= r < b.columns@[c].cells.len() ==> (#[trigger] value_literal(
            b.columns@[c].cells@[r],
        )).is_some()
}

/// The literal of cell `r` of column `c`.
pub open spec fn cell_sql(b: Batch, c: int, r: int) -> Seq<char> {
    value_literal(b.columns@[c].cells@[r])->Some_0
}

/// The row literals of a batch, in row order.
pub open spec fn batch_rows_sql(b: Batch) -> Seq<Seq<char>> {
    Seq::new(batch_len(b) as nat, |r: int| row_sql(Seq::new(b.columns.len() as nat, |c: int| cell_sql(b, c, r))))
}

/// Whether a batch's columns have the names and types of `schema`, in order.
pub open spec fn schema_matches(schema: Seq<Field>, b: Batch) -> bool {
    schema.len() == b.columns.len() && forall|i: int| 0 <= i < schema.len() ==> (#[trigger] schema[i]).name@
        == b.columns@[i].name@ && schema[i].ty == b.columns@[i].ty
}

/// The definition of one column: its quoted name and its storage type.
pub open spec fn column_def_sql(f: Field) -> Seq<char> {
    quoted(f.name@, '"') + " "@ + storage_name(storage_of(f.ty)->Some_0)
}

/// Whether every field of a schema has a storage type.
pub open spec fn schema_mappable(schema: Seq<Field>) -> bool {
    forall|i: int| 0 <= i < schema.len() ==> (#[trigger] storage_of(schema[i].ty)).is_some()
}

/// `CREATE TABLE IF NOT EXISTS "<table>" (<column>, ...)`.
pub open spec fn create_sql(table: Seq<char>, schema: Seq<Field>) -> Seq<char> {
    "CREATE TABLE IF NOT EXISTS "@ + quoted(table, '"') + " ("@ + join(
        Seq::new(schema.len(), |i: int| column_def_sql(schema[i])),
    ) + ")"@
}

/// `DROP TABLE "<table>"`.
pub open spec fn drop_sql(table: Seq<char>) -> Seq<char> {
    "DROP TABLE "@ + quoted(table, '"')
}

/// Sum of a sequence of row counts.
pub open spec fn total(s: Seq<nat>) -> nat
    decreases s.len(),
{
    if s.len() == 0 { 0 } else { total(s.drop_last()) + s.last() }
}

/// The statement that drops `table`.
pub fn drop_statement(table: &str) -> (r: String)
    ensures
        r@ == drop_sql(table@),
{
    let mut s = String::from_str("DROP TABLE ");
    push_quoted(&mut s, table, '"');
    s
}

/// The index of the first field without a storage type, if any.
pub fn first_unmapped(schema: &Vec<Field>) -> (r: Option<usize>)
    ensures
        match r {
            Option::Some(i) => i < schema.len() && storage_of(schema@[i as int].ty).is_none()
                && schema_mappable(schema@.take(i as int)),
            Option::None => schema_mappable(schema@),
        },
{
    let mut i: usize = 0;
    while i < schema.len()
        invariant
            i <= schema.len(),
            schema_mappable(schema@.take(i as int)),
        decreases schema.len() - i,
    {
        if storage_type(schema[i].ty).is_none() {
            return Option::Some(i);
        }
        assert(schema@.take(i + 1) =~= schema@.take(i as int).push(schema@[i as int]));
        i = i + 1;
    }
    assert(schema@.take(i as int) =~= schema@);
    Option::None
}

/// The statement that creates the table of a mappable schema.
pub fn create_statement(table: &str, schema: &Vec<Field>) -> (r: String)
    requires
        schema_mappable(schema@),
    ensures
        r@ == create_sql(table@, schema@),
{
    let mut defs: Vec<String> = Vec::new();
    let mut i: usize = 0;
    while i < schema.len()
        invariant
            schema_mappable(schema@),
            i <= schema.len(),
            defs.len() == i,
            forall|j: int| 0 <= j < i ==> (#[trigger] defs@[j])@ == column_def_sql(schema@[j]),
        decreases schema.len() - i,
    {
        assert(storage_of(schema@[i as int].ty).is_some());
        let st = storage_type(schema[i].ty).unwrap();
        let mut d = String::new();
        push_quoted(&mut d, schema[i].name.as_str(), '"');
        d.append(" ");
        d.append(st.name());
        assert(d@ =~= column_def_sql(schema@[i as int]));
        defs.push(d);
        i = i + 1;
    }
    let mut s = String::from_str("CREATE TABLE IF NOT EXISTS ");
    push_quoted(&mut s, table, '"');
    s.append(" (");
    push_joined(&mut s, &defs);
    s.append(")");
    assert(views(defs@) =~= Seq::new(schema@.len(), |i: int| column_def_sql(schema@[i])));
    s
}

/// Whether the columns of `b` have the names and types of `schema`.
pub fn same_schema(schema: &Vec<Field>, b: &Batch) -> (r: bool)
    ensures
        r == schema_matches(schema@, *b),
{
    if schema.len() != b.columns.len() {
        return false;
    }
    let mut i: usize = 0;
    while i < schema.len()
        invariant
            schema.len() == b.columns.len(),
            i <= schema.len(),
            forall|j: int| 0 <= j < i ==> (#[trigger] schema@[j]).name@ == b.columns@[j].name@
                && schema@[j].ty == b.columns@[j].ty,
        decreases schema.len() - i,
    {
        if !(schema[i].name == b.columns[i].name) || !(schema[i].ty == b.columns[i].ty) {
            return false;
        }
        assert(schema@[i as int].name@ == b.columns@[i as int].name@);
        assert(schema@[i as int].ty == b.columns@[i as int].ty);
        i = i + 1;
    }
    true
}

proof fn lemma_chunk_start(m: int, k: int, j: int)
    requires
        k > 0,
        0 <= j < chunk_count(m, k),
    ensures
        0 <= j * k < m,
        j * k + chunk_len(m, k, j) <= m,
{
    let q = (m - 1) / k;
    assert(j * k <= q * k) by (nonlinear_arith)
        requires
            0 <= j <= q,
            k > 0,
    ;
    assert(q * k <= m - 1) by (nonlinear_arith)
        requires
            q == (m - 1) / k,
            k > 0,
            m > 0,
    ;
    assert(0 <= j * k) by (nonlinear_arith)
        requires
            j >= 0,
            k > 0,
    ;
}

/// Encodes every cell of a batch, column by column.
pub fn encode_columns(b: &Batch) -> (r: Result<Vec<Vec<String>>, LoadError>)
    ensures
        r is Ok <==> batch_encodable(*b),
        match r {
            Result::Ok(cols) => cols.len() == b.columns.len() && (forall|c: int|
                0 <= c < cols.len() ==> (#[trigger] cols@[c]).len() == b.columns@[c].cells.len())
                && forall|c: int, x: int|
                0 <= c < cols.len() && 0 <= x < cols@[c].len() ==> (#[trigger] cols@[c]@[x])@
                    == cell_sql(*b, c, x),
            Result::Err(e) => match e {
                LoadError::UnsupportedValue { column, row } => column < b.columns.len() && row
                    < b.columns@[column as int].cells.len() && value_literal(
                    b.columns@[column as int].cells@[row as int],
                ).is_none(),
                _ => false,
            },
        },
{
    let mut cols: Vec<Vec<String>> = Vec::new();
    let mut c: usize = 0;
    while c < b.columns.len()
        invariant
            c <= b.columns.len(),
            cols.len() == c,
            forall|j: int| 0 <= j < c ==> (#[trigger] cols@[j]).len() == b.columns@[j].cells.len(),
            forall|j: int, y: int|
                0 <= j < c && 0 <= y < cols@[j].len() ==> (#[trigger] cols@[j]@[y])@ == cell_sql(
                    *b,
                    j,
                    y,
                ),
            forall|j: int, y: int|
                0 <= j < c && 0 <= y < b.columns@[j].cells.len() ==> (#[trigger] value_literal(
                    b.columns@[j].cells@[y],
                )).is_some(),
        decreases b.columns.len() - c,
    {
        let col = encode_column(b, c);
        match col {
            Result::Ok(col) => {
                let ghost before = cols@;
                cols.push(col);
                proof {
                    assert forall|j: int, y: int|
                        0 <= j < c + 1 && 0 <= y < cols@[j].len() implies (
                        #[trigger] cols@[j]@[y])@ == cell_sql(*b, j, y) by {
                        if j < c {
                            assert(cols@[j] == before[j]);
                        }
                    }
                }
                c = c + 1;
            },
            Result::Err(e) => {
                return Result::Err(e);
            },
        }
    }
    Result::Ok(cols)
}

/// Encodes every cell of column `c` of a batch.
fn encode_column(b: &Batch, c: usize) -> (r: Result<Vec<String>, LoadError>)
    requires
        c < b.columns.len(),
    ensures
        match r {
            Result::Ok(col) => col.len() == b.columns@[c as int].cells.len() && (forall|x: int|
                0 <= x < col.len() ==> (#[trigger] col@[x])@ == cell_sql(*b, c as int, x)) && (
            forall|x: int|
                0 <= x < col.len() ==> (#[trigger] value_literal(
                    b.columns@[c as int].cells@[x],
                )).is_some()),
            Result::Err(e) => match e {
                LoadError::UnsupportedValue { column, row } => column == c && row
                    < b.columns@[column as int].cells.len() && value_literal(
                    b.columns@[column as int].cells@[row as int],
                ).is_none(),
                _ => false,
            },
        },
{
    let cells = &b.columns[c].cells;
    let mut col: Vec<String> = Vec::new();
    let mut x: usize = 0;
    while x < cells.len()
        invariant
            c < b.columns.len(),
            cells == b.columns@[c as int].cells,
            x <= cells.len(),
            col.len() == x,
            forall|y: int| 0 <= y < x ==> (#[trigger] col@[y])@ == cell_sql(*b, c as int, y),
            forall|y: int| 0 <= y < x ==> (#[trigger] value_literal(cells@[y])).is_some(),
        decreases cells.len() - x,
    {
        match encode_value(&cells[x]) {
            Option::Some(s) => {
                col.push(s);
            },
            Option::None => {
                return Result::Err(LoadError::UnsupportedValue { column: c, row: x });
            },
        }
        x = x + 1;
    }
    Result::Ok(col)
}

/// The insert statements of one batch: its rows, encoded and transposed, in
/// chunks of at most `k` rows, one statement per chunk.
pub fn batch_statements(table: &str, b: &Batch, k: usize) -> (r: Result<Vec<String>, LoadError>)
    requires
        k > 0,
        batch_rectangular(*b),
    ensures
        r is Ok <==> batch_encodable(*b),
        match r {
            Result::Ok(stmts) => stmts.len() == chunk_count(batch_len(*b), k as int) && forall|j: int|
                0 <= j < stmts.len() ==> (#[trigger] stmts@[j])@ == insert_sql(
                    table@,
                    batch_rows_sql(*b).subrange(j * k, j * k + chunk_len(batch_len(*b), k as int, j)),
                ),
            Result::Err(e) => e is UnsupportedValue,
        },
{
    let cols = match encode_columns(b) {
        Result::Ok(cols) => cols,
        Result::Err(e) => {
            return Result::Err(e);
        },
    };
    let ghost m = batch_len(*b);
    let ghost all = batch_rows_sql(*b);
    if cols.len() == 0 {
        assert(chunk_count(m, k as int) == 0);
        return Result::Ok(Vec::new());
    }
    assert(rectangular(cols@, cols@[0].len() as int)) by {
        assert forall|c: int| 0 <= c < cols@.len() implies #[trigger] cols@[c].len() == cols@[0].len() by {
            assert(b.columns@[c].cells.len() == batch_len(*b));
        }
    }
    let rows = transpose(&cols);
    let mut lits: Vec<String> = Vec::new();
    let mut r: usize = 0;
    while r < rows.len()
        invariant
            rows.len() == m,
            m == batch_len(*b),
            all == batch_rows_sql(*b),
            cols.len() == b.columns.len(),
            forall|x: int| 0 <= x < rows.len() ==> #[trigger] rows@[x].len() == cols.len(),
            forall|x: int, c: int|
                0 <= x < rows.len() && 0 <= c < cols.len() ==> (#[trigger] rows@[x]@[c])@
                    == cols@[c]@[x]@,
            forall|c: int, x: int|
                0 <= c < cols.len() && 0 <= x < cols@[c].len() ==> (#[trigger] cols@[c]@[x])@
                    == cell_sql(*b, c, x),
            forall|c: int| 0 <= c < cols.len() ==> (#[trigger] cols@[c]).len() == b.columns@[c].cells.len(),
            batch_rectangular(*b),
            r <= rows.len(),
            lits.len() == r,
            forall|x: int| 0 <= x < r ==> (#[trigger] lits@[x])@ == all[x],
        decreases rows.len() - r,
    {
        let lit = row_literal(&rows[r]);
        proof {
            let n = b.columns.len() as nat;
            assert forall|c: int| 0 <= c < n implies #[trigger] views(rows@[r as int]@)[c] == cell_sql(*b, c, r as int) by {
                assert(b.columns@[c].cells.len() == m);
                assert(rows@[r as int]@[c]@ == cols@[c]@[r as int]@);
            }
            assert(views(rows@[r as int]@) =~= Seq::new(n, |c: int| cell_sql(*b, c, r as int)));
        }
        lits.push(lit);
        r = r + 1;
    }
    let chunks = plan_chunks(&lits, k);
    let mut stmts: Vec<String> = Vec::new();
    let mut j: usize = 0;
    while j < chunks.len()
        invariant
            lits.len() == m,
            m == batch_len(*b),
            all == batch_rows_sql(*b),
            forall|x: int| 0 <= x < m ==> (#[trigger] lits@[x])@ == all[x],
            k > 0,
            chunks.len() == chunk_count(m, k as int),
            forall|i: int| 0 <= i < chunks.len() ==> #[trigger] chunks@[i].len() == chunk_len(m, k as int, i),
            forall|i: int, x: int|
                0 <= i < chunks.len() && 0 <= x < chunks@[i].len() ==> (#[trigger] chunks@[i]@[x])@
                    == lits@[i * k + x]@,
            j <= chunks.len(),
            stmts.len() == j,
            forall|i: int| 0 <= i < j ==> (#[trigger] stmts@[i])@ == insert_sql(
                table@,
                all.subrange(i * k, i * k + chunk_len(m, k as int, i)),
            ),
        decreases chunks.len() - j,
    {
        let s = insert_statement(table, &chunks[j]);
        proof {
            let ji = j as int;
            let len = chunk_len(m, k as int, ji);
            lemma_chunk_start(m, k as int, ji);
            assert forall|x: int| 0 <= x < len implies #[trigger] views(chunks@[ji]@)[x] == all.subrange(ji * k, ji * k + len)[x] by {
                assert(chunks@[ji]@[x]@ == lits@[ji * k + x]@);
            }
            assert(views(chunks@[ji]@) =~= all.subrange(ji * k, ji * k + len));
        }
        stmts.push(s);
        j = j + 1;
    }
    Result::Ok(stmts)
}

/// Whether all columns of a batch have the same number of cells.
pub fn is_rectangular(b: &Batch) -> (r: bool)
    ensures
        r == batch_rectangular(*b),
{
    let m: usize = if b.columns.len() == 0 { 0 } else { b.columns[0].cells.len() };
    let mut c: usize = 0;
    while c < b.columns.len()
        invariant
            c <= b.columns.len(),
            m == batch_len(*b),
            forall|j: int| 0 <= j < c ==> (#[trigger] b.columns@[j]).cells.len() == m,
        decreases b.columns.len() - c,
    {
        if b.columns[c].cells.len() != m {
            return false;
        }
        c = c + 1;
    }
    true
}

/// A row-insert load in progress into one table.
pub struct Load {
    pub table: String,
    pub schema: Vec<Field>,
    pub chunk_size: usize,
    /// Rows read from the batches accepted so far.
    pub observed: u64,
    /// Rows that the destination reported persisted.
    pub inserted: u64,
    /// Insert statements that succeeded.
    pub statements: u64,
    /// Row count of each accepted batch, in order.
    pub batch_rows: Ghost<Seq<nat>>,
}

impl Load {
    /// The load's bookkeeping: `observed` is the total of the accepted
    /// batches' rows.
    pub open spec fn wf(&self) -> bool {
        self.chunk_size > 0 && self.observed as nat == total(self.batch_rows@)
    }

    /// Starts a load of `schema` into `table` in chunks of `chunk_size` rows,
    /// and returns the statement that creates the table. Fails on the first
    /// column whose type has no storage type, before any statement exists.
    pub fn start(table: &str, schema: Vec<Field>, chunk_size: usize) -> (r: Result<(Load, String), LoadError>)
        requires
            chunk_size > 0,
        ensures
            r is Ok <==> schema_mappable(schema@),
            match r {
                Result::Ok((l, create)) => l.wf() && l.table@ == table@ && l.schema@ == schema@
                    && l.chunk_size == chunk_size && l.observed == 0 && l.inserted == 0
                    && l.statements == 0 && l.batch_rows@ == Seq::<nat>::empty()
                    && create@ == create_sql(table@, schema@),
                Result::Err(e) => match e {
                    LoadError::SchemaMapping { column, ty } => column < schema.len() && ty
                        == schema@[column as int].ty && storage_of(ty).is_none()
                        && schema_mappable(schema@.take(column as int)),
                    _ => false,
                },
            },
    {
        match first_unmapped(&schema) {
            Option::Some(i) => {
                let ty = schema[i].ty;
                Result::Err(LoadError::SchemaMapping { column: i, ty })
            },
            Option::None => {
                let create = create_statement(table, &schema);
                let l = Load {
                    table: String::from_str(table),
                    schema,
                    chunk_size,
                    observed: 0,
                    inserted: 0,
                    statements: 0,
                    batch_rows: Ghost(Seq::empty()),
                };
                Result::Ok((l, create))
            },
        }
    }

    /// The statement that drops the table before a fresh load.
    pub fn drop_statement(&self) -> (r: String)
        ensures
            r@ == drop_sql(self.table@),
    {
        drop_statement(self.table.as_str())
    }

    /// Accepts the next batch and returns its insert statements. A batch
    /// whose columns differ from the table's schema, whose columns differ in
    /// length, or that holds a cell without a literal, is refused, and the
    /// load is left as it was.
    pub fn plan_batch(&mut self, b: &Batch) -> (r: Result<Vec<String>, LoadError>)
        requires
            old(self).wf(),
            old(self).observed + batch_len(*b) <= u64::MAX,
        ensures
            final(self).wf(),
            r is Ok <==> schema_matches(old(self).schema@, *b) && batch_rectangular(*b)
                && batch_encodable(*b),
            !schema_matches(old(self).schema@, *b) ==> r == Result::<Vec<String>, LoadError>::Err(
                LoadError::SchemaDrift,
            ),
            schema_matches(old(self).schema@, *b) && !batch_rectangular(*b) ==> r
                == Result::<Vec<String>, LoadError>::Err(LoadError::SourceFormat),
            r is Err ==> *final(self) == *old(self),
            match r {
                Result::Ok(stmts) => {
                    &&& final(self).table == old(self).table
                    &&& final(self).schema == old(self).schema
                    &&& final(self).chunk_size == old(self).chunk_size
                    &&& final(self).inserted == old(self).inserted
                    &&& final(self).statements == old(self).statements
                    &&& final(self).observed == old(self).observed + batch_len(*b)
                    &&& final(self).batch_rows@ == old(self).batch_rows@.push(batch_len(*b) as nat)
                    &&& stmts.len() == chunk_count(batch_len(*b), old(self).chunk_size as int)
                    &&& forall|j: int|
                        0 <= j < stmts.len() ==> (#[trigger] stmts@[j])@ == insert_sql(
                            old(self).table@,
                            batch_rows_sql(*b).subrange(
                                j * old(self).chunk_size,
                                j * old(self).chunk_size + chunk_len(
                                    batch_len(*b),
                                    old(self).chunk_size as int,
                                    j,
                                ),
                            ),
                        )
                },
                Result::Err(e) => e is SchemaDrift || e is SourceFormat || e is UnsupportedValue,
            },
    {
        if !same_schema(&self.schema, b) {
            return Result::Err(LoadError::SchemaDrift);
        }
        if !is_rectangular(b) {
            return Result::Err(LoadError::SourceFormat);
        }
        let m: usize = if b.columns.len() == 0 { 0 } else { b.columns[0].cells.len() };
        let stmts = match batch_statements(self.table.as_str(), b, self.chunk_size) {
            Result::Ok(stmts) => stmts,
            Result::Err(e) => {
                return Result::Err(e);
            },
        };
        self.observed = self.observed + m as u64;
        proof {
            let rows = self.batch_rows@.push(m as nat);
            assert(rows.drop_last() =~= self.batch_rows@);
            self.batch_rows@ = rows;
        }
        Result::Ok(stmts)
    }

    /// Records that one insert statement succeeded and persisted `affected`
    /// rows.
    pub fn record_statement(&mut self, affected: u64)
        requires
            old(self).inserted + affected <= u64::MAX,
            old(self).statements < u64::MAX,
        ensures
            final(self).inserted == old(self).inserted + affected,
            final(self).statements == old(self).statements + 1,
            final(self).observed == old(self).observed,
            final(self).batch_rows == old(self).batch_rows,
            final(self).table == old(self).table,
            final(self).schema == old(self).schema,
            final(self).chunk_size == old(self).chunk_size,
    {
        self.inserted = self.inserted + affected;
        self.statements = self.statements + 1;
    }

    /// The error of a failed insert statement: it names how many statements
    /// had succeeded before it.
    pub fn statement_failed(&self) -> (e: LoadError)
        ensures
            e == (LoadError::StatementExecution { statement: self.statements }),
    {
        LoadError::StatementExecution { statement: self.statements }
    }

    /// Reconciles rows persisted against rows read once every statement has
    /// run: success when they agree, a shortfall error when rows are
    /// missing, an invariant violation when more were reported than read.
    pub fn finish(&self) -> (r: Result<LoadSummary, LoadError>)
        requires
            self.wf(),
        ensures
            r is Ok <==> self.inserted == self.observed,
            match r {
                Result::Ok(s) => s.rows == self.inserted && s.rows as nat == total(self.batch_rows@)
                    && s.statements == self.statements,
                Result::Err(e) => if self.inserted < self.observed {
                    e == (LoadError::PartialInsert { shortfall: (self.observed - self.inserted) as u64 })
                } else {
                    e == (LoadError::InvariantViolation {
                        observed: self.observed,
                        inserted: self.inserted,
                    })
                },
            },
    {
        if self.inserted == self.observed {
            Result::Ok(LoadSummary { rows: self.inserted, statements: self.statements })
        } else if self.inserted < self.observed {
            Result::Err(LoadError::PartialInsert { shortfall: self.observed - self.inserted })
        } else {
            Result::Err(
                LoadError::InvariantViolation { observed: self.observed, inserted: self.inserted },
            )
        }
    }
}

/// A load that every statement of which has run, and whose persisted rows
/// agree with what it read, has persisted exactly the sum of the accepted
/// batches' row counts.
pub proof fn lemma_row_count(l: Load)
    requires
        l.wf(),
        l.inserted == l.observed,
    ensures
        l.inserted as nat == total(l.batch_rows@),
{
}

/// Whether two schemas have the same names and types, in order.
pub open spec fn same_fields(a: Seq<Field>, b: Seq<Field>) -> bool {
    a.len() == b.len() && forall|i: int| 0 <= i < a.len() ==> (#[trigger] a[i]).name@ == b[i].name@
        && a[i].ty == b[i].ty
}

/// Whether two schemas have the same names and types, in order.
pub fn fields_match(a: &Vec<Field>, b: &Vec<Field>) -> (r: bool)
    ensures
        r == same_fields(a@, b@),
{
    if a.len() != b.len() {
        return false;
    }
    let mut i: usize = 0;
    while i < a.len()
        invariant
            a.len() == b.len(),
            i <= a.len(),
            forall|j: int| 0 <= j < i ==> (#[trigger] a@[j]).name@ == b@[j].name@ && a@[j].ty
                == b@[j].ty,
        decreases a.len() - i,
    {
        if !(a[i].name == b[i].name) || !(a[i].ty == b[i].ty) {
            return false;
        }
        assert(a@[i as int].name@ == b@[i as int].name@);
        i = i + 1;
    }
    true
}

/// A load through the destination's bulk-append session: batches go to the
/// session whole, and this tracks what it accepted.
pub struct AppendLoad {
    pub schema: Vec<Field>,
    /// Rows of the batches that the session accepted.
    pub accepted: u64,
    /// Batches that the session accepted.
    pub batches: u64,
}

impl AppendLoad {
    /// Starts an append load of `schema` into `table`, and returns the
    /// statement that creates the table; fails on the first column whose
    /// type has no storage type.
    pub fn start(table: &str, schema: Vec<Field>) -> (r: Result<(AppendLoad, String), LoadError>)
        ensures
            r is Ok <==> schema_mappable(schema@),
            match r {
                Result::Ok((l, create)) => l.schema@ == schema@ && l.accepted == 0 && l.batches == 0
                    && create@ == create_sql(table@, schema@),
                Result::Err(e) => match e {
                    LoadError::SchemaMapping { column, ty } => column < schema.len() && ty
                        == schema@[column as int].ty && storage_of(ty).is_none()
                        && schema_mappable(schema@.take(column as int)),
                    _ => false,
                },
            },
    {
        match first_unmapped(&schema) {
            Option::Some(i) => {
                let ty = schema[i].ty;
                Result::Err(LoadError::SchemaMapping { column: i, ty })
            },
            Option::None => {
                let create = create_statement(table, &schema);
                Result::Ok((AppendLoad { schema, accepted: 0, batches: 0 }, create))
            },
        }
    }

    /// Checks the schema of the next batch before it
    /// goes to the session; a batch whose schema differs is refused.
    pub fn check_batch(&self, fields: &Vec<Field>) -> (r: Result<(), LoadError>)
        ensures
            r is Ok <==> same_fields(self.schema@, fields@),
            r is Err ==> r == Result::<(), LoadError>::Err(LoadError::SchemaDrift),
    {
        if fields_match(&self.schema, fields) {
            Result::Ok(())
        } else {
            Result::Err(LoadError::SchemaDrift)
        }
    }

    /// Records that the session accepted a batch of `rows` rows.
    pub fn accepted_batch(&mut self, rows: u64)
        requires
            old(self).accepted + rows <= u64::MAX,
            old(self).batches < u64::MAX,
        ensures
            final(self).accepted == old(self).accepted + rows,
            final(self).batches == old(self).batches + 1,
            final(self).schema == old(self).schema,
    {
        self.accepted = self.accepted + rows;
        self.batches = self.batches + 1;
    }

    /// The error of a batch that the session refused: it names the batch.
    pub fn rejected_batch(&self) -> (e: LoadError)
        ensures
            e == (LoadError::AppendRejected { batch: self.batches }),
    {
        LoadError::AppendRejected { batch: self.batches }
    }

    /// Reconciles the rows that the finished session reports against the rows
    /// of the accepted batches.
    pub fn finish(&self, reported: u64) -> (r: Result<LoadSummary, LoadError>)
        ensures
            r is Ok <==> reported == self.accepted,
            match r {
                Result::Ok(s) => s.rows == self.accepted && s.statements == self.batches,
                Result::Err(e) => if reported < self.accepted {
                    e == (LoadError::PartialInsert { shortfall: (self.accepted - reported) as u64 })
                } else {
                    e == (LoadError::InvariantViolation { observed: self.accepted, inserted: reported })
                },
            },
    {
        if reported == self.accepted {
            Result::Ok(LoadSummary { rows: self.accepted, statements: self.batches })
        } else if reported < self.accepted {
            Result::Err(LoadError::PartialInsert { shortfall: self.accepted - reported })
        } else {
            Result::Err(LoadError::InvariantViolation { observed: self.accepted, inserted: reported })
        }
    }
}

} // verus!
