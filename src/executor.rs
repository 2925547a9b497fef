use vstd::prelude::*;
use vstd::string::StringExecFns;
use crate::error::{PlanError, PlanResult};
use crate::plan::SortArguments;
use crate::sort::{is_sort_order, sort_order};

verus! {

/// The context of one execution: the cancellation flag, verbosity, and
/// the labels of the timed operators when profiling is on.
pub struct ExecutionState {
    pub stop: bool,
    pub verbose: bool,
    pub node_timer: bool,
    pub profile: Vec<String>,
}

impl ExecutionState {
    pub fn new(verbose: bool, node_timer: bool) -> (r: Self)
        ensures
            !r.stop,
            r.verbose == verbose,
            r.node_timer == node_timer,
            r.profile@.len() == 0,
    {
        ExecutionState { stop: false, verbose, node_timer, profile: Vec::new() }
    }

    /// Fails with `Cancelled` once the execution has been asked to stop.
    pub fn should_stop(&self) -> (r: PlanResult<()>)
        ensures
            self.stop ==> r == Err::<(), PlanError>(PlanError::Cancelled),
            !self.stop ==> r is Ok,
    {
        if self.stop {
            Err(PlanError::Cancelled)
        } else {
            Ok(())
        }
    }

    /// Asks every operator that has not started yet to stop.
    pub fn cancel(&mut self)
        ensures
            final(self).stop,
            final(self).verbose == old(self).verbose,
            final(self).node_timer == old(self).node_timer,
            final(self).profile@ == old(self).profile@,
    {
        self.stop = true;
    }

    pub fn verbose(&self) -> (r: bool)
        ensures
            r == self.verbose,
    {
        self.verbose
    }

    pub fn has_node_timer(&self) -> (r: bool)
        ensures
            r == self.node_timer,
    {
        self.node_timer
    }

    /// The state for a branch of the plan: the same flags, and a profile of
    /// its own. The tree is run by one synchronous walk that hands the one
    /// state down, so the flag that the branch sees is the flag of the walk
    /// when the branch starts.
    pub fn split(&self) -> (r: Self)
        ensures
            r.stop == self.stop,
            r.verbose == self.verbose,
            r.node_timer == self.node_timer,
            r.profile@.len() == 0,
    {
        ExecutionState {
            stop: self.stop,
            verbose: self.verbose,
            node_timer: self.node_timer,
            profile: Vec::new(),
        }
    }

    /// Records that the operator of this label ran.
    pub fn record(&mut self, name: String)
        ensures
            final(self).profile@ == old(self).profile@.push(name),
            final(self).stop == old(self).stop,
            final(self).verbose == old(self).verbose,
            final(self).node_timer == old(self).node_timer,
    {
        self.profile.push(name);
    }
}

/// A named column of 64-bit integers, with nulls.
pub struct Column {
    pub name: String,
    pub values: Vec<Option<i64>>,
}

/// A batch of columns.
pub struct DataFrame {
    pub columns: Vec<Column>,
}

impl DataFrame {
    /// All columns have one length.
    pub open spec fn is_rectangular(&self) -> bool {
        forall|c: int|
            0 <= c < self.columns@.len() ==> #[trigger] self.columns@[c].values@.len()
                == self.columns@[0].values@.len()
    }

    /// The number of rows.
    pub open spec fn spec_height(&self) -> nat {
        if self.columns@.len() == 0 {
            0
        } else {
            self.columns@[0].values@.len()
        }
    }

    pub fn height(&self) -> (r: usize)
        ensures
            r == self.spec_height(),
    {
        if self.columns.len() == 0 {
            0
        } else {
            self.columns[0].values.len()
        }
    }
}

/// The first column from the `i`-th on with this name.
pub open spec fn find_column(cols: Seq<Column>, name: Seq<char>, i: int) -> Option<int>
    decreases cols.len() - i,
{
    if i < 0 || i >= cols.len() {
        None
    } else if cols[i].name@ == name {
        Some(i)
    } else {
        find_column(cols, name, i + 1)
    }
}

fn column_index(cols: &Vec<Column>, name: &String) -> (r: Option<usize>)
    ensures
        r matches Some(i) ==> find_column(cols@, name@, 0) == Some(i as int),
        r is None ==> find_column(cols@, name@, 0) is None,
{
    let mut i: usize = cols.len();
    let mut found: Option<usize> = None;
    // From the end back, so that the first match is the one kept.
    while i > 0
        invariant
            i <= cols@.len(),
            found matches Some(f) ==> find_column(cols@, name@, i as int) == Some(f as int),
            found is None ==> find_column(cols@, name@, i as int) is None,
        decreases i,
    {
        i = i - 1;
        if cols[i].name == *name {
            found = Some(i);
        }
    }
    found
}

/// The rows `[start, stop)` that a slice `(offset, len)` keeps of `n`
/// rows; a negative offset counts from the end.
pub open spec fn slice_bounds(offset: i64, len: usize, n: nat) -> (int, int) {
    let s: int = if offset < 0 { offset + n } else { offset as int };
    let e: int = s + len;
    let start = if s < 0 { 0 } else if s > n { n as int } else { s };
    let stop = if e < 0 { 0 } else if e > n { n as int } else { e };
    (start, stop)
}

/// The rows `[start, stop)` that a slice keeps (see [`slice_bounds`]).
pub fn slice_offsets(offset: i64, length: usize, array_len: usize) -> (r: (usize, usize))
    ensures
        r.0 as int == slice_bounds(offset, length, array_len as nat).0,
        r.1 as int == slice_bounds(offset, length, array_len as nat).1,
        r.0 <= r.1 <= array_len,
{
    let n = array_len as i128;
    let s: i128 = if offset < 0 { offset as i128 + n } else { offset as i128 };
    let e: i128 = s + length as i128;
    let start: i128 = if s < 0 { 0 } else if s > n { n } else { s };
    let stop: i128 = if e < 0 { 0 } else if e > n { n } else { e };
    (start as usize, stop as usize)
}

/// The label of an operator in a profile: `name(a, b)`.
pub open spec fn joined(items: Seq<Seq<char>>) -> Seq<char>
    decreases items.len(),
{
    if items.len() == 0 {
        Seq::empty()
    } else if items.len() == 1 {
        items[0]
    } else {
        joined(items.drop_last()) + ", "@ + items.last()
    }
}

/// The label `name(a, b, ...)` of an operator over the given columns.
pub fn comma_delimited(s: String, items: &Vec<String>) -> (r: String)
    ensures
        r@ == s@ + "("@ + joined(items@.map_values(|x: String| x@)) + ")"@,
{
    let ghost names = items@.map_values(|x: String| x@);
    let mut body = String::from_str("");
    let mut i: usize = 0;
    proof {
        reveal_strlit("");
    }
    while i < items.len()
        invariant
            i <= items@.len(),
            names == items@.map_values(|x: String| x@),
            body@ == joined(names.subrange(0, i as int)),
        decreases items@.len() - i,
    {
        if i > 0 {
            body.append(", ");
        }
        body.append(items[i].as_str());
        proof {
            let sub = names.subrange(0, i as int + 1);
            assert(sub.drop_last() =~= names.subrange(0, i as int));
            if i == 0 {
                assert(body@ =~= joined(sub));
            }
        }
        i = i + 1;
    }
    proof {
        assert(names.subrange(0, items@.len() as int) =~= names);
    }
    let mut out = s;
    out.append("(");
    out.append(body.as_str());
    out.append(")");
    out
}

/// Every sort key names a column of the frame.
pub open spec fn keys_found(cols: Seq<Column>, by: Seq<String>) -> bool {
    forall|k: int| 0 <= k < by.len() ==> #[trigger] find_column(cols, by[k]@, 0) is Some
}

/// The values of the sort keys: those of the first column of each name.
pub open spec fn key_values(cols: Seq<Column>, by: Seq<String>) -> Seq<Seq<Option<i64>>> {
    by.map_values(|n: String| cols[find_column(cols, n@, 0)->Some_0].values@)
}

/// The rows that a slice keeps of an order; all of them with no slice.
pub open spec fn sliced(order: Seq<usize>, slice: Option<(i64, usize)>) -> Seq<usize> {
    match slice {
        None => order,
        Some((offset, len)) => order.subrange(
            slice_bounds(offset, len, order.len()).0,
            slice_bounds(offset, len, order.len()).1,
        ),
    }
}

/// `out` holds, column by column, the rows `rows` of `df`.
pub open spec fn takes_rows(out: DataFrame, df: DataFrame, rows: Seq<usize>) -> bool {
    &&& out.columns@.len() == df.columns@.len()
    &&& forall|c: int|
        0 <= c < df.columns@.len() ==> {
            &&& (#[trigger] out.columns@[c]).name@ == df.columns@[c].name@
            &&& out.columns@[c].values@ == rows.map_values(
                |r: usize| df.columns@[c].values@[r as int],
            )
        }
}

fn copy_values(v: &Vec<Option<i64>>) -> (r: Vec<Option<i64>>)
    ensures
        r@ == v@,
{
    let mut out: Vec<Option<i64>> = Vec::new();
    let mut i: usize = 0;
    while i < v.len()
        invariant
            i <= v@.len(),
            out@ == v@.subrange(0, i as int),
        decreases v@.len() - i,
    {
        out.push(v[i]);
        i = i + 1;
    }
    proof {
        assert(out@ =~= v@);
    }
    out
}

fn gather(v: &Vec<Option<i64>>, rows: &Vec<usize>) -> (r: Vec<Option<i64>>)
    requires
        forall|k: int| 0 <= k < rows@.len() ==> #[trigger] rows@[k] < v@.len(),
    ensures
        r@ == rows@.map_values(|q: usize| v@[q as int]),
{
    let mut out: Vec<Option<i64>> = Vec::new();
    let mut i: usize = 0;
    while i < rows.len()
        invariant
            i <= rows@.len(),
            forall|k: int| 0 <= k < rows@.len() ==> #[trigger] rows@[k] < v@.len(),
            out@.len() == i,
            forall|k: int| 0 <= k < i ==> #[trigger] out@[k] == v@[rows@[k] as int],
        decreases rows@.len() - i,
    {
        out.push(v[rows[i]]);
        i = i + 1;
    }
    proof {
        assert(out@ =~= rows@.map_values(|q: usize| v@[q as int]));
    }
    out
}

/// What sorting `df` by the key columns `by` under `args` yields: a stop
/// when the execution is cancelled; an error when a key column is missing,
/// the flags do not match the keys, or the columns differ in length; else
/// the rows in a stable sorted order (see [`is_sort_order`]), then the
/// slice of the arguments.
pub open spec fn sort_outcome(
    by: Seq<String>,
    args: SortArguments,
    stop: bool,
    df: DataFrame,
    r: PlanResult<DataFrame>,
) -> bool {
    &&& stop ==> r == Err::<DataFrame, PlanError>(PlanError::Cancelled)
    &&& !stop && !(keys_found(df.columns@, by) && args.descending@.len() == by.len()
        && df.is_rectangular()) ==> r == Err::<DataFrame, PlanError>(PlanError::ComputeError)
    &&& !stop && keys_found(df.columns@, by) && args.descending@.len() == by.len()
        && df.is_rectangular() ==> (r matches Ok(out) && exists|order: Seq<usize>|
        is_sort_order(
            key_values(df.columns@, by),
            args.descending@,
            args.nulls_last,
            df.spec_height(),
            order,
        ) && takes_rows(out, df, sliced(order, args.slice)))
}

/// Two lists of columns with the same names and values, in order.
pub open spec fn same_columns(a: Seq<Column>, b: Seq<Column>) -> bool {
    &&& a.len() == b.len()
    &&& forall|c: int|
        0 <= c < a.len() ==> (#[trigger] a[c]).name@ == b[c].name@ && a[c].values@ == b[c].values@
}

proof fn lemma_find_column_same(a: Seq<Column>, b: Seq<Column>, name: Seq<char>, i: int)
    requires
        same_columns(a, b),
    ensures
        find_column(a, name, i) == find_column(b, name, i),
    decreases a.len() - i,
{
    if 0 <= i < a.len() {
        assert(a[i].name@ == b[i].name@);
        lemma_find_column_same(a, b, name, i + 1);
    }
}

/// Sorting depends on the names and values of the columns alone.
proof fn lemma_sort_outcome_same(
    by: Seq<String>,
    args: SortArguments,
    stop: bool,
    a: DataFrame,
    b: DataFrame,
    r: PlanResult<DataFrame>,
)
    requires
        same_columns(a.columns@, b.columns@),
    ensures
        sort_outcome(by, args, stop, a, r) == sort_outcome(by, args, stop, b, r),
{
    assert forall|k: int| 0 <= k < by.len() implies #[trigger] find_column(a.columns@, by[k]@, 0)
        == find_column(b.columns@, by[k]@, 0) by {
        lemma_find_column_same(a.columns@, b.columns@, by[k]@, 0);
    }
    if keys_found(a.columns@, by) {
        assert forall|k: int| 0 <= k < by.len() implies #[trigger] find_column(b.columns@, by[k]@, 0) is Some by {
            lemma_find_column_same(a.columns@, b.columns@, by[k]@, 0);
        }
    }
    if keys_found(b.columns@, by) {
        assert forall|k: int| 0 <= k < by.len() implies #[trigger] find_column(a.columns@, by[k]@, 0) is Some by {
            lemma_find_column_same(a.columns@, b.columns@, by[k]@, 0);
        }
    }
    if keys_found(a.columns@, by) {
        assert forall|k: int| 0 <= k < by.len() implies #[trigger] key_values(a.columns@, by)[k]
            == key_values(b.columns@, by)[k] by {
            lemma_find_column_same(a.columns@, b.columns@, by[k]@, 0);
            lemma_find_column_bounds(a.columns@, by[k]@, 0);
        }
        assert(key_values(a.columns@, by) =~= key_values(b.columns@, by));
    }
    if a.is_rectangular() {
        assert forall|c: int| 0 <= c < b.columns@.len() implies #[trigger] b.columns@[c].values@.len()
            == b.columns@[0].values@.len() by {
            assert(a.columns@[c].values@ == b.columns@[c].values@);
            assert(a.columns@[0].values@ == b.columns@[0].values@);
        }
    }
    if b.is_rectangular() {
        assert forall|c: int| 0 <= c < a.columns@.len() implies #[trigger] a.columns@[c].values@.len()
            == a.columns@[0].values@.len() by {
            assert(a.columns@[c].values@ == b.columns@[c].values@);
            assert(a.columns@[0].values@ == b.columns@[0].values@);
        }
    }
    assert(a.spec_height() == b.spec_height());
    assert forall|out: DataFrame, rows: Seq<usize>| #[trigger] takes_rows(out, a, rows) == takes_rows(out, b, rows) by {
        if takes_rows(out, a, rows) {
            assert forall|c: int| 0 <= c < b.columns@.len() implies {
                &&& (#[trigger] out.columns@[c]).name@ == b.columns@[c].name@
                &&& out.columns@[c].values@ == rows.map_values(|q: usize| b.columns@[c].values@[q as int])
            } by {
                assert(out.columns@[c].values@ =~= rows.map_values(|q: usize| b.columns@[c].values@[q as int]));
            }
        }
        if takes_rows(out, b, rows) {
            assert forall|c: int| 0 <= c < a.columns@.len() implies {
                &&& (#[trigger] out.columns@[c]).name@ == a.columns@[c].name@
                &&& out.columns@[c].values@ == rows.map_values(|q: usize| a.columns@[c].values@[q as int])
            } by {
                assert(out.columns@[c].values@ =~= rows.map_values(|q: usize| a.columns@[c].values@[q as int]));
            }
        }
    }
}

/// Sorts the batch that its input produces.
pub struct SortExec {
    pub input: Box<Executor>,
    /// The names of the key columns.
    pub by_column: Vec<String>,
    pub args: SortArguments,
}

impl SortExec {
    /// Sorts `df` by the key columns, each ascending or descending as its
    /// flag says, nulls first or last, rows with equal keys in their
    /// order, then keeps the slice of the arguments if there is one.
    pub fn execute_impl(&self, state: &ExecutionState, df: DataFrame) -> (r: PlanResult<DataFrame>)
        ensures
            sort_outcome(self.by_column@, self.args, state.stop, df, r),
    {
        state.should_stop()?;
        if self.args.descending.len() != self.by_column.len() {
            return Err(PlanError::ComputeError);
        }
        let n = df.height();
        let mut c: usize = 0;
        while c < df.columns.len()
            invariant
                c <= df.columns@.len(),
                !state.stop,
                self.args.descending@.len() == self.by_column@.len(),
                n == df.spec_height(),
                forall|q: int| 0 <= q < c ==> #[trigger] df.columns@[q].values@.len() == n,
            decreases df.columns@.len() - c,
        {
            if df.columns[c].values.len() != n {
                return Err(PlanError::ComputeError);
            }
            c = c + 1;
        }
        let mut keys: Vec<Vec<Option<i64>>> = Vec::new();
        let mut k: usize = 0;
        while k < self.by_column.len()
            invariant
                k <= self.by_column@.len(),
                !state.stop,
                self.args.descending@.len() == self.by_column@.len(),
                n == df.spec_height(),
                df.is_rectangular(),
                keys@.len() == k,
                forall|q: int| 0 <= q < k ==> #[trigger] find_column(df.columns@, self.by_column@[q]@, 0) is Some,
                forall|q: int| 0 <= q < k ==> #[trigger] keys@[q]@ == key_values(df.columns@, self.by_column@)[q],
            decreases self.by_column@.len() - k,
        {
            let idx = match column_index(&df.columns, &self.by_column[k]) {
                Some(i) => i,
                None => {
                    return Err(PlanError::ComputeError);
                },
            };
            proof {
                lemma_find_column_bounds(df.columns@, self.by_column@[k as int]@, 0);
            }
            keys.push(copy_values(&df.columns[idx].values));
            k = k + 1;
        }
        let ghost ks = keys@.map_values(|v: Vec<Option<i64>>| v@);
        proof {
            assert(ks =~= key_values(df.columns@, self.by_column@));
            assert forall|q: int| 0 <= q < keys@.len() implies #[trigger] keys@[q]@.len() >= n by {
                let i = find_column(df.columns@, self.by_column@[q]@, 0)->Some_0;
                lemma_find_column_bounds(df.columns@, self.by_column@[q]@, 0);
                assert(df.columns@[i].values@.len() == df.columns@[0].values@.len());
            }
        }
        let order = sort_order(&keys, &self.args.descending, self.args.nulls_last, n);
        let rows = match self.args.slice {
            None => order,
            Some((offset, len)) => {
                let (start, stop) = slice_offsets(offset, len, n);
                let mut part: Vec<usize> = Vec::new();
                let mut i: usize = start;
                while i < stop
                    invariant
                        start <= i <= stop <= n,
                        order@.len() == n,
                        part@ == order@.subrange(start as int, i as int),
                    decreases stop - i,
                {
                    part.push(order[i]);
                    i = i + 1;
                }
                part
            },
        };
        let mut out: Vec<Column> = Vec::new();
        let mut c: usize = 0;
        while c < df.columns.len()
            invariant
                c <= df.columns@.len(),
                n == df.spec_height(),
                df.is_rectangular(),
                rows@ == sliced(order@, self.args.slice),
                forall|q: int| 0 <= q < n ==> #[trigger] order@[q] < n,
                order@.len() == n,
                out@.len() == c,
                forall|q: int|
                    0 <= q < c ==> {
                        &&& (#[trigger] out@[q]).name@ == df.columns@[q].name@
                        &&& out@[q].values@ == rows@.map_values(
                            |r: usize| df.columns@[q].values@[r as int],
                        )
                    },
            decreases df.columns@.len() - c,
        {
            proof {
                assert forall|q: int| 0 <= q < rows@.len() implies #[trigger] rows@[q] < df.columns@[c as int].values@.len() by {
                    match self.args.slice {
                        None => {},
                        Some((offset, len)) => {
                            let b = slice_bounds(offset, len, n as nat);
                            assert(rows@[q] == order@[b.0 + q]);
                        },
                    }
                }
            }
            let values = gather(&df.columns[c].values, &rows);
            let name = df.columns[c].name.clone();
            out.push(Column { name, values });
            c = c + 1;
        }
        let result = DataFrame { columns: out };
        proof {
            assert(takes_rows(result, df, sliced(order@, self.args.slice)));
        }
        Ok(result)
    }
}

proof fn lemma_find_column_bounds(cols: Seq<Column>, name: Seq<char>, i: int)
    ensures
        find_column(cols, name, i) matches Some(j) ==> 0 <= j < cols.len() && cols[j].name@ == name,
    decreases cols.len() - i,
{
    if 0 <= i < cols.len() && cols[i].name@ != name {
        lemma_find_column_bounds(cols, name, i + 1);
    }
}

/// A physical operator: it pulls the batches of its inputs and produces one.
pub enum Executor {
    /// A batch that is already there.
    DataFrame(DataFrame),
    Sort(SortExec),
}

/// A copy of the batch.
pub fn copy_frame(df: &DataFrame) -> (r: DataFrame)
    ensures
        r.columns@.len() == df.columns@.len(),
        forall|c: int|
            0 <= c < df.columns@.len() ==> (#[trigger] r.columns@[c]).name@ == df.columns@[c].name@
                && r.columns@[c].values@ == df.columns@[c].values@,
{
    let mut out: Vec<Column> = Vec::new();
    let mut c: usize = 0;
    while c < df.columns.len()
        invariant
            c <= df.columns@.len(),
            out@.len() == c,
            forall|q: int|
                0 <= q < c ==> (#[trigger] out@[q]).name@ == df.columns@[q].name@
                    && out@[q].values@ == df.columns@[q].values@,
        decreases df.columns@.len() - c,
    {
        let name = df.columns[c].name.clone();
        out.push(Column { name, values: copy_values(&df.columns[c].values) });
        c = c + 1;
    }
    DataFrame { columns: out }
}

/// What running the operator tree `e`, of depth at most `depth`, may
/// give, the cancellation flag being `stop`: a batch leaf gives its
/// columns, or `Cancelled`; a sort gives its input's error, or the outcome
/// of sorting its input's batch (see [`sort_outcome`]).
pub open spec fn executes(e: Executor, stop: bool, r: PlanResult<DataFrame>, depth: nat) -> bool
    decreases depth, 1int,
{
    if depth == 0 {
        false
    } else {
        match e {
            Executor::DataFrame(df) => if stop {
                r == Err::<DataFrame, PlanError>(PlanError::Cancelled)
            } else {
                r matches Ok(out) && same_columns(out.columns@, df.columns@)
            },
            Executor::Sort(s) => sorts_input(s, stop, r, (depth - 1) as nat),
        }
    }
}

/// A result of running an input.
pub open spec fn input_result(r: PlanResult<DataFrame>) -> bool {
    true
}

/// The depth of an operator tree.
pub open spec fn exec_depth(e: Executor) -> nat
    decreases e,
{
    match e {
        Executor::DataFrame(_) => 1,
        Executor::Sort(s) => exec_depth(*s.input) + 1,
    }
}

/// What running a sort may give: its input's error, or the outcome of
/// sorting its input's batch, the input being of depth at most `depth`.
pub open spec fn sorts_input(s: SortExec, stop: bool, r: PlanResult<DataFrame>, depth: nat) -> bool
    decreases depth, 2int,
{
    exists|ri: PlanResult<DataFrame>|
        #[trigger] input_result(ri) && executes(*s.input, stop, ri, depth) && match ri {
            Err(e) => r == Err::<DataFrame, PlanError>(e),
            Ok(df) => sort_outcome(s.by_column@, s.args, stop, df, r),
        }
}

impl Executor {
    /// Runs the operator tree and returns its batch. Every operator first
    /// checks the cancellation flag.
    pub fn execute(&self, state: &mut ExecutionState) -> (r: PlanResult<DataFrame>)
        ensures
            old(state).stop ==> r == Err::<DataFrame, PlanError>(PlanError::Cancelled),
            final(state).stop == old(state).stop,
            final(state).node_timer == old(state).node_timer,
            self is DataFrame ==> final(state).profile@ == old(state).profile@,
            executes(*self, old(state).stop, r, exec_depth(*self)),
            self is Sort && *self->Sort_0.input is DataFrame ==> sort_outcome(
                self->Sort_0.by_column@,
                self->Sort_0.args,
                old(state).stop,
                self->Sort_0.input->DataFrame_0,
                r,
            ),
            self is DataFrame && !old(state).stop ==> (r matches Ok(out)
                && out.columns@.len() == self->DataFrame_0.columns@.len() && forall|c: int|
                0 <= c < out.columns@.len() ==> (#[trigger] out.columns@[c]).name@
                    == self->DataFrame_0.columns@[c].name@ && out.columns@[c].values@
                    == self->DataFrame_0.columns@[c].values@),
        decreases self,
    {
        match self {
            Executor::DataFrame(df) => {
                state.should_stop()?;
                let out = copy_frame(df);
                proof {
                    assert(same_columns(out.columns@, df.columns@));
                    assert(executes(*self, old(state).stop, Ok::<DataFrame, PlanError>(out), exec_depth(*self)));
                }
                Ok(out)
            },
            Executor::Sort(exec) => {
                let r = exec.execute(state);
                proof {
                    assert(*self == Executor::Sort(*exec));
                    assert(exec_depth(*self) == exec_depth(*exec.input) + 1);
                }
                r
            },
        }
    }
}

impl SortExec {
    /// Runs the input, then sorts its batch (see `execute_impl`); with
    /// profiling on, records the label `sort(<key columns>)`.
    pub fn execute(&self, state: &mut ExecutionState) -> (r: PlanResult<DataFrame>)
        ensures
            old(state).stop ==> r == Err::<DataFrame, PlanError>(PlanError::Cancelled),
            final(state).stop == old(state).stop,
            final(state).node_timer == old(state).node_timer,
            sorts_input(*self, old(state).stop, r, exec_depth(*self.input)),
            *self.input is DataFrame ==> sort_outcome(
                self.by_column@,
                self.args,
                old(state).stop,
                self.input->DataFrame_0,
                r,
            ),
            *self.input is DataFrame && !old(state).stop && old(state).node_timer ==> (final(state).profile@.len()
                == old(state).profile@.len() + 1 && final(state).profile@.drop_last()
                == old(state).profile@ && final(state).profile@.last()@ == "sort"@ + "("@
                + joined(self.by_column@.map_values(|x: String| x@)) + ")"@),
            *self.input is DataFrame && !old(state).node_timer ==> final(state).profile@
                == old(state).profile@,
        decreases self,
    {
        let ghost stop0 = state.stop;
        let df = match self.input.execute(state) {
            Ok(df) => df,
            Err(e) => {
                proof {
                    let ri = Err::<DataFrame, PlanError>(e);
                    assert(executes(*self.input, stop0, ri, exec_depth(*self.input)));
                    assert(input_result(ri));
                    assert(sorts_input(*self, stop0, Err::<DataFrame, PlanError>(e), exec_depth(*self.input)));
                }
                return Err(e);
            },
        };
        let ghost input_df = df;
        proof {
            assert(executes(*self.input, stop0, Ok::<DataFrame, PlanError>(df), exec_depth(*self.input)));
        }
        let r = if state.has_node_timer() {
            let profile_name = comma_delimited(String::from_str("sort"), &self.by_column);
            let r = self.execute_impl(state, df);
            state.record(profile_name);
            r
        } else {
            self.execute_impl(state, df)
        };
        proof {
            if *self.input is DataFrame {
                lemma_sort_outcome_same(
                    self.by_column@,
                    self.args,
                    old(state).stop,
                    input_df,
                    self.input->DataFrame_0,
                    r,
                );
            }
            let ri = Ok::<DataFrame, PlanError>(input_df);
            assert(stop0 == old(state).stop);
            assert(sort_outcome(self.by_column@, self.args, stop0, input_df, r));
            assert(executes(*self.input, stop0, ri, exec_depth(*self.input)));
            assert(input_result(ri));
        }
        r
    }
}

} // verus!
