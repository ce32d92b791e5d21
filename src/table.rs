//! The table model and the row filter that applies a mask to every column.

use vstd::prelude::*;
use crate::language::{text_equals, Detector};
use crate::mask::{assembled, cell_views, compute_mask, detectable_rows};
use crate::text::{clean_text, normalized};

verus! {

/// The values of one column: the text column's cells, or opaque payload.
pub enum ColumnData<V> {
    Text(Vec<Option<String>>),
    Other(Vec<V>),
}

/// A named column.
pub struct Column<V> {
    pub name: String,
    pub data: ColumnData<V>,
}

/// An ordered collection of named columns; in a well-formed table all have the same length.
pub struct Table<V> {
    pub columns: Vec<Column<V>>,
}

/// Why a table could not be filtered.
pub enum FilterError {
    /// No column has the requested name.
    MissingColumn(String),
    /// The requested column does not hold text.
    NotText(String),
}

impl FilterError {
    /// A readable message that names the offending column.
    pub fn message(&self) -> (r: String)
        ensures
            match self {
                FilterError::MissingColumn(c) => r@ == "Column '"@ + c@ + "' not found"@,
                FilterError::NotText(c) => r@ == "Column '"@ + c@ + "' does not hold text"@,
            },
    {
        match self {
            FilterError::MissingColumn(c) => String::from_str("Column '").concat(c.as_str()).concat(
                "' not found",
            ),
            FilterError::NotText(c) => String::from_str("Column '").concat(c.as_str()).concat(
                "' does not hold text",
            ),
        }
    }
}

/// The number of values of a column.
pub open spec fn data_len<V>(d: ColumnData<V>) -> nat {
    match d {
        ColumnData::Text(v) => v@.len(),
        ColumnData::Other(v) => v@.len(),
    }
}

/// The number of values of a column.
pub fn data_length<V>(d: &ColumnData<V>) -> (r: usize)
    ensures
        r == data_len(*d),
{
    match d {
        ColumnData::Text(v) => v.len(),
        ColumnData::Other(v) => v.len(),
    }
}

impl<V> Table<V> {
    /// All columns have the length of the first.
    pub open spec fn wf(&self) -> bool {
        forall|c: int|
            0 <= c < self.columns@.len() ==> #[trigger] data_len(self.columns@[c].data) == data_len(
                self.columns@[0].data,
            )
    }

    /// The number of rows.
    pub open spec fn height_spec(&self) -> nat {
        if self.columns@.len() == 0 {
            0
        } else {
            data_len(self.columns@[0].data)
        }
    }

    /// Whether all columns have the same length.
    pub fn is_well_formed(&self) -> (r: bool)
        ensures
            r == self.wf(),
    {
        if self.columns.len() == 0 {
            return true;
        }
        let h = data_length(&self.columns[0].data);
        let mut c: usize = 0;
        while c < self.columns.len()
            invariant
                self.columns@.len() > 0,
                h == data_len(self.columns@[0].data),
                c <= self.columns@.len(),
                forall|k: int| 0 <= k < c ==> #[trigger] data_len(self.columns@[k].data) == h,
            decreases self.columns.len() - c,
        {
            if data_length(&self.columns[c].data) != h {
                return false;
            }
            c = c + 1;
        }
        true
    }

    /// The number of rows: the length of the first column, 0 without columns.
    pub fn height(&self) -> (r: usize)
        ensures
            r == self.height_spec(),
    {
        if self.columns.len() == 0 {
            0
        } else {
            data_length(&self.columns[0].data)
        }
    }
}

/// The values at the positions where the mask is true, in their order.
pub open spec fn selected<T>(s: Seq<T>, m: Seq<bool>) -> Seq<T>
    decreases s.len(),
{
    if s.len() == 0 {
        Seq::empty()
    } else {
        let rest = selected(s.drop_last(), m);
        if m[s.len() - 1] {
            rest.push(s.last())
        } else {
            rest
        }
    }
}

/// The number of true entries of a mask.
pub open spec fn count_true(m: Seq<bool>) -> nat {
    m.filter(|b: bool| b).len()
}

/// The new column data is the old one at the masked positions, of the same kind.
pub open spec fn data_selected<V>(old: ColumnData<V>, new: ColumnData<V>, m: Seq<bool>) -> bool {
    match old {
        ColumnData::Text(a) => new matches ColumnData::Text(b) && b@ == selected(a@, m),
        ColumnData::Other(a) => new matches ColumnData::Other(b) && b@ == selected(a@, m),
    }
}

/// The new column is the old one filtered by the mask, or holds the replacement's masked
/// values where one is given; the name is kept.
pub open spec fn column_result<V>(
    old: Column<V>,
    new: Column<V>,
    m: Seq<bool>,
    replacement: Option<Seq<Option<Seq<char>>>>,
) -> bool {
    &&& new.name == old.name
    &&& match replacement {
        Some(r) => new.data matches ColumnData::Text(w) && cell_views(w@) == selected(r, m),
        None => data_selected(old.data, new.data, m),
    }
}

/// The new table is the old one filtered by the mask; where a replacement is given, the
/// column at `i` holds the replacement's masked values instead.
pub open spec fn filtered_as<V>(
    old: Table<V>,
    new: Table<V>,
    i: int,
    m: Seq<bool>,
    replacement: Option<Seq<Option<Seq<char>>>>,
) -> bool {
    &&& new.columns@.len() == old.columns@.len()
    &&& forall|c: int|
        #![trigger new.columns@[c]]
        0 <= c < old.columns@.len() ==> column_result(
            old.columns@[c],
            new.columns@[c],
            m,
            if c == i {
                replacement
            } else {
                None
            },
        )
}

/// The index of the first column with the name.
pub open spec fn is_first_named<V>(cols: Seq<Column<V>>, name: Seq<char>, i: int) -> bool {
    &&& 0 <= i < cols.len()
    &&& cols[i].name@ == name
    &&& forall|j: int| 0 <= j < i ==> (#[trigger] cols[j]).name@ != name
}

/// Some column has the name.
pub open spec fn has_column<V>(cols: Seq<Column<V>>, name: Seq<char>) -> bool {
    exists|i: int| 0 <= i < cols.len() && (#[trigger] cols[i]).name@ == name
}

/// Each present cell normalized; absent cells stay absent.
pub open spec fn normalized_cells(cells: Seq<Option<Seq<char>>>) -> Seq<Option<Seq<char>>> {
    cells.map_values(|c: Option<Seq<char>>| match c {
        Some(s) => Some(normalized(s)),
        None => None,
    })
}

/// The characters of an optional replacement column.
pub open spec fn replacement_view(r: Option<Vec<Option<String>>>) -> Option<Seq<Option<Seq<char>>>> {
    match r {
        Some(v) => Some(cell_views(v@)),
        None => None,
    }
}

proof fn lemma_views_selected(s: Seq<Option<String>>, m: Seq<bool>)
    ensures
        cell_views(selected(s, m)) == selected(cell_views(s), m),
    decreases s.len(),
{
    if s.len() > 0 {
        lemma_views_selected(s.drop_last(), m);
        assert(cell_views(s).drop_last() == cell_views(s.drop_last()));
        let rest = selected(s.drop_last(), m);
        assert(cell_views(rest.push(s.last())) == cell_views(rest).push(cell_views(s).last()));
    }
}

fn reversed<T>(v: Vec<T>) -> (r: Vec<T>)
    ensures
        r.len() == v.len(),
        forall|k: int| 0 <= k < v.len() ==> #[trigger] r@[k] == v@[v.len() - 1 - k],
{
    let ghost v0 = v@;
    let n = v.len();
    let mut v = v;
    let mut rev: Vec<T> = Vec::new();
    while v.len() > 0
        invariant
            n == v0.len(),
            rev.len() <= n,
            v@ == v0.subrange(0, n - rev.len()),
            forall|k: int| 0 <= k < rev.len() ==> #[trigger] rev@[k] == v0[n - 1 - k],
        decreases v.len(),
    {
        let x = v.pop().unwrap();
        rev.push(x);
    }
    rev
}

/// The values at the positions where the mask is true, in their order.
pub fn select_values<T>(values: Vec<T>, mask: &Vec<bool>) -> (r: Vec<T>)
    requires
        values.len() == mask.len(),
    ensures
        r@ == selected(values@, mask@),
{
    let ghost v0 = values@;
    let n = values.len();
    let mut rev = reversed(values);
    let mut out: Vec<T> = Vec::new();
    let mut i: usize = 0;
    while i < n
        invariant
            n == v0.len(),
            n == mask.len(),
            i <= n,
            rev.len() == n - i,
            forall|k: int| 0 <= k < rev.len() ==> #[trigger] rev@[k] == v0[n - 1 - k],
            out@ == selected(v0.subrange(0, i as int), mask@),
        decreases n - i,
    {
        let x = rev.pop().unwrap();
        assert(v0.subrange(0, i + 1).drop_last() == v0.subrange(0, i as int));
        if mask[i] {
            out.push(x);
        }
        i = i + 1;
    }
    assert(v0.subrange(0, n as int) == v0);
    out
}

/// The column's values at the masked positions; the name is kept.
fn select_column<V>(column: Column<V>, mask: &Vec<bool>) -> (r: Column<V>)
    requires
        data_len(column.data) == mask.len(),
    ensures
        r.name == column.name,
        data_selected(column.data, r.data, mask@),
{
    let Column { name, data } = column;
    let data = match data {
        ColumnData::Text(v) => ColumnData::Text(select_values(v, mask)),
        ColumnData::Other(v) => ColumnData::Other(select_values(v, mask)),
    };
    Column { name, data }
}

fn rebuild<V>(
    table: Table<V>,
    mask: &Vec<bool>,
    i: usize,
    replacement: Option<Vec<Option<String>>>,
) -> (r: Table<V>)
    requires
        table.wf(),
        mask.len() == table.height_spec(),
        replacement matches Some(v) ==> v.len() == mask.len(),
    ensures
        filtered_as(
            table,
            r,
            i as int,
            mask@,
            replacement_view(replacement),
        ),
{
    let ghost old_table = table;
    let ghost repl = replacement_view(replacement);
    let n = table.columns.len();
    let mut rev = reversed(table.columns);
    let mut replacement = replacement;
    let mut out: Vec<Column<V>> = Vec::new();
    let mut c: usize = 0;
    while c < n
        invariant
            n == old_table.columns@.len(),
            old_table.wf(),
            mask.len() == old_table.height_spec(),
            c <= n,
            rev.len() == n - c,
            forall|k: int| 0 <= k < rev.len() ==> #[trigger] rev@[k] == old_table.columns@[n - 1 - k],
            out.len() == c,
            c <= i ==> match replacement {
                Some(v) => repl == Some(cell_views(v@)) && v.len() == mask.len(),
                None => repl is None,
            },
            forall|k: int|
                #![trigger out@[k]]
                0 <= k < c ==> column_result(
                    old_table.columns@[k],
                    out@[k],
                    mask@,
                    if k == i {
                        repl
                    } else {
                        None
                    },
                ),
        decreases n - c,
    {
        let ghost before = out@;
        assert(rev@[rev.len() - 1] == old_table.columns@[c as int]);
        let col = rev.pop().unwrap();
        assert(col == old_table.columns@[c as int]);
        assert(data_len(old_table.columns@[c as int].data) == data_len(old_table.columns@[0].data));
        let next = if c == i {
            match replacement.take() {
                Some(v) => {
                    let kept = select_values(v, mask);
                    proof {
                        lemma_views_selected(v@, mask@);
                    }
                    Column { name: col.name, data: ColumnData::Text(kept) }
                },
                None => select_column(col, mask),
            }
        } else {
            select_column(col, mask)
        };
        assert(column_result(
            old_table.columns@[c as int],
            next,
            mask@,
            if c == i {
                repl
            } else {
                None
            },
        ));
        out.push(next);
        assert(forall|k: int| 0 <= k < c ==> out@[k] == before[k]);
        assert(out@[c as int] == next);
        c = c + 1;
    }
    let r = Table { columns: out };
    assert(r.columns@ == out@);
    r
}

/// Finds the first column with the name.
pub fn find_column<V>(table: &Table<V>, name: &str) -> (r: Option<usize>)
    ensures
        match r {
            Some(i) => is_first_named(table.columns@, name@, i as int),
            None => !has_column(table.columns@, name@),
        },
{
    let mut i: usize = 0;
    while i < table.columns.len()
        invariant
            i <= table.columns.len(),
            forall|j: int| 0 <= j < i ==> (#[trigger] table.columns@[j]).name@ != name@,
        decreases table.columns.len() - i,
    {
        if text_equals(table.columns[i].name.as_str(), name) {
            return Some(i);
        }
        i = i + 1;
    }
    None
}

/// Keeps the rows where the mask is true, in every column and in their order.
pub fn apply_mask<V>(table: Table<V>, mask: &Vec<bool>) -> (r: Table<V>)
    requires
        table.wf(),
        mask.len() == table.height_spec(),
    ensures
        r.columns@.len() == table.columns@.len(),
        forall|c: int|
            0 <= c < table.columns@.len() ==> #[trigger] r.columns@[c].name
                == table.columns@[c].name && data_selected(
                table.columns@[c].data,
                r.columns@[c].data,
                mask@,
            ),
        r.wf(),
        table.columns@.len() > 0 ==> r.height_spec() == count_true(mask@),
{
    let r = rebuild(table, mask, 0, None);
    proof {
        assert forall|c: int| 0 <= c < table.columns@.len() implies #[trigger] r.columns@[c].name
            == table.columns@[c].name && data_selected(
            table.columns@[c].data,
            r.columns@[c].data,
            mask@,
        ) by {
            assert(column_result(table.columns@[c], r.columns@[c], mask@, None));
        }
        lemma_filtered_height(table, r, 0, mask@, None);
    }
    r
}

/// Filters a table by a mask; the named column must hold text. Where normalized cells are
/// given, the kept rows of that column take them in place of the old values.
pub fn filter_table<V>(
    table: Table<V>,
    column: &str,
    mask: &Vec<bool>,
    normalized: Option<Vec<Option<String>>>,
) -> (r: Result<Table<V>, FilterError>)
    requires
        table.wf(),
        mask.len() == table.height_spec(),
        normalized matches Some(v) ==> v.len() == mask.len(),
    ensures
        !has_column(table.columns@, column@) ==> (r matches Err(FilterError::MissingColumn(c))
            && c@ == column@),
        forall|i: int|
            #[trigger] is_first_named(table.columns@, column@, i) ==> match table.columns@[i].data {
                ColumnData::Other(_) => r matches Err(FilterError::NotText(c)) && c@ == column@,
                ColumnData::Text(_) => r matches Ok(t) && filtered_as(
                    table,
                    t,
                    i,
                    mask@,
                    replacement_view(normalized),
                ),
            },
{
    match find_column(&table, column) {
        None => Err(FilterError::MissingColumn(String::from_str(column))),
        Some(i) => {
            let textual = match &table.columns[i].data {
                ColumnData::Text(_) => true,
                ColumnData::Other(_) => false,
            };
            if !textual {
                return Err(FilterError::NotText(String::from_str(column)));
            }
            proof {
                lemma_first_named_unique(table.columns@, column@, i as int);
            }
            Ok(rebuild(table, mask, i, normalized))
        },
    }
}

proof fn lemma_first_named_unique<V>(cols: Seq<Column<V>>, name: Seq<char>, i: int)
    requires
        is_first_named(cols, name, i),
    ensures
        forall|j: int| #[trigger] is_first_named(cols, name, j) ==> j == i,
{
    assert forall|j: int| #[trigger] is_first_named(cols, name, j) implies j == i by {
        if j < i {
            assert(cols[j].name@ != name);
        } else if j > i {
            assert(cols[i].name@ != name);
        }
    }
}

/// Normalizes every present cell; absent cells stay absent.
pub fn clean_cells(cells: &Vec<Option<String>>) -> (r: Vec<Option<String>>)
    ensures
        cell_views(r@) == normalized_cells(cell_views(cells@)),
{
    let mut out: Vec<Option<String>> = Vec::new();
    let mut i: usize = 0;
    while i < cells.len()
        invariant
            i <= cells.len(),
            cell_views(out@) == normalized_cells(cell_views(cells@)).subrange(0, i as int),
        decreases cells.len() - i,
    {
        let next = match &cells[i] {
            Some(s) => Some(clean_text(s.as_str())),
            None => None,
        };
        let ghost before = out@;
        out.push(next);
        assert(cell_views(out@) =~= cell_views(before).push(
            normalized_cells(cell_views(cells@))[i as int],
        ));
        i = i + 1;
        assert(cell_views(out@) =~= normalized_cells(cell_views(cells@)).subrange(0, i as int));
    }
    assert(cell_views(out@) =~= normalized_cells(cell_views(cells@)));
    out
}

/// The text cells that the detector judges: normalized where cleaning is asked for.
pub open spec fn processed_cells(cells: Seq<Option<String>>, clean: bool) -> Seq<
    Option<Seq<char>>,
> {
    if clean {
        normalized_cells(cell_views(cells))
    } else {
        cell_views(cells)
    }
}

/// Filters a table by the detected language of its text column. Absent and empty cells
/// follow the keep-empty policy; every other cell goes to the detector once and its row is
/// kept when the detector names the target. With `clean`, the text is normalized before
/// detection and the kept rows carry the normalized text. Every other column keeps its values
/// at the kept rows, in their order.
pub fn filter_by_language<V>(
    table: Table<V>,
    column: &str,
    target: &str,
    keep_empty: bool,
    clean: bool,
    detector: &Detector,
) -> (r: Result<Table<V>, FilterError>)
    requires
        table.wf(),
    ensures
        !has_column(table.columns@, column@) ==> (r matches Err(FilterError::MissingColumn(c))
            && c@ == column@),
        forall|i: int|
            #[trigger] is_first_named(table.columns@, column@, i) ==> match table.columns@[i].data {
                ColumnData::Other(_) => r matches Err(FilterError::NotText(c)) && c@ == column@,
                ColumnData::Text(cells) => {
                    let p = processed_cells(cells@, clean);
                    match r {
                        Ok(t) => exists|outcomes: Seq<Option<String>>|
                            outcomes.len() == detectable_rows(p).len() && filtered_as(
                                table,
                                t,
                                i,
                                assembled(p, outcomes, target@, keep_empty),
                                if clean {
                                    Some(p)
                                } else {
                                    None
                                },
                            ),
                        Err(_) => false,
                    }
                },
            },
{
    let i = match find_column(&table, column) {
        None => return Err(FilterError::MissingColumn(String::from_str(column))),
        Some(i) => i,
    };
    proof {
        lemma_first_named_unique(table.columns@, column@, i as int);
        assert(data_len(table.columns@[i as int].data) == data_len(table.columns@[0].data));
    }
    let ghost p: Seq<Option<Seq<char>>>;
    let (mask, cleaned) = match &table.columns[i].data {
        ColumnData::Other(_) => return Err(FilterError::NotText(String::from_str(column))),
        ColumnData::Text(cells) => {
            proof {
                p = processed_cells(cells@, clean);
            }
            if clean {
                let c = clean_cells(cells);
                let m = compute_mask(detector, &c, target, keep_empty);
                (m, Some(c))
            } else {
                (compute_mask(detector, cells, target, keep_empty), None)
            }
        },
    };
    let ghost outcomes = choose|o: Seq<Option<String>>|
        o.len() == detectable_rows(p).len() && mask@ == assembled(p, o, target@, keep_empty);
    let r = rebuild(table, &mask, i, cleaned);
    assert(filtered_as(
        table,
        r,
        i as int,
        assembled(p, outcomes, target@, keep_empty),
        if clean {
            Some(p)
        } else {
            None
        },
    ));
    Ok(r)
}

proof fn lemma_selected_len<T>(s: Seq<T>, m: Seq<bool>)
    requires
        s.len() <= m.len(),
    ensures
        selected(s, m).len() == count_true(m.subrange(0, s.len() as int)),
    decreases s.len(),
{
    reveal(Seq::filter);
    if s.len() > 0 {
        lemma_selected_len(s.drop_last(), m);
        assert(m.subrange(0, s.len() as int).drop_last() == m.subrange(0, s.len() - 1));
    }
}

/// Filtering keeps exactly as many values as the mask has true entries.
pub proof fn lemma_selected_count<T>(s: Seq<T>, m: Seq<bool>)
    requires
        s.len() == m.len(),
    ensures
        selected(s, m).len() == count_true(m),
{
    lemma_selected_len(s, m);
    assert(m.subrange(0, s.len() as int) == m);
}

/// A filtered table is well formed, and its height is the number of true entries of the
/// mask: never more, never fewer.
pub proof fn lemma_filtered_height<V>(
    old: Table<V>,
    new: Table<V>,
    i: int,
    m: Seq<bool>,
    replacement: Option<Seq<Option<Seq<char>>>>,
)
    requires
        old.wf(),
        m.len() == old.height_spec(),
        replacement matches Some(r) ==> r.len() == m.len(),
        filtered_as(old, new, i, m, replacement),
    ensures
        new.wf(),
        old.columns@.len() > 0 ==> new.height_spec() == count_true(m),
{
    assert forall|c: int| 0 <= c < new.columns@.len() implies #[trigger] data_len(
        new.columns@[c].data,
    ) == count_true(m) by {
        assert(data_len(old.columns@[c].data) == data_len(old.columns@[0].data));
        let rep = if c == i {
            replacement
        } else {
            None
        };
        assert(column_result(old.columns@[c], new.columns@[c], m, rep));
        match rep {
            Some(r) => {
                match new.columns@[c].data {
                    ColumnData::Text(w) => {
                        lemma_selected_count(r, m);
                        assert(cell_views(w@).len() == w@.len());
                    },
                    ColumnData::Other(_) => {},
                }
            },
            None => {
                match old.columns@[c].data {
                    ColumnData::Text(a) => lemma_selected_count(a@, m),
                    ColumnData::Other(a) => lemma_selected_count(a@, m),
                }
            },
        }
    }
}

/// The positions where the mask is true, among the first `n`, in increasing order.
pub open spec fn kept_positions(n: nat, m: Seq<bool>) -> Seq<int> {
    selected(Seq::new(n, |k: int| k), m)
}

/// Filtering keeps order: the `j`-th kept value is the value at the `j`-th kept position,
/// and kept positions strictly increase, so any two kept rows keep their relative order.
pub proof fn lemma_selected_order<T>(s: Seq<T>, m: Seq<bool>)
    requires
        s.len() <= m.len(),
    ensures
        selected(s, m).len() == kept_positions(s.len(), m).len(),
        forall|j: int|
            0 <= j < selected(s, m).len() ==> {
                let p = #[trigger] kept_positions(s.len(), m)[j];
                &&& 0 <= p < s.len()
                &&& m[p]
                &&& selected(s, m)[j] == s[p]
            },
        forall|j1: int, j2: int|
            0 <= j1 < j2 < selected(s, m).len() ==> #[trigger] kept_positions(s.len(), m)[j1]
                < #[trigger] kept_positions(s.len(), m)[j2],
    decreases s.len(),
{
    if s.len() > 0 {
        let n = s.len();
        lemma_selected_order(s.drop_last(), m);
        let ids = Seq::new(n, |k: int| k);
        assert(ids.drop_last() == Seq::new((n - 1) as nat, |k: int| k));
        assert(ids.last() == n - 1);
    }
}

/// Normalization touches the text column alone: with or without a replacement, every other
/// column keeps its name and its values at the kept rows, unchanged.
pub proof fn lemma_other_columns_kept<V>(
    old: Table<V>,
    new: Table<V>,
    i: int,
    m: Seq<bool>,
    replacement: Option<Seq<Option<Seq<char>>>>,
)
    requires
        filtered_as(old, new, i, m, replacement),
    ensures
        forall|c: int|
            0 <= c < old.columns@.len() && c != i ==> #[trigger] new.columns@[c].name
                == old.columns@[c].name && data_selected(
                old.columns@[c].data,
                new.columns@[c].data,
                m,
            ),
{
    assert forall|c: int| 0 <= c < old.columns@.len() && c != i implies #[trigger] new.columns@[
        c
    ].name == old.columns@[c].name && data_selected(
        old.columns@[c].data,
        new.columns@[c].data,
        m,
    ) by {
        assert(column_result(old.columns@[c], new.columns@[c], m, None));
    }
}

} // verus!
