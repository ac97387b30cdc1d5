//! Datasets: descriptions of training data in one of three forms, and what the native
//! engine is asked to do to load one.
use vstd::prelude::*;
use crate::error::{ErrorKind, LgbmError};
use crate::matrix::{
    check_dimensions, copy_range, fits_native, flat, flatten, is_well_formed, matrix_shape,
    rows_of,
};

verus! {

/// One named column of a table; `None` marks a missing cell.
#[derive(Debug)]
pub struct Column<T> {
    pub name: String,
    pub values: Vec<Option<T>>,
}

/// A table of named columns, each holding one value per sample.
#[derive(Debug)]
pub struct Frame<T> {
    pub columns: Vec<Column<T>>,
}

/// The columns of a table, each as its name and its cells.
pub open spec fn frame_view<T>(f: Frame<T>) -> Seq<(Seq<char>, Seq<Option<T>>)> {
    columns_view(f.columns@)
}

/// Each column as its name and its cells.
pub open spec fn columns_view<T>(cs: Seq<Column<T>>) -> Seq<(Seq<char>, Seq<Option<T>>)> {
    cs.map_values(|c: Column<T>| (c.name@, c.values@))
}

/// The index of the first column called `name`.
pub open spec fn column_index<T>(cols: Seq<(Seq<char>, Seq<Option<T>>)>, name: Seq<char>) -> Option<int>
    decreases cols.len(),
{
    if cols.len() == 0 {
        None
    } else {
        match column_index(cols.drop_last(), name) {
            Some(i) => Some(i),
            None => if cols.last().0 == name {
                Some(cols.len() - 1)
            } else {
                None
            },
        }
    }
}

/// Every column has `height` cells.
pub open spec fn same_height<T>(cols: Seq<(Seq<char>, Seq<Option<T>>)>, height: int) -> bool {
    forall|c: int| 0 <= c < cols.len() ==> (#[trigger] cols[c]).1.len() == height
}

/// No cell of any column is missing.
pub open spec fn no_missing<T>(cols: Seq<(Seq<char>, Seq<Option<T>>)>) -> bool {
    forall|c: int, r: int|
        0 <= c < cols.len() && 0 <= r < cols[c].1.len() ==> (#[trigger] cols[c].1[r]) is Some
}

/// The columns other than the one at `label`, in their order.
pub open spec fn feature_columns<T>(cols: Seq<(Seq<char>, Seq<Option<T>>)>, label: int) -> Seq<
    (Seq<char>, Seq<Option<T>>),
> {
    cols.take(label) + cols.skip(label + 1)
}

/// The values of sample `r` across `cols`.
pub open spec fn sample<T>(cols: Seq<(Seq<char>, Seq<Option<T>>)>, r: int) -> Seq<T> {
    cols.map_values(|col: (Seq<char>, Seq<Option<T>>)| col.1[r]->Some_0)
}

/// The feature matrix of a convertible table whose label column is at `label`.
pub open spec fn frame_matrix<T>(cols: Seq<(Seq<char>, Seq<Option<T>>)>, label: int) -> Seq<Seq<T>> {
    Seq::new(cols[label].1.len(), |s: int| sample(feature_columns(cols, label), s))
}

/// The value in each cell of one column.
pub open spec fn present<T>(cells: Seq<Option<T>>) -> Seq<T> {
    cells.map_values(|o: Option<T>| o->Some_0)
}

/// A table can be turned into a matrix and labels: it has the label column, all columns
/// have the same height, and no cell is missing.
pub open spec fn frame_convertible<T>(cols: Seq<(Seq<char>, Seq<Option<T>>)>, label: Seq<char>) -> bool {
    &&& column_index(cols, label) is Some
    &&& same_height(cols, cols[column_index(cols, label)->Some_0].1.len() as int)
    &&& no_missing(cols)
}

/// The error kind for a table that cannot be converted: a missing label column or a
/// missing cell is a configuration problem, columns of different heights a dimension one.
pub open spec fn frame_error_kind<T>(cols: Seq<(Seq<char>, Seq<Option<T>>)>, label: Seq<char>) -> ErrorKind {
    if column_index(cols, label) is Some && !same_height(
        cols,
        cols[column_index(cols, label)->Some_0].1.len() as int,
    ) {
        ErrorKind::Dimension
    } else {
        ErrorKind::Configuration
    }
}

proof fn lemma_column_index<T>(cols: Seq<(Seq<char>, Seq<Option<T>>)>, name: Seq<char>, i: int)
    requires
        0 <= i <= cols.len(),
        forall|k: int| 0 <= k < i ==> (#[trigger] cols[k]).0 != name,
    ensures
        i < cols.len() && cols[i].0 == name ==> column_index(cols, name) == Some(i),
        i == cols.len() ==> column_index(cols, name) is None,
    decreases cols.len(),
{
    if cols.len() > 0 {
        if i < cols.len() {
            if i < cols.len() - 1 {
                lemma_column_index(cols.drop_last(), name, i);
            } else {
                lemma_column_index(cols.drop_last(), name, i);
            }
        } else {
            assert forall|k: int| 0 <= k < i - 1 implies (#[trigger] cols.drop_last()[k]).0 != name by {
                assert(cols.drop_last()[k] == cols[k]);
            }
            lemma_column_index(cols.drop_last(), name, i - 1);
        }
    }
}

/// Splits a table into a row-major feature matrix (the columns other than `label_column`,
/// in their order) and the label vector. Fails when the label column is absent, when
/// columns differ in height, or when any cell is missing.
pub fn frame_to_mat<T: Copy>(frame: &Frame<T>, label_column: &str) -> (r: Result<(Vec<Vec<T>>, Vec<T>), LgbmError>)
    ensures
        r is Ok <==> frame_convertible(frame_view(*frame), label_column@),
        r matches Ok(p) ==> ({
            let cols = frame_view(*frame);
            let li = column_index(cols, label_column@)->Some_0;
            &&& p.1@ == present(cols[li].1)
            &&& rows_of(p.0@) == frame_matrix(cols, li)
        }),
        r matches Err(e) ==> e.kind == frame_error_kind(frame_view(*frame), label_column@),
{
    let ghost cols = frame_view(*frame);
    let n = frame.columns.len();
    let wanted = label_column.to_owned();
    let mut li: usize = 0;
    while li < n && frame.columns[li].name != wanted
        invariant
            n == cols.len(),
            frame_view(*frame) == cols,
            wanted@ == label_column@,
            li <= n,
            forall|k: int| 0 <= k < li ==> (#[trigger] cols[k]).0 != label_column@,
        decreases n - li,
    {
        proof {
            assert(cols[li as int].0 == frame.columns@[li as int].name@);
        }
        li += 1;
    }
    proof {
        lemma_column_index(cols, label_column@, li as int);
    }
    if li == n {
        return Err(LgbmError::new(ErrorKind::Configuration, String::from_str("label column not found")));
    }
    let height = frame.columns[li].values.len();
    proof {
        assert(cols[li as int].1 == frame.columns@[li as int].values@);
    }
    let mut c: usize = 0;
    while c < n
        invariant
            column_index(cols, label_column@) == Some(li as int),
            li < n,
            height == cols[li as int].1.len(),
            n == cols.len(),
            frame_view(*frame) == cols,
            c <= n,
            forall|k: int| 0 <= k < c ==> (#[trigger] cols[k]).1.len() == height,
        decreases n - c,
    {
        proof {
            assert(cols[c as int].1 == frame.columns@[c as int].values@);
        }
        if frame.columns[c].values.len() != height {
            proof {
                assert(cols[c as int].1.len() != height);
            }
            return Err(LgbmError::new(ErrorKind::Dimension, String::from_str("columns differ in height")));
        }
        c += 1;
    }
    c = 0;
    while c < n
        invariant
            column_index(cols, label_column@) == Some(li as int),
            li < n,
            height == cols[li as int].1.len(),
            n == cols.len(),
            frame_view(*frame) == cols,
            same_height(cols, height as int),
            c <= n,
            forall|k: int, s: int| 0 <= k < c && 0 <= s < height ==> (#[trigger] cols[k].1[s]) is Some,
        decreases n - c,
    {
        let cells = &frame.columns[c].values;
        proof {
            assert(cols[c as int].1 == cells@);
        }
        let mut s: usize = 0;
        while s < height
            invariant
                column_index(cols, label_column@) == Some(li as int),
                li < n,
                height == cols[li as int].1.len(),
                same_height(cols, height as int),
                frame_view(*frame) == cols,
                cols[c as int].1 == cells@,
                cells@.len() == height,
                c < n,
                n == cols.len(),
                s <= height,
                forall|k: int, t: int| 0 <= k < c && 0 <= t < height ==> (#[trigger] cols[k].1[t]) is Some,
                forall|t: int| 0 <= t < s ==> (#[trigger] cols[c as int].1[t]) is Some,
            decreases height - s,
        {
            if cells[s].is_none() {
                proof {
                    assert(cols[c as int].1.len() == height);
                    assert(cols[c as int].1[s as int] is None);
                    assert(!no_missing(cols));
                }
                return Err(LgbmError::new(ErrorKind::Configuration, String::from_str("Cannot create a dataset with null values")));
            }
            s += 1;
        }
        c += 1;
    }
    let label_cells = &frame.columns[li].values;
    let mut labels: Vec<T> = Vec::new();
    let mut s: usize = 0;
    while s < height
        invariant
            cols[li as int].1 == label_cells@,
            label_cells@.len() == height,
            li < n,
            n == cols.len(),
            s <= height,
            no_missing(cols),
            labels@ == present(label_cells@.take(s as int)),
        decreases height - s,
    {
        let v = label_cells[s].unwrap();
        proof {
            assert(present(label_cells@.take(s + 1)) =~= present(label_cells@.take(s as int)).push(v));
        }
        labels.push(v);
        s += 1;
    }
    proof {
        assert(label_cells@.take(s as int) =~= label_cells@);
    }
    let ghost features = feature_columns(cols, li as int);
    let mut x: Vec<Vec<T>> = Vec::new();
    let mut r: usize = 0;
    while r < height
        invariant
            n == cols.len(),
            frame_view(*frame) == cols,
            li < n,
            features == feature_columns(cols, li as int),
            same_height(cols, height as int),
            no_missing(cols),
            r <= height,
            x@.len() == r,
            forall|t: int| 0 <= t < r ==> #[trigger] x@[t]@ == sample(features, t),
        decreases height - r,
    {
        let mut row: Vec<T> = Vec::new();
        let mut k: usize = 0;
        while k < n
            invariant
                n == cols.len(),
                frame_view(*frame) == cols,
                li < n,
                r < height,
                same_height(cols, height as int),
                no_missing(cols),
                k <= n,
                row@ == (if k <= li {
                    sample(cols.take(k as int), r as int)
                } else {
                    sample(cols.take(li as int), r as int) + sample(cols.subrange(li + 1, k as int), r as int)
                }),
            decreases n - k,
        {
            if k != li {
                proof {
                    assert(cols[k as int].1 == frame.columns@[k as int].values@);
                    assert(cols[k as int].1[r as int] is Some);
                }
                let v = frame.columns[k].values[r].unwrap();
                proof {
                    if k < li {
                        assert(sample(cols.take(k + 1), r as int) =~= sample(cols.take(k as int), r as int).push(v));
                    } else {
                        assert(sample(cols.subrange(li + 1, k + 1), r as int) =~= sample(cols.subrange(li + 1, k as int), r as int).push(v));
                    }
                }
                row.push(v);
            } else {
                proof {
                    assert(sample(cols.subrange(li + 1, li + 1), r as int) =~= Seq::<T>::empty());
                    assert(sample(cols.take(li as int), r as int) + Seq::<T>::empty() =~= sample(cols.take(li as int), r as int));
                }
            }
            k += 1;
        }
        proof {
            assert(cols.subrange(li + 1, n as int) =~= cols.skip(li + 1));
            assert(sample(features, r as int) =~= sample(cols.take(li as int), r as int) + sample(cols.skip(li + 1), r as int));
        }
        x.push(row);
        r += 1;
    }
    proof {
        assert(rows_of(x@) =~= frame_matrix(cols, li as int));
        assert(column_index(cols, label_column@) == Some(li as int));
        assert forall|cc: int, t: int| 0 <= cc < cols.len() && 0 <= t < cols[cc].1.len() implies (#[trigger] cols[cc].1[t]) is Some by {
        }
    }
    Ok((x, labels))
}

/// The form in which a dataset is given.
#[derive(Debug)]
pub enum DataFormat<T> {
    /// A file that the native engine reads itself.
    File { path: String },
    /// A row-major feature matrix and one label per row.
    Vecs { x: Vec<Vec<T>>, y: Vec<T> },
    /// A table, and the name of its column that holds the labels.
    DataFrame { df: Frame<T>, y_column: String },
}

/// The mathematical value of a `DataFormat`.
pub enum FormatView<T> {
    File(Seq<char>),
    Vecs(Seq<Seq<T>>, Seq<T>),
    DataFrame(Seq<(Seq<char>, Seq<Option<T>>)>, Seq<char>),
}

impl<T> View for DataFormat<T> {
    type V = FormatView<T>;

    open spec fn view(&self) -> FormatView<T> {
        match self {
            DataFormat::File { path } => FormatView::File(path@),
            DataFormat::Vecs { x, y } => FormatView::Vecs(rows_of(x@), y@),
            DataFormat::DataFrame { df, y_column } => FormatView::DataFrame(frame_view(*df), y_column@),
        }
    }
}

/// A dataset that has not been loaded yet: its form, and its options for the native
/// engine (currently always empty). The builder loads it when the model is fitted.
#[derive(Debug)]
pub struct DataSet<T> {
    format: DataFormat<T>,
    params: String,
}

impl<T> View for DataSet<T> {
    type V = (FormatView<T>, Seq<char>);

    closed spec fn view(&self) -> (FormatView<T>, Seq<char>) {
        (self.format@, self.params@)
    }
}

/// What the native engine is asked to do to load a dataset.
#[derive(Debug)]
pub enum LoadRequest<T> {
    /// Read the file at `path`.
    File { path: String, params: String, reference: Option<usize> },
    /// Build a dataset from `rows` x `cols` values laid out row-major in `data`, then
    /// attach `labels` as its label field.
    Matrix { data: Vec<T>, rows: i32, cols: i32, labels: Vec<T>, params: String, reference: Option<usize> },
}

/// The mathematical value of a `LoadRequest`.
pub enum RequestView<T> {
    File(Seq<char>, Seq<char>, Option<usize>),
    Matrix(Seq<T>, int, int, Seq<T>, Seq<char>, Option<usize>),
}

impl<T> View for LoadRequest<T> {
    type V = RequestView<T>;

    open spec fn view(&self) -> RequestView<T> {
        match self {
            LoadRequest::File { path, params, reference } => RequestView::File(path@, params@, *reference),
            LoadRequest::Matrix { data, rows, cols, labels, params, reference } => RequestView::Matrix(
                data@,
                *rows as int,
                *cols as int,
                labels@,
                params@,
                *reference,
            ),
        }
    }
}

/// The feature matrix and labels that a dataset holds or that its table converts to;
/// `None` for a file, and for a table that cannot be converted.
pub open spec fn matrix_of<T>(f: FormatView<T>) -> Option<(Seq<Seq<T>>, Seq<T>)> {
    match f {
        FormatView::File(_) => None,
        FormatView::Vecs(x, y) => Some((x, y)),
        FormatView::DataFrame(cols, label) => if frame_convertible(cols, label) {
            let li = column_index(cols, label)->Some_0;
            Some((frame_matrix(cols, li), present(cols[li].1)))
        } else {
            None
        },
    }
}

/// A matrix that the native engine accepts with these labels: well-formed, within its
/// integer width, and with one label per row.
pub open spec fn loadable<T>(x: Seq<Seq<T>>, y: Seq<T>) -> bool {
    is_well_formed(x) && fits_native(x.len() as int, x[0].len() as int) && y.len() == x.len()
}

/// What loading a dataset asks of the native engine, or the kind of error that stops it
/// before any native call.
pub open spec fn load_outcome<T>(ds: (FormatView<T>, Seq<char>), reference: Option<usize>) -> Result<RequestView<T>, ErrorKind> {
    match ds.0 {
        FormatView::File(path) => Ok(RequestView::File(path, ds.1, reference)),
        FormatView::DataFrame(cols, label) if !frame_convertible(cols, label) => Err(frame_error_kind(cols, label)),
        _ => {
            let (x, y) = matrix_of(ds.0)->Some_0;
            if !is_well_formed(x) || !fits_native(x.len() as int, x[0].len() as int) {
                Err(ErrorKind::Dimension)
            } else if y.len() != x.len() {
                Err(ErrorKind::Configuration)
            } else {
                Ok(RequestView::Matrix(flat(x), x.len() as int, x[0].len() as int, y, ds.1, reference))
            }
        },
    }
}

/// The view of a load result: the request, or the kind of the error.
pub open spec fn outcome_of<T>(r: Result<LoadRequest<T>, LgbmError>) -> Result<RequestView<T>, ErrorKind> {
    match r {
        Ok(req) => Ok(req@),
        Err(e) => Err(e.kind),
    }
}

/// A copy of a matrix.
fn copy_matrix<T: Copy>(m: &Vec<Vec<T>>) -> (r: Vec<Vec<T>>)
    ensures
        rows_of(r@) == rows_of(m@),
{
    let mut out: Vec<Vec<T>> = Vec::new();
    let mut i: usize = 0;
    while i < m.len()
        invariant
            i <= m@.len(),
            rows_of(out@) == rows_of(m@.take(i as int)),
        decreases m@.len() - i,
    {
        let row = copy_range(&m[i], 0, m[i].len());
        proof {
            assert(m@[i as int]@.subrange(0, m@[i as int]@.len() as int) =~= m@[i as int]@);
            assert(rows_of(out@.push(row)) =~= rows_of(out@).push(row@));
            assert(rows_of(m@.take(i + 1)) =~= rows_of(m@.take(i as int)).push(m@[i as int]@));
        }
        out.push(row);
        i += 1;
    }
    proof {
        assert(m@.take(i as int) =~= m@);
    }
    out
}

/// A copy of a table.
fn copy_frame<T: Copy>(f: &Frame<T>) -> (r: Frame<T>)
    ensures
        frame_view(r) == frame_view(*f),
{
    let mut columns: Vec<Column<T>> = Vec::new();
    let mut i: usize = 0;
    while i < f.columns.len()
        invariant
            i <= f.columns@.len(),
            columns_view(columns@) == frame_view(*f).take(i as int),
        decreases f.columns@.len() - i,
    {
        let col = &f.columns[i];
        let values = copy_range(&col.values, 0, col.values.len());
        let name = col.name.clone();
        let ghost before = columns@;
        columns.push(Column { name, values });
        proof {
            assert(col.values@.subrange(0, col.values@.len() as int) =~= col.values@);
            assert(columns_view(columns@) =~= columns_view(before).push((col.name@, col.values@)));
            assert(frame_view(*f).take(i + 1) =~= frame_view(*f).take(i as int).push((col.name@, col.values@)));
        }
        i += 1;
    }
    proof {
        assert(frame_view(*f).take(i as int) =~= frame_view(*f));
    }
    Frame { columns }
}

impl<T: Copy> DataSet<T> {
    /// A dataset of the given form, with no options.
    pub fn new(format: DataFormat<T>) -> (r: DataSet<T>)
        ensures
            r@ == (format@, Seq::<char>::empty()),
    {
        DataSet { format, params: String::new() }
    }

    /// A dataset from a row-major feature matrix and one label per row.
    pub fn from_mat(x: Vec<Vec<T>>, y: Vec<T>) -> (r: DataSet<T>)
        ensures
            r@ == (FormatView::Vecs(rows_of(x@), y@), Seq::<char>::empty()),
    {
        DataSet::new(DataFormat::Vecs { x, y })
    }

    /// A dataset read from a file by the native engine. The path is not checked here:
    /// that happens when the model is fitted.
    pub fn from_file(path: String) -> (r: DataSet<T>)
        ensures
            r@ == (FormatView::<T>::File(path@), Seq::<char>::empty()),
    {
        DataSet::new(DataFormat::File { path })
    }

    /// A dataset from a table; the column `label_column` holds the labels and the others
    /// are the features.
    pub fn from_data_frame(df: Frame<T>, label_column: String) -> (r: DataSet<T>)
        ensures
            r@ == (FormatView::DataFrame(frame_view(df), label_column@), Seq::<char>::empty()),
    {
        DataSet::new(DataFormat::DataFrame { df, y_column: label_column })
    }

    /// An independent copy of the dataset description.
    pub fn copy(&self) -> (r: DataSet<T>)
        ensures
            r@ == self@,
    {
        let format = match &self.format {
            DataFormat::File { path } => DataFormat::File { path: path.clone() },
            DataFormat::Vecs { x, y } => DataFormat::Vecs { x: copy_matrix(x), y: copy_range(y, 0, y.len()) },
            DataFormat::DataFrame { df, y_column } => DataFormat::DataFrame { df: copy_frame(df), y_column: y_column.clone() },
        };
        proof {
            if let DataFormat::Vecs { x, y } = &self.format {
                assert(y@.subrange(0, y@.len() as int) =~= y@);
            }
        }
        DataSet { format, params: self.params.clone() }
    }

    /// What the native engine is asked to do to load this dataset, optionally relative to
    /// the already loaded dataset `reference` (whose feature bins it then shares). A matrix
    /// is checked and flattened here; an error means no native call is to be made.
    pub fn load_request(&self, reference: Option<usize>) -> (r: Result<LoadRequest<T>, LgbmError>)
        ensures
            outcome_of(r) == load_outcome(self@, reference),
    {
        let params = self.params.clone();
        match &self.format {
            DataFormat::File { path } => Ok(LoadRequest::File { path: path.clone(), params, reference }),
            DataFormat::Vecs { x, y } => matrix_request(x, y, params, reference),
            DataFormat::DataFrame { df, y_column } => {
                let (x, y) = match frame_to_mat(df, y_column.as_str()) {
                    Ok(p) => p,
                    Err(e) => return Err(e),
                };
                matrix_request(&x, &y, params, reference)
            },
        }
    }
}

/// A well-formed matrix within the engine's integer width, with one label per row, always
/// loads: the engine is asked to build it from the rows laid end to end.
pub proof fn lemma_matrix_loads<T>(x: Seq<Seq<T>>, y: Seq<T>, reference: Option<usize>)
    requires
        is_well_formed(x),
        fits_native(x.len() as int, x[0].len() as int),
        y.len() == x.len(),
    ensures
        load_outcome((FormatView::Vecs(x, y), Seq::<char>::empty()), reference) == Ok::<RequestView<T>, ErrorKind>(
            RequestView::Matrix(flat(x), x.len() as int, x[0].len() as int, y, Seq::<char>::empty(), reference),
        ),
{
}

/// A matrix with more rows or columns than the engine's integer width is refused with a
/// `Dimension` error, before any native call, so no handle is allocated for it.
pub proof fn lemma_oversized_matrix_refused<T>(x: Seq<Seq<T>>, y: Seq<T>, params: Seq<char>, reference: Option<usize>)
    requires
        is_well_formed(x),
        !fits_native(x.len() as int, x[0].len() as int),
    ensures
        load_outcome((FormatView::Vecs(x, y), params), reference) == Err::<RequestView<T>, ErrorKind>(ErrorKind::Dimension),
{
}

fn matrix_request<T: Copy>(x: &Vec<Vec<T>>, y: &Vec<T>, params: String, reference: Option<usize>) -> (r: Result<LoadRequest<T>, LgbmError>)
    ensures
        outcome_of(r) == (if !is_well_formed(rows_of(x@)) || !fits_native(x@.len() as int, x@[0]@.len() as int) {
            Err(ErrorKind::Dimension)
        } else if y@.len() != x@.len() {
            Err(ErrorKind::Configuration)
        } else {
            Ok(RequestView::Matrix(flat(rows_of(x@)), x@.len() as int, x@[0]@.len() as int, y@, params@, reference))
        }),
{
    let (rows, cols) = match matrix_shape(x) {
        Ok(p) => p,
        Err(e) => return Err(e),
    };
    let (n_rows, n_cols) = match check_dimensions(rows, cols) {
        Ok(p) => p,
        Err(e) => return Err(e),
    };
    if y.len() != rows {
        return Err(LgbmError::new(ErrorKind::Configuration, String::from_str("label vector length differs from the number of rows")));
    }
    let data = flatten(x);
    let labels = copy_range(y, 0, y.len());
    proof {
        assert(y@.subrange(0, y@.len() as int) =~= y@);
    }
    Ok(LoadRequest::Matrix { data, rows: n_rows, cols: n_cols, labels, params, reference })
}

} // verus!
