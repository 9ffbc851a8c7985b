use vstd::prelude::*;
use vstd::string::{StrSliceExecFns, StringExecFns, StringSliceAdditionalSpecFns};

verus! {

/// Relies on std's `str == str`: two string slices are equal exactly when they hold the same
/// characters.
#[verifier::external_body]
fn same_label(a: &str, b: &str) -> (r: bool)
    ensures
        r == (a@ == b@),
{
    a == b
}

/// One cell of a table: its value and where it stands.
#[derive(Clone, Copy, Debug)]
pub struct Point<T> {
    pub row: usize,
    pub col: usize,
    pub val: T,
}

/// A table of values stored column by column, with a label for each row and each column.
#[derive(Debug)]
pub struct DataFrame<'a, T> {
    frame: Vec<Vec<Point<T>>>,
    row_labels: Vec<&'a str>,
    col_labels: Vec<&'a str>,
}

/// What a `DataFrame` holds: its columns of cells and the labels of its rows and columns.
pub struct DataFrameView<T> {
    pub frame: Seq<Seq<Point<T>>>,
    pub row_labels: Seq<Seq<char>>,
    pub col_labels: Seq<Seq<char>>,
}

/// The characters of each label, in order.
pub open spec fn labels_view(labels: Seq<&str>) -> Seq<Seq<char>> {
    labels.map_values(|s: &str| s@)
}

/// `label` occurs among `labels`.
pub open spec fn has_label(labels: Seq<Seq<char>>, label: Seq<char>) -> bool {
    exists|j: int| 0 <= j < labels.len() && labels[j] == label
}

/// `i` is the first position of `label` among `labels`.
pub open spec fn is_first_index(labels: Seq<Seq<char>>, label: Seq<char>, i: int) -> bool {
    &&& 0 <= i < labels.len()
    &&& labels[i] == label
    &&& forall|j: int| 0 <= j < i ==> labels[j] != label
}

/// The outcome of looking `label` up among `labels`: the first position where it stands, or an
/// error when it is absent.
pub open spec fn lookup_ok(labels: Seq<Seq<char>>, label: Seq<char>, r: Result<usize, &str>) -> bool {
    match r {
        Ok(i) => is_first_index(labels, label, i as int),
        Err(_) => !has_label(labels, label),
    }
}

/// The number of bytes that `s` takes in UTF-8.
pub open spec fn byte_len(s: &str) -> usize {
    s.spec_bytes().len() as usize
}

/// The cells of a column whose values are `vals`: row `k` holds `vals[k]`.
pub open spec fn column_points<T>(col: usize, vals: Seq<T>) -> Seq<Point<T>> {
    Seq::new(vals.len(), |k: int| Point { row: k as usize, col, val: vals[k] })
}

impl<'a, T> View for DataFrame<'a, T> {
    type V = DataFrameView<T>;

    closed spec fn view(&self) -> DataFrameView<T> {
        DataFrameView {
            frame: self.frame@.map_values(|c: Vec<Point<T>>| c@),
            row_labels: labels_view(self.row_labels@),
            col_labels: labels_view(self.col_labels@),
        }
    }
}

impl<T> DataFrameView<T> {
    /// One column per column label, and in each column one cell per row label.
    pub open spec fn wf(&self) -> bool {
        &&& self.frame.len() == self.col_labels.len()
        &&& forall|c: int| 0 <= c < self.frame.len() ==> #[trigger] self.frame[c].len() == self.row_labels.len()
    }
}

impl<T: Copy> Point<T> {
    pub fn new(row: usize, col: usize, content: T) -> (r: Point<T>)
        ensures
            r == (Point { row, col, val: content }),
    {
        Point { row, col, val: content }
    }

    /// The cells of column `col` whose values are `vector`, in row order.
    pub fn point_vector(col: usize, vector: Vec<T>) -> (r: Vec<Point<T>>)
        ensures
            r@ == column_points(col, vector@),
    {
        let mut new_vector: Vec<Point<T>> = Vec::new();
        let mut row: usize = 0;
        while row < vector.len()
            invariant
                row <= vector.len(),
                new_vector@ == column_points(col, vector@.subrange(0, row as int)),
            decreases vector.len() - row,
        {
            new_vector.push(Point::new(row, col, vector[row]));
            row = row + 1;
            assert(new_vector@ =~= column_points(col, vector@.subrange(0, row as int)));
        }
        assert(vector@.subrange(0, row as int) =~= vector@);
        new_vector
    }
}

impl<'a, T: Copy> DataFrame<'a, T> {
    /// Builds a table from its columns of values; the value `frame[c][r]` becomes the cell at
    /// row `r` of column `c`.
    pub fn new(frame: Vec<Vec<T>>, row_labels: Vec<&'a str>, col_labels: Vec<&'a str>) -> (r: DataFrame<'a, T>)
        ensures
            r@.frame.len() == frame@.len(),
            forall|c: int| 0 <= c < frame@.len() ==> #[trigger] r@.frame[c] == column_points(c as usize, frame@[c]@),
            r@.row_labels == labels_view(row_labels@),
            r@.col_labels == labels_view(col_labels@),
    {
        let mut proper_frame: Vec<Vec<Point<T>>> = Vec::new();
        let mut i: usize = 0;
        while i < frame.len()
            invariant
                i <= frame.len(),
                proper_frame@.len() == i,
                forall|c: int| 0 <= c < i ==> #[trigger] proper_frame@[c]@ == column_points(c as usize, frame@[c]@),
            decreases frame.len() - i,
        {
            let mut column: Vec<Point<T>> = Vec::new();
            let mut j: usize = 0;
            while j < frame[i].len()
                invariant
                    i < frame.len(),
                    j <= frame@[i as int].len(),
                    column@ == column_points(i, frame@[i as int]@.subrange(0, j as int)),
                decreases frame@[i as int].len() - j,
            {
                column.push(Point::new(j, i, frame[i][j]));
                j = j + 1;
                assert(column@ =~= column_points(i, frame@[i as int]@.subrange(0, j as int)));
            }
            assert(frame@[i as int]@.subrange(0, j as int) =~= frame@[i as int]@);
            proper_frame.push(column);
            i = i + 1;
        }
        let r = DataFrame { frame: proper_frame, row_labels, col_labels };
        assert(r@.row_labels == labels_view(row_labels@));
        r
    }

    /// The value in row `row` of column `col`.
    pub fn value_at_index(&self, row: usize, col: usize) -> (r: &T)
        requires
            col < self@.frame.len(),
            row < self@.frame[col as int].len(),
        ensures
            *r == self@.frame[col as int][row as int].val,
    {
        &self.frame[col][row].val
    }

    /// The first position of `label` among `labels`, or an error when it is absent.
    pub fn label_index(label: &str, labels: &Vec<&str>) -> (r: Result<usize, &'a str>)
        ensures
            lookup_ok(labels_view(labels@), label@, r),
    {
        let mut i: usize = 0;
        while i < labels.len()
            invariant
                i <= labels.len(),
                forall|j: int| 0 <= j < i ==> labels_view(labels@)[j] != label@,
            decreases labels.len() - i,
        {
            if same_label(labels[i], label) {
                return Ok(i);
            }
            i = i + 1;
        }
        Err("This label doesn't exist")
    }

    /// The row and column positions of the labels `row` and `col`.
    pub fn index_at_labels(&self, row: &str, col: &str) -> (r: Result<(usize, usize), &str>)
        ensures
            match r {
                Ok((i, j)) => is_first_index(self@.row_labels, row@, i as int)
                    && is_first_index(self@.col_labels, col@, j as int),
                Err(_) => !has_label(self@.row_labels, row@) || !has_label(self@.col_labels, col@),
            },
    {
        let row_index = match DataFrame::<'a, T>::label_index(row, &self.row_labels) {
            Ok(i) => i,
            Err(error) => return Err(error),
        };
        let col_index = match DataFrame::<'a, T>::label_index(col, &self.col_labels) {
            Ok(i) => i,
            Err(error) => return Err(error),
        };
        Ok((row_index, col_index))
    }

    /// The value in the row labelled `row` and the column labelled `col`.
    pub fn value_at_labels(&self, row: &str, col: &str) -> (r: Result<&T, &str>)
        requires
            self@.wf(),
        ensures
            match r {
                Ok(v) => exists|i: int, j: int|
                    is_first_index(self@.row_labels, row@, i) && is_first_index(self@.col_labels, col@, j)
                        && *v == #[trigger] self@.frame[j][i].val,
                Err(_) => !has_label(self@.row_labels, row@) || !has_label(self@.col_labels, col@),
            },
    {
        let row_index: usize = match DataFrame::<'a, T>::label_index(row, &self.row_labels) {
            Ok(i) => i,
            Err(error) => return Err(error),
        };
        let col_index: usize = match DataFrame::<'a, T>::label_index(col, &self.col_labels) {
            Ok(i) => i,
            Err(error) => return Err(error),
        };
        assert(self@.frame[col_index as int].len() == self@.row_labels.len());
        Ok(self.value_at_index(row_index, col_index))
    }

    /// Appends a column labelled `label`.
    pub fn add_col(&mut self, label: &'a str, content: Vec<Point<T>>)
        requires
            old(self)@.frame.len() == old(self)@.col_labels.len(),
        ensures
            final(self)@.frame == old(self)@.frame.push(content@),
            final(self)@.col_labels == old(self)@.col_labels.push(label@),
            final(self)@.row_labels == old(self)@.row_labels,
    {
        self.col_labels.push(label);
        self.frame.push(content);
        assert(self@.frame =~= old(self)@.frame.push(content@));
        assert(self@.col_labels =~= old(self)@.col_labels.push(label@));
    }

    /// Appends a row labelled `label` whose cell in column `c` is `content[c]`; fails, leaving
    /// the table unchanged, when a row already has that label.
    pub fn add_row(&mut self, label: &'a str, content: Vec<Point<T>>) -> (r: Result<(), String>)
        requires
            content@.len() >= old(self)@.frame.len(),
        ensures
            r is Err <==> has_label(old(self)@.row_labels, label@),
            r is Err ==> final(self)@ == old(self)@,
            r is Ok ==> {
                &&& final(self)@.row_labels == old(self)@.row_labels.push(label@)
                &&& final(self)@.col_labels == old(self)@.col_labels
                &&& final(self)@.frame.len() == old(self)@.frame.len()
                &&& forall|c: int| 0 <= c < old(self)@.frame.len()
                    ==> #[trigger] final(self)@.frame[c] == old(self)@.frame[c].push(content@[c])
            },
    {
        match DataFrame::<'a, T>::label_index(label, &self.row_labels) {
            Ok(_) => {
                let mut message = String::from_str("This label already exists: ");
                message.append(label);
                return Err(message);
            },
            Err(_) => {},
        }
        self.row_labels.push(label);
        let ghost old_frame = self.frame@;
        let mut i: usize = 0;
        while i < self.frame.len()
            invariant
                i <= self.frame.len(),
                self.frame@.len() == old_frame.len(),
                content@.len() >= old_frame.len(),
                self.row_labels@ == old(self).row_labels@.push(label),
                self.col_labels@ == old(self).col_labels@,
                forall|c: int| 0 <= c < i ==> #[trigger] self.frame@[c]@ == old_frame[c]@.push(content@[c]),
                forall|c: int| i <= c < old_frame.len() ==> #[trigger] self.frame@[c] == old_frame[c],
            decreases self.frame.len() - i,
        {
            let mut column = Vec::new();
            std::mem::swap(&mut column, &mut self.frame[i]);
            column.push(content[i]);
            self.frame.set(i, column);
            i = i + 1;
        }
        proof {
            assert(self@.row_labels =~= old(self)@.row_labels.push(label@));
            assert forall|c: int| 0 <= c < old(self)@.frame.len()
                implies #[trigger] self@.frame[c] == old(self)@.frame[c].push(content@[c]) by {
                assert(self@.frame[c] == self.frame@[c]@);
            }
        }
        Ok(())
    }

    /// Removes the first row labelled `label`; fails, leaving the table unchanged, when no
    /// row has that label.
    pub fn delete_row(&mut self, label: &'a str) -> (r: Result<(), &str>)
        requires
            old(self)@.wf(),
        ensures
            r is Err <==> !has_label(old(self)@.row_labels, label@),
            r is Err ==> final(self)@ == old(self)@,
            r is Ok ==> exists|i: int| {
                &&& is_first_index(old(self)@.row_labels, label@, i)
                &&& final(self)@.row_labels == old(self)@.row_labels.remove(i)
                &&& final(self)@.col_labels == old(self)@.col_labels
                &&& final(self)@.frame.len() == old(self)@.frame.len()
                &&& forall|c: int| 0 <= c < old(self)@.frame.len()
                    ==> #[trigger] final(self)@.frame[c] == old(self)@.frame[c].remove(i)
            },
            final(self)@.wf(),
    {
        let index: usize = match DataFrame::<'a, T>::label_index(label, &self.row_labels) {
            Ok(i) => i,
            Err(_) => return Err("Row not found"),
        };
        self.row_labels.remove(index);
        let ghost old_frame = self.frame@;
        assert forall|c: int| 0 <= c < old_frame.len() implies index < #[trigger] old_frame[c]@.len() by {
            assert(old(self)@.frame[c] == old_frame[c]@);
        }
        let mut i: usize = 0;
        while i < self.frame.len()
            invariant
                i <= self.frame.len(),
                self.frame@.len() == old_frame.len(),
                self.row_labels@ == old(self).row_labels@.remove(index as int),
                self.col_labels@ == old(self).col_labels@,
                forall|c: int| 0 <= c < old_frame.len() ==> index < #[trigger] old_frame[c]@.len(),
                forall|c: int| 0 <= c < i ==> #[trigger] self.frame@[c]@ == old_frame[c]@.remove(index as int),
                forall|c: int| i <= c < old_frame.len() ==> #[trigger] self.frame@[c] == old_frame[c],
            decreases self.frame.len() - i,
        {
            let mut column = Vec::new();
            std::mem::swap(&mut column, &mut self.frame[i]);
            column.remove(index);
            self.frame.set(i, column);
            i = i + 1;
        }
        proof {
            assert(self@.row_labels =~= old(self)@.row_labels.remove(index as int));
            assert forall|c: int| 0 <= c < old(self)@.frame.len()
                implies #[trigger] self@.frame[c] == old(self)@.frame[c].remove(index as int) by {
                assert(self@.frame[c] == self.frame@[c]@);
            }
            assert(is_first_index(old(self)@.row_labels, label@, index as int));
        }
        Ok(())
    }

    /// Removes the first column labelled `label`; fails, leaving the table unchanged, when no
    /// column has that label.
    pub fn delete_column<'b>(&'b mut self, label: &'a str) -> (r: Result<(), &'b str>)
        requires
            old(self)@.frame.len() == old(self)@.col_labels.len(),
        ensures
            r is Err <==> !has_label(old(self)@.col_labels, label@),
            r is Err ==> final(self)@ == old(self)@,
            r is Ok ==> exists|i: int| {
                &&& is_first_index(old(self)@.col_labels, label@, i)
                &&& final(self)@.col_labels == old(self)@.col_labels.remove(i)
                &&& final(self)@.frame == old(self)@.frame.remove(i)
                &&& final(self)@.row_labels == old(self)@.row_labels
            },
    {
        let index: usize = match DataFrame::<'a, T>::label_index(label, &self.col_labels) {
            Ok(i) => i,
            Err(_) => return Err("Column not found"),
        };
        self.col_labels.remove(index);
        self.frame.remove(index);
        proof {
            assert(self@.col_labels =~= old(self)@.col_labels.remove(index as int));
            assert(self@.frame =~= old(self)@.frame.remove(index as int));
            assert(is_first_index(old(self)@.col_labels, label@, index as int));
        }
        Ok(())
    }

    /// The number of column labels.
    pub fn get_cols_len(&self) -> (r: usize)
        ensures
            r == self@.col_labels.len(),
    {
        self.col_labels.len()
    }

    /// The label of row `i`.
    pub fn row_label(&self, i: usize) -> (r: &'a str)
        requires
            i < self@.row_labels.len(),
        ensures
            r@ == self@.row_labels[i as int],
    {
        self.row_labels[i]
    }

    /// The label of column `i`.
    pub fn col_label(&self, i: usize) -> (r: &'a str)
        requires
            i < self@.col_labels.len(),
        ensures
            r@ == self@.col_labels[i as int],
    {
        self.col_labels[i]
    }

    /// The number of row labels.
    pub fn get_rows_len(&self) -> (r: usize)
        ensures
            r == self@.row_labels.len(),
    {
        self.row_labels.len()
    }
}

/// The largest length in bytes among the labels of `vec`.
pub fn find_longest(vec: &Vec<&str>) -> (r: usize)
    requires
        vec@.len() > 0,
    ensures
        exists|i: int| 0 <= i < vec@.len() && r == byte_len(#[trigger] vec@[i]),
        forall|i: int| 0 <= i < vec@.len() ==> byte_len(#[trigger] vec@[i]) <= r,
{
    let mut longest_len: usize = vec[0].len();
    let mut i: usize = 1;
    while i < vec.len()
        invariant
            1 <= i <= vec@.len(),
            exists|k: int| 0 <= k < i && longest_len == byte_len(#[trigger] vec@[k]),
            forall|k: int| 0 <= k < i ==> byte_len(#[trigger] vec@[k]) <= longest_len,
        decreases vec.len() - i,
    {
        let length = vec[i].len();
        if length > longest_len {
            longest_len = length;
        }
        i = i + 1;
    }
    longest_len
}

/// The smallest length in bytes among the labels of `vec`.
pub fn find_shortest(vec: &Vec<&str>) -> (r: usize)
    requires
        vec@.len() > 0,
    ensures
        exists|i: int| 0 <= i < vec@.len() && r == byte_len(#[trigger] vec@[i]),
        forall|i: int| 0 <= i < vec@.len() ==> r <= byte_len(#[trigger] vec@[i]),
{
    let mut shortest_len: usize = vec[0].len();
    let mut i: usize = 1;
    while i < vec.len()
        invariant
            1 <= i <= vec@.len(),
            exists|k: int| 0 <= k < i && shortest_len == byte_len(#[trigger] vec@[k]),
            forall|k: int| 0 <= k < i ==> shortest_len <= byte_len(#[trigger] vec@[k]),
        decreases vec.len() - i,
    {
        let length = vec[i].len();
        if length < shortest_len {
            shortest_len = length;
        }
        i = i + 1;
    }
    shortest_len
}

} // verus!
