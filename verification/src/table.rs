//! An owning, mutable rectangular grid of entries.
//!
//! Every row always holds exactly `cols` entries. When an operation
//! introduces a wider row or a new column, every row is right-padded with
//! `Nil` to the new width; when an operation adds entries past the last
//! row, new all-`Nil` rows are appended. Every mutator checks its
//! precondition before touching the grid, so a table is rectangular after
//! every call.

use vstd::prelude::*;

use crate::entry::Entry;

verus! {

/// A mutable rectangular grid of [`Entry`] values.
///
/// `data` is the ordered sequence of rows, each exactly `cols` entries
/// wide. `header` marks whether row 0 is conceptually a header; it is
/// purely advisory and never affects the stored shape.
#[derive(Debug, Clone, PartialEq, Eq)]
pub struct Table<T> {
    /// The rows, outer sequence over rows, inner over columns.
    pub data: Vec<Vec<Entry<T>>>,
    /// The cached column count; every row holds exactly this many entries.
    pub cols: usize,
    /// Whether row 0 is conceptually a header.
    pub header: bool,
}

/// A row of `w` empty entries.
pub open spec fn nil_row<T>(w: nat) -> Seq<Entry<T>> {
    Seq::new(w, |i: int| Entry::Nil)
}

/// `r` right-padded with empty entries to width `w`; rows already `w` wide
/// or wider are unchanged.
pub open spec fn pad_row<T>(r: Seq<Entry<T>>, w: nat) -> Seq<Entry<T>> {
    if r.len() >= w {
        r
    } else {
        r + nil_row((w - r.len()) as nat)
    }
}

/// Every row of `rows` padded to width `w`.
pub open spec fn pad_rows<T>(rows: Seq<Seq<Entry<T>>>, w: nat) -> Seq<Seq<Entry<T>>> {
    Seq::new(rows.len(), |i: int| pad_row(rows[i], w))
}

/// The width of the widest row of `rows` (0 when there are none).
pub open spec fn max_width<T>(rows: Seq<Seq<Entry<T>>>) -> nat
    decreases rows.len(),
{
    if rows.len() == 0 {
        0
    } else {
        let m = max_width(rows.drop_last());
        if rows.last().len() > m {
            rows.last().len()
        } else {
            m
        }
    }
}

/// Every row of `rows` is exactly `cols` entries wide.
pub open spec fn wf_rows<T>(rows: Seq<Seq<Entry<T>>>, cols: nat) -> bool {
    forall|i: int| 0 <= i < rows.len() ==> (#[trigger] rows[i]).len() == cols
}

/// The grid and column count after appending one row, as `add_row` does:
/// the table widens to fit the new row, and the new row widens to fit the
/// table.
pub open spec fn row_added<T>(
    rows: Seq<Seq<Entry<T>>>,
    cols: nat,
    row: Seq<Entry<T>>,
) -> (Seq<Seq<Entry<T>>>, nat) {
    let w = if row.len() > cols {
        row.len()
    } else {
        cols
    };
    (pad_rows(rows, w).push(pad_row(row, w)), w)
}

/// The grid and column count after appending a batch of rows, as
/// `add_rows` does: the width is reconciled once, against the widest
/// incoming row.
pub open spec fn rows_added<T>(
    rows: Seq<Seq<Entry<T>>>,
    cols: nat,
    new_rows: Seq<Seq<Entry<T>>>,
) -> (Seq<Seq<Entry<T>>>, nat) {
    let w = if max_width(new_rows) > cols {
        max_width(new_rows)
    } else {
        cols
    };
    (pad_rows(rows, w) + pad_rows(new_rows, w), w)
}

/// The grid and column count after appending one column on the right, as
/// `add_col` does: the grid grows to fit the new column's height, missing
/// rows appearing as all-`Nil` rows, and rows past the column's end take a
/// `Nil` in the new position.
pub open spec fn col_added<T>(
    rows: Seq<Seq<Entry<T>>>,
    cols: nat,
    col: Seq<Entry<T>>,
) -> (Seq<Seq<Entry<T>>>, nat) {
    let h = if col.len() > rows.len() {
        col.len()
    } else {
        rows.len()
    };
    (
        Seq::new(
            h,
            |i: int|
                (if i < rows.len() {
                    rows[i]
                } else {
                    nil_row(cols)
                }).push(
                    if i < col.len() {
                        col[i]
                    } else {
                        Entry::Nil
                    },
                ),
        ),
        cols + 1,
    )
}

/// The grid and column count after appending a batch of columns, as
/// `add_cols` does: the height is reconciled once, against the tallest
/// incoming column.
pub open spec fn cols_added<T>(
    rows: Seq<Seq<Entry<T>>>,
    cols: nat,
    new_cols: Seq<Seq<Entry<T>>>,
) -> (Seq<Seq<Entry<T>>>, nat) {
    let h = if max_width(new_cols) > rows.len() {
        max_width(new_cols)
    } else {
        rows.len()
    };
    (
        Seq::new(
            h,
            |i: int|
                (if i < rows.len() {
                    rows[i]
                } else {
                    nil_row(cols)
                }) + Seq::new(
                    new_cols.len(),
                    |j: int|
                        if i < new_cols[j].len() {
                            new_cols[j][i]
                        } else {
                            Entry::Nil
                        },
                ),
        ),
        cols + new_cols.len(),
    )
}

/// The grid and column count after inserting one row at `idx`, as
/// `insert_row` does: width reconciliation is identical to `row_added`,
/// and later rows shift down.
pub open spec fn row_inserted<T>(
    rows: Seq<Seq<Entry<T>>>,
    cols: nat,
    idx: int,
    row: Seq<Entry<T>>,
) -> (Seq<Seq<Entry<T>>>, nat) {
    let w = if row.len() > cols {
        row.len()
    } else {
        cols
    };
    (pad_rows(rows, w).insert(idx, pad_row(row, w)), w)
}

/// The grid and column count after inserting one column at `idx`, as
/// `insert_col` does: the grid grows to fit the column's height, and each
/// row takes the column's entry, or `Nil` past its end, at position `idx`.
pub open spec fn col_inserted<T>(
    rows: Seq<Seq<Entry<T>>>,
    cols: nat,
    idx: int,
    col: Seq<Entry<T>>,
) -> (Seq<Seq<Entry<T>>>, nat) {
    let h = if col.len() > rows.len() {
        col.len()
    } else {
        rows.len()
    };
    (
        Seq::new(
            h,
            |i: int|
                (if i < rows.len() {
                    rows[i]
                } else {
                    nil_row(cols)
                }).insert(
                    idx,
                    if i < col.len() {
                        col[i]
                    } else {
                        Entry::Nil
                    },
                ),
        ),
        cols + 1,
    )
}

/// The sequence of rows a vector of row vectors stands for.
pub open spec fn vec_grid<T>(v: Seq<Vec<Entry<T>>>) -> Seq<Seq<Entry<T>>> {
    Seq::new(v.len(), |i: int| v[i]@)
}

/// The grid and column count reached by appending the rows of `new_rows`
/// one at a time, front to back, as repeated `add_row` calls do.
pub open spec fn rows_added_one_by_one<T>(
    rows: Seq<Seq<Entry<T>>>,
    cols: nat,
    new_rows: Seq<Seq<Entry<T>>>,
) -> (Seq<Seq<Entry<T>>>, nat)
    decreases new_rows.len(),
{
    if new_rows.len() == 0 {
        (rows, cols)
    } else {
        let step = row_added(rows, cols, new_rows.first());
        rows_added_one_by_one(step.0, step.1, new_rows.drop_first())
    }
}

/// The grid and column count reached by appending the columns of
/// `new_cols` one at a time, front to back, as repeated `add_col` calls
/// do.
pub open spec fn cols_added_one_by_one<T>(
    rows: Seq<Seq<Entry<T>>>,
    cols: nat,
    new_cols: Seq<Seq<Entry<T>>>,
) -> (Seq<Seq<Entry<T>>>, nat)
    decreases new_cols.len(),
{
    if new_cols.len() == 0 {
        (rows, cols)
    } else {
        let step = col_added(rows, cols, new_cols.first());
        cols_added_one_by_one(step.0, step.1, new_cols.drop_first())
    }
}

/// No row of `rows` is wider than `max_width(rows)`.
pub proof fn lemma_max_width_le<T>(rows: Seq<Seq<Entry<T>>>, k: int)
    requires
        0 <= k < rows.len(),
    ensures
        rows[k].len() <= max_width(rows),
    decreases rows.len(),
{
    if k < rows.len() - 1 {
        lemma_max_width_le(rows.drop_last(), k);
    }
}

impl<T> Table<T> {
    /// The stored grid: the view of each row in order.
    pub open spec fn grid(self) -> Seq<Seq<Entry<T>>> {
        vec_grid(self.data@)
    }

    /// The rectangular invariant: every stored row is exactly `cols` wide.
    pub open spec fn wf(self) -> bool {
        wf_rows(self.grid(), self.cols as nat)
    }

    /// An empty table: no rows, no columns, and the header flag set.
    pub fn new() -> (t: Table<T>)
        ensures
            t.wf(),
            t.grid() == Seq::<Seq<Entry<T>>>::empty(),
            t.cols == 0,
            t.header == true,
    {
        let t = Table { data: Vec::new(), cols: 0, header: true };
        proof {
            assert(t.grid() =~= Seq::<Seq<Entry<T>>>::empty());
        }
        t
    }

    /// Set the header flag; the stored entries are untouched.
    pub fn set_header(&mut self, header: bool)
        ensures
            final(self).header == header,
            final(self).data == old(self).data,
            final(self).cols == old(self).cols,
    {
        self.header = header;
    }

    /// The table has no rows at all.
    pub fn is_empty(&self) -> (r: bool)
        ensures
            r == (self.grid().len() == 0),
    {
        self.data.is_empty()
    }

    /// The table has no rows besides, when the header flag is set, a
    /// header row.
    pub fn is_data_empty(&self) -> (r: bool)
        ensures
            r == if self.header && self.grid().len() > 0 {
                self.grid().len() == 1
            } else {
                self.grid().len() == 0
            },
    {
        if self.header && self.data.len() > 0 {
            self.data.len() == 1
        } else {
            self.data.len() == 0
        }
    }

    /// The number of rows.
    pub fn rows_len(&self) -> (n: usize)
        ensures
            n == self.grid().len(),
    {
        self.data.len()
    }

    /// The number of columns.
    pub fn cols_len(&self) -> (n: usize)
        ensures
            n == self.cols,
    {
        self.cols
    }

    /// Append one row, reconciling widths as `row_added` describes.
    pub fn add_row(&mut self, row: Vec<Entry<T>>)
        requires
            old(self).wf(),
        ensures
            final(self).wf(),
            final(self).header == old(self).header,
            (final(self).grid(), final(self).cols as nat) == row_added(
                old(self).grid(),
                old(self).cols as nat,
                row@,
            ),
    {
        let ghost row0 = row@;
        let w = if row.len() > self.cols {
            row.len()
        } else {
            self.cols
        };
        self.widen_to(w);
        let mut row = row;
        pad_entries(&mut row, w);
        self.data.push(row);
        proof {
            assert(self.grid() =~= row_added(
                old(self).grid(),
                old(self).cols as nat,
                row0,
            ).0);
        }
    }

    /// Append a batch of rows, reconciling the width once against the
    /// widest incoming row, as `rows_added` describes.
    #[verifier::loop_isolation(false)]
    pub fn add_rows(&mut self, rows: Vec<Vec<Entry<T>>>)
        requires
            old(self).wf(),
        ensures
            final(self).wf(),
            final(self).header == old(self).header,
            (final(self).grid(), final(self).cols as nat) == rows_added(
                old(self).grid(),
                old(self).cols as nat,
                vec_grid(rows@),
            ),
    {
        let ghost gnew = vec_grid(rows@);
        let mut mw: usize = 0;
        let mut i: usize = 0;
        while i < rows.len()
            invariant
                i <= rows@.len(),
                mw as nat == max_width(gnew.take(i as int)),
            decreases rows@.len() - i,
        {
            proof {
                assert(gnew.take(i + 1).drop_last() =~= gnew.take(i as int));
            }
            let l = rows[i].len();
            if l > mw {
                mw = l;
            }
            i += 1;
        }
        proof {
            assert(gnew.take(rows@.len() as int) =~= gnew);
        }
        let w = if mw > self.cols {
            mw
        } else {
            self.cols
        };
        self.widen_to(w);
        let ghost mid = self.grid();
        let mut rows = rows;
        let mut k: usize = 0;
        while rows.len() > 0
            invariant
                self.wf(),
                self.cols == w,
                self.header == old(self).header,
                k + rows@.len() == gnew.len(),
                forall|j: int| 0 <= j < rows@.len() ==> (#[trigger] rows@[j])@ == gnew[k + j],
                self.grid() == mid + pad_rows(gnew.take(k as int), w as nat),
            decreases rows@.len(),
        {
            let ghost kk = k as int;
            let ghost gpre = self.grid();
            let mut r = rows.remove(0);
            proof {
                assert(r@ == gnew[kk]);
                lemma_max_width_le(gnew, kk);
                assert(gnew[kk].len() <= w as nat);
            }
            pad_entries(&mut r, w);
            proof {
                assert(r@ == pad_row(gnew[kk], w as nat));
                assert(r@.len() == w as nat);
            }
            self.data.push(r);
            k += 1;
            proof {
                assert(self.grid() =~= gpre.push(pad_row(gnew[kk], w as nat)));
                assert(self.grid() =~= mid + pad_rows(gnew.take(k as int), w as nat));
            }
        }
        proof {
            assert(gnew.take(gnew.len() as int) =~= gnew);
            assert(self.grid() =~= rows_added(
                old(self).grid(),
                old(self).cols as nat,
                gnew,
            ).0);
        }
    }

    /// Append one column on the right, as `col_added` describes.
    #[verifier::loop_isolation(false)]
    pub fn add_col(&mut self, col: Vec<Entry<T>>)
        requires
            old(self).wf(),
            old(self).cols < usize::MAX,
        ensures
            final(self).wf(),
            final(self).header == old(self).header,
            (final(self).grid(), final(self).cols as nat) == col_added(
                old(self).grid(),
                old(self).cols as nat,
                col@,
            ),
    {
        let ghost gcol = col@;
        let h = if col.len() > self.data.len() {
            col.len()
        } else {
            self.data.len()
        };
        let mut col = col;
        let mut i: usize = 0;
        while i < h
            invariant
                i <= h,
                self.cols == old(self).cols,
                self.header == old(self).header,
                self.data@.len() == if i < old(self).data@.len() {
                    old(self).data@.len() as int
                } else {
                    i as int
                },
                i + col@.len() == if gcol.len() > i {
                    gcol.len() as int
                } else {
                    i as int
                },
                forall|j: int| 0 <= j < col@.len() ==> col@[j] == gcol[i + j],
                forall|j: int| 0 <= j < i ==> (#[trigger] self.data@[j])@ == col_added(
                    old(self).grid(),
                    old(self).cols as nat,
                    gcol,
                ).0[j],
                forall|j: int| i <= j < self.data@.len() ==> self.data@[j] == old(self).data@[j],
            decreases h - i,
        {
            let c = if col.len() > 0 {
                col.remove(0)
            } else {
                Entry::Nil
            };
            if i < self.data.len() {
                self.data[i].push(c);
            } else {
                let mut nr: Vec<Entry<T>> = Vec::new();
                pad_entries(&mut nr, self.cols);
                nr.push(c);
                self.data.push(nr);
            }
            proof {
                assert(self.data@[i as int]@ =~= col_added(
                    old(self).grid(),
                    old(self).cols as nat,
                    gcol,
                ).0[i as int]);
            }
            i += 1;
        }
        self.cols = self.cols + 1;
        proof {
            assert(self.grid() =~= col_added(
                old(self).grid(),
                old(self).cols as nat,
                gcol,
            ).0);
            assert forall|j: int| 0 <= j < self.grid().len() implies (
            #[trigger] self.grid()[j]).len() == self.cols as nat by {
                if j < old(self).grid().len() {
                    assert(old(self).grid()[j].len() == old(self).cols);
                }
            }
        }
    }

    /// Append a batch of columns, reconciling the height once against the
    /// tallest incoming column, as `cols_added` describes.
    #[verifier::loop_isolation(false)]
    pub fn add_cols(&mut self, new_cols: Vec<Vec<Entry<T>>>)
        requires
            old(self).wf(),
            old(self).cols + new_cols@.len() <= usize::MAX,
        ensures
            final(self).wf(),
            final(self).header == old(self).header,
            (final(self).grid(), final(self).cols as nat) == cols_added(
                old(self).grid(),
                old(self).cols as nat,
                vec_grid(new_cols@),
            ),
    {
        let ghost gc = vec_grid(new_cols@);
        let ghost g0 = old(self).grid();
        let ghost c0 = old(self).cols as nat;
        let mut new_cols = new_cols;
        let mut j: usize = 0;
        proof {
            assert(gc.take(0) =~= Seq::<Seq<Entry<T>>>::empty());
        }
        while new_cols.len() > 0
            invariant
                self.wf(),
                self.header == old(self).header,
                j + new_cols@.len() == gc.len(),
                self.cols == old(self).cols + j,
                forall|q: int| 0 <= q < new_cols@.len() ==> (#[trigger] new_cols@[q])@ == gc[j
                    + q],
                (self.grid(), self.cols as nat) == cols_added_one_by_one(
                    g0,
                    c0,
                    gc.take(j as int),
                ),
            decreases new_cols@.len(),
        {
            let c = new_cols.remove(0);
            self.add_col(c);
            j += 1;
            proof {
                assert(gc.take(j as int) =~= gc.take(j - 1).push(gc[j - 1]));
                lemma_cols_added_one_by_one_push(g0, c0, gc.take(j - 1), gc[j - 1]);
            }
        }
        proof {
            assert(gc.take(gc.len() as int) =~= gc);
            lemma_add_cols_batch_equiv(g0, c0, gc);
        }
    }

    /// Insert a row at `index`, shifting later rows down, as
    /// `row_inserted` describes. `index` must not exceed the row count.
    pub fn insert_row(&mut self, index: usize, row: Vec<Entry<T>>)
        requires
            old(self).wf(),
            index <= old(self).grid().len(),
        ensures
            final(self).wf(),
            final(self).header == old(self).header,
            (final(self).grid(), final(self).cols as nat) == row_inserted(
                old(self).grid(),
                old(self).cols as nat,
                index as int,
                row@,
            ),
    {
        let ghost row0 = row@;
        let w = if row.len() > self.cols {
            row.len()
        } else {
            self.cols
        };
        self.widen_to(w);
        let mut row = row;
        pad_entries(&mut row, w);
        proof {
            assert(self.grid().len() == old(self).grid().len());
            assert(self.data@.len() == self.grid().len());
        }
        self.data.insert(index, row);
        proof {
            assert(self.grid() =~= pad_rows(old(self).grid(), w as nat).insert(
                index as int,
                pad_row(row0, w as nat),
            ));
            assert forall|j: int| 0 <= j < self.grid().len() implies (
            #[trigger] self.grid()[j]).len() == w as nat by {
                if j != index {
                    let q = if j < index {
                        j
                    } else {
                        j - 1
                    };
                    assert(self.grid()[j] == pad_rows(old(self).grid(), w as nat)[q]);
                    assert(old(self).grid()[q].len() == old(self).cols);
                }
            }
        }
    }

    /// Insert a column at `index`, shifting later columns right, as
    /// `col_inserted` describes. `index` must not exceed the column count.
    #[verifier::loop_isolation(false)]
    pub fn insert_col(&mut self, index: usize, col: Vec<Entry<T>>)
        requires
            old(self).wf(),
            index <= old(self).cols,
            old(self).cols < usize::MAX,
        ensures
            final(self).wf(),
            final(self).header == old(self).header,
            (final(self).grid(), final(self).cols as nat) == col_inserted(
                old(self).grid(),
                old(self).cols as nat,
                index as int,
                col@,
            ),
    {
        let ghost gcol = col@;
        let h = if col.len() > self.data.len() {
            col.len()
        } else {
            self.data.len()
        };
        let mut col = col;
        let mut i: usize = 0;
        while i < h
            invariant
                i <= h,
                self.cols == old(self).cols,
                self.header == old(self).header,
                self.data@.len() == if i < old(self).data@.len() {
                    old(self).data@.len() as int
                } else {
                    i as int
                },
                i + col@.len() == if gcol.len() > i {
                    gcol.len() as int
                } else {
                    i as int
                },
                forall|j: int| 0 <= j < col@.len() ==> col@[j] == gcol[i + j],
                forall|j: int| 0 <= j < i ==> (#[trigger] self.data@[j])@ == col_inserted(
                    old(self).grid(),
                    old(self).cols as nat,
                    index as int,
                    gcol,
                ).0[j],
                forall|j: int| i <= j < self.data@.len() ==> self.data@[j] == old(self).data@[j],
            decreases h - i,
        {
            let c = if col.len() > 0 {
                col.remove(0)
            } else {
                Entry::Nil
            };
            if i < self.data.len() {
                proof {
                    assert(old(self).grid()[i as int].len() == old(self).cols);
                }
                self.data[i].insert(index, c);
            } else {
                let mut nr: Vec<Entry<T>> = Vec::new();
                pad_entries(&mut nr, self.cols);
                nr.insert(index, c);
                self.data.push(nr);
            }
            proof {
                assert(self.data@[i as int]@ =~= col_inserted(
                    old(self).grid(),
                    old(self).cols as nat,
                    index as int,
                    gcol,
                ).0[i as int]);
            }
            i += 1;
        }
        self.cols = self.cols + 1;
        proof {
            assert(self.grid() =~= col_inserted(
                old(self).grid(),
                old(self).cols as nat,
                index as int,
                gcol,
            ).0);
            assert forall|j: int| 0 <= j < self.grid().len() implies (
            #[trigger] self.grid()[j]).len() == self.cols as nat by {
                if j < old(self).grid().len() {
                    assert(old(self).grid()[j].len() == old(self).cols);
                }
            }
        }
    }

    /// Delete the row at `index`, shifting later rows up. The column
    /// count is unchanged. `index` must be within the row count.
    pub fn remove_row(&mut self, index: usize)
        requires
            old(self).wf(),
            index < old(self).grid().len(),
        ensures
            final(self).wf(),
            final(self).header == old(self).header,
            final(self).cols == old(self).cols,
            final(self).grid() == old(self).grid().remove(index as int),
    {
        self.data.remove(index);
        proof {
            assert(self.grid() =~= old(self).grid().remove(index as int));
            assert forall|j: int| 0 <= j < self.grid().len() implies (
            #[trigger] self.grid()[j]).len() == self.cols as nat by {
                let q = if j < index {
                    j
                } else {
                    j + 1
                };
                assert(old(self).grid()[q].len() == old(self).cols);
            }
        }
    }

    /// Delete the column at `index`, shifting later columns left and
    /// decreasing the column count by one. `index` must be within the
    /// column count.
    #[verifier::loop_isolation(false)]
    pub fn remove_col(&mut self, index: usize)
        requires
            old(self).wf(),
            index < old(self).cols,
        ensures
            final(self).wf(),
            final(self).header == old(self).header,
            final(self).cols == old(self).cols - 1,
            final(self).grid().len() == old(self).grid().len(),
            forall|i: int| 0 <= i < old(self).grid().len() ==> #[trigger] final(self).grid()[i]
                == old(self).grid()[i].remove(index as int),
    {
        let n = self.data.len();
        let mut i: usize = 0;
        while i < n
            invariant
                i <= n,
                self.data@.len() == n,
                self.cols == old(self).cols,
                self.header == old(self).header,
                forall|j: int| 0 <= j < i ==> (#[trigger] self.data@[j])@ == old(self).grid()[
                    j
                ].remove(index as int),
                forall|j: int| i <= j < n ==> self.data@[j] == old(self).data@[j],
            decreases n - i,
        {
            proof {
                assert(old(self).grid()[i as int].len() == old(self).cols);
            }
            self.data[i].remove(index);
            i += 1;
        }
        self.cols = self.cols - 1;
        proof {
            assert forall|j: int| 0 <= j < self.grid().len() implies (
            #[trigger] self.grid()[j]).len() == self.cols as nat by {
                assert(old(self).grid()[j].len() == old(self).cols);
            }
        }
    }

    /// A borrowed view of the row at `index`, or nothing when `index` is
    /// out of range.
    pub fn row(&self, index: usize) -> (r: Option<&Vec<Entry<T>>>)
        ensures
            index < self.grid().len() ==> r is Some && r->Some_0@ == self.grid()[index as int],
            index >= self.grid().len() ==> r is None,
    {
        if index < self.data.len() {
            Some(&self.data[index])
        } else {
            None
        }
    }

    /// Borrowed references to the column at `index`, top to bottom, or
    /// nothing when `index` is out of range.
    #[verifier::loop_isolation(false)]
    pub fn col(&self, index: usize) -> (r: Option<Vec<&Entry<T>>>)
        requires
            self.wf(),
        ensures
            index < self.cols ==> r is Some && r->Some_0@.len() == self.grid().len() && forall|
                i: int,
            |
                0 <= i < self.grid().len() ==> *(#[trigger] r->Some_0@[i]) == self.grid()[i][
                    index as int
                ],
            index >= self.cols ==> r is None,
    {
        if index < self.cols {
            let mut v: Vec<&Entry<T>> = Vec::new();
            let mut i: usize = 0;
            while i < self.data.len()
                invariant
                    i <= self.data@.len(),
                    v@.len() == i,
                    forall|j: int| 0 <= j < i ==> *(#[trigger] v@[j]) == self.grid()[j][
                        index as int
                    ],
                decreases self.data@.len() - i,
            {
                proof {
                    assert(self.grid()[i as int].len() == self.cols);
                }
                v.push(&self.data[i][index]);
                i += 1;
            }
            Some(v)
        } else {
            None
        }
    }

    /// A borrowed view of every row, in stored order.
    pub fn rows(&self) -> (r: &Vec<Vec<Entry<T>>>)
        ensures
            vec_grid(r@) == self.grid(),
    {
        &self.data
    }

    /// Borrowed references to every column, in stored order, each column
    /// top to bottom.
    #[verifier::loop_isolation(false)]
    pub fn cols(&self) -> (r: Vec<Vec<&Entry<T>>>)
        requires
            self.wf(),
        ensures
            r@.len() == self.cols,
            forall|j: int| 0 <= j < self.cols ==> (#[trigger] r@[j])@.len() == self.grid().len(),
            forall|j: int, i: int|
                0 <= j < self.cols && 0 <= i < self.grid().len() ==> *(#[trigger] r@[j]@[i])
                    == self.grid()[i][j],
    {
        let mut out: Vec<Vec<&Entry<T>>> = Vec::new();
        let mut j: usize = 0;
        while j < self.cols
            invariant
                j <= self.cols,
                out@.len() == j,
                forall|q: int| 0 <= q < j ==> (#[trigger] out@[q])@.len() == self.grid().len(),
                forall|q: int, i: int|
                    0 <= q < j && 0 <= i < self.grid().len() ==> *(#[trigger] out@[q]@[i])
                        == self.grid()[i][q],
            decreases self.cols - j,
        {
            let c = match self.col(j) {
                Some(c) => c,
                None => Vec::new(),
            };
            out.push(c);
            j += 1;
        }
        out
    }

    /// A new table of the same shape and header flag, with `f` applied
    /// independently to every entry.
    #[verifier::loop_isolation(false)]
    pub fn map<U, F: Fn(Entry<T>) -> Entry<U>>(self, f: F) -> (r: Table<U>)
        requires
            self.wf(),
            forall|e: Entry<T>| #[trigger] f.requires((e,)),
        ensures
            r.wf(),
            r.header == self.header,
            r.cols == self.cols,
            r.grid().len() == self.grid().len(),
            forall|i: int, j: int|
                0 <= i < self.grid().len() && 0 <= j < self.cols ==> call_ensures(
                    f,
                    (self.grid()[i][j],),
                    #[trigger] r.grid()[i][j],
                ),
    {
        let ghost g = self.grid();
        let ghost c = self.cols as nat;
        let mut data = self.data;
        let n = data.len();
        proof {
            assert(g.len() == n);
        }
        let mut out: Vec<Vec<Entry<U>>> = Vec::new();
        let mut i: usize = 0;
        while data.len() > 0
            invariant
                g.len() <= usize::MAX,
                i + data@.len() == g.len(),
                forall|q: int| 0 <= q < data@.len() ==> (#[trigger] data@[q])@ == g[i + q],
                out@.len() == i,
                forall|q: int| 0 <= q < i ==> (#[trigger] out@[q])@.len() == c,
                forall|q: int, j: int|
                    0 <= q < i && 0 <= j < c ==> call_ensures(
                        f,
                        (g[q][j],),
                        #[trigger] out@[q]@[j],
                    ),
            decreases data@.len(),
        {
            let mut rin = data.remove(0);
            let ghost rg = g[i as int];
            proof {
                assert(rg.len() == c);
            }
            let mut rout: Vec<Entry<U>> = Vec::new();
            let mut j: usize = 0;
            while rin.len() > 0
                invariant
                    j + rin@.len() == rg.len(),
                    forall|q: int| 0 <= q < rin@.len() ==> #[trigger] rin@[q] == rg[j + q],
                    rout@.len() == j,
                    forall|q: int| 0 <= q < j ==> call_ensures(
                        f,
                        (rg[q],),
                        #[trigger] rout@[q],
                    ),
                decreases rin@.len(),
            {
                let e = rin.remove(0);
                rout.push(f(e));
                j += 1;
            }
            out.push(rout);
            i += 1;
        }
        let r = Table { data: out, cols: self.cols, header: self.header };
        proof {
            assert(r.grid().len() == g.len());
        }
        r
    }

    /// A new table of the same shape and header flag: `Nil` and `Num`
    /// entries are carried over unchanged, and `f` is applied to every
    /// `Obj` payload.
    #[verifier::loop_isolation(false)]
    pub fn map_obj<U, F: Fn(T) -> Entry<U>>(self, f: F) -> (r: Table<U>)
        requires
            self.wf(),
            forall|t: T| #[trigger] f.requires((t,)),
        ensures
            r.wf(),
            r.header == self.header,
            r.cols == self.cols,
            r.grid().len() == self.grid().len(),
            forall|i: int, j: int|
                0 <= i < self.grid().len() && 0 <= j < self.cols ==> match self.grid()[i][j] {
                    Entry::Nil => #[trigger] r.grid()[i][j] is Nil,
                    Entry::Num(n) => r.grid()[i][j] == Entry::<U>::Num(n),
                    Entry::Obj(t) => call_ensures(f, (t,), r.grid()[i][j]),
                },
    {
        let ghost g = self.grid();
        let ghost c = self.cols as nat;
        let mut data = self.data;
        let n = data.len();
        proof {
            assert(g.len() == n);
        }
        let mut out: Vec<Vec<Entry<U>>> = Vec::new();
        let mut i: usize = 0;
        while data.len() > 0
            invariant
                g.len() <= usize::MAX,
                i + data@.len() == g.len(),
                forall|q: int| 0 <= q < data@.len() ==> (#[trigger] data@[q])@ == g[i + q],
                out@.len() == i,
                forall|q: int| 0 <= q < i ==> (#[trigger] out@[q])@.len() == c,
                forall|q: int, j: int|
                    0 <= q < i && 0 <= j < c ==> match g[q][j] {
                        Entry::Nil => #[trigger] out@[q]@[j] is Nil,
                        Entry::Num(n) => out@[q]@[j] == Entry::<U>::Num(n),
                        Entry::Obj(t) => call_ensures(f, (t,), out@[q]@[j]),
                    },
            decreases data@.len(),
        {
            let mut rin = data.remove(0);
            let ghost rg = g[i as int];
            proof {
                assert(rg.len() == c);
            }
            let mut rout: Vec<Entry<U>> = Vec::new();
            let mut j: usize = 0;
            while rin.len() > 0
                invariant
                    j + rin@.len() == rg.len(),
                    forall|q: int| 0 <= q < rin@.len() ==> #[trigger] rin@[q] == rg[j + q],
                    rout@.len() == j,
                    forall|q: int| 0 <= q < j ==> match rg[q] {
                        Entry::Nil => #[trigger] rout@[q] is Nil,
                        Entry::Num(n) => rout@[q] == Entry::<U>::Num(n),
                        Entry::Obj(t) => call_ensures(f, (t,), rout@[q]),
                    },
                decreases rin@.len(),
            {
                let e = rin.remove(0);
                let mapped = match e {
                    Entry::Nil => Entry::Nil,
                    Entry::Num(n) => Entry::Num(n),
                    Entry::Obj(t) => f(t),
                };
                rout.push(mapped);
                j += 1;
            }
            out.push(rout);
            i += 1;
        }
        let r = Table { data: out, cols: self.cols, header: self.header };
        proof {
            assert(r.grid().len() == g.len());
        }
        r
    }

    /// Build a table from a nested vector of rows: the width is the
    /// widest inner vector, shorter rows are padded with `Nil`, and the
    /// header flag defaults to set.
    pub fn from_vecs(rows: Vec<Vec<Entry<T>>>) -> (t: Table<T>)
        ensures
            t.wf(),
            t.header == true,
            (t.grid(), t.cols as nat) == rows_added(
                Seq::<Seq<Entry<T>>>::empty(),
                0,
                vec_grid(rows@),
            ),
    {
        let mut t = Table::new();
        t.add_rows(rows);
        proof {
            assert(pad_rows(Seq::<Seq<Entry<T>>>::empty(), rows_added(
                Seq::<Seq<Entry<T>>>::empty(),
                0,
                vec_grid(rows@),
            ).1) =~= Seq::<Seq<Entry<T>>>::empty());
        }
        t
    }

    /// Pad every stored row to width `w` and record the new width.
    #[verifier::loop_isolation(false)]
    fn widen_to(&mut self, w: usize)
        requires
            old(self).wf(),
            w >= old(self).cols,
        ensures
            final(self).wf(),
            final(self).header == old(self).header,
            final(self).cols == w,
            final(self).grid() == pad_rows(old(self).grid(), w as nat),
    {
        let n = self.data.len();
        let mut i: usize = 0;
        while i < n
            invariant
                i <= n,
                self.data@.len() == n,
                self.cols == old(self).cols,
                self.header == old(self).header,
                forall|j: int| 0 <= j < i ==> (#[trigger] self.data@[j])@ == pad_row(
                    old(self).grid()[j],
                    w as nat,
                ),
                forall|j: int| i <= j < n ==> self.data@[j] == old(self).data@[j],
            decreases n - i,
        {
            pad_entries(&mut self.data[i], w);
            i += 1;
        }
        self.cols = w;
        proof {
            assert(self.grid() =~= pad_rows(old(self).grid(), w as nat));
            assert forall|j: int| 0 <= j < self.grid().len() implies (
                #[trigger] self.grid()[j]).len() == w as nat by {
                assert(old(self).grid()[j].len() == old(self).cols);
            }
        }
    }
}

/// Padding a row to width `w1` and then to a width `w2` at least as large
/// is the same as padding it to `w2` at once.
pub proof fn lemma_pad_row_twice<T>(r: Seq<Entry<T>>, w1: nat, w2: nat)
    requires
        w1 <= w2,
    ensures
        pad_row(pad_row(r, w1), w2) == pad_row(r, w2),
{
    assert(pad_row(pad_row(r, w1), w2) =~= pad_row(r, w2));
}

/// Padding rows that are already exactly `cols` wide changes nothing.
pub proof fn lemma_pad_rows_identity<T>(rows: Seq<Seq<Entry<T>>>, cols: nat)
    requires
        wf_rows(rows, cols),
    ensures
        pad_rows(rows, cols) == rows,
{
    assert(pad_rows(rows, cols) =~= rows);
}

/// `max_width` splits off the first row the same way it splits off the
/// last.
pub proof fn lemma_max_width_drop_first<T>(rows: Seq<Seq<Entry<T>>>)
    requires
        rows.len() > 0,
    ensures
        max_width(rows) == if rows.first().len() > max_width(rows.drop_first()) {
            rows.first().len()
        } else {
            max_width(rows.drop_first())
        },
    decreases rows.len(),
{
    if rows.len() == 1 {
        assert(rows.drop_last() =~= rows.drop_first());
    } else {
        lemma_max_width_drop_first(rows.drop_last());
        assert(rows.drop_last().first() == rows.first());
        assert(rows.drop_last().drop_first() =~= rows.drop_first().drop_last());
        assert(rows.drop_first().last() == rows.last());
    }
}

/// Batch equivalence for rows: appending a sequence of rows one at a time
/// with `add_row` reaches exactly the grid and column count that a single
/// `add_rows` call on the whole sequence reaches.
pub proof fn lemma_add_rows_batch_equiv<T>(
    rows: Seq<Seq<Entry<T>>>,
    cols: nat,
    new_rows: Seq<Seq<Entry<T>>>,
)
    requires
        wf_rows(rows, cols),
    ensures
        rows_added_one_by_one(rows, cols, new_rows) == rows_added(rows, cols, new_rows),
    decreases new_rows.len(),
{
    if new_rows.len() == 0 {
        lemma_pad_rows_identity(rows, cols);
        assert(pad_rows(rows, cols) + pad_rows(new_rows, cols) =~= rows);
    } else {
        let r0 = new_rows.first();
        let rest = new_rows.drop_first();
        let step = row_added(rows, cols, r0);
        let w1 = step.1;
        assert forall|i: int| 0 <= i < step.0.len() implies (#[trigger] step.0[i]).len()
            == w1 by {
            if i < rows.len() {
                assert(rows[i].len() == cols);
            }
        }
        lemma_add_rows_batch_equiv(step.0, w1, rest);
        lemma_max_width_drop_first(new_rows);
        let w = rows_added(rows, cols, new_rows).1;
        assert(rows_added(step.0, w1, rest).1 == w);
        assert forall|i: int| 0 <= i < rows.len() + new_rows.len() implies pad_rows(
            step.0,
            w,
        ).add(pad_rows(rest, w))[i] == pad_rows(rows, w).add(pad_rows(new_rows, w))[i] by {
            if i < rows.len() {
                lemma_pad_row_twice(rows[i], w1, w);
            } else if i == rows.len() {
                lemma_pad_row_twice(r0, w1, w);
            }
        }
        assert(rows_added(step.0, w1, rest).0 =~= rows_added(rows, cols, new_rows).0);
    }
}

/// Batch equivalence for columns: appending a sequence of columns one at
/// a time with `add_col` reaches exactly the grid and column count that a
/// single `add_cols` call on the whole sequence reaches.
pub proof fn lemma_add_cols_batch_equiv<T>(
    rows: Seq<Seq<Entry<T>>>,
    cols: nat,
    new_cols: Seq<Seq<Entry<T>>>,
)
    requires
        wf_rows(rows, cols),
    ensures
        cols_added_one_by_one(rows, cols, new_cols) == cols_added(rows, cols, new_cols),
    decreases new_cols.len(),
{
    if new_cols.len() == 0 {
        assert forall|i: int| 0 <= i < rows.len() implies cols_added(rows, cols, new_cols).0[i]
            == rows[i] by {
            assert(cols_added(rows, cols, new_cols).0[i] =~= rows[i]);
        }
        assert(cols_added(rows, cols, new_cols).0 =~= rows);
    } else {
        let c0 = new_cols.first();
        let rest = new_cols.drop_first();
        let step = col_added(rows, cols, c0);
        assert forall|i: int| 0 <= i < step.0.len() implies (#[trigger] step.0[i]).len() == cols
            + 1 by {
            if i < rows.len() {
                assert(rows[i].len() == cols);
            }
        }
        lemma_add_cols_batch_equiv(step.0, (cols + 1) as nat, rest);
        lemma_max_width_drop_first(new_cols);
        let target = cols_added(rows, cols, new_cols);
        let lhs = cols_added(step.0, (cols + 1) as nat, rest);
        assert(lhs.1 == target.1);
        assert forall|i: int| 0 <= i < target.0.len() implies lhs.0[i] == target.0[i] by {
            lemma_max_width_le_all(rest);
            assert(lhs.0[i] =~= target.0[i]);
        }
        assert(lhs.0 =~= target.0);
    }
}

/// Every row is at most `max_width` wide; quantified form of
/// `lemma_max_width_le`.
pub proof fn lemma_max_width_le_all<T>(rows: Seq<Seq<Entry<T>>>)
    ensures
        forall|k: int| 0 <= k < rows.len() ==> (#[trigger] rows[k]).len() <= max_width(rows),
{
    assert forall|k: int| 0 <= k < rows.len() implies (#[trigger] rows[k]).len() <= max_width(
        rows,
    ) by {
        lemma_max_width_le(rows, k);
    }
}

/// Appending the columns of `new_cols` one at a time and then one more
/// column `c` is the same as appending `new_cols.push(c)` one at a time.
pub proof fn lemma_cols_added_one_by_one_push<T>(
    rows: Seq<Seq<Entry<T>>>,
    cols: nat,
    new_cols: Seq<Seq<Entry<T>>>,
    c: Seq<Entry<T>>,
)
    ensures
        cols_added_one_by_one(rows, cols, new_cols.push(c)) == ({
            let p = cols_added_one_by_one(rows, cols, new_cols);
            col_added(p.0, p.1, c)
        }),
    decreases new_cols.len(),
{
    reveal_with_fuel(cols_added_one_by_one, 2);
    if new_cols.len() == 0 {
        assert(new_cols.push(c).first() == c);
        assert(new_cols.push(c).drop_first() =~= Seq::<Seq<Entry<T>>>::empty());
        let step = col_added(rows, cols, c);
        assert(cols_added_one_by_one(step.0, step.1, new_cols.push(c).drop_first()) == step);
    } else {
        assert(new_cols.push(c).first() == new_cols.first());
        assert(new_cols.push(c).drop_first() =~= new_cols.drop_first().push(c));
        let step = col_added(rows, cols, new_cols.first());
        lemma_cols_added_one_by_one_push(step.0, step.1, new_cols.drop_first(), c);
        assert(cols_added_one_by_one(rows, cols, new_cols.push(c)) == cols_added_one_by_one(
            step.0,
            step.1,
            new_cols.drop_first().push(c),
        ));
    }
}

/// Insert/remove inverse: inserting a row that does not widen the table
/// at position `i` and immediately removing the row at position `i`
/// restores the prior grid and column count.
pub proof fn lemma_insert_then_remove_row<T>(
    rows: Seq<Seq<Entry<T>>>,
    cols: nat,
    i: int,
    row: Seq<Entry<T>>,
)
    requires
        wf_rows(rows, cols),
        0 <= i <= rows.len(),
        row.len() <= cols,
    ensures
        row_inserted(rows, cols, i, row).0.remove(i) == rows,
        row_inserted(rows, cols, i, row).1 == cols,
{
    lemma_pad_rows_identity(rows, cols);
    assert(row_inserted(rows, cols, i, row).0.remove(i) =~= rows);
}

impl<T> Default for Table<T> {
    /// A default table is empty, with the header flag set.
    fn default() -> (t: Self)
        ensures
            t.wf(),
            t.grid() == Seq::<Seq<Entry<T>>>::empty(),
            t.cols == 0,
            t.header == true,
    {
        Table::new()
    }
}

/// Push empty entries onto `r` until it is `w` wide; a vector already that
/// wide or wider is unchanged.
#[verifier::loop_isolation(false)]
fn pad_entries<T>(r: &mut Vec<Entry<T>>, w: usize)
    ensures
        final(r)@ == pad_row(old(r)@, w as nat),
{
    while r.len() < w
        invariant
            old(r)@.len() <= r@.len(),
            r@.len() <= w || r@.len() == old(r)@.len(),
            r@.subrange(0, old(r)@.len() as int) == old(r)@,
            forall|j: int| old(r)@.len() <= j < r@.len() ==> r@[j] == Entry::<T>::Nil,
        decreases w - r@.len(),
    {
        r.push(Entry::Nil);
        proof {
            assert(r@.subrange(0, old(r)@.len() as int) =~= old(r)@);
        }
    }
    proof {
        assert(r@ =~= pad_row(old(r)@, w as nat));
    }
}

} // verus!
