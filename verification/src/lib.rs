//! An in-memory rectangular table of tagged cells, and a
//! delimiter-separated-value parser that builds one from text.
//!
//! A table owns a grid of [`Entry`] values and keeps every row exactly
//! [`Table::cols_len`] cells wide, padding with [`Entry::Nil`] whenever an
//! operation widens or lengthens the grid. [`parse_dsv`] scans a text buffer
//! once, splitting rows on line boundaries and cells on a delimiter, with a
//! single-toggle quoting rule, and classifies each cell as empty, numeric or
//! plain text.

mod entry;
mod number;
mod parsing;
mod table;

pub use entry::{entry_text, str_entry_chars, string_entry_chars, Entry};
pub use number::{num_cmp, num_str_of, number_of};
pub use parsing::{
    cell_body_start, cell_end, cell_next, cell_quoted, cell_raw, cell_value, classify, clean_cell,
    grid_chars, is_cell_end, is_skip_ws, is_trim_ws, lemma_cell_next_advances, lemma_line_priority,
    lemma_newline_ends_row, lemma_quote_close_line_priority, lemma_scan_cell_end_bounds,
    lemma_scan_row_next, lemma_scan_ws_le, lemma_scan_ws_props, parse_dsv, row_chars,
    scan_cell_end, scan_row, scan_rows, scan_ws, strip_quotes, trim_end_ws,
};
pub use table::{
    col_added, col_inserted, cols_added, cols_added_one_by_one, lemma_add_cols_batch_equiv,
    lemma_add_rows_batch_equiv, lemma_cols_added_one_by_one_push, lemma_insert_then_remove_row,
    lemma_max_width_drop_first, lemma_max_width_le, lemma_max_width_le_all, lemma_pad_row_twice,
    lemma_pad_rows_identity, max_width, nil_row, pad_row, pad_rows, row_added, row_inserted,
    rows_added, rows_added_one_by_one, vec_grid, wf_rows, Table,
};
