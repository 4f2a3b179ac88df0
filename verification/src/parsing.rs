//! The delimiter-separated-value parser.
//!
//! [`parse_dsv`] scans its input once, left to right. A physical line
//! boundary (`\n`, `\r\n`, or a lone `\r`) ends the current row. Within a
//! row, each cell skips leading blank space, then, if the first character
//! is a double-quote, treats delimiters and line breaks as ordinary
//! content until a second double-quote appears; the second quote ends
//! quoted mode for good — a later double-quote does not resume it. The
//! scanned cell text has trailing whitespace trimmed and at most one
//! leading and one trailing double-quote stripped, and is then classified:
//! empty text is `Nil`, text that `kserd` reads as a number is `Num`, and
//! anything else is `Obj`, borrowing the input buffer directly.
//!
//! The spec functions in this module are the grammar: the scan functions
//! say where whitespace, cells and rows end, and the parser's contract
//! says its table holds exactly the classified cells of that grammar,
//! padded to a rectangle.

use vstd::prelude::*;
use vstd::string::StrSliceExecFns;

use crate::entry::{str_entry_chars, Entry};
use crate::number::{number_of, parse_number};
use crate::table::{max_width, pad_row, rows_added, vec_grid, Table};

verus! {

/// Blank space skipped before a cell: ASCII whitespace except line
/// breaks.
pub open spec fn is_skip_ws(c: char) -> bool {
    c == ' ' || c == '\t' || c == '\x0C'
}

/// Whitespace trimmed from the end of a scanned cell: the Unicode
/// `White_Space` characters, the set that `str::trim_end` removes.
pub open spec fn is_trim_ws(c: char) -> bool {
    ||| c == ' '
    ||| ('\u{9}' <= c && c <= '\u{D}')
    ||| c == '\u{85}'
    ||| c == '\u{A0}'
    ||| c == '\u{1680}'
    ||| ('\u{2000}' <= c && c <= '\u{200A}')
    ||| c == '\u{2028}'
    ||| c == '\u{2029}'
    ||| c == '\u{202F}'
    ||| c == '\u{205F}'
    ||| c == '\u{3000}'
}

/// A character that ends an unquoted cell scan: the delimiter or a line
/// break.
pub open spec fn is_cell_end(c: char, d: char) -> bool {
    c == d || c == '\n' || c == '\r'
}

/// The first position at or after `i` that does not hold skippable blank
/// space (or the end of the text).
pub open spec fn scan_ws(s: Seq<char>, i: int) -> int
    decreases s.len() - i when 0 <= i <= s.len()
{
    if i == s.len() || !is_skip_ws(s[i]) {
        i
    } else {
        scan_ws(s, i + 1)
    }
}

/// Where the cell body that starts at `i` ends: at the first delimiter or
/// line break seen while not in quoted mode, or at the end of the text.
/// A double-quote leaves quoted mode and never re-enters it.
pub open spec fn scan_cell_end(s: Seq<char>, d: char, i: int, quoted: bool) -> int
    decreases s.len() - i when 0 <= i <= s.len()
{
    if i == s.len() {
        i
    } else if !quoted && is_cell_end(s[i], d) {
        i
    } else if s[i] == '"' {
        scan_cell_end(s, d, i + 1, false)
    } else {
        scan_cell_end(s, d, i + 1, quoted)
    }
}

/// Whether the cell whose scan starts at `i` opens with a double-quote
/// (after skipping blank space).
pub open spec fn cell_quoted(s: Seq<char>, i: int) -> bool {
    let j = scan_ws(s, i);
    j < s.len() && s[j] == '"'
}

/// Where the body of the cell whose scan starts at `i` begins: after the
/// skipped blank space, and after the opening quote when there is one.
pub open spec fn cell_body_start(s: Seq<char>, i: int) -> int {
    if cell_quoted(s, i) {
        scan_ws(s, i) + 1
    } else {
        scan_ws(s, i)
    }
}

/// Where the body of the cell whose scan starts at `i` ends.
pub open spec fn cell_end(s: Seq<char>, d: char, i: int) -> int {
    scan_cell_end(s, d, cell_body_start(s, i), cell_quoted(s, i))
}

/// The raw text of the cell whose scan starts at `i`: the body between
/// start and end, trailing whitespace and quotes not yet removed.
pub open spec fn cell_raw(s: Seq<char>, d: char, i: int) -> Seq<char> {
    s.subrange(cell_body_start(s, i), cell_end(s, d, i))
}

/// Where the next cell scan starts: one past the delimiter that ended
/// this cell, or exactly at the line break or text end that did.
pub open spec fn cell_next(s: Seq<char>, d: char, i: int) -> int {
    let e = cell_end(s, d, i);
    if e < s.len() && s[e] == d {
        e + 1
    } else {
        e
    }
}

/// `t` with trailing whitespace removed.
pub open spec fn trim_end_ws(t: Seq<char>) -> Seq<char>
    decreases t.len(),
{
    if t.len() > 0 && is_trim_ws(t.last()) {
        trim_end_ws(t.drop_last())
    } else {
        t
    }
}

/// `t` with at most one leading and then at most one trailing
/// double-quote removed.
pub open spec fn strip_quotes(t: Seq<char>) -> Seq<char> {
    let a = if t.len() > 0 && t.first() == '"' {
        t.drop_first()
    } else {
        t
    };
    if a.len() > 0 && a.last() == '"' {
        a.drop_last()
    } else {
        a
    }
}

/// The cell text after trimming trailing whitespace and stripping the
/// surrounding quotes.
pub open spec fn clean_cell(t: Seq<char>) -> Seq<char> {
    strip_quotes(trim_end_ws(t))
}

/// How cleaned cell text is classified: empty text is `Nil`, text that
/// `kserd`'s numeric grammar accepts is `Num` holding that number, and
/// anything else is `Obj` holding the text.
pub open spec fn classify(t: Seq<char>) -> Entry<Seq<char>> {
    if t.len() == 0 {
        Entry::Nil
    } else if number_of(t) is Some {
        Entry::Num(number_of(t)->Some_0)
    } else {
        Entry::Obj(t)
    }
}

/// The classified value of the cell whose scan starts at `i`.
pub open spec fn cell_value(s: Seq<char>, d: char, i: int) -> Entry<Seq<char>> {
    classify(clean_cell(cell_raw(s, d, i)))
}

/// `scan_ws` stays within the text, never moves backwards, and stops on a
/// non-skippable character.
pub proof fn lemma_scan_ws_props(s: Seq<char>, i: int)
    requires
        0 <= i <= s.len(),
    ensures
        i <= scan_ws(s, i) <= s.len(),
        scan_ws(s, i) == s.len() || !is_skip_ws(s[scan_ws(s, i)]),
    decreases s.len() - i,
{
    if !(i == s.len() || !is_skip_ws(s[i])) {
        lemma_scan_ws_props(s, i + 1);
    }
}

/// `scan_cell_end` stays within the text and never moves backwards.
pub proof fn lemma_scan_cell_end_bounds(s: Seq<char>, d: char, i: int, quoted: bool)
    requires
        0 <= i <= s.len(),
    ensures
        i <= scan_cell_end(s, d, i, quoted) <= s.len(),
    decreases s.len() - i,
{
    if i < s.len() && !(!quoted && is_cell_end(s[i], d)) {
        if s[i] == '"' {
            lemma_scan_cell_end_bounds(s, d, i + 1, false);
        } else {
            lemma_scan_cell_end_bounds(s, d, i + 1, quoted);
        }
    }
}

/// A cell scan that does not start on a line break makes progress: the
/// next scan position lies strictly beyond `i` and within the text.
pub proof fn lemma_cell_next_advances(s: Seq<char>, d: char, i: int)
    requires
        0 <= i <= s.len(),
    ensures
        i <= cell_next(s, d, i) <= s.len(),
        i < s.len() && s[i] != '\n' && s[i] != '\r' ==> i < cell_next(s, d, i),
{
    lemma_scan_ws_props(s, i);
    let j = scan_ws(s, i);
    let k = cell_body_start(s, i);
    lemma_scan_cell_end_bounds(s, d, k, cell_quoted(s, i));
    let e = cell_end(s, d, i);
    if i < s.len() && s[i] != '\n' && s[i] != '\r' {
        if cell_quoted(s, i) {
        } else if j == s.len() {
        } else if is_cell_end(s[j], d) {
            if s[j] != d {
                assert(j > i);
            }
        } else {
            lemma_scan_cell_end_bounds(s, d, j + 1, false);
            assert(scan_cell_end(s, d, j, false) == scan_cell_end(s, d, j + 1, false));
        }
    }
}

/// One row of the input, scanned from `i`: the classified cells of the
/// row, and the position just past the line break that ended it (or the
/// text end). A row ends at `\n`, at `\r\n`, or at a lone `\r`; the
/// boundary check comes before the cell scan, so an empty line is an
/// empty row.
pub open spec fn scan_row(s: Seq<char>, d: char, i: int) -> (Seq<Entry<Seq<char>>>, int)
    decreases s.len() - i when 0 <= i <= s.len() via scan_row_dec
{
    if i == s.len() {
        (Seq::empty(), i)
    } else if s[i] == '\n' {
        (Seq::empty(), i + 1)
    } else if s[i] == '\r' {
        if i + 1 < s.len() && s[i + 1] == '\n' {
            (Seq::empty(), i + 2)
        } else {
            (Seq::empty(), i + 1)
        }
    } else {
        let rest = scan_row(s, d, cell_next(s, d, i));
        (seq![cell_value(s, d, i)] + rest.0, rest.1)
    }
}

#[via_fn]
proof fn scan_row_dec(s: Seq<char>, d: char, i: int) {
    if 0 <= i <= s.len() {
        lemma_cell_next_advances(s, d, i);
    }
}

/// Every row of the input from `i` on: one row per line boundary, and a
/// final row for a last line that does not end in a line break. Empty
/// input has no rows.
pub open spec fn scan_rows(s: Seq<char>, d: char, i: int) -> Seq<Seq<Entry<Seq<char>>>>
    decreases s.len() - i when 0 <= i <= s.len() via scan_rows_dec
{
    if i == s.len() {
        Seq::empty()
    } else {
        let row = scan_row(s, d, i);
        seq![row.0] + scan_rows(s, d, row.1)
    }
}

#[via_fn]
proof fn scan_rows_dec(s: Seq<char>, d: char, i: int) {
    if 0 <= i <= s.len() {
        lemma_scan_row_next(s, d, i);
    }
}

/// A row scan stays within the text, and makes progress whenever it did
/// not start at the text end.
pub proof fn lemma_scan_row_next(s: Seq<char>, d: char, i: int)
    requires
        0 <= i <= s.len(),
    ensures
        i <= scan_row(s, d, i).1 <= s.len(),
        i < s.len() ==> i < scan_row(s, d, i).1,
    decreases s.len() - i,
{
    if i == s.len() {
    } else if s[i] == '\n' || s[i] == '\r' {
    } else {
        lemma_cell_next_advances(s, d, i);
        lemma_scan_row_next(s, d, cell_next(s, d, i));
    }
}

/// `scan_ws` never skips past a non-skippable character.
pub proof fn lemma_scan_ws_le(s: Seq<char>, i: int, p: int)
    requires
        0 <= i <= p < s.len(),
        !is_skip_ws(s[p]),
    ensures
        scan_ws(s, i) <= p,
    decreases p - i,
{
    if i < p && is_skip_ws(s[i]) {
        lemma_scan_ws_le(s, i + 1, p);
    }
}

/// Line priority, row level: when no double-quote stands between the scan
/// position and a newline, and the delimiter is not itself a line break,
/// the newline ends the row — the row scan stops no later than just past
/// it.
pub proof fn lemma_newline_ends_row(s: Seq<char>, d: char, i: int, p: int)
    requires
        0 <= i <= p < s.len(),
        s[p] == '\n',
        d != '\n',
        forall|m: int| i <= m < p ==> s[m] != '"',
    ensures
        scan_row(s, d, i).1 <= p + 1,
    decreases p - i,
{
    if s[i] == '\n' || s[i] == '\r' {
    } else {
        lemma_scan_ws_le(s, i, p);
        let j = scan_ws(s, i);
        lemma_scan_ws_props(s, i);
        assert(!cell_quoted(s, i));
        lemma_line_priority(s, d, j, p);
        let e = cell_end(s, d, i);
        assert(e <= p);
        let nx = cell_next(s, d, i);
        lemma_cell_next_advances(s, d, i);
        assert(nx <= p);
        assert(scan_row(s, d, i).1 == scan_row(s, d, nx).1);
        if nx == p {
            assert(scan_row(s, d, p).1 == p + 1);
        } else {
            lemma_newline_ends_row(s, d, nx, p);
        }
    }
}

/// Line priority, unquoted: once a cell scan is out of quoted mode it can
/// never re-enter it, so the scan ends at or before the next delimiter or
/// line break, whatever quote characters stand in between.
pub proof fn lemma_line_priority(s: Seq<char>, d: char, i: int, p: int)
    requires
        0 <= i <= p < s.len(),
        is_cell_end(s[p], d),
    ensures
        scan_cell_end(s, d, i, false) <= p,
    decreases p - i,
{
    if i < p && !is_cell_end(s[i], d) {
        lemma_line_priority(s, d, i + 1, p);
    }
}

/// Line priority, quoted: if the opening quote of a cell is matched by a
/// second double-quote before a line break or delimiter at `p`, the scan
/// ends at or before `p`. A newline is suppressed only while the opening
/// quote is still unmatched.
pub proof fn lemma_quote_close_line_priority(s: Seq<char>, d: char, i: int, q: int, p: int)
    requires
        0 <= i <= q < p < s.len(),
        s[q] == '"',
        is_cell_end(s[p], d),
    ensures
        scan_cell_end(s, d, i, true) <= p,
    decreases q - i,
{
    if s[i] == '"' {
        lemma_line_priority(s, d, i + 1, p);
    } else {
        lemma_quote_close_line_priority(s, d, i + 1, q, p);
    }
}

/// The cells of a row vector, each with its text payload replaced by the
/// payload's characters.
pub open spec fn row_chars(v: Seq<Entry<&str>>) -> Seq<Entry<Seq<char>>> {
    Seq::new(v.len(), |j: int| str_entry_chars(v[j]))
}

/// A whole grid of borrowed-text cells, each with its text payload
/// replaced by the payload's characters.
pub open spec fn grid_chars(g: Seq<Seq<Entry<&str>>>) -> Seq<Seq<Entry<Seq<char>>>> {
    Seq::new(g.len(), |i: int| row_chars(g[i]))
}

/// Two grids whose rows have the same lengths have the same widest row.
proof fn lemma_max_width_same_lens<A, B>(a: Seq<Seq<Entry<A>>>, b: Seq<Seq<Entry<B>>>)
    requires
        a.len() == b.len(),
        forall|i: int| 0 <= i < a.len() ==> (#[trigger] a[i]).len() == b[i].len(),
    ensures
        max_width(a) == max_width(b),
    decreases a.len(),
{
    if a.len() > 0 {
        lemma_max_width_same_lens(a.drop_last(), b.drop_last());
    }
}

/// Replacing text payloads by their characters commutes with building the
/// padded rectangle out of the scanned rows.
proof fn lemma_chars_of_rows_added(g: Seq<Seq<Entry<&str>>>)
    ensures
        rows_added(Seq::<Seq<Entry<&str>>>::empty(), 0, g).1 == rows_added(
            Seq::<Seq<Entry<Seq<char>>>>::empty(),
            0,
            grid_chars(g),
        ).1,
        grid_chars(rows_added(Seq::<Seq<Entry<&str>>>::empty(), 0, g).0) == rows_added(
            Seq::<Seq<Entry<Seq<char>>>>::empty(),
            0,
            grid_chars(g),
        ).0,
{
    lemma_max_width_same_lens(g, grid_chars(g));
    let w = rows_added(Seq::<Seq<Entry<&str>>>::empty(), 0, g).1;
    let lhs = grid_chars(rows_added(Seq::<Seq<Entry<&str>>>::empty(), 0, g).0);
    let rhs = rows_added(Seq::<Seq<Entry<Seq<char>>>>::empty(), 0, grid_chars(g)).0;
    assert forall|i: int| 0 <= i < g.len() implies lhs[i] == rhs[i] by {
        assert(row_chars(pad_row(g[i], w)) =~= pad_row(row_chars(g[i]), w));
    }
    assert(lhs =~= rhs);
}

/// Whether `c` is skippable blank space.
fn is_skip_ws_exec(c: char) -> (r: bool)
    ensures
        r == is_skip_ws(c),
{
    c == ' ' || c == '\t' || c == '\x0C'
}

/// Whether `c` is trimmed from the end of a cell.
fn is_trim_ws_exec(c: char) -> (r: bool)
    ensures
        r == is_trim_ws(c),
{
    c == ' ' || ('\u{9}' <= c && c <= '\u{D}') || c == '\u{85}' || c == '\u{A0}'
        || c == '\u{1680}' || ('\u{2000}' <= c && c <= '\u{200A}') || c == '\u{2028}'
        || c == '\u{2029}' || c == '\u{202F}' || c == '\u{205F}' || c == '\u{3000}'
}

/// Skip blank space from `i` on.
#[verifier::loop_isolation(false)]
fn skip_ws(s: &str, i: usize, n: usize) -> (r: usize)
    requires
        n == s@.len(),
        i <= n,
    ensures
        r == scan_ws(s@, i as int),
        i <= r <= n,
{
    let mut j = i;
    while j < n && is_skip_ws_exec(s.get_char(j))
        invariant
            i <= j <= n,
            scan_ws(s@, i as int) == scan_ws(s@, j as int),
        decreases n - j,
    {
        j += 1;
    }
    j
}

/// Find where the cell body that starts at `k` ends, entering in the
/// given quote state.
fn find_cell_end(s: &str, d: char, k: usize, quoted: bool, n: usize) -> (r: usize)
    requires
        n == s@.len(),
        k <= n,
    ensures
        r == scan_cell_end(s@, d, k as int, quoted),
        k <= r <= n,
{
    let mut i = k;
    let mut q = quoted;
    while i < n
        invariant_except_break
            n == s@.len(),
            k <= i <= n,
            scan_cell_end(s@, d, k as int, quoted) == scan_cell_end(s@, d, i as int, q),
        ensures
            k <= i <= n,
            scan_cell_end(s@, d, k as int, quoted) == i as int,
        decreases n - i,
    {
        let c = s.get_char(i);
        if !q && (c == d || c == '\n' || c == '\r') {
            break;
        }
        if c == '"' {
            q = false;
        }
        i += 1;
    }
    i
}

/// Trim and classify one scanned cell body: trailing whitespace goes, at
/// most one surrounding double-quote on each side goes, and the rest is
/// `Nil` when empty, `Num` when `kserd` reads a number out of it, and a
/// borrowed `Obj` otherwise.
#[verifier::loop_isolation(false)]
fn make_cell<'a>(raw: &'a str) -> (c: Entry<&'a str>)
    ensures
        str_entry_chars(c) == classify(clean_cell(raw@)),
{
    let n = raw.unicode_len();
    let mut e = n;
    proof {
        assert(raw@.subrange(0, n as int) =~= raw@);
    }
    while e > 0 && is_trim_ws_exec(raw.get_char(e - 1))
        invariant
            e <= n,
            trim_end_ws(raw@) == trim_end_ws(raw@.subrange(0, e as int)),
        decreases e,
    {
        proof {
            assert(raw@.subrange(0, e as int).drop_last() =~= raw@.subrange(0, e - 1));
        }
        e -= 1;
    }
    proof {
        assert(trim_end_ws(raw@) == raw@.subrange(0, e as int));
    }
    let ghost u = trim_end_ws(raw@);
    let b: usize = if e > 0 && raw.get_char(0) == '"' {
        1
    } else {
        0
    };
    let e2: usize = if e > b && raw.get_char(e - 1) == '"' {
        e - 1
    } else {
        e
    };
    proof {
        assert(clean_cell(raw@) =~= raw@.subrange(b as int, e2 as int));
    }
    let t = raw.substring_char(b, e2);
    if t.unicode_len() == 0 {
        Entry::Nil
    } else {
        match parse_number(t) {
            Some(x) => Entry::Num(x),
            None => Entry::Obj(t),
        }
    }
}

/// Whether position `i` starts a line break.
fn at_line_break(s: &str, i: usize, n: usize) -> (r: bool)
    requires
        n == s@.len(),
        i <= n,
    ensures
        r == (i < n && (s@[i as int] == '\n' || s@[i as int] == '\r')),
{
    if i < n {
        let c = s.get_char(i);
        c == '\n' || c == '\r'
    } else {
        false
    }
}

/// Scan one row from `start`: its classified cells, and the position just
/// past the line break that ended it.
#[verifier::loop_isolation(false)]
fn parse_row<'a>(s: &'a str, d: char, start: usize, n: usize) -> (r: (Vec<Entry<&'a str>>, usize))
    requires
        n == s@.len(),
        start <= n,
    ensures
        row_chars(r.0@) == scan_row(s@, d, start as int).0,
        r.1 == scan_row(s@, d, start as int).1,
        start <= r.1 <= n,
{
    let mut cells: Vec<Entry<&'a str>> = Vec::new();
    let mut i = start;
    proof {
        assert(row_chars(cells@) =~= Seq::<Entry<Seq<char>>>::empty());
        assert(row_chars(cells@) + scan_row(s@, d, start as int).0 =~= scan_row(
            s@,
            d,
            start as int,
        ).0);
    }
    while i < n && !at_line_break(s, i, n)
        invariant
            start <= i <= n,
            scan_row(s@, d, start as int).0 == row_chars(cells@) + scan_row(s@, d, i as int).0,
            scan_row(s@, d, start as int).1 == scan_row(s@, d, i as int).1,
        decreases n - i,
    {
        let ghost i0 = i as int;
        let ghost cells0 = cells@;
        let j = skip_ws(s, i, n);
        let quoted = j < n && s.get_char(j) == '"';
        let k = if quoted {
            j + 1
        } else {
            j
        };
        proof {
            assert(quoted == cell_quoted(s@, i0));
            assert(k as int == cell_body_start(s@, i0));
            lemma_scan_cell_end_bounds(s@, d, k as int, quoted);
        }
        let e = find_cell_end(s, d, k, quoted, n);
        let raw = s.substring_char(k, e);
        let cell = make_cell(raw);
        cells.push(cell);
        i = if e < n && s.get_char(e) == d {
            e + 1
        } else {
            e
        };
        proof {
            lemma_cell_next_advances(s@, d, i0);
            assert(raw@ == cell_raw(s@, d, i0));
            assert(str_entry_chars(cell) == cell_value(s@, d, i0));
            assert(i as int == cell_next(s@, d, i0));
            assert(scan_row(s@, d, i0).0 == seq![cell_value(s@, d, i0)] + scan_row(
                s@,
                d,
                i as int,
            ).0);
            assert(row_chars(cells@) =~= row_chars(cells0).push(str_entry_chars(cell)));
            assert(row_chars(cells0) + (seq![cell_value(s@, d, i0)] + scan_row(
                s@,
                d,
                i as int,
            ).0) =~= row_chars(cells0).push(str_entry_chars(cell)) + scan_row(s@, d, i as int).0);
        }
    }
    let next = if i == n {
        i
    } else {
        let c = s.get_char(i);
        if c == '\n' {
            i + 1
        } else if i + 1 < n && s.get_char(i + 1) == '\n' {
            i + 2
        } else {
            i + 1
        }
    };
    proof {
        assert(scan_row(s@, d, i as int).0 =~= Seq::<Entry<Seq<char>>>::empty());
        assert(row_chars(cells@) + scan_row(s@, d, i as int).0 =~= row_chars(cells@));
        assert(next as int == scan_row(s@, d, i as int).1);
    }
    (cells, next)
}

/// Parse delimiter-separated text into a table of borrowed-text cells.
///
/// Line breaks end rows, the delimiter separates cells within a row, and
/// quoting, trimming and classification follow the grammar spelled out by
/// `scan_rows`. The rows are added as one batch, so the table is the
/// padded rectangle of the scanned rows, with the header flag set. The
/// delimiter must be an ASCII character.
#[verifier::loop_isolation(false)]
pub fn parse_dsv<'a>(delimiter: char, data: &'a str) -> (t: Table<&'a str>)
    requires
        delimiter as u32 <= 127,
    ensures
        t.wf(),
        t.header == true,
        (grid_chars(t.grid()), t.cols as nat) == rows_added(
            Seq::<Seq<Entry<Seq<char>>>>::empty(),
            0,
            scan_rows(data@, delimiter, 0),
        ),
{
    let n = data.unicode_len();
    let mut rows: Vec<Vec<Entry<&'a str>>> = Vec::new();
    let mut i: usize = 0;
    proof {
        assert(grid_chars(vec_grid(rows@)) =~= Seq::<Seq<Entry<Seq<char>>>>::empty());
        assert(grid_chars(vec_grid(rows@)) + scan_rows(data@, delimiter, 0) =~= scan_rows(
            data@,
            delimiter,
            0,
        ));
    }
    while i < n
        invariant
            i <= n,
            n == data@.len(),
            grid_chars(vec_grid(rows@)) + scan_rows(data@, delimiter, i as int) == scan_rows(
                data@,
                delimiter,
                0,
            ),
        decreases n - i,
    {
        let ghost i0 = i as int;
        let ghost rows0 = rows@;
        proof {
            lemma_scan_row_next(data@, delimiter, i0);
        }
        let (line, next) = parse_row(data, delimiter, i, n);
        rows.push(line);
        i = next;
        proof {
            assert(scan_rows(data@, delimiter, i0) == seq![scan_row(data@, delimiter, i0).0]
                + scan_rows(data@, delimiter, i as int));
            assert(grid_chars(vec_grid(rows@)) =~= grid_chars(vec_grid(rows0)).push(row_chars(
                line@,
            )));
            assert(grid_chars(vec_grid(rows0)) + (seq![scan_row(data@, delimiter, i0).0]
                + scan_rows(data@, delimiter, i as int)) =~= grid_chars(vec_grid(rows0)).push(
                row_chars(line@),
            ) + scan_rows(data@, delimiter, i as int));
        }
    }
    proof {
        assert(scan_rows(data@, delimiter, n as int) =~= Seq::<Seq<Entry<Seq<char>>>>::empty());
        assert(grid_chars(vec_grid(rows@)) + scan_rows(data@, delimiter, n as int) =~= grid_chars(
            vec_grid(rows@),
        ));
    }
    let t = Table::from_vecs(rows);
    proof {
        lemma_chars_of_rows_added(vec_grid(rows@));
    }
    t
}

} // verus!
