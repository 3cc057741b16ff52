//! The RRM map format and its loader.
//!
//! A map file is newline-delimited text: the first line carries
//! `SIZE=<positive integer N>`, and each following line one bracketed,
//! comma-separated row of `N` cell values. Parsing is deliberately lenient:
//! a malformed size or token degrades to a default instead of failing, rows
//! beyond `N` are ignored, and rows short of `N` leave the remaining cells
//! empty.

use crate::parse::{
    find_from, find_last_from, parse_uint_range, spec_find, spec_find_last, spec_parse_uint,
    spec_split, spec_trim, spec_trim_brackets, trim_bracket_range, trim_space_range,
};
use crate::tile_map::TileMap;
use vstd::prelude::*;
use vstd::string::*;

verus! {

/// Largest accepted map side length: the largest whose squared value (the
/// derived cell size) still fits the cell-size range. A size line outside
/// `1..=MAX_MAP_SIZE` counts as malformed and degrades to the default.
pub const MAX_MAP_SIZE: u32 = 46340;

/// The side length a malformed or absent size line degrades to.
pub const DEFAULT_MAP_SIZE: u32 = 8;

/// An entry of a scanned map folder, as the surrounding program hands it
/// over: the entry's bare name and its full path.
pub struct FileInfo {
    pub name: String,
    pub path: String,
}

/// How a load can fail. `NotFound` reports a missing map folder;
/// `Unreadable` a matched map file whose contents could not be read.
/// A malformed map text is never an error: it degrades to defaults.
#[derive(Clone, Copy, Debug, PartialEq, Eq, Structural)]
pub enum MapError {
    NotFound,
    Unreadable,
}

/// The lines of `s`, split at newline bytes. A trailing newline ends the
/// last line rather than opening an empty one.
pub open spec fn spec_lines(s: Seq<u8>) -> Seq<Seq<u8>>
    decreases s.len(),
{
    if s.len() == 0 {
        Seq::empty()
    } else {
        match spec_find(s, 10u8) {
            None => seq![s],
            Some(i) => if 0 <= i < s.len() {
                seq![s.subrange(0, i)] + spec_lines(s.subrange(i + 1, s.len() as int))
            } else {
                seq![s]
            },
        }
    }
}

/// The part of the size line after its last `=`, or the whole line when it
/// has none.
pub open spec fn spec_size_token(line: Seq<u8>) -> Seq<u8> {
    match spec_find_last(line, 61u8) {
        Some(k) => line.subrange(k + 1, line.len() as int),
        None => line,
    }
}

/// The side length a size line denotes: its token read as an unsigned
/// decimal, with anything malformed or out of range degrading to the
/// default.
pub open spec fn spec_size_value(line: Seq<u8>) -> int {
    match spec_parse_uint(spec_trim(spec_size_token(line))) {
        Some(v) => if 1 <= v <= MAX_MAP_SIZE {
            v
        } else {
            DEFAULT_MAP_SIZE as int
        },
        None => DEFAULT_MAP_SIZE as int,
    }
}

/// The side length of the map a text describes: the value of its first
/// line, or the default when the text has no lines at all.
pub open spec fn spec_map_size(text: Seq<u8>) -> int {
    if spec_lines(text).len() == 0 {
        DEFAULT_MAP_SIZE as int
    } else {
        spec_size_value(spec_lines(text)[0])
    }
}

/// The cell value one comma-separated token denotes: trimmed and read as an
/// unsigned decimal, with anything malformed degrading to 0, empty.
pub open spec fn spec_token_value(tok: Seq<u8>) -> u8 {
    match spec_parse_uint(spec_trim(tok)) {
        Some(v) => if v <= 255 {
            v as u8
        } else {
            0
        },
        None => 0,
    }
}

/// The tokens of one row line: the line is trimmed of whitespace, then of
/// brackets, then split at commas.
pub open spec fn spec_row_tokens(line: Seq<u8>) -> Seq<Seq<u8>> {
    spec_split(spec_trim_brackets(spec_trim(line)), 44u8)
}

/// The `n` cell values a row line denotes: one per token, tokens beyond `n`
/// ignored, cells beyond the last token left empty.
pub open spec fn spec_row_cells(line: Seq<u8>, n: int) -> Seq<u8> {
    Seq::new(
        n as nat,
        |c: int|
            {
                let toks = spec_row_tokens(line);
                if c < toks.len() {
                    spec_token_value(toks[c])
                } else {
                    0u8
                }
            },
    )
}

/// Row `row` of the map a text describes: the cells of line `1 + row`, or
/// an all-empty row when the text has no such line.
pub open spec fn spec_map_row(text: Seq<u8>, n: int, row: int) -> Seq<u8> {
    let ls = spec_lines(text);
    if 1 + row < ls.len() {
        spec_row_cells(ls[1 + row], n)
    } else {
        Seq::new(n as nat, |c: int| 0u8)
    }
}

/// The cell at `(col, row)` of the map a text describes.
pub open spec fn spec_map_cell(text: Seq<u8>, col: int, row: int) -> u8 {
    spec_map_row(text, spec_map_size(text), row)[col]
}

/// What loading `text` leaves behind: a square map of the text's size, the
/// cell size derived as that size squared, and every cell as the text
/// denotes it.
pub open spec fn spec_loaded_from(m: TileMap, text: Seq<u8>) -> bool {
    &&& m.spec_width() == spec_map_size(text)
    &&& m.spec_height() == spec_map_size(text)
    &&& m.spec_cell_size() == spec_map_size(text) * spec_map_size(text)
    &&& forall|col: int, row: int|
        0 <= col < spec_map_size(text) && 0 <= row < spec_map_size(text)
            ==> #[trigger] m.spec_cell_value(col, row) == spec_map_cell(text, col, row)
}

/// Whatever the text, the loaded side length is positive and within the
/// accepted range: no input can produce a degenerate or oversized map.
pub proof fn lemma_map_size_bounds(text: Seq<u8>)
    ensures
        1 <= spec_map_size(text) <= MAX_MAP_SIZE,
{
}

/// A malformed numeric token never fails a load: it reads as the default
/// empty cell, 0.
pub proof fn lemma_malformed_token_defaults(tok: Seq<u8>)
    requires
        spec_parse_uint(spec_trim(tok)) is None,
    ensures
        spec_token_value(tok) == 0,
{
}

/// A token written as the single digit 0 or 1 reads as exactly that value,
/// so a well-formed binary map text loads cell for cell.
pub proof fn lemma_binary_token(tok: Seq<u8>, d: u8)
    requires
        d == 0 || d == 1,
        spec_trim(tok) == seq![(48 + d) as u8],
    ensures
        spec_token_value(tok) == d,
{
    let t = spec_trim(tok);
    assert(crate::parse::spec_all_digits(t));
    assert(t.drop_last() =~= Seq::<u8>::empty());
    assert(crate::parse::spec_digits_value(Seq::<u8>::empty()) == 0);
    assert(t.last() == (48 + d) as u8);
    assert(crate::parse::spec_digits_value(t) == crate::parse::spec_digits_value(t.drop_last())
        * 10 + (t.last() - 48));
    assert(crate::parse::spec_digits_value(t) == d);
}

/// A well-formed binary map text loads cell for cell: wherever the token
/// at `(col, row)` is written as the single digit 0 or 1, the loaded cell
/// holds exactly that value.
pub proof fn lemma_binary_map_text(text: Seq<u8>, n: int, row: int, col: int, d: u8)
    requires
        0 <= row < n,
        0 <= col < n,
        spec_map_size(text) == n,
        1 + row < spec_lines(text).len(),
        ({
            let toks = spec_row_tokens(spec_lines(text)[1 + row]);
            col < toks.len() && (d == 0 || d == 1) && spec_trim(toks[col]) == seq![(48 + d) as u8]
        }),
    ensures
        spec_map_cell(text, col, row) == d,
{
    lemma_binary_token(spec_row_tokens(spec_lines(text)[1 + row])[col], d);
}

/// A whole well-formed binary map text loads cell for cell: where the map
/// has a line per row and every token is written as a single binary digit,
/// the loaded grid is exactly the written one.
pub proof fn lemma_binary_map_grid(text: Seq<u8>, n: int, grid: Seq<Seq<u8>>)
    requires
        spec_map_size(text) == n,
        grid.len() == n,
        forall|r: int|
            0 <= r < n ==> (#[trigger] grid[r]).len() == n && 1 + r < spec_lines(text).len(),
        forall|r: int, c: int|
            0 <= r < n && 0 <= c < n ==> (#[trigger] grid[r][c] == 0 || grid[r][c] == 1),
        forall|r: int, c: int|
            0 <= r < n && 0 <= c < n ==> c < spec_row_tokens(spec_lines(text)[1 + r]).len()
                && #[trigger] spec_trim(spec_row_tokens(spec_lines(text)[1 + r])[c]) == seq![
                (48 + grid[r][c]) as u8,
            ],
    ensures
        forall|col: int, row: int|
            0 <= col < n && 0 <= row < n ==> spec_map_cell(text, col, row) == grid[row][col],
{
    assert forall|col: int, row: int|
        0 <= col < n && 0 <= row < n implies spec_map_cell(text, col, row) == grid[row][col] by {
        let toks = spec_row_tokens(spec_lines(text)[1 + row]);
        assert(spec_trim(toks[col]) == seq![(48 + grid[row][col]) as u8]);
        lemma_binary_map_text(text, n, row, col, grid[row][col]);
    }
}

/// Reads the size line: the token after its last `=`, trimmed and parsed,
/// degraded to the default when malformed or out of range.
fn parse_size_line(v: &Vec<u8>, lo: usize, hi: usize) -> (n: u32)
    requires
        lo <= hi <= v@.len(),
    ensures
        n as int == spec_size_value(v@.subrange(lo as int, hi as int)),
        1 <= n <= MAX_MAP_SIZE,
{
    let ghost line = v@.subrange(lo as int, hi as int);
    let tok_lo: usize;
    match find_last_from(v, lo, hi, 61) {
        Some(k) => {
            tok_lo = k + 1;
            proof {
                assert(spec_size_token(line) == line.subrange(k - lo + 1, line.len() as int));
                assert(v@.subrange(tok_lo as int, hi as int) =~= spec_size_token(line));
            }
        },
        None => {
            tok_lo = lo;
            proof {
                assert(spec_size_token(line) == line);
                assert(v@.subrange(tok_lo as int, hi as int) =~= spec_size_token(line));
            }
        },
    }
    assert(v@.subrange(tok_lo as int, hi as int) == spec_size_token(line));
    let (tlo, thi) = trim_space_range(v, tok_lo, hi);
    match parse_uint_range(v, tlo, thi, MAX_MAP_SIZE) {
        Some(x) => if x >= 1 {
            x
        } else {
            DEFAULT_MAP_SIZE
        },
        None => DEFAULT_MAP_SIZE,
    }
}

/// Reads one comma-separated token as a cell value.
fn token_value(v: &Vec<u8>, lo: usize, hi: usize) -> (val: u8)
    requires
        lo <= hi <= v@.len(),
    ensures
        val == spec_token_value(v@.subrange(lo as int, hi as int)),
{
    let (tlo, thi) = trim_space_range(v, lo, hi);
    match parse_uint_range(v, tlo, thi, 255) {
        Some(x) => x as u8,
        None => 0,
    }
}

/// An all-empty row of `n` cells.
#[verifier::loop_isolation(false)]
fn zero_row(n: usize) -> (row: Vec<u8>)
    ensures
        row@ == Seq::new(n as nat, |c: int| 0u8),
{
    let mut row: Vec<u8> = Vec::new();
    let mut i: usize = 0;
    while i < n
        invariant
            i <= n,
            row@.len() == i,
            forall|c: int| 0 <= c < i ==> row@[c] == 0u8,
        decreases n - i,
    {
        row.push(0);
        i = i + 1;
    }
    proof {
        assert(row@ =~= Seq::new(n as nat, |c: int| 0u8));
    }
    row
}

/// Reads one row line into exactly `n` cells.
#[verifier::loop_isolation(false)]
fn parse_row(v: &Vec<u8>, lo: usize, hi: usize, n: usize) -> (row: Vec<u8>)
    requires
        lo <= hi <= v@.len(),
        1 <= n,
    ensures
        row@ == spec_row_cells(v@.subrange(lo as int, hi as int), n as int),
{
    let ghost line = v@.subrange(lo as int, hi as int);
    let (wlo, whi) = trim_space_range(v, lo, hi);
    let (blo, bhi) = trim_bracket_range(v, wlo, whi);
    let ghost inner = v@.subrange(blo as int, bhi as int);
    proof {
        assert(inner == spec_trim_brackets(spec_trim(line)));
    }
    let ghost toks = spec_split(inner, 44u8);
    let mut row: Vec<u8> = Vec::new();
    let mut c: usize = 0;
    let mut tpos = blo;
    let mut done = false;
    while c < n && !done
        invariant
            row@.len() == c,
            c <= n,
            blo <= tpos <= bhi,
            !done ==> c <= toks.len() && spec_split(
                v@.subrange(tpos as int, bhi as int),
                44u8,
            ) == toks.skip(c as int),
            done ==> toks.len() == c,
            forall|cc: int|
                0 <= cc < c ==> row@[cc] == (if cc < toks.len() {
                    spec_token_value(toks[cc])
                } else {
                    0u8
                }),
        decreases n - c,
    {
        let ghost suffix = v@.subrange(tpos as int, bhi as int);
        proof {
            // a split is never empty, so a token is owed at index c
            assert(spec_split(suffix, 44u8).len() >= 1);
            assert(c < toks.len());
        }
        match find_from(v, tpos, bhi, 44) {
            Some(k) => {
                proof {
                    assert(suffix.subrange(0, k - tpos) =~= v@.subrange(tpos as int, k as int));
                    assert(suffix.subrange(k - tpos + 1, suffix.len() as int) =~= v@.subrange(
                        k as int + 1,
                        bhi as int,
                    ));
                    assert(toks.skip(c as int)[0] == v@.subrange(tpos as int, k as int));
                    assert(toks[c as int] == v@.subrange(tpos as int, k as int));
                    assert(toks.skip(c as int).drop_first() =~= toks.skip(c as int + 1));
                }
                let val = token_value(v, tpos, k);
                row.push(val);
                tpos = k + 1;
                c = c + 1;
            },
            None => {
                proof {
                    assert(spec_split(suffix, 44u8) == seq![suffix]);
                    assert(toks.skip(c as int) =~= seq![suffix]);
                    assert(toks.skip(c as int)[0] == toks[c as int]);
                    assert(toks[c as int] == suffix);
                    assert(toks.len() == c + 1);
                }
                let val = token_value(v, tpos, bhi);
                row.push(val);
                c = c + 1;
                done = true;
            },
        }
    }
    while c < n
        invariant
            row@.len() == c,
            c <= n,
            c < n ==> toks.len() <= c,
            forall|cc: int|
                0 <= cc < c ==> row@[cc] == (if cc < toks.len() {
                    spec_token_value(toks[cc])
                } else {
                    0u8
                }),
        decreases n - c,
    {
        row.push(0);
        c = c + 1;
    }
    proof {
        assert(row@ =~= spec_row_cells(line, n as int));
    }
    row
}

/// Helper for walking the lines of a text: the lines of the suffix from
/// `k` lines in, empty once `k` passes the line count.
spec fn spec_skip_lines(ls: Seq<Seq<u8>>, k: int) -> Seq<Seq<u8>> {
    if 0 <= k <= ls.len() {
        ls.skip(k)
    } else {
        Seq::empty()
    }
}

/// Parses a map text and replaces `map` wholesale with the result: the
/// first line gives the side length, the following lines the rows. Nothing
/// in the text can fail the load; malformed pieces degrade to defaults.
#[verifier::loop_isolation(false)]
pub fn read_map_data(bytes: &Vec<u8>, map: &mut TileMap)
    ensures
        spec_loaded_from(*final(map), bytes@),
{
    let len = bytes.len();
    let ghost ls = spec_lines(bytes@);
    let n_u32: u32;
    let mut pos: usize;
    if len == 0 {
        n_u32 = DEFAULT_MAP_SIZE;
        pos = 0;
    } else {
        proof {
            assert(bytes@.subrange(0, len as int) =~= bytes@);
        }
        match find_from(bytes, 0, len, 10) {
            Some(k) => {
                proof {
                    assert(ls == seq![bytes@.subrange(0, k as int)] + spec_lines(
                        bytes@.subrange(k as int + 1, len as int),
                    ));
                    assert(ls[0] == bytes@.subrange(0, k as int));
                    assert(ls.skip(1) =~= spec_lines(bytes@.subrange(k as int + 1, len as int)));
                }
                n_u32 = parse_size_line(bytes, 0, k);
                pos = k + 1;
            },
            None => {
                proof {
                    assert(ls == seq![bytes@]);
                    assert(ls[0] == bytes@);
                    assert(bytes@.subrange(len as int, len as int) =~= Seq::<u8>::empty());
                    assert(ls.skip(1) =~= Seq::<Seq<u8>>::empty());
                }
                n_u32 = parse_size_line(bytes, 0, len);
                pos = len;
            },
        }
    }
    let n = n_u32 as usize;
    let mut rows: Vec<Vec<u8>> = Vec::new();
    let mut r: usize = 0;
    while r < n
        invariant
            r <= n,
            pos <= len,
            rows@.len() == r,
            forall|rr: int| 0 <= rr < r ==> rows@[rr]@ == spec_map_row(bytes@, n as int, rr),
            spec_lines(bytes@.subrange(pos as int, len as int)) == spec_skip_lines(ls, 1 + r),
        decreases n - r,
    {
        let ghost suffix = bytes@.subrange(pos as int, len as int);
        if pos < len {
            proof {
                assert(spec_lines(suffix).len() >= 1);
                // so lines remain: 1 + r < ls.len()
                assert(1 + r < ls.len());
                assert(ls[1 + r] == spec_lines(suffix)[0]);
            }
            let row_vec: Vec<u8>;
            match find_from(bytes, pos, len, 10) {
                Some(k) => {
                    proof {
                        assert(suffix.subrange(0, k - pos) =~= bytes@.subrange(
                            pos as int,
                            k as int,
                        ));
                        assert(suffix.subrange(k - pos + 1, suffix.len() as int) =~= bytes@.subrange(
                            k as int + 1,
                            len as int,
                        ));
                        assert(spec_lines(suffix) == seq![bytes@.subrange(pos as int, k as int)]
                            + spec_lines(bytes@.subrange(k as int + 1, len as int)));
                        assert(ls[1 + r] == bytes@.subrange(pos as int, k as int));
                        assert(spec_skip_lines(ls, 1 + r).drop_first() =~= spec_skip_lines(
                            ls,
                            2 + r,
                        ));
                        assert(spec_lines(bytes@.subrange(k as int + 1, len as int))
                            == spec_skip_lines(ls, 2 + r));
                    }
                    row_vec = parse_row(bytes, pos, k, n);
                    pos = k + 1;
                },
                None => {
                    proof {
                        assert(spec_lines(suffix) == seq![suffix]);
                        assert(ls[1 + r] == suffix);
                        assert(ls.len() == 2 + r);
                        assert(bytes@.subrange(len as int, len as int) =~= Seq::<u8>::empty());
                        assert(spec_skip_lines(ls, 2 + r) =~= Seq::<Seq<u8>>::empty());
                    }
                    row_vec = parse_row(bytes, pos, len, n);
                    pos = len;
                },
            }
            proof {
                assert(row_vec@ == spec_map_row(bytes@, n as int, r as int));
            }
            rows.push(row_vec);
        } else {
            proof {
                assert(suffix =~= Seq::<u8>::empty());
                assert(spec_skip_lines(ls, 1 + r).len() == 0);
                // no line 1 + r exists, so the row is all empty cells
                assert(!(1 + r < ls.len()));
            }
            let row_vec = zero_row(n);
            rows.push(row_vec);
        }
        r = r + 1;
    }
    proof {
        assert forall|rr: int| 0 <= rr < n implies rows@[rr]@.len() == n by {
            assert(rows@[rr]@ == spec_map_row(bytes@, n as int, rr));
        }
        assert(n_u32 * n_u32 <= MAX_MAP_SIZE * MAX_MAP_SIZE) by (nonlinear_arith)
            requires
                n_u32 <= MAX_MAP_SIZE,
        ;
        assert(1 <= n_u32 * n_u32) by (nonlinear_arith)
            requires
                1 <= n_u32,
        ;
    }
    let cell_size: u32 = n_u32 * n_u32;
    *map = TileMap::from_parts(n, cell_size, rows);
}

/// Loads the contents of a matched map file into `map`: the whole text when
/// it could be read, and a surfaced error, with the map untouched, when it
/// could not.
pub fn load_map_content(content: Option<&Vec<u8>>, map: &mut TileMap) -> (r: Result<(), MapError>)
    ensures
        match content {
            Some(bytes) => r == Ok::<(), MapError>(()) && spec_loaded_from(*final(map), bytes@),
            None => r == Err::<(), MapError>(MapError::Unreadable) && *final(map) == *old(map),
        },
{
    match content {
        Some(bytes) => {
            read_map_data(bytes, map);
            Ok(())
        },
        None => Err(MapError::Unreadable),
    }
}

/// The final path component: what follows the last separator.
pub open spec fn spec_file_name(path: Seq<char>) -> Seq<char> {
    match spec_find_last(path, '/') {
        Some(k) => path.subrange(k + 1, path.len() as int),
        None => path,
    }
}

/// Whether a path names a map file: its file name has the map extension
/// after a nonempty stem.
pub open spec fn spec_has_map_extension(path: Seq<char>) -> bool {
    let name = spec_file_name(path);
    match spec_find_last(name, '.') {
        Some(k) => k >= 1 && name.subrange(k + 1, name.len() as int) == seq!['r', 'r', 'm'],
        None => false,
    }
}

/// Last occurrence of `t` among the characters of `s` from `lo` on.
#[verifier::loop_isolation(false)]
fn str_find_last_from(s: &str, lo: usize, t: char) -> (r: Option<usize>)
    requires
        lo <= s@.len(),
    ensures
        ({
            let sub = s@.subrange(lo as int, s@.len() as int);
            match r {
                Some(k) => lo <= k < s@.len() && spec_find_last(sub, t) == Some(k - lo),
                None => spec_find_last(sub, t) is None,
            }
        }),
{
    let ghost sub = s@.subrange(lo as int, s@.len() as int);
    let n = s.unicode_len();
    let mut i = n;
    while i > lo
        invariant
            lo <= i <= n == s@.len(),
            forall|j: int| i <= j < n ==> s@[j] != t,
        decreases i,
    {
        i = i - 1;
        if s.get_char(i) == t {
            proof {
                assert forall|j: int| i - lo < j < sub.len() implies sub[j] != t by {
                    assert(sub[j] == s@[lo + j]);
                }
                assert(sub[i - lo] == t);
                crate::parse::lemma_find_last_scan(sub, t, i - lo);
            }
            return Some(i);
        }
    }
    proof {
        assert forall|j: int| -1 < j < sub.len() implies sub[j] != t by {
            assert(sub[j] == s@[lo + j]);
        }
        crate::parse::lemma_find_last_scan(sub, t, -1);
    }
    None
}

/// Whether `path` names a map file.
#[verifier::rlimit(50)]
pub fn has_map_extension(path: &str) -> (r: bool)
    ensures
        r == spec_has_map_extension(path@),
{
    let n = path.unicode_len();
    let name_lo: usize = match str_find_last_from(path, 0, '/') {
        Some(k) => k + 1,
        None => 0,
    };
    proof {
        assert(path@.subrange(0, path@.len() as int) =~= path@);
        assert(path@.subrange(name_lo as int, n as int) =~= spec_file_name(path@));
    }
    let ghost name = spec_file_name(path@);
    match str_find_last_from(path, name_lo, '.') {
        Some(k) => {
            if k >= name_lo + 1 && n - k == 4 {
                let c1 = path.get_char(k + 1);
                let c2 = path.get_char(k + 2);
                let c3 = path.get_char(k + 3);
                let ok = c1 == 'r' && c2 == 'r' && c3 == 'm';
                proof {
                    let ext = name.subrange(k - name_lo + 1, name.len() as int);
                    assert(ext =~= path@.subrange(k as int + 1, n as int));
                    assert(ext.len() == 3);
                    assert(ext[0] == c1 && ext[1] == c2 && ext[2] == c3);
                    if ok {
                        assert(ext =~= seq!['r', 'r', 'm']);
                    } else {
                        assert(ext != seq!['r', 'r', 'm']);
                    }
                }
                ok
            } else {
                proof {
                    if k < name_lo + 1 {
                    } else {
                        let ext = name.subrange(k - name_lo + 1, name.len() as int);
                        assert(ext.len() != 3);
                        assert(seq!['r', 'r', 'm'].len() == 3);
                    }
                }
                false
            }
        },
        None => false,
    }
}

/// The directory contract of the loader: a missing folder is the surfaced
/// `NotFound` error; otherwise the first listed file with the map extension
/// is the one to load, and a folder without one is an inert no-op, reported
/// as `Ok(None)`, not an error.
#[verifier::loop_isolation(false)]
pub fn map_initialize(files: Option<&Vec<FileInfo>>) -> (r: Result<Option<usize>, MapError>)
    ensures
        match files {
            None => r == Err::<Option<usize>, MapError>(MapError::NotFound),
            Some(fs) => match r {
                Ok(sel) => match sel {
                    Some(i) => i < fs@.len() && spec_has_map_extension(fs@[i as int].path@)
                        && forall|j: int|
                        0 <= j < i ==> !spec_has_map_extension(fs@[j].path@),
                    None => forall|j: int|
                        0 <= j < fs@.len() ==> !spec_has_map_extension(fs@[j].path@),
                },
                Err(_) => false,
            },
        },
{
    match files {
        None => Err(MapError::NotFound),
        Some(fs) => {
            let count = fs.len();
            let mut i: usize = 0;
            while i < count
                invariant
                    i <= count == fs@.len(),
                    forall|j: int| 0 <= j < i ==> !spec_has_map_extension(fs@[j].path@),
                decreases count - i,
            {
                if has_map_extension(fs[i].path.as_str()) {
                    return Ok(Some(i));
                }
                i = i + 1;
            }
            Ok(None)
        },
    }
}


/// A row of cells restricted to the binary values of the grammar.
pub open spec fn spec_binary_row(row: Seq<u8>) -> bool {
    forall|c: int| 0 <= c < row.len() ==> #[trigger] row[c] == 0 || row[c] == 1
}

/// The body of one canonical row line: each cell as a digit followed by a
/// comma, as the grammar writes rows.
pub open spec fn spec_canonical_row_body(row: Seq<u8>) -> Seq<u8>
    decreases row.len(),
{
    if row.len() == 0 {
        Seq::empty()
    } else {
        seq![(48 + row[0]) as u8, 44u8] + spec_canonical_row_body(row.drop_first())
    }
}

/// One canonical row line: the comma-terminated cells between brackets,
/// with the grammar's trailing comma after the closing bracket.
pub open spec fn spec_canonical_row(row: Seq<u8>) -> Seq<u8> {
    seq![91u8] + spec_canonical_row_body(row) + seq![93u8, 44u8]
}

/// The canonical row lines of a grid, each ended by a newline.
pub open spec fn spec_canonical_rows(grid: Seq<Seq<u8>>) -> Seq<u8>
    decreases grid.len(),
{
    if grid.len() == 0 {
        Seq::empty()
    } else {
        spec_canonical_row(grid[0]) + seq![10u8] + spec_canonical_rows(grid.drop_first())
    }
}

/// The canonical text of a whole map: the size line, then one row line per
/// grid row.
pub open spec fn spec_canonical_map_text(n: int, grid: Seq<Seq<u8>>) -> Seq<u8> {
    seq![83u8, 73u8, 90u8, 69u8, 61u8] + crate::parse::spec_digits_of(n) + seq![10u8]
        + spec_canonical_rows(grid)
}

/// Splitting one text at the first newline: the part before it is the
/// first line, the rest lines up on its own.
proof fn lemma_lines_concat(a: Seq<u8>, b: Seq<u8>)
    requires
        forall|i: int| 0 <= i < a.len() ==> a[i] != 10,
    ensures
        spec_lines(a + seq![10u8] + b) == seq![a] + spec_lines(b),
{
    let s = a + seq![10u8] + b;
    let nb = seq![10u8] + b;
    assert(nb[0] == 10u8);
    assert(spec_find(nb, 10u8) == Some(0int));
    crate::parse::lemma_find_concat_absent(a, nb, 10u8);
    assert(a + nb =~= s);
    assert(spec_find(s, 10u8) == Some(a.len() as int));
    assert(s.subrange(0, a.len() as int) =~= a);
    assert(s.subrange(a.len() as int + 1, s.len() as int) =~= b);
}

/// Every byte of a canonical row line is a digit, a comma or a bracket.
proof fn lemma_canonical_row_body_chars(row: Seq<u8>)
    requires
        spec_binary_row(row),
    ensures
        spec_canonical_row_body(row).len() == 2 * row.len(),
        forall|i: int|
            0 <= i < spec_canonical_row_body(row).len() ==> #[trigger] spec_canonical_row_body(
                row,
            )[i] == 44 || spec_canonical_row_body(row)[i] == 48 || spec_canonical_row_body(row)[i]
                == 49,
    decreases row.len(),
{
    if row.len() > 0 {
        let tail = row.drop_first();
        assert(spec_binary_row(tail));
        lemma_canonical_row_body_chars(tail);
        let body = spec_canonical_row_body(row);
        assert(row[0] == 0 || row[0] == 1);
        assert forall|i: int|
            0 <= i < body.len() implies #[trigger] body[i] == 44 || body[i] == 48 || body[i]
            == 49 by {
            if i >= 2 {
                assert(body[i] == spec_canonical_row_body(tail)[i - 2]);
            }
        }
    }
}

/// The canonical body followed by the closing bracket and comma splits
/// into one single-digit token per cell, then the bracket token, then an
/// empty token.
proof fn lemma_canonical_body_split(row: Seq<u8>)
    requires
        spec_binary_row(row),
    ensures
        spec_split(spec_canonical_row_body(row) + seq![93u8, 44u8], 44u8) == Seq::new(
            row.len(),
            |c: int| seq![(48 + row[c]) as u8],
        ) + seq![seq![93u8], Seq::<u8>::empty()],
    decreases row.len(),
{
    let tail = seq![93u8, 44u8];
    if row.len() == 0 {
        let s = spec_canonical_row_body(row) + tail;
        assert(s =~= tail);
        assert(s[0] != 44u8 && s[1] == 44u8);
        crate::parse::lemma_find_scan(s, 44u8, 1);
        assert(spec_find(s, 44u8) == Some(1int));
        assert(s.subrange(0, 1) =~= seq![93u8]);
        assert(s.subrange(2, 2) =~= Seq::<u8>::empty());
        assert(spec_find(Seq::<u8>::empty(), 44u8) is None);
        assert(spec_split(Seq::<u8>::empty(), 44u8) == seq![Seq::<u8>::empty()]);
        assert(spec_split(s, 44u8) =~= Seq::new(0, |c: int| seq![(48 + row[c]) as u8]) + seq![
            seq![93u8],
            Seq::<u8>::empty(),
        ]);
    } else {
        let rest = row.drop_first();
        assert(spec_binary_row(rest));
        lemma_canonical_body_split(rest);
        let d = seq![(48 + row[0]) as u8];
        let restpart = spec_canonical_row_body(rest) + tail;
        assert(spec_canonical_row_body(row) + tail =~= d + seq![44u8] + restpart);
        assert(d[0] == 48 + row[0]);
        assert(row[0] == 0 || row[0] == 1);
        crate::parse::lemma_split_concat(d, restpart, 44u8);
        assert(spec_split(spec_canonical_row_body(row) + tail, 44u8) == seq![d] + (Seq::new(
            rest.len(),
            |c: int| seq![(48 + rest[c]) as u8],
        ) + seq![seq![93u8], Seq::<u8>::empty()]));
        assert(spec_split(spec_canonical_row_body(row) + tail, 44u8) =~= Seq::new(
            row.len(),
            |c: int| seq![(48 + row[c]) as u8],
        ) + seq![seq![93u8], Seq::<u8>::empty()]);
    }
}

/// The tokens of a canonical row line are its cells' digits, in order,
/// followed by the bracket leftovers the grammar's lenient reader ignores.
proof fn lemma_canonical_row_tokens(row: Seq<u8>)
    requires
        spec_binary_row(row),
        row.len() >= 1,
    ensures
        spec_row_tokens(spec_canonical_row(row)).len() == row.len() + 2,
        forall|c: int|
            0 <= c < row.len() ==> #[trigger] spec_row_tokens(spec_canonical_row(row))[c] == seq![
                (48 + row[c]) as u8,
            ],
{
    let line = spec_canonical_row(row);
    let body = spec_canonical_row_body(row);
    lemma_canonical_row_body_chars(row);
    assert(line.len() == body.len() + 3);
    assert(line[0] == 91u8);
    assert(line.last() == 44u8);
    crate::parse::lemma_trim_identity(line);
    assert(spec_trim(line) == line);
    // the leading bracket goes; the trailing comma keeps the rest
    assert(line[1] == body[0]);
    assert(body[0] == 48 || body[0] == 49);
    assert(line[line.len() - 1] == 44u8);
    crate::parse::lemma_trim_brackets_range(line, 1, line.len() as int);
    assert(line.subrange(1, line.len() as int) =~= body + seq![93u8, 44u8]);
    assert(spec_trim_brackets(line) == body + seq![93u8, 44u8]);
    lemma_canonical_body_split(row);
    let toks = spec_row_tokens(line);
    assert(toks == Seq::new(row.len(), |c: int| seq![(48 + row[c]) as u8]) + seq![
        seq![93u8],
        Seq::<u8>::empty(),
    ]);
    assert forall|c: int| 0 <= c < row.len() implies #[trigger] toks[c] == seq![
        (48 + row[c]) as u8,
    ] by {
        assert(toks[c] == Seq::new(row.len(), |cc: int| seq![(48 + row[cc]) as u8])[c]);
    }
}

/// The canonical rows of a grid line up one per grid row.
proof fn lemma_canonical_rows_lines(grid: Seq<Seq<u8>>)
    requires
        forall|r: int| 0 <= r < grid.len() ==> spec_binary_row(#[trigger] grid[r]),
    ensures
        spec_lines(spec_canonical_rows(grid)) == Seq::new(
            grid.len(),
            |r: int| spec_canonical_row(grid[r]),
        ),
    decreases grid.len(),
{
    if grid.len() == 0 {
        assert(spec_lines(spec_canonical_rows(grid)) =~= Seq::new(
            0,
            |r: int| spec_canonical_row(grid[r]),
        ));
    } else {
        let rest = grid.drop_first();
        assert forall|r: int| 0 <= r < rest.len() implies spec_binary_row(#[trigger] rest[r]) by {
            assert(rest[r] == grid[r + 1]);
        }
        lemma_canonical_rows_lines(rest);
        let line = spec_canonical_row(grid[0]);
        let body = spec_canonical_row_body(grid[0]);
        lemma_canonical_row_body_chars(grid[0]);
        assert forall|i: int| 0 <= i < line.len() implies line[i] != 10 by {
            if 1 <= i < 1 + body.len() {
                assert(line[i] == body[i - 1]);
            }
        }
        lemma_lines_concat(line, spec_canonical_rows(rest));
        assert(spec_lines(spec_canonical_rows(grid)) == seq![line] + Seq::new(
            rest.len(),
            |r: int| spec_canonical_row(rest[r]),
        ));
        assert(spec_lines(spec_canonical_rows(grid)) =~= Seq::new(
            grid.len(),
            |r: int| spec_canonical_row(grid[r]),
        ));
    }
}

/// The round trip of the map grammar: the canonical text of any binary
/// square grid loads back to exactly that grid, with the side length of
/// its size line and the cell size derived as that length squared.
pub proof fn lemma_canonical_map_text_loads(n: int, grid: Seq<Seq<u8>>)
    requires
        1 <= n <= MAX_MAP_SIZE as int,
        grid.len() == n,
        forall|r: int| 0 <= r < n ==> (#[trigger] grid[r]).len() == n,
        forall|r: int| 0 <= r < n ==> spec_binary_row(#[trigger] grid[r]),
    ensures
        spec_map_size(spec_canonical_map_text(n, grid)) == n,
        forall|col: int, row: int|
            0 <= col < n && 0 <= row < n ==> spec_map_cell(spec_canonical_map_text(n, grid), col, row)
                == grid[row][col],
{
    let text = spec_canonical_map_text(n, grid);
    let prefix = seq![83u8, 73u8, 90u8, 69u8, 61u8];
    let digits = crate::parse::spec_digits_of(n);
    let size_line = prefix + digits;
    crate::parse::lemma_digits_of_value(n);
    // the text splits into the size line and one line per row
    lemma_canonical_rows_lines(grid);
    assert forall|i: int| 0 <= i < size_line.len() implies size_line[i] != 10 by {
        if i >= prefix.len() {
            assert(size_line[i] == digits[i - 5]);
            assert(crate::parse::is_ascii_digit(digits[i - 5]));
        }
    }
    assert(text =~= size_line + seq![10u8] + spec_canonical_rows(grid));
    lemma_lines_concat(size_line, spec_canonical_rows(grid));
    let ls = spec_lines(text);
    assert(ls == seq![size_line] + Seq::new(grid.len(), |r: int| spec_canonical_row(grid[r])));
    assert(ls.len() == n + 1);
    assert(ls[0] == size_line);
    // the size line reads back as n
    assert forall|i: int| 0 <= i < digits.len() implies digits[i] != 61u8 by {
        assert(crate::parse::is_ascii_digit(digits[i]));
    }
    crate::parse::lemma_find_last_concat_absent(prefix, digits, 61u8);
    assert(prefix.last() == 61u8);
    assert(spec_find_last(prefix, 61u8) == Some(4int));
    assert(spec_find_last(size_line, 61u8) == Some(4int));
    assert(spec_size_token(size_line) =~= digits);
    assert(crate::parse::is_ascii_digit(digits[0]));
    assert(crate::parse::is_ascii_digit(digits.last()));
    crate::parse::lemma_trim_identity(digits);
    crate::parse::lemma_digits_of_parses(n);
    assert(spec_size_value(size_line) == n);
    assert(spec_map_size(text) == n);
    // every token is the written digit, so every cell loads as written
    assert forall|col: int, row: int|
        0 <= col < n && 0 <= row < n implies spec_map_cell(text, col, row) == grid[row][col] by {
        assert(ls[1 + row] == Seq::new(grid.len(), |rr: int| spec_canonical_row(grid[rr]))[row]);
        assert(ls[1 + row] == spec_canonical_row(grid[row]));
        lemma_canonical_row_tokens(grid[row]);
        let tok = spec_row_tokens(spec_canonical_row(grid[row]))[col];
        assert(tok == seq![(48 + grid[row][col]) as u8]);
        assert(spec_binary_row(grid[row]));
        assert(grid[row][col] == 0 || grid[row][col] == 1);
        assert(!crate::parse::is_ascii_space(tok[0]));
        crate::parse::lemma_trim_identity(tok);
        lemma_binary_map_text(text, n, row, col, grid[row][col]);
    }
}

} // verus!

