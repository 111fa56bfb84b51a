//! Markdown normalization ahead of a renderer that supports a focused
//! markdown subset: GitHub-style pipe tables are rewritten into ordinary
//! lists (one list item per row, one `header: value` line per cell, the
//! first after the item's `- `) so that links and emphasis inside cells
//! still flow through the renderer.
//! Tables inside fenced code blocks are left untouched.
use vstd::prelude::*;
use crate::text::{
    chars_contains, chars_eq, chars_ends_with, chars_of, decimal, ends_with, join, join_strings,
    lines_of, strs_view, text_lines, push_all, push_decimal, slice_chars, starts_with, string_from_chars, strings_view, trim,
    trim_bounds, trim_start, trimmed, lemma_lines_lack, lemma_lines_rejoin, lemma_trim_lacks,
};

verus! {

pub open spec fn backticks() -> Seq<char> {
    seq!['`', '`', '`']
}

pub open spec fn tildes() -> Seq<char> {
    seq!['~', '~', '~']
}

/// The fence a line opens or closes: a line whose text, after leading
/// whitespace, starts with three backticks or three tildes.
pub open spec fn spec_fence_marker(line: Seq<char>) -> Option<Seq<char>> {
    let t = trim_start(line);
    if starts_with(t, backticks()) {
        Some(backticks())
    } else if starts_with(t, tildes()) {
        Some(tildes())
    } else {
        None
    }
}

/// The code-fence marker (three backticks or three tildes) that starts
/// `line` after its leading whitespace, if any.
pub fn fence_marker(line: &str) -> (r: Option<&'static str>)
    ensures
        match r {
            Some(m) => spec_fence_marker(line@) == Some(m@),
            None => spec_fence_marker(line@) is None,
        },
{
    let cs = chars_of(line);
    let (a, _b) = trim_bounds(cs.as_slice());
    let n = cs.len();
    proof {
        reveal_strlit("```");
        reveal_strlit("~~~");
    }
    if n >= 3 && a <= n - 3 && cs[a] == '`' && cs[a + 1] == '`' && cs[a + 2] == '`' {
        assert(cs@.subrange(a as int, n as int).subrange(0, 3) =~= backticks());
        Some("```")
    } else if n >= 3 && a <= n - 3 && cs[a] == '~' && cs[a + 1] == '~' && cs[a + 2] == '~' {
        assert(cs@.subrange(a as int, n as int).subrange(0, 3) =~= tildes());
        proof {
            let t = cs@.subrange(a as int, n as int);
            if starts_with(t, backticks()) {
                assert(t.subrange(0, 3)[0] == '`');
            }
        }
        Some("~~~")
    } else {
        proof {
            let t = cs@.subrange(a as int, n as int);
            if starts_with(t, backticks()) {
                assert(t.subrange(0, 3)[0] == t[0]);
                assert(t.subrange(0, 3)[1] == t[1]);
                assert(t.subrange(0, 3)[2] == t[2]);
            }
            if starts_with(t, tildes()) {
                assert(t.subrange(0, 3)[0] == t[0]);
                assert(t.subrange(0, 3)[1] == t[1]);
                assert(t.subrange(0, 3)[2] == t[2]);
            }
        }
        None
    }
}

/// State of the cell scanner after a prefix of a row:
/// finished cells, the cell being read, and whether a `\` escape is pending.
pub open spec fn scan_step(
    st: (Seq<Seq<char>>, Seq<char>, bool),
    ch: char,
) -> (Seq<Seq<char>>, Seq<char>, bool) {
    if st.2 {
        (st.0, st.1.push(ch), false)
    } else if ch == '\\' {
        (st.0, st.1, true)
    } else if ch == '|' {
        (st.0.push(trim(st.1)), Seq::empty(), false)
    } else {
        (st.0, st.1.push(ch), false)
    }
}

pub open spec fn scan_cells(s: Seq<char>) -> (Seq<Seq<char>>, Seq<char>, bool)
    decreases s.len(),
{
    if s.len() == 0 {
        (Seq::empty(), Seq::empty(), false)
    } else {
        scan_step(scan_cells(s.drop_last()), s.last())
    }
}

/// The cells of an (already trimmed) row: split at unescaped `|`, each cell
/// trimmed, a pending `\` kept literally, and the empty cell before a
/// leading `|` and after a trailing `|` dropped.
pub open spec fn row_cells(t: Seq<char>) -> Seq<Seq<char>> {
    let st = scan_cells(t);
    let last = if st.2 {
        st.1.push('\\')
    } else {
        st.1
    };
    let cells0 = st.0.push(trim(last));
    let cells1 = if t.len() > 0 && t[0] == '|' && cells0[0].len() == 0 {
        cells0.drop_first()
    } else {
        cells0
    };
    if t.len() > 0 && t.last() == '|' && cells1.len() > 0 && cells1.last().len() == 0 {
        cells1.drop_last()
    } else {
        cells1
    }
}

/// A pipe-table row: a non-blank line holding `|` that splits into at
/// least two cells.
pub open spec fn spec_parse_pipe_row(line: Seq<char>) -> Option<Seq<Seq<char>>> {
    let t = trim(line);
    if t.len() == 0 || !t.contains('|') {
        None
    } else {
        let cells = row_cells(t);
        if cells.len() >= 2 {
            Some(cells)
        } else {
            None
        }
    }
}

/// Splits `line` into the cells of a pipe-table row, or `None` when it is
/// not one.
pub fn parse_pipe_row(line: &str) -> (r: Option<Vec<String>>)
    ensures
        match r {
            Some(cells) => spec_parse_pipe_row(line@) == Some(strings_view(cells@)),
            None => spec_parse_pipe_row(line@) is None,
        },
{
    let cs = chars_of(line);
    let (a, b) = trim_bounds(cs.as_slice());
    let ghost t = trim(line@);
    if a == b {
        return None;
    }
    let tv = slice_chars(cs.as_slice(), a, b);
    assert(tv@ == t);
    if !chars_contains(tv.as_slice(), '|') {
        return None;
    }
    let mut cells: Vec<String> = Vec::new();
    let mut cell: Vec<char> = Vec::new();
    let mut escaped = false;
    let mut i: usize = 0;
    while i < tv.len()
        invariant
            0 <= i <= tv.len(),
            tv@ == t,
            (strings_view(cells@), cell@, escaped) == scan_cells(t.take(i as int)),
        decreases tv.len() - i,
    {
        let ch = tv[i];
        let ghost prev = (strings_view(cells@), cell@, escaped);
        assert(t.take(i + 1).drop_last() == t.take(i as int));
        assert(t.take(i + 1).last() == ch);
        if escaped {
            cell.push(ch);
            escaped = false;
        } else if ch == '\\' {
            escaped = true;
        } else if ch == '|' {
            let c = trimmed(cell.as_slice());
            let s = string_from_chars(c.as_slice());
            let ghost old_cells = cells@;
            cells.push(s);
            assert(strings_view(cells@) == strings_view(old_cells).push(s@));
            cell = Vec::new();
        } else {
            cell.push(ch);
        }
        assert((strings_view(cells@), cell@, escaped) == scan_step(prev, ch));
        i = i + 1;
    }
    assert(t.take(tv.len() as int) == t);
    if escaped {
        cell.push('\\');
    }
    let c = trimmed(cell.as_slice());
    let s = string_from_chars(c.as_slice());
    let ghost old_cells = cells@;
    cells.push(s);
    assert(strings_view(cells@) == strings_view(old_cells).push(s@));
    let ghost cells0 = strings_view(cells@);
    if tv[0] == '|' && cells[0].as_str().unicode_len() == 0 {
        let ghost before = cells@;
        cells.remove(0);
        assert(strings_view(cells@) == cells0.drop_first());
    }
    let ghost cells1 = strings_view(cells@);
    let last_empty = cells.len() > 0 && cells[cells.len() - 1].as_str().unicode_len() == 0;
    if tv[tv.len() - 1] == '|' && last_empty {
        cells.pop();
        assert(strings_view(cells@) == cells1.drop_last());
    }
    assert(strings_view(cells@) == row_cells(t));
    if cells.len() >= 2 {
        Some(cells)
    } else {
        None
    }
}


/// A separator cell: non-blank after trimming, holding a `-`, and made only
/// of `-`, `:` and spaces.
pub open spec fn separator_cell(c: Seq<char>) -> bool {
    let t = trim(c);
    &&& t.len() > 0
    &&& t.contains('-')
    &&& forall|k: int| 0 <= k < t.len() ==> (#[trigger] t[k] == '-' || t[k] == ':' || t[k] == ' ')
}

pub open spec fn spec_is_pipe_separator_row(line: Seq<char>, expected_columns: nat) -> bool {
    match spec_parse_pipe_row(line) {
        None => false,
        Some(cells) => cells.len() == expected_columns && forall|i: int|
            0 <= i < cells.len() ==> separator_cell(#[trigger] cells[i]),
    }
}

fn is_separator_cell(cell: &String) -> (r: bool)
    ensures
        r == separator_cell(cell@),
{
    let cs = chars_of(cell.as_str());
    let t = trimmed(cs.as_slice());
    if t.len() == 0 || !chars_contains(t.as_slice(), '-') {
        return false;
    }
    let mut k: usize = 0;
    while k < t.len()
        invariant
            0 <= k <= t.len(),
            t@ == trim(cell@),
            forall|j: int| 0 <= j < k ==> (#[trigger] t@[j] == '-' || t@[j] == ':' || t@[j] == ' '),
        decreases t.len() - k,
    {
        let ch = t[k];
        if !(ch == '-' || ch == ':' || ch == ' ') {
            return false;
        }
        k = k + 1;
    }
    true
}

/// Whether `line` is the separator row (`|---|:--:|`) of a table with
/// `expected_columns` columns.
pub fn is_pipe_separator_row(line: &str, expected_columns: usize) -> (r: bool)
    ensures
        r == spec_is_pipe_separator_row(line@, expected_columns as nat),
{
    let parsed = parse_pipe_row(line);
    if parsed.is_none() {
        return false;
    }
    let cells = parsed.unwrap();
    assert(spec_parse_pipe_row(line@) == Some(strings_view(cells@)));
    if cells.len() != expected_columns {
        return false;
    }
    let mut i: usize = 0;
    while i < cells.len()
        invariant
            0 <= i <= cells.len(),
            spec_parse_pipe_row(line@) == Some(strings_view(cells@)),
            cells.len() == expected_columns,
            forall|j: int| 0 <= j < i ==> separator_cell(#[trigger] strings_view(cells@)[j]),
        decreases cells.len() - i,
    {
        if !is_separator_cell(&cells[i]) {
            assert(strings_view(cells@)[i as int] == cells@[i as int]@);
            assert(!separator_cell(strings_view(cells@)[i as int]));
            return false;
        }
        assert(strings_view(cells@)[i as int] == cells@[i as int]@);
        i = i + 1;
    }
    true
}

pub open spec fn column_word() -> Seq<char> {
    seq!['C', 'o', 'l', 'u', 'm', 'n', ' ']
}

/// The label of column `index`: its trimmed header, or `Column <index + 1>`
/// when the header is missing or blank.
pub open spec fn spec_header_label(header: Option<Seq<char>>, index: nat) -> Seq<char> {
    match header {
        Some(h) if trim(h).len() > 0 => trim(h),
        _ => column_word() + decimal(index + 1),
    }
}

/// The label written before the value of cell `index`.
pub fn header_label(header: Option<&String>, index: usize) -> (r: String)
    requires
        index < usize::MAX,
    ensures
        r@ == spec_header_label(
            match header {
                Some(h) => Some(h@),
                None => None,
            },
            index as nat,
        ),
{
    if let Some(h) = header {
        let cs = chars_of(h.as_str());
        let t = trimmed(cs.as_slice());
        if t.len() > 0 {
            return string_from_chars(t.as_slice());
        }
    }
    let mut out = chars_of("Column ");
    proof {
        reveal_strlit("Column ");
    }
    assert(out@ == column_word());
    push_decimal(&mut out, (index + 1) as u64);
    string_from_chars(out.as_slice())
}

pub open spec fn dash_prefix() -> Seq<char> {
    seq!['-', ' ']
}

pub open spec fn colon_space() -> Seq<char> {
    seq![':', ' ']
}

pub open spec fn header_at(headers: Seq<Seq<char>>, i: int) -> Option<Seq<char>> {
    if 0 <= i < headers.len() {
        Some(headers[i])
    } else {
        None
    }
}

/// The line written for cell `ci` of a row: `- label: value` for the first
/// cell, `label: value` for the others.
pub open spec fn cell_line(headers: Seq<Seq<char>>, ci: int, value: Seq<char>) -> Seq<char> {
    (if ci == 0 {
        dash_prefix()
    } else {
        Seq::empty()
    }) + spec_header_label(header_at(headers, ci), ci as nat) + colon_space() + value
}

pub open spec fn row_lines(headers: Seq<Seq<char>>, row: Seq<Seq<char>>) -> Seq<Seq<char>> {
    Seq::new(row.len(), |ci: int| cell_line(headers, ci, row[ci]))
}

/// The list a table becomes: the lines of each row, with one blank line
/// between consecutive rows.
pub open spec fn render_rows(headers: Seq<Seq<char>>, rows: Seq<Seq<Seq<char>>>) -> Seq<Seq<char>>
    decreases rows.len(),
{
    if rows.len() == 0 {
        Seq::empty()
    } else if rows.len() == 1 {
        row_lines(headers, rows[0])
    } else {
        render_rows(headers, rows.drop_last()) + seq![Seq::empty()] + row_lines(headers, rows.last())
    }
}

pub open spec fn rows_view(rows: Seq<Vec<String>>) -> Seq<Seq<Seq<char>>> {
    rows.map_values(|r: Vec<String>| strings_view(r@))
}

/// Renders the rows of a table as a markdown list.
pub fn render_table_as_list(headers: &[String], rows: &[Vec<String>]) -> (r: Vec<String>)
    ensures
        strings_view(r@) == render_rows(strings_view(headers@), rows_view(rows@)),
{
    let ghost hv = strings_view(headers@);
    let ghost rv = rows_view(rows@);
    let mut out: Vec<String> = Vec::new();
    let mut ri: usize = 0;
    while ri < rows.len()
        invariant
            0 <= ri <= rows.len(),
            hv == strings_view(headers@),
            rv == rows_view(rows@),
            ri == 0 ==> strings_view(out@) == Seq::<Seq<char>>::empty(),
            ri > 0 && ri < rows.len() ==> strings_view(out@) == render_rows(hv, rv.take(ri as int))
                + seq![Seq::<char>::empty()],
            ri == rows.len() ==> strings_view(out@) == render_rows(hv, rv),
        decreases rows.len() - ri,
    {
        let row = &rows[ri];
        let ghost base = strings_view(out@);
        let ghost rowv = rv[ri as int];
        assert(rowv == strings_view(row@));
        let mut ci: usize = 0;
        while ci < row.len()
            invariant
                0 <= ci <= row.len(),
                rowv == strings_view(row@),
                hv == strings_view(headers@),
                strings_view(out@) == base + row_lines(hv, rowv).take(ci as int),
            decreases row.len() - ci,
        {
            let label = header_label(headers.get(ci), ci);
            proof {
                if ci < headers.len() {
                    assert(hv[ci as int] == headers@[ci as int]@);
                }
            }
            let mut line: Vec<char> = Vec::new();
            if ci == 0 {
                line.push('-');
                line.push(' ');
            }
            let lc = chars_of(label.as_str());
            push_all(&mut line, lc.as_slice());
            line.push(':');
            line.push(' ');
            let vc = chars_of(row[ci].as_str());
            push_all(&mut line, vc.as_slice());
            assert(line@ =~= cell_line(hv, ci as int, rowv[ci as int]));
            let s = string_from_chars(line.as_slice());
            let ghost old_out = out@;
            out.push(s);
            assert(strings_view(out@) == strings_view(old_out).push(s@));
            assert(row_lines(hv, rowv).take(ci + 1) == row_lines(hv, rowv).take(ci as int).push(
                s@,
            ));
            ci = ci + 1;
        }
        assert(row_lines(hv, rowv).take(row.len() as int) == row_lines(hv, rowv));
        proof {
            assert(rv.take(ri + 1).drop_last() == rv.take(ri as int));
            assert(rv.take(ri + 1).last() == rowv);
            if ri == 0 {
                assert(rv.take(1).len() == 1);
                assert(rv.take(1)[0] == rowv);
            }
        }
        if ri + 1 < rows.len() {
            let ghost old_out = out@;
            out.push(String::new());
            assert(strings_view(out@) == strings_view(old_out).push(Seq::<char>::empty()));
        }
        ri = ri + 1;
        proof {
            if ri == rows.len() {
                assert(rv.take(ri as int) == rv);
            }
        }
    }
    if rows.len() == 0 {
        assert(rv.len() == 0);
    }
    out
}


/// The rows of a table body starting at line `i`: consecutive pipe rows with
/// exactly `ncols` cells.
pub open spec fn table_rows(lines: Seq<Seq<char>>, i: int, ncols: nat) -> Seq<Seq<Seq<char>>>
    decreases lines.len() - i,
{
    if i < 0 || i >= lines.len() {
        Seq::empty()
    } else {
        match spec_parse_pipe_row(lines[i]) {
            Some(row) => if row.len() == ncols {
                seq![row] + table_rows(lines, i + 1, ncols)
            } else {
                Seq::empty()
            },
            None => Seq::empty(),
        }
    }
}

/// A table at the start of `lines`: a header row of at least two cells, a
/// matching separator row, and at least one body row. Yields the headers,
/// the body rows and the number of lines the table spans.
pub open spec fn spec_parse_table_block(lines: Seq<Seq<char>>) -> Option<
    (Seq<Seq<char>>, Seq<Seq<Seq<char>>>, nat),
> {
    if lines.len() < 3 {
        None
    } else {
        match spec_parse_pipe_row(lines[0]) {
            None => None,
            Some(h) => if h.len() < 2 || !spec_is_pipe_separator_row(lines[1], h.len()) {
                None
            } else {
                let rows = table_rows(lines, 2, h.len());
                if rows.len() == 0 {
                    None
                } else {
                    Some((h, rows, (2 + rows.len()) as nat))
                }
            },
        }
    }
}

pub proof fn lemma_table_rows_len(lines: Seq<Seq<char>>, i: int, ncols: nat)
    requires
        0 <= i <= lines.len(),
    ensures
        table_rows(lines, i, ncols).len() <= lines.len() - i,
    decreases lines.len() - i,
{
    if i < lines.len() {
        lemma_table_rows_len(lines, i + 1, ncols);
    }
}

pub proof fn lemma_table_block_span(lines: Seq<Seq<char>>)
    requires
        spec_parse_table_block(lines) is Some,
    ensures
        3 <= spec_parse_table_block(lines).unwrap().2 <= lines.len(),
{
    let h = spec_parse_pipe_row(lines[0]).unwrap();
    lemma_table_rows_len(lines, 2, h.len());
}

/// Parses a pipe table at the start of `lines`: the headers, the body rows,
/// and the number of lines consumed.
pub fn parse_table_block(lines: &[&str]) -> (r: Option<(Vec<String>, Vec<Vec<String>>, usize)>)
    ensures
        match r {
            Some((h, rows, consumed)) => spec_parse_table_block(strs_view(lines@)) == Some(
                (strings_view(h@), rows_view(rows@), consumed as nat),
            ),
            None => spec_parse_table_block(strs_view(lines@)) is None,
        },
{
    let ghost lv = strs_view(lines@);
    if lines.len() < 3 {
        return None;
    }
    let parsed = parse_pipe_row(lines[0]);
    if parsed.is_none() {
        return None;
    }
    let headers = parsed.unwrap();
    let ghost hv = strings_view(headers@);
    assert(lv[0] == lines@[0]@);
    assert(lv[1] == lines@[1]@);
    if headers.len() < 2 || !is_pipe_separator_row(lines[1], headers.len()) {
        return None;
    }
    let ncols = headers.len();
    let mut rows: Vec<Vec<String>> = Vec::new();
    let mut consumed: usize = 2;
    let mut i: usize = 2;
    while i < lines.len()
        invariant_except_break
            2 <= i <= lines.len(),
            consumed == i,
            rows.len() == i - 2,
            lv == strs_view(lines@),
            rows_view(rows@) + table_rows(lv, i as int, ncols as nat) == table_rows(lv, 2, ncols as nat),
        ensures
            2 <= i <= lines.len(),
            consumed == i,
            rows.len() == i - 2,
            rows_view(rows@) == table_rows(lv, 2, ncols as nat),
        decreases lines.len() - i,
    {
        assert(lv[i as int] == lines@[i as int]@);
        let parsed_row = parse_pipe_row(lines[i]);
        if parsed_row.is_none() {
            break;
        }
        let row = parsed_row.unwrap();
        if row.len() != ncols {
            break;
        }
        let ghost old_rows = rows@;
        rows.push(row);
        assert(rows_view(rows@) == rows_view(old_rows).push(strings_view(row@)));
        consumed = consumed + 1;
        i = i + 1;
    }
    assert(spec_parse_pipe_row(lv[0]) == Some(hv));
    assert(rows_view(rows@).len() == rows@.len());
    if rows.len() == 0 {
        return None;
    }
    Some((headers, rows, consumed))
}

pub open spec fn fence_view(f: Option<&str>) -> Option<Seq<char>> {
    match f {
        Some(m) => Some(m@),
        None => None,
    }
}

/// The fence state after a marker line: the open fence closes on the same
/// marker, a marker opens a fence when none is open, and a different marker
/// inside an open fence changes nothing.
pub open spec fn next_fence(fence: Option<Seq<char>>, m: Seq<char>) -> Option<Seq<char>> {
    if fence == Some(m) {
        None
    } else if fence is None {
        Some(m)
    } else {
        fence
    }
}

/// A blank separator line after a table that is followed by a non-blank line.
pub open spec fn blank_after(lines: Seq<Seq<char>>, j: int) -> Seq<Seq<char>> {
    if 0 <= j < lines.len() && trim(lines[j]).len() > 0 {
        seq![Seq::<char>::empty()]
    } else {
        Seq::empty()
    }
}

/// The output lines for `lines[idx..]` when `fence` is the open code fence.
pub open spec fn normalize_from(lines: Seq<Seq<char>>, idx: int, fence: Option<Seq<char>>) -> Seq<
    Seq<char>,
>
    decreases lines.len() - idx,
{
    if idx < 0 || idx >= lines.len() {
        Seq::empty()
    } else {
        let line = lines[idx];
        match spec_fence_marker(line) {
            Some(m) => seq![line] + normalize_from(lines, idx + 1, next_fence(fence, m)),
            None => {
                let rest = lines.subrange(idx, lines.len() as int);
                if fence is None && spec_parse_table_block(rest) is Some {
                    let block = spec_parse_table_block(rest).unwrap();
                    proof {
                        lemma_table_block_span(rest);
                    }
                    render_rows(block.0, block.1) + blank_after(lines, idx + block.2)
                        + normalize_from(lines, idx + block.2, fence)
                } else {
                    seq![line] + normalize_from(lines, idx + 1, fence)
                }
            },
        }
    }
}

/// The normalized document: every pipe table outside a code fence replaced
/// by its list rendering, lines joined with `\n`, and a final `\n` kept.
pub open spec fn spec_normalize_pipe_tables(input: Seq<char>) -> Seq<char> {
    join(normalize_from(text_lines(input), 0, None), seq!['\n']) + if ends_with(
        input,
        seq!['\n'],
    ) {
        seq!['\n']
    } else {
        Seq::empty()
    }
}

fn owned(s: &str) -> (r: String)
    ensures
        r@ == s@,
{
    let cs = chars_of(s);
    string_from_chars(cs.as_slice())
}

fn is_blank(s: &str) -> (r: bool)
    ensures
        r == (trim(s@).len() == 0),
{
    let cs = chars_of(s);
    let (a, b) = trim_bounds(cs.as_slice());
    a == b
}

/// Rewrites pipe tables outside code fences into nested lists.
pub fn normalize_pipe_tables(input: &str) -> (r: String)
    ensures
        r@ == spec_normalize_pipe_tables(input@),
{
    let lines = lines_of(input);
    let ghost lv = strs_view(lines@);
    let mut out: Vec<String> = Vec::new();
    let mut code_fence: Option<&'static str> = None;
    let mut index: usize = 0;
    assert(strings_view(out@) =~= Seq::<Seq<char>>::empty());
    while index < lines.len()
        invariant
            0 <= index <= lines.len(),
            lv == strs_view(lines@),
            lv == text_lines(input@),
            strings_view(out@) + normalize_from(lv, index as int, fence_view(code_fence))
                == normalize_from(lv, 0, None),
        decreases lines.len() - index,
    {
        let line = lines[index];
        assert(lv[index as int] == line@);
        let ghost before = strings_view(out@);
        let ghost fv = fence_view(code_fence);
        let marker = fence_marker(line);
        if marker.is_some() {
            let m = marker.unwrap();
            let same = match code_fence {
                Some(open) => {
                    let a = chars_of(open);
                    let b = chars_of(m);
                    chars_eq(a.as_slice(), b.as_slice())
                },
                None => false,
            };
            if same {
                code_fence = None;
            } else if code_fence.is_none() {
                code_fence = Some(m);
            }
            assert(fence_view(code_fence) == next_fence(fv, m@));
            let s = owned(line);
            out.push(s);
            assert(strings_view(out@) == before.push(line@));
            assert(before.push(line@) + normalize_from(lv, index + 1, fence_view(code_fence))
                =~= before + (seq![line@] + normalize_from(lv, index + 1, fence_view(code_fence))));
            index = index + 1;
            continue;
        }
        if code_fence.is_none() {
            let tail = &lines[index..lines.len()];
            assert(strs_view(tail@) =~= lv.subrange(index as int, lv.len() as int));
            let block = parse_table_block(tail);
            if block.is_some() {
                let (headers, rows, consumed) = block.unwrap();
                proof {
                    lemma_table_block_span(lv.subrange(index as int, lv.len() as int));
                }
                let mut rendered = render_table_as_list(headers.as_slice(), rows.as_slice());
                let ghost rv = strings_view(rendered@);
                out.append(&mut rendered);
                assert(strings_view(out@) =~= before + rv);
                let ghost mid = strings_view(out@);
                let next = index + consumed;
                if next < lines.len() && !is_blank(lines[next]) {
                    assert(lv[next as int] == lines@[next as int]@);
                    out.push(String::new());
                    assert(strings_view(out@) == mid.push(Seq::<char>::empty()));
                } else {
                    proof {
                        if next < lines.len() {
                            assert(lv[next as int] == lines@[next as int]@);
                        }
                    }
                }
                assert(strings_view(out@) == before + rv + blank_after(lv, next as int));
                index = next;
                continue;
            }
        }
        let s = owned(line);
        out.push(s);
        assert(strings_view(out@) == before.push(line@));
        assert(before.push(line@) + normalize_from(lv, index + 1, fence_view(code_fence))
            =~= before + (seq![line@] + normalize_from(lv, index + 1, fence_view(code_fence))));
        index = index + 1;
    }
    assert(normalize_from(lv, index as int, fence_view(code_fence)) =~= Seq::<Seq<char>>::empty());
    assert(strings_view(out@) =~= normalize_from(lv, 0, None));
    let sep: Vec<char> = vec!['\n'];
    assert(sep@ =~= seq!['\n']);
    let mut normalized = join_strings(out.as_slice(), sep.as_slice());
    assert(normalized@ == join(normalize_from(text_lines(input@), 0, None), seq!['\n']));
    let ic = chars_of(input);
    let nl: Vec<char> = vec!['\n'];
    assert(nl@ =~= seq!['\n']);
    if chars_ends_with(ic.as_slice(), nl.as_slice()) {
        normalized.push('\n');
    } else {
        assert(normalized@ + Seq::<char>::empty() == normalized@);
    }
    string_from_chars(normalized.as_slice())
}

/// Normalizes markdown ahead of rendering (see the module documentation).
pub fn normalize_markdown(input: &str) -> (r: String)
    ensures
        r@ == spec_normalize_pipe_tables(input@),
{
    normalize_pipe_tables(input)
}

proof fn lemma_unpiped_lines_kept(lines: Seq<Seq<char>>, idx: int, fence: Option<Seq<char>>)
    requires
        0 <= idx <= lines.len(),
        forall|k: int| 0 <= k < lines.len() ==> !(#[trigger] lines[k]).contains('|'),
    ensures
        normalize_from(lines, idx, fence) == lines.subrange(idx, lines.len() as int),
    decreases lines.len() - idx,
{
    if idx < lines.len() {
        let line = lines[idx];
        match spec_fence_marker(line) {
            Some(m) => {
                lemma_unpiped_lines_kept(lines, idx + 1, next_fence(fence, m));
            },
            None => {
                let rest = lines.subrange(idx, lines.len() as int);
                assert(rest[0] == line);
                lemma_trim_lacks(line, '|');
                assert(spec_parse_pipe_row(line) is None);
                assert(spec_parse_table_block(rest) is None);
                lemma_unpiped_lines_kept(lines, idx + 1, fence);
            },
        }
        assert(seq![line] + lines.subrange(idx + 1, lines.len() as int) =~= lines.subrange(
            idx,
            lines.len() as int,
        ));
    } else {
        assert(lines.subrange(idx, lines.len() as int) =~= Seq::<Seq<char>>::empty());
    }
}

/// Text without pipe characters and without carriage returns comes out of
/// the normalization unchanged.
pub proof fn law_text_without_tables_is_unchanged(input: Seq<char>)
    requires
        !input.contains('|'),
        !input.contains('\r'),
    ensures
        spec_normalize_pipe_tables(input) == input,
{
    lemma_lines_lack(input, '|');
    lemma_unpiped_lines_kept(text_lines(input), 0, None);
    assert(text_lines(input).subrange(0, text_lines(input).len() as int) == text_lines(input));
    lemma_lines_rejoin(input);
}

proof fn lemma_fenced_lines_kept(lines: Seq<Seq<char>>, idx: int, f: Seq<char>)
    requires
        0 <= idx <= lines.len(),
        forall|k: int| idx <= k < lines.len() - 1 ==> spec_fence_marker(#[trigger] lines[k]) != Some(f),
    ensures
        normalize_from(lines, idx, Some(f)) == lines.subrange(idx, lines.len() as int),
    decreases lines.len() - idx,
{
    if idx < lines.len() {
        let line = lines[idx];
        match spec_fence_marker(line) {
            Some(m) => {
                if idx < lines.len() - 1 {
                    assert(m != f);
                    assert(next_fence(Some(f), m) == Some(f));
                    lemma_fenced_lines_kept(lines, idx + 1, f);
                } else {
                    assert(normalize_from(lines, idx + 1, next_fence(Some(f), m)) =~= Seq::<
                        Seq<char>,
                    >::empty());
                }
            },
            None => {
                lemma_fenced_lines_kept(lines, idx + 1, f);
            },
        }
        assert(seq![line] + lines.subrange(idx + 1, lines.len() as int) =~= lines.subrange(
            idx,
            lines.len() as int,
        ));
    } else {
        assert(lines.subrange(idx, lines.len() as int) =~= Seq::<Seq<char>>::empty());
    }
}

/// A text that opens a fenced code block on its first line, and closes it
/// on its last line or not at all, comes out of the normalization
/// unchanged, whatever tables it holds (carriage returns aside).
pub proof fn law_fenced_text_is_unchanged(input: Seq<char>)
    requires
        !input.contains('\r'),
        text_lines(input).len() > 0,
        spec_fence_marker(text_lines(input)[0]) is Some,
        forall|k: int| 1 <= k < text_lines(input).len() - 1 ==> spec_fence_marker(
            #[trigger] text_lines(input)[k],
        ) != spec_fence_marker(text_lines(input)[0]),
    ensures
        spec_normalize_pipe_tables(input) == input,
{
    let lines = text_lines(input);
    let f = spec_fence_marker(lines[0]).unwrap();
    assert(next_fence(None, f) == Some(f));
    lemma_fenced_lines_kept(lines, 1, f);
    assert(seq![lines[0]] + lines.subrange(1, lines.len() as int) =~= lines);
    lemma_lines_rejoin(input);
}

} // verus!
