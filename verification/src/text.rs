//! Character-level text utilities shared by the other modules.
//!
//! Text is modelled as `Seq<char>`; the spec functions here state what the
//! std string operations used here (`trim`, `lines`,
//! `split_whitespace`, `join`, ...) compute.
use vstd::prelude::*;

verus! {

/// Unicode `White_Space`, the property `char::is_whitespace` tests.
pub open spec fn is_ws(c: char) -> bool {
    let u: u32 = c as u32;
    ||| u == 0x20
    ||| (0x09 <= u && u <= 0x0d)
    ||| u == 0x85
    ||| u == 0xa0
    ||| u == 0x1680
    ||| (0x2000 <= u && u <= 0x200a)
    ||| u == 0x2028
    ||| u == 0x2029
    ||| u == 0x202f
    ||| u == 0x205f
    ||| u == 0x3000
}

/// `char::is_whitespace`.
pub fn char_is_ws(c: char) -> (r: bool)
    ensures
        r == is_ws(c),
{
    let u: u32 = c as u32;
    u == 0x20 || (0x09 <= u && u <= 0x0d) || u == 0x85 || u == 0xa0 || u == 0x1680 || (0x2000
        <= u && u <= 0x200a) || u == 0x2028 || u == 0x2029 || u == 0x202f || u == 0x205f || u
        == 0x3000
}

/// The characters of `s`, in order.
pub fn chars_of(s: &str) -> (r: Vec<char>)
    ensures
        r@ == s@,
{
    let mut r: Vec<char> = Vec::new();
    for c in it: s.chars()
        invariant
            r@ == it.seq().take(it.index() as int),
    {
        r.push(c);
    }
    r
}

} // verus!

verus! {

/// Builds a `String` holding exactly the characters of `v`.
///
/// Trusted: calls `Iterator::collect` into `String` (std), whose documented
/// result is the concatenation of the yielded characters.
#[verifier::external_body]
pub(crate) fn string_from_chars(v: &[char]) -> (r: String)
    ensures
        r@ == v@,
{
    v.iter().collect()
}

/// `s` with leading whitespace removed (`str::trim_start`).
pub open spec fn trim_start(s: Seq<char>) -> Seq<char>
    decreases s.len(),
{
    if s.len() > 0 && is_ws(s[0]) {
        trim_start(s.drop_first())
    } else {
        s
    }
}

/// `s` with trailing whitespace removed (`str::trim_end`).
pub open spec fn trim_end(s: Seq<char>) -> Seq<char>
    decreases s.len(),
{
    if s.len() > 0 && is_ws(s.last()) {
        trim_end(s.drop_last())
    } else {
        s
    }
}

/// `str::trim`.
pub open spec fn trim(s: Seq<char>) -> Seq<char> {
    trim_end(trim_start(s))
}

pub open spec fn starts_with(s: Seq<char>, p: Seq<char>) -> bool {
    p.len() <= s.len() && s.subrange(0, p.len() as int) == p
}

pub open spec fn ends_with(s: Seq<char>, p: Seq<char>) -> bool {
    p.len() <= s.len() && s.subrange(s.len() - p.len(), s.len() as int) == p
}

/// `parts` joined with `sep` between neighbours (`[T]::join`).
pub open spec fn join(parts: Seq<Seq<char>>, sep: Seq<char>) -> Seq<char>
    decreases parts.len(),
{
    if parts.len() == 0 {
        Seq::empty()
    } else if parts.len() == 1 {
        parts[0]
    } else {
        join(parts.drop_last(), sep) + sep + parts.last()
    }
}

/// Decimal digits of `n`, most significant first, no leading zeros
/// (what `Display` prints for an unsigned integer).
pub open spec fn decimal(n: nat) -> Seq<char>
    decreases n,
{
    if n < 10 {
        seq![digit_char(n)]
    } else {
        decimal(n / 10).push(digit_char(n % 10))
    }
}

pub open spec fn digit_char(d: nat) -> char {
    if d == 0 { '0' }
    else if d == 1 { '1' }
    else if d == 2 { '2' }
    else if d == 3 { '3' }
    else if d == 4 { '4' }
    else if d == 5 { '5' }
    else if d == 6 { '6' }
    else if d == 7 { '7' }
    else if d == 8 { '8' }
    else { '9' }
}

fn exec_digit(d: u64) -> (c: char)
    requires
        d < 10,
    ensures
        c == digit_char(d as nat),
{
    if d == 0 { '0' }
    else if d == 1 { '1' }
    else if d == 2 { '2' }
    else if d == 3 { '3' }
    else if d == 4 { '4' }
    else if d == 5 { '5' }
    else if d == 6 { '6' }
    else if d == 7 { '7' }
    else if d == 8 { '8' }
    else { '9' }
}

/// Appends the decimal digits of `n` to `out`.
pub fn push_decimal(out: &mut Vec<char>, n: u64)
    ensures
        final(out)@ == old(out)@ + decimal(n as nat),
    decreases n,
{
    if n < 10 {
        out.push(exec_digit(n));
    } else {
        push_decimal(out, n / 10);
        out.push(exec_digit(n % 10));
    }
}

/// Appends all of `s` to `out`.
pub fn push_all(out: &mut Vec<char>, s: &[char])
    ensures
        final(out)@ == old(out)@ + s@,
{
    let ghost start = out@;
    for i in 0..s.len()
        invariant
            out@ == start + s@.take(i as int),
    {
        out.push(s[i]);
        assert(s@.take(i + 1) == s@.take(i as int).push(s@[i as int]));
    }
    assert(s@.take(s@.len() as int) == s@);
}

/// Index of the first non-whitespace character at or after `from`
/// (`s.len()` when there is none).
pub fn skip_ws_forward(s: &[char], from: usize) -> (i: usize)
    requires
        from <= s.len(),
    ensures
        from <= i <= s.len(),
        forall|k: int| from <= k < i ==> is_ws(#[trigger] s@[k]),
        i < s.len() ==> !is_ws(s@[i as int]),
{
    let mut i: usize = from;
    while i < s.len() && char_is_ws(s[i])
        invariant
            from <= i <= s.len(),
            forall|k: int| from <= k < i ==> is_ws(#[trigger] s@[k]),
        decreases s.len() - i,
    {
        i = i + 1;
    }
    i
}

/// Index just past the last non-whitespace character before `to`
/// (`from` when there is none in `from..to`).
pub fn skip_ws_backward(s: &[char], from: usize, to: usize) -> (j: usize)
    requires
        from <= to <= s.len(),
    ensures
        from <= j <= to,
        forall|k: int| j <= k < to ==> is_ws(#[trigger] s@[k]),
        j > from ==> !is_ws(s@[j - 1]),
{
    let mut j: usize = to;
    while j > from && char_is_ws(s[j - 1])
        invariant
            from <= j <= to <= s.len(),
            forall|k: int| j <= k < to ==> is_ws(#[trigger] s@[k]),
        decreases j,
    {
        j = j - 1;
    }
    j
}

pub proof fn lemma_trim_start_skip(s: Seq<char>, i: int)
    requires
        0 <= i <= s.len(),
        forall|k: int| 0 <= k < i ==> is_ws(#[trigger] s[k]),
        i < s.len() ==> !is_ws(s[i]),
    ensures
        trim_start(s) == s.subrange(i, s.len() as int),
    decreases i,
{
    if i == 0 {
        assert(s.subrange(0, s.len() as int) == s);
    } else {
        assert(is_ws(s[0]));
        let t = s.drop_first();
        assert forall|k: int| 0 <= k < i - 1 implies is_ws(#[trigger] t[k]) by {
            assert(t[k] == s[k + 1]);
        }
        lemma_trim_start_skip(t, i - 1);
        assert(t.subrange(i - 1, t.len() as int) == s.subrange(i, s.len() as int));
    }
}

pub proof fn lemma_trim_end_skip(s: Seq<char>, j: int)
    requires
        0 <= j <= s.len(),
        forall|k: int| j <= k < s.len() ==> is_ws(#[trigger] s[k]),
        j > 0 ==> !is_ws(s[j - 1]),
    ensures
        trim_end(s) == s.subrange(0, j),
    decreases s.len() - j,
{
    if j == s.len() {
        assert(s.subrange(0, s.len() as int) == s);
    } else {
        assert(is_ws(s.last()));
        let t = s.drop_last();
        assert forall|k: int| j <= k < t.len() implies is_ws(#[trigger] t[k]) by {
            assert(t[k] == s[k]);
        }
        lemma_trim_end_skip(t, j);
        assert(t.subrange(0, j) == s.subrange(0, j));
    }
}

/// Bounds `(a, b)` with `s[a..b] == trim(s)`.
pub fn trim_bounds(s: &[char]) -> (r: (usize, usize))
    ensures
        r.0 <= r.1 <= s.len(),
        s@.subrange(r.0 as int, r.1 as int) == trim(s@),
        trim_start(s@) == s@.subrange(r.0 as int, s.len() as int),
{
    let a = skip_ws_forward(s, 0);
    let b = skip_ws_backward(s, a, s.len());
    proof {
        lemma_trim_start_skip(s@, a as int);
        let t = s@.subrange(a as int, s.len() as int);
        assert forall|k: int| b - a <= k < t.len() implies is_ws(#[trigger] t[k]) by {
            assert(t[k] == s@[k + a]);
        }
        if b > a {
            assert(t[b - a - 1] == s@[b - 1]);
        }
        lemma_trim_end_skip(t, b - a);
        assert(t.subrange(0, b - a) == s@.subrange(a as int, b as int));
    }
    (a, b)
}

/// A copy of `s[a..b]`.
pub fn slice_chars(s: &[char], a: usize, b: usize) -> (r: Vec<char>)
    requires
        a <= b <= s.len(),
    ensures
        r@ == s@.subrange(a as int, b as int),
{
    let mut r: Vec<char> = Vec::new();
    let mut i: usize = a;
    while i < b
        invariant
            a <= i <= b <= s.len(),
            r@ == s@.subrange(a as int, i as int),
        decreases b - i,
    {
        r.push(s[i]);
        assert(s@.subrange(a as int, i + 1) == s@.subrange(a as int, i as int).push(s@[i as int]));
        i = i + 1;
    }
    r
}

/// `trim(s)` as a new vector.
pub fn trimmed(s: &[char]) -> (r: Vec<char>)
    ensures
        r@ == trim(s@),
{
    let (a, b) = trim_bounds(s);
    slice_chars(s, a, b)
}

/// Character-wise equality.
pub fn chars_eq(a: &[char], b: &[char]) -> (r: bool)
    ensures
        r == (a@ == b@),
{
    if a.len() != b.len() {
        return false;
    }
    let mut i: usize = 0;
    while i < a.len()
        invariant
            a.len() == b.len(),
            0 <= i <= a.len(),
            forall|k: int| 0 <= k < i ==> a@[k] == b@[k],
        decreases a.len() - i,
    {
        if a[i] != b[i] {
            return false;
        }
        i = i + 1;
    }
    assert(a@ =~= b@);
    true
}

/// Whether `s` starts with `p`.
pub fn chars_starts_with(s: &[char], p: &[char]) -> (r: bool)
    ensures
        r == starts_with(s@, p@),
{
    if p.len() > s.len() {
        return false;
    }
    let mut i: usize = 0;
    while i < p.len()
        invariant
            p.len() <= s.len(),
            0 <= i <= p.len(),
            forall|k: int| 0 <= k < i ==> s@[k] == p@[k],
        decreases p.len() - i,
    {
        if s[i] != p[i] {
            assert(s@.subrange(0, p.len() as int)[i as int] == s@[i as int]);
            return false;
        }
        i = i + 1;
    }
    assert(s@.subrange(0, p.len() as int) =~= p@);
    true
}

/// Whether `s` ends with `p`.
pub fn chars_ends_with(s: &[char], p: &[char]) -> (r: bool)
    ensures
        r == ends_with(s@, p@),
{
    if p.len() > s.len() {
        return false;
    }
    let off: usize = s.len() - p.len();
    let mut i: usize = 0;
    while i < p.len()
        invariant
            p.len() <= s.len(),
            off == s.len() - p.len(),
            0 <= i <= p.len(),
            forall|k: int| 0 <= k < i ==> s@[off + k] == p@[k],
        decreases p.len() - i,
    {
        if s[off + i] != p[i] {
            assert(s@.subrange(off as int, s.len() as int)[i as int] == s@[off + i]);
            return false;
        }
        i = i + 1;
    }
    assert(s@.subrange(off as int, s.len() as int) =~= p@);
    true
}

/// Whether `c` occurs in `s`.
pub fn chars_contains(s: &[char], c: char) -> (r: bool)
    ensures
        r == s@.contains(c),
{
    let mut i: usize = 0;
    while i < s.len()
        invariant
            0 <= i <= s.len(),
            forall|k: int| 0 <= k < i ==> s@[k] != c,
        decreases s.len() - i,
    {
        if s[i] == c {
            return true;
        }
        i = i + 1;
    }
    false
}

} // verus!

verus! {

/// The character views of a sequence of strings.
pub open spec fn strings_view(v: Seq<String>) -> Seq<Seq<char>> {
    v.map_values(|s: String| s@)
}

/// The character views of a sequence of string slices.
pub open spec fn strs_view(v: Seq<&str>) -> Seq<Seq<char>> {
    v.map_values(|s: &str| s@)
}

/// Position of the first `'\n'` in `s` (`s.len()` when there is none).
pub open spec fn newline_pos(s: Seq<char>) -> int
    decreases s.len(),
{
    if s.len() == 0 {
        0
    } else if s[0] == '\n' {
        0
    } else {
        1 + newline_pos(s.drop_first())
    }
}

/// `s` without one trailing `'\r'`.
pub open spec fn strip_cr(s: Seq<char>) -> Seq<char> {
    if s.len() > 0 && s.last() == '\r' {
        s.drop_last()
    } else {
        s
    }
}

/// `str::lines`: split at `'\n'`, drop one `'\r'` before each `'\n'`, and
/// yield no empty line after a final `'\n'`.
pub open spec fn text_lines(s: Seq<char>) -> Seq<Seq<char>>
    decreases s.len(),
{
    if s.len() == 0 {
        Seq::empty()
    } else {
        let j = newline_pos(s);
        if j >= s.len() {
            seq![s]
        } else {
            proof {
                lemma_newline_pos_bounds(s);
            }
            seq![strip_cr(s.subrange(0, j))] + text_lines(s.subrange(j + 1, s.len() as int))
        }
    }
}

pub proof fn lemma_newline_pos_bounds(s: Seq<char>)
    ensures
        0 <= newline_pos(s) <= s.len(),
    decreases s.len(),
{
    if s.len() > 0 && s[0] != '\n' {
        lemma_newline_pos_bounds(s.drop_first());
    }
}

pub proof fn lemma_newline_pos_is(s: Seq<char>, j: int)
    requires
        0 <= j <= s.len(),
        forall|k: int| 0 <= k < j ==> #[trigger] s[k] != '\n',
        j < s.len() ==> s[j] == '\n',
    ensures
        newline_pos(s) == j,
    decreases j,
{
    if j > 0 {
        let t = s.drop_first();
        assert forall|k: int| 0 <= k < j - 1 implies #[trigger] t[k] != '\n' by {
            assert(t[k] == s[k + 1]);
        }
        lemma_newline_pos_is(t, j - 1);
    }
}

/// The lines of `s` (as `str::lines` yields them), each a slice of `s`.
pub fn lines_of(s: &str) -> (r: Vec<&str>)
    ensures
        strs_view(r@) == text_lines(s@),
{
    let cs = chars_of(s);
    let n = cs.len();
    let mut r: Vec<&str> = Vec::new();
    let mut start: usize = 0;
    let mut i: usize = 0;
    assert(s@.subrange(0, n as int) == s@);
    assert(strs_view(r@) =~= Seq::<Seq<char>>::empty());
    while i < n
        invariant
            n == cs.len(),
            cs@ == s@,
            start <= i <= n,
            forall|k: int| start <= k < i ==> #[trigger] cs@[k] != '\n',
            strs_view(r@) + text_lines(s@.subrange(start as int, n as int)) == text_lines(s@),
        decreases n - i,
    {
        if cs[i] == '\n' {
            let ghost rest = s@.subrange(start as int, n as int);
            proof {
                assert forall|k: int| 0 <= k < i - start implies #[trigger] rest[k] != '\n' by {
                    assert(rest[k] == cs@[start + k]);
                }
                lemma_newline_pos_is(rest, i - start);
                assert(rest.subrange(0, i - start) == s@.subrange(start as int, i as int));
                assert(rest.subrange(i - start + 1, rest.len() as int) == s@.subrange(
                    i + 1,
                    n as int,
                ));
            }
            let line_end: usize = if i > start && cs[i - 1] == '\r' {
                i - 1
            } else {
                i
            };
            let line = s.substring_char(start, line_end);
            proof {
                let whole = s@.subrange(start as int, i as int);
                if i > start && cs@[i - 1] == '\r' {
                    assert(whole.drop_last() == s@.subrange(start as int, line_end as int));
                }
            }
            let ghost old_r = r@;
            r.push(line);
            assert(strs_view(r@) == strs_view(old_r).push(line@));
            start = i + 1;
        }
        i = i + 1;
    }
    if start < n {
        let ghost rest = s@.subrange(start as int, n as int);
        proof {
            assert forall|k: int| 0 <= k < rest.len() implies #[trigger] rest[k] != '\n' by {
                assert(rest[k] == cs@[start + k]);
            }
            lemma_newline_pos_is(rest, rest.len() as int);
        }
        let line = s.substring_char(start, n);
        let ghost old_r = r@;
        r.push(line);
        assert(strs_view(r@) == strs_view(old_r).push(line@));
    } else {
        assert(s@.subrange(start as int, n as int).len() == 0);
    }
    r
}

/// Joins the character views of `parts` with `sep` between neighbours.
pub fn join_strings(parts: &[String], sep: &[char]) -> (r: Vec<char>)
    ensures
        r@ == join(strings_view(parts@), sep@),
{
    let mut r: Vec<char> = Vec::new();
    let mut i: usize = 0;
    while i < parts.len()
        invariant
            0 <= i <= parts.len(),
            r@ == join(strings_view(parts@.take(i as int)), sep@),
        decreases parts.len() - i,
    {
        let ghost before = parts@.take(i as int);
        assert(parts@.take(i + 1).drop_last() == before);
        assert(strings_view(parts@.take(i + 1)).drop_last() == strings_view(before));
        if i > 0 {
            push_all(&mut r, sep);
        }
        let p = chars_of(parts[i].as_str());
        push_all(&mut r, p.as_slice());
        i = i + 1;
    }
    assert(parts@.take(parts@.len() as int) == parts@);
    r
}

} // verus!

verus! {

/// `char::to_ascii_lowercase`.
pub open spec fn lower_char(c: char) -> char {
    if 'A' <= c && c <= 'Z' {
        ((c as u32) + 32) as char
    } else {
        c
    }
}

/// `str::to_ascii_lowercase`.
pub open spec fn ascii_lower(s: Seq<char>) -> Seq<char> {
    Seq::new(s.len(), |i: int| lower_char(s[i]))
}

pub fn lower_chars(s: &[char]) -> (r: Vec<char>)
    ensures
        r@ == ascii_lower(s@),
{
    let mut r: Vec<char> = Vec::new();
    for i in 0..s.len()
        invariant
            r@ == ascii_lower(s@).take(i as int),
    {
        let c = s[i];
        let l = if 'A' <= c && c <= 'Z' {
            let u: u8 = (c as u8) + 32;
            u as char
        } else {
            c
        };
        assert(l == lower_char(c));
        r.push(l);
        assert(ascii_lower(s@).take(i + 1) == ascii_lower(s@).take(i as int).push(l));
    }
    assert(ascii_lower(s@).take(s.len() as int) == ascii_lower(s@));
    r
}

/// The whitespace-separated words of `s` (`str::split_whitespace`).
pub open spec fn words(s: Seq<char>) -> Seq<Seq<char>>
    decreases s.len(),
{
    if s.len() == 0 {
        Seq::empty()
    } else {
        let w = words(s.drop_last());
        if is_ws(s.last()) {
            w
        } else if s.len() >= 2 && !is_ws(s[s.len() - 2]) && w.len() > 0 {
            w.drop_last().push(w.last().push(s.last()))
        } else {
            w.push(seq![s.last()])
        }
    }
}

/// `s` with its words separated by single spaces
/// (`split_whitespace().collect::<Vec<_>>().join(" ")`).
pub open spec fn collapse_ws(s: Seq<char>) -> Seq<char> {
    join(words(s), seq![' '])
}

pub open spec fn chars_seqs_view(v: Seq<Vec<char>>) -> Seq<Seq<char>> {
    v.map_values(|w: Vec<char>| w@)
}

/// The words of `s`.
pub fn split_words(s: &[char]) -> (r: Vec<Vec<char>>)
    ensures
        chars_seqs_view(r@) == words(s@),
{
    let mut done: Vec<Vec<char>> = Vec::new();
    let mut cur: Vec<char> = Vec::new();
    let mut i: usize = 0;
    while i < s.len()
        invariant
            0 <= i <= s.len(),
            cur@.len() == 0 ==> chars_seqs_view(done@) == words(s@.take(i as int)),
            cur@.len() > 0 ==> chars_seqs_view(done@).push(cur@) == words(s@.take(i as int)),
            cur@.len() > 0 <==> (i > 0 && !is_ws(s@[i - 1])),
        decreases s.len() - i,
    {
        let c = s[i];
        let ghost p = s@.take(i + 1);
        assert(p.drop_last() == s@.take(i as int));
        assert(p.last() == c);
        if char_is_ws(c) {
            if cur.len() > 0 {
                let ghost old_done = done@;
                let w = cur;
                done.push(w);
                assert(chars_seqs_view(done@) == chars_seqs_view(old_done).push(w@));
                cur = Vec::new();
            }
        } else {
            let ghost old_cur = cur@;
            proof {
                if i >= 1 {
                    assert(p[p.len() - 2] == s@[i - 1]);
                }
                if old_cur.len() > 0 {
                    let w = words(s@.take(i as int));
                    assert(w.drop_last() == chars_seqs_view(done@));
                    assert(w.last() == old_cur);
                    assert(chars_seqs_view(done@).push(old_cur.push(c)) == words(p));
                } else {
                    assert(chars_seqs_view(done@).push(seq![c]) == words(p));
                    assert(old_cur.push(c) =~= seq![c]);
                }
            }
            cur.push(c);
            assert(cur@ == old_cur.push(c));
            assert(chars_seqs_view(done@).push(cur@) == words(p));
            assert(p == s@.take(i + 1));
        }
        i = i + 1;
    }
    assert(s@.take(s.len() as int) == s@);
    if cur.len() > 0 {
        let ghost old_done = done@;
        let w = cur;
        done.push(w);
        assert(chars_seqs_view(done@) == chars_seqs_view(old_done).push(w@));
    }
    done
}

/// When `s` ends in a non-whitespace character, its last word ends with it.
pub proof fn lemma_words_last_char(s: Seq<char>)
    requires
        s.len() > 0,
        !is_ws(s.last()),
    ensures
        words(s).len() > 0,
        words(s).last().len() > 0,
    decreases s.len(),
{
    let w = words(s.drop_last());
    if s.len() >= 2 && !is_ws(s[s.len() - 2]) {
        lemma_words_last_char(s.drop_last());
    }
}

/// Joins the views of `parts` with `sep` between neighbours.
pub fn join_chars(parts: &[Vec<char>], sep: &[char]) -> (r: Vec<char>)
    ensures
        r@ == join(chars_seqs_view(parts@), sep@),
{
    let mut r: Vec<char> = Vec::new();
    let mut i: usize = 0;
    while i < parts.len()
        invariant
            0 <= i <= parts.len(),
            r@ == join(chars_seqs_view(parts@.take(i as int)), sep@),
        decreases parts.len() - i,
    {
        let ghost before = parts@.take(i as int);
        assert(parts@.take(i + 1).drop_last() == before);
        assert(chars_seqs_view(parts@.take(i + 1)).drop_last() == chars_seqs_view(before));
        if i > 0 {
            push_all(&mut r, sep);
        }
        push_all(&mut r, parts[i].as_slice());
        i = i + 1;
    }
    assert(parts@.take(parts@.len() as int) == parts@);
    r
}

/// `s` with its words separated by single spaces.
pub fn collapse_whitespace(s: &[char]) -> (r: Vec<char>)
    ensures
        r@ == collapse_ws(s@),
{
    let ws = split_words(s);
    let sep: Vec<char> = vec![' '];
    assert(sep@ =~= seq![' ']);
    join_chars(ws.as_slice(), sep.as_slice())
}

/// Whether `p` occurs in `s` at position `i`.
pub open spec fn occurs_at(s: Seq<char>, p: Seq<char>, i: int) -> bool {
    0 <= i && i + p.len() <= s.len() && s.subrange(i, i + p.len()) == p
}

/// `str::contains` for a pattern string.
pub open spec fn contains_seq(s: Seq<char>, p: Seq<char>) -> bool {
    exists|i: int| #[trigger] occurs_at(s, p, i)
}

pub fn chars_contains_seq(s: &[char], p: &[char]) -> (r: bool)
    ensures
        r == contains_seq(s@, p@),
{
    if p.len() > s.len() {
        assert forall|i: int| !#[trigger] occurs_at(s@, p@, i) by {}
        return false;
    }
    let mut i: usize = 0;
    while i <= s.len() - p.len()
        invariant
            p.len() <= s.len(),
            0 <= i <= s.len() - p.len() + 1,
            forall|j: int| 0 <= j < i ==> !#[trigger] occurs_at(s@, p@, j),
        decreases s.len() - p.len() + 1 - i,
    {
        let mut k: usize = 0;
        let mut ok = true;
        while k < p.len()
            invariant
                p.len() <= s.len(),
                i + p.len() <= s.len(),
                0 <= k <= p.len(),
                ok == (forall|m: int| 0 <= m < k ==> s@[i + m] == p@[m]),
            decreases p.len() - k,
        {
            if s[i + k] != p[k] {
                ok = false;
            }
            k = k + 1;
        }
        if ok {
            assert(s@.subrange(i as int, i + p.len()) =~= p@);
            assert(occurs_at(s@, p@, i as int));
            return true;
        } else {
            assert(!occurs_at(s@, p@, i as int)) by {
                if occurs_at(s@, p@, i as int) {
                    assert forall|m: int| 0 <= m < p.len() implies s@[i + m] == p@[m] by {
                        assert(s@.subrange(i as int, i + p.len())[m] == s@[i + m]);
                    }
                }
            }
        }
        i = i + 1;
    }
    assert forall|j: int| !#[trigger] occurs_at(s@, p@, j) by {
        if 0 <= j < i {
        }
    }
    false
}

} // verus!

verus! {

/// Appends the characters of `s` to `out`.
pub fn append_str(out: &mut Vec<char>, s: &str)
    ensures
        final(out)@ == old(out)@ + s@,
{
    let c = chars_of(s);
    push_all(out, c.as_slice());
}

/// An owned copy of `s`.
pub fn owned(s: &str) -> (r: String)
    ensures
        r@ == s@,
{
    let c = chars_of(s);
    string_from_chars(c.as_slice())
}

/// Whether `s` and `t` hold the same characters.
pub fn str_eq(s: &str, t: &str) -> (r: bool)
    ensures
        r == (s@ == t@),
{
    let a = chars_of(s);
    let b = chars_of(t);
    chars_eq(a.as_slice(), b.as_slice())
}

/// `a` followed by `b`.
pub fn concat2(a: &str, b: &str) -> (r: String)
    ensures
        r@ == a@ + b@,
{
    let mut out = chars_of(a);
    append_str(&mut out, b);
    string_from_chars(out.as_slice())
}

/// `a`, `b` and `c`, one after another.
pub fn concat3(a: &str, b: &str, c: &str) -> (r: String)
    ensures
        r@ == a@ + b@ + c@,
{
    let mut out = chars_of(a);
    append_str(&mut out, b);
    append_str(&mut out, c);
    string_from_chars(out.as_slice())
}

/// `a`, `b`, `c` and `d`, one after another.
pub fn concat4(a: &str, b: &str, c: &str, d: &str) -> (r: String)
    ensures
        r@ == a@ + b@ + c@ + d@,
{
    let mut out = chars_of(a);
    append_str(&mut out, b);
    append_str(&mut out, c);
    append_str(&mut out, d);
    string_from_chars(out.as_slice())
}

/// An empty string.
pub fn empty_string() -> (r: String)
    ensures
        r@ == Seq::<char>::empty(),
{
    let e: Vec<char> = Vec::new();
    string_from_chars(e.as_slice())
}

/// Where the first line of `s` ends.
pub proof fn lemma_newline_pos_props(s: Seq<char>)
    ensures
        0 <= newline_pos(s) <= s.len(),
        forall|k: int| 0 <= k < newline_pos(s) ==> s[k] != '\n',
        newline_pos(s) < s.len() ==> s[newline_pos(s)] == '\n',
    decreases s.len(),
{
    if s.len() > 0 && s[0] != '\n' {
        let t = s.drop_first();
        lemma_newline_pos_props(t);
        assert forall|k: int| 0 <= k < newline_pos(s) implies s[k] != '\n' by {
            if k > 0 {
                assert(s[k] == t[k - 1]);
            }
        }
        if newline_pos(s) < s.len() {
            assert(s[newline_pos(s)] == t[newline_pos(t)]);
        }
    }
}

/// Joining a first part onto the join of the rest.
pub proof fn lemma_join_cons(a: Seq<char>, rest: Seq<Seq<char>>, sep: Seq<char>)
    requires
        rest.len() > 0,
    ensures
        join(seq![a] + rest, sep) == a + sep + join(rest, sep),
    decreases rest.len(),
{
    let all = seq![a] + rest;
    assert(all.len() == rest.len() + 1);
    assert(all.last() == rest.last());
    if rest.len() == 1 {
        assert(all.drop_last() =~= seq![a]);
        assert(join(seq![a], sep) == a);
        assert(join(all, sep) == join(all.drop_last(), sep) + sep + all.last());
        assert(join(rest, sep) == rest[0]);
    } else {
        assert(all.drop_last() =~= seq![a] + rest.drop_last());
        lemma_join_cons(a, rest.drop_last(), sep);
        assert(join(all, sep) == join(all.drop_last(), sep) + sep + all.last());
        assert(join(rest, sep) == join(rest.drop_last(), sep) + sep + rest.last());
        assert(a + sep + join(rest.drop_last(), sep) + sep + rest.last() =~= a + sep + (join(
            rest.drop_last(),
            sep,
        ) + sep + rest.last()));
    }
}

/// A string without `c` yields lines without `c`.
pub proof fn lemma_lines_lack(s: Seq<char>, c: char)
    requires
        !s.contains(c),
    ensures
        forall|k: int| 0 <= k < text_lines(s).len() ==> !(#[trigger] text_lines(s)[k]).contains(c),
    decreases s.len(),
{
    if s.len() > 0 {
        let j = newline_pos(s);
        lemma_newline_pos_props(s);
        if j < s.len() {
            let first = strip_cr(s.subrange(0, j));
            let rest = s.subrange(j + 1, s.len() as int);
            assert(!rest.contains(c)) by {
                if rest.contains(c) {
                    let i = choose|i: int| 0 <= i < rest.len() && rest[i] == c;
                    assert(s[i + j + 1] == c);
                }
            }
            assert(!first.contains(c)) by {
                if first.contains(c) {
                    let i = choose|i: int| 0 <= i < first.len() && first[i] == c;
                    assert(s[i] == c);
                }
            }
            lemma_lines_lack(rest, c);
            assert forall|k: int| 0 <= k < text_lines(s).len() implies !(
            #[trigger] text_lines(s)[k]).contains(c) by {
                if k > 0 {
                    assert(text_lines(s)[k] == text_lines(rest)[k - 1]);
                }
            }
        }
    }
}

/// Lines joined back with newlines, plus the final newline when there was
/// one, give back a text without carriage returns.
pub proof fn lemma_lines_rejoin(s: Seq<char>)
    requires
        !s.contains('\r'),
    ensures
        join(text_lines(s), seq!['\n']) + (if ends_with(s, seq!['\n']) {
            seq!['\n']
        } else {
            Seq::empty()
        }) == s,
    decreases s.len(),
{
    let nl = seq!['\n'];
    if s.len() == 0 {
        assert(!ends_with(s, nl));
        assert(join(text_lines(s), nl) + Seq::<char>::empty() =~= s);
    } else {
        let j = newline_pos(s);
        lemma_newline_pos_props(s);
        if j >= s.len() {
            assert(!ends_with(s, nl)) by {
                if ends_with(s, nl) {
                    assert(s.subrange(s.len() - 1, s.len() as int)[0] == s[s.len() - 1]);
                }
            }
            assert(join(text_lines(s), nl) + Seq::<char>::empty() =~= s);
        } else {
            let head = s.subrange(0, j);
            let rest = s.subrange(j + 1, s.len() as int);
            assert(strip_cr(head) == head) by {
                if head.len() > 0 && head.last() == '\r' {
                    assert(s[j - 1] == '\r');
                }
            }
            assert(!rest.contains('\r')) by {
                if rest.contains('\r') {
                    let i = choose|i: int| 0 <= i < rest.len() && rest[i] == '\r';
                    assert(s[i + j + 1] == '\r');
                }
            }
            assert(text_lines(s) == seq![head] + text_lines(rest));
            if rest.len() == 0 {
                assert(text_lines(rest) =~= Seq::<Seq<char>>::empty());
                assert(seq![head] + text_lines(rest) =~= seq![head]);
                assert(ends_with(s, nl)) by {
                    assert(s.subrange(s.len() - 1, s.len() as int) =~= nl);
                }
                assert(head + nl =~= s);
            } else {
                lemma_lines_rejoin(rest);
                assert(text_lines(rest).len() > 0);
                lemma_join_cons(head, text_lines(rest), nl);
                assert(ends_with(s, nl) == ends_with(rest, nl)) by {
                    assert(s.subrange(s.len() - 1, s.len() as int) =~= rest.subrange(
                        rest.len() - 1,
                        rest.len() as int,
                    ));
                }
                let tail_nl: Seq<char> = if ends_with(s, nl) {
                    nl
                } else {
                    Seq::empty()
                };
                assert(head + nl + join(text_lines(rest), nl) + tail_nl =~= head + nl + (join(
                    text_lines(rest),
                    nl,
                ) + tail_nl));
                assert(head + nl + rest =~= s);
            }
        }
    }
}

/// Trimming keeps a missing character missing.
pub proof fn lemma_trim_lacks(s: Seq<char>, c: char)
    requires
        !s.contains(c),
    ensures
        !trim(s).contains(c),
{
    lemma_trim_start_lacks(s, c);
    lemma_trim_end_lacks(trim_start(s), c);
}

proof fn lemma_trim_start_lacks(s: Seq<char>, c: char)
    requires
        !s.contains(c),
    ensures
        !trim_start(s).contains(c),
    decreases s.len(),
{
    if s.len() > 0 && is_ws(s[0]) {
        let t = s.drop_first();
        assert(!t.contains(c)) by {
            if t.contains(c) {
                let i = choose|i: int| 0 <= i < t.len() && t[i] == c;
                assert(s[i + 1] == c);
            }
        }
        lemma_trim_start_lacks(t, c);
    }
}

proof fn lemma_trim_end_lacks(s: Seq<char>, c: char)
    requires
        !s.contains(c),
    ensures
        !trim_end(s).contains(c),
    decreases s.len(),
{
    if s.len() > 0 && is_ws(s.last()) {
        let t = s.drop_last();
        assert(!t.contains(c)) by {
            if t.contains(c) {
                let i = choose|i: int| 0 <= i < t.len() && t[i] == c;
                assert(s[i] == c);
            }
        }
        lemma_trim_end_lacks(t, c);
    }
}

/// The words of a text are non-empty and hold no whitespace; a text with a
/// non-whitespace character has a word.
pub proof fn lemma_words_props(s: Seq<char>)
    ensures
        forall|i: int| 0 <= i < words(s).len() ==> (#[trigger] words(s)[i]).len() > 0,
        forall|i: int, k: int| 0 <= i < words(s).len() && 0 <= k < words(s)[i].len() ==> !is_ws(
            #[trigger] words(s)[i][k],
        ),
        (exists|k: int| 0 <= k < s.len() && !is_ws(#[trigger] s[k])) ==> words(s).len() > 0,
    decreases s.len(),
{
    if s.len() > 0 {
        let d = s.drop_last();
        lemma_words_props(d);
        let w = words(d);
        let cur = words(s);
        if is_ws(s.last()) {
            if exists|k: int| 0 <= k < s.len() && !is_ws(#[trigger] s[k]) {
                let k = choose|k: int| 0 <= k < s.len() && !is_ws(#[trigger] s[k]);
                assert(d[k] == s[k]);
            }
        } else if s.len() >= 2 && !is_ws(s[s.len() - 2]) && w.len() > 0 {
            let lw = w.last().push(s.last());
            assert(cur == w.drop_last().push(lw));
            assert forall|i: int, k: int| 0 <= i < cur.len() && 0 <= k < cur[i].len() implies !is_ws(
                #[trigger] cur[i][k],
            ) by {
                if i < cur.len() - 1 {
                    assert(cur[i] == w[i]);
                } else {
                    if k < w.last().len() {
                        assert(lw[k] == w[w.len() - 1][k]);
                    }
                }
            }
            assert forall|i: int| 0 <= i < cur.len() implies (#[trigger] cur[i]).len() > 0 by {
                if i < cur.len() - 1 {
                    assert(cur[i] == w[i]);
                }
            }
        } else {
            assert(cur == w.push(seq![s.last()]));
            assert forall|i: int, k: int| 0 <= i < cur.len() && 0 <= k < cur[i].len() implies !is_ws(
                #[trigger] cur[i][k],
            ) by {
                if i < cur.len() - 1 {
                    assert(cur[i] == w[i]);
                }
            }
            assert forall|i: int| 0 <= i < cur.len() implies (#[trigger] cur[i]).len() > 0 by {
                if i < cur.len() - 1 {
                    assert(cur[i] == w[i]);
                }
            }
        }
    }
}

/// The join of non-empty parts starts with the first part's first
/// character and ends with the last part's last character.
pub proof fn lemma_join_ends(parts: Seq<Seq<char>>, sep: Seq<char>)
    requires
        parts.len() > 0,
        forall|i: int| 0 <= i < parts.len() ==> (#[trigger] parts[i]).len() > 0,
    ensures
        join(parts, sep).len() > 0,
        join(parts, sep)[0] == parts[0][0],
        join(parts, sep).last() == parts.last().last(),
    decreases parts.len(),
{
    if parts.len() > 1 {
        let d = parts.drop_last();
        assert forall|i: int| 0 <= i < d.len() implies (#[trigger] d[i]).len() > 0 by {
            assert(d[i] == parts[i]);
        }
        lemma_join_ends(d, sep);
        let j = join(parts, sep);
        assert(j == join(d, sep) + sep + parts.last());
        assert(j[0] == join(d, sep)[0]);
        assert(d[0] == parts[0]);
    }
}

/// A text with a non-whitespace character collapses to a non-empty text
/// that neither starts nor ends with whitespace.
pub proof fn lemma_collapse_ends(s: Seq<char>)
    requires
        exists|k: int| 0 <= k < s.len() && !is_ws(#[trigger] s[k]),
    ensures
        collapse_ws(s).len() > 0,
        !is_ws(collapse_ws(s)[0]),
        !is_ws(collapse_ws(s).last()),
{
    lemma_words_props(s);
    let w = words(s);
    lemma_join_ends(w, seq![' ']);
    assert(w[0].len() > 0);
    assert(!is_ws(w[0][0]));
    let l = w[w.len() - 1];
    assert(l.len() > 0);
    assert(!is_ws(w[w.len() - 1][l.len() - 1]));
}

/// A text whose trim is not empty has a non-whitespace character.
pub proof fn lemma_trim_nonempty_has_char(s: Seq<char>)
    requires
        trim(s).len() > 0,
    ensures
        exists|k: int| 0 <= k < s.len() && !is_ws(#[trigger] s[k]),
{
    if forall|k: int| 0 <= k < s.len() ==> is_ws(#[trigger] s[k]) {
        lemma_trim_start_all_ws(s);
        assert(trim_start(s).len() == 0);
        assert(trim_end(trim_start(s)) == trim_start(s));
    }
}

proof fn lemma_trim_start_all_ws(s: Seq<char>)
    requires
        forall|k: int| 0 <= k < s.len() ==> is_ws(#[trigger] s[k]),
    ensures
        trim_start(s).len() == 0,
    decreases s.len(),
{
    if s.len() > 0 {
        let t = s.drop_first();
        assert(is_ws(s[0]));
        assert forall|k: int| 0 <= k < t.len() implies is_ws(#[trigger] t[k]) by {
            assert(t[k] == s[k + 1]);
        }
        lemma_trim_start_all_ws(t);
    }
}

/// A text that neither starts nor ends with whitespace is its own trim.
pub proof fn lemma_trim_of_trimmed(s: Seq<char>)
    requires
        s.len() > 0,
        !is_ws(s[0]),
        !is_ws(s.last()),
    ensures
        trim(s) == s,
{
    assert(trim_start(s) == s);
    assert(trim_end(s) == s);
}

} // verus!
