//! Reading daily candles from CSV text (`date,open,high,low,close`).
use vstd::prelude::*;

use crate::calendar::{naive_date_spec, parse_naive_date};
use crate::text::{chars_of, is_white_space, is_white_space_spec, string_from_chars};

verus! {

// ── Lines ────────────────────────────────────────────────────────────────────────

/// First `'\n'` at or after `i`, or the end of `s`.
pub open spec fn newline_from(s: Seq<char>, i: int) -> int
    decreases s.len() - i,
{
    if 0 <= i < s.len() && s[i] != '\n' {
        newline_from(s, i + 1)
    } else {
        i
    }
}

pub proof fn lemma_newline_from_bounds(s: Seq<char>, i: int)
    requires
        0 <= i <= s.len(),
    ensures
        i <= newline_from(s, i) <= s.len(),
        newline_from(s, i) < s.len() ==> s[newline_from(s, i)] == '\n',
    decreases s.len() - i,
{
    if i < s.len() && s[i] != '\n' {
        lemma_newline_from_bounds(s, i + 1);
    }
}

/// The line that starts at `i`: up to the next `'\n'`, without a `'\r'` that ends it
/// right before that `'\n'`.
pub open spec fn line_at(s: Seq<char>, i: int) -> Seq<char> {
    let j = newline_from(s, i);
    let raw = s.subrange(i, j);
    if j < s.len() && raw.len() > 0 && raw.last() == '\r' {
        raw.drop_last()
    } else {
        raw
    }
}

/// Lines of `s` from position `i` on, as `str::lines` yields them.
pub open spec fn lines_from(s: Seq<char>, i: int) -> Seq<Seq<char>>
    decreases s.len() - i,
    via lines_from_decreases
{
    if i < 0 || i >= s.len() {
        seq![]
    } else {
        let j = newline_from(s, i);
        if j >= s.len() {
            seq![line_at(s, i)]
        } else {
            seq![line_at(s, i)] + lines_from(s, j + 1)
        }
    }
}

#[via_fn]
proof fn lines_from_decreases(s: Seq<char>, i: int) {
    if 0 <= i < s.len() {
        lemma_newline_from_bounds(s, i);
    }
}

// ── Trimming and splitting ───────────────────────────────────────────────────────

pub open spec fn trim_start(s: Seq<char>) -> Seq<char>
    decreases s.len(),
{
    if s.len() > 0 && is_white_space_spec(s[0]) {
        trim_start(s.drop_first())
    } else {
        s
    }
}

pub open spec fn trim_end(s: Seq<char>) -> Seq<char>
    decreases s.len(),
{
    if s.len() > 0 && is_white_space_spec(s.last()) {
        trim_end(s.drop_last())
    } else {
        s
    }
}

/// `s` without leading and trailing white space, as `str::trim` gives it.
pub open spec fn trim(s: Seq<char>) -> Seq<char> {
    trim_end(trim_start(s))
}

/// First `','` at or after `i`, or the end of `s`.
pub open spec fn comma_from(s: Seq<char>, i: int) -> int
    decreases s.len() - i,
{
    if 0 <= i < s.len() && s[i] != ',' {
        comma_from(s, i + 1)
    } else {
        i
    }
}

pub proof fn lemma_comma_from_bounds(s: Seq<char>, i: int)
    requires
        0 <= i <= s.len(),
    ensures
        i <= comma_from(s, i) <= s.len(),
        comma_from(s, i) < s.len() ==> s[comma_from(s, i)] == ',',
    decreases s.len() - i,
{
    if i < s.len() && s[i] != ',' {
        lemma_comma_from_bounds(s, i + 1);
    }
}

/// Fields of `s[i..]` separated by commas, as `str::split(',')` yields them.
pub open spec fn fields_from(s: Seq<char>, i: int) -> Seq<Seq<char>>
    decreases s.len() - i,
    via fields_from_decreases
{
    if i < 0 || i > s.len() {
        seq![]
    } else {
        let j = comma_from(s, i);
        if j >= s.len() {
            seq![s.subrange(i, s.len() as int)]
        } else {
            seq![s.subrange(i, j)] + fields_from(s, j + 1)
        }
    }
}

#[via_fn]
proof fn fields_from_decreases(s: Seq<char>, i: int) {
    if 0 <= i <= s.len() {
        lemma_comma_from_bounds(s, i);
    }
}

pub open spec fn split_commas(s: Seq<char>) -> Seq<Seq<char>> {
    fields_from(s, 0)
}

// ── Rows ─────────────────────────────────────────────────────────────────────────

/// Whether `c` has the Unicode `Alphabetic` property (`char::is_alphabetic`).
pub uninterp spec fn is_alphabetic_spec(c: char) -> bool;

/// `char::is_alphabetic`.
#[verifier::external_body]
pub fn is_alphabetic(c: char) -> (b: bool)
    ensures
        b == is_alphabetic_spec(c),
{
    c.is_alphabetic()
}

/// Line `i` (0-based) holds no candle: it is blank, it is the header (a first line that
/// starts with a letter), or it has fewer than five fields.
pub open spec fn line_skipped(i: int, line: Seq<char>) -> bool {
    let t = trim(line);
    ||| t.len() == 0
    ||| (i == 0 && is_alphabetic_spec(t[0]))
    ||| split_commas(t).len() < 5
}

/// Field `k` of a candle line, trimmed.
pub open spec fn field_of(line: Seq<char>, k: int) -> Seq<char> {
    trim(split_commas(trim(line))[k])
}

/// The date of a candle line, in `YYYY-MM-DD` or else `MM/DD/YYYY` form, at midnight UTC.
pub open spec fn date_value(text: Seq<char>) -> Option<i64> {
    match naive_date_spec(text, "%Y-%m-%d"@) {
        Some(v) => Some(v),
        None => naive_date_spec(text, "%m/%d/%Y"@),
    }
}

/// One candle line: 1-based line number, date (seconds since the epoch, midnight UTC),
/// and the texts of the open, high, low and close prices.
pub struct CsvRow {
    pub line: usize,
    pub date_secs: i64,
    pub open: String,
    pub high: String,
    pub low: String,
    pub close: String,
}

pub open spec fn row_view(r: CsvRow) -> (int, i64, Seq<char>, Seq<char>, Seq<char>, Seq<char>) {
    (r.line as int, r.date_secs, r.open@, r.high@, r.low@, r.close@)
}

pub open spec fn rows_view(v: Seq<CsvRow>) -> Seq<(int, i64, Seq<char>, Seq<char>, Seq<char>, Seq<char>)> {
    v.map_values(|r: CsvRow| row_view(r))
}

/// The row that line `i` with the given date makes.
pub open spec fn row_spec(i: int, date: i64, line: Seq<char>) -> (
    int,
    i64,
    Seq<char>,
    Seq<char>,
    Seq<char>,
    Seq<char>,
) {
    (i + 1, date, field_of(line, 1), field_of(line, 2), field_of(line, 3), field_of(line, 4))
}

/// Outcome of reading the first `k` lines: the rows read, and the first line whose date
/// could not be read (1-based number, date text). Reading stops at that line.
pub open spec fn csv_scan_spec(lines: Seq<Seq<char>>, k: nat) -> (
    Seq<(int, i64, Seq<char>, Seq<char>, Seq<char>, Seq<char>)>,
    Option<(int, Seq<char>)>,
)
    decreases k,
{
    if k == 0 {
        (seq![], None)
    } else {
        let (rows, err) = csv_scan_spec(lines, (k - 1) as nat);
        let i = k - 1;
        if err is Some || k > lines.len() || line_skipped(i, lines[i]) {
            (rows, err)
        } else {
            let text = field_of(lines[i], 0);
            match date_value(text) {
                Some(d) => (rows.push(row_spec(i, d, lines[i])), None),
                None => (rows, Some((i + 1, text))),
            }
        }
    }
}

/// A line whose date could not be read: its 1-based number, the date text, and the error
/// of the last date format tried.
pub struct BadDate {
    pub line: usize,
    pub text: String,
    pub cause: chrono::format::ParseError,
}

/// The candle rows of a CSV text, in file order, up to the first line with an unreadable
/// date, which is reported in `bad_date`.
pub struct CsvScan {
    pub rows: Vec<CsvRow>,
    pub bad_date: Option<BadDate>,
}

pub open spec fn bad_date_view(b: Option<BadDate>) -> Option<(int, Seq<char>)> {
    match b {
        Some(e) => Some((e.line as int, e.text@)),
        None => None,
    }
}

// ── Executable reading ───────────────────────────────────────────────────────────

pub open spec fn vecs_view(v: Seq<Vec<char>>) -> Seq<Seq<char>> {
    v.map_values(|x: Vec<char>| x@)
}

fn copy_range(s: &[char], from: usize, to: usize) -> (v: Vec<char>)
    requires
        from <= to <= s@.len(),
    ensures
        v@ == s@.subrange(from as int, to as int),
{
    let mut v: Vec<char> = Vec::new();
    let mut k = from;
    while k < to
        invariant
            from <= k <= to <= s@.len(),
            v@ == s@.subrange(from as int, k as int),
        decreases to - k,
    {
        v.push(s[k]);
        k += 1;
    }
    v
}

/// The lines of `s`, as `str::lines` yields them.
pub fn split_lines(s: &[char]) -> (lines: Vec<Vec<char>>)
    ensures
        vecs_view(lines@) == lines_from(s@, 0),
{
    let n = s.len();
    let mut lines: Vec<Vec<char>> = Vec::new();
    let mut i: usize = 0;
    while i < n
        invariant
            n == s@.len(),
            i <= n,
            lines_from(s@, 0) == vecs_view(lines@) + lines_from(s@, i as int),
        decreases n - i,
    {
        let mut j = i;
        while j < n && s[j] != '\n'
            invariant
                n == s@.len(),
                i <= j <= n,
                newline_from(s@, i as int) == newline_from(s@, j as int),
            decreases n - j,
        {
            j += 1;
        }
        let end: usize = if j < n && j > i && s[j - 1] == '\r' {
            j - 1
        } else {
            j
        };
        let line = copy_range(s, i, end);
        proof {
            lemma_newline_from_bounds(s@, i as int);
            let raw = s@.subrange(i as int, j as int);
            if j < n && j > i && s@[j - 1] == '\r' {
                assert(raw.drop_last() == s@.subrange(i as int, end as int));
            }
            assert(line@ == line_at(s@, i as int));
            if j < n {
                assert(lines_from(s@, i as int) == seq![line@] + lines_from(s@, j + 1));
            } else {
                assert(lines_from(s@, i as int) == seq![line@]);
            }
        }
        let ghost prev = lines@;
        lines.push(line);
        assert(vecs_view(lines@) == vecs_view(prev).push(line@));
        if j >= n {
            assert(vecs_view(lines@) == vecs_view(prev) + seq![line@]);
            i = n;
        } else {
            i = j + 1;
        }
    }
    lines
}

proof fn lemma_trim_start_skip(s: Seq<char>, a: int)
    requires
        0 <= a <= s.len(),
        forall|k: int| 0 <= k < a ==> is_white_space_spec(#[trigger] s[k]),
    ensures
        trim_start(s) == trim_start(s.skip(a)),
    decreases a,
{
    if a > 0 {
        assert(is_white_space_spec(s[0]));
        assert(s.drop_first().skip(a - 1) == s.skip(a));
        assert forall|k: int| 0 <= k < a - 1 implies is_white_space_spec(
            #[trigger] s.drop_first()[k],
        ) by {
            assert(s.drop_first()[k] == s[k + 1]);
        }
        lemma_trim_start_skip(s.drop_first(), a - 1);
    } else {
        assert(s.skip(0) == s);
    }
}

proof fn lemma_trim_end_take(s: Seq<char>, b: int)
    requires
        0 <= b <= s.len(),
        forall|k: int| b <= k < s.len() ==> is_white_space_spec(#[trigger] s[k]),
    ensures
        trim_end(s) == trim_end(s.take(b)),
    decreases s.len() - b,
{
    if b < s.len() {
        assert(s.drop_last().take(b) == s.take(b));
        assert forall|k: int| b <= k < s.drop_last().len() implies is_white_space_spec(
            #[trigger] s.drop_last()[k],
        ) by {
            assert(s.drop_last()[k] == s[k]);
        }
        lemma_trim_end_take(s.drop_last(), b);
    } else {
        assert(s.take(b) == s);
    }
}

/// `s` without leading and trailing white space.
pub fn trim_chars(s: &[char]) -> (t: Vec<char>)
    ensures
        t@ == trim(s@),
{
    let n = s.len();
    let mut a: usize = 0;
    while a < n && is_white_space(s[a])
        invariant
            n == s@.len(),
            a <= n,
            forall|k: int| 0 <= k < a ==> is_white_space_spec(#[trigger] s@[k]),
        decreases n - a,
    {
        a += 1;
    }
    proof {
        lemma_trim_start_skip(s@, a as int);
    }
    let ghost u = s@.skip(a as int);
    assert(trim_start(u) == u) by {
        if u.len() > 0 {
            assert(u[0] == s@[a as int]);
        }
    }
    let mut b: usize = n;
    while b > a && is_white_space(s[b - 1])
        invariant
            n == s@.len(),
            a <= b <= n,
            u == s@.skip(a as int),
            forall|k: int| (b - a) <= k < u.len() ==> is_white_space_spec(#[trigger] u[k]),
        decreases b - a,
    {
        assert(u[b - 1 - a] == s@[b - 1]);
        b -= 1;
    }
    proof {
        lemma_trim_end_take(u, (b - a) as int);
        let w = u.take((b - a) as int);
        if w.len() > 0 {
            assert(w.last() == s@[b - 1]);
        }
        assert(trim_end(w) == w);
        assert(w == s@.subrange(a as int, b as int));
    }
    copy_range(s, a, b)
}

/// The comma-separated fields of `s`, as `str::split(',')` yields them.
pub fn split_commas_exec(s: &[char]) -> (fields: Vec<Vec<char>>)
    ensures
        vecs_view(fields@) == split_commas(s@),
        fields@.len() >= 1,
{
    let n = s.len();
    let mut fields: Vec<Vec<char>> = Vec::new();
    let mut i: usize = 0;
    loop
        invariant
            n == s@.len(),
            i <= n,
            split_commas(s@) == vecs_view(fields@) + fields_from(s@, i as int),
        decreases n - i,
    {
        let mut j = i;
        while j < n && s[j] != ','
            invariant
                n == s@.len(),
                i <= j <= n,
                comma_from(s@, i as int) == comma_from(s@, j as int),
            decreases n - j,
        {
            j += 1;
        }
        proof {
            lemma_comma_from_bounds(s@, i as int);
        }
        let field = copy_range(s, i, j);
        let ghost prev = fields@;
        fields.push(field);
        assert(vecs_view(fields@) == vecs_view(prev).push(field@));
        if j >= n {
            assert(fields_from(s@, i as int) == seq![field@]);
            assert(vecs_view(fields@) == vecs_view(prev) + seq![field@]);
            return fields;
        }
        assert(fields_from(s@, i as int) == seq![field@] + fields_from(s@, j + 1));
        i = j + 1;
    }
}

fn read_date(text: &Vec<char>) -> (r: Result<i64, chrono::format::ParseError>)
    ensures
        r is Ok <==> date_value(text@) is Some,
        r matches Ok(v) ==> date_value(text@) == Some(v),
{
    let t = string_from_chars(text.as_slice());
    match parse_naive_date(t.as_str(), "%Y-%m-%d") {
        Ok(v) => Ok(v),
        Err(_) => parse_naive_date(t.as_str(), "%m/%d/%Y"),
    }
}

/// Reads the candle rows of a CSV text with lines `date,open,high,low,close`, in file
/// order: blank lines, a header first line (one that starts with a letter) and lines of
/// fewer than five fields are passed over; the date is `YYYY-MM-DD` or `MM/DD/YYYY`; the
/// four prices are handed back as their trimmed texts. Reading stops at the first line
/// whose date cannot be read.
pub fn parse_candle_csv(content: &str) -> (r: CsvScan)
    ensures
        ({
            let lines = lines_from(content@, 0);
            (rows_view(r.rows@), bad_date_view(r.bad_date)) == csv_scan_spec(
                lines,
                lines.len(),
            )
        }),
        forall|a: int|
            0 <= a < r.rows@.len() ==> {
                let line = lines_from(content@, 0)[#[trigger] r.rows@[a].line - 1];
                &&& r.rows@[a].open@ == column(line, 1)
                &&& r.rows@[a].high@ == column(line, 2)
                &&& r.rows@[a].low@ == column(line, 3)
                &&& r.rows@[a].close@ == column(line, 4)
            },
{
    let cs = chars_of(content);
    let lines = split_lines(cs.as_slice());
    let ghost lv = lines_from(content@, 0);
    let mut rows: Vec<CsvRow> = Vec::new();
    let mut i: usize = 0;
    while i < lines.len()
        invariant
            vecs_view(lines@) == lv,
            lv == lines_from(content@, 0),
            i <= lines@.len(),
            (rows_view(rows@), None::<(int, Seq<char>)>) == csv_scan_spec(lv, i as nat),
        decreases lines@.len() - i,
    {
        assert(lines@[i as int]@ == lv[i as int]);
        let t = trim_chars(lines[i].as_slice());
        let skip_header = i == 0 && t.len() > 0 && is_alphabetic(t[0]);
        if t.len() == 0 || skip_header {
            i += 1;
            continue;
        }
        let parts = split_commas_exec(t.as_slice());
        if parts.len() < 5 {
            i += 1;
            continue;
        }
        assert(parts@[0]@ == split_commas(trim(lv[i as int]))[0]);
        let date_text = trim_chars(parts[0].as_slice());
        match read_date(&date_text) {
            Ok(date_secs) => {
                let f1 = trim_chars(parts[1].as_slice());
                let f2 = trim_chars(parts[2].as_slice());
                let f3 = trim_chars(parts[3].as_slice());
                let f4 = trim_chars(parts[4].as_slice());
                assert(parts@[1]@ == split_commas(trim(lv[i as int]))[1]);
                assert(parts@[2]@ == split_commas(trim(lv[i as int]))[2]);
                assert(parts@[3]@ == split_commas(trim(lv[i as int]))[3]);
                assert(parts@[4]@ == split_commas(trim(lv[i as int]))[4]);
                let row = CsvRow {
                    line: i + 1,
                    date_secs,
                    open: string_from_chars(f1.as_slice()),
                    high: string_from_chars(f2.as_slice()),
                    low: string_from_chars(f3.as_slice()),
                    close: string_from_chars(f4.as_slice()),
                };
                let ghost prev = rows@;
                rows.push(row);
                assert(rows_view(rows@) == rows_view(prev).push(
                    row_spec(i as int, date_secs, lv[i as int]),
                ));
            },
            Err(cause) => {
                let bad = BadDate { line: i + 1, text: string_from_chars(date_text.as_slice()), cause };
                proof {
                    let k = (i + 1) as nat;
                    assert(!line_skipped(i as int, lv[i as int]));
                    assert(field_of(lv[i as int], 0) == date_text@);
                    assert(date_value(date_text@) is None);
                    assert(csv_scan_spec(lv, i as nat) == (rows_view(rows@), None::<(int, Seq<char>)>));
                    assert(bad_date_view(Some(bad)) == Some(((i + 1) as int, date_text@)));
                    assert(csv_scan_spec(lv, k).1 == Some(((i + 1) as int, date_text@)));
                    lemma_scan_stops(lv, k, lv.len());
                    assert(rows_view(rows@) == csv_scan_spec(lv, lv.len()).0);
                    lemma_columns_of_rows(rows@, lv);
                }
                return CsvScan { rows, bad_date: Some(bad) };
            },
        }
        i += 1;
    }
    proof {
        lemma_columns_of_rows(rows@, lv);
    }
    CsvScan { rows, bad_date: None }
}

/// Once a bad date is met, reading further lines changes nothing.
proof fn lemma_scan_stops(lines: Seq<Seq<char>>, k: nat, m: nat)
    requires
        k <= m,
        csv_scan_spec(lines, k).1 is Some,
    ensures
        csv_scan_spec(lines, m) == csv_scan_spec(lines, k),
    decreases m - k,
{
    if k < m {
        lemma_scan_stops(lines, k, (m - 1) as nat);
    }
}

/// Law: rows come out in file order, one per line at most, and only from lines that hold
/// a candle (never a blank line, the header, or a line of fewer than five fields).
pub proof fn lemma_rows_in_file_order(lines: Seq<Seq<char>>, k: nat)
    requires
        k <= lines.len(),
    ensures
        ({
            let rows = csv_scan_spec(lines, k).0;
            &&& forall|a: int, b: int| 0 <= a < b < rows.len() ==> rows[a].0 < rows[b].0
            &&& forall|a: int|
                0 <= a < rows.len() ==> 1 <= rows[a].0 <= k && !line_skipped(
                    rows[a].0 - 1,
                    lines[rows[a].0 - 1],
                ) && date_value(field_of(lines[rows[a].0 - 1], 0)) == Some(rows[a].1)
        }),
    decreases k,
{
    if k > 0 {
        lemma_rows_in_file_order(lines, (k - 1) as nat);
        let p = csv_scan_spec(lines, (k - 1) as nat).0;
        let q = csv_scan_spec(lines, k).0;
        if q.len() > p.len() {
            assert(q == p.push(q.last()));
            assert forall|a: int| 0 <= a < q.len() implies 1 <= q[a].0 <= k && !line_skipped(
                q[a].0 - 1,
                lines[q[a].0 - 1],
            ) && date_value(field_of(lines[q[a].0 - 1], 0)) == Some(q[a].1) by {
                if a < p.len() {
                    assert(q[a] == p[a]);
                }
            }
            assert forall|a: int, b: int| 0 <= a < b < q.len() implies q[a].0 < q[b].0 by {
                if b < p.len() {
                    assert(q[a] == p[a] && q[b] == p[b]);
                } else {
                    assert(q[a] == p[a]);
                }
            }
        } else {
            assert(q == p);
        }
    }
}

/// The `k`-th comma-separated field of a line, trimmed, as the columns
/// `date,open,high,low,close` are read.
pub open spec fn column(line: Seq<char>, k: int) -> Seq<char> {
    trim(split_commas(trim(line))[k])
}

/// Law: each row holds the columns of its own line in the order of the header
/// `date,open,high,low,close`: open is the second field, high the third, low the fourth and
/// close the fifth, each trimmed.
pub proof fn lemma_rows_hold_their_columns(lines: Seq<Seq<char>>, k: nat)
    requires
        k <= lines.len(),
    ensures
        ({
            let rows = csv_scan_spec(lines, k).0;
            forall|a: int|
                0 <= a < rows.len() ==> {
                    let line = lines[rows[a].0 - 1];
                    &&& 1 <= #[trigger] rows[a].0 <= k
                    &&& rows[a].2 == column(line, 1)
                    &&& rows[a].3 == column(line, 2)
                    &&& rows[a].4 == column(line, 3)
                    &&& rows[a].5 == column(line, 4)
                }
        }),
    decreases k,
{
    if k > 0 {
        lemma_rows_hold_their_columns(lines, (k - 1) as nat);
        let p = csv_scan_spec(lines, (k - 1) as nat).0;
        let q = csv_scan_spec(lines, k).0;
        if q.len() > p.len() {
            assert(q == p.push(q.last()));
            assert forall|a: int| 0 <= a < q.len() implies {
                let line = lines[q[a].0 - 1];
                &&& 1 <= #[trigger] q[a].0 <= k
                &&& q[a].2 == column(line, 1)
                &&& q[a].3 == column(line, 2)
                &&& q[a].4 == column(line, 3)
                &&& q[a].5 == column(line, 4)
            } by {
                if a < p.len() {
                    assert(q[a] == p[a]);
                }
            }
        } else {
            assert(q == p);
        }
    }
}

proof fn lemma_columns_of_rows(rows: Seq<CsvRow>, lines: Seq<Seq<char>>)
    requires
        rows_view(rows) == csv_scan_spec(lines, lines.len()).0,
    ensures
        forall|a: int|
            0 <= a < rows.len() ==> {
                let line = lines[#[trigger] rows[a].line - 1];
                &&& rows[a].open@ == column(line, 1)
                &&& rows[a].high@ == column(line, 2)
                &&& rows[a].low@ == column(line, 3)
                &&& rows[a].close@ == column(line, 4)
            },
{
    lemma_rows_hold_their_columns(lines, lines.len());
    let v = rows_view(rows);
    assert forall|a: int| 0 <= a < rows.len() implies {
        let line = lines[#[trigger] rows[a].line - 1];
        &&& rows[a].open@ == column(line, 1)
        &&& rows[a].high@ == column(line, 2)
        &&& rows[a].low@ == column(line, 3)
        &&& rows[a].close@ == column(line, 4)
    } by {
        assert(v[a] == row_view(rows[a]));
        assert(1 <= v[a].0 <= lines.len());
    }
}

} // verus!
