//! Line coverage: `DA:` records of an lcov report, the totals of a
//! crate's per-line counts, and the merge of two reports of one crate.

use vstd::prelude::*;

use crate::case::{chars_of, str_eq, string_from_chars};

verus! {

// ---------------------------------------------------------------------------
// Decimal numbers
// ---------------------------------------------------------------------------

/// Whether a character is an ASCII decimal digit.
pub open spec fn is_digit(c: char) -> bool {
    '0' <= c <= '9'
}

/// The value of a run of decimal digits.
pub open spec fn digits_value(d: Seq<char>) -> int
    decreases d.len(),
{
    if d.len() == 0 {
        0
    } else {
        digits_value(d.drop_last()) * 10 + (d.last() as int - '0' as int)
    }
}

/// What the standard library's `FromStr` for an unsigned integer type with
/// the given maximum makes of a string: an optional `+`, then one or more
/// ASCII digits whose value does not exceed the maximum.
pub open spec fn parse_unsigned(s: Seq<char>, max: int) -> Option<int> {
    let d = unsigned_digits(s);
    if d.len() > 0 && all_digits(d) && digits_value(d) <= max {
        Some(digits_value(d))
    } else {
        None
    }
}

/// A string without its leading `+`, if it has one.
pub open spec fn unsigned_digits(s: Seq<char>) -> Seq<char> {
    if s.len() > 0 && s[0] == '+' {
        s.drop_first()
    } else {
        s
    }
}

/// Whether every character is an ASCII decimal digit.
pub open spec fn all_digits(d: Seq<char>) -> bool {
    forall|i: int| 0 <= i < d.len() ==> is_digit(#[trigger] d[i])
}

/// A longer run of digits has at least the value of its prefix.
proof fn lemma_digits_value_grows(d: Seq<char>, k: int)
    requires
        0 <= k <= d.len(),
        forall|i: int| 0 <= i < d.len() ==> is_digit(#[trigger] d[i]),
    ensures
        digits_value(d.take(k)) <= digits_value(d),
        digits_value(d) >= 0,
    decreases d.len(),
{
    if d.len() == 0 {
        assert(d.take(k) =~= d);
    } else {
        let dl = d.drop_last();
        assert forall|i: int| 0 <= i < dl.len() implies is_digit(#[trigger] dl[i]) by {
            assert(dl[i] == d[i]);
        }
        lemma_digits_value_grows(dl, 0);
        assert(is_digit(d[d.len() - 1]));
        if k == d.len() {
            assert(d.take(k) =~= d);
        } else {
            lemma_digits_value_grows(dl, k);
            assert(dl.take(k) =~= d.take(k));
        }
    }
}

/// Parses characters `from..` of `cs` as an unsigned number no greater than
/// `max`, as the standard library's `FromStr` does.
fn parse_unsigned_chars(cs: &Vec<char>, from: usize, max: u64) -> (r: Option<u64>)
    requires
        from <= cs@.len(),
    ensures
        r is Some <==> parse_unsigned(cs@.skip(from as int), max as int) is Some,
        r is Some ==> r->0 == parse_unsigned(cs@.skip(from as int), max as int)->0,
{
    let ghost s = cs@.skip(from as int);
    let mut i = from;
    if i < cs.len() && cs[i] == '+' {
        i = i + 1;
    }
    let ghost d = cs@.skip(i as int);
    assert(d =~= unsigned_digits(s));
    if i == cs.len() {
        return None;
    }
    let start = i;
    let mut v: u64 = 0;
    let mut overflow = false;
    assert(d.take(0) =~= Seq::<char>::empty());
    while i < cs.len()
        invariant
            from <= start <= i <= cs@.len(),
            s == cs@.skip(from as int),
            d == cs@.skip(start as int),
            d == unsigned_digits(s),
            d.len() > 0,
            forall|j: int| 0 <= j < i - start ==> is_digit(#[trigger] d[j]),
            !overflow ==> v == digits_value(d.take(i - start)) && v <= max,
            overflow ==> digits_value(d.take(i - start)) > max,
        decreases cs@.len() - i,
    {
        let c = cs[i];
        if !('0' <= c && c <= '9') {
            assert(!is_digit(d[i - start]));
            assert(!all_digits(d));
            return None;
        }
        let digit = (c as u32 - '0' as u32) as u64;
        let ghost prev = d.take(i - start);
        assert(d.take(i - start + 1).drop_last() =~= prev);
        assert(d.take(i - start + 1).last() == c);
        proof {
            assert forall|j: int| 0 <= j < prev.len() implies is_digit(#[trigger] prev[j]) by {
                assert(prev[j] == d[j]);
            }
            lemma_digits_value_grows(prev, 0);
        }
        if !overflow {
            if max < digit || v > (max - digit) / 10 {
                overflow = true;
                assert(digits_value(d.take(i - start + 1)) > max) by (nonlinear_arith)
                    requires
                        digits_value(d.take(i - start + 1)) == v * 10 + digit,
                        max < digit || v > (max - digit) / 10,
                        digit <= 9,
                        v >= 0,
                ;
            } else {
                assert(v * 10 + digit <= max) by (nonlinear_arith)
                    requires
                        v <= (max - digit) / 10,
                        max >= digit,
                ;
                v = v * 10 + digit;
            }
        } else {
            assert(digits_value(d.take(i - start + 1)) > max) by (nonlinear_arith)
                requires
                    digits_value(d.take(i - start + 1)) == digits_value(prev) * 10 + digit,
                    digits_value(prev) > max,
                    digit >= 0,
                    max >= 0,
            ;
        }
        i = i + 1;
    }
    assert(d.take(i - start) =~= d);
    if overflow {
        None
    } else {
        Some(v)
    }
}

// ---------------------------------------------------------------------------
// `DA:` records
// ---------------------------------------------------------------------------

/// The position of the first comma in a string, if it has one.
pub open spec fn first_comma(s: Seq<char>) -> Option<int> {
    if exists|k: int| 0 <= k < s.len() && s[k] == ',' {
        Some(choose|k: int| 0 <= k < s.len() && s[k] == ',' && forall|j: int| 0 <= j < k ==> s[j] != ',')
    } else {
        None
    }
}

/// A `DA:` record's payload `line,count`: the line number (a `u32`) before
/// the first comma and the execution count (a `u64`) after it.
pub open spec fn spec_parse_da(s: Seq<char>) -> Option<(u32, u64)> {
    match first_comma(s) {
        None => None,
        Some(k) => match (
            parse_unsigned(s.take(k), u32::MAX as int),
            parse_unsigned(s.skip(k + 1), u64::MAX as int),
        ) {
            (Some(line), Some(count)) => Some((line as u32, count as u64)),
            _ => None,
        },
    }
}

/// Parses the `line,count` payload of a `DA:` record.
pub fn parse_da(da: &str) -> (r: Option<(u32, u64)>)
    ensures
        r == spec_parse_da(da@),
{
    let cs = chars_of(da);
    let mut k: usize = 0;
    while k < cs.len() && cs[k] != ','
        invariant
            k <= cs@.len(),
            cs@ == da@,
            forall|j: int| 0 <= j < k ==> cs@[j] != ',',
        decreases cs@.len() - k,
    {
        k = k + 1;
    }
    if k == cs.len() {
        return None;
    }
    proof {
        assert(0 <= k < da@.len() && da@[k as int] == ',' && forall|j: int|
            0 <= j < k ==> da@[j] != ',');
        let w = choose|m: int|
            0 <= m < da@.len() && da@[m] == ',' && forall|j: int| 0 <= j < m ==> da@[j] != ',';
        assert(0 <= w < da@.len() && da@[w] == ',' && forall|j: int| 0 <= j < w ==> da@[j] != ',');
        if w < k {
            assert(cs@[w] != ',');
        }
        if w > k {
            assert(da@[k as int] != ',');
        }
        assert(first_comma(da@) == Some(k as int));
    }
    let mut line_chars = cs.clone();
    line_chars.truncate(k);
    assert(line_chars@ =~= da@.take(k as int));
    assert(line_chars@.skip(0) =~= line_chars@);
    let line = parse_unsigned_chars(&line_chars, 0, 4294967295u64);
    assert(cs@.skip(k + 1) =~= da@.skip(k + 1));
    let count = parse_unsigned_chars(&cs, k + 1, 18446744073709551615u64);
    match (line, count) {
        (Some(l), Some(c)) => {
            Some((l as u32, c))
        },
        _ => None,
    }
}

// ---------------------------------------------------------------------------
// Totals
// ---------------------------------------------------------------------------

/// The number of lines with a positive count.
pub open spec fn covered_in(lines: Seq<u64>) -> int
    decreases lines.len(),
{
    if lines.len() == 0 {
        0
    } else {
        covered_in(lines.drop_last()) + if lines.last() > 0 {
            1int
        } else {
            0int
        }
    }
}

/// The number of covered lines of all files.
pub open spec fn covered_total(files: Seq<Seq<u64>>) -> int
    decreases files.len(),
{
    if files.len() == 0 {
        0
    } else {
        covered_total(files.drop_last()) + covered_in(files.last())
    }
}

/// The number of coverable lines of all files.
pub open spec fn lines_total(files: Seq<Seq<u64>>) -> int
    decreases files.len(),
{
    if files.len() == 0 {
        0
    } else {
        lines_total(files.drop_last()) + files.last().len()
    }
}

/// The per-line counts of each file.
pub open spec fn files_view(files: Seq<Vec<u64>>) -> Seq<Seq<u64>> {
    Seq::new(files.len(), |i: int| files[i]@)
}

proof fn lemma_covered_in_bound(lines: Seq<u64>)
    ensures
        0 <= covered_in(lines) <= lines.len(),
    decreases lines.len(),
{
    if lines.len() > 0 {
        lemma_covered_in_bound(lines.drop_last());
    }
}

proof fn lemma_totals_bound(files: Seq<Seq<u64>>)
    ensures
        0 <= covered_total(files) <= lines_total(files),
    decreases files.len(),
{
    if files.len() > 0 {
        lemma_totals_bound(files.drop_last());
        lemma_covered_in_bound(files.last());
    }
}

proof fn lemma_lines_total_grows(files: Seq<Seq<u64>>, k: int)
    requires
        0 <= k <= files.len(),
    ensures
        lines_total(files.take(k)) <= lines_total(files),
    decreases files.len(),
{
    if k < files.len() {
        lemma_lines_total_grows(files.drop_last(), k);
        assert(files.drop_last().take(k) =~= files.take(k));
    } else {
        assert(files.take(k) =~= files);
    }
}

/// Counts the covered lines (count above zero) and all coverable lines of
/// a crate, given the per-line counts of each of its files: `(covered,
/// total)`.
pub fn aggregate_lines(files: &Vec<Vec<u64>>) -> (r: (u64, u64))
    requires
        lines_total(files_view(files@)) <= u64::MAX,
    ensures
        r.0 == covered_total(files_view(files@)),
        r.1 == lines_total(files_view(files@)),
{
    let ghost fv = files_view(files@);
    let mut covered: u64 = 0;
    let mut total: u64 = 0;
    let mut i: usize = 0;
    assert(fv.take(0) =~= Seq::<Seq<u64>>::empty());
    while i < files.len()
        invariant
            i <= files@.len(),
            fv == files_view(files@),
            lines_total(fv) <= u64::MAX,
            covered == covered_total(fv.take(i as int)),
            total == lines_total(fv.take(i as int)),
        decreases files@.len() - i,
    {
        let lines = &files[i];
        assert(fv[i as int] == lines@);
        let ghost base_total = total;
        let ghost base_covered = covered;
        let mut j: usize = 0;
        assert(lines@.take(0) =~= Seq::<u64>::empty());
        proof {
            lemma_lines_total_grows(fv, i + 1);
            assert(fv.take(i + 1).drop_last() =~= fv.take(i as int));
            assert(fv.take(i + 1).last() == lines@);
            lemma_totals_bound(fv.take(i as int));
        }
        while j < lines.len()
            invariant
                j <= lines@.len(),
                total == base_total + j,
                covered == base_covered + covered_in(lines@.take(j as int)),
                base_covered <= base_total,
                base_total + lines@.len() <= u64::MAX,
            decreases lines@.len() - j,
        {
            proof {
                assert(lines@.take(j + 1).drop_last() =~= lines@.take(j as int));
                lemma_covered_in_bound(lines@.take(j as int));
            }
            total = total + 1;
            if lines[j] > 0 {
                covered = covered + 1;
            }
            j = j + 1;
        }
        assert(lines@.take(lines@.len() as int) =~= lines@);
        i = i + 1;
    }
    assert(fv.take(files@.len() as int) =~= fv);
    (covered, total)
}

// ---------------------------------------------------------------------------
// Merging
// ---------------------------------------------------------------------------

/// The coverage of one source file: its coverable lines, each with its
/// execution count. A crate's report is a list of these, each file listed
/// once and each line once in its file (see [`files_wf`]); it stands for
/// the map from file name to line counts that [`file_map`] gives.
#[derive(Clone, Debug, PartialEq, Eq)]
pub struct FileCoverage {
    pub file: String,
    pub lines: Vec<(u32, u64)>,
}

/// The count of each line.
pub open spec fn line_map(ls: Seq<(u32, u64)>) -> Map<u32, u64>
    decreases ls.len(),
{
    if ls.len() == 0 {
        Map::empty()
    } else {
        line_map(ls.drop_last()).insert(ls.last().0, ls.last().1)
    }
}

/// No line is listed twice.
pub open spec fn distinct_lines(ls: Seq<(u32, u64)>) -> bool {
    forall|i: int, j: int| 0 <= i < j < ls.len() ==> #[trigger] ls[i].0 != #[trigger] ls[j].0
}

/// The line counts of each file.
pub open spec fn file_map(fs: Seq<FileCoverage>) -> Map<Seq<char>, Map<u32, u64>>
    decreases fs.len(),
{
    if fs.len() == 0 {
        Map::empty()
    } else {
        file_map(fs.drop_last()).insert(fs.last().file@, line_map(fs.last().lines@))
    }
}

/// A report of a crate: no file is listed twice, and no line twice in a
/// file.
pub open spec fn files_wf(fs: Seq<FileCoverage>) -> bool {
    &&& forall|i: int, j: int| 0 <= i < j < fs.len() ==> #[trigger] fs[i].file@ != #[trigger] fs[j].file@
    &&& forall|i: int| 0 <= i < fs.len() ==> distinct_lines(#[trigger] fs[i].lines@)
}

/// The counts of a file in two reports merged: every line of either, with
/// the larger count where both have it.
pub open spec fn merge_counts(a: Map<u32, u64>, b: Map<u32, u64>) -> Map<u32, u64> {
    Map::new(
        |l: u32| a.contains_key(l) || b.contains_key(l),
        |l: u32|
            if a.contains_key(l) && b.contains_key(l) {
                if a[l] >= b[l] {
                    a[l]
                } else {
                    b[l]
                }
            } else if a.contains_key(l) {
                a[l]
            } else {
                b[l]
            },
    )
}

/// The counts of a file in a report, none when the report lacks it.
pub open spec fn lines_of(m: Map<Seq<char>, Map<u32, u64>>, f: Seq<char>) -> Map<u32, u64> {
    if m.contains_key(f) {
        m[f]
    } else {
        Map::empty()
    }
}

/// Two reports merged: every file of either, its counts merged.
pub open spec fn merge_files(
    a: Map<Seq<char>, Map<u32, u64>>,
    b: Map<Seq<char>, Map<u32, u64>>,
) -> Map<Seq<char>, Map<u32, u64>> {
    Map::new(
        |f: Seq<char>| a.contains_key(f) || b.contains_key(f),
        |f: Seq<char>| merge_counts(lines_of(a, f), lines_of(b, f)),
    )
}

/// A line is counted exactly when it is listed, with the count it is
/// listed with.
proof fn lemma_line_map(ls: Seq<(u32, u64)>)
    requires
        distinct_lines(ls),
    ensures
        forall|l: u32| #[trigger] line_map(ls).contains_key(l) <==> exists|j: int| 0 <= j < ls.len() && ls[j].0 == l,
        forall|j: int| 0 <= j < ls.len() ==> line_map(ls).contains_key(#[trigger] ls[j].0) && line_map(ls)[ls[j].0] == ls[j].1,
    decreases ls.len(),
{
    if ls.len() > 0 {
        let init = ls.drop_last();
        assert(distinct_lines(init)) by {
            assert forall|i: int, j: int| 0 <= i < j < init.len() implies #[trigger] init[i].0 != #[trigger] init[j].0 by {
                assert(init[i] == ls[i] && init[j] == ls[j]);
            }
        }
        lemma_line_map(init);
        let n = ls.len() - 1;
        assert forall|l: u32| #[trigger] line_map(ls).contains_key(l) <==> exists|j: int| 0 <= j < ls.len() && ls[j].0 == l by {
            if line_map(ls).contains_key(l) {
                if l == ls[n].0 {
                    assert(ls[n].0 == l);
                } else {
                    assert(line_map(init).contains_key(l));
                    let j = choose|j: int| 0 <= j < init.len() && init[j].0 == l;
                    assert(ls[j] == init[j]);
                }
            }
            if exists|j: int| 0 <= j < ls.len() && ls[j].0 == l {
                let j = choose|j: int| 0 <= j < ls.len() && ls[j].0 == l;
                if j < n {
                    assert(init[j] == ls[j]);
                }
            }
        }
        assert forall|j: int| 0 <= j < ls.len() implies line_map(ls).contains_key(#[trigger] ls[j].0) && line_map(ls)[ls[j].0] == ls[j].1 by {
            if j < n {
                assert(init[j] == ls[j]);
                assert(ls[j].0 != ls[n].0);
            }
        }
    }
}

/// Setting the count of a listed line sets it in the map.
proof fn lemma_line_map_update(ls: Seq<(u32, u64)>, j: int, v: u64)
    requires
        distinct_lines(ls),
        0 <= j < ls.len(),
    ensures
        line_map(ls.update(j, (ls[j].0, v))) == line_map(ls).insert(ls[j].0, v),
        distinct_lines(ls.update(j, (ls[j].0, v))),
    decreases ls.len(),
{
    let u = ls.update(j, (ls[j].0, v));
    assert forall|a: int, b: int| 0 <= a < b < u.len() implies #[trigger] u[a].0 != #[trigger] u[b].0 by {
        assert(u[a].0 == ls[a].0 && u[b].0 == ls[b].0);
    }
    let n = ls.len() - 1;
    let init = ls.drop_last();
    assert(distinct_lines(init)) by {
        assert forall|a: int, b: int| 0 <= a < b < init.len() implies #[trigger] init[a].0 != #[trigger] init[b].0 by {
            assert(init[a] == ls[a] && init[b] == ls[b]);
        }
    }
    if j == n {
        assert(u.drop_last() =~= init);
        assert(line_map(u) =~= line_map(ls).insert(ls[j].0, v));
    } else {
        lemma_line_map_update(init, j, v);
        assert(u.drop_last() =~= init.update(j, (init[j].0, v)));
        assert(ls[j].0 != ls[n].0);
        assert(line_map(u) =~= line_map(ls).insert(ls[j].0, v));
    }
}

/// A file is reported exactly when it is listed, with the counts it is
/// listed with.
proof fn lemma_file_map(fs: Seq<FileCoverage>)
    requires
        files_wf(fs),
    ensures
        forall|f: Seq<char>| #[trigger] file_map(fs).contains_key(f) <==> exists|j: int| 0 <= j < fs.len() && fs[j].file@ == f,
        forall|j: int| 0 <= j < fs.len() ==> file_map(fs).contains_key(#[trigger] fs[j].file@) && file_map(fs)[fs[j].file@] == line_map(fs[j].lines@),
    decreases fs.len(),
{
    if fs.len() > 0 {
        let init = fs.drop_last();
        assert(files_wf(init)) by {
            assert forall|i: int, j: int| 0 <= i < j < init.len() implies #[trigger] init[i].file@ != #[trigger] init[j].file@ by {
                assert(init[i] == fs[i] && init[j] == fs[j]);
            }
            assert forall|i: int| 0 <= i < init.len() implies distinct_lines(#[trigger] init[i].lines@) by {
                assert(init[i] == fs[i]);
            }
        }
        lemma_file_map(init);
        let n = fs.len() - 1;
        assert forall|f: Seq<char>| #[trigger] file_map(fs).contains_key(f) <==> exists|j: int| 0 <= j < fs.len() && fs[j].file@ == f by {
            if file_map(fs).contains_key(f) {
                if f == fs[n].file@ {
                    assert(fs[n].file@ == f);
                } else {
                    assert(file_map(init).contains_key(f));
                    let j = choose|j: int| 0 <= j < init.len() && init[j].file@ == f;
                    assert(fs[j] == init[j]);
                }
            }
            if exists|j: int| 0 <= j < fs.len() && fs[j].file@ == f {
                let j = choose|j: int| 0 <= j < fs.len() && fs[j].file@ == f;
                if j < n {
                    assert(init[j] == fs[j]);
                }
            }
        }
        assert forall|j: int| 0 <= j < fs.len() implies file_map(fs).contains_key(#[trigger] fs[j].file@) && file_map(fs)[fs[j].file@] == line_map(fs[j].lines@) by {
            if j < n {
                assert(init[j] == fs[j]);
                assert(fs[j].file@ != fs[n].file@);
            }
        }
    }
}

/// Replacing a listed file's counts replaces them in the map.
proof fn lemma_file_map_update(fs: Seq<FileCoverage>, j: int, x: FileCoverage)
    requires
        files_wf(fs),
        0 <= j < fs.len(),
        x.file@ == fs[j].file@,
        distinct_lines(x.lines@),
    ensures
        file_map(fs.update(j, x)) == file_map(fs).insert(x.file@, line_map(x.lines@)),
        files_wf(fs.update(j, x)),
    decreases fs.len(),
{
    let u = fs.update(j, x);
    assert forall|a: int, b: int| 0 <= a < b < u.len() implies #[trigger] u[a].file@ != #[trigger] u[b].file@ by {
        assert(u[a].file@ == fs[a].file@ && u[b].file@ == fs[b].file@);
    }
    assert forall|a: int| 0 <= a < u.len() implies distinct_lines(#[trigger] u[a].lines@) by {
        if a != j {
            assert(u[a] == fs[a]);
        }
    }
    let n = fs.len() - 1;
    let init = fs.drop_last();
    assert(files_wf(init)) by {
        assert forall|a: int, b: int| 0 <= a < b < init.len() implies #[trigger] init[a].file@ != #[trigger] init[b].file@ by {
            assert(init[a] == fs[a] && init[b] == fs[b]);
        }
        assert forall|a: int| 0 <= a < init.len() implies distinct_lines(#[trigger] init[a].lines@) by {
            assert(init[a] == fs[a]);
        }
    }
    if j == n {
        assert(u.drop_last() =~= init);
        assert(file_map(u) =~= file_map(fs).insert(x.file@, line_map(x.lines@)));
    } else {
        lemma_file_map_update(init, j, x);
        assert(u.drop_last() =~= init.update(j, x));
        assert(fs[j].file@ != fs[n].file@);
        assert(file_map(u) =~= file_map(fs).insert(x.file@, line_map(x.lines@)));
    }
}

/// The index of a line in a file's list, if it is listed.
fn find_line(ls: &Vec<(u32, u64)>, l: u32) -> (r: Option<usize>)
    ensures
        match r {
            Some(j) => j < ls@.len() && ls@[j as int].0 == l,
            None => forall|j: int| 0 <= j < ls@.len() ==> ls@[j].0 != l,
        },
{
    let mut i: usize = 0;
    while i < ls.len()
        invariant
            i <= ls@.len(),
            forall|j: int| 0 <= j < i ==> ls@[j].0 != l,
        decreases ls@.len() - i,
    {
        if ls[i].0 == l {
            return Some(i);
        }
        i = i + 1;
    }
    None
}

/// The index of a file in a report, if it is listed.
fn find_file(fs: &Vec<FileCoverage>, f: &str) -> (r: Option<usize>)
    ensures
        match r {
            Some(j) => j < fs@.len() && fs@[j as int].file@ == f@,
            None => forall|j: int| 0 <= j < fs@.len() ==> fs@[j].file@ != f@,
        },
{
    let mut i: usize = 0;
    while i < fs.len()
        invariant
            i <= fs@.len(),
            forall|j: int| 0 <= j < i ==> fs@[j].file@ != f@,
        decreases fs@.len() - i,
    {
        if str_eq(fs[i].file.as_str(), f) {
            return Some(i);
        }
        i = i + 1;
    }
    None
}

/// A copy of a file's lines.
fn copy_lines(ls: &Vec<(u32, u64)>) -> (r: Vec<(u32, u64)>)
    ensures
        r@ == ls@,
{
    let mut out: Vec<(u32, u64)> = Vec::new();
    let mut i: usize = 0;
    while i < ls.len()
        invariant
            i <= ls@.len(),
            out@ == ls@.take(i as int),
        decreases ls@.len() - i,
    {
        out.push(ls[i]);
        assert(out@ =~= ls@.take(i + 1));
        i = i + 1;
    }
    assert(ls@.take(ls@.len() as int) =~= ls@);
    out
}

/// A file's lines with the lines of its report in another target merged
/// in: a line in both gets the larger count, a line in one is taken as is.
fn merge_lines(start: Vec<(u32, u64)>, b: &Vec<(u32, u64)>) -> (r: Vec<(u32, u64)>)
    requires
        distinct_lines(start@),
        distinct_lines(b@),
    ensures
        distinct_lines(r@),
        line_map(r@) == merge_counts(line_map(start@), line_map(b@)),
{
    let ghost a = line_map(start@);
    let mut e = start;
    let mut k: usize = 0;
    proof {
        assert(b@.take(0) =~= Seq::<(u32, u64)>::empty());
        assert(line_map(e@) =~= merge_counts(a, line_map(b@.take(0))));
    }
    while k < b.len()
        invariant
            k <= b@.len(),
            distinct_lines(b@),
            distinct_lines(e@),
            line_map(e@) == merge_counts(a, line_map(b@.take(k as int))),
        decreases b@.len() - k,
    {
        let (l, c) = b[k];
        let ghost m = line_map(b@.take(k as int));
        proof {
            let bt = b@.take(k as int);
            assert(distinct_lines(bt)) by {
                assert forall|i: int, j: int| 0 <= i < j < bt.len() implies #[trigger] bt[i].0 != #[trigger] bt[j].0 by {
                    assert(bt[i] == b@[i] && bt[j] == b@[j]);
                }
            }
            lemma_line_map(bt);
            if m.contains_key(l) {
                let j = choose|j: int| 0 <= j < bt.len() && bt[j].0 == l;
                assert(bt[j] == b@[j]);
                assert(b@[j].0 != b@[k as int].0);
            }
            assert(b@.take(k + 1).drop_last() =~= bt);
            assert(b@.take(k + 1).last() == (l, c));
            lemma_line_map(e@);
        }
        match find_line(&e, l) {
            Some(j) => {
                let old_c = e[j].1;
                let v = if old_c >= c { old_c } else { c };
                proof {
                    lemma_line_map_update(e@, j as int, v);
                }
                e.set(j, (l, v));
                proof {
                    assert(line_map(e@) =~= merge_counts(a, m.insert(l, c)));
                }
            },
            None => {
                let ghost before = e@;
                proof {
                    if line_map(before).contains_key(l) {
                        let j = choose|j: int| 0 <= j < before.len() && before[j].0 == l;
                        assert(before[j].0 != l);
                    }
                    assert(!a.contains_key(l));
                }
                e.push((l, c));
                proof {
                    assert(e@.drop_last() =~= before);
                    assert(e@.last() == (l, c));
                    assert(line_map(e@) == line_map(before).insert(l, c));
                    assert forall|i: int, j: int| 0 <= i < j < e@.len() implies #[trigger] e@[i].0 != #[trigger] e@[j].0 by {
                        if j < before.len() {
                            assert(e@[i] == before[i] && e@[j] == before[j]);
                        } else {
                            assert(e@[i] == before[i]);
                        }
                    }
                    assert(line_map(e@) =~= merge_counts(a, m.insert(l, c)));
                }
            },
        }
        k = k + 1;
    }
    assert(b@.take(b@.len() as int) =~= b@);
    e
}

/// Merges the coverage of one crate under two targets (native and
/// `wasm32`). For each source file, a line in both reports gets the larger
/// count (it is covered if either target covered it); a line or a file in
/// one report only is taken as is.
pub fn merge_coverage(a: Vec<FileCoverage>, b: &Vec<FileCoverage>) -> (r: Vec<FileCoverage>)
    requires
        files_wf(a@),
        files_wf(b@),
    ensures
        files_wf(r@),
        file_map(r@) == merge_files(file_map(a@), file_map(b@)),
{
    let ghost fa = file_map(a@);
    let mut merged = a;
    let mut i: usize = 0;
    proof {
        assert(b@.take(0) =~= Seq::<FileCoverage>::empty());
        assert forall|f: Seq<char>| #[trigger] fa.contains_key(f) implies merge_counts(lines_of(fa, f), Map::empty()) == fa[f] by {
            assert(merge_counts(lines_of(fa, f), Map::empty()) =~= fa[f]);
        }
        assert(file_map(merged@) =~= merge_files(fa, file_map(b@.take(0))));
    }
    while i < b.len()
        invariant
            i <= b@.len(),
            files_wf(b@),
            files_wf(merged@),
            file_map(merged@) == merge_files(fa, file_map(b@.take(i as int))),
        decreases b@.len() - i,
    {
        let bf = &b[i];
        let ghost fb = file_map(b@.take(i as int));
        let ghost f = bf.file@;
        proof {
            let bt = b@.take(i as int);
            assert(files_wf(bt)) by {
                assert forall|x: int, y: int| 0 <= x < y < bt.len() implies #[trigger] bt[x].file@ != #[trigger] bt[y].file@ by {
                    assert(bt[x] == b@[x] && bt[y] == b@[y]);
                }
                assert forall|x: int| 0 <= x < bt.len() implies distinct_lines(#[trigger] bt[x].lines@) by {
                    assert(bt[x] == b@[x]);
                }
            }
            lemma_file_map(bt);
            if fb.contains_key(f) {
                let j = choose|j: int| 0 <= j < bt.len() && bt[j].file@ == f;
                assert(bt[j] == b@[j]);
                assert(b@[j].file@ != b@[i as int].file@);
            }
            assert(b@.take(i + 1).drop_last() =~= bt);
            assert(b@.take(i + 1).last() == *bf);
            assert(distinct_lines(b@[i as int].lines@));
            lemma_file_map(merged@);
        }
        match find_file(&merged, bf.file.as_str()) {
            Some(fi) => {
                let start = copy_lines(&merged[fi].lines);
                proof {
                    assert(distinct_lines(merged@[fi as int].lines@));
                    assert(line_map(start@) == lines_of(fa, f)) by {
                        assert(merge_counts(lines_of(fa, f), lines_of(fb, f)) =~= lines_of(fa, f));
                    }
                }
                let lines = merge_lines(start, &bf.lines);
                let x = FileCoverage { file: bf.file.clone(), lines };
                proof {
                    lemma_file_map_update(merged@, fi as int, x);
                }
                merged.set(fi, x);
                proof {
                    assert(file_map(merged@) =~= merge_files(fa, fb.insert(f, line_map(bf.lines@))));
                }
            },
            None => {
                let lines = merge_lines(Vec::new(), &bf.lines);
                proof {
                    assert(line_map(Seq::<(u32, u64)>::empty()) == lines_of(fa, f)) by {
                        assert(!file_map(merged@).contains_key(f));
                        assert(lines_of(fa, f) =~= Map::<u32, u64>::empty());
                    }
                }
                let x = FileCoverage { file: bf.file.clone(), lines };
                let ghost before = merged@;
                merged.push(x);
                proof {
                    assert(merged@.drop_last() =~= before);
                    assert forall|p: int, q: int| 0 <= p < q < merged@.len() implies #[trigger] merged@[p].file@ != #[trigger] merged@[q].file@ by {
                        assert(merged@[p] == before[p]);
                        if q < before.len() {
                            assert(merged@[q] == before[q]);
                        }
                    }
                    assert forall|p: int| 0 <= p < merged@.len() implies distinct_lines(#[trigger] merged@[p].lines@) by {
                        if p < before.len() {
                            assert(merged@[p] == before[p]);
                        }
                    }
                    assert(file_map(merged@) =~= merge_files(fa, fb.insert(f, line_map(bf.lines@))));
                }
            },
        }
        i = i + 1;
    }
    assert(b@.take(b@.len() as int) =~= b@);
    merged
}

/// A merged line is covered exactly when either report covered it.
pub proof fn lemma_covered_by_either(a: Map<u32, u64>, b: Map<u32, u64>, l: u32)
    requires
        a.contains_key(l) || b.contains_key(l),
    ensures
        merge_counts(a, b).contains_key(l),
        merge_counts(a, b)[l] > 0 <==> (a.contains_key(l) && a[l] > 0) || (b.contains_key(l) && b[l]
            > 0),
{
}

/// Merging does not depend on which report comes first.
pub proof fn lemma_merge_symmetric(a: Map<Seq<char>, Map<u32, u64>>, b: Map<Seq<char>, Map<u32, u64>>)
    ensures
        merge_files(a, b) == merge_files(b, a),
{
    assert forall|f: Seq<char>| #[trigger] merge_files(a, b).contains_key(f) implies merge_files(a, b)[f]
        == merge_files(b, a)[f] by {
        assert(merge_counts(lines_of(a, f), lines_of(b, f)) =~= merge_counts(lines_of(b, f), lines_of(a, f)));
    }
    assert(merge_files(a, b) =~= merge_files(b, a));
}

// ---------------------------------------------------------------------------
// Reading an lcov report
// ---------------------------------------------------------------------------

/// What `str::trim` gives for a string.
pub uninterp spec fn trimmed(s: Seq<char>) -> Seq<char>;

/// `str::trim`: the string without its leading and trailing whitespace.
/// The result is the name `trimmed` of the string; which characters are
/// whitespace is left to the Unicode tables of the standard library.
#[verifier::external_body]
fn trim(s: &str) -> (r: String)
    ensures
        r@ == trimmed(s@),
{
    s.trim().to_string()
}

/// Where reading an lcov report stands: the counts read so far, by file
/// and line, and the file whose records are being read.
pub struct LcovState {
    pub files: Map<Seq<char>, Map<u32, u64>>,
    pub current: Option<Seq<char>>,
}

/// Whether a string starts with `p`.
pub open spec fn has_prefix(s: Seq<char>, p: Seq<char>) -> bool {
    p.len() <= s.len() && s.take(p.len() as int) == p
}

/// One trimmed line of a report: `SF:path` starts the records of a file,
/// `end_of_record` ends them, and `DA:line,count` within a file sets the
/// count of that line; any other line changes nothing.
pub open spec fn lcov_step(st: LcovState, line: Seq<char>) -> LcovState {
    if has_prefix(line, "SF:"@) {
        LcovState { current: Some(line.skip(3)), ..st }
    } else if line == "end_of_record"@ {
        LcovState { current: None, ..st }
    } else if has_prefix(line, "DA:"@) && st.current is Some && spec_parse_da(line.skip(3)) is Some {
        let f = st.current->0;
        let (l, c) = spec_parse_da(line.skip(3))->0;
        LcovState { files: st.files.insert(f, lines_of(st.files, f).insert(l, c)), ..st }
    } else {
        st
    }
}

/// The lines read of a report: the state after its complete lines (each
/// trimmed), and the line still open.
pub open spec fn lcov_scan(s: Seq<char>) -> (LcovState, Seq<char>)
    decreases s.len(),
{
    if s.len() == 0 {
        (LcovState { files: Map::empty(), current: None }, Seq::empty())
    } else {
        let (st, line) = lcov_scan(s.drop_last());
        if s.last() == '\n' {
            (lcov_step(st, trimmed(line)), Seq::empty())
        } else {
            (st, line.push(s.last()))
        }
    }
}

/// The counts of an lcov report, by file and line: its lines (split at
/// `\n`, each trimmed) read in order from no file and no counts.
pub open spec fn spec_lcov_files(s: Seq<char>) -> Map<Seq<char>, Map<u32, u64>> {
    let (st, line) = lcov_scan(s);
    lcov_step(st, trimmed(line)).files
}

/// Sets the count of a line of a file, adding the file or the line when
/// it is not there yet.
fn insert_count(files: &mut Vec<FileCoverage>, f: &str, l: u32, c: u64)
    requires
        files_wf(old(files)@),
    ensures
        files_wf(final(files)@),
        file_map(final(files)@) == file_map(old(files)@).insert(
            f@,
            lines_of(file_map(old(files)@), f@).insert(l, c),
        ),
{
    proof {
        lemma_file_map(files@);
    }
    match find_file(files, f) {
        Some(fi) => {
            let mut ls = copy_lines(&files[fi].lines);
            proof {
                assert(distinct_lines(files@[fi as int].lines@));
                assert(file_map(files@)[f@] == line_map(ls@));
                lemma_line_map(ls@);
            }
            match find_line(&ls, l) {
                Some(j) => {
                    proof {
                        lemma_line_map_update(ls@, j as int, c);
                    }
                    ls.set(j, (l, c));
                },
                None => {
                    let ghost before = ls@;
                    proof {
                        if line_map(before).contains_key(l) {
                            let j = choose|j: int| 0 <= j < before.len() && before[j].0 == l;
                            assert(before[j].0 != l);
                        }
                    }
                    ls.push((l, c));
                    proof {
                        assert(ls@.drop_last() =~= before);
                        assert(ls@.last() == (l, c));
                        assert forall|a: int, b: int| 0 <= a < b < ls@.len() implies #[trigger] ls@[a].0
                            != #[trigger] ls@[b].0 by {
                            assert(ls@[a] == before[a]);
                            if b < before.len() {
                                assert(ls@[b] == before[b]);
                            }
                        }
                        assert(line_map(ls@) == line_map(before).insert(l, c));
                    }
                },
            }
            let x = FileCoverage { file: files[fi].file.clone(), lines: ls };
            proof {
                lemma_file_map_update(files@, fi as int, x);
            }
            files.set(fi, x);
        },
        None => {
            let ghost before = files@;
            proof {
                if file_map(before).contains_key(f@) {
                    let j = choose|j: int| 0 <= j < before.len() && before[j].file@ == f@;
                    assert(before[j].file@ != f@);
                }
            }
            let mut ls: Vec<(u32, u64)> = Vec::new();
            ls.push((l, c));
            let x = FileCoverage { file: String::from_str(f), lines: ls };
            proof {
                assert(x.lines@.drop_last() =~= Seq::<(u32, u64)>::empty());
                assert(x.lines@.last() == (l, c));
                assert(line_map(Seq::<(u32, u64)>::empty()) == Map::<u32, u64>::empty());
                assert(line_map(x.lines@) =~= Map::<u32, u64>::empty().insert(l, c));
                assert(lines_of(file_map(before), f@) =~= Map::<u32, u64>::empty());
            }
            files.push(x);
            proof {
                assert(files@.drop_last() =~= before);
                assert forall|p: int, q: int| 0 <= p < q < files@.len() implies #[trigger] files@[p].file@
                    != #[trigger] files@[q].file@ by {
                    assert(files@[p] == before[p]);
                    if q < before.len() {
                        assert(files@[q] == before[q]);
                    }
                }
                assert forall|p: int| 0 <= p < files@.len() implies distinct_lines(#[trigger] files@[p].lines@) by {
                    if p < before.len() {
                        assert(files@[p] == before[p]);
                    }
                }
            }
        },
    }
}

/// The characters of a string from position `k` on, as a string.
fn tail_from(cs: &Vec<char>, k: usize) -> (r: String)
    requires
        k <= cs@.len(),
    ensures
        r@ == cs@.skip(k as int),
{
    let mut out: Vec<char> = Vec::new();
    let mut i: usize = k;
    while i < cs.len()
        invariant
            k <= i <= cs@.len(),
            out@ == cs@.subrange(k as int, i as int),
        decreases cs@.len() - i,
    {
        out.push(cs[i]);
        assert(out@ =~= cs@.subrange(k as int, i + 1));
        i = i + 1;
    }
    assert(cs@.subrange(k as int, cs@.len() as int) =~= cs@.skip(k as int));
    string_from_chars(out.as_slice())
}

/// Whether three characters start a string.
fn starts_with3(cs: &Vec<char>, a: char, b: char, c: char) -> (r: bool)
    ensures
        r == has_prefix(cs@, seq![a, b, c]),
{
    let r = cs.len() >= 3 && cs[0] == a && cs[1] == b && cs[2] == c;
    proof {
        if cs@.len() >= 3 {
            if r {
                assert(cs@.take(3) =~= seq![a, b, c]);
            } else if cs@.take(3) == seq![a, b, c] {
                assert(cs@.take(3)[0] == a && cs@.take(3)[1] == b && cs@.take(3)[2] == c);
            }
        }
    }
    r
}

/// Reads one trimmed line of an lcov report (see [`lcov_step`]) into the
/// counts read so far and the file being read.
pub fn apply_lcov_line(files: &mut Vec<FileCoverage>, current: &mut Option<String>, line: &str)
    requires
        files_wf(old(files)@),
    ensures
        files_wf(final(files)@),
        (LcovState { files: file_map(final(files)@), current: crate::expand::opt_view(*final(current)) })
            == lcov_step(
            LcovState { files: file_map(old(files)@), current: crate::expand::opt_view(*old(current)) },
            line@,
        ),
{
    proof {
        reveal_strlit("SF:");
        reveal_strlit("DA:");
        assert("SF:"@ =~= seq!['S', 'F', ':']);
        assert("DA:"@ =~= seq!['D', 'A', ':']);
    }
    let cs = chars_of(line);
    if starts_with3(&cs, 'S', 'F', ':') {
        *current = Some(tail_from(&cs, 3));
    } else if str_eq(line, "end_of_record") {
        *current = None;
    } else if starts_with3(&cs, 'D', 'A', ':') {
        if let Some(f) = current {
            let payload = tail_from(&cs, 3);
            if let Some((l, c)) = parse_da(payload.as_str()) {
                insert_count(files, f.as_str(), l, c);
            }
        }
    }
}

/// The counts of an lcov report, by file and line (see
/// [`spec_lcov_files`]); a file appears once, a line once in its file,
/// with the count of its last `DA:` record.
pub fn parse_lcov_files(lcov: &str) -> (r: Vec<FileCoverage>)
    ensures
        files_wf(r@),
        file_map(r@) == spec_lcov_files(lcov@),
{
    let cs = chars_of(lcov);
    let mut files: Vec<FileCoverage> = Vec::new();
    let mut current: Option<String> = None;
    let mut line: Vec<char> = Vec::new();
    let mut i: usize = 0;
    proof {
        assert(cs@.take(0) =~= Seq::<char>::empty());
        assert(file_map(files@) =~= Map::<Seq<char>, Map<u32, u64>>::empty());
    }
    while i < cs.len()
        invariant
            i <= cs@.len(),
            cs@ == lcov@,
            files_wf(files@),
            (LcovState { files: file_map(files@), current: crate::expand::opt_view(current) }, line@)
                == lcov_scan(cs@.take(i as int)),
        decreases cs@.len() - i,
    {
        assert(cs@.take(i + 1).drop_last() =~= cs@.take(i as int));
        assert(cs@.take(i + 1).last() == cs@[i as int]);
        if cs[i] == '\n' {
            let text = string_from_chars(line.as_slice());
            let t = trim(text.as_str());
            apply_lcov_line(&mut files, &mut current, t.as_str());
            line = Vec::new();
            assert(line@ =~= Seq::<char>::empty());
        } else {
            line.push(cs[i]);
        }
        i = i + 1;
    }
    assert(cs@.take(cs@.len() as int) =~= cs@);
    let text = string_from_chars(line.as_slice());
    let t = trim(text.as_str());
    apply_lcov_line(&mut files, &mut current, t.as_str());
    files
}

} // verus!
