//! The piece-square table file: a header line, ten rows of middlegame values,
//! two lines, a header, ten rows of endgame values. Each row holds the nine
//! files of each of the seven kinds in turn, comma separated, with blanks
//! allowed around a value.
use vstd::prelude::*;
use vstd::string::StrSliceExecFns;
use crate::board::PST_BOUND;
use crate::eval::nested_table_ok;

verus! {

/// The blanks a value may carry around it.
pub open spec fn is_blank(c: char) -> bool {
    c == ' ' || c == '\t' || c == '\r' || c == '\n' || c == '\x0b' || c == '\x0c'
}

/// `s` cut at each `sep`.
pub open spec fn split(s: Seq<char>, sep: char) -> Seq<Seq<char>>
    decreases s.len(),
{
    if s.len() == 0 {
        seq![Seq::<char>::empty()]
    } else {
        let prev = split(s.drop_last(), sep);
        if s.last() == sep {
            prev.push(Seq::empty())
        } else {
            prev.update(prev.len() - 1, prev.last().push(s.last()))
        }
    }
}

/// Index of the first non-blank character of `s` at or after `i`.
pub open spec fn lead_from(s: Seq<char>, i: int) -> int
    decreases s.len() - i,
{
    if 0 <= i < s.len() && is_blank(s[i]) { lead_from(s, i + 1) } else { i }
}

/// Index after the last non-blank character of `s` before `j`, not below `lo`.
pub open spec fn trail_from(s: Seq<char>, lo: int, j: int) -> int
    decreases j - lo,
{
    if lo < j && is_blank(s[j - 1]) { trail_from(s, lo, j - 1) } else { j }
}

/// `s` without its leading and trailing blanks.
pub open spec fn trim(s: Seq<char>) -> Seq<char> {
    let lo = lead_from(s, 0);
    s.subrange(lo, trail_from(s, lo, s.len() as int))
}

pub open spec fn is_digit(c: char) -> bool {
    '0' <= c && c <= '9'
}

/// The value of a run of decimal digits.
pub open spec fn digits_value(s: Seq<char>) -> int
    decreases s.len(),
{
    if s.len() == 0 { 0 } else { digits_value(s.drop_last()) * 10 + (s.last() as int - '0' as int) }
}

pub open spec fn all_digits(s: Seq<char>) -> bool {
    forall|i: int| 0 <= i < s.len() ==> is_digit(#[trigger] s[i])
}

/// The integer that `s` writes: an optional sign, then one or more digits.
pub open spec fn int_value(s: Seq<char>) -> Option<int> {
    if s.len() > 0 && (s[0] == '-' || s[0] == '+') {
        let d = s.drop_first();
        if d.len() > 0 && all_digits(d) {
            Some(if s[0] == '-' { -digits_value(d) } else { digits_value(d) })
        } else {
            None
        }
    } else if s.len() > 0 && all_digits(s) {
        Some(digits_value(s))
    } else {
        None
    }
}

/// The value of a field: an integer within the table bound, blanks around it.
pub open spec fn field_value(s: Seq<char>) -> Option<int> {
    match int_value(trim(s)) {
        Some(v) => if -PST_BOUND <= v <= PST_BOUND { Some(v) } else { None },
        None => None,
    }
}

/// Row `first + r` of the file holds seven kinds' nine values.
pub open spec fn row_ok(lines: Seq<Seq<char>>, first: int, r: int) -> bool {
    let fields = split(lines[first + r], ',');
    &&& fields.len() >= 63
    &&& forall|i: int| 0 <= i < 63 ==> field_value(#[trigger] fields[i]) is Some
}

/// Value of kind `k`, row `r`, column `c` of the table starting at line `first`.
pub open spec fn entry(lines: Seq<Seq<char>>, first: int, k: int, r: int, c: int) -> int {
    field_value(split(lines[first + r], ',')[9 * k + c])->0
}

/// The text is a table file: 24 lines or more, rows 1..=10 and 14..=23 full.
pub open spec fn file_ok(text: Seq<char>) -> bool {
    let lines = split(text, '\n');
    &&& lines.len() >= 24
    &&& forall|r: int| 0 <= r < 10 ==> #[trigger] row_ok(lines, 1, r)
    &&& forall|r: int| 0 <= r < 10 ==> #[trigger] row_ok(lines, 14, r)
}

/// The table held by the file, starting at line `first`.
pub open spec fn table_matches(t: Seq<Vec<Vec<i32>>>, text: Seq<char>, first: int) -> bool {
    forall|k: int, r: int, c: int| 0 <= k < 7 && 0 <= r < 10 && 0 <= c < 9
        ==> #[trigger] t[k]@[r]@[c] as int == entry(split(text, '\n'), first, k, r, c)
}

fn chars_of(s: &str) -> (r: Vec<char>)
    ensures
        r@ == s@,
{
    let n = s.unicode_len();
    let mut r: Vec<char> = Vec::new();
    let mut i: usize = 0;
    while i < n
        invariant
            n == s@.len(),
            i <= n,
            r@ == s@.subrange(0, i as int),
        decreases n - i,
    {
        r.push(s.get_char(i));
        i = i + 1;
        assert(r@ =~= s@.subrange(0, i as int));
    }
    assert(r@ =~= s@);
    r
}

/// The pieces of a split, each as its own vector.
pub open spec fn same_pieces(r: Seq<Vec<char>>, s: Seq<Seq<char>>) -> bool {
    &&& r.len() == s.len()
    &&& forall|i: int| 0 <= i < r.len() ==> (#[trigger] r[i])@ == s[i]
}

fn split_chars(s: &Vec<char>, sep: char) -> (r: Vec<Vec<char>>)
    ensures
        same_pieces(r@, split(s@, sep)),
{
    let mut r: Vec<Vec<char>> = Vec::new();
    let mut cur: Vec<char> = Vec::new();
    let mut i: usize = 0;
    assert(s@.subrange(0, 0) =~= Seq::<char>::empty());
    while i < s.len()
        invariant
            i <= s@.len(),
            same_pieces(r@.push(cur), split(s@.subrange(0, i as int), sep)),
        decreases s.len() - i,
    {
        let c = s[i];
        let ghost prefix = s@.subrange(0, i as int);
        let ghost next = s@.subrange(0, i + 1);
        let ghost prev = split(prefix, sep);
        assert(next.drop_last() =~= prefix);
        assert(next.last() == c);
        let ghost old_r = r@;
        let ghost old_cur = cur;
        if c == sep {
            r.push(cur);
            cur = Vec::new();
            assert(split(next, sep) == prev.push(Seq::empty()));
            assert forall|j: int| 0 <= j < r@.push(cur).len() implies (#[trigger] r@.push(cur)[j])@ == split(next, sep)[j] by {
                if j < old_r.len() {
                    assert(r@.push(cur)[j] == old_r.push(old_cur)[j]);
                } else if j == old_r.len() {
                    assert(r@.push(cur)[j]@ == old_cur@);
                }
            }
        } else {
            cur.push(c);
            assert(split(next, sep) == prev.update(prev.len() - 1, prev.last().push(c)));
            assert forall|j: int| 0 <= j < r@.push(cur).len() implies (#[trigger] r@.push(cur)[j])@ == split(next, sep)[j] by {
                if j < old_r.len() {
                    assert(r@.push(cur)[j] == old_r.push(old_cur)[j]);
                } else {
                    assert(prev.last() == old_r.push(old_cur)[j]@);
                    assert(cur@ == old_cur@.push(c));
                }
            }
        }
        i = i + 1;
    }
    assert(s@.subrange(0, s@.len() as int) =~= s@);
    r.push(cur);
    r
}

fn trim_bounds(s: &Vec<char>) -> (r: (usize, usize))
    ensures
        r.0 == lead_from(s@, 0),
        r.1 == trail_from(s@, r.0 as int, s@.len() as int),
        r.0 <= r.1 <= s@.len(),
{
    let mut lo: usize = 0;
    while lo < s.len() && is_blank_exec(s[lo])
        invariant
            lo <= s@.len(),
            lead_from(s@, 0) == lead_from(s@, lo as int),
        decreases s.len() - lo,
    {
        lo = lo + 1;
    }
    let mut hi: usize = s.len();
    while hi > lo && is_blank_exec(s[hi - 1])
        invariant
            lo <= hi <= s@.len(),
            lo == lead_from(s@, 0),
            trail_from(s@, lo as int, s@.len() as int) == trail_from(s@, lo as int, hi as int),
        decreases hi - lo,
    {
        hi = hi - 1;
    }
    (lo, hi)
}

fn is_blank_exec(c: char) -> (r: bool)
    ensures
        r == is_blank(c),
{
    c == ' ' || c == '\t' || c == '\r' || c == '\n' || c == '\x0b' || c == '\x0c'
}

proof fn lemma_digits_grow(s: Seq<char>, i: int)
    requires
        0 <= i <= s.len(),
        all_digits(s),
    ensures
        0 <= digits_value(s.subrange(0, i)) <= digits_value(s),
    decreases s.len() - i,
{
    if i < s.len() {
        lemma_digits_grow(s, i + 1);
        assert(s.subrange(0, i + 1).drop_last() =~= s.subrange(0, i));
        assert(is_digit(s[i]));
    } else {
        assert(s.subrange(0, i) =~= s);
    }
    lemma_digits_nonneg(s.subrange(0, i));
}

proof fn lemma_digits_nonneg(s: Seq<char>)
    requires
        all_digits(s),
    ensures
        digits_value(s) >= 0,
    decreases s.len(),
{
    if s.len() > 0 {
        assert(all_digits(s.drop_last())) by {
            assert forall|i: int| 0 <= i < s.drop_last().len() implies is_digit(#[trigger] s.drop_last()[i]) by {
                assert(s.drop_last()[i] == s[i]);
            }
        }
        lemma_digits_nonneg(s.drop_last());
        assert(is_digit(s[s.len() - 1]));
    }
}

/// Reads the digits of `d`, or `None` when one is not a digit or the value
/// passes `PST_BOUND`.
fn bounded_digits(Ghost(d): Ghost<Seq<char>>, s: &Vec<char>, lo: usize, hi: usize) -> (r: Option<i32>)
    requires
        lo <= hi <= s@.len(),
        d == s@.subrange(lo as int, hi as int),
    ensures
        match r {
            Some(v) => all_digits(d) && v == digits_value(d) && 0 <= v <= PST_BOUND,
            None => !all_digits(d) || digits_value(d) > PST_BOUND,
        },
{
    let mut acc: i32 = 0;
    let mut i: usize = lo;
    while i < hi
        invariant
            lo <= i <= hi <= s@.len(),
            d == s@.subrange(lo as int, hi as int),
            all_digits(d.subrange(0, i - lo)),
            acc == digits_value(d.subrange(0, i - lo)),
            0 <= acc <= PST_BOUND,
        decreases hi - i,
    {
        let c = s[i];
        if !('0' <= c && c <= '9') {
            assert(d[i - lo] == c);
            return None;
        }
        let ghost k = i - lo;
        assert(d.subrange(0, k + 1).drop_last() =~= d.subrange(0, k));
        assert(d.subrange(0, k + 1).last() == c);
        assert(all_digits(d.subrange(0, k + 1))) by {
            assert forall|j: int| 0 <= j < k + 1 implies is_digit(#[trigger] d.subrange(0, k + 1)[j]) by {
                if j < k {
                    assert(d.subrange(0, k + 1)[j] == d.subrange(0, k)[j]);
                }
            }
        }
        let next = acc as i64 * 10 + (c as u32 - '0' as u32) as i64;
        if next > PST_BOUND as i64 {
            proof {
                if all_digits(d) {
                    lemma_digits_grow(d, k + 1);
                }
            }
            return None;
        }
        acc = next as i32;
        i = i + 1;
    }
    assert(d.subrange(0, hi - lo) =~= d);
    Some(acc)
}

/// Reads one field: blanks, an optional sign, digits, blanks.
fn parse_field(s: &Vec<char>) -> (r: Option<i32>)
    ensures
        match r {
            Some(v) => field_value(s@) == Some(v as int),
            None => field_value(s@) is None,
        },
{
    let (lo, hi) = trim_bounds(s);
    let ghost t = trim(s@);
    assert(t == s@.subrange(lo as int, hi as int));
    if lo == hi {
        return None;
    }
    let first = s[lo];
    if first == '-' || first == '+' {
        if lo + 1 == hi {
            return None;
        }
        assert(t.drop_first() =~= s@.subrange(lo + 1, hi as int));
        match bounded_digits(Ghost(t.drop_first()), s, lo + 1, hi) {
            Some(v) => if first == '-' { Some(-v) } else { Some(v) },
            None => None,
        }
    } else {
        match bounded_digits(Ghost(t), s, lo, hi) {
            Some(v) => Some(v),
            None => {
                assert(!(all_digits(t) && -PST_BOUND <= digits_value(t) <= PST_BOUND));
                None
            },
        }
    }
}

/// Reads the 63 values of a row.
fn read_row(line: &Vec<char>, Ghost(ln): Ghost<Seq<char>>) -> (r: Option<Vec<i32>>)
    requires
        line@ == ln,
    ensures
        match r {
            Some(vals) => {
                &&& vals@.len() == 63
                &&& split(ln, ',').len() >= 63
                &&& forall|j: int| 0 <= j < 63 ==> field_value(split(ln, ',')[j]) == Some(#[trigger] vals@[j] as int)
                &&& forall|j: int| 0 <= j < 63 ==> -PST_BOUND <= #[trigger] vals@[j] <= PST_BOUND
            },
            None => !(split(ln, ',').len() >= 63 && forall|j: int| 0 <= j < 63 ==> field_value(#[trigger] split(ln, ',')[j]) is Some),
        },
{
    let fields = split_chars(line, ',');
    if fields.len() < 63 {
        return None;
    }
    let mut vals: Vec<i32> = Vec::new();
    let mut i: usize = 0;
    while i < 63
        invariant
            i <= 63,
            fields@.len() >= 63,
            same_pieces(fields@, split(ln, ',')),
            vals@.len() == i,
            forall|j: int| 0 <= j < i ==> field_value(split(ln, ',')[j]) == Some(#[trigger] vals@[j] as int),
            forall|j: int| 0 <= j < i ==> -PST_BOUND <= #[trigger] vals@[j] <= PST_BOUND,
        decreases 63 - i,
    {
        assert(fields@[i as int]@ == split(ln, ',')[i as int]);
        match parse_field(&fields[i]) {
            Some(v) => {
                vals.push(v);
            },
            None => {
                return None;
            },
        }
        i = i + 1;
    }
    Some(vals)
}

/// Reads the table whose first row is line `first`.
fn read_table(lines: &Vec<Vec<char>>, first: usize, Ghost(text): Ghost<Seq<char>>) -> (r: Option<Vec<Vec<Vec<i32>>>>)
    requires
        same_pieces(lines@, split(text, '\n')),
        first <= 14,
        first + 10 <= lines@.len(),
    ensures
        match r {
            Some(t) => {
                &&& nested_table_ok(t@, PST_BOUND as int)
                &&& table_matches(t@, text, first as int)
                &&& forall|row: int| 0 <= row < 10 ==> #[trigger] row_ok(split(text, '\n'), first as int, row)
            },
            None => exists|row: int| 0 <= row < 10 && !#[trigger] row_ok(split(text, '\n'), first as int, row),
        },
{
    let ghost ls = split(text, '\n');
    let mut rows: Vec<Vec<i32>> = Vec::new();
    let mut r: usize = 0;
    while r < 10
        invariant
            same_pieces(lines@, ls),
            ls == split(text, '\n'),
            first <= 14,
            first + 10 <= lines@.len(),
            r <= 10,
            rows@.len() == r,
            forall|q: int| 0 <= q < r ==> (#[trigger] rows@[q])@.len() == 63,
            forall|q: int, j: int| 0 <= q < r && 0 <= j < 63 ==> -PST_BOUND <= #[trigger] rows@[q]@[j] <= PST_BOUND
                && field_value(split(ls[first + q], ',')[j]) == Some(rows@[q]@[j] as int),
            forall|q: int| 0 <= q < r ==> #[trigger] row_ok(ls, first as int, q),
        decreases 10 - r,
    {
        let ghost ln = ls[first + r];
        assert(lines@[first + r]@ == ln);
        match read_row(&lines[first + r], Ghost(ln)) {
            Some(vals) => {
                assert(row_ok(ls, first as int, r as int)) by {
                    assert forall|j: int| 0 <= j < 63 implies field_value(#[trigger] split(ln, ',')[j]) is Some by {
                        assert(field_value(split(ln, ',')[j]) == Some(vals@[j] as int));
                    }
                }
                rows.push(vals);
            },
            None => {
                assert(!row_ok(ls, first as int, r as int));
                return None;
            },
        }
        r = r + 1;
    }
    let mut t: Vec<Vec<Vec<i32>>> = Vec::new();
    let mut k: usize = 0;
    while k < 7
        invariant
            k <= 7,
            rows@.len() == 10,
            forall|q: int| 0 <= q < 10 ==> (#[trigger] rows@[q])@.len() == 63,
            t@.len() == k,
            forall|j: int| 0 <= j < k ==> (#[trigger] t@[j])@.len() == 10,
            forall|j: int, q: int| 0 <= j < k && 0 <= q < 10 ==> (#[trigger] t@[j]@[q])@.len() == 9,
            forall|j: int, q: int, c: int| 0 <= j < k && 0 <= q < 10 && 0 <= c < 9 ==> #[trigger] t@[j]@[q]@[c] == rows@[q]@[9 * j + c],
        decreases 7 - k,
    {
        let mut plane: Vec<Vec<i32>> = Vec::new();
        let mut q: usize = 0;
        while q < 10
            invariant
                k < 7,
                q <= 10,
                rows@.len() == 10,
                forall|x: int| 0 <= x < 10 ==> (#[trigger] rows@[x])@.len() == 63,
                plane@.len() == q,
                forall|x: int| 0 <= x < q ==> (#[trigger] plane@[x])@.len() == 9,
                forall|x: int, c: int| 0 <= x < q && 0 <= c < 9 ==> #[trigger] plane@[x]@[c] == rows@[x]@[9 * k + c],
            decreases 10 - q,
        {
            let mut line: Vec<i32> = Vec::new();
            let mut c: usize = 0;
            while c < 9
                invariant
                    k < 7,
                    q < 10,
                    c <= 9,
                    rows@.len() == 10,
                    rows@[q as int]@.len() == 63,
                    line@.len() == c,
                    forall|x: int| 0 <= x < c ==> #[trigger] line@[x] == rows@[q as int]@[9 * k + x],
                decreases 9 - c,
            {
                line.push(rows[q][9 * k + c]);
                c = c + 1;
            }
            plane.push(line);
            q = q + 1;
        }
        t.push(plane);
        k = k + 1;
    }
    Some(t)
}

/// Reads a table file: `Some((middlegame, endgame))` exactly when the text is
/// one, each table `[kind][row][col]`.
pub fn parse_pst(text: &str) -> (r: Option<(Vec<Vec<Vec<i32>>>, Vec<Vec<Vec<i32>>>)>)
    ensures
        match r {
            Some((mg, eg)) => {
                &&& file_ok(text@)
                &&& nested_table_ok(mg@, PST_BOUND as int)
                &&& nested_table_ok(eg@, PST_BOUND as int)
                &&& table_matches(mg@, text@, 1)
                &&& table_matches(eg@, text@, 14)
            },
            None => !file_ok(text@),
        },
{
    let chars = chars_of(text);
    let lines = split_chars(&chars, '\n');
    if lines.len() < 24 {
        return None;
    }
    let mg = match read_table(&lines, 1, Ghost(text@)) {
        Some(t) => t,
        None => {
            proof {
                let w = choose|row: int| 0 <= row < 10 && !#[trigger] row_ok(split(text@, '\n'), 1, row);
                assert(!(row_ok(split(text@, '\n'), 1, w) && row_ok(split(text@, '\n'), 14, w)));
            }
            return None;
        },
    };
    let eg = match read_table(&lines, 14, Ghost(text@)) {
        Some(t) => t,
        None => {
            proof {
                let w = choose|row: int| 0 <= row < 10 && !#[trigger] row_ok(split(text@, '\n'), 14, row);
                assert(!(row_ok(split(text@, '\n'), 1, w) && row_ok(split(text@, '\n'), 14, w)));

            }
            return None;
        },
    };
    Some((mg, eg))
}

} // verus!
