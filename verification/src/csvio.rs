//! The persisted CSV layout of recorder series: a header row with one
//! series name per column, then rows of decimal sample values,
//! column-major and ragged (blank cells where a series is shorter).
//! Encoding and parsing are both verified, and parsing an encoded table
//! returns it exactly.

use vstd::prelude::*;

verus! {

/// Decimal digits of a non-negative number, most significant first.
pub open spec fn dec_digits(n: int) -> Seq<u8>
    decreases n,
{
    if n <= 0 {
        seq![48u8]
    } else if n < 10 {
        seq![(48 + n) as u8]
    } else {
        dec_digits(n / 10) + seq![(48 + n % 10) as u8]
    }
}

/// The number a digit string denotes.
pub open spec fn dec_value(s: Seq<u8>) -> int
    decreases s.len(),
{
    if s.len() == 0 {
        0
    } else {
        dec_value(s.drop_last()) * 10 + (s.last() - 48)
    }
}

/// Every byte is an ASCII digit.
pub open spec fn all_digits(s: Seq<u8>) -> bool {
    forall|i: int| 0 <= i < s.len() ==> 48 <= #[trigger] s[i] <= 57
}

/// Decimal round trip: the digits of `n` denote `n`, are never empty, and
/// are digits throughout.
pub proof fn lemma_dec_round_trip(n: int)
    requires
        0 <= n,
    ensures
        dec_value(dec_digits(n)) == n,
        dec_digits(n).len() >= 1,
        all_digits(dec_digits(n)),
    decreases n,
{
    if n < 10 {
        assert(dec_digits(n).drop_last() =~= Seq::<u8>::empty());
        assert(dec_value(Seq::<u8>::empty()) == 0);
        assert(dec_digits(n).last() == 48 + n);
    } else {
        lemma_dec_round_trip(n / 10);
        vstd::arithmetic::div_mod::lemma_fundamental_div_mod(n, 10);
        vstd::arithmetic::div_mod::lemma_mod_bound(n, 10);
        let d = dec_digits(n);
        assert(d.drop_last() =~= dec_digits(n / 10));
        assert(d.last() == 48 + n % 10);
        assert(all_digits(d)) by {
            assert forall|i: int| 0 <= i < d.len() implies 48 <= #[trigger] d[i] <= 57 by {
                if i < d.len() - 1 {
                    assert(d[i] == dec_digits(n / 10)[i]);
                }
            }
        };
    }
}

/// The decimal digits of `n`, as bytes.
pub fn u64_to_dec(n: u64) -> (r: Vec<u8>)
    ensures
        r@ == dec_digits(n as int),
        r@.len() >= 1,
        all_digits(r@),
    decreases n,
{
    proof {
        lemma_dec_round_trip(n as int);
    }
    if n < 10 {
        let mut v: Vec<u8> = Vec::new();
        v.push((48 + n) as u8);
        proof {
            assert(v@ =~= dec_digits(n as int));
        }
        v
    } else {
        let mut v = u64_to_dec(n / 10);
        v.push((48 + (n % 10)) as u8);
        proof {
            assert(v@ =~= dec_digits(n as int));
        }
        v
    }
}

/// Parse a decimal cell: all digits, non-empty, value within `u64`.
pub fn dec_parse(s: &Vec<u8>) -> (r: Option<u64>)
    ensures
        r is Some <==> s@.len() > 0 && all_digits(s@) && dec_value(s@) <= u64::MAX,
        r is Some ==> r->0 == dec_value(s@),
{
    let n = s.len();
    if n == 0 {
        return None;
    }
    let mut acc: u128 = 0;
    let mut i: usize = 0;
    proof {
        assert(s@.take(0) =~= Seq::<u8>::empty());
    }
    while i < n
        invariant
            0 <= i <= n,
            n == s@.len(),
            acc == dec_value(s@.take(i as int)),
            acc <= u64::MAX,
            all_digits(s@.take(i as int)),
        decreases n - i,
    {
        let b = s[i];
        if !(48 <= b && b <= 57) {
            proof {
                assert(!all_digits(s@));
            }
            return None;
        }
        let ghost pre = s@.take(i as int);
        let ghost pre1 = s@.take(i as int + 1);
        proof {
            assert(pre1.drop_last() =~= pre);
            assert(pre1.last() == s@[i as int]);
        }
        acc = acc * 10 + (b - 48) as u128;
        if acc > 0xffff_ffff_ffff_ffffu128 {
            proof {
                if all_digits(s@) {
                    lemma_dec_value_monotone(s@, i as int + 1);
                }
            }
            return None;
        }
        i = i + 1;
    }
    proof {
        assert(s@.take(n as int) =~= s@);
    }
    Some(acc as u64)
}

/// With digit cells, extending the string never shrinks its value.
proof fn lemma_dec_value_monotone(s: Seq<u8>, i: int)
    requires
        0 <= i <= s.len(),
        all_digits(s),
    ensures
        dec_value(s) >= dec_value(s.take(i)),
        dec_value(s.take(i)) >= 0,
    decreases s.len() - i,
{
    if i == s.len() {
        assert(s.take(i) =~= s);
        lemma_dec_value_nonneg(s);
    } else {
        lemma_dec_value_monotone(s, i + 1);
        let p = s.take(i);
        let p1 = s.take(i + 1);
        assert(p1.drop_last() =~= p);
        lemma_dec_value_nonneg(p);
    }
}

/// A digit string never denotes a negative number.
proof fn lemma_dec_value_nonneg(s: Seq<u8>)
    requires
        all_digits(s),
    ensures
        dec_value(s) >= 0,
    decreases s.len(),
{
    if s.len() > 0 {
        assert(all_digits(s.drop_last())) by {
            assert forall|i: int| 0 <= i < s.len() - 1 implies 48 <= #[trigger] s.drop_last()[i]
                <= 57 by {
                assert(s.drop_last()[i] == s[i]);
            }
        };
        lemma_dec_value_nonneg(s.drop_last());
    }
}

/// The ragged row-major table of a set of sample columns: row `r` holds
/// the `r`-th sample of each column, blank (`None`) where a column is
/// shorter. There are as many rows as the longest column has samples.
pub open spec fn spec_table_cell(cols: Seq<Seq<u64>>, r: int, c: int) -> Option<u64> {
    if r < cols[c].len() {
        Some(cols[c][r])
    } else {
        None
    }
}

/// The number of rows the table needs: the longest column.
pub open spec fn spec_max_len(cols: Seq<Seq<u64>>) -> int
    decreases cols.len(),
{
    if cols.len() == 0 {
        0
    } else {
        let rest = spec_max_len(cols.drop_last());
        if cols.last().len() > rest {
            cols.last().len() as int
        } else {
            rest
        }
    }
}

/// Build the ragged row-major table of the columns.
pub fn table_of_columns(cols: &Vec<Vec<u64>>) -> (r: Vec<Vec<Option<u64>>>)
    ensures
        r@.len() == spec_max_len(cols@.map_values(|v: Vec<u64>| v@)),
        forall|i: int, j: int|
            0 <= i < r@.len() && 0 <= j < cols@.len() ==> #[trigger] r@[i]@[j] == spec_table_cell(
                cols@.map_values(|v: Vec<u64>| v@),
                i,
                j,
            ),
        forall|i: int| 0 <= i < r@.len() ==> (#[trigger] r@[i])@.len() == cols@.len(),
{
    let ghost view = cols@.map_values(|v: Vec<u64>| v@);
    let nrows = max_len(cols);
    let ncols = cols.len();
    let mut table: Vec<Vec<Option<u64>>> = Vec::new();
    let mut i: usize = 0;
    while i < nrows
        invariant
            i <= nrows,
            ncols == cols@.len(),
            view == cols@.map_values(|v: Vec<u64>| v@),
            table@.len() == i,
            forall|i2: int, j: int|
                0 <= i2 < i && 0 <= j < ncols ==> #[trigger] table@[i2]@[j] == spec_table_cell(
                    view,
                    i2,
                    j,
                ),
            forall|i2: int| 0 <= i2 < i ==> (#[trigger] table@[i2])@.len() == ncols,
        decreases nrows - i,
    {
        let mut row: Vec<Option<u64>> = Vec::new();
        let mut j: usize = 0;
        while j < ncols
            invariant
                j <= ncols,
                ncols == cols@.len(),
                view == cols@.map_values(|v: Vec<u64>| v@),
                row@.len() == j,
                forall|j2: int|
                    0 <= j2 < j ==> #[trigger] row@[j2] == spec_table_cell(view, i as int, j2),
            decreases ncols - j,
        {
            let cell = if i < cols[j].len() {
                Some(cols[j][i])
            } else {
                None
            };
            row.push(cell);
            j = j + 1;
        }
        table.push(row);
        i = i + 1;
    }
    table
}

/// Length of the longest column.
pub fn max_len(cols: &Vec<Vec<u64>>) -> (r: usize)
    ensures
        r == spec_max_len(cols@.map_values(|v: Vec<u64>| v@)),
{
    let ghost view = cols@.map_values(|v: Vec<u64>| v@);
    let mut best: usize = 0;
    let mut j: usize = 0;
    proof {
        assert(view.take(0) =~= Seq::<Seq<u64>>::empty());
    }
    while j < cols.len()
        invariant
            j <= cols@.len(),
            view == cols@.map_values(|v: Vec<u64>| v@),
            best == spec_max_len(view.take(j as int)),
        decreases cols@.len() - j,
    {
        let ghost pre1 = view.take(j as int + 1);
        proof {
            assert(pre1.drop_last() =~= view.take(j as int));
            assert(pre1.last() == view[j as int]);
        }
        let l = cols[j].len();
        if l > best {
            best = l;
        }
        j = j + 1;
    }
    proof {
        assert(view.take(cols@.len() as int) =~= view);
    }
    best
}

/// A ragged column-major table: in every column the filled cells form a
/// contiguous prefix.
pub open spec fn ragged(table: Seq<Seq<Option<u64>>>, ncols: int) -> bool {
    forall|i1: int, i2: int, j: int|
        0 <= i1 <= i2 < table.len() && 0 <= j < ncols && #[trigger] table[i2][j] is Some
            ==> #[trigger] table[i1][j] is Some
}

/// Recover the columns of a ragged row-major table: each column is its
/// contiguous prefix of filled cells. Every genuinely ragged table is
/// accepted.
pub fn columns_of_table(table: &Vec<Vec<Option<u64>>>, ncols: usize) -> (r: Option<Vec<Vec<u64>>>)
    requires
        forall|i: int| 0 <= i < table@.len() ==> (#[trigger] table@[i])@.len() == ncols,
    ensures
        ragged(table@.map_values(|v: Vec<Option<u64>>| v@), ncols as int) ==> r is Some,
        r is Some ==> r->0@.len() == ncols,
        r is Some ==> forall|j: int, i: int|
            0 <= j < ncols && 0 <= i < r->0@[j]@.len() ==> #[trigger] (table@[i]@[j]) is Some && (
            r->0@[j]@[i]) == table@[i]@[j]->0,
        r is Some ==> forall|j: int|
            0 <= j < ncols ==> (#[trigger] r->0@[j])@.len() <= table@.len(),
        r is Some ==> forall|j: int, i: int|
            0 <= j < ncols && r->0@[j]@.len() <= i < table@.len() ==> #[trigger] (table@[i]@[j])
                is None,
{
    let nrows = table.len();
    let mut cols: Vec<Vec<u64>> = Vec::new();
    let mut j: usize = 0;
    while j < ncols
        invariant
            j <= ncols,
            nrows == table@.len(),
            forall|i: int| 0 <= i < table@.len() ==> (#[trigger] table@[i])@.len() == ncols,
            cols@.len() == j,
            forall|j2: int, i: int|
                0 <= j2 < j && 0 <= i < cols@[j2]@.len() ==> #[trigger] (table@[i]@[j2]) is Some
                    && (cols@[j2]@[i]) == table@[i]@[j2]->0,
            forall|j2: int| 0 <= j2 < j ==> (#[trigger] cols@[j2])@.len() <= nrows,
            forall|j2: int, i: int|
                0 <= j2 < j && cols@[j2]@.len() <= i < nrows ==> #[trigger] (table@[i]@[j2])
                    is None,
        decreases ncols - j,
    {
        let mut col: Vec<u64> = Vec::new();
        let mut i: usize = 0;
        let mut done = false;
        let ghost mut none_at: int = 0;
        while i < nrows
            invariant
                i <= nrows,
                nrows == table@.len(),
                j < ncols,
                forall|i2: int| 0 <= i2 < table@.len() ==> (#[trigger] table@[i2])@.len() == ncols,
                !done ==> col@.len() == i,
                done ==> col@.len() <= i,
                done ==> 0 <= none_at < i && table@[none_at]@[j as int] is None,
                forall|i2: int|
                    0 <= i2 < col@.len() ==> #[trigger] (table@[i2]@[j as int]) is Some && (
                    col@[i2]) == table@[i2]@[j as int]->0,
                forall|i2: int|
                    col@.len() <= i2 < i ==> #[trigger] (table@[i2]@[j as int]) is None,
            decreases nrows - i,
        {
            match table[i][j] {
                Some(v) => {
                    if done {
                        // a filled cell after a blank one: not a ragged
                        // column-major table
                        proof {
                            let tview = table@.map_values(|v: Vec<Option<u64>>| v@);
                            assert(tview[none_at][j as int] is None);
                            assert(tview[i as int][j as int] is Some);
                            assert(!ragged(tview, ncols as int));
                        }
                        return None;
                    }
                    col.push(v);
                },
                None => {
                    if !done {
                        proof {
                            none_at = i as int;
                        }
                    }
                    done = true;
                },
            }
            i = i + 1;
        }
        cols.push(col);
        j = j + 1;
    }
    Some(cols)
}

/// Table round trip: rebuilding the columns of the table of any column
/// set returns exactly the original columns, sample for sample — in
/// particular every per-value count is preserved.
pub proof fn lemma_table_round_trip(cols: Seq<Seq<u64>>, table: Seq<Seq<Option<u64>>>, back: Seq<
    Seq<u64>,
>)
    requires
        table.len() == spec_max_len(cols),
        forall|i: int, j: int|
            0 <= i < table.len() && 0 <= j < cols.len() ==> #[trigger] table[i][j]
                == spec_table_cell(cols, i, j),
        forall|i: int| 0 <= i < table.len() ==> (#[trigger] table[i]).len() == cols.len(),
        back.len() == cols.len(),
        forall|j: int, i: int|
            0 <= j < cols.len() && 0 <= i < back[j].len() ==> #[trigger] table[i][j] is Some && (
            back[j][i]) == table[i][j]->0,
        forall|j: int| 0 <= j < cols.len() ==> (#[trigger] back[j]).len() <= table.len(),
        forall|j: int, i: int|
            0 <= j < cols.len() && back[j].len() <= i < table.len() ==> #[trigger] (table[i][j])
                is None,
    ensures
        back == cols,
{
    assert forall|j: int| 0 <= j < cols.len() implies back[j] =~= cols[j] by {
        lemma_max_len_bound(cols, j);
        // the column length is forced: cells are filled strictly below it
        // and blank from it on
        if back[j].len() < cols[j].len() {
            let i = back[j].len() as int;
            assert(table[i][j] == spec_table_cell(cols, i, j));
            assert(table[i][j] is Some);
        }
        if back[j].len() > cols[j].len() {
            let i = cols[j].len() as int;
            assert(table[i][j] is Some);
            assert(table[i][j] == spec_table_cell(cols, i, j));
        }
        assert forall|i: int| 0 <= i < back[j].len() implies back[j][i] == cols[j][i] by {
            assert(table[i][j] is Some);
            assert(table[i][j] == spec_table_cell(cols, i, j));
        }
    }
    assert(back =~~= cols);
}

/// No column is longer than the table.
proof fn lemma_max_len_bound(cols: Seq<Seq<u64>>, j: int)
    requires
        0 <= j < cols.len(),
    ensures
        cols[j].len() <= spec_max_len(cols),
        spec_max_len(cols) >= 0,
    decreases cols.len(),
{
    if j == cols.len() - 1 {
        assert(cols.last() == cols[j]);
        lemma_max_len_nonneg(cols.drop_last());
    } else {
        lemma_max_len_bound(cols.drop_last(), j);
        assert(cols.drop_last()[j] == cols[j]);
    }
}

proof fn lemma_max_len_nonneg(cols: Seq<Seq<u64>>)
    ensures
        spec_max_len(cols) >= 0,
    decreases cols.len(),
{
    if cols.len() > 0 {
        lemma_max_len_nonneg(cols.drop_last());
    }
}


/// Join cells with a separator byte, first cell first.
pub open spec fn join_row(cells: Seq<Seq<u8>>, sep: u8) -> Seq<u8>
    decreases cells.len(),
{
    if cells.len() == 0 {
        Seq::empty()
    } else if cells.len() == 1 {
        cells[0]
    } else {
        cells[0] + seq![sep] + join_row(cells.drop_first(), sep)
    }
}

/// Index of the first occurrence of `sep` (the length when absent).
pub open spec fn find_sep(s: Seq<u8>, sep: u8) -> nat
    decreases s.len(),
{
    if s.len() == 0 {
        0
    } else if s[0] == sep {
        0
    } else {
        (1 + find_sep(s.drop_first(), sep)) as nat
    }
}

/// Split at every occurrence of `sep`.
pub open spec fn split_row(s: Seq<u8>, sep: u8) -> Seq<Seq<u8>>
    decreases s.len(),
{
    let f = find_sep(s, sep) as int;
    if f >= s.len() {
        seq![s]
    } else {
        seq![s.take(f)] + split_row(s.skip(f + 1), sep)
    }
}

/// `find_sep` is characterized by its first-occurrence property.
proof fn lemma_find_char(s: Seq<u8>, sep: u8, k: int)
    requires
        0 <= k <= s.len(),
        forall|m: int| 0 <= m < k ==> s[m] != sep,
        k == s.len() || s[k] == sep,
    ensures
        find_sep(s, sep) == k,
    decreases k,
{
    if k == 0 {
    } else {
        assert(s[0] != sep);
        let t = s.drop_first();
        assert forall|m: int| 0 <= m < k - 1 implies t[m] != sep by {
            assert(t[m] == s[m + 1]);
        }
        if k < s.len() {
            assert(t[k - 1] == s[k]);
        }
        lemma_find_char(t, sep, k - 1);
    }
}

/// A separator-free string has no split point.
proof fn lemma_find_free(s: Seq<u8>, sep: u8)
    requires
        !s.contains(sep),
    ensures
        find_sep(s, sep) == s.len(),
{
    assert forall|m: int| 0 <= m < s.len() implies s[m] != sep by {
        if s[m] == sep {
            assert(s.contains(sep));
        }
    }
    lemma_find_char(s, sep, s.len() as int);
}

/// The first separator of `a + sep + b` sits right after `a` when `a` is
/// separator-free.
proof fn lemma_find_concat(a: Seq<u8>, b: Seq<u8>, sep: u8)
    requires
        !a.contains(sep),
    ensures
        find_sep(a + seq![sep] + b, sep) == a.len(),
{
    let s = a + seq![sep] + b;
    assert forall|m: int| 0 <= m < a.len() implies s[m] != sep by {
        assert(s[m] == a[m]);
        if a[m] == sep {
            assert(a.contains(sep));
        }
    }
    assert(s[a.len() as int] == sep);
    lemma_find_char(s, sep, a.len() as int);
}

/// Splitting a join returns the cells exactly, provided no cell holds the
/// separator.
pub proof fn lemma_split_join(cells: Seq<Seq<u8>>, sep: u8)
    requires
        cells.len() >= 1,
        forall|i: int| 0 <= i < cells.len() ==> !(#[trigger] cells[i]).contains(sep),
    ensures
        split_row(join_row(cells, sep), sep) == cells,
    decreases cells.len(),
{
    if cells.len() == 1 {
        lemma_find_free(cells[0], sep);
        assert(split_row(join_row(cells, sep), sep) =~~= cells);
    } else {
        let rest = cells.drop_first();
        let j = join_row(cells, sep);
        assert(j == cells[0] + seq![sep] + join_row(rest, sep));
        lemma_find_concat(cells[0], join_row(rest, sep), sep);
        let f = cells[0].len() as int;
        assert(j.take(f) =~= cells[0]);
        assert(j.skip(f + 1) =~= join_row(rest, sep));
        assert forall|i: int| 0 <= i < rest.len() implies !(#[trigger] rest[i]).contains(sep) by {
            assert(rest[i] == cells[i + 1]);
        }
        lemma_split_join(rest, sep);
        assert(f < j.len()) by {
            assert(j.len() == cells[0].len() + 1 + join_row(rest, sep).len());
        };
        assert(split_row(j, sep) =~~= cells);
    }
}

/// Copy a byte range out of a buffer.
fn copy_range(s: &Vec<u8>, from: usize, to: usize) -> (r: Vec<u8>)
    requires
        from <= to <= s@.len(),
    ensures
        r@ == s@.subrange(from as int, to as int),
{
    let mut r: Vec<u8> = Vec::new();
    let mut i: usize = from;
    while i < to
        invariant
            from <= i <= to <= s@.len(),
            r@ =~= s@.subrange(from as int, i as int),
        decreases to - i,
    {
        r.push(s[i]);
        proof {
            assert(r@ =~= s@.subrange(from as int, i as int + 1));
        }
        i = i + 1;
    }
    r
}

/// Split a buffer from `from` on at every `sep`.
fn split_exec(s: &Vec<u8>, from: usize, sep: u8) -> (r: Vec<Vec<u8>>)
    requires
        from <= s@.len(),
    ensures
        r@.map_values(|v: Vec<u8>| v@) == split_row(s@.skip(from as int), sep),
    decreases s@.len() - from,
{
    let ghost suffix = s@.skip(from as int);
    let n = s.len();
    let mut j: usize = from;
    while j < n && s[j] != sep
        invariant
            from <= j <= n,
            n == s@.len(),
            forall|m: int| from <= m < j ==> s@[m] != sep,
        decreases n - j,
    {
        j = j + 1;
    }
    proof {
        assert forall|m: int| 0 <= m < j - from implies suffix[m] != sep by {
            assert(suffix[m] == s@[m + from]);
        }
        if j < n {
            assert(suffix[j - from] == s@[j as int]);
        }
        lemma_find_char(suffix, sep, j - from);
    }
    let cell = copy_range(s, from, j);
    proof {
        assert(cell@ =~= suffix.take(j - from));
    }
    if j == n {
        let mut r: Vec<Vec<u8>> = Vec::new();
        r.push(cell);
        proof {
            assert(suffix.take(j - from) =~= suffix);
            assert(r@.map_values(|v: Vec<u8>| v@) =~~= split_row(suffix, sep));
        }
        r
    } else {
        let rest = split_exec(s, j + 1, sep);
        let mut r: Vec<Vec<u8>> = Vec::new();
        r.push(cell);
        let mut k: usize = 0;
        let ghost restview = rest@.map_values(|v: Vec<u8>| v@);
        let mut rest = rest;
        // move the tail cells over
        let ghost target = seq![suffix.take(j - from)] + split_row(suffix.skip(j - from + 1), sep);
        proof {
            assert(suffix.skip(j - from + 1) =~= s@.skip(j + 1));
            assert(split_row(suffix, sep) =~~= target);
        }
        let nrest = rest.len();
        while k < nrest
            invariant
                k <= nrest,
                nrest == rest@.len(),
                rest@.map_values(|v: Vec<u8>| v@) =~= restview,
                restview == split_row(s@.skip(j + 1), sep),
                r@.len() == k + 1,
                r@.map_values(|v: Vec<u8>| v@) =~= (seq![suffix.take(j - from)] + restview.take(
                    k as int,
                )),
            decreases nrest - k,
        {
            let ghost rv0 = r@.map_values(|v: Vec<u8>| v@);
            let cellk = copy_vec(&rest[k]);
            r.push(cellk);
            proof {
                assert(r@.map_values(|v: Vec<u8>| v@) =~= rv0.push(restview[k as int]));
                assert(r@.map_values(|v: Vec<u8>| v@) =~= (seq![suffix.take(j - from)]
                    + restview.take(k as int + 1)));
            }
            k = k + 1;
        }
        proof {
            assert(restview.take(nrest as int) =~= restview);
            assert(r@.map_values(|v: Vec<u8>| v@) =~~= split_row(suffix, sep));
        }
        r
    }
}

/// Copy a byte vector.
pub fn copy_vec(s: &Vec<u8>) -> (r: Vec<u8>)
    ensures
        r@ == s@,
{
    let mut r: Vec<u8> = Vec::new();
    let mut i: usize = 0;
    while i < s.len()
        invariant
            i <= s@.len(),
            r@ =~= s@.take(i as int),
        decreases s@.len() - i,
    {
        r.push(s[i]);
        proof {
            assert(r@ =~= s@.take(i as int + 1));
        }
        i = i + 1;
    }
    proof {
        assert(s@.take(s@.len() as int) =~= s@);
    }
    r
}

/// Join cells with a separator, starting at cell `from`.
fn join_exec(cells: &Vec<Vec<u8>>, from: usize, sep: u8) -> (r: Vec<u8>)
    requires
        from <= cells@.len(),
    ensures
        r@ == join_row(cells@.map_values(|v: Vec<u8>| v@).skip(from as int), sep),
    decreases cells@.len() - from,
{
    let ghost view = cells@.map_values(|v: Vec<u8>| v@);
    let n = cells.len();
    if from == n {
        let r: Vec<u8> = Vec::new();
        proof {
            assert(view.skip(from as int).len() == 0);
        }
        r
    } else if from == n - 1 {
        let r = copy_vec(&cells[from]);
        proof {
            assert(view.skip(from as int).len() == 1);
            assert(view.skip(from as int)[0] == view[from as int]);
        }
        r
    } else {
        let mut r = copy_vec(&cells[from]);
        r.push(sep);
        let mut tail = join_exec(cells, from + 1, sep);
        r.append(&mut tail);
        proof {
            let suf = view.skip(from as int);
            assert(suf.drop_first() =~= view.skip(from as int + 1));
            assert(suf[0] == view[from as int]);
            assert(suf.len() >= 2);
            assert(r@ =~= (suf[0] + seq![sep] + join_row(suf.drop_first(), sep)));
        }
        r
    }
}


/// The bytes of one cell: decimal digits, or blank where the column has
/// ended.
pub open spec fn cell_bytes(c: Option<u64>) -> Seq<u8> {
    match c {
        Some(v) => dec_digits(v as int),
        None => Seq::empty(),
    }
}

/// The cells of data row `i`.
pub open spec fn row_cells(cols: Seq<Seq<u64>>, i: int) -> Seq<Seq<u8>> {
    Seq::new(cols.len() as nat, |j: int| cell_bytes(spec_table_cell(cols, i, j)))
}

/// The lines of the persisted file: the header naming each series, then
/// one line per sample row.
pub open spec fn csv_lines(names: Seq<Seq<u8>>, cols: Seq<Seq<u64>>) -> Seq<Seq<u8>> {
    seq![join_row(names, 44)] + Seq::new(spec_max_len(cols) as nat, |i: int| join_row(row_cells(cols, i), 44))
}

/// The full persisted byte string.
pub open spec fn spec_csv(names: Seq<Seq<u8>>, cols: Seq<Seq<u64>>) -> Seq<u8> {
    join_row(csv_lines(names, cols), 10)
}

/// A writable table: at least one series, one name per series, and names
/// free of the separator bytes.
pub open spec fn wf_csv(names: Seq<Seq<u8>>, cols: Seq<Seq<u64>>) -> bool {
    &&& names.len() == cols.len()
    &&& names.len() >= 1
    &&& forall|i: int|
        0 <= i < names.len() ==> !(#[trigger] names[i]).contains(44u8) && !names[i].contains(10u8)
}

/// A digit string holds neither separator.
proof fn lemma_digits_free(s: Seq<u8>)
    requires
        all_digits(s),
    ensures
        !s.contains(44u8),
        !s.contains(10u8),
{
    if s.contains(44u8) {
        let i = choose|i: int| 0 <= i < s.len() && s[i] == 44u8;
        assert(48 <= s[i]);
    }
    if s.contains(10u8) {
        let i = choose|i: int| 0 <= i < s.len() && s[i] == 10u8;
        assert(48 <= s[i]);
    }
}

/// Joining cells that avoid a byte yields a string that avoids it, as long
/// as the separator is another byte.
proof fn lemma_join_free(cells: Seq<Seq<u8>>, sep: u8, other: u8)
    requires
        sep != other,
        forall|i: int| 0 <= i < cells.len() ==> !(#[trigger] cells[i]).contains(other),
    ensures
        !join_row(cells, sep).contains(other),
    decreases cells.len(),
{
    if cells.len() == 0 {
    } else if cells.len() == 1 {
    } else {
        let rest = cells.drop_first();
        assert forall|i: int| 0 <= i < rest.len() implies !(#[trigger] rest[i]).contains(other) by {
            assert(rest[i] == cells[i + 1]);
        }
        lemma_join_free(rest, sep, other);
        let j = join_row(cells, sep);
        if j.contains(other) {
            let i = choose|i: int| 0 <= i < j.len() && j[i] == other;
            let a = cells[0];
            let t = join_row(rest, sep);
            if i < a.len() {
                assert(a[i] == other);
                assert(a.contains(other));
            } else if i == a.len() {
                assert(j[i] == sep);
            } else {
                assert(t[i - a.len() - 1] == other);
                assert(t.contains(other));
            }
        }
    }
}

/// Every cell of a data row avoids both separators.
proof fn lemma_row_cells_free(cols: Seq<Seq<u64>>, i: int)
    ensures
        forall|j: int|
            0 <= j < cols.len() ==> !(#[trigger] row_cells(cols, i)[j]).contains(44u8)
                && !row_cells(cols, i)[j].contains(10u8),
{
    assert forall|j: int| 0 <= j < cols.len() implies !(#[trigger] row_cells(cols, i)[j]).contains(
        44u8,
    ) && !row_cells(cols, i)[j].contains(10u8) by {
        let c = spec_table_cell(cols, i, j);
        match c {
            Some(v) => {
                lemma_dec_round_trip(v as int);
                lemma_digits_free(dec_digits(v as int));
            },
            None => {
                if cell_bytes(c).contains(44u8) || cell_bytes(c).contains(10u8) {
                    let k = choose|k: int|
                        0 <= k < cell_bytes(c).len() && (cell_bytes(c)[k] == 44u8 || cell_bytes(
                            c,
                        )[k] == 10u8);
                }
            },
        }
    }
}

/// No line of the persisted file holds a newline byte.
proof fn lemma_csv_lines_free(names: Seq<Seq<u8>>, cols: Seq<Seq<u64>>)
    requires
        wf_csv(names, cols),
    ensures
        forall|i: int|
            0 <= i < csv_lines(names, cols).len() ==> !(#[trigger] csv_lines(names, cols)[
            i]).contains(10u8),
{
    let lines = csv_lines(names, cols);
    assert forall|i: int| 0 <= i < lines.len() implies !(#[trigger] lines[i]).contains(10u8) by {
        if i == 0 {
            lemma_join_free(names, 44u8, 10u8);
            assert(lines[0] == join_row(names, 44));
        } else {
            lemma_row_cells_free(cols, i - 1);
            lemma_join_free(row_cells(cols, i - 1), 44u8, 10u8);
            assert(lines[i] == join_row(row_cells(cols, i - 1), 44));
        }
    }
}

/// Write the table: header line, then the ragged sample rows, separated by
/// newlines.
#[verifier::rlimit(30)]
pub fn csv_encode(names: &Vec<Vec<u8>>, cols: &Vec<Vec<u64>>) -> (r: Vec<u8>)
    requires
        names@.len() == cols@.len(),
        names@.len() >= 1,
    ensures
        r@ == spec_csv(
            names@.map_values(|v: Vec<u8>| v@),
            cols@.map_values(|v: Vec<u64>| v@),
        ),
{
    let ghost nview = names@.map_values(|v: Vec<u8>| v@);
    let ghost cview = cols@.map_values(|v: Vec<u64>| v@);
    let mut lines: Vec<Vec<u8>> = Vec::new();
    let header = join_exec(names, 0, 44);
    proof {
        assert(nview.skip(0) =~= nview);
    }
    lines.push(header);
    let nrows = max_len(cols);
    let ncols = cols.len();
    let mut i: usize = 0;
    while i < nrows
        invariant
            i <= nrows,
            ncols == cols@.len(),
            nview == names@.map_values(|v: Vec<u8>| v@),
            cview == cols@.map_values(|v: Vec<u64>| v@),
            nrows == spec_max_len(cview),
            lines@.len() == i + 1,
            lines@.map_values(|v: Vec<u8>| v@) =~= csv_lines(nview, cview).take(i + 1),
        decreases nrows - i,
    {
        let mut cells: Vec<Vec<u8>> = Vec::new();
        let mut j: usize = 0;
        while j < ncols
            invariant
                j <= ncols,
                ncols == cols@.len(),
                cview == cols@.map_values(|v: Vec<u64>| v@),
                cells@.len() == j,
                cells@.map_values(|v: Vec<u8>| v@) =~= row_cells(cview, i as int).take(j as int),
            decreases ncols - j,
        {
            let ghost c0 = cells@.map_values(|v: Vec<u8>| v@);
            let cell = if i < cols[j].len() {
                u64_to_dec(cols[j][i])
            } else {
                Vec::new()
            };
            cells.push(cell);
            proof {
                assert(cells@.map_values(|v: Vec<u8>| v@) =~= c0.push(
                    cell_bytes(spec_table_cell(cview, i as int, j as int)),
                ));
                assert(cells@.map_values(|v: Vec<u8>| v@) =~= row_cells(cview, i as int).take(
                    j as int + 1,
                ));
            }
            j = j + 1;
        }
        proof {
            assert(row_cells(cview, i as int).take(ncols as int) =~= row_cells(cview, i as int));
        }
        let ghost l0 = lines@.map_values(|v: Vec<u8>| v@);
        let line = join_exec(&cells, 0, 44);
        proof {
            assert(cells@.map_values(|v: Vec<u8>| v@).skip(0) =~= row_cells(cview, i as int));
        }
        lines.push(line);
        proof {
            assert(lines@.map_values(|v: Vec<u8>| v@) =~= l0.push(
                join_row(row_cells(cview, i as int), 44),
            ));
            assert(csv_lines(nview, cview)[i + 1] == join_row(row_cells(cview, i as int), 44));
            assert(lines@.map_values(|v: Vec<u8>| v@) =~= csv_lines(nview, cview).take(
                i + 2,
            ));
        }
        i = i + 1;
    }
    proof {
        assert(csv_lines(nview, cview).take(nrows + 1) =~= csv_lines(nview, cview));
    }
    let r = join_exec(&lines, 0, 10);
    proof {
        assert(lines@.map_values(|v: Vec<u8>| v@).skip(0) =~= csv_lines(nview, cview));
    }
    r
}

/// A parsed table: the series names of the header row, and the samples of
/// each series.
pub struct CsvTable {
    pub names: Vec<Vec<u8>>,
    pub columns: Vec<Vec<u64>>,
}


/// A split never yields an empty list of cells.
proof fn lemma_split_nonempty(s: Seq<u8>, sep: u8)
    ensures
        split_row(s, sep).len() >= 1,
{
}

/// Parsing the encoding of a well-formed table recovers the encoder's
/// lines, header cells and row cells exactly.
proof fn lemma_csv_shape(bytes: Seq<u8>, names0: Seq<Seq<u8>>, cols0: Seq<Seq<u64>>)
    requires
        wf_csv(names0, cols0),
        bytes == spec_csv(names0, cols0),
    ensures
        split_row(bytes, 10) == csv_lines(names0, cols0),
        split_row(bytes, 10).len() == 1 + spec_max_len(cols0),
        split_row(split_row(bytes, 10)[0], 44) == names0,
        forall|i: int|
            0 <= i < spec_max_len(cols0) ==> #[trigger] split_row(split_row(bytes, 10)[i + 1], 44)
                == row_cells(cols0, i),
        spec_max_len(cols0) >= 0,
{
    let lines0 = csv_lines(names0, cols0);
    lemma_csv_lines_free(names0, cols0);
    lemma_max_len_nonneg(cols0);
    assert(lines0.len() >= 1);
    lemma_split_join(lines0, 10);
    assert(split_row(bytes, 10) == lines0);
    lemma_split_join(names0, 44);
    assert(lines0[0] == join_row(names0, 44));
    assert forall|i: int| 0 <= i < spec_max_len(cols0) implies #[trigger] split_row(
        split_row(bytes, 10)[i + 1],
        44,
    ) == row_cells(cols0, i) by {
        lemma_row_cells_free(cols0, i);
        assert(lines0[i + 1] == join_row(row_cells(cols0, i), 44));
        lemma_split_join(row_cells(cols0, i), 44);
    }
}

/// Read a persisted table back. Parsing the encoding of any well-formed
/// table succeeds and returns that table exactly: names and every sample
/// of every series, counts included.
#[verifier::rlimit(60)]
pub fn csv_parse(bytes: &Vec<u8>) -> (r: Option<CsvTable>)
    ensures
        r is Some ==> forall|names0: Seq<Seq<u8>>, cols0: Seq<Seq<u64>>|
            wf_csv(names0, cols0) && bytes@ == spec_csv(names0, cols0)
                ==> r->0.names@.map_values(|v: Vec<u8>| v@) == names0 && r->0.columns@.map_values(
                |v: Vec<u64>| v@,
            ) == cols0,
        forall|names0: Seq<Seq<u8>>, cols0: Seq<Seq<u64>>|
            wf_csv(names0, cols0) && bytes@ == spec_csv(names0, cols0) ==> r is Some,
{
    let lines = split_exec(bytes, 0, 10);
    proof {
        assert(bytes@.skip(0) =~= bytes@);
    }
    let ghost lview = lines@.map_values(|v: Vec<u8>| v@);
    proof {
        lemma_split_nonempty(bytes@, 10);
    }
    if lines.len() == 0 {
        return None;
    }
    let names = split_exec(&lines[0], 0, 44);
    proof {
        assert(lines@[0]@.skip(0) =~= lview[0]);
    }
    let ghost nview = names@.map_values(|v: Vec<u8>| v@);
    let ncols = names.len();
    let nlines = lines.len();
    let mut table: Vec<Vec<Option<u64>>> = Vec::new();
    let mut li: usize = 1;
    while li < nlines
        invariant
            1 <= li <= nlines,
            nlines == lines@.len(),
            lview == lines@.map_values(|v: Vec<u8>| v@),
            lview == split_row(bytes@, 10),
            nview == split_row(lview[0], 44),
            nview == names@.map_values(|v: Vec<u8>| v@),
            ncols == nview.len(),
            table@.len() == li - 1,
            forall|i: int|
                0 <= i < table@.len() ==> (#[trigger] table@[i])@.len() == ncols,
            forall|i: int, j: int|
                0 <= i < table@.len() && 0 <= j < ncols ==> (#[trigger] table@[i]@[j]) == (
                if split_row(lview[i + 1], 44)[j].len() == 0 {
                    Option::<u64>::None
                } else {
                    Some(dec_value(split_row(lview[i + 1], 44)[j]) as u64)
                }),
            forall|i: int, j: int|
                0 <= i < table@.len() && 0 <= j < ncols && split_row(lview[i + 1], 44)[j].len() > 0
                    ==> all_digits(#[trigger] split_row(lview[i + 1], 44)[j]) && dec_value(
                    split_row(lview[i + 1], 44)[j],
                ) <= u64::MAX,
            forall|i: int|
                0 <= i < table@.len() ==> split_row(#[trigger] lview[i + 1], 44).len() == ncols,
        decreases nlines - li,
    {
        let cells = split_exec(&lines[li], 0, 44);
        proof {
            assert(lines@[li as int]@.skip(0) =~= lview[li as int]);
        }
        let ghost cellsview = cells@.map_values(|v: Vec<u8>| v@);
        proof {
            assert(cellsview == split_row(lview[li as int], 44));
        }
        if cells.len() != ncols {
            proof {
                assert forall|names0: Seq<Seq<u8>>, cols0: Seq<Seq<u64>>|
                    !(wf_csv(names0, cols0) && bytes@ == spec_csv(names0, cols0)) by {
                    if wf_csv(names0, cols0) && bytes@ == spec_csv(names0, cols0) {
                        lemma_csv_shape(bytes@, names0, cols0);
                        assert(nview == names0);
                        assert(lview[li as int] == split_row(bytes@, 10)[li - 1 + 1]);
                        assert(split_row(split_row(bytes@, 10)[li - 1 + 1], 44) == row_cells(
                            cols0,
                            li - 1,
                        ));
                        assert(cellsview == row_cells(cols0, li - 1));
                    }
                }
            }
            return None;
        }
        let mut row: Vec<Option<u64>> = Vec::new();
        let mut j: usize = 0;
        while j < ncols
            invariant
                j <= ncols,
                1 <= li < nlines,
                nlines == lview.len(),
                lview == split_row(bytes@, 10),
                nview == split_row(lview[0], 44),
                ncols == nview.len(),
                ncols == cells@.len(),
                cellsview == cells@.map_values(|v: Vec<u8>| v@),
                cellsview == split_row(lview[li as int], 44),
                row@.len() == j,
                forall|j2: int|
                    0 <= j2 < j ==> (#[trigger] row@[j2]) == (if cellsview[j2].len() == 0 {
                        Option::<u64>::None
                    } else {
                        Some(dec_value(cellsview[j2]) as u64)
                    }),
                forall|j2: int|
                    0 <= j2 < j && cellsview[j2].len() > 0 ==> all_digits(#[trigger] cellsview[j2])
                        && dec_value(cellsview[j2]) <= u64::MAX,
            decreases ncols - j,
        {
            if cells[j].len() == 0 {
                row.push(None);
            } else {
                match dec_parse(&cells[j]) {
                    Some(v) => {
                        row.push(Some(v));
                    },
                    None => {
                        proof {
                            assert forall|names0: Seq<Seq<u8>>, cols0: Seq<Seq<u64>>|
                                !(wf_csv(names0, cols0) && bytes@ == spec_csv(names0, cols0)) by {
                                if wf_csv(names0, cols0) && bytes@ == spec_csv(names0, cols0) {
                                    lemma_csv_shape(bytes@, names0, cols0);
                                    assert(nview == names0);
                                    assert(lview[li as int] == split_row(bytes@, 10)[li - 1 + 1]);
                                    assert(split_row(split_row(bytes@, 10)[li - 1 + 1], 44)
                                        == row_cells(cols0, li - 1));
                                    assert(cellsview == row_cells(cols0, li - 1));
                                    let cell = row_cells(cols0, li - 1)[j as int];
                                    match spec_table_cell(cols0, li - 1, j as int) {
                                        Some(v) => {
                                            lemma_dec_round_trip(v as int);
                                            assert(cell == dec_digits(v as int));
                                        },
                                        None => {
                                            assert(cell.len() == 0);
                                        },
                                    }
                                }
                            }
                        }
                        return None;
                    },
                }
            }
            j = j + 1;
        }
        table.push(row);
        li = li + 1;
    }
    let cols = match columns_of_table(&table, ncols) {
        Some(c) => c,
        None => {
            proof {
                let tview = table@.map_values(|v: Vec<Option<u64>>| v@);
                assert forall|names0: Seq<Seq<u8>>, cols0: Seq<Seq<u64>>|
                    !(wf_csv(names0, cols0) && bytes@ == spec_csv(names0, cols0)) by {
                    if wf_csv(names0, cols0) && bytes@ == spec_csv(names0, cols0) {
                        lemma_csv_shape(bytes@, names0, cols0);
                        assert(nview == names0);
                        assert(ragged(tview, ncols as int)) by {
                            assert forall|i1: int, i2: int, j: int|
                                0 <= i1 <= i2 < tview.len() && 0 <= j < ncols && #[trigger] tview[
                            i2][j] is Some implies #[trigger] tview[i1][j] is Some by {
                                assert(split_row(lview[i1 + 1], 44) == row_cells(cols0, i1));
                                assert(split_row(lview[i2 + 1], 44) == row_cells(cols0, i2));
                                let c2 = row_cells(cols0, i2)[j];
                                let c1 = row_cells(cols0, i1)[j];
                                if spec_table_cell(cols0, i2, j) is None {
                                    assert(c2.len() == 0);
                                }
                                if spec_table_cell(cols0, i1, j) is Some {
                                    let v = spec_table_cell(cols0, i1, j)->0;
                                    lemma_dec_round_trip(v as int);
                                    assert(c1.len() > 0);
                                }
                            }
                        };
                    }
                }
            }
            return None;
        },
    };
    proof {
        lemma_csv_uniqueness(
            bytes@,
            lview,
            nview,
            table@.map_values(|v: Vec<Option<u64>>| v@),
            cols@.map_values(|v: Vec<u64>| v@),
        );
    }
    Some(CsvTable { names, columns: cols })
}

/// The uniqueness argument behind `csv_parse`: any well-formed table whose
/// encoding equals the parsed bytes is exactly the parsed result.
#[verifier::rlimit(100)]
proof fn lemma_csv_uniqueness(
    bytes: Seq<u8>,
    lview: Seq<Seq<u8>>,
    nview: Seq<Seq<u8>>,
    table: Seq<Seq<Option<u64>>>,
    cols: Seq<Seq<u64>>,
)
    requires
        lview == split_row(bytes, 10),
        lview.len() >= 1,
        nview == split_row(lview[0], 44),
        table.len() == lview.len() - 1,
        forall|i: int| 0 <= i < table.len() ==> (#[trigger] table[i]).len() == nview.len(),
        forall|i: int, j: int|
            0 <= i < table.len() && 0 <= j < nview.len() ==> (#[trigger] table[i][j]) == (
            if split_row(lview[i + 1], 44)[j].len() == 0 {
                Option::<u64>::None
            } else {
                Some(dec_value(split_row(lview[i + 1], 44)[j]) as u64)
            }),
        forall|i: int| 0 <= i < table.len() ==> split_row(#[trigger] lview[i + 1], 44).len()
            == nview.len(),
        cols.len() == nview.len(),
        forall|j: int, i: int|
            0 <= j < nview.len() && 0 <= i < cols[j].len() ==> #[trigger] table[i][j] is Some && (
            cols[j][i]) == table[i][j]->0,
        forall|j: int| 0 <= j < nview.len() ==> (#[trigger] cols[j]).len() <= table.len(),
        forall|j: int, i: int|
            0 <= j < nview.len() && cols[j].len() <= i < table.len() ==> #[trigger] (table[i][j])
                is None,
    ensures
        forall|names0: Seq<Seq<u8>>, cols0: Seq<Seq<u64>>|
            wf_csv(names0, cols0) && bytes == spec_csv(names0, cols0) ==> nview == names0 && cols
                == cols0,
{
    assert forall|names0: Seq<Seq<u8>>, cols0: Seq<Seq<u64>>|
        wf_csv(names0, cols0) && bytes == spec_csv(names0, cols0) implies nview == names0 && cols
        == cols0 by {
        let lines0 = csv_lines(names0, cols0);
        lemma_csv_lines_free(names0, cols0);
        lemma_max_len_nonneg(cols0);
        assert(lines0.len() >= 1);
        lemma_split_join(lines0, 10);
        assert(lview == lines0);
        // the header line splits back into the names
        lemma_split_join(names0, 44);
        assert(lview[0] == join_row(names0, 44));
        assert(nview =~~= names0);
        // each data line splits back into its row's cells
        assert forall|i: int| 0 <= i < table.len() implies table[i] =~= Seq::new(
            cols0.len() as nat,
            |j: int| spec_table_cell(cols0, i, j),
        ) by {
            lemma_row_cells_free(cols0, i);
            assert(lines0[i + 1] == join_row(row_cells(cols0, i), 44));
            lemma_split_join(row_cells(cols0, i), 44);
            assert(split_row(lview[i + 1], 44) == row_cells(cols0, i));
            assert forall|j: int| 0 <= j < cols0.len() implies table[i][j] == spec_table_cell(
                cols0,
                i,
                j,
            ) by {
                let cell = row_cells(cols0, i)[j];
                match spec_table_cell(cols0, i, j) {
                    Some(v) => {
                        lemma_dec_round_trip(v as int);
                        assert(cell == dec_digits(v as int));
                        assert(cell.len() > 0);
                    },
                    None => {
                        assert(cell.len() == 0);
                    },
                }
            }
        }
        // and the ragged table reconstructs the original columns
        let ghost reftable = Seq::new(
            table.len() as nat,
            |i: int| Seq::new(cols0.len() as nat, |j: int| spec_table_cell(cols0, i, j)),
        );
        assert(table =~~= reftable);
        lemma_table_round_trip(cols0, reftable, cols);
    }
}


/// The sample columns of a set of recorders, ready for persistence.
pub fn recorder_columns(recs: &Vec<crate::recorder::Recorder<crate::recorder::SaveAllRecorder>>)
    -> (r: Vec<Vec<u64>>)
    requires
        forall|i: int| 0 <= i < recs@.len() ==> (#[trigger] recs@[i]).wf(),
    ensures
        r@.len() == recs@.len(),
        forall|i: int| 0 <= i < recs@.len() ==> (#[trigger] r@[i])@ == recs@[i].retained(),
{
    let mut r: Vec<Vec<u64>> = Vec::new();
    let mut i: usize = 0;
    while i < recs.len()
        invariant
            i <= recs@.len(),
            forall|k: int| 0 <= k < recs@.len() ==> (#[trigger] recs@[k]).wf(),
            r@.len() == i,
            forall|k: int| 0 <= k < i ==> (#[trigger] r@[k])@ == recs@[k].retained(),
        decreases recs@.len() - i,
    {
        let vals = recs[i].values();
        r.push(vals);
        i = i + 1;
    }
    r
}

} // verus!
