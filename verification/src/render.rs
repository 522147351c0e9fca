use crate::matrix::Mat;
use crate::matrix::MatView;
use vstd::prelude::*;

verus! {

/// The decimal digits of a nonnegative number, most significant
/// first, as ASCII bytes.
pub open spec fn dec_bytes(n: int) -> Seq<u8>
    recommends
        n >= 0,
    decreases n,
{
    if n < 10 {
        seq![(48 + n) as u8]
    } else {
        dec_bytes(n / 10).push((48 + n % 10) as u8)
    }
}

/// The decimal rendering of a signed number as ASCII bytes: a minus
/// sign for negative values, then the digits of the magnitude.
pub open spec fn int_bytes(v: int) -> Seq<u8> {
    if v < 0 {
        seq![45u8] + dec_bytes(-v)
    } else {
        dec_bytes(v)
    }
}

/// Every byte of a decimal rendering is ASCII.
pub proof fn lemma_dec_bytes_ascii(n: int)
    requires
        n >= 0,
    ensures
        forall|k: int| 0 <= k < dec_bytes(n).len() ==> (#[trigger] dec_bytes(n)[k]) < 128,
    decreases n,
{
    if n >= 10 {
        lemma_dec_bytes_ascii(n / 10);
        assert forall|k: int| 0 <= k < dec_bytes(n).len() implies (#[trigger] dec_bytes(n)[k])
            < 128 by {
            if k < dec_bytes(n / 10).len() {
                assert(dec_bytes(n)[k] == dec_bytes(n / 10)[k]);
            }
        }
    }
}

/// Renders a signed number in decimal, as ASCII bytes.
pub fn i64_text(x: i64) -> (r: Vec<u8>)
    ensures
        r@ == int_bytes(x as int),
{
    let mut out: Vec<u8> = Vec::new();
    let mut u: u64 = if x < 0 {
        out.push(45u8);
        (-(x as i128)) as u64
    } else {
        x as u64
    };
    let ghost u0 = u as int;
    let ghost sign = out@;
    let mut rev: Vec<u8> = Vec::new();
    while u >= 10
        invariant
            dec_bytes(u0) == dec_bytes(u as int) + rev@.reverse(),
        decreases u,
    {
        let d: u8 = 48 + (u % 10) as u8;
        let ghost pre_rev = rev@;
        rev.push(d);
        proof {
            assert(rev@.reverse() =~= seq![d] + pre_rev.reverse());
            assert(dec_bytes(u as int) == dec_bytes(u as int / 10).push(d));
            assert(dec_bytes(u as int / 10) + rev@.reverse() =~= dec_bytes(u as int)
                + pre_rev.reverse());
        }
        u = u / 10;
    }
    out.push(48 + u as u8);
    proof {
        assert(dec_bytes(u as int) =~= seq![(48 + u as int) as u8]);
        assert(out@ =~= sign + dec_bytes(u as int));
        assert(out@ =~= sign + dec_bytes(u0).take(1));
    }
    let mut t: usize = 0;
    let n = rev.len();
    while t < n
        invariant
            t <= n,
            n == rev@.len(),
            u < 10,
            dec_bytes(u0) == dec_bytes(u as int) + rev@.reverse(),
            out@ == sign + dec_bytes(u0).take(dec_bytes(u0).len() - (n - t)),
            dec_bytes(u0).len() == 1 + n,
        decreases n - t,
    {
        let b = rev[n - 1 - t];
        let ghost pre_out = out@;
        out.push(b);
        proof {
            assert(rev@.reverse()[t as int] == rev@[n - 1 - t]);
            assert(dec_bytes(u0)[1 + t] == rev@.reverse()[t as int]);
            assert(out@ =~= sign + dec_bytes(u0).take(dec_bytes(u0).len() - (n - t) + 1));
        }
        t += 1;
    }
    proof {
        assert(dec_bytes(u0).take(dec_bytes(u0).len() as int) =~= dec_bytes(u0));
        assert(out@ =~= int_bytes(x as int));
    }
    out
}

/// The text of row `i` from column `j` on: elements in decimal,
/// tab-separated.
pub open spec fn row_bytes(m: MatView<i64>, i: int, j: int) -> Seq<u8>
    decreases m.cols - j,
{
    if j < 0 || j >= m.cols {
        Seq::empty()
    } else if j == m.cols - 1 {
        int_bytes(m.entry(i, j) as int)
    } else {
        int_bytes(m.entry(i, j) as int) + seq![9u8] + row_bytes(m, i, j + 1)
    }
}

/// The text of the rows from `i` on: each row tab-separated and
/// newline-terminated.
pub open spec fn rows_bytes(m: MatView<i64>, i: int) -> Seq<u8>
    decreases m.rows - i,
{
    if i < 0 || i >= m.rows {
        Seq::empty()
    } else {
        row_bytes(m, i, 0) + seq![10u8] + rows_bytes(m, i + 1)
    }
}

/// The whole matrix as text: tab-separated elements per row,
/// newline-terminated rows.
pub open spec fn tsv_bytes(m: MatView<i64>) -> Seq<u8> {
    rows_bytes(m, 0)
}

/// Relies on String::from_utf8: a sequence of ASCII bytes decodes to
/// the string whose characters are exactly those bytes.
#[verifier::external_body]
fn ascii_to_string(bytes: Vec<u8>) -> (r: String)
    requires
        forall|k: int| 0 <= k < bytes@.len() ==> bytes@[k] < 128,
    ensures
        r@.len() == bytes@.len(),
        forall|k: int| 0 <= k < bytes@.len() ==> r@[k] == bytes@[k] as char,
{
    String::from_utf8(bytes).unwrap()
}

impl Mat<i64> {
    /// The matrix rendered as ASCII bytes: tab-separated elements per
    /// row, newline-terminated rows.
    pub fn to_tsv_bytes(&self) -> (r: Vec<u8>)
        requires
            self.wf(),
        ensures
            r@ == tsv_bytes(self@),
    {
        let mut out: Vec<u8> = Vec::new();
        let rows = self.nrows();
        let cols = self.ncols();
        let mut i: usize = 0;
        while i < rows
            invariant
                i <= rows,
                self.wf(),
                rows == self@.rows,
                cols == self@.cols,
                tsv_bytes(self@) == out@ + rows_bytes(self@, i as int),
            decreases rows - i,
        {
            let mut j: usize = 0;
            while j < cols
                invariant
                    i < rows,
                    j <= cols,
                    self.wf(),
                    rows == self@.rows,
                    cols == self@.cols,
                    tsv_bytes(self@) == out@ + row_bytes(self@, i as int, j as int) + seq![10u8]
                        + rows_bytes(self@, i as int + 1),
                decreases cols - j,
            {
                let elem = i64_text(*self.at(i, j));
                let ghost pre = out@;
                let mut b: usize = 0;
                let en = elem.len();
                while b < en
                    invariant
                        b <= en,
                        en == elem@.len(),
                        out@ == pre + elem@.take(b as int),
                    decreases en - b,
                {
                    out.push(elem[b]);
                    proof {
                        assert(out@ =~= pre + elem@.take(b as int + 1));
                    }
                    b += 1;
                }
                proof {
                    assert(elem@.take(en as int) =~= elem@);
                }
                if j + 1 < cols {
                    out.push(9u8);
                    proof {
                        assert(row_bytes(self@, i as int, j as int) =~= int_bytes(
                            self@.entry(i as int, j as int) as int,
                        ) + seq![9u8] + row_bytes(self@, i as int, j as int + 1));
                        assert(out@ =~= pre + int_bytes(self@.entry(i as int, j as int) as int)
                            + seq![9u8]);
                        assert(tsv_bytes(self@) =~= out@ + row_bytes(self@, i as int, j as int + 1)
                            + seq![10u8] + rows_bytes(self@, i as int + 1));
                    }
                } else {
                    proof {
                        assert(row_bytes(self@, i as int, j as int) =~= int_bytes(
                            self@.entry(i as int, j as int) as int,
                        ));
                        assert(row_bytes(self@, i as int, j as int + 1) =~= Seq::<u8>::empty());
                        assert(tsv_bytes(self@) =~= out@ + row_bytes(self@, i as int, j as int + 1)
                            + seq![10u8] + rows_bytes(self@, i as int + 1));
                    }
                }
                j += 1;
            }
            out.push(10u8);
            proof {
                assert(row_bytes(self@, i as int, cols as int) =~= Seq::<u8>::empty());
                assert(tsv_bytes(self@) =~= out@ + rows_bytes(self@, i as int + 1));
            }
            i += 1;
        }
        proof {
            assert(rows_bytes(self@, rows as int) =~= Seq::<u8>::empty());
            assert(out@ =~= tsv_bytes(self@));
        }
        out
    }

    /// The matrix rendered as a string: tab-separated elements per
    /// row, newline-terminated rows.
    pub fn to_tsv(&self) -> (r: String)
        requires
            self.wf(),
        ensures
            r@.len() == tsv_bytes(self@).len(),
            forall|k: int|
                0 <= k < tsv_bytes(self@).len() ==> r@[k] == (#[trigger] tsv_bytes(self@)[k]) as char,
    {
        let bytes = self.to_tsv_bytes();
        proof {
            lemma_tsv_bytes_ascii(self@);
        }
        ascii_to_string(bytes)
    }
}

/// Every byte of a row rendering is ASCII.
proof fn lemma_row_bytes_ascii(m: MatView<i64>, i: int, j: int)
    ensures
        forall|k: int| 0 <= k < row_bytes(m, i, j).len() ==> (#[trigger] row_bytes(m, i, j)[k])
            < 128,
    decreases m.cols - j,
{
    if 0 <= j && j < m.cols {
        lemma_int_bytes_ascii(m.entry(i, j) as int);
        if j != m.cols - 1 {
            lemma_row_bytes_ascii(m, i, j + 1);
            let e = int_bytes(m.entry(i, j) as int);
            assert forall|k: int| 0 <= k < row_bytes(m, i, j).len() implies (#[trigger] row_bytes(
                m,
                i,
                j,
            )[k]) < 128 by {
                if k < e.len() {
                    assert(row_bytes(m, i, j)[k] == e[k]);
                } else if k == e.len() {
                    assert(row_bytes(m, i, j)[k] == 9u8);
                } else {
                    assert(row_bytes(m, i, j)[k] == row_bytes(m, i, j + 1)[k - e.len() - 1]);
                }
            }
        }
    }
}

/// Every byte of a signed decimal rendering is ASCII.
proof fn lemma_int_bytes_ascii(v: int)
    ensures
        forall|k: int| 0 <= k < int_bytes(v).len() ==> (#[trigger] int_bytes(v)[k]) < 128,
{
    if v < 0 {
        lemma_dec_bytes_ascii(-v);
    } else {
        lemma_dec_bytes_ascii(v);
    }
}

/// Every byte of a whole-matrix rendering is ASCII.
proof fn lemma_rows_bytes_ascii(m: MatView<i64>, i: int)
    ensures
        forall|k: int| 0 <= k < rows_bytes(m, i).len() ==> (#[trigger] rows_bytes(m, i)[k]) < 128,
    decreases m.rows - i,
{
    if 0 <= i && i < m.rows {
        lemma_row_bytes_ascii(m, i, 0);
        lemma_rows_bytes_ascii(m, i + 1);
        let r = row_bytes(m, i, 0);
        assert forall|k: int| 0 <= k < rows_bytes(m, i).len() implies (#[trigger] rows_bytes(m, i)[k])
            < 128 by {
            if k < r.len() {
                assert(rows_bytes(m, i)[k] == r[k]);
            } else if k == r.len() {
                assert(rows_bytes(m, i)[k] == 10u8);
            } else {
                assert(rows_bytes(m, i)[k] == rows_bytes(m, i + 1)[k - r.len() - 1]);
            }
        }
    }
}

/// Every byte of the tab-separated rendering is ASCII.
proof fn lemma_tsv_bytes_ascii(m: MatView<i64>)
    ensures
        forall|k: int| 0 <= k < tsv_bytes(m).len() ==> (#[trigger] tsv_bytes(m)[k]) < 128,
{
    lemma_rows_bytes_ascii(m, 0);
}

} // verus!
