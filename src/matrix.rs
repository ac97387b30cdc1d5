//! Marshalling of two-dimensional data across the native call surface: shape checks,
//! row-major flattening, and the reshaping of prediction output.
//!
//! The element type is a parameter: the logic here moves values, it never reads them.
use vstd::prelude::*;
use crate::error::{ErrorKind, LgbmError};
use crate::params::nat_to_text;

verus! {

/// The largest row or column count that the native engine accepts (its `int` width).
pub const MAX_DIMENSION: usize = 0x7fff_ffff;

/// The rows of a matrix, each as a sequence.
pub open spec fn rows_of<T>(m: Seq<Vec<T>>) -> Seq<Seq<T>> {
    m.map_values(|row: Vec<T>| row@)
}

/// Every row has `cols` elements.
pub open spec fn is_rectangular<T>(m: Seq<Seq<T>>, cols: int) -> bool {
    forall|i: int| 0 <= i < m.len() ==> #[trigger] m[i].len() == cols
}

/// A matrix with at least one row, at least one column, and rows of equal length.
pub open spec fn is_well_formed<T>(m: Seq<Seq<T>>) -> bool {
    m.len() > 0 && m[0].len() > 0 && is_rectangular(m, m[0].len() as int)
}

/// The rows of `m` laid end to end.
pub open spec fn flat<T>(m: Seq<Seq<T>>) -> Seq<T>
    decreases m.len(),
{
    if m.len() == 0 {
        Seq::empty()
    } else {
        flat(m.drop_last()) + m.last()
    }
}

/// `m` cut into consecutive pieces of `width` elements (the last one may be shorter).
pub open spec fn chunks<T>(m: Seq<T>, width: nat) -> Seq<Seq<T>>
    decreases m.len(),
{
    if m.len() == 0 || width == 0 {
        Seq::empty()
    } else if m.len() <= width {
        seq![m]
    } else {
        seq![m.take(width as int)] + chunks(m.skip(width as int), width)
    }
}

/// The shape of the output of a prediction: one row per class when the model has more
/// than one output per sample, otherwise a single row of all outputs.
pub open spec fn reshaped<T>(out: Seq<T>, num_classes: int) -> Seq<Seq<T>> {
    if num_classes > 1 {
        chunks(out, num_classes as nat)
    } else {
        seq![out]
    }
}

/// Both counts fit the native engine's signed 32-bit integers.
pub open spec fn fits_native(rows: int, cols: int) -> bool {
    rows <= MAX_DIMENSION && cols <= MAX_DIMENSION
}

/// Checks that a row count and a column count fit the native engine's integer width and
/// returns them converted.
pub fn check_dimensions(rows: usize, cols: usize) -> (r: Result<(i32, i32), LgbmError>)
    ensures
        r is Ok <==> fits_native(rows as int, cols as int),
        r matches Ok(p) ==> p.0 == rows && p.1 == cols,
        r matches Err(e) ==> e.kind == ErrorKind::Dimension,
{
    if rows > MAX_DIMENSION || cols > MAX_DIMENSION {
        let mut desc = String::from_str("received a matrix of size ");
        desc.append(nat_to_text(rows as u64).as_str());
        desc.append("x");
        desc.append(nat_to_text(cols as u64).as_str());
        desc.append(", but at most 2147483647x2147483647 is supported");
        Err(LgbmError::new(ErrorKind::Dimension, desc))
    } else {
        Ok((rows as i32, cols as i32))
    }
}

/// The row and column counts of a well-formed matrix; a `Dimension` error for an empty
/// or ragged one.
pub fn matrix_shape<T>(m: &Vec<Vec<T>>) -> (r: Result<(usize, usize), LgbmError>)
    ensures
        r is Ok <==> is_well_formed(rows_of(m@)),
        r matches Ok(p) ==> p.0 == m@.len() && p.1 == m@[0]@.len(),
        r matches Err(e) ==> e.kind == ErrorKind::Dimension,
{
    if m.len() == 0 || m[0].len() == 0 {
        return Err(LgbmError::new(ErrorKind::Dimension, String::from_str("matrix is empty")));
    }
    let cols = m[0].len();
    let mut i: usize = 0;
    while i < m.len()
        invariant
            0 <= i <= m@.len(),
            cols == m@[0]@.len(),
            forall|k: int| 0 <= k < i ==> #[trigger] m@[k]@.len() == cols,
        decreases m@.len() - i,
    {
        if m[i].len() != cols {
            proof {
                assert(rows_of(m@)[i as int].len() != cols);
            }
            return Err(LgbmError::new(ErrorKind::Dimension, String::from_str("matrix rows differ in length")));
        }
        i += 1;
    }
    proof {
        assert forall|k: int| 0 <= k < m@.len() implies #[trigger] rows_of(m@)[k].len() == cols by {
            assert(m@[k]@.len() == cols);
        }
    }
    Ok((m.len(), cols))
}

/// The rows of `m` laid end to end, as the native engine reads a row-major matrix.
pub fn flatten<T: Copy>(m: &Vec<Vec<T>>) -> (r: Vec<T>)
    ensures
        r@ == flat(rows_of(m@)),
{
    let mut out: Vec<T> = Vec::new();
    let mut i: usize = 0;
    while i < m.len()
        invariant
            0 <= i <= m@.len(),
            out@ == flat(rows_of(m@.take(i as int))),
        decreases m@.len() - i,
    {
        let row = &m[i];
        let mut j: usize = 0;
        while j < row.len()
            invariant
                0 <= j <= row@.len(),
                row == m@[i as int],
                i < m@.len(),
                out@ == flat(rows_of(m@.take(i as int))) + row@.take(j as int),
            decreases row@.len() - j,
        {
            out.push(row[j]);
            proof {
                assert(row@.take(j as int).push(row@[j as int]) =~= row@.take(j + 1 as int));
            }
            j += 1;
        }
        proof {
            let next = rows_of(m@.take(i + 1 as int));
            assert(next.drop_last() =~= rows_of(m@.take(i as int)));
            assert(row@.take(j as int) =~= row@);
        }
        i += 1;
    }
    proof {
        assert(m@.take(m@.len() as int) =~= m@);
    }
    out
}

/// The elements of `v` from `from` up to, not including, `to`.
pub fn copy_range<T: Copy>(v: &Vec<T>, from: usize, to: usize) -> (r: Vec<T>)
    requires
        from <= to <= v@.len(),
    ensures
        r@ == v@.subrange(from as int, to as int),
{
    let mut out: Vec<T> = Vec::new();
    let mut k: usize = from;
    while k < to
        invariant
            from <= k <= to <= v@.len(),
            out@ == v@.subrange(from as int, k as int),
        decreases to - k,
    {
        out.push(v[k]);
        proof {
            assert(v@.subrange(from as int, k as int).push(v@[k as int]) =~= v@.subrange(
                from as int,
                k + 1 as int,
            ));
        }
        k += 1;
    }
    out
}

/// Shapes the flat output of a prediction: for a model with more than one output per
/// sample, one row of `num_classes` values per sample; otherwise one row of all outputs.
pub fn reshape<T: Copy>(out: Vec<T>, num_classes: i32) -> (r: Vec<Vec<T>>)
    ensures
        rows_of(r@) == reshaped(out@, num_classes as int),
{
    if num_classes > 1 {
        let width = num_classes as usize;
        let mut res: Vec<Vec<T>> = Vec::new();
        let mut start: usize = 0;
        proof {
            assert(out@.skip(0) =~= out@);
            assert(rows_of(res@) =~= Seq::<Seq<T>>::empty());
            assert(rows_of(res@) + chunks(out@, width as nat) =~= chunks(out@, width as nat));
        }
        while start < out.len()
            invariant
                width == num_classes > 1,
                start <= out@.len(),
                rows_of(res@) + chunks(out@.skip(start as int), width as nat) == chunks(
                    out@,
                    width as nat,
                ),
            decreases out@.len() - start,
        {
            let rest = Ghost(out@.skip(start as int));
            let end = if out.len() - start <= width {
                out.len()
            } else {
                start + width
            };
            let piece = copy_range(&out, start, end);
            proof {
                if rest@.len() <= width {
                    assert(piece@ =~= rest@);
                    assert(out@.skip(end as int) =~= Seq::<T>::empty());
                } else {
                    assert(piece@ =~= rest@.take(width as int));
                    assert(rest@.skip(width as int) =~= out@.skip(end as int));
                }
                assert(rows_of(res@.push(piece)) =~= rows_of(res@).push(piece@));
            }
            res.push(piece);
            proof {
                let w = width as nat;
                assert(rows_of(res@) + chunks(out@.skip(end as int), w) =~= rows_of(res@).drop_last() + chunks(rest@, w));
            }
            start = end;
        }
        proof {
            assert(out@.skip(start as int) =~= Seq::<T>::empty());
            assert(rows_of(res@) + Seq::<Seq<T>>::empty() =~= rows_of(res@));
        }
        res
    } else {
        let ghost o = out@;
        let res = vec![out];
        proof {
            assert(rows_of(res@) =~= seq![o]);
        }
        res
    }
}

} // verus!
