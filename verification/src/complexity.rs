//! The classes of running time a submission is put in, and the reshaping of
//! measurements that goes with estimating it.
use vstd::prelude::*;

verus! {

/// How the running time of a solution grows with its input, from the slowest
/// growth class to the fastest.
#[derive(Clone, Copy, Debug, PartialEq, Eq, PartialOrd, Ord, Structural)]
pub enum AsymptoticComplexity {
    Exponential,
    Quadratic,
    LogLinear,
    Linear,
    Sqrt,
    Log,
    Constant,
}

/// The rows of `list` read as columns: row `j` of the result holds the `j`-th
/// element of every row of `list`, in order. There are as many result rows as
/// `list`'s first row has elements; every row must have at least that many.
pub fn transpose<T>(list: Vec<Vec<T>>) -> (r: Vec<Vec<T>>)
    requires
        list@.len() > 0,
        forall|i: int| 0 <= i < list@.len() ==> (#[trigger] list@[i])@.len() >= list@[0]@.len(),
    ensures
        r@.len() == list@[0]@.len(),
        forall|j: int| 0 <= j < r@.len() ==> (#[trigger] r@[j])@.len() == list@.len(),
        forall|i: int, j: int|
            0 <= i < list@.len() && 0 <= j < r@.len() ==> (#[trigger] r@[j])@[i] == (#[trigger] list@[i])@[j],
{
    let len = list[0].len();
    let ghost rows = list@;
    let n = list.len();
    let mut out: Vec<Vec<T>> = Vec::new();
    let mut j: usize = 0;
    while j < len
        invariant
            j <= len,
            out@.len() == j,
            forall|k: int| 0 <= k < j ==> (#[trigger] out@[k])@.len() == 0,
        decreases len - j,
    {
        out.push(Vec::new());
        j = j + 1;
    }
    let mut list = list;
    let mut i: usize = 0;
    while i < n
        invariant
            n == rows.len(),
            len == rows[0]@.len(),
            forall|k: int| 0 <= k < rows.len() ==> (#[trigger] rows[k])@.len() >= len,
            i <= n,
            list@ == rows.skip(i as int),
            out@.len() == len,
            forall|k: int| 0 <= k < len ==> (#[trigger] out@[k])@.len() == i,
            forall|a: int, k: int| 0 <= a < i && 0 <= k < len ==> (#[trigger] out@[k])@[a] == (#[trigger] rows[a])@[k],
        decreases n - i,
    {
        let mut row = list.remove(0);
        assert(row == rows[i as int]);
        assert(list@ =~= rows.skip(i + 1));
        let ghost full = row@;
        let mut k: usize = 0;
        while k < len
            invariant
                n == rows.len(),
                i < n,
                len == rows[0]@.len(),
                full == rows[i as int]@,
                full.len() >= len,
                k <= len,
                row@ == full.skip(k as int),
                out@.len() == len,
                forall|c: int| 0 <= c < k ==> (#[trigger] out@[c])@.len() == i + 1,
                forall|c: int| k <= c < len ==> (#[trigger] out@[c])@.len() == i,
                forall|a: int, c: int| 0 <= a < i && 0 <= c < len ==> (#[trigger] out@[c])@[a] == (#[trigger] rows[a])@[c],
                forall|c: int| 0 <= c < k ==> (#[trigger] out@[c])@[i as int] == full[c],
            decreases len - k,
        {
            let x = row.remove(0);
            assert(x == full[k as int]);
            assert(row@ =~= full.skip(k + 1));
            out[k].push(x);
            k = k + 1;
        }
        i = i + 1;
    }
    out
}

} // verus!
