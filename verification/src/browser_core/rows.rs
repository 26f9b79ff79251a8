//! Rows read back from the browser database.
use vstd::prelude::*;

verus! {

/// The rows that could be read, in order; rows that failed to decode are skipped.
pub open spec fn present<T>(rows: Seq<Option<T>>) -> Seq<T>
    decreases rows.len(),
{
    if rows.len() == 0 {
        Seq::empty()
    } else {
        match rows.last() {
            Some(x) => present(rows.drop_last()).push(x),
            None => present(rows.drop_last()),
        }
    }
}

/// Keeps the rows that could be read.
pub fn keep_present<T>(rows: Vec<Option<T>>) -> (r: Vec<T>)
    ensures
        r@ == present(rows@),
{
    let mut rows = rows;
    let ghost all = rows@;
    let n = rows.len();
    let mut out: Vec<T> = Vec::new();
    let mut k: usize = 0;
    assert(all.subrange(0, 0) =~= Seq::<Option<T>>::empty());
    assert(all.subrange(0, n as int) =~= all);
    while rows.len() > 0
        invariant
            k + rows.len() == n == all.len(),
            rows@ == all.subrange(k as int, n as int),
            out@ == present(all.subrange(0, k as int)),
        decreases rows.len(),
    {
        let x = rows.remove(0);
        assert(all.subrange(0, k + 1).drop_last() =~= all.subrange(0, k as int));
        assert(x == all[k as int]);
        match x {
            Some(v) => {
                out.push(v);
            },
            None => {},
        }
        k = k + 1;
        assert(rows@ =~= all.subrange(k as int, n as int));
    }
    assert(all.subrange(0, k as int) =~= all);
    out
}

} // verus!
