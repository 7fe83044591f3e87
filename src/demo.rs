use vstd::prelude::*;

verus! {

/// A fixed greeting code.
pub fn greet() -> (r: i32)
    ensures
        r == 57,
{
    57
}

/// The integers from 1 up to, not including, `n`.
pub fn new_vec(n: i32) -> (r: Vec<i32>)
    ensures
        r@.len() == if n > 1 { n - 1 } else { 0 },
        forall|i: int| 0 <= i < r@.len() ==> #[trigger] r@[i] == i + 1,
{
    let mut r: Vec<i32> = Vec::new();
    let mut k: i32 = 1;
    while k < n
        invariant
            1 <= k,
            k <= n || k == 1,
            r@.len() == k - 1,
            forall|i: int| 0 <= i < r@.len() ==> #[trigger] r@[i] == i + 1,
        decreases n - k,
    {
        r.push(k);
        k = k + 1;
    }
    r
}

/// Each element doubled.
pub fn vinvout(v: Vec<i32>) -> (r: Vec<i32>)
    requires
        forall|i: int| 0 <= i < v@.len() ==> i32::MIN <= 2 * #[trigger] v@[i] <= i32::MAX,
    ensures
        r@.len() == v@.len(),
        forall|i: int| 0 <= i < v@.len() ==> #[trigger] r@[i] == 2 * v@[i],
{
    let mut r: Vec<i32> = Vec::new();
    let mut i: usize = 0;
    while i < v.len()
        invariant
            i <= v@.len(),
            forall|j: int| 0 <= j < v@.len() ==> i32::MIN <= 2 * #[trigger] v@[j] <= i32::MAX,
            r@.len() == i,
            forall|j: int| 0 <= j < i ==> #[trigger] r@[j] == 2 * v@[j],
        decreases v.len() - i,
    {
        r.push(2 * v[i]);
        i = i + 1;
    }
    r
}

} // verus!
