//! Searching a slice of integers for a value.
use vstd::prelude::*;

verus! {

/// The values never decrease from left to right.
pub open spec fn sorted(s: Seq<i32>) -> bool {
    forall|i: int, j: int| 0 <= i <= j < s.len() ==> s[i] <= s[j]
}

/// Scans `arr` from the left and returns the index of the first element equal
/// to `target`, or `None` when no element is.
pub fn linear_search(arr: &[i32], target: i32) -> (r: Option<usize>)
    ensures
        match r {
            Some(i) => {
                &&& i < arr@.len()
                &&& arr@[i as int] == target
                &&& forall|j: int| 0 <= j < i ==> arr@[j] != target
            },
            None => forall|j: int| 0 <= j < arr@.len() ==> arr@[j] != target,
        },
{
    let n = arr.len();
    let mut i: usize = 0;
    while i < n
        invariant
            n == arr.len(),
            i <= n,
            forall|j: int| 0 <= j < i ==> arr@[j] != target,
        decreases n - i,
    {
        if arr[i] == target {
            return Some(i);
        }
        i = i + 1;
    }
    None
}

/// Halves the closed window `low..=high` around the middle element until it
/// finds `target` or the window is empty. Any index it returns holds `target`;
/// on a sorted slice it returns `None` exactly when no element equals `target`.
pub fn binary_search(arr: &[i32], target: i32) -> (r: Option<usize>)
    ensures
        r matches Some(i) ==> i < arr@.len() && arr@[i as int] == target,
        sorted(arr@) ==> (r is None <==> forall|j: int| 0 <= j < arr@.len() ==> arr@[j] != target),
{
    let n = arr.len();
    if n == 0 {
        return None;
    }
    let mut low: usize = 0;
    let mut high: usize = n - 1;
    while low <= high
        invariant
            n == arr.len(),
            high < n,
            low <= high + 1,
            sorted(arr@) ==> forall|j: int| 0 <= j < low ==> arr@[j] < target,
            sorted(arr@) ==> forall|j: int| high < j < n ==> arr@[j] > target,
        decreases high + 1 - low,
    {
        let mid = low + (high - low) / 2;
        if arr[mid] == target {
            return Some(mid);
        } else if arr[mid] < target {
            low = mid + 1;
        } else {
            if mid == 0 {
                return None;
            }
            high = mid - 1;
        }
    }
    None
}

} // verus!
