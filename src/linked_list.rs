//! A singly linked list of consecutive numbers, and a search along it.
use vstd::prelude::*;

verus! {

/// One cell of a singly linked list.
#[derive(Debug)]
pub struct Node {
    pub data: usize,
    pub next: Option<Box<Node>>,
}

impl Node {
    /// The values held from this node to the end of the list, in order.
    pub open spec fn values(self) -> Seq<usize>
        decreases self,
    {
        match self.next {
            Some(next) => seq![self.data] + next.values(),
            None => seq![self.data],
        }
    }
}

/// A value is in the list when it is this node's or it is further along.
proof fn lemma_values_contains(node: Node, target: usize)
    ensures
        node.values().len() >= 1,
        node.values()[0] == node.data,
        node.values().contains(target) <==> (node.data == target || match node.next {
            Some(next) => next.values().contains(target),
            None => false,
        }),
{
    let v = node.values();
    match node.next {
        Some(next) => {
            let w = next.values();
            assert(v =~= seq![node.data] + w);
            if w.contains(target) {
                let j = choose|j: int| 0 <= j < w.len() && w[j] == target;
                assert(v[j + 1] == target);
            }
            if v.contains(target) && node.data != target {
                let j = choose|j: int| 0 <= j < v.len() && v[j] == target;
                assert(w[j - 1] == target);
            }
        },
        None => {
            if node.data == target {
                assert(v[0] == target);
            }
        },
    }
}

/// Builds the list `0, 1, ..., n - 1`; for `n == 0` the list holds the one value `0`.
pub fn create_list(n: usize) -> (head: Box<Node>)
    ensures
        head.values() == Seq::new(if n == 0 { 1 } else { n as nat }, |i: int| i as usize),
{
    let last: usize = if n == 0 { 0 } else { n - 1 };
    let mut head = Box::new(Node { data: last, next: None });
    let mut i: usize = last;
    assert(head.values() =~= Seq::new((last - i + 1) as nat, |k: int| (i + k) as usize));
    while i > 0
        invariant
            i <= last,
            last < usize::MAX,
            head.values() =~= Seq::new((last - i + 1) as nat, |k: int| (i + k) as usize),
        decreases i,
    {
        i = i - 1;
        let ghost old_values = head.values();
        head = Box::new(Node { data: i, next: Some(head) });
        assert(head.values() =~= seq![i] + old_values);
        assert(head.values() =~= Seq::new((last - i + 1) as nat, |k: int| (i + k) as usize));
    }
    head
}

/// Walks the list from `head` and tells whether some node holds `target`.
pub fn search(head: &Box<Node>, target: usize) -> (found: bool)
    ensures
        found == head.values().contains(target),
{
    let mut cur: &Box<Node> = head;
    loop
        invariant
            head.values().contains(target) == cur.values().contains(target),
        decreases cur.values().len(),
    {
        proof {
            lemma_values_contains(**cur, target);
        }
        if cur.data == target {
            return true;
        }
        match &cur.next {
            Some(next) => {
                proof {
                    lemma_values_contains(**next, target);
                }
                cur = next;
            },
            None => {
                return false;
            },
        }
    }
}

} // verus!
