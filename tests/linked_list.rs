use array_address::{create_list, search, Node};

fn values(head: &Node) -> Vec<usize> {
    let mut out = vec![head.data];
    let mut cur = head;
    while let Some(next) = &cur.next {
        out.push(next.data);
        cur = next;
    }
    out
}

#[test]
fn create_list_holds_consecutive_numbers() {
    let head = create_list(5);
    assert_eq!(values(&head), vec![0, 1, 2, 3, 4]);
}

#[test]
fn create_list_of_zero_or_one_holds_zero() {
    assert_eq!(values(&create_list(0)), vec![0]);
    assert_eq!(values(&create_list(1)), vec![0]);
}

#[test]
fn search_finds_first_middle_and_last() {
    let n = 1000;
    let head = create_list(n);
    assert!(search(&head, 0));
    assert!(search(&head, n / 2));
    assert!(search(&head, n - 1));
}

#[test]
fn search_misses_values_past_the_end() {
    let head = create_list(10);
    assert!(!search(&head, 10));
    assert!(!search(&head, usize::MAX));
}
