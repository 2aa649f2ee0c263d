use partons::block::{Block, PidNotFound};
use partons::member::Member;

fn tokens(v: &[&str]) -> Vec<String> {
    v.iter().map(|s| String::from(*s)).collect()
}

#[test]
fn block_pid_lookup() {
    let block = Block::new(
        vec![-1, 1, 21],
        tokens(&["0.1"]),
        tokens(&["10"]),
        tokens(&["1", "2", "3"]),
    );
    assert_eq!(block.pid_index(21), Ok(2));
    assert_eq!(block.pid_index(-1), Ok(0));
    assert_eq!(block.pid_index(99), Err(PidNotFound(99)));
}

#[test]
fn value_layout_is_pid_major() {
    let block = Block::new(
        vec![1, 2],
        tokens(&["0.1", "0.5"]),
        tokens(&["10"]),
        tokens(&["a1", "a2", "b1", "b2"]),
    );
    assert_eq!(block.value_at(0, 0, 0), "a1");
    assert_eq!(block.value_at(0, 1, 0), "a2");
    assert_eq!(block.value_at(1, 0, 0), "b1");
    assert_eq!(block.value_at(1, 1, 0), "b2");
}

#[test]
fn composite_block_index() {
    assert_eq!(Member::block_index(0, 3), 0);
    assert_eq!(Member::block_index(0, 6), 3);
    assert_eq!(Member::block_index(1, 3), 4);
    assert_eq!(Member::block_index(2, 5), 10);
}
