use operation_pool::ancestor_accumulator::{AncestorAccumulator, Error, INITIAL_ANCESTORS};

fn root(n: u8) -> [u8; 32] {
    [n; 32]
}

/// Asks the accumulator, reading the chain of ancestors from `chain` as far
/// as it must; returns the answer and how many ancestors were read.
fn ask(
    accumulator: &mut AncestorAccumulator,
    chain: &mut std::slice::Iter<([u8; 32], u64)>,
    block_root: [u8; 32],
    block_slot: u64,
) -> Result<(bool, usize), Error> {
    if let Some(answer) = accumulator.contains(block_root, block_slot)? {
        return Ok((answer, 0));
    }
    let mut read = 0;
    loop {
        let next = chain.next().copied();
        read += 1;
        if let Some(answer) = accumulator.observe(block_root, block_slot, next) {
            return Ok((answer, read));
        }
    }
}

#[test]
fn ancestors_are_read_only_as_far_as_needed() {
    assert_eq!(INITIAL_ANCESTORS, 320);
    // The head is at slot 10; its ancestors at 9, 8, 6, 5 and 3.
    let ancestors = vec![(root(9), 9), (root(8), 8), (root(6), 6), (root(5), 5), (root(3), 3)];
    let mut chain = ancestors.iter();
    let mut accumulator = AncestorAccumulator::new(root(10), 10);

    assert_eq!(
        ask(&mut accumulator, &mut chain, root(11), 11),
        Err(Error::SlotTooHigh { slot: 11, head: 10 })
    );
    // The head is its own ancestor.
    assert_eq!(ask(&mut accumulator, &mut chain, root(10), 10), Ok((true, 0)));
    // Another block at the slot of the head is none.
    assert_eq!(ask(&mut accumulator, &mut chain, root(77), 10), Ok((false, 0)));

    assert_eq!(ask(&mut accumulator, &mut chain, root(8), 8), Ok((true, 2)));
    assert_eq!(accumulator.lowest_slot, 8);
    assert_eq!(accumulator.ancestors, vec![root(9), root(8)]);
    assert_eq!(ask(&mut accumulator, &mut chain, root(9), 9), Ok((true, 0)));
    assert_eq!(ask(&mut accumulator, &mut chain, root(70), 9), Ok((false, 0)));

    // A block of a skipped slot: the ancestor at 6 is older than the block,
    // ends the reading and is not taken in.
    assert_eq!(ask(&mut accumulator, &mut chain, root(7), 7), Ok((false, 1)));
    assert_eq!(accumulator.lowest_slot, 8);
    assert_eq!(accumulator.ancestors, vec![root(9), root(8)]);

    // A wrong root at the right slot: the ancestors at 5 and 3 are taken in,
    // and then none is left.
    assert_eq!(ask(&mut accumulator, &mut chain, root(30), 3), Ok((false, 3)));
    assert_eq!(accumulator.lowest_slot, 3);
    assert!(accumulator.is_known(&root(3)));
    assert!(accumulator.is_known(&root(5)));
    assert!(!accumulator.is_known(&root(6)));
    assert_eq!(ask(&mut accumulator, &mut chain, root(1), 1), Ok((false, 1)));
}

#[test]
fn an_ancestor_is_held_once() {
    let mut accumulator = AncestorAccumulator::new(root(10), 10);
    assert_eq!(accumulator.observe(root(1), 1, Some((root(9), 9))), None);
    assert_eq!(accumulator.observe(root(1), 1, Some((root(9), 8))), None);
    assert_eq!(accumulator.ancestors, vec![root(9)]);
    assert_eq!(accumulator.lowest_slot, 8);
    assert_eq!(accumulator.observe(root(1), 1, None), Some(false));
    assert_eq!(accumulator.observe(root(1), 1, Some((root(1), 1))), Some(true));
}
