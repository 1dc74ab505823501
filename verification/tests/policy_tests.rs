use std::time::{Duration, Instant};

use splaycast::buffer_policy::{
    BufferAgePolicy, BufferInstruction, BufferLengthPolicy, BufferPolicy, BufferPolicyExtension,
    BufferWeightPolicy,
};

#[test]
fn buffer_age_policy_test() {
    let time = Instant::now();
    let mut policy = BufferAgePolicy::new(1000, move |_: &usize| {
        time.elapsed().as_millis() as u64
    });

    assert_eq!(policy.buffer_tail_policy(&0), BufferInstruction::Retain);

    let time = Instant::now() - Duration::from_secs(2);
    let mut policy = BufferAgePolicy::new(1000, move |_: &usize| {
        time.elapsed().as_millis() as u64
    });

    assert_eq!(policy.buffer_tail_policy(&0), BufferInstruction::Pop);
}

#[test]
fn buffer_length_policy_test() {
    let mut policy = BufferLengthPolicy::new(2);

    assert_eq!(policy.buffer_tail_policy(&0), BufferInstruction::Retain);
    policy.on_before_send(&mut 0);

    assert_eq!(policy.buffer_tail_policy(&0), BufferInstruction::Retain);
    policy.on_before_send(&mut 0);

    assert_eq!(policy.buffer_tail_policy(&0), BufferInstruction::Pop);
    policy.on_after_pop(&mut 0);
    policy.on_before_send(&mut 0);

    assert_eq!(policy.buffer_tail_policy(&0), BufferInstruction::Pop);
    policy.on_after_pop(&mut 0);

    assert_eq!(policy.buffer_tail_policy(&0), BufferInstruction::Retain);
}

#[test]
fn buffer_weight_policy_test() {
    // just treat the new item as a weight
    let mut policy = BufferWeightPolicy::new(2, |item: &usize| *item);

    policy.on_before_send(&mut 0);
    assert_eq!(policy.buffer_tail_policy(&0), BufferInstruction::Retain);

    policy.on_before_send(&mut 1);
    assert_eq!(policy.buffer_tail_policy(&1), BufferInstruction::Retain);

    policy.on_before_send(&mut 2);
    assert_eq!(policy.buffer_tail_policy(&2), BufferInstruction::Pop);

    policy.on_after_pop(&mut 1);
    assert_eq!(policy.buffer_tail_policy(&3), BufferInstruction::Retain);

    policy.on_before_send(&mut 1);
    assert_eq!(policy.buffer_tail_policy(&4), BufferInstruction::Pop);
}

#[test]
fn composite_policy_pops_when_either_says_pop() {
    // A length bound of 3 above a weight bound of 2: whichever answers
    // Pop first wins, the length policy being consulted first.
    let length = BufferLengthPolicy::new(3);
    let weight = BufferWeightPolicy::new(2, |item: &usize| *item);
    let mut policy = BufferPolicyExtension::<usize, _>::wrap(length, weight);

    policy.on_before_send(&mut 1);
    assert_eq!(policy.buffer_tail_policy(&1), BufferInstruction::Retain);

    // Weight 1 + 2 = 3 exceeds the weight limit while the length (2) is
    // still under its bound: the lower policy pops.
    policy.on_before_send(&mut 2);
    assert_eq!(policy.buffer_tail_policy(&1), BufferInstruction::Pop);
    policy.on_after_pop(&mut 1);
    policy.on_after_pop(&mut 2);

    // Three light items fill the length bound while the weight stays 0:
    // the upper policy pops.
    policy.on_before_send(&mut 0);
    policy.on_before_send(&mut 0);
    policy.on_before_send(&mut 0);
    assert_eq!(policy.buffer_tail_policy(&0), BufferInstruction::Pop);
    policy.on_after_pop(&mut 0);
    assert_eq!(policy.buffer_tail_policy(&0), BufferInstruction::Retain);
}
