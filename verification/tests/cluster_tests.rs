use cst::cluster::{choose_action, first_client_id, key_owner_ids, run_mode, Action, RunMode};
use cst::keys::{key_slots, take_key_slot};

#[test]
fn even_draws_ask_for_sqrt_odd_for_doubling() {
    assert_eq!(choose_action(0), Action::Sqrt);
    assert_eq!(choose_action(2), Action::Sqrt);
    assert_eq!(choose_action(7), Action::MultiplyByTwo);
    assert_eq!(choose_action(u64::MAX), Action::MultiplyByTwo);
    assert_eq!(choose_action(u64::MAX - 1), Action::Sqrt);
}

#[test]
fn first_client_is_the_smallest_id() {
    assert_eq!(first_client_id(&vec![1003, 1000, 1002]), 1000);
    assert_eq!(first_client_id(&vec![5]), 5);
    assert_eq!(first_client_id(&vec![]), u32::MAX);
    assert_eq!(first_client_id(&vec![u32::MAX, u32::MAX]), u32::MAX);
}

#[test]
fn key_owners_are_clients_then_replicas() {
    assert_eq!(key_owner_ids(2, 3), vec![1000, 1001, 0, 1, 2]);
    assert_eq!(key_owner_ids(0, 4), vec![0, 1, 2, 3]);
    assert_eq!(key_owner_ids(1, 0), vec![1000]);
    assert!(key_owner_ids(0, 0).is_empty());
}

#[test]
fn run_mode_follows_the_flags() {
    let one = || Some("1".to_string());
    assert_eq!(run_mode(None, None), RunMode::AllReplicas);
    assert_eq!(run_mode(None, one()), RunMode::SingleReplica);
    assert_eq!(run_mode(one(), None), RunMode::Clients);
    assert_eq!(run_mode(one(), one()), RunMode::Clients);
    assert_eq!(run_mode(Some("0".to_string()), Some("true".to_string())), RunMode::AllReplicas);
    assert_eq!(run_mode(Some("11".to_string()), Some(" 1".to_string())), RunMode::AllReplicas);
    assert_eq!(run_mode(Some(String::new()), one()), RunMode::SingleReplica);
}

#[test]
fn key_slots_map_each_owner_to_its_first_key() {
    let mut slots = key_slots(&vec![1000, 1001, 0, 1, 1000]);
    assert_eq!(take_key_slot(&mut slots, 1001), Some(1));
    assert_eq!(take_key_slot(&mut slots, 1000), Some(0));
    assert_eq!(take_key_slot(&mut slots, 1), Some(3));
    assert_eq!(take_key_slot(&mut slots, 0), Some(2));
    assert_eq!(take_key_slot(&mut slots, 2), None);
}

#[test]
fn a_key_slot_is_taken_once() {
    let mut slots = key_slots(&vec![4, 5]);
    assert_eq!(take_key_slot(&mut slots, 5), Some(1));
    assert_eq!(take_key_slot(&mut slots, 5), None);
    assert_eq!(take_key_slot(&mut slots, 4), Some(0));
    assert_eq!(take_key_slot(&mut slots, 4), None);
}

#[test]
fn no_owners_no_slots() {
    let mut slots = key_slots(&vec![]);
    assert_eq!(take_key_slot(&mut slots, 0), None);
}
