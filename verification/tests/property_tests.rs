//! Concrete checks of the engine's guarantees: genesis shape, one-shot
//! registration, all-or-nothing failures, transfer conservation, retirement
//! finality, and the end-to-end marketplace flow.

use bonsai_garden::addr::Addr;
use bonsai_garden::contract::{handle, init, query_all_gardeners, query_bonsais, query_gardener, ContractState};
use bonsai_garden::errors::MyCustomError;
use bonsai_garden::msg::{Attribute, BankMsg, Env, HandleMsg, InitMsg, MessageInfo};
use bonsai_garden::state::Coin;

const BOND_DENOM: &str = "bonsai";

fn coin(amount: u128, denom: &str) -> Coin {
    Coin::new(amount, denom.to_string())
}

fn coins(amount: u128, denom: &str) -> Vec<Coin> {
    vec![coin(amount, denom)]
}

fn addr(s: &str) -> Addr {
    Addr::new(s.as_bytes().to_vec())
}

fn mock_env_height(height: u64) -> Env {
    Env {
        block_height: height,
        contract_address: addr("contract"),
    }
}

fn mock_info(sender: &str, sent_funds: Vec<Coin>) -> MessageInfo {
    MessageInfo {
        sender: addr(sender),
        sent_funds,
    }
}

fn setup(price: Coin, number: u64) -> ContractState {
    let env = mock_env_height(100);
    let info = mock_info("creator", vec![]);
    let (state, _res) = init(&env, &info, InitMsg { price, number }).unwrap();
    state
}

fn register(state: &mut ContractState, who: &str, name: &str) {
    let env = mock_env_height(100);
    let info = mock_info(who, vec![]);
    let msg = HandleMsg::BecomeGardener { name: name.to_string() };
    handle(state, &env, &info, msg, None).unwrap();
}

fn total_owned(state: &ContractState) -> usize {
    query_all_gardeners(state)
        .gardeners
        .iter()
        .map(|g| g.bonsais.len())
        .sum()
}

#[test]
fn genesis_grows_exactly_n_distinct_items() {
    let state = setup(coin(7, BOND_DENOM), 5);
    let bonsais = query_bonsais(&state).bonsais;
    assert_eq!(5, bonsais.len());
    for (i, b) in bonsais.iter().enumerate() {
        assert_eq!(i as u64, b.id);
        assert_eq!(100, b.birth_date);
        assert_eq!(coin(7, BOND_DENOM), b.price);
    }
    for i in 0..bonsais.len() {
        for j in (i + 1)..bonsais.len() {
            assert_ne!(bonsais[i].id, bonsais[j].id);
        }
    }
}

#[test]
fn genesis_with_zero_items() {
    let state = setup(coin(7, BOND_DENOM), 0);
    assert_eq!(0, query_bonsais(&state).bonsais.len());
    assert!(state.check_well_formed());
}

#[test]
fn register_twice_fails_and_changes_nothing() {
    let mut state = setup(coin(10, BOND_DENOM), 3);
    let env = mock_env_height(100);
    let info = mock_info("addr0001", vec![]);

    register(&mut state, "addr0001", "leo");
    let before = query_gardener(&state, &addr("addr0001")).unwrap();

    let msg = HandleMsg::BecomeGardener { name: "luca".to_string() };
    let res = handle(&mut state, &env, &info, msg, None);
    assert_eq!(Err(MyCustomError::AlreadyRegistered), res);

    // the profile kept its name and its (empty) owned list
    let after = query_gardener(&state, &addr("addr0001")).unwrap();
    assert_eq!(before, after);
    assert_eq!("leo", after.name);
    assert_eq!(0, after.bonsais.len());
}

#[test]
fn acquire_unknown_item_fails_and_changes_nothing() {
    let mut state = setup(coin(10, BOND_DENOM), 3);
    register(&mut state, "addr0001", "leo");
    let env = mock_env_height(100);
    let info = mock_info("addr0001", coins(100, BOND_DENOM));

    let pool_before = query_bonsais(&state);
    let profile_before = query_gardener(&state, &addr("addr0001")).unwrap();

    let res = handle(&mut state, &env, &info, HandleMsg::BuyBonsai { b_id: 99 }, None);
    assert_eq!(Err(MyCustomError::NotFound), res);
    assert_eq!(pool_before, query_bonsais(&state));
    assert_eq!(profile_before, query_gardener(&state, &addr("addr0001")).unwrap());
}

#[test]
fn acquire_with_too_little_money_fails_and_changes_nothing() {
    let mut state = setup(coin(10, BOND_DENOM), 3);
    register(&mut state, "addr0001", "leo");
    let env = mock_env_height(100);
    let info = mock_info("addr0001", coins(9, BOND_DENOM));

    let pool_before = query_bonsais(&state);

    let res = handle(&mut state, &env, &info, HandleMsg::BuyBonsai { b_id: 0 }, None);
    assert_eq!(Err(MyCustomError::InsufficientFunds), res);
    // the pool still contains the item and the profile is unchanged
    assert_eq!(pool_before, query_bonsais(&state));
    assert_eq!(0, query_gardener(&state, &addr("addr0001")).unwrap().bonsais.len());
}

#[test]
fn acquire_with_wrong_denomination_fails() {
    let mut state = setup(coin(10, BOND_DENOM), 3);
    register(&mut state, "addr0001", "leo");
    let env = mock_env_height(100);
    // plenty of money, but in the wrong currency
    let info = mock_info("addr0001", coins(1000, "shrub"));

    let res = handle(&mut state, &env, &info, HandleMsg::BuyBonsai { b_id: 0 }, None);
    assert_eq!(Err(MyCustomError::InsufficientFunds), res);
    assert_eq!(3, query_bonsais(&state).bonsais.len());
}

#[test]
fn acquire_with_no_funds_sent_fails() {
    let mut state = setup(coin(10, BOND_DENOM), 3);
    register(&mut state, "addr0001", "leo");
    let env = mock_env_height(100);
    let info = mock_info("addr0001", vec![]);

    let res = handle(&mut state, &env, &info, HandleMsg::BuyBonsai { b_id: 0 }, None);
    assert_eq!(Err(MyCustomError::InsufficientFunds), res);
}

#[test]
fn acquire_without_profile_fails_and_changes_nothing() {
    let mut state = setup(coin(10, BOND_DENOM), 3);
    let env = mock_env_height(100);
    let info = mock_info("addr0001", coins(100, BOND_DENOM));

    let pool_before = query_bonsais(&state);

    let res = handle(&mut state, &env, &info, HandleMsg::BuyBonsai { b_id: 0 }, None);
    assert_eq!(Err(MyCustomError::NotFound), res);
    assert_eq!(pool_before, query_bonsais(&state));
}

#[test]
fn transfer_moves_the_item_and_conserves_the_count() {
    let mut state = setup(coin(10, BOND_DENOM), 4);
    register(&mut state, "addr0001", "leo");
    register(&mut state, "addr0002", "ricky");
    let env = mock_env_height(100);
    let info = mock_info("addr0001", coins(50, BOND_DENOM));
    handle(&mut state, &env, &info, HandleMsg::BuyBonsai { b_id: 2 }, None).unwrap();

    let count_before = query_bonsais(&state).bonsais.len() + total_owned(&state);

    let msg = HandleMsg::SellBonsai { recipient: addr("addr0002"), b_id: 2 };
    handle(&mut state, &env, &info, msg, Some(coin(1000, BOND_DENOM))).unwrap();

    let leo = query_gardener(&state, &addr("addr0001")).unwrap();
    let ricky = query_gardener(&state, &addr("addr0002")).unwrap();
    assert!(leo.bonsais.iter().all(|b| b.id != 2));
    assert!(ricky.bonsais.iter().any(|b| b.id == 2));

    let count_after = query_bonsais(&state).bonsais.len() + total_owned(&state);
    assert_eq!(count_before, count_after);
}

#[test]
fn transfer_of_unowned_item_fails() {
    let mut state = setup(coin(10, BOND_DENOM), 4);
    register(&mut state, "addr0001", "leo");
    register(&mut state, "addr0002", "ricky");
    let env = mock_env_height(100);
    let info = mock_info("addr0001", coins(50, BOND_DENOM));

    // item 1 is still in the pool, not in leo's profile
    let msg = HandleMsg::SellBonsai { recipient: addr("addr0002"), b_id: 1 };
    let res = handle(&mut state, &env, &info, msg, Some(coin(1000, BOND_DENOM)));
    assert_eq!(Err(MyCustomError::NotFound), res);
}

#[test]
fn transfer_to_insolvent_recipient_fails_and_changes_nothing() {
    let mut state = setup(coin(10, BOND_DENOM), 4);
    register(&mut state, "addr0001", "leo");
    register(&mut state, "addr0002", "ricky");
    let env = mock_env_height(100);
    let info = mock_info("addr0001", coins(50, BOND_DENOM));
    handle(&mut state, &env, &info, HandleMsg::BuyBonsai { b_id: 0 }, None).unwrap();

    let leo_before = query_gardener(&state, &addr("addr0001")).unwrap();

    let msg = HandleMsg::SellBonsai { recipient: addr("addr0002"), b_id: 0 };
    let res = handle(&mut state, &env, &info, msg, Some(coin(9, BOND_DENOM)));
    assert_eq!(Err(MyCustomError::InsufficientFunds), res);
    assert_eq!(leo_before, query_gardener(&state, &addr("addr0001")).unwrap());
    assert_eq!(0, query_gardener(&state, &addr("addr0002")).unwrap().bonsais.len());
}

#[test]
fn transfer_to_unregistered_recipient_fails() {
    let mut state = setup(coin(10, BOND_DENOM), 4);
    register(&mut state, "addr0001", "leo");
    let env = mock_env_height(100);
    let info = mock_info("addr0001", coins(50, BOND_DENOM));
    handle(&mut state, &env, &info, HandleMsg::BuyBonsai { b_id: 0 }, None).unwrap();

    let msg = HandleMsg::SellBonsai { recipient: addr("addr0002"), b_id: 0 };
    let res = handle(&mut state, &env, &info, msg, Some(coin(1000, BOND_DENOM)));
    assert_eq!(Err(MyCustomError::NotFound), res);
    assert_eq!(1, query_gardener(&state, &addr("addr0001")).unwrap().bonsais.len());
}

#[test]
fn retire_removes_the_item_for_good() {
    let mut state = setup(coin(10, BOND_DENOM), 4);
    register(&mut state, "addr0001", "leo");
    register(&mut state, "addr0002", "ricky");
    let env = mock_env_height(100);
    let info = mock_info("addr0001", coins(50, BOND_DENOM));
    handle(&mut state, &env, &info, HandleMsg::BuyBonsai { b_id: 3 }, None).unwrap();

    handle(&mut state, &env, &info, HandleMsg::CutBonsai { b_id: 3 }, None).unwrap();

    // absent from every profile and from the pool
    assert!(query_bonsais(&state).bonsais.iter().all(|b| b.id != 3));
    for g in query_all_gardeners(&state).gardeners {
        assert!(g.bonsais.iter().all(|b| b.id != 3));
    }

    // and no subsequent operation brings it back
    let res = handle(&mut state, &env, &info, HandleMsg::BuyBonsai { b_id: 3 }, None);
    assert_eq!(Err(MyCustomError::NotFound), res);
    let msg = HandleMsg::SellBonsai { recipient: addr("addr0002"), b_id: 3 };
    let res = handle(&mut state, &env, &info, msg, Some(coin(1000, BOND_DENOM)));
    assert_eq!(Err(MyCustomError::NotFound), res);
    assert!(query_bonsais(&state).bonsais.iter().all(|b| b.id != 3));
}

#[test]
fn retire_of_unowned_item_is_a_noop_with_event() {
    let mut state = setup(coin(10, BOND_DENOM), 4);
    register(&mut state, "addr0001", "leo");
    let env = mock_env_height(100);
    let info = mock_info("addr0001", vec![]);

    let pool_before = query_bonsais(&state);
    let res = handle(&mut state, &env, &info, HandleMsg::CutBonsai { b_id: 2 }, None).unwrap();

    // the event is emitted even though nothing was removed
    assert_eq!(
        vec![
            Attribute::text("action", "cut_bonsai"),
            Attribute::address("owner", addr("addr0001")),
            Attribute::number("bonsai_id", 2),
        ],
        res.attributes
    );
    assert_eq!(pool_before, query_bonsais(&state));
}

#[test]
fn error_messages_name_the_failure() {
    assert_eq!("not found", MyCustomError::NotFound.message());
    assert_eq!(
        "a gardener with the sender address already exists",
        MyCustomError::AlreadyRegistered.message()
    );
    assert_eq!("insufficient funds", MyCustomError::InsufficientFunds.message());
    assert_eq!("invalid input", MyCustomError::InvalidInput.message());
}

#[test]
fn state_check_accepts_reachable_states_and_rejects_corrupt_ones() {
    let mut state = setup(coin(10, BOND_DENOM), 4);
    register(&mut state, "addr0001", "leo");
    let env = mock_env_height(100);
    let info = mock_info("addr0001", coins(50, BOND_DENOM));
    handle(&mut state, &env, &info, HandleMsg::BuyBonsai { b_id: 1 }, None).unwrap();
    assert!(state.check_well_formed());

    // a pool with a duplicated identifier is rejected
    let mut corrupt = setup(coin(10, BOND_DENOM), 2);
    let twin = corrupt.bonsais.bonsais[0].clone();
    corrupt.bonsais.bonsais.push(twin);
    assert!(!corrupt.check_well_formed());

    // an item sitting in the pool and in a profile at once is rejected
    let mut corrupt = setup(coin(10, BOND_DENOM), 2);
    register(&mut corrupt, "addr0001", "leo");
    let stolen = corrupt.bonsais.bonsais[0].clone();
    corrupt.gardeners[0].bonsais.push(stolen);
    assert!(!corrupt.check_well_formed());
}

#[test]
fn end_to_end_marketplace_flow() {
    // seed 10 items at price 10 bonsai
    let env = mock_env_height(100);
    let creator = mock_info("creator", vec![]);
    let (mut state, _res) = init(
        &env,
        &creator,
        InitMsg { price: coin(10, BOND_DENOM), number: 10 },
    )
    .unwrap();

    // register "leo"
    register(&mut state, "leo_addr", "leo");

    // "leo" acquires one item, paying with a 1000 bonsai balance
    let leo = mock_info("leo_addr", coins(1000, BOND_DENOM));
    let res = handle(&mut state, &env, &leo, HandleMsg::BuyBonsai { b_id: 0 }, None).unwrap();
    assert_eq!(9, query_bonsais(&state).bonsais.len());
    assert_eq!(1, query_gardener(&state, &addr("leo_addr")).unwrap().bonsais.len());
    // a settlement instruction for the 10 bonsai price is emitted
    assert_eq!(
        vec![BankMsg::Send {
            from_address: addr("leo_addr"),
            to_address: addr("contract"),
            amount: vec![coin(10, BOND_DENOM)],
        }],
        res.messages
    );

    // a transfer to the still-unregistered "ricky" fails: recipients must
    // be registered first
    let msg = HandleMsg::SellBonsai { recipient: addr("ricky_addr"), b_id: 0 };
    let res = handle(&mut state, &env, &leo, msg, Some(coin(1000, BOND_DENOM)));
    assert_eq!(Err(MyCustomError::NotFound), res);

    // once "ricky" registers, the same transfer goes through
    register(&mut state, "ricky_addr", "ricky");
    let msg = HandleMsg::SellBonsai { recipient: addr("ricky_addr"), b_id: 0 };
    handle(&mut state, &env, &leo, msg, Some(coin(1000, BOND_DENOM))).unwrap();
    assert_eq!(0, query_gardener(&state, &addr("leo_addr")).unwrap().bonsais.len());
    assert_eq!(1, query_gardener(&state, &addr("ricky_addr")).unwrap().bonsais.len());
}
