//! End-to-end flows driven entirely through the public `init`, `handle` and
//! `query` entry points, the way a host dispatcher would call them.

use bonsai_garden::addr::Addr;
use bonsai_garden::contract::{handle, init, query, ContractState};
use bonsai_garden::msg::{
    Attribute, Env, HandleMsg, HandleResponse, InitMsg, MessageInfo, QueryAnswer, QueryMsg,
};
use bonsai_garden::state::{Coin, Gardener};

const BOND_DENOM: &str = "bonsai";

fn coin(amount: u128, denom: &str) -> Coin {
    Coin::new(amount, denom.to_string())
}

fn coins(amount: u128, denom: &str) -> Vec<Coin> {
    vec![coin(amount, denom)]
}

fn addr(s: &str) -> Addr {
    Addr::new(s.as_bytes().to_vec())
}

// Create an environment with the given height
fn mock_env_height(height: u64) -> Env {
    Env {
        block_height: height,
        contract_address: addr("contract"),
    }
}

fn mock_info(sender: &str, sent_funds: Vec<Coin>) -> MessageInfo {
    MessageInfo {
        sender: addr(sender),
        sent_funds,
    }
}

// this will set up the init for other tests
fn setup_test(env: &Env, info: &MessageInfo, bonsai_price: Coin, bonsai_number: u64) -> ContractState {
    let init_msg = InitMsg {
        price: bonsai_price,
        number: bonsai_number,
    };
    let (state, _res) = init(env, info, init_msg).unwrap();
    state
}

// return an available bonsai id
fn get_available_bonsai_id(state: &ContractState) -> u64 {
    match query(state, QueryMsg::GetBonsais {}) {
        QueryAnswer::Bonsais(list) => list.bonsais.first().unwrap().id,
        _ => unreachable!(),
    }
}

fn become_gardener(name: String, info: &MessageInfo, env: &Env, state: &mut ContractState) -> HandleResponse {
    let msg = HandleMsg::BecomeGardener { name };
    handle(state, env, info, msg, None).unwrap()
}

fn buy_bonsai(bonsai_id: u64, info: &MessageInfo, env: &Env, state: &mut ContractState) -> HandleResponse {
    let msg = HandleMsg::BuyBonsai { b_id: bonsai_id };
    handle(state, env, info, msg, None).unwrap()
}

fn query_gardener(state: &ContractState, sender: &str) -> Gardener {
    match query(state, QueryMsg::GetGardener { sender: addr(sender) }) {
        QueryAnswer::Gardener(g) => g.unwrap(),
        _ => unreachable!(),
    }
}

#[test]
fn integration_test_init() {
    // Init an empty contract
    let init_msg = InitMsg {
        price: coin(20, BOND_DENOM),
        number: 20,
    };
    let env = mock_env_height(100);
    let info = mock_info("sender", coins(1000, BOND_DENOM));
    let (state, _res) = init(&env, &info, init_msg).unwrap();

    match query(&state, QueryMsg::GetBonsais {}) {
        QueryAnswer::Bonsais(bonsai_list) => assert_eq!(bonsai_list.bonsais.len(), 20),
        _ => unreachable!(),
    }
}

#[test]
fn integration_test_become_gardener_works() {
    let sender_addr = "addr0001";
    let bonsai_price = coin(10, BOND_DENOM);
    let env = mock_env_height(100);
    let info = mock_info(sender_addr, coins(1000, BOND_DENOM));
    let mut state = setup_test(&env, &info, bonsai_price.clone(), 10);

    let mut exp_res = HandleResponse::default();
    exp_res.attributes = vec![
        Attribute::text("action", "become_gardener"),
        Attribute::address("gardener_addr", addr(sender_addr)),
    ];

    let res = become_gardener("leo".to_string(), &info, &env, &mut state);

    // verify that the result attributes are equals to the expected ones
    assert_eq!(exp_res, res);

    // check if the gardener was saved
    let gardener = query_gardener(&state, sender_addr);
    assert_eq!("leo", gardener.name)
}

#[test]
fn integration_test_buy_bonsai_works() {
    let sender_addr = "addr0001";
    let bonsai_price = coin(10, BOND_DENOM);

    let env = mock_env_height(100);
    let info = mock_info(sender_addr, coins(15, BOND_DENOM));

    // setup test environment
    let mut state = setup_test(&env, &info, bonsai_price.clone(), 10);

    let _res = become_gardener("leo".to_string(), &info, &env, &mut state);

    let bonsai_id = get_available_bonsai_id(&state);

    let mut exp_res = HandleResponse::default();
    exp_res.attributes = vec![
        Attribute::text("action", "buy_bonsai"),
        Attribute::address("buyer", addr(sender_addr)),
        Attribute::number("amount", bonsai_price.amount),
    ];
    // the settlement instruction for the price accompanies the purchase
    exp_res.messages = vec![bonsai_garden::msg::BankMsg::Send {
        from_address: addr(sender_addr),
        to_address: env.contract_address.clone(),
        amount: vec![bonsai_price.clone()],
    }];
    let res = buy_bonsai(bonsai_id, &info, &env, &mut state);
    assert_eq!(exp_res, res);

    // check if the gardener was saved
    let gardener = query_gardener(&state, sender_addr);
    assert_eq!("leo", gardener.name);
    assert_eq!(bonsai_id, gardener.bonsais[0].id)
}

#[test]
fn integration_test_sell_bonsai_works() {
    let sender_addr = "addr0001";
    let buyer_addr = "addr0002";
    let bonsai_price = coin(0, BOND_DENOM);
    let env = mock_env_height(100);
    let info = mock_info(sender_addr, coins(1000, BOND_DENOM));

    // setup test environment
    let mut state = setup_test(&env, &info, bonsai_price.clone(), 10);

    let bonsai_id = get_available_bonsai_id(&state);

    let _res = become_gardener("leo".to_string(), &info, &env, &mut state);

    let _res = buy_bonsai(bonsai_id.clone(), &info, &env, &mut state);

    let _res = become_gardener(
        "ricky".to_string(),
        &mock_info(buyer_addr, coins(1000, BOND_DENOM)),
        &env,
        &mut state,
    );

    match query(&state, QueryMsg::GetGardeners {}) {
        QueryAnswer::AllGardeners(all) => assert_eq!(2, all.gardeners.len()),
        _ => unreachable!(),
    }

    let msg = HandleMsg::SellBonsai {
        recipient: addr(buyer_addr),
        b_id: bonsai_id,
    };
    let res = handle(
        &mut state,
        &env,
        &mock_info(sender_addr, coins(1000, BOND_DENOM)),
        msg,
        Some(coin(0, BOND_DENOM)),
    )
    .unwrap();

    let mut exp_res = HandleResponse::default();
    exp_res.attributes = vec![
        Attribute::text("action", "sell_bonsai"),
        Attribute::address("from", addr(sender_addr)),
        Attribute::address("to", addr(buyer_addr)),
    ];

    assert_eq!(exp_res, res);

    let gardener = query_gardener(&state, sender_addr);
    assert_eq!(0, gardener.bonsais.len())
}

#[test]
fn integration_test_cut_bonsai_works() {
    let sender_addr = "addr0001";
    let bonsai_price = coin(10, BOND_DENOM);
    let env = mock_env_height(100);
    let info = mock_info(sender_addr, coins(100, BOND_DENOM));

    // setup test environment
    let mut state = setup_test(&env, &info, bonsai_price.clone(), 10);

    let bonsai_id = get_available_bonsai_id(&state);
    let _res = become_gardener("leo".to_string(), &info, &env, &mut state);

    let _res = buy_bonsai(bonsai_id, &info, &env, &mut state);

    let msg = HandleMsg::CutBonsai { b_id: bonsai_id };

    let res = handle(&mut state, &env, &info, msg, None).unwrap();

    let mut exp_res = HandleResponse::default();
    exp_res.attributes = vec![
        Attribute::text("action", "cut_bonsai"),
        Attribute::address("owner", addr(sender_addr)),
        Attribute::number("bonsai_id", bonsai_id as u128),
    ];

    assert_eq!(exp_res, res);

    let gardener = query_gardener(&state, sender_addr);
    assert_eq!(0, gardener.bonsais.len())
}
