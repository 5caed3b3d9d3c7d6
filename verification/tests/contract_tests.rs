use bonsai_garden::addr::Addr;
use bonsai_garden::contract::{
    handle, init, query_all_gardeners, query_bonsais, query_gardener, ContractState,
};
use bonsai_garden::msg::{
    Attribute, BankMsg, Env, HandleMsg, HandleResponse, InitMsg, MessageInfo,
};
use bonsai_garden::state::{Bonsai, Coin, Gardener};

const BOND_DENOM: &str = "bonsai";

fn coin(amount: u128, denom: &str) -> Coin {
    Coin::new(amount, denom.to_string())
}

fn coins(amount: u128, denom: &str) -> Vec<Coin> {
    vec![coin(amount, denom)]
}

fn addr(s: &str) -> Addr {
    Addr::new(s.as_bytes().to_vec())
}

// Create an environment with the given height
fn mock_env_height(height: u64) -> Env {
    Env {
        block_height: height,
        contract_address: addr("contract"),
    }
}

fn mock_info(sender: &str, sent_funds: Vec<Coin>) -> MessageInfo {
    MessageInfo {
        sender: addr(sender),
        sent_funds,
    }
}

// this will set up the init for other tests
fn setup_test(env: &Env, info: &MessageInfo, bonsai_price: Coin, bonsai_number: u64) -> ContractState {
    let init_msg = InitMsg {
        price: bonsai_price,
        number: bonsai_number,
    };
    let (state, _res) = init(env, info, init_msg).unwrap();
    state
}

// return an available bonsai id
fn get_available_bonsai_id(state: &ContractState) -> u64 {
    let bonsais = query_bonsais(state).bonsais;
    bonsais.first().unwrap().id
}

#[test]
fn test_init() {
    // Init an empty contract
    let init_msg = InitMsg {
        price: coin(20, "bonsai"),
        number: 20,
    };
    let env = mock_env_height(100);
    let info = mock_info("addr0001", vec![]);
    let (state, res) = init(&env, &info, init_msg).unwrap();
    assert_eq!(0, res.messages.len());

    let exp_log = vec![Attribute::text("action", "grown_bonsais")];

    assert_eq!(res.attributes, exp_log);

    // make sure that bonsais are saved inside the state
    let bonsais = query_bonsais(&state);
    assert_eq!(20, bonsais.bonsais.len())
}

#[test]
fn test_become_gardener_works() {
    let sender_addr = "addr0001";
    let bonsai_price = coin(10, BOND_DENOM);
    let bonsai_height = 100;
    let env = mock_env_height(bonsai_height);
    let info = mock_info(sender_addr, coins(25, BOND_DENOM));
    let mut state = setup_test(&env, &info, bonsai_price.clone(), 10);

    let mut exp_res = HandleResponse::default();
    exp_res.attributes = vec![
        Attribute::text("action", "become_gardener"),
        Attribute::address("gardener_addr", addr(sender_addr)),
    ];

    let msg = HandleMsg::BecomeGardener {
        name: String::from("leo"),
    };
    let res = handle(&mut state, &env, &info, msg, None);

    // verify it not fails
    assert!(res.is_ok());

    assert_eq!(exp_res, res.unwrap())
}

#[test]
fn test_buy_bonsai_works() {
    let sender_addr = "addr0001";
    let bonsai_price = coin(10, BOND_DENOM);
    let bonsai_height = 100;
    let env = mock_env_height(bonsai_height);
    let info = mock_info(sender_addr, coins(25, BOND_DENOM));

    // setup test environment
    let mut state = setup_test(&env, &info, bonsai_price.clone(), 10);

    let gardener = Gardener::new("leo".to_string(), addr(sender_addr), vec![]);
    state.gardeners.push(gardener);

    let bonsai_id = get_available_bonsai_id(&state);

    let exp_res = HandleResponse {
        messages: vec![BankMsg::Send {
            from_address: addr(sender_addr),
            to_address: env.contract_address.clone(),
            amount: vec![bonsai_price.clone()],
        }],
        attributes: vec![
            Attribute::text("action", "buy_bonsai"),
            Attribute::address("buyer", addr(sender_addr)),
            Attribute::number("amount", bonsai_price.amount),
        ],
        data: None,
    };

    let msg = HandleMsg::BuyBonsai { b_id: bonsai_id };

    let res = handle(&mut state, &env, &info, msg, None);

    assert!(res.is_ok());
    assert_eq!(exp_res, res.unwrap())
}

#[test]
fn test_sell_bonsai_works() {
    let sender_addr = "addr0001";
    let buyer_addr = "addr0002";
    let bonsai_price = coin(10, BOND_DENOM);
    let bonsai_height = 100;
    let env = mock_env_height(bonsai_height);
    let info = mock_info(sender_addr, coins(25, BOND_DENOM));

    // setup test environment
    let mut state = setup_test(&env, &info, bonsai_price.clone(), 10);
    let buyer_balance = coin(1000, BOND_DENOM);

    let bonsai = query_bonsais(&state).bonsais.first().unwrap().clone();

    let gardener = Gardener::new("leo".to_string(), addr(sender_addr), vec![bonsai.clone()]);
    state.gardeners.push(gardener);

    let buyer = Gardener::new("ricky".to_string(), addr(buyer_addr), vec![]);
    state.gardeners.push(buyer);

    let gardeners = query_all_gardeners(&state);
    assert_eq!(2, gardeners.gardeners.len());

    let msg = HandleMsg::SellBonsai {
        recipient: addr(buyer_addr),
        b_id: bonsai.clone().id,
    };
    let res = handle(&mut state, &env, &info, msg, Some(buyer_balance));

    let mut exp_res = HandleResponse::default();
    exp_res.attributes = vec![
        Attribute::text("action", "sell_bonsai"),
        Attribute::address("from", addr(sender_addr)),
        Attribute::address("to", addr(buyer_addr)),
    ];

    assert_eq!(exp_res, res.unwrap());

    let gardener = query_gardener(&state, &addr(sender_addr)).unwrap();
    assert_eq!(0, gardener.bonsais.len())
}

#[test]
fn test_cut_bonsai_works() {
    let sender_addr = "addr0001";
    let bonsai_price = coin(10, BOND_DENOM);
    let bonsai_height = 100;
    let env = mock_env_height(bonsai_height);
    let info = mock_info(sender_addr, coins(25, BOND_DENOM));

    // setup test environment
    let mut state = setup_test(&env, &info, bonsai_price.clone(), 10);

    let bonsai = Bonsai::new(10, bonsai_height, bonsai_price);
    let gardener = Gardener::new("leo".to_string(), addr(sender_addr), vec![bonsai.clone()]);

    state.gardeners.push(gardener);

    let msg = HandleMsg::CutBonsai {
        b_id: bonsai.id.clone(),
    };

    let res = handle(&mut state, &env, &info, msg, None);
    let mut exp_res = HandleResponse::default();
    exp_res.attributes = vec![
        Attribute::text("action", "cut_bonsai"),
        Attribute::address("owner", addr(sender_addr)),
        Attribute::number("bonsai_id", bonsai.id as u128),
    ];

    assert!(res.is_ok());
    assert_eq!(exp_res, res.unwrap());

    let gardener = query_gardener(&state, &addr(sender_addr)).unwrap();

    assert_eq!(0, gardener.bonsais.len())
}

#[test]
fn query_bonsais_works() {
    let bonsai_price = coin(10, "bonsai");
    let bonsai_height = 100;
    let sender_addr = "addr0001";

    let env = mock_env_height(bonsai_height);
    let info = mock_info(sender_addr, coins(25, BOND_DENOM));
    let state = setup_test(&env, &info, bonsai_price.clone(), 10);

    let bonsais = query_bonsais(&state);

    assert_eq!(10, bonsais.bonsais.len())
}

#[test]
fn query_gardener_works() {
    let sender_addr = "addr0001";
    let bonsai_price = coin(10, "bonsai");
    let bonsai_height = 100;
    let info = mock_info(sender_addr, coins(25, BOND_DENOM));

    let env = mock_env_height(bonsai_height);
    let mut state = setup_test(&env, &info, bonsai_price.clone(), 10);

    let bonsai = Bonsai::new(10, bonsai_height, bonsai_price);

    let gardener = Gardener::new("leo".to_string(), addr(sender_addr), vec![bonsai]);
    state.gardeners.push(gardener.clone());

    let res = query_gardener(&state, &addr(sender_addr)).unwrap();

    assert_eq!(gardener, res)
}

#[test]
fn query_all_gardeners_works() {
    let sender_addr = "addr0001";
    let bonsai_price = coin(10, "bonsai");
    let bonsai_height = 100;

    let env = mock_env_height(bonsai_height);
    let info = mock_info(sender_addr, coins(25, BOND_DENOM));
    let mut state = setup_test(&env, &info, bonsai_price.clone(), 10);

    let bonsai = Bonsai::new(10, bonsai_height, bonsai_price);
    let other_addr = "addr0002";

    let gardener = Gardener::new("leo".to_string(), addr(sender_addr), vec![bonsai.clone()]);

    let gardener2 = Gardener::new("ricky".to_string(), addr(other_addr), vec![bonsai.clone()]);

    // the ledger keeps profiles in ascending identity order, whatever the
    // order they were stored in
    state.gardeners.push(gardener.clone());
    state.gardeners.push(gardener2.clone());

    let res = query_all_gardeners(&state);

    assert_eq!(vec![gardener, gardener2], res.gardeners);
}
