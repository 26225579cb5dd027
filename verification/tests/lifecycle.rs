use terraswap_factory::asset::{pair_key, AssetInfo};
use terraswap_factory::contract::{
    check_owner, check_register, execute, execute_create_pair, execute_update_config,
    instantiate, migrate, query, query_pair, register, Action, Env, ExecuteMsg, Factory, InitHook,
    InstantiateMsg, MessageInfo, MigrateMsg, QueryMsg, QueryResponse, Request, Store,
};
use terraswap_factory::error::ContractError;
use terraswap_factory::registry::PairInfo;

fn native(denom: &str) -> AssetInfo {
    AssetInfo::native(denom)
}

fn token(addr: &str) -> AssetInfo {
    AssetInfo::Token { contract_addr: addr.as_bytes().to_vec() }
}

fn env() -> Env {
    Env { contract_address: b"factory".to_vec() }
}

fn sender(name: &str) -> MessageInfo {
    MessageInfo { sender: name.as_bytes().to_vec() }
}

fn fresh() -> Factory {
    let (factory, _) = instantiate(
        sender("owner"),
        InstantiateMsg { token_code_id: 7, pair_code_ids: vec![1, 2], init_hook: None },
    );
    factory
}

fn uusd_addr_a() -> [AssetInfo; 2] {
    [native("uusd"), token("addrA")]
}

#[test]
fn instantiate_sets_config_and_empty_registry() {
    let (factory, response) = instantiate(
        sender("owner"),
        InstantiateMsg { token_code_id: 7, pair_code_ids: vec![1, 2], init_hook: None },
    );
    assert_eq!(factory.config.owner, b"owner".to_vec());
    assert_eq!(factory.config.token_code_id, 7);
    assert_eq!(factory.config.pair_code_ids, vec![1, 2]);
    assert_eq!(factory.pairs.len(), 0);
    assert_eq!(response.action, Action::Instantiate);
    assert!(response.messages.is_empty());
}

#[test]
fn instantiate_forwards_follow_up() {
    let hook = InitHook { contract_addr: b"other".to_vec(), msg: b"{\"go\":{}}".to_vec() };
    let (_, response) = instantiate(
        sender("owner"),
        InstantiateMsg { token_code_id: 7, pair_code_ids: vec![], init_hook: Some(hook.clone()) },
    );
    assert_eq!(response.messages, vec![Request::FollowUp { hook }]);
}

#[test]
fn create_then_duplicate_then_register_then_query() {
    let mut factory = fresh();

    let created = execute_create_pair(&mut factory, env(), 1, uusd_addr_a(), None);
    let response = created.unwrap();
    assert_eq!(response.action, Action::CreatePair);
    assert_eq!(
        response.messages,
        vec![Request::Deploy {
            code_id: 1,
            asset_infos: uusd_addr_a(),
            token_code_id: 7,
            callback_addr: b"factory".to_vec(),
            callback_asset_infos: uusd_addr_a(),
        }]
    );
    assert_eq!(factory.pairs.len(), 1);
    assert_eq!(
        query_pair(&factory, &uusd_addr_a()),
        Ok(PairInfo { asset_infos: uusd_addr_a(), contract_addr: None, liquidity_token: None })
    );

    let again = execute_create_pair(&mut factory, env(), 2, uusd_addr_a(), None);
    assert_eq!(again, Err(ContractError::PairAlreadyExists));
    assert_eq!(factory.pairs.len(), 1);

    assert_eq!(check_register(&factory, &uusd_addr_a()), Ok(()));
    let registered =
        register(&mut factory, env(), sender("addrP"), uusd_addr_a(), b"addrL".to_vec());
    let response = registered.unwrap();
    assert_eq!(response.action, Action::Register);
    assert!(response.messages.is_empty());

    assert_eq!(
        query_pair(&factory, &uusd_addr_a()),
        Ok(PairInfo {
            asset_infos: uusd_addr_a(),
            contract_addr: Some(b"addrP".to_vec()),
            liquidity_token: Some(b"addrL".to_vec()),
        })
    );
}

#[test]
fn create_pair_forwards_follow_up_after_deployment() {
    let mut factory = fresh();
    let hook = InitHook { contract_addr: b"other".to_vec(), msg: vec![1, 2, 3] };
    let created = execute_create_pair(&mut factory, env(), 2, uusd_addr_a(), Some(hook.clone()));
    let response = created.unwrap();
    assert_eq!(response.messages.len(), 2);
    assert!(matches!(response.messages[0], Request::Deploy { code_id: 2, token_code_id: 7, .. }));
    assert_eq!(response.messages[1], Request::FollowUp { hook });
}

#[test]
fn create_pair_refuses_unapproved_implementation() {
    let mut factory = fresh();
    let refused = execute_create_pair(&mut factory, env(), 3, uusd_addr_a(), None);
    assert_eq!(refused, Err(ContractError::ImplementationNotApproved));
    assert_eq!(factory.pairs.len(), 0);
    assert_eq!(query_pair(&factory, &uusd_addr_a()), Err(ContractError::RecordNotFound));
}

#[test]
fn unapproved_implementation_is_refused_before_duplicate() {
    let mut factory = fresh();
    execute_create_pair(&mut factory, env(), 1, uusd_addr_a(), None).unwrap();
    let refused = execute_create_pair(&mut factory, env(), 9, uusd_addr_a(), None);
    assert_eq!(refused, Err(ContractError::ImplementationNotApproved));
}

#[test]
fn swapped_pair_is_another_market() {
    let mut factory = fresh();
    execute_create_pair(&mut factory, env(), 1, uusd_addr_a(), None).unwrap();
    let swapped = [token("addrA"), native("uusd")];
    assert!(execute_create_pair(&mut factory, env(), 1, swapped.clone(), None).is_ok());
    assert_eq!(factory.pairs.len(), 2);
    assert_ne!(pair_key(&uusd_addr_a()), pair_key(&swapped));
}

#[test]
fn register_twice_is_refused() {
    let mut factory = fresh();
    execute_create_pair(&mut factory, env(), 1, uusd_addr_a(), None).unwrap();
    let first = register(&mut factory, env(), sender("addrP"), uusd_addr_a(), b"addrL".to_vec());
    assert!(first.is_ok());
    assert_eq!(check_register(&factory, &uusd_addr_a()), Err(ContractError::AlreadyRegistered));
    let replay = register(&mut factory, env(), sender("addrQ"), uusd_addr_a(), b"addrM".to_vec());
    assert_eq!(replay, Err(ContractError::AlreadyRegistered));
    let record = query_pair(&factory, &uusd_addr_a()).unwrap();
    assert_eq!(record.contract_addr, Some(b"addrP".to_vec()));
    assert_eq!(record.liquidity_token, Some(b"addrL".to_vec()));
}

#[test]
fn register_unknown_pair_is_refused() {
    let mut factory = fresh();
    assert_eq!(check_register(&factory, &uusd_addr_a()), Err(ContractError::RecordNotFound));
    let refused = register(&mut factory, env(), sender("addrP"), uusd_addr_a(), b"addrL".to_vec());
    assert_eq!(refused, Err(ContractError::RecordNotFound));
    assert_eq!(factory.pairs.len(), 0);
}

#[test]
fn owner_is_told_from_others() {
    let factory = fresh();
    assert_eq!(check_owner(&factory, &sender("owner")), Ok(()));
    assert_eq!(check_owner(&factory, &sender("owne")), Err(ContractError::Unauthorized));
    assert_eq!(check_owner(&factory, &sender("")), Err(ContractError::Unauthorized));
}

#[test]
fn update_config_by_stranger_is_refused() {
    let mut factory = fresh();
    let before = factory.config.clone();
    let refused = execute_update_config(
        &mut factory,
        env(),
        sender("stranger"),
        Some(b"stranger".to_vec()),
        Some(99),
        Some(vec![5]),
    );
    assert_eq!(refused, Err(ContractError::Unauthorized));
    assert_eq!(factory.config, before);
}

#[test]
fn update_config_overwrites_given_fields_only() {
    let mut factory = fresh();
    let response =
        execute_update_config(&mut factory, env(), sender("owner"), None, Some(8), None).unwrap();
    assert_eq!(response.action, Action::UpdateConfig);
    assert!(response.messages.is_empty());
    assert_eq!(factory.config.owner, b"owner".to_vec());
    assert_eq!(factory.config.token_code_id, 8);
    assert_eq!(factory.config.pair_code_ids, vec![1, 2]);

    let next = Some(b"next".to_vec());
    execute_update_config(&mut factory, env(), sender("owner"), next, None, Some(vec![4]))
        .unwrap();
    assert_eq!(factory.config.owner, b"next".to_vec());
    assert_eq!(factory.config.token_code_id, 8);
    assert_eq!(factory.config.pair_code_ids, vec![4]);

    let refused = execute_update_config(&mut factory, env(), sender("owner"), None, Some(1), None);
    assert_eq!(refused, Err(ContractError::Unauthorized));
    assert!(execute_create_pair(&mut factory, env(), 4, uusd_addr_a(), None).is_ok());
}

#[test]
fn execute_dispatches_each_command() {
    let mut factory = fresh();
    let created = execute(
        &mut factory,
        env(),
        sender("anyone"),
        ExecuteMsg::CreatePair { pair_code_id: 1, asset_infos: uusd_addr_a(), init_hook: None },
    );
    assert_eq!(created.unwrap().action, Action::CreatePair);
    let registered = execute(
        &mut factory,
        env(),
        sender("addrP"),
        ExecuteMsg::Register { asset_infos: uusd_addr_a(), liquidity_token: b"addrL".to_vec() },
    );
    assert_eq!(registered.unwrap().action, Action::Register);
    let updated = execute(
        &mut factory,
        env(),
        sender("owner"),
        ExecuteMsg::UpdateConfig { owner: None, token_code_id: Some(11), pair_code_ids: None },
    );
    assert_eq!(updated.unwrap().action, Action::UpdateConfig);
    assert_eq!(factory.config.token_code_id, 11);
    let refused = execute(
        &mut factory,
        env(),
        sender("addrP"),
        ExecuteMsg::UpdateConfig { owner: None, token_code_id: Some(12), pair_code_ids: None },
    );
    assert_eq!(refused, Err(ContractError::Unauthorized));
    assert_eq!(factory.config.token_code_id, 11);
}

#[test]
fn query_dispatches_each_query() {
    let mut factory = fresh();
    execute_create_pair(&mut factory, env(), 1, uusd_addr_a(), None).unwrap();

    match query(&factory, QueryMsg::Config).unwrap() {
        QueryResponse::Config(c) => {
            assert_eq!(c.owner, b"owner".to_vec());
            assert_eq!(c.token_code_id, 7);
            assert_eq!(c.pair_code_ids, vec![1, 2]);
        }
        other => panic!("{:?}", other),
    }
    match query(&factory, QueryMsg::Pair { asset_infos: uusd_addr_a() }).unwrap() {
        QueryResponse::Pair(p) => assert_eq!(p.asset_infos, uusd_addr_a()),
        other => panic!("{:?}", other),
    }
    assert_eq!(
        query(&factory, QueryMsg::Pair { asset_infos: [native("uluna"), native("uusd")] }),
        Err(ContractError::RecordNotFound)
    );
    match query(&factory, QueryMsg::Pairs { start_after: None, limit: None }).unwrap() {
        QueryResponse::Pairs(p) => assert_eq!(p.pairs.len(), 1),
        other => panic!("{:?}", other),
    }
}

#[test]
fn migrate_changes_nothing() {
    let mut factory = fresh();
    execute_create_pair(&mut factory, env(), 1, uusd_addr_a(), None).unwrap();
    let config = factory.config.clone();
    let response = migrate(&mut factory, MigrateMsg {});
    assert_eq!(response.action, Action::Migrate);
    assert!(response.messages.is_empty());
    assert_eq!(factory.config, config);
    assert_eq!(factory.pairs.len(), 1);
}

#[test]
fn store_is_initialised_once() {
    let mut store = Store::new();
    assert!(store.factory.is_none());
    let first = store.initialize(
        sender("owner"),
        InstantiateMsg { token_code_id: 7, pair_code_ids: vec![1, 2], init_hook: None },
    );
    assert_eq!(first.unwrap().action, Action::Instantiate);
    let second = store.initialize(
        sender("other"),
        InstantiateMsg { token_code_id: 8, pair_code_ids: vec![3], init_hook: None },
    );
    assert_eq!(second, Err(ContractError::AlreadyInitialized));
    let factory = store.factory.unwrap();
    assert_eq!(factory.config.owner, b"owner".to_vec());
    assert_eq!(factory.config.token_code_id, 7);
    assert_eq!(factory.config.pair_code_ids, vec![1, 2]);
    assert_eq!(factory.pairs.len(), 0);
}
