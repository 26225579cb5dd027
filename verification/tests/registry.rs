use terraswap_factory::asset::{duplicate_pair, pair_key, AssetInfo};
use terraswap_factory::bytes::{bytes_clone, bytes_eq, bytes_lt};
use terraswap_factory::contract::is_approved;
use terraswap_factory::error::ContractError;
use terraswap_factory::registry::{PairInfo, Registry, PAGE_LIMIT};

fn native(denom: &str) -> AssetInfo {
    AssetInfo::NativeToken { denom: denom.as_bytes().to_vec() }
}

fn token(addr: &str) -> AssetInfo {
    AssetInfo::Token { contract_addr: addr.as_bytes().to_vec() }
}

fn numbered(n: usize) -> [AssetInfo; 2] {
    [native("uusd"), token(&format!("token{:02}", (n * 7) % 12))]
}

fn filled(n: usize) -> (Registry, Vec<[AssetInfo; 2]>) {
    let mut registry = Registry::new();
    let mut pairs: Vec<[AssetInfo; 2]> = Vec::new();
    for i in 0..n {
        assert_eq!(registry.insert_pending(numbered(i)), Ok(()));
        pairs.push(numbered(i));
    }
    pairs.sort_by_key(|p| pair_key(p));
    (registry, pairs)
}

fn infos(page: &[PairInfo]) -> Vec<[AssetInfo; 2]> {
    page.iter().map(|p| p.asset_infos.clone()).collect()
}

#[test]
fn key_is_tag_length_payload_twice() {
    let key = pair_key(&[native("uusd"), token("addrA")]);
    let expected: Vec<u8> = vec![
        0, 4, 0, 0, 0, 0, 0, 0, 0, b'u', b'u', b's', b'd', 1, 5, 0, 0, 0, 0, 0, 0, 0, b'a', b'd',
        b'd', b'r', b'A',
    ];
    assert_eq!(key, expected);
}

#[test]
fn native_holds_the_denomination_bytes() {
    assert_eq!(AssetInfo::native("uusd"), native("uusd"));
    assert_eq!(AssetInfo::native(""), AssetInfo::NativeToken { denom: vec![] });
    assert_eq!(
        AssetInfo::native("\u{e9}"),
        AssetInfo::NativeToken { denom: vec![0xc3, 0xa9] }
    );
    assert_ne!(AssetInfo::native("uusd"), AssetInfo::native("uluna"));
}

#[test]
fn key_of_empty_payloads() {
    let key = pair_key(&[native(""), token("")]);
    assert_eq!(key, vec![0, 0, 0, 0, 0, 0, 0, 0, 0, 1, 0, 0, 0, 0, 0, 0, 0, 0]);
}

#[test]
fn key_is_deterministic_and_order_sensitive() {
    let ab = [native("uusd"), token("addrA")];
    let ba = [token("addrA"), native("uusd")];
    assert_eq!(pair_key(&ab), pair_key(&duplicate_pair(&ab)));
    assert_ne!(pair_key(&ab), pair_key(&ba));
}

#[test]
fn key_tells_shifted_payloads_apart() {
    let one = [native("ab"), native("c")];
    let other = [native("a"), native("bc")];
    assert_ne!(pair_key(&one), pair_key(&other));
}

#[test]
fn key_tells_tags_apart() {
    let one = [native("same"), native("x")];
    let other = [token("same"), native("x")];
    assert_ne!(pair_key(&one), pair_key(&other));
}

#[test]
fn duplicate_pair_copies_both() {
    let ab = [native("uusd"), token("addrA")];
    assert_eq!(duplicate_pair(&ab), ab);
    assert_eq!(ab[0].duplicate(), native("uusd"));
}

#[test]
fn bytes_order_is_lexicographic() {
    let samples: Vec<Vec<u8>> = vec![
        vec![],
        vec![0],
        vec![0, 0],
        vec![0, 1],
        vec![1],
        vec![1, 0],
        vec![255],
        vec![1, 2, 3],
        vec![1, 2, 4],
        vec![1, 2],
    ];
    for a in &samples {
        for b in &samples {
            assert_eq!(bytes_lt(a, b), a < b);
            assert_eq!(bytes_eq(a, b), a == b);
        }
        assert_eq!(&bytes_clone(a), a);
    }
    assert!(bytes_lt(&vec![1, 2], &vec![1, 2, 0]));
    assert!(!bytes_lt(&vec![1, 2, 0], &vec![1, 2]));
    assert!(!bytes_lt(&vec![], &vec![]));
}

#[test]
fn whitelist_membership() {
    assert!(is_approved(&vec![1, 2], 1));
    assert!(is_approved(&vec![1, 2], 2));
    assert!(!is_approved(&vec![1, 2], 3));
    assert!(!is_approved(&vec![], 0));
}

#[test]
fn insert_pending_refuses_duplicate() {
    let mut registry = Registry::new();
    let pair = [native("uusd"), token("addrA")];
    assert!(!registry.contains(&pair));
    assert_eq!(registry.insert_pending(pair.clone()), Ok(()));
    assert!(registry.contains(&pair));
    assert_eq!(registry.insert_pending(pair.clone()), Err(ContractError::PairAlreadyExists));
    assert_eq!(registry.len(), 1);
    let record = registry.get(&pair).unwrap();
    assert_eq!(record, PairInfo { asset_infos: pair, contract_addr: None, liquidity_token: None });
    assert!(!record.is_registered());
    assert_eq!(record.duplicate(), record);
}

#[test]
fn complete_fills_addresses_once() {
    let mut registry = Registry::new();
    let pair = [native("uusd"), token("addrA")];
    let other = [native("uluna"), token("addrA")];
    assert_eq!(
        registry.complete(&pair, b"addrP".to_vec(), b"addrL".to_vec()),
        Err(ContractError::RecordNotFound)
    );
    registry.insert_pending(pair.clone()).unwrap();
    registry.insert_pending(other.clone()).unwrap();
    assert_eq!(registry.complete(&pair, b"addrP".to_vec(), b"addrL".to_vec()), Ok(()));
    assert_eq!(
        registry.complete(&pair, b"addrQ".to_vec(), b"addrM".to_vec()),
        Err(ContractError::AlreadyRegistered)
    );
    let record = registry.get(&pair).unwrap();
    assert!(record.is_registered());
    assert_eq!(record.asset_infos, pair);
    assert_eq!(record.contract_addr, Some(b"addrP".to_vec()));
    assert_eq!(record.liquidity_token, Some(b"addrL".to_vec()));
    let untouched = registry.get(&other).unwrap();
    assert_eq!(untouched.contract_addr, None);
    assert_eq!(untouched.liquidity_token, None);
    assert_eq!(registry.get(&[native("x"), native("y")]), Err(ContractError::RecordNotFound));
}

#[test]
fn list_returns_first_page_in_key_order() {
    let (registry, sorted) = filled(12);
    assert_eq!(PAGE_LIMIT, 10);
    let page = registry.list(None, None);
    assert_eq!(infos(&page), sorted[..10].to_vec());
    let page = registry.list(None, Some(3));
    assert_eq!(infos(&page), sorted[..3].to_vec());
}

#[test]
fn list_limit_is_capped() {
    let (registry, sorted) = filled(12);
    assert_eq!(infos(&registry.list(None, Some(50))), sorted[..10].to_vec());
    assert_eq!(infos(&registry.list(None, Some(10))), sorted[..10].to_vec());
    assert_eq!(registry.list(None, Some(0)).len(), 0);
}

#[test]
fn list_starts_strictly_after() {
    let (registry, sorted) = filled(12);
    let page = registry.list(Some(&sorted[3]), Some(4));
    assert_eq!(infos(&page), sorted[4..8].to_vec());
    let page = registry.list(Some(&sorted[9]), None);
    assert_eq!(infos(&page), sorted[10..].to_vec());
    assert_eq!(registry.list(Some(&sorted[11]), None).len(), 0);
}

#[test]
fn list_after_a_pair_without_record() {
    let (registry, sorted) = filled(12);
    let absent = [native("uusd"), token("token03x")];
    assert!(!registry.contains(&absent));
    let key = pair_key(&absent);
    let expected: Vec<[AssetInfo; 2]> =
        sorted.iter().filter(|p| pair_key(p) > key).take(5).cloned().collect();
    assert_eq!(infos(&registry.list(Some(&absent), Some(5))), expected);
}

#[test]
fn paging_visits_every_record_once() {
    let (registry, sorted) = filled(12);
    let mut seen: Vec<[AssetInfo; 2]> = Vec::new();
    let mut last: Option<[AssetInfo; 2]> = None;
    loop {
        let page = registry.list(last.as_ref(), Some(5));
        if page.is_empty() {
            break;
        }
        seen.extend(infos(&page));
        last = Some(page[page.len() - 1].asset_infos.clone());
    }
    assert_eq!(seen, sorted);
}

#[test]
fn list_leaves_the_registry_as_it_was() {
    let (registry, sorted) = filled(4);
    let first = registry.list(None, None);
    let second = registry.list(None, None);
    assert_eq!(first, second);
    assert_eq!(registry.len(), 4);
    assert_eq!(infos(&first), sorted);
}

#[test]
fn list_of_empty_registry() {
    let registry = Registry::new();
    assert_eq!(registry.list(None, None).len(), 0);
    assert_eq!(registry.list(Some(&[native("a"), native("b")]), Some(3)).len(), 0);
}

#[test]
fn to_vec_gives_all_records_in_key_order() {
    let (mut registry, sorted) = filled(12);
    registry.complete(&sorted[5], b"addrP".to_vec(), b"addrL".to_vec()).unwrap();
    let all = registry.to_vec();
    assert_eq!(infos(&all), sorted);
    assert_eq!(all[5].contract_addr, Some(b"addrP".to_vec()));
    assert_eq!(all[4].contract_addr, None);
    assert_eq!(Registry::new().to_vec().len(), 0);
}

#[test]
fn many_pairs_inserted_out_of_order_are_listed_in_key_order() {
    let mut registry = Registry::new();
    let mut pairs: Vec<[AssetInfo; 2]> = Vec::new();
    let mut seed: u32 = 12345;
    for _ in 0..200 {
        seed = seed.wrapping_mul(1103515245).wrapping_add(12345);
        let a = (seed >> 16) % 23;
        seed = seed.wrapping_mul(1103515245).wrapping_add(12345);
        let b = (seed >> 16) % 23;
        let first = if a % 2 == 0 {
            native(&"x".repeat((a % 5) as usize))
        } else {
            token(&format!("t{}", a))
        };
        let second = if b % 3 == 0 { native(&format!("d{}", b)) } else { token(&format!("{}", b)) };
        let pair = [first, second];
        let known = pairs.contains(&pair);
        assert_eq!(registry.contains(&pair), known);
        let inserted = registry.insert_pending(pair.clone());
        if known {
            assert_eq!(inserted, Err(ContractError::PairAlreadyExists));
        } else {
            assert_eq!(inserted, Ok(()));
            pairs.push(pair);
        }
    }
    pairs.sort_by_key(|p| pair_key(p));
    assert_eq!(registry.len(), pairs.len());
    assert_eq!(infos(&registry.to_vec()), pairs);
    for (i, pair) in pairs.iter().enumerate() {
        let expected: Vec<[AssetInfo; 2]> = pairs[i + 1..].iter().take(10).cloned().collect();
        assert_eq!(infos(&registry.list(Some(pair), None)), expected);
        assert_eq!(registry.get(pair).unwrap().asset_infos, *pair);
    }
}
