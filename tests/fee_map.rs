use fee_map::fee_map::{Error, FeeMap, ResponderId};
use fee_map::token::{Mob, Token, TokenId, MOB_MINIMUM_FEE};
use std::collections::BTreeMap;

/// Different fee maps/responder ids should result in different responder
/// ids.
#[test]
fn different_fee_maps_result_in_different_responder_ids() {
    let fee_map1 =
        FeeMap::try_from_iter(vec![(TokenId::from(Mob::ID), 100), (TokenId::from(2), 2000)]).unwrap();
    let fee_map2 =
        FeeMap::try_from_iter(vec![(TokenId::from(Mob::ID), 100), (TokenId::from(2), 300)]).unwrap();
    let fee_map3 =
        FeeMap::try_from_iter(vec![(TokenId::from(Mob::ID), 100), (TokenId::from(30), 300)]).unwrap();

    let responder_id1 = ResponderId("1.2.3.4:5".to_string());
    let responder_id2 = ResponderId("3.1.3.3:7".to_string());

    assert_ne!(
        fee_map1.responder_id(&responder_id1),
        fee_map2.responder_id(&responder_id1)
    );

    assert_ne!(
        fee_map1.responder_id(&responder_id1),
        fee_map3.responder_id(&responder_id1)
    );

    assert_ne!(
        fee_map2.responder_id(&responder_id1),
        fee_map3.responder_id(&responder_id1)
    );

    assert_ne!(
        fee_map1.responder_id(&responder_id1),
        fee_map1.responder_id(&responder_id2)
    );
}

/// Invalid fee maps are rejected.
#[test]
fn invalid_fee_maps_are_rejected() {
    let test_token_id = TokenId::from(2);

    // Missing MOB is not allowed
    assert_eq!(
        FeeMap::is_valid_map(&BTreeMap::default()),
        Err(Error::MissingFee(TokenId::from(Mob::ID))),
    );

    assert_eq!(
        FeeMap::is_valid_map(&BTreeMap::from_iter(vec![(*test_token_id, 100)])),
        Err(Error::MissingFee(TokenId::from(Mob::ID))),
    );

    // All fees must be >0
    assert_eq!(
        FeeMap::is_valid_map(&BTreeMap::from_iter(vec![(Mob::ID, 0)])),
        Err(Error::InvalidFee(TokenId::from(Mob::ID), 0)),
    );

    assert_eq!(
        FeeMap::is_valid_map(&BTreeMap::from_iter(vec![(Mob::ID, 10), (*test_token_id, 0)])),
        Err(Error::InvalidFee(test_token_id, 0)),
    );
}

#[test]
fn zero_fee_is_reported_before_missing_base_token() {
    let map = BTreeMap::from_iter(vec![(7u32, 5u64), (9, 0), (4, 0)]);
    assert_eq!(FeeMap::is_valid_map(&map), Err(Error::InvalidFee(TokenId::from(4), 0)));
}

#[test]
fn valid_map_is_accepted() {
    let map = BTreeMap::from_iter(vec![(Mob::ID, 1u64), (5, 3)]);
    assert_eq!(FeeMap::is_valid_map(&map), Ok(()));
}

#[test]
fn mob_minimum_fee_is_four_hundred_micromob() {
    assert_eq!(Mob::MINIMUM_FEE, 400_000_000);
    assert_eq!(MOB_MINIMUM_FEE, 400_000_000);
    assert_eq!(Mob::ID, 0);
}

#[test]
fn default_holds_only_the_base_token() {
    let fee_map = FeeMap::default();
    assert_eq!(fee_map.iter(), vec![(TokenId::from(0), 400_000_000)]);
    assert_eq!(fee_map.get_fee_for_token(&TokenId::from(Mob::ID)), Some(400_000_000));
    assert_eq!(fee_map.get_fee_for_token(&TokenId::from(1)), None);
    let mut expected = BTreeMap::new();
    expected.insert(0u32, 400_000_000u64);
    assert_eq!(FeeMap::default_map(), expected);
}

#[test]
fn reset_gives_the_default() {
    let mut fee_map =
        FeeMap::try_from_iter(vec![(TokenId::from(0), 7), (TokenId::from(3), 9)]).unwrap();
    let rid = ResponderId("node:1".to_string());
    assert_ne!(fee_map.responder_id(&rid), FeeMap::default().responder_id(&rid));
    assert_eq!(fee_map.update_or_default(None), Ok(()));
    assert_eq!(fee_map, FeeMap::default());
    assert_eq!(fee_map.responder_id(&rid), FeeMap::default().responder_id(&rid));
}

#[test]
fn update_takes_effect_immediately() {
    let mut fee_map = FeeMap::default();
    let rid = ResponderId("node:1".to_string());
    let before = fee_map.responder_id(&rid);
    let new_map = BTreeMap::from_iter(vec![(0u32, 10u64), (2, 20)]);
    assert_eq!(fee_map.update_or_default(Some(new_map.clone())), Ok(()));
    assert_eq!(fee_map.get_fee_for_token(&TokenId::from(0)), Some(10));
    assert_eq!(fee_map.get_fee_for_token(&TokenId::from(2)), Some(20));
    let after = fee_map.responder_id(&rid);
    assert_ne!(before, after);
    // The same contents again leave the digest as it was.
    assert_eq!(fee_map.update_or_default(Some(new_map)), Ok(()));
    assert_eq!(fee_map.responder_id(&rid), after);
}

#[test]
fn invalid_update_leaves_the_map_unchanged() {
    let mut fee_map = FeeMap::try_from_iter(vec![(TokenId::from(0), 5)]).unwrap();
    let copy = fee_map.clone();
    let bad = BTreeMap::from_iter(vec![(0u32, 5u64), (8, 0)]);
    assert_eq!(fee_map.update_or_default(Some(bad)), Err(Error::InvalidFee(TokenId::from(8), 0)));
    assert_eq!(fee_map, copy);
    let missing = BTreeMap::from_iter(vec![(8u32, 5u64)]);
    assert_eq!(fee_map.update_or_default(Some(missing)), Err(Error::MissingFee(TokenId::from(0))));
    assert_eq!(fee_map, copy);
}

#[test]
fn insertion_order_does_not_change_the_digest() {
    let a = FeeMap::try_from_iter(vec![
        (TokenId::from(0), 100),
        (TokenId::from(2), 300),
        (TokenId::from(30), 7),
    ])
    .unwrap();
    let b = FeeMap::try_from_iter(vec![
        (TokenId::from(30), 7),
        (TokenId::from(0), 100),
        (TokenId::from(2), 300),
    ])
    .unwrap();
    let rid = ResponderId("peer".to_string());
    assert_eq!(a, b);
    assert_eq!(a.responder_id(&rid), b.responder_id(&rid));
    let c = FeeMap::try_from_iter(vec![
        (TokenId::from(30), 8),
        (TokenId::from(0), 100),
        (TokenId::from(2), 300),
    ])
    .unwrap();
    assert_ne!(a.responder_id(&rid), c.responder_id(&rid));
}

#[test]
fn later_pair_replaces_earlier_one() {
    let f = FeeMap::try_from_iter(vec![
        (TokenId::from(0), 1),
        (TokenId::from(4), 0),
        (TokenId::from(4), 6),
    ])
    .unwrap();
    assert_eq!(f.get_fee_for_token(&TokenId::from(4)), Some(6));
    assert_eq!(
        FeeMap::try_from_iter(vec![(TokenId::from(0), 1), (TokenId::from(0), 0)]),
        Err(Error::InvalidFee(TokenId::from(0), 0))
    );
    assert_eq!(FeeMap::try_from_iter(vec![]), Err(Error::MissingFee(TokenId::from(0))));
}

#[test]
fn try_from_checks_the_map() {
    let ok = FeeMap::try_from(BTreeMap::from_iter(vec![(0u32, 3u64), (1, 4)])).unwrap();
    assert_eq!(ok.iter(), vec![(TokenId::from(0), 3), (TokenId::from(1), 4)]);
    assert_eq!(
        FeeMap::try_from(BTreeMap::from_iter(vec![(1u32, 4u64)])),
        Err(Error::MissingFee(TokenId::from(0)))
    );
}

#[test]
fn iter_is_in_ascending_order() {
    let f = FeeMap::try_from_iter(vec![
        (TokenId::from(9), 1),
        (TokenId::from(0), 2),
        (TokenId::from(3), 3),
    ])
    .unwrap();
    assert_eq!(
        f.iter(),
        vec![(TokenId::from(0), 2), (TokenId::from(3), 3), (TokenId::from(9), 1)]
    );
}

#[test]
fn responder_id_appends_a_hex_digest() {
    let f = FeeMap::default();
    let r = f.responder_id(&ResponderId("1.2.3.4:5".to_string()));
    let prefix = "1.2.3.4:5-";
    assert!(r.0.starts_with(prefix));
    let digest = &r.0[prefix.len()..];
    assert_eq!(digest.len(), 64);
    assert!(digest.chars().all(|c| c.is_ascii_digit() || ('a'..='f').contains(&c)));
    // The digest depends on the contents alone.
    assert_eq!(r, FeeMap::default().responder_id(&ResponderId("1.2.3.4:5".to_string())));
}

#[test]
fn token_id_accessors() {
    let t = TokenId::from(42);
    assert_eq!(t.value(), 42);
    assert_eq!(*t, 42);
    assert!(TokenId::from(1) < TokenId::from(2));
}
