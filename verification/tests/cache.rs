use pool_filters::address_map::AddressMap;
use pool_filters::cache::PriceCache;
use pool_filters::primitives::Address;

fn address(n: u128) -> Address {
    Address { hi: 0, lo: n }
}

#[test]
fn new_cache_knows_no_token() {
    let cache: PriceCache<f64> = PriceCache::new();
    assert_eq!(cache.get(address(1)), None);
}

#[test]
fn recorded_rate_is_found_again() {
    let mut cache: PriceCache<f64> = PriceCache::new();
    assert_eq!(cache.record(address(1), 0.25), 0.25);
    assert_eq!(cache.get(address(1)), Some(0.25));
    assert_eq!(cache.get(address(2)), None);
}

#[test]
fn second_rate_for_a_token_changes_nothing() {
    let mut cache: PriceCache<f64> = PriceCache::new();
    assert_eq!(cache.record(address(1), 0.25), 0.25);
    assert_eq!(cache.record(address(1), 4.0), 0.25);
    assert_eq!(cache.get(address(1)), Some(0.25));
}

#[test]
fn token_is_resolved_once_in_a_pass() {
    let mut cache: PriceCache<u64> = PriceCache::new();
    let mut resolutions = 0;
    let mut rates = vec![];
    for _ in 0..2 {
        let rate = match cache.get(address(7)) {
            Some(rate) => rate,
            None => {
                resolutions += 1;
                cache.record(address(7), 1000 + resolutions)
            }
        };
        rates.push(rate);
    }
    assert_eq!(resolutions, 1);
    assert_eq!(rates, vec![1001, 1001]);
}

#[test]
fn tokens_keep_their_own_rates() {
    let mut cache: PriceCache<u32> = PriceCache::new();
    cache.record(address(1), 10);
    cache.record(Address { hi: 1, lo: 1 }, 20);
    cache.record(address(2), 30);
    assert_eq!(cache.get(address(1)), Some(10));
    assert_eq!(cache.get(Address { hi: 1, lo: 1 }), Some(20));
    assert_eq!(cache.get(address(2)), Some(30));
    assert_eq!(cache.get(address(3)), None);
}

#[test]
fn map_keeps_the_first_value_at_an_address() {
    let mut map: AddressMap<u8> = AddressMap::new();
    assert!(!map.contains(address(1)));
    assert_eq!(map.insert_if_absent(address(1), 4), 4);
    assert_eq!(map.insert_if_absent(address(1), 5), 4);
    assert!(map.contains(address(1)));
    assert_eq!(map.get(address(1)), Some(4));
}

#[test]
fn map_tells_addresses_with_one_low_word_apart() {
    let mut map: AddressMap<u8> = AddressMap::new();
    let mut expected = vec![];
    for hi in 0..5u32 {
        for lo in 0..5u128 {
            let value = (hi * 5) as u8 + lo as u8;
            assert_eq!(map.insert_if_absent(Address { hi, lo }, value), value);
            expected.push((Address { hi, lo }, value));
        }
    }
    for (key, value) in expected {
        assert_eq!(map.get(key), Some(value));
        assert_eq!(map.insert_if_absent(key, 255), value);
    }
    assert_eq!(map.get(Address { hi: 5, lo: 0 }), None);
    assert_eq!(map.get(Address { hi: 0, lo: 5 }), None);
}
