use bloom::{calc_k, calc_m, BloomFilter, ConfigError, Rate};

#[test]
fn m() {
    let (n, f) = (1_000_000, Rate { num: 2, den: 100 });
    assert_eq!(calc_m(n, f), 8_142_363);
}

#[test]
fn k() {
    let (n, m) = (1_000_000, 8_142_363);
    assert_eq!(calc_k(n, m), 5);
}

#[test]
fn size() {
    let bloom = BloomFilter::new(100_000, Rate { num: 1, den: 100 }).unwrap();
    assert_eq!(bloom.size(), 119813);
}

#[test]
fn contains_true() {
    let mut bloom = BloomFilter::new(100_000, Rate { num: 1, den: 100 }).unwrap();
    bloom.insert(&"hi");
    assert!(bloom.contains(&"hi"));
}

#[test]
fn contains_false() {
    let mut bloom = BloomFilter::new(100_000, Rate { num: 1, den: 100 }).unwrap();
    bloom.insert(&"hi");
    assert!(!bloom.contains(&"yo"));
}

fn check_sync<T: Sync>(_t: &T) {}

fn check_send<T: Send>(_t: &T) {}

#[test]
fn thread_safe() {
    let b = BloomFilter::new(100_000, Rate { num: 1, den: 100 }).unwrap();
    check_sync(&b);
    check_send(&b);
}

#[test]
fn end_to_end_example() {
    let mut bloom = BloomFilter::new(100_000, Rate { num: 1, den: 100 }).unwrap();
    bloom.insert(&"hi");
    assert!(bloom.contains(&"hi"));
    bloom.insert(&"no");
    assert!(bloom.contains(&"no"));
    assert!(bloom.contains(&"hi"));
    assert!(!bloom.contains(&"yo"));
}

#[test]
fn rate_validity() {
    assert!(Rate { num: 1, den: 2 }.is_valid());
    assert!(Rate { num: 99, den: 100 }.is_valid());
    assert!(!Rate { num: 0, den: 100 }.is_valid());
    assert!(!Rate { num: 100, den: 100 }.is_valid());
    assert!(!Rate { num: 101, den: 100 }.is_valid());
    assert!(!Rate { num: 1, den: 0 }.is_valid());
}


fn expect_err(r: Result<BloomFilter, ConfigError>) -> ConfigError {
    match r {
        Err(e) => e,
        Ok(_) => panic!("expected a configuration error"),
    }
}

#[test]
fn zero_elements_rejected() {
    let r = BloomFilter::new(0, Rate { num: 1, den: 100 });
    assert_eq!(expect_err(r), ConfigError::InvalidParameters);
}

#[test]
fn invalid_rate_rejected() {
    let r = BloomFilter::new(100, Rate { num: 100, den: 100 });
    assert_eq!(expect_err(r), ConfigError::InvalidParameters);
    let r = BloomFilter::new(100, Rate { num: 0, den: 100 });
    assert_eq!(expect_err(r), ConfigError::InvalidParameters);
}

#[test]
fn oversized_filter_rejected() {
    let r = BloomFilter::new(usize::MAX, Rate { num: 1, den: u64::MAX });
    assert_eq!(expect_err(r), ConfigError::TooLarge);
}

#[test]
fn parameters_clamped_to_one() {
    // A rate close to one asks for less than one bit and less than one
    // hash function; both derivations clamp to one.
    assert_eq!(calc_m(1, Rate { num: 99, den: 100 }), 1);
    assert_eq!(calc_k(1_000_000, 1), 1);
    let tiny = BloomFilter::new(1, Rate { num: 99, den: 100 }).unwrap();
    assert_eq!(tiny.size(), 0);
}

#[test]
fn insert_is_idempotent() {
    let mut once = BloomFilter::new(1_000, Rate { num: 1, den: 100 }).unwrap();
    let mut twice = BloomFilter::new(1_000, Rate { num: 1, den: 100 }).unwrap();
    once.insert(&"hi");
    twice.insert(&"hi");
    twice.insert(&"hi");
    for probe in 0..1_000u64 {
        assert_eq!(once.contains(&probe), twice.contains(&probe));
    }
    assert_eq!(once.contains(&"hi"), twice.contains(&"hi"));
    assert_eq!(once.contains(&"yo"), twice.contains(&"yo"));
}

#[test]
fn determinism_across_runs() {
    let mut a = BloomFilter::new(10_000, Rate { num: 1, den: 100 }).unwrap();
    let mut b = BloomFilter::new(10_000, Rate { num: 1, den: 100 }).unwrap();
    for item in 0..500u64 {
        a.insert(&item);
        b.insert(&item);
    }
    a.insert(&"shared");
    b.insert(&"shared");
    for probe in 0..2_000u64 {
        assert_eq!(a.contains(&probe), b.contains(&probe));
    }
    assert_eq!(a.contains(&"shared"), b.contains(&"shared"));
    assert_eq!(a.contains(&"other"), b.contains(&"other"));
}

#[test]
fn no_false_negatives_with_interleaving() {
    let mut bloom = BloomFilter::new(5_000, Rate { num: 1, den: 100 }).unwrap();
    for item in 0..2_000u64 {
        bloom.insert(&item);
    }
    for item in 0..2_000u64 {
        assert!(bloom.contains(&item));
    }
}

#[test]
fn integer_items_hash_distinctly() {
    let mut bloom = BloomFilter::new(1_000, Rate { num: 1, den: 1_000 }).unwrap();
    bloom.insert(&5u64);
    assert!(bloom.contains(&5u64));
    assert!(!bloom.contains(&6u64));
}

#[test]
fn byte_vector_items() {
    let mut bloom = BloomFilter::new(1_000, Rate { num: 1, den: 1_000 }).unwrap();
    let payload: Vec<u8> = vec![1, 2, 3];
    bloom.insert(&payload);
    assert!(bloom.contains(&payload));
    let other: Vec<u8> = vec![1, 2, 4];
    assert!(!bloom.contains(&other));
    let empty: Vec<u8> = Vec::new();
    assert!(!bloom.contains(&empty));
}

#[test]
fn owned_and_borrowed_strings_agree() {
    let mut bloom = BloomFilter::new(1_000, Rate { num: 1, den: 1_000 }).unwrap();
    bloom.insert(&String::from("hi"));
    assert!(bloom.contains(&"hi"));
    assert!(!bloom.contains(&"yo"));
}

#[test]
fn false_positive_rate_is_bounded() {
    let mut bloom = BloomFilter::new(100_000, Rate { num: 1, den: 100 }).unwrap();
    for item in 0..100_000u64 {
        bloom.insert(&item);
    }
    for item in 0..100_000u64 {
        assert!(bloom.contains(&item));
    }
    let mut false_positives: u64 = 0;
    for item in 100_000..200_000u64 {
        if bloom.contains(&item) {
            false_positives += 1;
        }
    }
    // The target rate is 0.01; accept anything within a factor of two.
    assert!(false_positives >= 500, "false positives: {false_positives}");
    assert!(false_positives <= 2_000, "false positives: {false_positives}");
}
