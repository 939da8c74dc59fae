use cerberus_flex_gateway::sample_rate::SampleRate;
use cerberus_flex_gateway::sampler::{
    keyed_decision, threshold_for_rate, unit_interval, Coin, KeyedSampler, DOMAIN_AUTHORIZATION,
    DOMAIN_PRINCIPAL, DOMAIN_SESSION, DOMAIN_USER,
};

fn rate(r: f64) -> SampleRate {
    SampleRate { bits: r.to_bits() }
}

#[test]
fn coin_rate_zero_never_samples() {
    let mut s = Coin::new(rate(0.0), 42);
    assert!((0..1000).all(|_| !s.flip()));
}

#[test]
fn coin_rate_one_always_samples() {
    let mut s = Coin::new(rate(1.0), 42);
    assert!((0..1000).all(|_| s.flip()));
}

#[test]
fn coin_same_seed_and_rate_give_identical_sequence() {
    let mut a = Coin::new(rate(0.5), 0xDEAD_BEEF);
    let mut b = Coin::new(rate(0.5), 0xDEAD_BEEF);
    let seq_a: Vec<bool> = (0..64).map(|_| a.flip()).collect();
    let seq_b: Vec<bool> = (0..64).map(|_| b.flip()).collect();
    assert_eq!(seq_a, seq_b);
}

#[test]
fn coin_distribution_sanity_at_rate_point_three() {
    let mut s = Coin::new(rate(0.3), 12345);
    let sampled = (0..100_000).filter(|_| s.flip()).count();
    assert!(
        (28_000..=32_000).contains(&sampled),
        "expected ~30% of 100k draws, got {sampled}"
    );
}

#[test]
fn unit_interval_stays_in_range_for_extremes() {
    for x in [0u64, u64::MAX] {
        let u = unit_interval(x) as f64 / (1u64 << 53) as f64;
        assert!((0.0..1.0).contains(&u), "unit_interval({x}) = {u}");
    }
    assert_eq!(unit_interval(0), 0);
}

const KEY_MATERIAL: &str = "test-api-key";

#[test]
fn threshold_is_exact_for_dyadic_rates() {
    assert_eq!(threshold_for_rate(rate(0.5)), 1u64 << 63);
    assert_eq!(threshold_for_rate(rate(0.25)), 1u64 << 62);
    assert_eq!(threshold_for_rate(rate(0.0)), 0);
}

#[test]
fn keyed_decision_is_deterministic() {
    let a = keyed_decision(KEY_MATERIAL, DOMAIN_SESSION, "sess-1", None, rate(0.5));
    let b = keyed_decision(KEY_MATERIAL, DOMAIN_SESSION, "sess-1", None, rate(0.5));
    assert_eq!(a, b);
}

#[test]
fn keyed_sampler_matches_pure_decision() {
    let s = KeyedSampler::new(rate(0.5), KEY_MATERIAL);
    for i in 0..64 {
        let key = format!("sess-{i}");
        let (_, keep) = keyed_decision(KEY_MATERIAL, DOMAIN_SESSION, &key, None, rate(0.5));
        assert_eq!(s.keep(DOMAIN_SESSION, &key, None), keep, "key {key}");
    }
}

#[test]
fn sampled_sets_nest_across_rates() {
    for i in 0..300 {
        let key = format!("sess-{i}");
        let (_, at_10) = keyed_decision(KEY_MATERIAL, DOMAIN_SESSION, &key, None, rate(0.10));
        let (_, at_30) = keyed_decision(KEY_MATERIAL, DOMAIN_SESSION, &key, None, rate(0.30));
        if at_10 {
            assert!(at_30, "key {key} kept at 0.10 but dropped at 0.30");
        }
    }
}

#[test]
fn keyed_rate_bounds_short_circuit() {
    let never = KeyedSampler::new(rate(0.0), KEY_MATERIAL);
    let always = KeyedSampler::new(rate(1.0), KEY_MATERIAL);
    for i in 0..32 {
        let key = format!("k-{i}");
        assert!(!never.keep(DOMAIN_SESSION, &key, None));
        assert!(always.keep(DOMAIN_SESSION, &key, None));
    }
}

#[test]
fn domains_separate_identical_key_bytes() {
    let (h_session, _) = keyed_decision(KEY_MATERIAL, DOMAIN_SESSION, "shared-bytes", None, rate(0.5));
    let (h_auth, _) = keyed_decision(KEY_MATERIAL, DOMAIN_AUTHORIZATION, "shared-bytes", None, rate(0.5));
    let (h_user, _) = keyed_decision(KEY_MATERIAL, DOMAIN_USER, "shared-bytes", None, rate(0.5));
    assert_ne!(h_session, h_auth);
    assert_ne!(h_session, h_user);
    assert_ne!(h_auth, h_user);
}

#[test]
fn epoch_rotates_the_hash() {
    let (h_a, _) = keyed_decision(KEY_MATERIAL, DOMAIN_PRINCIPAL, "alice", Some(2950), rate(0.5));
    let (h_b, _) = keyed_decision(KEY_MATERIAL, DOMAIN_PRINCIPAL, "alice", Some(2951), rate(0.5));
    let (h_none, _) = keyed_decision(KEY_MATERIAL, DOMAIN_PRINCIPAL, "alice", None, rate(0.5));
    assert_ne!(h_a, h_b, "adjacent epochs must reshuffle");
    assert_ne!(h_a, h_none, "epoch-less hash is its own domain");
}

#[test]
fn epoch_reshuffles_but_preserves_rate() {
    for epoch in [1000u64, 1001] {
        let kept = (0..2000)
            .filter(|i| {
                keyed_decision(KEY_MATERIAL, DOMAIN_PRINCIPAL, &format!("u{i}"), Some(epoch), rate(0.5)).1
            })
            .count();
        assert!(
            (900..=1100).contains(&kept),
            "epoch {epoch}: expected ~1000 of 2000 kept, got {kept}"
        );
    }
}

#[test]
fn different_key_material_shuffles_the_sample() {
    let (h_a, _) = keyed_decision("token-a", DOMAIN_SESSION, "sess-1", None, rate(0.5));
    let (h_b, _) = keyed_decision("token-b", DOMAIN_SESSION, "sess-1", None, rate(0.5));
    assert_ne!(h_a, h_b);
}

#[test]
fn keyed_distribution_sanity_at_rate_point_three() {
    let kept = (0..10_000)
        .filter(|i| keyed_decision(KEY_MATERIAL, DOMAIN_SESSION, &format!("s{i}"), None, rate(0.3)).1)
        .count();
    assert!(
        (2_800..=3_200).contains(&kept),
        "expected ~30% of 10k keys kept, got {kept}"
    );
}
