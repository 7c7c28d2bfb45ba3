use tsa_vr_2023_web_api::{cache_path, is_fresh, push_decimal, push_decimal_i64, AnimalOptions, TTL};

fn options(species: &str, location: u32) -> AnimalOptions {
    AnimalOptions {
        species: species.to_string(),
        size: "Medium".to_string(),
        gender: "Male".to_string(),
        age: "Young".to_string(),
        good_with_kids: "true".to_string(),
        good_with_animals: "false".to_string(),
        house_trained: "true".to_string(),
        location,
    }
}

fn empty_options() -> AnimalOptions {
    AnimalOptions {
        species: String::new(),
        size: String::new(),
        gender: String::new(),
        age: String::new(),
        good_with_kids: String::new(),
        good_with_animals: String::new(),
        house_trained: String::new(),
        location: 0,
    }
}

#[test]
fn fingerprint_exact_values() {
    assert_eq!(options("Dog", 30301).fingerprint(), 9432293883243532144);
    assert_eq!(options("Cat", 30301).fingerprint(), 8419146470188785962);
    assert_eq!(empty_options().fingerprint(), 12161962213042174405);
}

#[test]
fn fingerprint_is_deterministic() {
    assert_eq!(options("Dog", 30301).fingerprint(), options("Dog", 30301).fingerprint());
}

#[test]
fn fingerprint_differs_in_each_field() {
    let base = options("Dog", 30301).fingerprint();
    let mut q = options("Dog", 30301);
    q.size = "Large".to_string();
    assert_ne!(q.fingerprint(), base);
    let mut q = options("Dog", 30301);
    q.gender = "Female".to_string();
    assert_ne!(q.fingerprint(), base);
    let mut q = options("Dog", 30301);
    q.age = "Adult".to_string();
    assert_ne!(q.fingerprint(), base);
    let mut q = options("Dog", 30301);
    q.good_with_kids = "false".to_string();
    assert_ne!(q.fingerprint(), base);
    let mut q = options("Dog", 30301);
    q.good_with_animals = "true".to_string();
    assert_ne!(q.fingerprint(), base);
    let mut q = options("Dog", 30301);
    q.house_trained = "false".to_string();
    assert_ne!(q.fingerprint(), base);
    assert_ne!(options("Dog", 30302).fingerprint(), base);
}

#[test]
fn fingerprint_field_boundaries_matter() {
    let mut a = empty_options();
    a.species = "ab".to_string();
    let mut b = empty_options();
    b.species = "a".to_string();
    b.size = "b".to_string();
    assert_ne!(a.fingerprint(), b.fingerprint());
}

#[test]
fn listings_url_carries_every_parameter() {
    assert_eq!(
        options("Dog", 30301).listings_url(),
        "https://api.petfinder.com/v2/animals?type=Dog&size=Medium&gender=Male&age=Young&good_with_children=true&good_with_dogs=false&good_with_cats=false&house_trained=true&location=30301&limit=100"
    );
}

#[test]
fn staleness_boundary() {
    let now: u64 = 1_700_000_000;
    assert!(!is_fresh(Some(now - TTL - 1), now));
    assert!(!is_fresh(Some(now - TTL), now));
    assert!(is_fresh(Some(now - TTL + 1), now));
    assert!(is_fresh(Some(now), now));
    assert!(is_fresh(Some(now + 5), now));
    assert!(!is_fresh(None, now));
    assert_eq!(TTL, 12 * 60 * 60);
}

#[test]
fn cache_path_names_the_fingerprint() {
    assert_eq!(cache_path(0), "./cache/0.json");
    assert_eq!(cache_path(9432293883243532144), "./cache/9432293883243532144.json");
}

#[test]
fn decimal_forms() {
    let mut s = String::from("n=");
    push_decimal(&mut s, 0);
    assert_eq!(s, "n=0");
    let mut s = String::new();
    push_decimal(&mut s, u64::MAX);
    assert_eq!(s, "18446744073709551615");
    let mut s = String::new();
    push_decimal_i64(&mut s, -65087362);
    assert_eq!(s, "-65087362");
    let mut s = String::new();
    push_decimal_i64(&mut s, i64::MIN);
    assert_eq!(s, "-9223372036854775808");
    let mut s = String::new();
    push_decimal_i64(&mut s, 1000);
    assert_eq!(s, "1000");
}
