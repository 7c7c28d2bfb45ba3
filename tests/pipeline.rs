use tsa_vr_2023_web_api::{
    cache_path, create_short_url, next_stage, Animal, AnimalData, AnimalOptions, Pagination,
    Stage, State, TokenResponse, UrlTable,
};

fn dog_query() -> AnimalOptions {
    AnimalOptions {
        species: "Dog".to_string(),
        size: "Medium".to_string(),
        gender: "Male".to_string(),
        age: "Young".to_string(),
        good_with_kids: "true".to_string(),
        good_with_animals: "true".to_string(),
        house_trained: "true".to_string(),
        location: 30301,
    }
}

fn upstream_page() -> AnimalData {
    let mut a = Animal::default();
    a.id = Some(65087362);
    a.organization_id = Some("GA575".to_string());
    a.url = Some("https://www.petfinder.com/dog/rex-65087362/ga/atlanta/org-ga575/".to_string());
    let mut b = Animal::default();
    b.id = Some(65087363);
    b.organization_id = Some("GA12".to_string());
    b.url = Some("https://www.petfinder.com/dog/max-65087363/ga/atlanta/org-ga12/".to_string());
    AnimalData {
        animals: vec![a, b],
        pagination: Pagination { count_per_page: 100, total_count: 2, current_page: 1, total_pages: 1 },
        timestamp: None,
    }
}

#[test]
fn cold_query_then_cached_query() {
    let now: u64 = 1_700_000_000;
    let query = dog_query();
    let mut state = State::new("id".to_string(), "SECRET-REDACTED".to_string());
    let mut table = UrlTable::new();

    // Cold cache: nothing stored, so the token is ensured and upstream is asked.
    let mut token_calls = 0;
    if state.needs_refresh(now) {
        token_calls += 1;
        state.apply_token_response(
            now,
            TokenResponse { token_type: "Bearer".to_string(), expires_in: 3600, access_token: "tok".to_string() },
        );
    }
    assert_eq!(token_calls, 1);
    assert_eq!(state.bearer_token(), "tok");
    assert_eq!(
        query.listings_url(),
        "https://api.petfinder.com/v2/animals?type=Dog&size=Medium&gender=Male&age=Young&good_with_children=true&good_with_dogs=true&good_with_cats=true&house_trained=true&location=30301&limit=100"
    );

    // The fetched page is stamped and cached under the query's fingerprint.
    let mut fetched = upstream_page();
    fetched.set_timestamp(now);
    let key = query.fingerprint();
    let path = cache_path(key);
    assert_eq!(path, format!("./cache/{}.json", key));
    let stored = fetched.clone();

    // Then its URLs are rewritten to short ones.
    create_short_url(&mut table, &mut fetched);
    assert_eq!(fetched.animals[0].url, Some("phqsh.tech/vr/65087362-GA575".to_string()));
    assert_eq!(fetched.animals[1].url, Some("phqsh.tech/vr/65087363-GA12".to_string()));

    // An identical query within twelve hours finds the same cache entry fresh,
    // and shortening the cached copy hands out the same short URLs.
    let later = now + 11 * 3600;
    assert_eq!(dog_query().fingerprint(), key);
    let mut cached = stored;
    assert!(cached.is_fresh(later));
    let entries_before = table.len();
    create_short_url(&mut table, &mut cached);
    assert_eq!(cached, fetched);
    assert_eq!(table.len(), entries_before);
    assert!(!state.needs_refresh(now + 1800));
    assert!(state.needs_refresh(later));
}

#[test]
fn stages_of_a_fresh_hit() {
    let s = next_stage(Stage::CheckCache, true);
    assert_eq!(s, Stage::Shorten);
    assert_eq!(next_stage(s, true), Stage::Return);
    assert_eq!(next_stage(Stage::Return, true), Stage::Return);
}

#[test]
fn stages_of_a_miss() {
    let mut seen = vec![Stage::CheckCache];
    let mut s = Stage::CheckCache;
    while s != Stage::Return {
        s = next_stage(s, false);
        seen.push(s);
    }
    assert_eq!(
        seen,
        vec![
            Stage::CheckCache,
            Stage::EnsureToken,
            Stage::UpstreamFetch,
            Stage::Cache,
            Stage::Shorten,
            Stage::Return
        ]
    );
}
