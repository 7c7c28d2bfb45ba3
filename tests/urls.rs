use tsa_vr_2023_web_api::{
    create_short_url, look_up_url, short_url, Animal, AnimalData, Breeds, Pagination, UrlTable,
};

fn s(x: &str) -> String {
    x.to_string()
}

fn listing(id: Option<i64>, org: Option<&str>, url: Option<&str>) -> Animal {
    Animal {
        id,
        organization_id: org.map(s),
        url: url.map(s),
        ..Default::default()
    }
}

fn page(animals: Vec<Animal>) -> AnimalData {
    AnimalData {
        animals,
        pagination: Pagination { count_per_page: 100, total_count: 2, current_page: 1, total_pages: 1 },
        timestamp: Some(1_700_000_000),
    }
}

fn table_entries(t: &UrlTable) -> Vec<(String, String)> {
    let mut v = Vec::new();
    for i in 0..t.len() {
        let (k, u) = t.entry(i);
        v.push((k.clone(), u.clone()));
    }
    v
}

#[test]
fn new_table_is_empty() {
    let t = UrlTable::new();
    assert_eq!(t.len(), 0);
    assert_eq!(look_up_url(&t, &s("1-A")), None);
}

#[test]
fn short_url_form() {
    assert_eq!(short_url(&s("65087362-GA575")), "phqsh.tech/vr/65087362-GA575");
}

#[test]
fn insert_and_resolve() {
    let mut t = UrlTable::new();
    assert!(t.insert(s("1-A"), s("https://x/1")));
    assert!(t.insert(s("2-B"), s("https://x/2")));
    assert_eq!(t.len(), 2);
    assert_eq!(t.resolve(&s("1-A")), Some(s("https://x/1")));
    assert_eq!(look_up_url(&t, &s("2-B")), Some(s("https://x/2")));
    assert_eq!(look_up_url(&t, &s("3-C")), None);
    assert!(!t.insert(s("1-A"), s("https://x/1b")));
    assert_eq!(t.len(), 2);
    assert_eq!(look_up_url(&t, &s("1-A")), Some(s("https://x/1")));
    assert_eq!(table_entries(&t)[0], (s("1-A"), s("https://x/1")));
}

#[test]
fn shorten_records_a_new_code() {
    let mut t = UrlTable::new();
    let r = t.shorten(&s("https://x/dog"), &s("65087362-GA575"));
    assert_eq!(r, "phqsh.tech/vr/65087362-GA575");
    assert_eq!(table_entries(&t), vec![(s("65087362-GA575"), s("https://x/dog"))]);
}

#[test]
fn same_long_url_gets_same_code() {
    let mut t = UrlTable::new();
    let a = t.shorten(&s("https://x/dog"), &s("1-A"));
    let b = t.shorten(&s("https://x/dog"), &s("2-B"));
    assert_eq!(a, "phqsh.tech/vr/1-A");
    assert_eq!(b, a);
    assert_eq!(t.len(), 1);
}

#[test]
fn shortening_a_short_url_keeps_it() {
    let mut t = UrlTable::new();
    let a = t.shorten(&s("https://x/dog"), &s("1-A"));
    let b = t.shorten(&a, &s("9-Z"));
    assert_eq!(b, a);
    assert_eq!(table_entries(&t), vec![(s("1-A"), s("https://x/dog"))]);
}

#[test]
fn code_clash_gets_a_suffix() {
    let mut t = UrlTable::new();
    t.shorten(&s("https://x/old"), &s("1-A"));
    let r = t.shorten(&s("https://x/new"), &s("1-A"));
    assert_eq!(r, "phqsh.tech/vr/1-A-1");
    let r = t.shorten(&s("https://x/newer"), &s("1-A"));
    assert_eq!(r, "phqsh.tech/vr/1-A-2");
    assert_eq!(
        table_entries(&t),
        vec![
            (s("1-A"), s("https://x/old")),
            (s("1-A-1"), s("https://x/new")),
            (s("1-A-2"), s("https://x/newer"))
        ]
    );
}

#[test]
fn short_url_of_a_code_is_recognised_first() {
    let mut t = UrlTable::new();
    assert!(t.insert(s("1-A"), s("phqsh.tech/vr/2-B")));
    let short = t.shorten(&s("https://x/dog"), &s("2-B"));
    assert_eq!(short, "phqsh.tech/vr/2-B");
    let again = t.shorten(&short, &s("9-Z"));
    assert_eq!(again, "phqsh.tech/vr/2-B");
    assert_eq!(t.len(), 2);
}

#[test]
fn colliding_codes_keep_every_mapping() {
    let mut t = UrlTable::new();
    let mut data = page(vec![
        listing(Some(1), Some("b"), Some("x")),
        listing(Some(1), Some("b"), Some("y")),
        listing(Some(1), Some("q"), Some("x")),
    ]);
    create_short_url(&mut t, &mut data);
    assert_eq!(data.animals[0].url, Some(s("phqsh.tech/vr/1-b")));
    assert_eq!(data.animals[1].url, Some(s("phqsh.tech/vr/1-b-1")));
    assert_eq!(data.animals[2].url, Some(s("phqsh.tech/vr/1-b")));
    assert_eq!(look_up_url(&t, &s("1-b")), Some(s("x")));
    assert_eq!(look_up_url(&t, &s("1-b-1")), Some(s("y")));
    assert_eq!(t.len(), 2);

    let mut cached = page(vec![
        listing(Some(1), Some("b"), Some("x")),
        listing(Some(1), Some("b"), Some("y")),
        listing(Some(1), Some("q"), Some("x")),
    ]);
    create_short_url(&mut t, &mut cached);
    assert_eq!(cached, data);
    assert_eq!(t.len(), 2);
}

#[test]
fn stored_mapping_is_never_replaced() {
    let mut t = UrlTable::new();
    assert!(t.insert(s("1-b"), s("x")));
    let mut data = page(vec![listing(Some(1), Some("b"), Some("y")), listing(Some(7), Some("z"), Some("x"))]);
    create_short_url(&mut t, &mut data);
    assert_eq!(data.animals[0].url, Some(s("phqsh.tech/vr/1-b-1")));
    assert_eq!(data.animals[1].url, Some(s("phqsh.tech/vr/1-b")));
    assert_eq!(look_up_url(&t, &s("1-b")), Some(s("x")));
    assert_eq!(look_up_url(&t, &s("1-b-1")), Some(s("y")));
}

#[test]
fn batch_with_shared_codes_keeps_all_entries() {
    let mut t = UrlTable::new();
    let mut animals = Vec::new();
    for i in 0..5 {
        animals.push(listing(None, None, Some(&format!("https://x/{}", i))));
    }
    let mut data = page(animals);
    create_short_url(&mut t, &mut data);
    assert_eq!(t.len(), 5);
    assert_eq!(data.animals[0].url, Some(s("phqsh.tech/vr/-1-unknown")));
    assert_eq!(data.animals[4].url, Some(s("phqsh.tech/vr/-1-unknown-4")));
    assert_eq!(look_up_url(&t, &s("-1-unknown-3")), Some(s("https://x/3")));
}

#[test]
fn short_code_defaults() {
    assert_eq!(listing(Some(65087362), Some("GA575"), None).short_code(), "65087362-GA575");
    assert_eq!(listing(None, None, None).short_code(), "-1-unknown");
    assert_eq!(listing(Some(-7), Some("X"), None).short_code(), "-7-X");
    assert_eq!(listing(None, None, None).long_url(), "unknown");
    assert_eq!(listing(None, None, Some("https://x/1")).long_url(), "https://x/1");
}

#[test]
fn batch_of_distinct_listings_keeps_all_entries() {
    let mut t = UrlTable::new();
    let mut animals = Vec::new();
    for i in 0..20i64 {
        animals.push(listing(Some(i), Some("ORG"), Some(&format!("https://x/{}", i))));
    }
    let mut data = page(animals);
    create_short_url(&mut t, &mut data);
    assert_eq!(t.len(), 20);
    for i in 0..20usize {
        let code = format!("{}-ORG", i);
        assert_eq!(data.animals[i].url, Some(format!("phqsh.tech/vr/{}", code)));
        assert_eq!(look_up_url(&t, &code), Some(format!("https://x/{}", i)));
    }
}

#[test]
fn batch_keeps_everything_but_the_url() {
    let mut t = UrlTable::new();
    let mut a = listing(Some(5), Some("OR1"), Some("https://x/5"));
    a.name = Some(s("Rex"));
    a.breeds = Some(Breeds { primary: Some(s("Beagle")), secondary: None, mixed: Some(false), unknown: None });
    a.tags = Some(vec![s("Friendly")]);
    let mut data = page(vec![a.clone(), listing(None, None, None)]);
    let before = data.clone();
    create_short_url(&mut t, &mut data);
    let mut expected = a;
    expected.url = Some(s("phqsh.tech/vr/5-OR1"));
    assert_eq!(data.animals[0], expected);
    assert_eq!(data.animals[1].url, Some(s("phqsh.tech/vr/-1-unknown")));
    assert_eq!(data.pagination, before.pagination);
    assert_eq!(data.timestamp, before.timestamp);
    assert_eq!(look_up_url(&t, &s("-1-unknown")), Some(s("unknown")));
}

#[test]
fn batch_with_repeated_url_shares_the_code() {
    let mut t = UrlTable::new();
    let mut data = page(vec![
        listing(Some(1), Some("A"), Some("https://x/same")),
        listing(Some(2), Some("B"), Some("https://x/same")),
    ]);
    create_short_url(&mut t, &mut data);
    assert_eq!(data.animals[0].url, Some(s("phqsh.tech/vr/1-A")));
    assert_eq!(data.animals[1].url, Some(s("phqsh.tech/vr/1-A")));
    assert_eq!(t.len(), 1);
}

#[test]
fn reshortening_a_shortened_page_changes_nothing() {
    let mut t = UrlTable::new();
    let mut data = page(vec![listing(Some(1), Some("A"), Some("https://x/1"))]);
    create_short_url(&mut t, &mut data);
    let once = data.clone();
    create_short_url(&mut t, &mut data);
    assert_eq!(data, once);
    assert_eq!(t.len(), 1);
}
