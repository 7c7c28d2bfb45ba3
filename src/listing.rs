use vstd::prelude::*;

use crate::cache::{fresh_at, is_fresh};
use crate::text::{decimal_i64, push_decimal_i64};
use crate::urls::{extends, lemma_table_after_only_adds, short_url_at, table_after, UrlTable};

verus! {

#[derive(Default, Debug, Clone, PartialEq)]
pub struct Breeds {
    pub primary: Option<String>,
    pub secondary: Option<String>,
    pub mixed: Option<bool>,
    pub unknown: Option<bool>,
}

#[derive(Default, Debug, Clone, PartialEq)]
pub struct Colors {
    pub primary: Option<String>,
    pub secondary: Option<String>,
    pub tertiary: Option<String>,
}

#[derive(Default, Debug, Clone, PartialEq)]
pub struct Attributes {
    pub spayed_neutered: Option<bool>,
    pub house_trained: Option<bool>,
    pub declawed: Option<bool>,
    pub special_needs: Option<bool>,
    pub shots_current: Option<bool>,
}

#[derive(Default, Debug, Clone, PartialEq)]
pub struct Environment {
    pub children: Option<bool>,
    pub dogs: Option<bool>,
    pub cats: Option<bool>,
}

#[derive(Default, Debug, Clone, PartialEq)]
pub struct Photo {
    pub small: Option<String>,
    pub medium: Option<String>,
    pub large: Option<String>,
    pub full: Option<String>,
}

#[derive(Default, Debug, Clone, PartialEq)]
pub struct PrimaryPhotoCropped {
    pub small: Option<String>,
    pub medium: Option<String>,
    pub large: Option<String>,
    pub full: Option<String>,
}

#[derive(Default, Debug, Clone, PartialEq)]
pub struct Address {
    pub address1: Option<String>,
    pub address2: Option<String>,
    pub city: Option<String>,
    pub state: Option<String>,
    pub postcode: Option<String>,
    pub country: Option<String>,
}

#[derive(Default, Debug, Clone, PartialEq)]
pub struct Contact {
    pub email: Option<String>,
    pub phone: Option<String>,
    pub address: Option<Address>,
}

#[derive(Default, Debug, Clone, PartialEq)]
pub struct SelfField {
    pub href: Option<String>,
}

#[derive(Default, Debug, Clone, PartialEq)]
pub struct Type {
    pub href: Option<String>,
}

#[derive(Default, Debug, Clone, PartialEq)]
pub struct Organization {
    pub href: Option<String>,
}

#[derive(Default, Debug, Clone, PartialEq)]
pub struct Links {
    pub self_field: Option<SelfField>,
    pub type_field: Option<Type>,
    pub organization: Option<Organization>,
}

#[derive(Default, Debug, Clone, PartialEq)]
pub struct Pagination {
    pub count_per_page: i64,
    pub total_count: i64,
    pub current_page: i64,
    pub total_pages: i64,
}

/// One listing. Everything but `url` is carried through unchanged; the distance
/// from the searched location, a floating-point value, stays with the caller.
#[derive(Default, Debug, Clone, PartialEq)]
pub struct Animal {
    pub id: Option<i64>,
    pub organization_id: Option<String>,
    pub url: Option<String>,
    pub type_field: Option<String>,
    pub species: Option<String>,
    pub breeds: Option<Breeds>,
    pub colors: Option<Colors>,
    pub age: Option<String>,
    pub gender: Option<String>,
    pub size: Option<String>,
    pub coat: Option<String>,
    pub attributes: Option<Attributes>,
    pub environment: Option<Environment>,
    pub tags: Option<Vec<String>>,
    pub name: Option<String>,
    pub description: Option<String>,
    pub organization_animal_id: Option<String>,
    pub photos: Option<Vec<Photo>>,
    pub primary_photo_cropped: Option<PrimaryPhotoCropped>,
    pub status: Option<String>,
    pub status_changed_at: Option<String>,
    pub published_at: Option<String>,
    pub contact: Option<Contact>,
    pub links: Option<Links>,
}

/// A page of listings with its pagination and the time it was fetched, in
/// seconds since the epoch.
#[derive(Default, Debug, Clone, PartialEq)]
pub struct AnimalData {
    pub animals: Vec<Animal>,
    pub pagination: Pagination,
    pub timestamp: Option<u64>,
}

/// The long URL that a listing is shortened from: its URL, or `unknown`.
pub open spec fn long_url_of(a: Animal) -> Seq<char> {
    match a.url {
        Some(u) => u@,
        None => "unknown"@,
    }
}

/// The code a listing's URL gets: `<id>-<organization id>`, with `-1` for a
/// missing id and `unknown` for a missing organization.
pub open spec fn short_code_of(a: Animal) -> Seq<char> {
    let id = match a.id {
        Some(v) => v as int,
        None => -1,
    };
    let org = match a.organization_id {
        Some(o) => o@,
        None => "unknown"@,
    };
    decimal_i64(id) + "-"@ + org
}

/// The (long URL, code) pairs of the listings, in order.
pub open spec fn listing_items(animals: Seq<Animal>) -> Seq<(Seq<char>, Seq<char>)> {
    animals.map_values(|a: Animal| (long_url_of(a), short_code_of(a)))
}

/// Two listings agree in everything but their URL.
pub open spec fn same_but_url(a: Animal, b: Animal) -> bool {
    Animal { url: None, ..a } == Animal { url: None, ..b }
}

impl Animal {
    /// The long URL this listing is shortened from.
    pub fn long_url(&self) -> (r: String)
        ensures
            r@ == long_url_of(*self),
    {
        match &self.url {
            Some(u) => u.clone(),
            None => String::from_str("unknown"),
        }
    }

    /// The short code of this listing.
    pub fn short_code(&self) -> (r: String)
        ensures
            r@ == short_code_of(*self),
    {
        let mut s = String::new();
        match self.id {
            Some(v) => push_decimal_i64(&mut s, v),
            None => push_decimal_i64(&mut s, -1),
        }
        s.append("-");
        match &self.organization_id {
            Some(o) => s.append(o.as_str()),
            None => s.append("unknown"),
        }
        s
    }
}

impl AnimalData {
    /// Stamps the page with its fetch time, `now` in seconds since the epoch.
    pub fn set_timestamp(&mut self, now: u64)
        ensures
            final(self).timestamp == Some(now),
            final(self).animals == old(self).animals,
            final(self).pagination == old(self).pagination,
    {
        self.timestamp = Some(now);
    }

    /// Whether the page may still be served at `now`.
    pub fn is_fresh(&self, now: u64) -> (r: bool)
        ensures
            r == fresh_at(self.timestamp, now),
    {
        is_fresh(self.timestamp, now)
    }
}

/// Replaces the URL of every listing in `animal_data` by its short URL, in
/// order, recording new codes in `table`, which only grows. Everything else in
/// the page stays.
pub fn create_short_url(table: &mut UrlTable, animal_data: &mut AnimalData)
    requires
        old(table).wf(),
    ensures
        final(table).wf(),
        extends(final(table)@, old(table)@),
        final(table)@ == table_after(old(table)@, listing_items(old(animal_data).animals@)),
        final(animal_data).animals@.len() == old(animal_data).animals@.len(),
        forall|i: int|
            0 <= i < final(animal_data).animals@.len() ==> {
                let a = #[trigger] final(animal_data).animals@[i];
                &&& a.url is Some
                &&& a.url.unwrap()@ == short_url_at(
                    old(table)@,
                    listing_items(old(animal_data).animals@),
                    i,
                )
                &&& same_but_url(a, old(animal_data).animals@[i])
            },
        final(animal_data).pagination == old(animal_data).pagination,
        final(animal_data).timestamp == old(animal_data).timestamp,
{
    let ghost es0 = table@;
    let ghost animals0 = animal_data.animals@;
    let ghost items = listing_items(animals0);
    let n = animal_data.animals.len();
    let mut i: usize = 0;
    while i < n
        invariant
            n == animals0.len(),
            i <= n,
            items == listing_items(animals0),
            table.wf(),
            table@ == table_after(es0, items.take(i as int)),
            animal_data.animals@.len() == n,
            forall|j: int| i <= j < n ==> #[trigger] animal_data.animals@[j] == animals0[j],
            forall|j: int|
                0 <= j < i ==> {
                    let a = #[trigger] animal_data.animals@[j];
                    &&& a.url is Some
                    &&& a.url.unwrap()@ == short_url_at(es0, items, j)
                    &&& same_but_url(a, animals0[j])
                },
            animal_data.pagination == old(animal_data).pagination,
            animal_data.timestamp == old(animal_data).timestamp,
        decreases n - i,
    {
        let long_url = animal_data.animals[i].long_url();
        let code = animal_data.animals[i].short_code();
        let short = table.shorten(&long_url, &code);
        animal_data.animals[i].url = Some(short);
        proof {
            assert(items[i as int] == (long_url@, code@));
            assert(items.take(i as int + 1).drop_last() =~= items.take(i as int));
            assert(items.take(i as int + 1).last() == items[i as int]);
        }
        i = i + 1;
    }
    proof {
        assert(items.take(n as int) =~= items);
        lemma_table_after_only_adds(es0, items);
    }
}

} // verus!
