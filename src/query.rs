use vstd::prelude::*;

use crate::text::{decimal, push_decimal};

verus! {

/// The parameters of one listings query.
pub struct AnimalOptions {
    pub species: String,
    pub size: String,
    pub gender: String,
    pub age: String,
    pub good_with_kids: String,
    pub good_with_animals: String,
    pub house_trained: String,
    pub location: u32,
}

/// Two queries are the same when every field holds the same value.
pub open spec fn same_query(a: AnimalOptions, b: AnimalOptions) -> bool {
    &&& a.species@ == b.species@
    &&& a.size@ == b.size@
    &&& a.gender@ == b.gender@
    &&& a.age@ == b.age@
    &&& a.good_with_kids@ == b.good_with_kids@
    &&& a.good_with_animals@ == b.good_with_animals@
    &&& a.house_trained@ == b.house_trained@
    &&& a.location == b.location
}

/// The word that stands for one character: its code point plus one, so never 0.
pub open spec fn char_word(c: char) -> u64 {
    ((c as u32) as u64 + 1) as u64
}

/// One text field as words: a word per character, then a 0 that ends the field.
pub open spec fn field_words(s: Seq<char>) -> Seq<u64> {
    s.map_values(|c: char| char_word(c)).push(0)
}

/// The whole query as words, field after field, the location last.
pub open spec fn query_words(q: AnimalOptions) -> Seq<u64> {
    field_words(q.species@) + (field_words(q.size@) + (field_words(q.gender@) + (field_words(
        q.age@,
    ) + (field_words(q.good_with_kids@) + (field_words(q.good_with_animals@) + (field_words(
        q.house_trained@,
    ) + seq![q.location as u64]))))))
}

pub const FNV_OFFSET: u64 = 0xcbf29ce484222325;

pub const FNV_PRIME: u64 = 0x100000001b3;

/// One FNV-1a round on a 64-bit word.
pub open spec fn fnv_step(h: u64, w: u64) -> u64 {
    (((h ^ w) as nat * FNV_PRIME as nat) % 0x1_0000_0000_0000_0000nat) as u64
}

/// FNV-1a folded over a sequence of words, starting from the state `h`.
pub open spec fn fnv_fold(h: u64, ws: Seq<u64>) -> u64
    decreases ws.len(),
{
    if ws.len() == 0 {
        h
    } else {
        fnv_step(fnv_fold(h, ws.drop_last()), ws.last())
    }
}

/// The fingerprint of a query: FNV-1a over its words from the standard offset basis.
pub open spec fn fingerprint_of(q: AnimalOptions) -> u64 {
    fnv_fold(FNV_OFFSET, query_words(q))
}

proof fn lemma_fnv_fold_append(h: u64, a: Seq<u64>, b: Seq<u64>)
    ensures
        fnv_fold(h, a + b) == fnv_fold(fnv_fold(h, a), b),
    decreases b.len(),
{
    if b.len() == 0 {
        assert(a + b =~= a);
    } else {
        lemma_fnv_fold_append(h, a, b.drop_last());
        assert((a + b).drop_last() =~= a + b.drop_last());
        assert((a + b).last() == b.last());
    }
}

proof fn lemma_char_word_injective(c: char, d: char)
    requires
        char_word(c) == char_word(d),
    ensures
        c == d,
{
}

/// A field's words determine the field and where the rest begins.
proof fn lemma_field_words_split(a: Seq<char>, b: Seq<char>, ra: Seq<u64>, rb: Seq<u64>)
    requires
        field_words(a) + ra == field_words(b) + rb,
    ensures
        a == b,
        ra == rb,
{
    let fa = field_words(a);
    let fb = field_words(b);
    let la = fa + ra;
    let lb = fb + rb;
    if a.len() < b.len() {
        assert(la[a.len() as int] == 0);
        assert(lb[a.len() as int] == char_word(b[a.len() as int]));
        assert(false);
    }
    if b.len() < a.len() {
        assert(lb[b.len() as int] == 0);
        assert(la[b.len() as int] == char_word(a[b.len() as int]));
        assert(false);
    }
    assert forall|i: int| 0 <= i < a.len() implies a[i] == b[i] by {
        assert(la[i] == lb[i]);
        lemma_char_word_injective(a[i], b[i]);
    }
    assert(a =~= b);
    assert(ra =~= la.subrange(fa.len() as int, la.len() as int));
    assert(rb =~= lb.subrange(fb.len() as int, lb.len() as int));
}

/// Queries have equal words exactly when they are the same query: a query that
/// differs from another in any field is hashed from different input.
pub proof fn lemma_query_words_injective(a: AnimalOptions, b: AnimalOptions)
    ensures
        query_words(a) == query_words(b) <==> same_query(a, b),
{
    if query_words(a) == query_words(b) {
        let ra1 = field_words(a.size@) + (field_words(a.gender@) + (field_words(a.age@) + (
        field_words(a.good_with_kids@) + (field_words(a.good_with_animals@) + (field_words(
            a.house_trained@,
        ) + seq![a.location as u64])))));
        let rb1 = field_words(b.size@) + (field_words(b.gender@) + (field_words(b.age@) + (
        field_words(b.good_with_kids@) + (field_words(b.good_with_animals@) + (field_words(
            b.house_trained@,
        ) + seq![b.location as u64])))));
        lemma_field_words_split(a.species@, b.species@, ra1, rb1);
        let ra2 = field_words(a.gender@) + (field_words(a.age@) + (field_words(a.good_with_kids@)
            + (field_words(a.good_with_animals@) + (field_words(a.house_trained@) + seq![
            a.location as u64,
        ]))));
        let rb2 = field_words(b.gender@) + (field_words(b.age@) + (field_words(b.good_with_kids@)
            + (field_words(b.good_with_animals@) + (field_words(b.house_trained@) + seq![
            b.location as u64,
        ]))));
        lemma_field_words_split(a.size@, b.size@, ra2, rb2);
        let ra3 = field_words(a.age@) + (field_words(a.good_with_kids@) + (field_words(
            a.good_with_animals@,
        ) + (field_words(a.house_trained@) + seq![a.location as u64])));
        let rb3 = field_words(b.age@) + (field_words(b.good_with_kids@) + (field_words(
            b.good_with_animals@,
        ) + (field_words(b.house_trained@) + seq![b.location as u64])));
        lemma_field_words_split(a.gender@, b.gender@, ra3, rb3);
        let ra4 = field_words(a.good_with_kids@) + (field_words(a.good_with_animals@) + (
        field_words(a.house_trained@) + seq![a.location as u64]));
        let rb4 = field_words(b.good_with_kids@) + (field_words(b.good_with_animals@) + (
        field_words(b.house_trained@) + seq![b.location as u64]));
        lemma_field_words_split(a.age@, b.age@, ra4, rb4);
        let ra5 = field_words(a.good_with_animals@) + (field_words(a.house_trained@) + seq![
            a.location as u64,
        ]);
        let rb5 = field_words(b.good_with_animals@) + (field_words(b.house_trained@) + seq![
            b.location as u64,
        ]);
        lemma_field_words_split(a.good_with_kids@, b.good_with_kids@, ra5, rb5);
        let ra6 = field_words(a.house_trained@) + seq![a.location as u64];
        let rb6 = field_words(b.house_trained@) + seq![b.location as u64];
        lemma_field_words_split(a.good_with_animals@, b.good_with_animals@, ra6, rb6);
        lemma_field_words_split(
            a.house_trained@,
            b.house_trained@,
            seq![a.location as u64],
            seq![b.location as u64],
        );
        assert(seq![a.location as u64][0] == seq![b.location as u64][0]);
    }
}

/// The fingerprint is a function of the query's values: the same query always
/// gets the same fingerprint, and a query that differs in any field is hashed
/// from different words.
pub proof fn lemma_fingerprint_deterministic(a: AnimalOptions, b: AnimalOptions)
    ensures
        same_query(a, b) ==> fingerprint_of(a) == fingerprint_of(b),
        !same_query(a, b) ==> query_words(a) != query_words(b),
{
    lemma_query_words_injective(a, b);
}

/// Folds one text field into the hash state `h`.
fn hash_field(h: u64, s: &String) -> (r: u64)
    ensures
        r == fnv_fold(h, field_words(s@)),
{
    let n = s.as_str().unicode_len();
    let mut acc: u64 = h;
    let mut i: usize = 0;
    while i < n
        invariant
            n == s@.len(),
            i <= n,
            acc == fnv_fold(h, s@.take(i as int).map_values(|c: char| char_word(c))),
        decreases n - i,
    {
        let c = s.as_str().get_char(i);
        let w: u64 = (c as u32) as u64 + 1;
        proof {
            let before = s@.take(i as int).map_values(|c: char| char_word(c));
            let after = s@.take(i as int + 1).map_values(|c: char| char_word(c));
            assert(after.drop_last() =~= before);
            assert(after.last() == w);
        }
        acc = (acc ^ w).wrapping_mul(FNV_PRIME);
        i = i + 1;
    }
    proof {
        let all = s@.map_values(|c: char| char_word(c));
        assert(s@.take(n as int) =~= s@);
        assert(field_words(s@).drop_last() =~= all);
    }
    (acc ^ 0).wrapping_mul(FNV_PRIME)
}

/// The upstream listings request for a query: every field as a parameter,
/// the pets-compatibility flag for both dogs and cats, a page of 100.
pub open spec fn listings_url_of(q: AnimalOptions) -> Seq<char> {
    "https://api.petfinder.com/v2/animals?type="@ + q.species@ + "&size="@ + q.size@
        + "&gender="@ + q.gender@ + "&age="@ + q.age@ + "&good_with_children="@
        + q.good_with_kids@ + "&good_with_dogs="@ + q.good_with_animals@ + "&good_with_cats="@
        + q.good_with_animals@ + "&house_trained="@ + q.house_trained@ + "&location="@ + decimal(
        q.location as nat,
    ) + "&limit=100"@
}

impl AnimalOptions {
    /// The query's fingerprint, the key of its cached results: FNV-1a over the
    /// query's words, the same on every run and every machine.
    pub fn fingerprint(&self) -> (r: u64)
        ensures
            r == fingerprint_of(*self),
    {
        let h1 = hash_field(FNV_OFFSET, &self.species);
        let h2 = hash_field(h1, &self.size);
        let h3 = hash_field(h2, &self.gender);
        let h4 = hash_field(h3, &self.age);
        let h5 = hash_field(h4, &self.good_with_kids);
        let h6 = hash_field(h5, &self.good_with_animals);
        let h7 = hash_field(h6, &self.house_trained);
        let r = (h7 ^ (self.location as u64)).wrapping_mul(FNV_PRIME);
        proof {
            let f1 = field_words(self.species@);
            let f2 = field_words(self.size@);
            let f3 = field_words(self.gender@);
            let f4 = field_words(self.age@);
            let f5 = field_words(self.good_with_kids@);
            let f6 = field_words(self.good_with_animals@);
            let f7 = field_words(self.house_trained@);
            let last = seq![self.location as u64];
            assert(fnv_fold(h7, last) == r) by {
                assert(last.drop_last() =~= Seq::<u64>::empty());
                assert(fnv_fold(h7, last.drop_last()) == h7);
                assert(last.last() == self.location as u64);
            }
            lemma_fnv_fold_append(h6, f7, last);
            lemma_fnv_fold_append(h5, f6, f7 + last);
            lemma_fnv_fold_append(h4, f5, f6 + (f7 + last));
            lemma_fnv_fold_append(h3, f4, f5 + (f6 + (f7 + last)));
            lemma_fnv_fold_append(h2, f3, f4 + (f5 + (f6 + (f7 + last))));
            lemma_fnv_fold_append(h1, f2, f3 + (f4 + (f5 + (f6 + (f7 + last)))));
            lemma_fnv_fold_append(FNV_OFFSET, f1, f2 + (f3 + (f4 + (f5 + (f6 + (f7 + last))))));
        }
        r
    }

    /// The URL of the upstream listings request for this query.
    pub fn listings_url(&self) -> (r: String)
        ensures
            r@ == listings_url_of(*self),
    {
        let mut s = String::from_str("https://api.petfinder.com/v2/animals?type=");
        s.append(self.species.as_str());
        s.append("&size=");
        s.append(self.size.as_str());
        s.append("&gender=");
        s.append(self.gender.as_str());
        s.append("&age=");
        s.append(self.age.as_str());
        s.append("&good_with_children=");
        s.append(self.good_with_kids.as_str());
        s.append("&good_with_dogs=");
        s.append(self.good_with_animals.as_str());
        s.append("&good_with_cats=");
        s.append(self.good_with_animals.as_str());
        s.append("&house_trained=");
        s.append(self.house_trained.as_str());
        s.append("&location=");
        push_decimal(&mut s, self.location as u64);
        s.append("&limit=100");
        s
    }
}

} // verus!
