//! The table behind every dispatcher: values filed under a discriminant and a tag.

use crate::model::{count, holds, tags, Key};
use vstd::prelude::*;
use vstd::string::StringSliceAdditionalSpecFns;

verus! {

/// One registration: a tag and what was registered under it.
pub struct Slot<T> {
    pub tag: String,
    pub value: T,
}

/// The registrations of one discriminant.
struct Bucket<T> {
    discriminant: String,
    slots: Vec<Slot<T>>,
}

/// A table of values, each filed under a discriminant and a tag.
///
/// Its view is the partial map from (discriminant, tag) to the value filed
/// there. No pair is held twice.
pub struct Registry<T> {
    buckets: Vec<Bucket<T>>,
}

/// Whether no tag stands twice in `slots`.
pub open spec fn distinct_tags<T>(slots: Seq<Slot<T>>) -> bool {
    forall|i: int, j: int| 0 <= i < j < slots.len() ==> slots[i].tag@ != slots[j].tag@
}

/// Whether some slot of `slots` carries `tag`.
pub open spec fn has_tag<T>(slots: Seq<Slot<T>>, tag: Seq<char>) -> bool {
    exists|j: int| 0 <= j < slots.len() && (#[trigger] slots[j]).tag@ == tag
}

/// Whether `slots` lists what `registry` holds under `discriminant`: every
/// registration there stands in `slots` once, with its value, and nothing else
/// does.
pub open spec fn lists_bucket<T>(
    slots: Seq<Slot<T>>,
    registry: Map<Key, T>,
    discriminant: Seq<char>,
) -> bool {
    &&& distinct_tags(slots)
    &&& forall|j: int|
        0 <= j < slots.len() ==> {
            &&& registry.contains_key((discriminant, #[trigger] slots[j].tag@))
            &&& registry[(discriminant, slots[j].tag@)] == slots[j].value
        }
    &&& forall|tag: Seq<char>| #[trigger]
        registry.contains_key((discriminant, tag)) ==> has_tag(slots, tag)
}

/// A listing of a bucket has as many slots as the registry holds values under
/// that discriminant.
pub proof fn lemma_listing_counts<T>(
    slots: Seq<Slot<T>>,
    registry: Map<Key, T>,
    discriminant: Seq<char>,
)
    requires
        lists_bucket(slots, registry, discriminant),
    ensures
        tags(registry.dom(), discriminant).finite(),
        count(registry.dom(), discriminant) == slots.len(),
{
    let names = slots.map_values(|slot: Slot<T>| slot.tag@);
    assert(names.no_duplicates()) by {
        assert forall|i: int, j: int|
            0 <= i < names.len() && 0 <= j < names.len() && i != j implies names[i] != names[j] by {
            if i < j {
                assert(slots[i].tag@ != slots[j].tag@);
            } else {
                assert(slots[j].tag@ != slots[i].tag@);
            }
        }
    }
    assert(names.to_set() =~= tags(registry.dom(), discriminant)) by {
        assert forall|tag: Seq<char>| names.to_set().contains(tag) <==> tags(
            registry.dom(),
            discriminant,
        ).contains(tag) by {
            if names.to_set().contains(tag) {
                let j: int = choose|j: int| 0 <= j < names.len() && names[j] == tag;
                assert(registry.contains_key((discriminant, slots[j].tag@)));
            }
            if registry.contains_key((discriminant, tag)) {
                assert(has_tag(slots, tag));
                let j: int = tag_index(slots, tag);
                assert(names[j] == tag);
            }
        }
    }
    names.unique_seq_to_set();
    vstd::seq_lib::seq_to_set_is_finite(names);
}

impl<T> View for Registry<T> {
    type V = Map<Key, T>;

    closed spec fn view(&self) -> Map<Key, T> {
        table(self.buckets@)
    }
}

impl<T> Registry<T> {
    #[verifier::type_invariant]
    spec fn inv(&self) -> bool {
        well_formed(self.buckets@)
    }

    /// An empty registry.
    pub fn new() -> (registry: Self)
        ensures
            registry@ == Map::<Key, T>::empty(),
    {
        let registry = Registry { buckets: Vec::new() };
        assert(registry@ =~= Map::<Key, T>::empty());
        registry
    }

    /// The slots filed under `discriminant`, each registration once, or `None`
    /// where the discriminant was never registered under.
    pub fn bucket(&self, discriminant: &str) -> (found: Option<&Vec<Slot<T>>>)
        ensures
            self@.dom().finite(),
            match found {
                Some(slots) => lists_bucket(slots@, self@, discriminant@),
                None => tags(self@.dom(), discriminant@) == Set::<Seq<char>>::empty(),
            },
    {
        proof {
            use_type_invariant(self);
            lemma_table_finite(self.buckets@);
        }
        match find_bucket(&self.buckets, discriminant) {
            Some(i) => {
                proof {
                    lemma_bucket_listed(self.buckets@, i as int);
                }
                Some(&self.buckets[i].slots)
            },
            None => {
                proof {
                    assert forall|tag: Seq<char>| !self@.contains_key((discriminant@, tag)) by {
                        lemma_absent(self.buckets@, (discriminant@, tag));
                    }
                    assert(tags(self@.dom(), discriminant@) =~= Set::<Seq<char>>::empty());
                }
                None
            },
        }
    }

    /// How many values are filed under `discriminant`.
    pub fn count(&self, discriminant: &str) -> (n: usize)
        ensures
            self@.dom().finite(),
            n == count(self@.dom(), discriminant@),
    {
        match self.bucket(discriminant) {
            Some(slots) => {
                proof {
                    lemma_listing_counts(slots@, self@, discriminant@);
                }
                slots.len()
            },
            None => 0,
        }
    }

    /// Files `value` under `discriminant` and `tag`. A value that stood there
    /// before is dropped; every other registration stays.
    ///
    /// The clauses on the keys, on the new value and on the other values
    /// follow from the one on the map. They are stated for callers whose
    /// values are trait objects: of a map that is told to hold one, Verus
    /// derives nothing.
    pub fn insert(&mut self, discriminant: &str, tag: &str, value: T)
        ensures
            final(self)@ == old(self)@.insert((discriminant@, tag@), value),
            final(self)@.dom() == old(self)@.dom().insert((discriminant@, tag@)),
            holds(final(self)@, (discriminant@, tag@), value),
            forall|key: Key|
                key != (discriminant@, tag@) && old(self)@.contains_key(key) ==> final(self)@[key]
                    == old(self)@[key],
    {
        proof {
            use_type_invariant(&*self);
        }
        // The buckets leave `self` while they change: the invariant of the
        // type has to hold whenever `self` is whole.
        let mut buckets: Vec<Bucket<T>> = Vec::new();
        core::mem::swap(&mut self.buckets, &mut buckets);
        file(&mut buckets, discriminant, tag, value);
        self.buckets = buckets;
    }

    /// Takes out what is filed under `discriminant` and `tag`, if anything is;
    /// every other registration stays. The value taken out is dropped.
    pub fn remove(&mut self, discriminant: &str, tag: &str)
        ensures
            final(self)@ == old(self)@.remove((discriminant@, tag@)),
            final(self)@.dom() == old(self)@.dom().remove((discriminant@, tag@)),
    {
        proof {
            use_type_invariant(&*self);
        }
        let mut buckets: Vec<Bucket<T>> = Vec::new();
        core::mem::swap(&mut self.buckets, &mut buckets);
        unfile(&mut buckets, discriminant, tag);
        self.buckets = buckets;
    }
}

/// Whether `left` and `right` hold the same text.
///
/// The texts are compared byte by byte. That equal bytes make equal texts
/// rests on UTF-8 being decodable: a text is what its bytes decode to.
fn same_text(left: &str, right: &str) -> (same: bool)
    ensures
        same == (left@ == right@),
{
    let left_bytes = left.as_bytes();
    let right_bytes = right.as_bytes();
    if left_bytes.len() != right_bytes.len() {
        return false;
    }
    let mut i: usize = 0;
    while i < left_bytes.len()
        invariant
            i <= left_bytes@.len(),
            left_bytes@.len() == right_bytes@.len(),
            left_bytes@ == left.spec_bytes(),
            right_bytes@ == right.spec_bytes(),
            forall|k: int| 0 <= k < i ==> left_bytes@[k] == right_bytes@[k],
        decreases left_bytes@.len() - i,
    {
        if left_bytes[i] != right_bytes[i] {
            return false;
        }
        i += 1;
    }
    proof {
        assert(left_bytes@ =~= right_bytes@);
        vstd::utf8::encode_utf8_decode_utf8(left@);
        vstd::utf8::encode_utf8_decode_utf8(right@);
    }
    true
}

/// The place of the bucket of `discriminant`, if there is one.
fn find_bucket<T>(buckets: &Vec<Bucket<T>>, discriminant: &str) -> (found: Option<usize>)
    ensures
        match found {
            Some(i) => i < buckets@.len() && buckets@[i as int].discriminant@ == discriminant@,
            None => !has_bucket(buckets@, discriminant@),
        },
{
    let mut i: usize = 0;
    while i < buckets.len()
        invariant
            i <= buckets@.len(),
            forall|k: int| 0 <= k < i ==> buckets@[k].discriminant@ != discriminant@,
        decreases buckets@.len() - i,
    {
        if same_text(buckets[i].discriminant.as_str(), discriminant) {
            return Some(i);
        }
        i += 1;
    }
    None
}

/// The place of `tag` in `slots`, if it has one.
fn find_tag<T>(slots: &Vec<Slot<T>>, tag: &str) -> (found: Option<usize>)
    ensures
        match found {
            Some(j) => j < slots@.len() && slots@[j as int].tag@ == tag@,
            None => !has_tag(slots@, tag@),
        },
{
    let mut j: usize = 0;
    while j < slots.len()
        invariant
            j <= slots@.len(),
            forall|k: int| 0 <= k < j ==> slots@[k].tag@ != tag@,
        decreases slots@.len() - j,
    {
        if same_text(slots[j].tag.as_str(), tag) {
            return Some(j);
        }
        j += 1;
    }
    None
}

/// Files `value` under `discriminant` and `tag` in `buckets`.
fn file<T>(buckets: &mut Vec<Bucket<T>>, discriminant: &str, tag: &str, value: T)
    requires
        well_formed(old(buckets)@),
    ensures
        well_formed(final(buckets)@),
        table(final(buckets)@) == table(old(buckets)@).insert((discriminant@, tag@), value),
{
    let ghost before = buckets@;
    match find_bucket(buckets, discriminant) {
        Some(i) => {
            match find_tag(&buckets[i].slots, tag) {
                Some(j) => {
                    buckets[i].slots[j].value = value;
                    proof {
                        lemma_replace(before, buckets@, i as int, j as int, value);
                    }
                },
                None => {
                    let slot = Slot { tag: tag.to_owned(), value };
                    buckets[i].slots.push(slot);
                    proof {
                        lemma_append_slot(before, buckets@, i as int, slot);
                    }
                },
            }
        },
        None => {
            let mut slots = Vec::new();
            slots.push(Slot { tag: tag.to_owned(), value });
            let bucket = Bucket { discriminant: discriminant.to_owned(), slots };
            buckets.push(bucket);
            proof {
                lemma_append_bucket(before, buckets@, bucket);
            }
        },
    }
}

/// Takes out of `buckets` what is filed under `discriminant` and `tag`.
fn unfile<T>(buckets: &mut Vec<Bucket<T>>, discriminant: &str, tag: &str)
    requires
        well_formed(old(buckets)@),
    ensures
        well_formed(final(buckets)@),
        table(final(buckets)@) == table(old(buckets)@).remove((discriminant@, tag@)),
{
    let ghost before = buckets@;
    match find_bucket(buckets, discriminant) {
        Some(i) => {
            match find_tag(&buckets[i].slots, tag) {
                Some(j) => {
                    let _ = buckets[i].slots.remove(j);
                    proof {
                        lemma_remove_slot(before, buckets@, i as int, j as int);
                    }
                },
                None => {
                    proof {
                        lemma_bucket_index(before, i as int);
                        lemma_absent(before, (discriminant@, tag@));
                    }
                },
            }
        },
        None => {
            proof {
                lemma_absent(before, (discriminant@, tag@));
            }
        },
    }
}

/// The place of `tag` in `slots`, where it has one.
spec fn tag_index<T>(slots: Seq<Slot<T>>, tag: Seq<char>) -> int {
    choose|j: int| 0 <= j < slots.len() && (#[trigger] slots[j]).tag@ == tag
}

spec fn has_bucket<T>(buckets: Seq<Bucket<T>>, discriminant: Seq<char>) -> bool {
    exists|i: int| 0 <= i < buckets.len() && (#[trigger] buckets[i]).discriminant@ == discriminant
}

spec fn bucket_index<T>(buckets: Seq<Bucket<T>>, discriminant: Seq<char>) -> int {
    choose|i: int| 0 <= i < buckets.len() && (#[trigger] buckets[i]).discriminant@ == discriminant
}

spec fn distinct_discriminants<T>(buckets: Seq<Bucket<T>>) -> bool {
    forall|i: int, j: int|
        0 <= i < j < buckets.len() ==> buckets[i].discriminant@ != buckets[j].discriminant@
}

spec fn well_formed<T>(buckets: Seq<Bucket<T>>) -> bool {
    &&& distinct_discriminants(buckets)
    &&& forall|i: int| 0 <= i < buckets.len() ==> distinct_tags(#[trigger] buckets[i].slots@)
}

/// The map that `buckets` stands for.
spec fn table<T>(buckets: Seq<Bucket<T>>) -> Map<Key, T> {
    Map::new(
        |key: Key|
            has_bucket(buckets, key.0) && has_tag(
                buckets[bucket_index(buckets, key.0)].slots@,
                key.1,
            ),
        |key: Key|
            {
                let slots = buckets[bucket_index(buckets, key.0)].slots@;
                slots[tag_index(slots, key.1)].value
            },
    )
}

/// Where tags are distinct, the index of a slot's tag is that slot's place.
proof fn lemma_tag_index<T>(slots: Seq<Slot<T>>, j: int)
    requires
        distinct_tags(slots),
        0 <= j < slots.len(),
    ensures
        has_tag(slots, slots[j].tag@),
        tag_index(slots, slots[j].tag@) == j,
{
    let tag = slots[j].tag@;
    let k: int = tag_index(slots, tag);
    assert(0 <= k < slots.len() && slots[k].tag@ == tag);
    if k < j {
        assert(slots[k].tag@ != slots[j].tag@);
    } else if j < k {
        assert(slots[j].tag@ != slots[k].tag@);
    }
}

/// Where discriminants are distinct, the index of a bucket's discriminant is
/// that bucket's place.
proof fn lemma_bucket_index<T>(buckets: Seq<Bucket<T>>, i: int)
    requires
        distinct_discriminants(buckets),
        0 <= i < buckets.len(),
    ensures
        has_bucket(buckets, buckets[i].discriminant@),
        bucket_index(buckets, buckets[i].discriminant@) == i,
{
    let discriminant = buckets[i].discriminant@;
    let k: int = bucket_index(buckets, discriminant);
    assert(0 <= k < buckets.len() && buckets[k].discriminant@ == discriminant);
    if k < i {
        assert(buckets[k].discriminant@ != buckets[i].discriminant@);
    } else if i < k {
        assert(buckets[i].discriminant@ != buckets[k].discriminant@);
    }
}

/// In a well-formed table, the slot at place `j` of bucket `i` is what the
/// table holds under that bucket's discriminant and that slot's tag.
proof fn lemma_table_at<T>(buckets: Seq<Bucket<T>>, i: int, j: int)
    requires
        well_formed(buckets),
        0 <= i < buckets.len(),
        0 <= j < buckets[i].slots@.len(),
    ensures
        has_bucket(buckets, buckets[i].discriminant@),
        bucket_index(buckets, buckets[i].discriminant@) == i,
        has_tag(buckets[i].slots@, buckets[i].slots@[j].tag@),
        tag_index(buckets[i].slots@, buckets[i].slots@[j].tag@) == j,
        table(buckets).contains_key((buckets[i].discriminant@, buckets[i].slots@[j].tag@)),
        table(buckets)[(buckets[i].discriminant@, buckets[i].slots@[j].tag@)]
            == buckets[i].slots@[j].value,
{
    lemma_bucket_index(buckets, i);
    lemma_tag_index(buckets[i].slots@, j);
}

/// A key of the table stands in some slot of some bucket.
proof fn lemma_table_key<T>(buckets: Seq<Bucket<T>>, key: Key) -> (at: (int, int))
    requires
        table(buckets).contains_key(key),
    ensures
        0 <= at.0 < buckets.len(),
        0 <= at.1 < buckets[at.0].slots@.len(),
        buckets[at.0].discriminant@ == key.0,
        buckets[at.0].slots@[at.1].tag@ == key.1,
{
    let i: int = bucket_index(buckets, key.0);
    let j: int = tag_index(buckets[i].slots@, key.1);
    (i, j)
}

/// A key whose discriminant has no bucket, or whose tag has no slot in that
/// bucket, is no key of the table.
proof fn lemma_absent<T>(buckets: Seq<Bucket<T>>, key: Key)
    requires
        well_formed(buckets),
        !has_bucket(buckets, key.0) || forall|i: int|
            0 <= i < buckets.len() && (#[trigger] buckets[i]).discriminant@ == key.0 ==> !has_tag(
                buckets[i].slots@,
                key.1,
            ),
    ensures
        !table(buckets).contains_key(key),
        table(buckets).remove(key) == table(buckets),
{
    if table(buckets).contains_key(key) {
        let (a, b) = lemma_table_key(buckets, key);
        assert(has_tag(buckets[a].slots@, key.1));
    }
    assert(table(buckets).remove(key) =~= table(buckets));
}

/// Writing `value` into slot `j` of bucket `i` files it under that slot's key
/// and leaves every other key as it was.
proof fn lemma_replace<T>(before: Seq<Bucket<T>>, after: Seq<Bucket<T>>, i: int, j: int, value: T)
    requires
        well_formed(before),
        0 <= i < before.len(),
        0 <= j < before[i].slots@.len(),
        after.len() == before.len(),
        forall|k: int| 0 <= k < before.len() ==> after[k].discriminant@ == before[k].discriminant@,
        forall|k: int| 0 <= k < before.len() && k != i ==> after[k].slots@ == before[k].slots@,
        after[i].slots@.len() == before[i].slots@.len(),
        forall|l: int|
            0 <= l < before[i].slots@.len() ==> after[i].slots@[l].tag@ == before[i].slots@[l].tag@,
        forall|l: int|
            0 <= l < before[i].slots@.len() && l != j ==> after[i].slots@[l].value
                == before[i].slots@[l].value,
        after[i].slots@[j].value == value,
    ensures
        well_formed(after),
        table(after) == table(before).insert(
            (before[i].discriminant@, before[i].slots@[j].tag@),
            value,
        ),
{
    let target = (before[i].discriminant@, before[i].slots@[j].tag@);
    assert(well_formed(after)) by {
        assert forall|k: int| 0 <= k < after.len() implies distinct_tags(
            #[trigger] after[k].slots@,
        ) by {
            assert(distinct_tags(before[k].slots@));
        }
    }
    let expected = table(before).insert(target, value);
    assert forall|key: Key| table(after).contains_key(key) <==> expected.contains_key(key) by {
        if table(after).contains_key(key) {
            let (a, b) = lemma_table_key(after, key);
            lemma_table_at(before, a, b);
        }
        if table(before).contains_key(key) {
            let (a, b) = lemma_table_key(before, key);
            lemma_table_at(after, a, b);
        }
        if key == target {
            lemma_table_at(after, i, j);
        }
    }
    assert forall|key: Key| table(after).contains_key(key) implies table(after)[key]
        == expected[key] by {
        let (a, b) = lemma_table_key(after, key);
        lemma_table_at(after, a, b);
        lemma_table_at(before, a, b);
        if a == i && b == j {
        } else {
            assert(key != target) by {
                lemma_table_at(before, i, j);
            }
        }
    }
    assert(table(after) =~= expected);
}

/// Appending a slot with a tag that bucket `i` does not hold yet files its
/// value under the new key and leaves every other key as it was.
proof fn lemma_append_slot<T>(before: Seq<Bucket<T>>, after: Seq<Bucket<T>>, i: int, slot: Slot<T>)
    requires
        well_formed(before),
        0 <= i < before.len(),
        !has_tag(before[i].slots@, slot.tag@),
        after.len() == before.len(),
        forall|k: int| 0 <= k < before.len() ==> after[k].discriminant@ == before[k].discriminant@,
        forall|k: int| 0 <= k < before.len() && k != i ==> after[k].slots@ == before[k].slots@,
        after[i].slots@ == before[i].slots@.push(slot),
    ensures
        well_formed(after),
        table(after) == table(before).insert((before[i].discriminant@, slot.tag@), slot.value),
{
    let target = (before[i].discriminant@, slot.tag@);
    let last: int = before[i].slots@.len() as int;
    assert(well_formed(after)) by {
        assert forall|k: int| 0 <= k < after.len() implies distinct_tags(
            #[trigger] after[k].slots@,
        ) by {
            assert(distinct_tags(before[k].slots@));
            if k == i {
                assert forall|a: int, b: int| 0 <= a < b < after[i].slots@.len() implies after[i].slots@[a].tag@
                    != after[i].slots@[b].tag@ by {
                    if b == last {
                        assert(before[i].slots@[a].tag@ != slot.tag@);
                    }
                }
            }
        }
    }
    let expected = table(before).insert(target, slot.value);
    assert forall|key: Key| table(after).contains_key(key) <==> expected.contains_key(key) by {
        if table(after).contains_key(key) {
            let (a, b) = lemma_table_key(after, key);
            if !(a == i && b == last) {
                lemma_table_at(before, a, b);
            }
        }
        if table(before).contains_key(key) {
            let (a, b) = lemma_table_key(before, key);
            lemma_table_at(after, a, b);
        }
        if key == target {
            lemma_table_at(after, i, last);
        }
    }
    assert forall|key: Key| table(after).contains_key(key) implies table(after)[key]
        == expected[key] by {
        let (a, b) = lemma_table_key(after, key);
        lemma_table_at(after, a, b);
        if !(a == i && b == last) {
            lemma_table_at(before, a, b);
            assert(key != target) by {
                if a == i {
                    assert(before[i].slots@[b].tag@ != slot.tag@);
                } else {
                    lemma_bucket_index(before, a);
                    lemma_bucket_index(before, i);
                }
            }
        }
    }
    assert(table(after) =~= expected);
}

/// Appending a bucket for a discriminant that has none yet, with one slot,
/// files that slot's value under the new key and leaves every other key as it
/// was.
proof fn lemma_append_bucket<T>(before: Seq<Bucket<T>>, after: Seq<Bucket<T>>, bucket: Bucket<T>)
    requires
        well_formed(before),
        !has_bucket(before, bucket.discriminant@),
        bucket.slots@.len() == 1,
        after == before.push(bucket),
    ensures
        well_formed(after),
        table(after) == table(before).insert(
            (bucket.discriminant@, bucket.slots@[0].tag@),
            bucket.slots@[0].value,
        ),
{
    let target = (bucket.discriminant@, bucket.slots@[0].tag@);
    let last: int = before.len() as int;
    assert(well_formed(after)) by {
        assert forall|a: int, b: int| 0 <= a < b < after.len() implies after[a].discriminant@
            != after[b].discriminant@ by {
            if b == last {
                assert(before[a].discriminant@ != bucket.discriminant@);
            }
        }
        assert forall|k: int| 0 <= k < after.len() implies distinct_tags(
            #[trigger] after[k].slots@,
        ) by {
            if k < last {
                assert(distinct_tags(before[k].slots@));
            }
        }
    }
    let expected = table(before).insert(target, bucket.slots@[0].value);
    assert forall|key: Key| table(after).contains_key(key) <==> expected.contains_key(key) by {
        if table(after).contains_key(key) {
            let (a, b) = lemma_table_key(after, key);
            if a != last {
                lemma_table_at(before, a, b);
            }
        }
        if table(before).contains_key(key) {
            let (a, b) = lemma_table_key(before, key);
            lemma_table_at(after, a, b);
        }
        if key == target {
            lemma_table_at(after, last, 0);
        }
    }
    assert forall|key: Key| table(after).contains_key(key) implies table(after)[key]
        == expected[key] by {
        let (a, b) = lemma_table_key(after, key);
        lemma_table_at(after, a, b);
        if a != last {
            lemma_table_at(before, a, b);
            assert(before[a].discriminant@ != bucket.discriminant@);
        }
    }
    assert(table(after) =~= expected);
}

/// Taking slot `j` out of bucket `i` removes that slot's key and leaves every
/// other key as it was.
proof fn lemma_remove_slot<T>(before: Seq<Bucket<T>>, after: Seq<Bucket<T>>, i: int, j: int)
    requires
        well_formed(before),
        0 <= i < before.len(),
        0 <= j < before[i].slots@.len(),
        after.len() == before.len(),
        forall|k: int| 0 <= k < before.len() ==> after[k].discriminant@ == before[k].discriminant@,
        forall|k: int| 0 <= k < before.len() && k != i ==> after[k].slots@ == before[k].slots@,
        after[i].slots@ == before[i].slots@.remove(j),
    ensures
        well_formed(after),
        table(after) == table(before).remove((before[i].discriminant@, before[i].slots@[j].tag@)),
{
    let target = (before[i].discriminant@, before[i].slots@[j].tag@);
    let shifted = |b: int| if b < j { b } else { b + 1 };
    assert(well_formed(after)) by {
        assert forall|k: int| 0 <= k < after.len() implies distinct_tags(
            #[trigger] after[k].slots@,
        ) by {
            assert(distinct_tags(before[k].slots@));
            if k == i {
                assert forall|a: int, b: int| 0 <= a < b < after[i].slots@.len() implies after[i].slots@[a].tag@
                    != after[i].slots@[b].tag@ by {
                    assert(before[i].slots@[shifted(a)].tag@ != before[i].slots@[shifted(b)].tag@);
                }
            }
        }
    }
    let expected = table(before).remove(target);
    assert forall|key: Key| table(after).contains_key(key) <==> expected.contains_key(key) by {
        if table(after).contains_key(key) {
            let (a, b) = lemma_table_key(after, key);
            if a == i {
                lemma_table_at(before, i, shifted(b));
                lemma_table_at(before, i, j);
            } else {
                lemma_table_at(before, a, b);
                lemma_bucket_index(before, a);
                lemma_bucket_index(before, i);
            }
        }
        if expected.contains_key(key) {
            let (a, b) = lemma_table_key(before, key);
            if a == i {
                lemma_table_at(before, i, j);
                lemma_table_at(before, i, b);
                if b < j {
                    lemma_table_at(after, i, b);
                } else {
                    lemma_table_at(after, i, b - 1);
                }
            } else {
                lemma_table_at(after, a, b);
            }
        }
    }
    assert forall|key: Key| table(after).contains_key(key) implies table(after)[key]
        == expected[key] by {
        let (a, b) = lemma_table_key(after, key);
        lemma_table_at(after, a, b);
        if a == i {
            lemma_table_at(before, i, shifted(b));
        } else {
            lemma_table_at(before, a, b);
        }
    }
    assert(table(after) =~= expected);
}

/// The slots of bucket `i` list what the table holds under that bucket's
/// discriminant.
proof fn lemma_bucket_listed<T>(buckets: Seq<Bucket<T>>, i: int)
    requires
        well_formed(buckets),
        0 <= i < buckets.len(),
    ensures
        lists_bucket(buckets[i].slots@, table(buckets), buckets[i].discriminant@),
{
    let slots = buckets[i].slots@;
    let discriminant = buckets[i].discriminant@;
    assert(distinct_tags(slots));
    assert forall|j: int| 0 <= j < slots.len() implies {
        &&& table(buckets).contains_key((discriminant, #[trigger] slots[j].tag@))
        &&& table(buckets)[(discriminant, slots[j].tag@)] == slots[j].value
    } by {
        lemma_table_at(buckets, i, j);
    }
    assert forall|tag: Seq<char>| #[trigger]
        table(buckets).contains_key((discriminant, tag)) implies has_tag(slots, tag) by {
        lemma_bucket_index(buckets, i);
    }
}

/// The keys that one bucket holds.
spec fn bucket_keys<T>(bucket: Bucket<T>) -> Set<Key> {
    bucket.slots@.map_values(|slot: Slot<T>| (bucket.discriminant@, slot.tag@)).to_set()
}

/// The keys that the first `n` buckets hold.
spec fn keys_upto<T>(buckets: Seq<Bucket<T>>, n: nat) -> Set<Key>
    decreases n,
{
    if n == 0 {
        Set::empty()
    } else {
        keys_upto(buckets, (n - 1) as nat).union(bucket_keys(buckets[n - 1]))
    }
}

/// The keys of the first `n` buckets are finitely many, and hold the keys of
/// each of those buckets.
proof fn lemma_keys_upto<T>(buckets: Seq<Bucket<T>>, n: nat)
    requires
        n <= buckets.len(),
    ensures
        keys_upto(buckets, n).finite(),
        forall|i: int| 0 <= i < n ==> #[trigger] bucket_keys(buckets[i]).subset_of(keys_upto(buckets, n)),
    decreases n,
{
    if n > 0 {
        lemma_keys_upto(buckets, (n - 1) as nat);
        vstd::seq_lib::seq_to_set_is_finite(
            buckets[n - 1].slots@.map_values(
                |slot: Slot<T>| (buckets[n - 1].discriminant@, slot.tag@),
            ),
        );
        assert forall|i: int| 0 <= i < n implies #[trigger] bucket_keys(buckets[i]).subset_of(
            keys_upto(buckets, n),
        ) by {
            if i < n - 1 {
                assert(bucket_keys(buckets[i]).subset_of(keys_upto(buckets, (n - 1) as nat)));
            }
        }
    }
}

/// A table holds finitely many keys.
proof fn lemma_table_finite<T>(buckets: Seq<Bucket<T>>)
    ensures
        table(buckets).dom().finite(),
{
    let all = keys_upto(buckets, buckets.len());
    lemma_keys_upto(buckets, buckets.len());
    assert forall|key: Key| table(buckets).dom().contains(key) implies all.contains(key) by {
        let (a, b) = lemma_table_key(buckets, key);
        let keys = buckets[a].slots@.map_values(|slot: Slot<T>| (buckets[a].discriminant@, slot.tag@));
        assert(keys[b] == key);
        assert(bucket_keys(buckets[a]).contains(key));
        assert(bucket_keys(buckets[a]).subset_of(all));
    }
    vstd::set_lib::lemma_set_subset_finite(all, table(buckets).dom());
}

} // verus!
