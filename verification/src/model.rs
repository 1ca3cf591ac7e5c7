//! What a registry is, mathematically: a finite partial map from a
//! discriminant and a tag to the value registered there.
//!
//! Counting goes by the keys alone, so the counts are stated over the set of
//! keys, the domain of that map.

use vstd::prelude::*;

verus! {

/// A discriminant and a tag, as the texts they hold.
pub type Key = (Seq<char>, Seq<char>);

/// Whether `registry` holds `value` under `key`.
pub open spec fn holds<T>(registry: Map<Key, T>, key: Key, value: T) -> bool {
    registry.contains_key(key) && registry[key] == value
}

/// The tags that stand in `keys` under `discriminant`.
pub open spec fn tags(keys: Set<Key>, discriminant: Seq<char>) -> Set<Seq<char>> {
    Set::new(|tag: Seq<char>| keys.contains((discriminant, tag)))
}

/// How many registrations `keys` holds under `discriminant`.
pub open spec fn count(keys: Set<Key>, discriminant: Seq<char>) -> nat {
    tags(keys, discriminant).len()
}

/// Finitely many keys hold finitely many tags under each discriminant.
pub proof fn lemma_tags_finite(keys: Set<Key>, discriminant: Seq<char>)
    requires
        keys.finite(),
    ensures
        tags(keys, discriminant).finite(),
{
    let under = keys.filter(|key: Key| key.0 == discriminant);
    keys.lemma_len_filter(|key: Key| key.0 == discriminant);
    under.lemma_map_finite(|key: Key| key.1);
    assert(under.map(|key: Key| key.1) =~= tags(keys, discriminant)) by {
        assert forall|tag: Seq<char>| tags(keys, discriminant).contains(tag) implies under.map(
            |key: Key| key.1,
        ).contains(tag) by {
            assert(under.contains((discriminant, tag)));
        }
    }
}

/// A discriminant under which nothing is registered has count 0.
pub proof fn lemma_nothing_registered(keys: Set<Key>, discriminant: Seq<char>)
    requires
        forall|tag: Seq<char>| !keys.contains((discriminant, tag)),
    ensures
        count(keys, discriminant) == 0,
{
    assert(tags(keys, discriminant) =~= Set::<Seq<char>>::empty());
}

/// Registering adds one to the count of its discriminant where the tag is
/// new there, and leaves the count where the tag was taken. No other
/// discriminant's count changes.
pub proof fn lemma_register_counts(
    keys: Set<Key>,
    discriminant: Seq<char>,
    tag: Seq<char>,
    other: Seq<char>,
)
    requires
        keys.finite(),
    ensures
        keys.insert((discriminant, tag)).finite(),
        count(keys.insert((discriminant, tag)), other) == count(keys, other) + (if other
            == discriminant && !keys.contains((discriminant, tag)) {
            1nat
        } else {
            0nat
        }),
{
    let after = keys.insert((discriminant, tag));
    lemma_tags_finite(keys, other);
    if other == discriminant {
        assert(tags(after, other) =~= tags(keys, other).insert(tag));
    } else {
        assert(tags(after, other) =~= tags(keys, other));
    }
}

/// Unregistering takes one from the count of its discriminant where the tag
/// was registered there, and leaves the count where it was not. No other
/// discriminant's count changes.
pub proof fn lemma_unregister_counts(
    keys: Set<Key>,
    discriminant: Seq<char>,
    tag: Seq<char>,
    other: Seq<char>,
)
    requires
        keys.finite(),
    ensures
        keys.remove((discriminant, tag)).finite(),
        count(keys.remove((discriminant, tag)), other) == count(keys, other) - (if other
            == discriminant && keys.contains((discriminant, tag)) {
            1nat
        } else {
            0nat
        }),
{
    let after = keys.remove((discriminant, tag));
    lemma_tags_finite(keys, other);
    if other == discriminant {
        assert(tags(after, other) =~= tags(keys, other).remove(tag));
    } else {
        assert(tags(after, other) =~= tags(keys, other));
    }
}

/// Two registrations under one discriminant with distinct tags are both
/// held afterwards, each with its own value, and both are counted: the
/// count is the number of tags then registered there, which is two where
/// none was registered before.
pub proof fn lemma_two_registrations<T>(
    registry: Map<Key, T>,
    discriminant: Seq<char>,
    first_tag: Seq<char>,
    first: T,
    second_tag: Seq<char>,
    second: T,
)
    requires
        registry.dom().finite(),
        first_tag != second_tag,
    ensures
        ({
            let after = registry.insert((discriminant, first_tag), first).insert(
                (discriminant, second_tag),
                second,
            );
            &&& holds(after, (discriminant, first_tag), first)
            &&& holds(after, (discriminant, second_tag), second)
            &&& tags(after.dom(), discriminant) == tags(registry.dom(), discriminant).insert(
                first_tag,
            ).insert(second_tag)
            &&& count(after.dom(), discriminant) >= 2
            &&& count(registry.dom(), discriminant) == 0 ==> count(after.dom(), discriminant) == 2
        }),
{
    let between = registry.insert((discriminant, first_tag), first);
    let after = between.insert((discriminant, second_tag), second);
    lemma_register_counts(registry.dom(), discriminant, first_tag, discriminant);
    lemma_register_counts(between.dom(), discriminant, second_tag, discriminant);
    lemma_tags_finite(registry.dom(), discriminant);
    assert(tags(after.dom(), discriminant) =~= tags(registry.dom(), discriminant).insert(
        first_tag,
    ).insert(second_tag));
    if count(registry.dom(), discriminant) == 0 {
        assert(!registry.contains_key((discriminant, first_tag))) by {
            if registry.contains_key((discriminant, first_tag)) {
                assert(tags(registry.dom(), discriminant).contains(first_tag));
            }
        }
        assert(!between.contains_key((discriminant, second_tag))) by {
            if registry.contains_key((discriminant, second_tag)) {
                assert(tags(registry.dom(), discriminant).contains(second_tag));
            }
        }
    } else {
        lemma_tags_finite(after.dom(), discriminant);
        assert(tags(after.dom(), discriminant).contains(first_tag));
        assert(tags(after.dom(), discriminant).contains(second_tag));
        assert(tags(after.dom(), discriminant).remove(first_tag).contains(second_tag));
    }
}

/// Registering again under a discriminant and tag that are taken replaces
/// the value held there: the registry is as if only the later registration
/// had been made, and no count changes.
pub proof fn lemma_reregistration_replaces<T>(
    registry: Map<Key, T>,
    discriminant: Seq<char>,
    tag: Seq<char>,
    earlier: T,
    later: T,
    other: Seq<char>,
)
    ensures
        ({
            let once = registry.insert((discriminant, tag), earlier);
            let twice = once.insert((discriminant, tag), later);
            &&& twice == registry.insert((discriminant, tag), later)
            &&& holds(twice, (discriminant, tag), later)
            &&& twice.dom() == once.dom()
            &&& count(twice.dom(), other) == count(once.dom(), other)
        }),
{
    let once = registry.insert((discriminant, tag), earlier);
    let twice = once.insert((discriminant, tag), later);
    assert(twice =~= registry.insert((discriminant, tag), later));
    assert(twice.dom() =~= once.dom());
}

/// Unregistering a discriminant and tag under which nothing is registered
/// changes nothing.
pub proof fn lemma_unregister_absent<T>(
    registry: Map<Key, T>,
    discriminant: Seq<char>,
    tag: Seq<char>,
)
    requires
        !registry.contains_key((discriminant, tag)),
    ensures
        registry.remove((discriminant, tag)) == registry,
        registry.dom().remove((discriminant, tag)) == registry.dom(),
{
    assert(registry.remove((discriminant, tag)) =~= registry);
    assert(registry.dom().remove((discriminant, tag)) =~= registry.dom());
}

} // verus!
