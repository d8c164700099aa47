//! Byte-lexicographic order on keys, and the one way to list a set of keys
//! in that order. The stable map walks its entries in this order.

use vstd::prelude::*;

verus! {

/// `a` comes strictly before `b` in byte-lexicographic order: at the first
/// position where they differ `a` has the smaller byte, or `a` is a proper
/// prefix of `b`.
pub open spec fn lex_lt(a: Seq<u8>, b: Seq<u8>) -> bool
    decreases a.len(),
{
    if b.len() == 0 {
        false
    } else if a.len() == 0 {
        true
    } else if a[0] != b[0] {
        a[0] < b[0]
    } else {
        lex_lt(a.drop_first(), b.drop_first())
    }
}

/// No key comes before itself.
pub proof fn lemma_lex_irreflexive(a: Seq<u8>)
    ensures
        !lex_lt(a, a),
    decreases a.len(),
{
    if a.len() > 0 {
        lemma_lex_irreflexive(a.drop_first());
    }
}

/// The order is transitive.
pub proof fn lemma_lex_transitive(a: Seq<u8>, b: Seq<u8>, c: Seq<u8>)
    requires
        lex_lt(a, b),
        lex_lt(b, c),
    ensures
        lex_lt(a, c),
    decreases a.len(),
{
    if a.len() > 0 && a[0] == b[0] && b[0] == c[0] {
        lemma_lex_transitive(a.drop_first(), b.drop_first(), c.drop_first());
    }
}

/// Any two different keys are ordered one way or the other.
pub proof fn lemma_lex_total(a: Seq<u8>, b: Seq<u8>)
    ensures
        a == b || lex_lt(a, b) || lex_lt(b, a),
    decreases a.len(),
{
    if a.len() == 0 || b.len() == 0 {
        if a.len() == 0 && b.len() == 0 {
            assert(a =~= b);
        }
    } else if a[0] == b[0] {
        lemma_lex_total(a.drop_first(), b.drop_first());
        if a.drop_first() == b.drop_first() {
            assert(a =~= seq![a[0]] + a.drop_first());
            assert(b =~= seq![b[0]] + b.drop_first());
        }
    }
}

/// Each key of the sequence comes strictly before all later ones.
pub open spec fn strictly_increasing(keys: Seq<Seq<u8>>) -> bool {
    forall|i: int, j: int| 0 <= i < j < keys.len() ==> lex_lt(#[trigger] keys[i], #[trigger] keys[j])
}

/// `keys` holds exactly the members of `domain`, each once, in increasing order.
pub open spec fn lists_in_order(keys: Seq<Seq<u8>>, domain: Set<Seq<u8>>) -> bool {
    &&& strictly_increasing(keys)
    &&& forall|k: Seq<u8>| keys.contains(k) <==> domain.contains(k)
}

/// The members of `domain` in increasing order. Meaningful for a finite
/// set; `lemma_order_unique` shows that there is no second such listing.
pub open spec fn ordered_keys(domain: Set<Seq<u8>>) -> Seq<Seq<u8>> {
    choose|keys: Seq<Seq<u8>>| lists_in_order(keys, domain)
}

/// A set of keys has at most one listing in increasing order.
pub proof fn lemma_order_unique(a: Seq<Seq<u8>>, b: Seq<Seq<u8>>, domain: Set<Seq<u8>>)
    requires
        lists_in_order(a, domain),
        lists_in_order(b, domain),
    ensures
        a == b,
    decreases a.len(),
{
    if a.len() == 0 {
        if b.len() > 0 {
            assert(b.contains(b[0]));
            assert(a.contains(b[0]));
        }
        assert(a =~= b);
    } else {
        assert(a.contains(a[0]));
        assert(b.contains(a[0]));
        let j = choose|j: int| 0 <= j < b.len() && b[j] == a[0];
        assert(b.contains(b[0]));
        assert(a.contains(b[0]));
        let i = choose|i: int| 0 <= i < a.len() && a[i] == b[0];
        if i > 0 && j > 0 {
            lemma_lex_transitive(a[0], a[i], b[j]);
            lemma_lex_irreflexive(a[0]);
        }
        assert(a[0] == b[0]);
        let rest_a = a.drop_first();
        let rest_b = b.drop_first();
        let rest = domain.remove(a[0]);
        lemma_rest_listed(a, domain);
        lemma_rest_listed(b, domain);
        lemma_order_unique(rest_a, rest_b, rest);
        assert(a =~= seq![a[0]] + rest_a);
        assert(b =~= seq![b[0]] + rest_b);
    }
}

/// Without its first key, an ordered listing lists the set without that key.
proof fn lemma_rest_listed(keys: Seq<Seq<u8>>, domain: Set<Seq<u8>>)
    requires
        lists_in_order(keys, domain),
        keys.len() > 0,
    ensures
        lists_in_order(keys.drop_first(), domain.remove(keys[0])),
{
    let rest = keys.drop_first();
    assert forall|i: int, j: int| 0 <= i < j < rest.len() implies lex_lt(
        #[trigger] rest[i],
        #[trigger] rest[j],
    ) by {
        assert(rest[i] == keys[i + 1] && rest[j] == keys[j + 1]);
    }
    assert forall|k: Seq<u8>| rest.contains(k) <==> domain.remove(keys[0]).contains(k) by {
        if rest.contains(k) {
            let i = choose|i: int| 0 <= i < rest.len() && rest[i] == k;
            assert(keys[i + 1] == k);
            assert(keys.contains(k));
            assert(lex_lt(keys[0], keys[i + 1]));
            lemma_lex_irreflexive(k);
        }
        if domain.remove(keys[0]).contains(k) {
            assert(keys.contains(k));
            let i = choose|i: int| 0 <= i < keys.len() && keys[i] == k;
            assert(rest[i - 1] == k);
        }
    }
}

/// `keys` with `key` put in before the first key that comes after it.
pub open spec fn with_key(keys: Seq<Seq<u8>>, key: Seq<u8>) -> Seq<Seq<u8>>
    decreases keys.len(),
{
    if keys.len() == 0 || lex_lt(key, keys[0]) {
        seq![key] + keys
    } else {
        seq![keys[0]] + with_key(keys.drop_first(), key)
    }
}

/// Putting a new key into an ordered listing gives the ordered listing of
/// the set with that key.
pub proof fn lemma_with_key(keys: Seq<Seq<u8>>, key: Seq<u8>, domain: Set<Seq<u8>>)
    requires
        lists_in_order(keys, domain),
        !domain.contains(key),
    ensures
        lists_in_order(with_key(keys, key), domain.insert(key)),
    decreases keys.len(),
{
    let grown = with_key(keys, key);
    if keys.len() == 0 || lex_lt(key, keys[0]) {
        assert forall|i: int, j: int| 0 <= i < j < grown.len() implies lex_lt(
            #[trigger] grown[i],
            #[trigger] grown[j],
        ) by {
            if i == 0 {
                if j > 1 {
                    lemma_lex_transitive(key, keys[0], keys[j - 1]);
                }
            } else {
                assert(grown[i] == keys[i - 1] && grown[j] == keys[j - 1]);
            }
        }
        assert forall|k: Seq<u8>| grown.contains(k) <==> domain.insert(key).contains(k) by {
            if grown.contains(k) {
                let i = choose|i: int| 0 <= i < grown.len() && grown[i] == k;
                if i > 0 {
                    assert(keys[i - 1] == k);
                    assert(keys.contains(k));
                }
            }
            if domain.insert(key).contains(k) {
                if k == key {
                    assert(grown[0] == k);
                } else {
                    assert(keys.contains(k));
                    let i = choose|i: int| 0 <= i < keys.len() && keys[i] == k;
                    assert(grown[i + 1] == k);
                }
            }
        }
    } else {
        let first = keys[0];
        let rest = keys.drop_first();
        let grown_rest = with_key(rest, key);
        assert(keys.contains(first));
        lemma_lex_total(first, key);
        lemma_rest_listed(keys, domain);
        lemma_with_key(rest, key, domain.remove(first));
        assert forall|i: int, j: int| 0 <= i < j < grown.len() implies lex_lt(
            #[trigger] grown[i],
            #[trigger] grown[j],
        ) by {
            if i == 0 {
                let later = grown_rest[j - 1];
                assert(grown[j] == later);
                assert(grown_rest.contains(later));
                if later != key {
                    assert(rest.contains(later));
                    let at = choose|at: int| 0 <= at < rest.len() && rest[at] == later;
                    assert(keys[at + 1] == later);
                }
            } else {
                assert(grown[i] == grown_rest[i - 1] && grown[j] == grown_rest[j - 1]);
            }
        }
        assert forall|k: Seq<u8>| grown.contains(k) <==> domain.insert(key).contains(k) by {
            if grown.contains(k) {
                let i = choose|i: int| 0 <= i < grown.len() && grown[i] == k;
                if i > 0 {
                    assert(grown_rest[i - 1] == k);
                    assert(grown_rest.contains(k));
                }
            }
            if domain.insert(key).contains(k) {
                if k == first {
                    assert(grown[0] == k);
                } else {
                    assert(grown_rest.contains(k));
                    let i = choose|i: int| 0 <= i < grown_rest.len() && grown_rest[i] == k;
                    assert(grown[i + 1] == k);
                }
            }
        }
    }
}

/// Every finite set of keys has an ordered listing, and `ordered_keys`
/// names it.
pub proof fn lemma_ordered_keys_list(domain: Set<Seq<u8>>)
    requires
        domain.finite(),
    ensures
        lists_in_order(ordered_keys(domain), domain),
    decreases domain.len(),
{
    if domain.len() == 0 {
        domain.lemma_len0_is_empty();
        let none = Seq::<Seq<u8>>::empty();
        assert(lists_in_order(none, domain));
    } else {
        let key = domain.choose();
        let others = domain.remove(key);
        lemma_ordered_keys_list(others);
        lemma_with_key(ordered_keys(others), key, others);
        assert(others.insert(key) =~= domain);
        assert(lists_in_order(with_key(ordered_keys(others), key), domain));
    }
}

/// Any ordered listing of a set is the listing that `ordered_keys` names.
pub proof fn lemma_ordered_keys_are(keys: Seq<Seq<u8>>, domain: Set<Seq<u8>>)
    requires
        lists_in_order(keys, domain),
    ensures
        ordered_keys(domain) == keys,
{
    lemma_order_unique(ordered_keys(domain), keys, domain);
}

} // verus!
