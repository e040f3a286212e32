//! The order in which texts and lists of texts are sorted: byte by byte,
//! as strings are ordered, then text by text.

use vstd::prelude::*;
use vstd::string::*;
use vstd::multiset::Multiset;
use vstd::utf8::encode_utf8;

verus! {

/// `a` comes before `b` or equals it, byte by byte: at the first byte in
/// which they differ `a` has the smaller one, or `a` ends first.
pub open spec fn bytes_le(a: Seq<u8>, b: Seq<u8>) -> bool
    decreases a.len(),
{
    if a.len() == 0 {
        true
    } else if b.len() == 0 {
        false
    } else if a[0] != b[0] {
        a[0] < b[0]
    } else {
        bytes_le(a.drop_first(), b.drop_first())
    }
}

/// `a` comes before `b` or equals it, text by text: at the first text in
/// which they differ `a` has the smaller one, or `a` ends first.
pub open spec fn key_le(a: Seq<Seq<u8>>, b: Seq<Seq<u8>>) -> bool
    decreases a.len(),
{
    if a.len() == 0 {
        true
    } else if b.len() == 0 {
        false
    } else if a[0] != b[0] {
        bytes_le(a[0], b[0])
    } else {
        key_le(a.drop_first(), b.drop_first())
    }
}

/// The bytes of a text.
pub open spec fn text_bytes(text: Seq<char>) -> Seq<u8> {
    encode_utf8(text)
}

/// Texts with the same bytes are the same text.
pub proof fn lemma_text_bytes_injective(a: Seq<char>, b: Seq<char>)
    requires
        text_bytes(a) == text_bytes(b),
    ensures
        a == b,
{
    vstd::utf8::encode_utf8_decode_utf8(a);
    vstd::utf8::encode_utf8_decode_utf8(b);
}

/// Of two byte strings one comes before the other or equals it.
pub proof fn lemma_bytes_le_total(a: Seq<u8>, b: Seq<u8>)
    ensures
        bytes_le(a, b) || bytes_le(b, a),
    decreases a.len(),
{
    if a.len() > 0 && b.len() > 0 && a[0] == b[0] {
        lemma_bytes_le_total(a.drop_first(), b.drop_first());
    }
}

/// The order of byte strings is transitive.
pub proof fn lemma_bytes_le_trans(a: Seq<u8>, b: Seq<u8>, c: Seq<u8>)
    requires
        bytes_le(a, b),
        bytes_le(b, c),
    ensures
        bytes_le(a, c),
    decreases a.len(),
{
    if a.len() > 0 && b.len() > 0 && c.len() > 0 && a[0] == b[0] && b[0] == c[0] {
        lemma_bytes_le_trans(a.drop_first(), b.drop_first(), c.drop_first());
    }
}

/// Two byte strings of which each comes before the other or equals it are
/// equal.
pub proof fn lemma_bytes_le_antisym(a: Seq<u8>, b: Seq<u8>)
    requires
        bytes_le(a, b),
        bytes_le(b, a),
    ensures
        a == b,
    decreases a.len(),
{
    if a.len() > 0 && b.len() > 0 {
        lemma_bytes_le_antisym(a.drop_first(), b.drop_first());
        assert(b =~= seq![b[0]] + b.drop_first());
    }
}

/// Of two keys one comes before the other or equals it.
pub proof fn lemma_key_le_total(a: Seq<Seq<u8>>, b: Seq<Seq<u8>>)
    ensures
        key_le(a, b) || key_le(b, a),
    decreases a.len(),
{
    if a.len() > 0 && b.len() > 0 {
        if a[0] == b[0] {
            lemma_key_le_total(a.drop_first(), b.drop_first());
        } else {
            lemma_bytes_le_total(a[0], b[0]);
        }
    }
}

/// The order of keys is transitive.
pub proof fn lemma_key_le_trans(a: Seq<Seq<u8>>, b: Seq<Seq<u8>>, c: Seq<Seq<u8>>)
    requires
        key_le(a, b),
        key_le(b, c),
    ensures
        key_le(a, c),
    decreases a.len(),
{
    if a.len() > 0 && b.len() > 0 && c.len() > 0 {
        if a[0] == b[0] && b[0] == c[0] {
            lemma_key_le_trans(a.drop_first(), b.drop_first(), c.drop_first());
        } else if a[0] != b[0] && b[0] != c[0] {
            lemma_bytes_le_trans(a[0], b[0], c[0]);
            if a[0] == c[0] {
                lemma_bytes_le_antisym(a[0], b[0]);
            }
        }
    }
}

/// Two keys of which each comes before the other or equals it are equal.
pub proof fn lemma_key_le_antisym(a: Seq<Seq<u8>>, b: Seq<Seq<u8>>)
    requires
        key_le(a, b),
        key_le(b, a),
    ensures
        a == b,
    decreases a.len(),
{
    if a.len() > 0 && b.len() > 0 {
        if a[0] != b[0] {
            lemma_bytes_le_antisym(a[0], b[0]);
        }
        lemma_key_le_antisym(a.drop_first(), b.drop_first());
        assert(b =~= seq![b[0]] + b.drop_first());
    }
}

/// Whether `a` comes before `b` or equals it, byte by byte.
pub fn bytes_before(a: &[u8], b: &[u8]) -> (yes: bool)
    ensures
        yes == bytes_le(a@, b@),
{
    let mut i: usize = 0;
    assert(a@.skip(0) =~= a@);
    assert(b@.skip(0) =~= b@);
    while i < a.len() && i < b.len()
        invariant
            i <= a.len(),
            i <= b.len(),
            bytes_le(a@, b@) == bytes_le(a@.skip(i as int), b@.skip(i as int)),
        decreases a.len() - i,
    {
        assert(a@.skip(i as int).drop_first() =~= a@.skip(i as int + 1));
        assert(b@.skip(i as int).drop_first() =~= b@.skip(i as int + 1));
        if a[i] != b[i] {
            return a[i] < b[i];
        }
        i += 1;
    }
    i == a.len()
}

/// Whether the text `a` comes before the text `b` or equals it, as strings
/// are ordered.
pub fn text_before(a: &str, b: &str) -> (yes: bool)
    ensures
        yes == bytes_le(text_bytes(a@), text_bytes(b@)),
{
    bytes_before(a.as_bytes(), b.as_bytes())
}

/// Whether the texts `a` and `b` are the same.
pub fn same_text(a: &str, b: &str) -> (yes: bool)
    ensures
        yes == (a@ == b@),
{
    let x = a.as_bytes();
    let y = b.as_bytes();
    if x.len() != y.len() {
        return false;
    }
    let mut i: usize = 0;
    while i < x.len()
        invariant
            i <= x.len(),
            x.len() == y.len(),
            x@ == text_bytes(a@),
            y@ == text_bytes(b@),
            forall|j: int| 0 <= j < i ==> x[j] == y[j],
        decreases x.len() - i,
    {
        if x[i] != y[i] {
            return false;
        }
        i += 1;
    }
    proof {
        assert(x@ =~= y@);
        lemma_text_bytes_injective(a@, b@);
    }
    true
}

/// Something that is sorted by a key: a list of texts, compared text by
/// text.
pub trait Keyed: DeepView + Sized {
    /// The key of a thing of the model `model`, each text as its bytes.
    spec fn key(model: Self::V) -> Seq<Seq<u8>>;

    /// Whether the key of `self` comes before that of `other` or equals it.
    fn before(&self, other: &Self) -> (yes: bool)
        ensures
            yes == key_le(Self::key(self.deep_view()), Self::key(other.deep_view())),
    ;
}

/// In `models` each key comes before the keys behind it or equals them.
pub open spec fn is_sorted<T: Keyed>(models: Seq<T::V>) -> bool {
    forall|i: int, j: int|
        0 <= i < j < models.len() ==> key_le(
            #[trigger] T::key(models[i]),
            #[trigger] T::key(models[j]),
        )
}

/// `sorted` holds what `models` holds, each thing as often, in the order of
/// the keys.
pub open spec fn is_ascending<T: Keyed>(sorted: Seq<T::V>, models: Seq<T::V>) -> bool {
    is_sorted::<T>(sorted) && sorted.to_multiset() == models.to_multiset()
}

/// The things of the bag `bag` in the order of their keys.
pub open spec fn sorted_of<T: Keyed>(bag: Multiset<T::V>) -> Seq<T::V> {
    choose|sorted: Seq<T::V>| is_sorted::<T>(sorted) && sorted.to_multiset() == bag
}

/// The things of `models` in the order of their keys.
pub open spec fn ascending<T: Keyed>(models: Seq<T::V>) -> Seq<T::V> {
    sorted_of::<T>(models.to_multiset())
}

/// No two things have the same key.
pub open spec fn is_injective<T: Keyed>() -> bool {
    forall|x: T::V, y: T::V| #[trigger] T::key(x) == #[trigger] T::key(y) ==> x == y
}

/// Where no two things have the same key, there is only one way to put a
/// list in the order of its keys: the result of sorting does not depend on
/// the order in which the things were handed in.
pub proof fn lemma_sorted_unique<T: Keyed>(a: Seq<T::V>, b: Seq<T::V>)
    requires
        is_sorted::<T>(a),
        is_sorted::<T>(b),
        a.to_multiset() == b.to_multiset(),
        is_injective::<T>(),
    ensures
        a == b,
    decreases a.len(),
{
    a.to_multiset_ensures();
    b.to_multiset_ensures();
    if a.len() > 0 {
        assert(b.to_multiset().count(a[0]) > 0);
        assert(a.to_multiset().count(b[0]) > 0);
        lemma_key_le_total(T::key(a[0]), T::key(a[0]));
        lemma_key_le_total(T::key(b[0]), T::key(b[0]));
        lemma_key_le_antisym(T::key(a[0]), T::key(b[0]));
        assert(a.remove(0) =~= a.drop_first());
        assert(b.remove(0) =~= b.drop_first());
        lemma_sorted_unique::<T>(a.drop_first(), b.drop_first());
        assert(b =~= seq![b[0]] + b.drop_first());
    }
}

/// Two lists that hold the same things, each as often, have the same
/// ascending order, whatever their own order is.
pub proof fn lemma_ascending_of_permutation<T: Keyed>(a: Seq<T::V>, b: Seq<T::V>)
    requires
        a.to_multiset() == b.to_multiset(),
    ensures
        ascending::<T>(a) == ascending::<T>(b),
{
}

/// The ascending order of a list is the one list that holds the same
/// things in the order of their keys.
pub proof fn lemma_ascending_is<T: Keyed>(sorted: Seq<T::V>, models: Seq<T::V>)
    requires
        is_ascending::<T>(sorted, models),
        is_injective::<T>(),
    ensures
        ascending::<T>(models) == sorted,
{
    let chosen = ascending::<T>(models);
    lemma_sorted_unique::<T>(chosen, sorted);
}

/// Sorts `list` by key, ascending: the result holds what `list` held, each
/// thing as often as `list` held it, in the order of the keys.
pub fn sort_by_key<T: Keyed>(list: Vec<T>) -> (sorted: Vec<T>)
    ensures
        is_ascending::<T>(sorted.deep_view(), list.deep_view()),
{
    let mut rest = list;
    let mut sorted: Vec<T> = Vec::new();
    proof {
        vstd::seq_lib::lemma_multiset_commutative(sorted.deep_view(), rest.deep_view());
    }
    while rest.len() > 0
        invariant
            is_sorted::<T>(sorted.deep_view()),
            sorted.deep_view().to_multiset().add(rest.deep_view().to_multiset())
                == list.deep_view().to_multiset(),
        decreases rest.len(),
    {
        let ghost rest_before = rest.deep_view();
        let ghost before = sorted.deep_view();
        let item = rest.pop().unwrap();
        let ghost model = item.deep_view();
        let mut at: usize = 0;
        while at < sorted.len() && sorted[at].before(&item)
            invariant
                at <= sorted.len(),
                before == sorted.deep_view(),
                model == item.deep_view(),
                forall|j: int| 0 <= j < at ==> key_le(T::key(before[j]), T::key(model)),
            decreases sorted.len() - at,
        {
            at += 1;
        }
        sorted.insert(at, item);
        proof {
            let after = sorted.deep_view();
            assert(after =~= before.insert(at as int, model));
            assert forall|i: int, j: int| 0 <= i < j < after.len() implies key_le(
                #[trigger] T::key(after[i]),
                #[trigger] T::key(after[j]),
            ) by {
                if i == at && j > at {
                    lemma_key_le_total(T::key(before[at as int]), T::key(model));
                    if j - 1 > at {
                        lemma_key_le_trans(
                            T::key(model),
                            T::key(before[at as int]),
                            T::key(before[j - 1]),
                        );
                    }
                }
            }
            assert(rest_before =~= rest.deep_view().push(model));
            vstd::seq_lib::to_multiset_build(rest.deep_view(), model);
            vstd::seq_lib::to_multiset_insert(before, at as int, model);
        }
    }
    proof {
        vstd::seq_lib::lemma_multiset_commutative(sorted.deep_view(), rest.deep_view());
    }
    sorted
}

} // verus!
