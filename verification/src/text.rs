//! Comparing names by their bytes.

use vstd::prelude::*;
use vstd::utf8::encode_utf8;

verus! {

/// Whether `left` comes strictly before `right` in byte-wise dictionary order.
pub open spec fn bytes_precede(left: Seq<u8>, right: Seq<u8>) -> bool
    decreases left.len(),
{
    if right.len() == 0 {
        false
    } else if left.len() == 0 {
        true
    } else if left[0] != right[0] {
        left[0] < right[0]
    } else {
        bytes_precede(left.drop_first(), right.drop_first())
    }
}

/// Whether the name `left` comes strictly before the name `right`: names are
/// ordered by their UTF-8 bytes.
pub open spec fn name_precedes(left: Seq<char>, right: Seq<char>) -> bool {
    bytes_precede(encode_utf8(left), encode_utf8(right))
}

proof fn lemma_bytes_irreflexive(bytes: Seq<u8>)
    ensures
        !bytes_precede(bytes, bytes),
    decreases bytes.len(),
{
    if bytes.len() > 0 {
        lemma_bytes_irreflexive(bytes.drop_first());
    }
}

proof fn lemma_bytes_transitive(a: Seq<u8>, b: Seq<u8>, c: Seq<u8>)
    requires
        bytes_precede(a, b),
        bytes_precede(b, c),
    ensures
        bytes_precede(a, c),
    decreases a.len(),
{
    if a.len() > 0 && a[0] == b[0] && b[0] == c[0] {
        lemma_bytes_transitive(a.drop_first(), b.drop_first(), c.drop_first());
    }
}

proof fn lemma_bytes_total(a: Seq<u8>, b: Seq<u8>)
    ensures
        bytes_precede(a, b) || a == b || bytes_precede(b, a),
    decreases a.len(),
{
    if a.len() == 0 || b.len() == 0 {
        if a.len() == 0 && b.len() == 0 {
            assert(a =~= b);
        }
    } else if a[0] == b[0] {
        lemma_bytes_total(a.drop_first(), b.drop_first());
        if a.drop_first() == b.drop_first() {
            assert(a =~= seq![a[0]] + a.drop_first());
            assert(b =~= seq![b[0]] + b.drop_first());
        }
    }
}

/// No name precedes itself.
pub proof fn lemma_name_irreflexive(name: Seq<char>)
    ensures
        !name_precedes(name, name),
{
    lemma_bytes_irreflexive(encode_utf8(name));
}

/// The order of names is transitive.
pub proof fn lemma_name_transitive(a: Seq<char>, b: Seq<char>, c: Seq<char>)
    requires
        name_precedes(a, b),
        name_precedes(b, c),
    ensures
        name_precedes(a, c),
{
    lemma_bytes_transitive(encode_utf8(a), encode_utf8(b), encode_utf8(c));
}

/// Two names with the same UTF-8 bytes are the same name.
pub proof fn lemma_name_bytes_injective(a: Seq<char>, b: Seq<char>)
    requires
        encode_utf8(a) == encode_utf8(b),
    ensures
        a == b,
{
    vstd::utf8::encode_utf8_decode_utf8(a);
    vstd::utf8::encode_utf8_decode_utf8(b);
}

/// Of two different names one precedes the other.
pub proof fn lemma_name_total(a: Seq<char>, b: Seq<char>)
    ensures
        name_precedes(a, b) || a == b || name_precedes(b, a),
{
    lemma_bytes_total(encode_utf8(a), encode_utf8(b));
    if encode_utf8(a) == encode_utf8(b) {
        lemma_name_bytes_injective(a, b);
    }
}

/// Whether names stand in strictly ascending order.
pub open spec fn ascending(names: Seq<Seq<char>>) -> bool {
    forall|i: int, j: int|
        #![trigger names[i], names[j]]
        0 <= i < j < names.len() ==> name_precedes(names[i], names[j])
}

/// Inserting a name at its place keeps the order.
pub proof fn lemma_insert_ascending(names: Seq<Seq<char>>, slot: int, name: Seq<char>)
    requires
        ascending(names),
        0 <= slot <= names.len(),
        forall|i: int| 0 <= i < slot ==> name_precedes(#[trigger] names[i], name),
        forall|i: int| slot <= i < names.len() ==> name_precedes(name, #[trigger] names[i]),
    ensures
        ascending(names.insert(slot, name)),
{
    let after = names.insert(slot, name);
    assert forall|i: int, j: int|
        #![trigger after[i], after[j]]
        0 <= i < j < after.len() implies name_precedes(after[i], after[j]) by {
        let from_i = if i < slot { i } else { i - 1 };
        let from_j = if j < slot { j } else { j - 1 };
        if i == slot {
            assert(after[j] == names[from_j]);
        } else if j == slot {
            assert(after[i] == names[from_i]);
        } else {
            assert(after[i] == names[from_i]);
            assert(after[j] == names[from_j]);
        }
    }
}

/// Whether two strings are equal.
pub fn same_name(left: &str, right: &str) -> (same: bool)
    ensures
        same == (left@ == right@),
{
    let left_bytes: &[u8] = left.as_bytes();
    let right_bytes: &[u8] = right.as_bytes();
    if left_bytes.len() != right_bytes.len() {
        return false;
    }
    let mut i: usize = 0;
    while i < left_bytes.len()
        invariant
            i <= left_bytes@.len() == right_bytes@.len(),
            left_bytes@ == encode_utf8(left@),
            right_bytes@ == encode_utf8(right@),
            forall|j: int| 0 <= j < i ==> left_bytes@[j] == right_bytes@[j],
        decreases left_bytes.len() - i,
    {
        if left_bytes[i] != right_bytes[i] {
            return false;
        }
        i += 1;
    }
    proof {
        assert(left_bytes@ =~= right_bytes@);
        lemma_name_bytes_injective(left@, right@);
    }
    true
}

/// Whether `left` comes strictly before `right` in the order of names.
pub fn comes_before(left: &str, right: &str) -> (before: bool)
    ensures
        before == name_precedes(left@, right@),
{
    let left_bytes: &[u8] = left.as_bytes();
    let right_bytes: &[u8] = right.as_bytes();
    let mut i: usize = 0;
    assert(left_bytes@.skip(0) =~= left_bytes@);
    assert(right_bytes@.skip(0) =~= right_bytes@);
    while i < left_bytes.len() && i < right_bytes.len()
        invariant
            i <= left_bytes@.len(),
            i <= right_bytes@.len(),
            left_bytes@ == encode_utf8(left@),
            right_bytes@ == encode_utf8(right@),
            name_precedes(left@, right@) == bytes_precede(
                left_bytes@.skip(i as int),
                right_bytes@.skip(i as int),
            ),
        decreases left_bytes.len() - i,
    {
        if left_bytes[i] != right_bytes[i] {
            return left_bytes[i] < right_bytes[i];
        }
        assert(left_bytes@.skip(i as int).drop_first() =~= left_bytes@.skip(i + 1));
        assert(right_bytes@.skip(i as int).drop_first() =~= right_bytes@.skip(i + 1));
        i += 1;
    }
    i < right_bytes.len()
}

/// The order of byte sequences is that of a dictionary: behind a common start
/// the one that ends first, or has the smaller byte, comes first.
proof fn lemma_bytes_order(left: Seq<u8>, right: Seq<u8>)
    ensures
        bytes_precede(left, right) <==> exists|k: int|
            #![trigger left.take(k)]
            0 <= k <= left.len() && k < right.len() && left.take(k) == right.take(k) && (k
                == left.len() || left[k] < right[k]),
    decreases left.len(),
{
    if right.len() > 0 && left.len() > 0 && left[0] == right[0] {
        let l = left.drop_first();
        let r = right.drop_first();
        lemma_bytes_order(l, r);
        if bytes_precede(left, right) {
            let k: int = choose|k: int|
                #![trigger l.take(k)]
                0 <= k <= l.len() && k < r.len() && l.take(k) == r.take(k) && (k == l.len() || l[k]
                    < r[k]);
            assert(left.take(k + 1) =~= seq![left[0]] + l.take(k));
            assert(right.take(k + 1) =~= seq![right[0]] + r.take(k));
            assert(left.take(k + 1) == right.take(k + 1));
        }
        if exists|k: int|
            #![trigger left.take(k)]
            0 <= k <= left.len() && k < right.len() && left.take(k) == right.take(k) && (k
                == left.len() || left[k] < right[k]) {
            let k: int = choose|k: int|
                #![trigger left.take(k)]
                0 <= k <= left.len() && k < right.len() && left.take(k) == right.take(k) && (k
                    == left.len() || left[k] < right[k]);
            assert(k > 0);
            assert(l.take(k - 1) =~= left.take(k).drop_first());
            assert(r.take(k - 1) =~= right.take(k).drop_first());
            assert(l.take(k - 1) == r.take(k - 1));
        }
    } else if right.len() > 0 {
        if bytes_precede(left, right) {
            assert(left.take(0) =~= right.take(0));
        } else {
            assert forall|k: int|
                #![trigger left.take(k)]
                0 <= k <= left.len() && k < right.len() && left.take(k) == right.take(
                    k,
                ) implies !(k == left.len() || left[k] < right[k]) by {
                if k > 0 {
                    assert(left.take(k)[0] == left[0]);
                    assert(right.take(k)[0] == right[0]);
                }
            }
        }
    }
}

/// One name comes before another exactly when, behind a common start of their
/// UTF-8 bytes, it ends first or has the smaller byte.
pub proof fn law_name_order(left: Seq<char>, right: Seq<char>)
    ensures
        ({
            let l = encode_utf8(left);
            let r = encode_utf8(right);
            name_precedes(left, right) <==> exists|k: int|
                #![trigger l.take(k)]
                0 <= k <= l.len() && k < r.len() && l.take(k) == r.take(k) && (k == l.len() || l[k]
                    < r[k])
        }),
{
    lemma_bytes_order(encode_utf8(left), encode_utf8(right));
}

/// Ascending names differ from one another, and each comes before all that
/// follow it.
pub proof fn law_ascending(names: Seq<Seq<char>>)
    ensures
        ascending(names) <==> forall|i: int, j: int|
            #![trigger names[i], names[j]]
            0 <= i < j < names.len() ==> names[i] != names[j] && !name_precedes(names[j], names[i]),
{
    if ascending(names) {
        assert forall|i: int, j: int|
            #![trigger names[i], names[j]]
            0 <= i < j < names.len() implies names[i] != names[j] && !name_precedes(
            names[j],
            names[i],
        ) by {
            lemma_name_irreflexive(names[i]);
            if name_precedes(names[j], names[i]) {
                lemma_name_transitive(names[i], names[j], names[i]);
            }
        }
    }
    if forall|i: int, j: int|
        #![trigger names[i], names[j]]
        0 <= i < j < names.len() ==> names[i] != names[j] && !name_precedes(names[j], names[i]) {
        assert forall|i: int, j: int|
            #![trigger names[i], names[j]]
            0 <= i < j < names.len() implies name_precedes(names[i], names[j]) by {
            lemma_name_total(names[i], names[j]);
        }
    }
}

} // verus!
