//! Canonical text of an attribute set: entries stably sorted by key, entries
//! without a value dropped, the rest written `key=value` and joined by `,`.
use vstd::prelude::*;
use vstd::string::*;
use vstd::utf8::encode_utf8;
use opentelemetry_proto::tonic::common::v1::{AnyValue, KeyValue};
use crate::render::{parse_value_to_str, rendered, text_result, ValueKind};

verus! {

/// Lexicographic order on byte strings, the order of `str`.
pub open spec fn bytes_le(a: Seq<u8>, b: Seq<u8>) -> bool
    decreases a.len(),
{
    if a.len() == 0 {
        true
    } else if b.len() == 0 {
        false
    } else if a[0] != b[0] {
        a[0] < b[0]
    } else {
        bytes_le(a.drop_first(), b.drop_first())
    }
}

/// The UTF-8 bytes of an entry's key.
pub open spec fn key_bytes(kv: KeyValue) -> Seq<u8> {
    encode_utf8(kv.key@)
}

pub open spec fn key_le(a: KeyValue, b: KeyValue) -> bool {
    bytes_le(key_bytes(a), key_bytes(b))
}

/// Inserts `x` after every entry whose key is not greater than its own.
pub open spec fn insert_sorted(s: Seq<KeyValue>, x: KeyValue) -> Seq<KeyValue>
    decreases s.len(),
{
    if s.len() == 0 {
        seq![x]
    } else if key_le(s.last(), x) {
        s.push(x)
    } else {
        insert_sorted(s.drop_last(), x).push(s.last())
    }
}

/// The stable sort of entries by key.
pub open spec fn sort_by_key(s: Seq<KeyValue>) -> Seq<KeyValue>
    decreases s.len(),
{
    if s.len() == 0 {
        s
    } else {
        insert_sorted(sort_by_key(s.drop_last()), s.last())
    }
}

pub open spec fn sorted_by_key(s: Seq<KeyValue>) -> bool {
    forall|i: int, j: int| 0 <= i < j < s.len() ==> key_le(#[trigger] s[i], #[trigger] s[j])
}

/// The value of an entry, where both its wrapper and the inner value are present.
pub open spec fn present_value(kv: KeyValue) -> Option<opentelemetry_proto::tonic::common::v1::any_value::Value> {
    match kv.value {
        Some(AnyValue { value: Some(v) }) => Some(v),
        _ => None,
    }
}

/// The `key=value` texts of the entries of `s` that hold a value, in order, or
/// the kind of the first value that has no rendering.
pub open spec fn entry_texts(s: Seq<KeyValue>) -> Result<Seq<Seq<char>>, ValueKind>
    decreases s.len(),
{
    if s.len() == 0 {
        Ok(seq![])
    } else {
        match entry_texts(s.drop_last()) {
            Err(k) => Err(k),
            Ok(p) => match present_value(s.last()) {
                None => Ok(p),
                Some(v) => match rendered(v) {
                    Err(k) => Err(k),
                    Ok(t) => Ok(p.push(s.last().key@ + seq!['='] + t)),
                },
            },
        }
    }
}

/// Texts joined by `,`.
pub open spec fn join_commas(p: Seq<Seq<char>>) -> Seq<char>
    decreases p.len(),
{
    if p.len() == 0 {
        seq![]
    } else if p.len() == 1 {
        p[0]
    } else {
        join_commas(p.drop_last()) + seq![','] + p.last()
    }
}

/// The canonical text of an attribute set.
pub open spec fn canonical(s: Seq<KeyValue>) -> Result<Seq<char>, ValueKind> {
    match entry_texts(sort_by_key(s)) {
        Ok(p) => Ok(join_commas(p)),
        Err(k) => Err(k),
    }
}

proof fn lemma_bytes_le_total(a: Seq<u8>, b: Seq<u8>)
    ensures
        bytes_le(a, b) || bytes_le(b, a),
    decreases a.len(),
{
    if a.len() > 0 && b.len() > 0 && a[0] == b[0] {
        lemma_bytes_le_total(a.drop_first(), b.drop_first());
    }
}

proof fn lemma_bytes_le_trans(a: Seq<u8>, b: Seq<u8>, c: Seq<u8>)
    requires
        bytes_le(a, b),
        bytes_le(b, c),
    ensures
        bytes_le(a, c),
    decreases a.len(),
{
    if a.len() > 0 && b.len() > 0 && c.len() > 0 && a[0] == b[0] && b[0] == c[0] {
        lemma_bytes_le_trans(a.drop_first(), b.drop_first(), c.drop_first());
    }
}

proof fn lemma_insert_sorted_sorted(s: Seq<KeyValue>, x: KeyValue)
    requires
        sorted_by_key(s),
    ensures
        sorted_by_key(insert_sorted(s, x)),
        insert_sorted(s, x).len() == s.len() + 1,
        forall|i: int| 0 <= i < insert_sorted(s, x).len() ==> (#[trigger] insert_sorted(s, x)[i] == x
            || s.contains(insert_sorted(s, x)[i])),
    decreases s.len(),
{
    let r = insert_sorted(s, x);
    if s.len() == 0 {
    } else if key_le(s.last(), x) {
        assert forall|i: int, j: int| 0 <= i < j < r.len() implies key_le(#[trigger] r[i], #[trigger] r[j]) by {
            if j == s.len() as int {
                assert(r[i] == s[i]);
                assert(s[s.len() - 1] == s.last());
                if i < s.len() - 1 {
                    assert(key_le(s[i], s[s.len() - 1]));
                } else {
                    lemma_bytes_le_total(key_bytes(s[i]), key_bytes(s[i]));
                }
                lemma_bytes_le_trans(key_bytes(r[i]), key_bytes(s.last()), key_bytes(x));
            } else {
                assert(r[i] == s[i] && r[j] == s[j]);
            }
        }
        assert forall|i: int| 0 <= i < r.len() implies (#[trigger] r[i] == x || s.contains(r[i])) by {
            if i < s.len() {
                assert(s[i] == r[i]);
            }
        }
    } else {
        let t = s.drop_last();
        lemma_insert_sorted_sorted(t, x);
        let q = insert_sorted(t, x);
        lemma_bytes_le_total(key_bytes(s.last()), key_bytes(x));
        assert forall|i: int| 0 <= i < q.len() implies key_le(#[trigger] q[i], s.last()) by {
            if q[i] != x {
                let k = choose|k: int| 0 <= k < t.len() && t[k] == q[i];
                assert(s[k] == t[k]);
                assert(s[s.len() - 1] == s.last());
            }
        }
        assert forall|i: int, j: int| 0 <= i < j < r.len() implies key_le(#[trigger] r[i], #[trigger] r[j]) by {
            if j == q.len() as int {
                assert(r[i] == q[i]);
            } else {
                assert(r[i] == q[i] && r[j] == q[j]);
            }
        }
        assert forall|i: int| 0 <= i < r.len() implies (#[trigger] r[i] == x || s.contains(r[i])) by {
            if i < q.len() {
                assert(r[i] == q[i]);
                if q[i] != x {
                    let k = choose|k: int| 0 <= k < t.len() && t[k] == q[i];
                    assert(s[k] == t[k]);
                }
            } else {
                assert(s[s.len() - 1] == s.last());
            }
        }
    }
}

/// The stable sort by key leaves the entries in non-decreasing key order.
pub proof fn lemma_sort_by_key_sorted(s: Seq<KeyValue>)
    ensures
        sorted_by_key(sort_by_key(s)),
        sort_by_key(s).len() == s.len(),
    decreases s.len(),
{
    if s.len() > 0 {
        lemma_sort_by_key_sorted(s.drop_last());
        lemma_insert_sorted_sorted(sort_by_key(s.drop_last()), s.last());
    }
}

proof fn lemma_insert_at(s: Seq<KeyValue>, x: KeyValue, j: int)
    requires
        0 <= j <= s.len(),
        forall|k: int| j <= k < s.len() ==> !key_le(#[trigger] s[k], x),
        j == 0 || key_le(s[j - 1], x),
    ensures
        insert_sorted(s, x) == s.insert(j, x),
    decreases s.len(),
{
    if s.len() == 0 {
        assert(s.insert(j, x) =~= seq![x]);
    } else if j == s.len() {
        assert(s.insert(j, x) =~= s.push(x));
    } else {
        assert(s[s.len() - 1] == s.last());
        let t = s.drop_last();
        assert forall|k: int| j <= k < t.len() implies !key_le(#[trigger] t[k], x) by {
            assert(t[k] == s[k]);
        }
        if j > 0 {
            assert(t[j - 1] == s[j - 1]);
        }
        lemma_insert_at(t, x, j);
        assert(t.insert(j, x).push(s.last()) =~= s.insert(j, x));
    }
}

proof fn lemma_entry_texts_err(s: Seq<KeyValue>, n: int)
    requires
        0 <= n <= s.len(),
        entry_texts(s.subrange(0, n)) is Err,
    ensures
        entry_texts(s) == entry_texts(s.subrange(0, n)),
    decreases s.len(),
{
    if n == s.len() {
        assert(s.subrange(0, n) =~= s);
    } else {
        assert(s.drop_last().subrange(0, n) =~= s.subrange(0, n));
        lemma_entry_texts_err(s.drop_last(), n);
    }
}

/// Whether the key of `a` is not greater than the key of `b`, bytewise.
fn key_not_greater(a: &KeyValue, b: &KeyValue) -> (r: bool)
    ensures
        r == key_le(*a, *b),
{
    let x = a.key.as_str().as_bytes();
    let y = b.key.as_str().as_bytes();
    let mut i: usize = 0;
    proof {
        assert(x@.subrange(0, x@.len() as int) =~= x@);
        assert(y@.subrange(0, y@.len() as int) =~= y@);
    }
    while i < x.len() && i < y.len() && x[i] == y[i]
        invariant
            x@ == key_bytes(*a),
            y@ == key_bytes(*b),
            i <= x.len(),
            i <= y.len(),
            bytes_le(x@, y@) == bytes_le(x@.subrange(i as int, x@.len() as int), y@.subrange(i as int, y@.len() as int)),
        decreases x.len() - i,
    {
        assert(x@.subrange(i as int, x@.len() as int).drop_first() =~= x@.subrange(i + 1, x@.len() as int));
        assert(y@.subrange(i as int, y@.len() as int).drop_first() =~= y@.subrange(i + 1, y@.len() as int));
        i = i + 1;
    }
    if i == x.len() {
        true
    } else if i == y.len() {
        false
    } else {
        x[i] < y[i]
    }
}

/// Sorts entries by key, keeping entries with equal keys in their order.
fn sort_entries(entries: Vec<KeyValue>) -> (r: Vec<KeyValue>)
    ensures
        r@ == sort_by_key(entries@),
{
    let ghost orig = entries@;
    let mut rest = entries;
    let mut out: Vec<KeyValue> = Vec::new();
    while rest.len() > 0
        invariant
            rest.len() <= orig.len(),
            rest@ == orig.subrange(orig.len() - rest.len(), orig.len() as int),
            out@ == sort_by_key(orig.subrange(0, orig.len() - rest.len())),
        decreases rest.len(),
    {
        let ghost done = orig.len() - rest.len();
        let x = rest.remove(0);
        let mut j: usize = out.len();
        while j > 0 && !key_not_greater(&out[j - 1], &x)
            invariant
                j <= out.len(),
                forall|k: int| j <= k < out.len() ==> !key_le(#[trigger] out@[k], x),
            decreases j,
        {
            j = j - 1;
        }
        proof {
            lemma_insert_at(out@, x, j as int);
            assert(orig.subrange(0, done + 1).drop_last() =~= orig.subrange(0, done));
            assert(orig.subrange(0, done + 1).last() == x);
            assert(rest@ =~= orig.subrange(orig.len() - rest.len(), orig.len() as int));
        }
        out.insert(j, x);
    }
    proof {
        assert(orig.subrange(0, orig.len() as int) =~= orig);
    }
    out
}

/// The canonical text of an attribute set: entries stably sorted by the bytes
/// of their keys, entries without a value dropped, each remaining entry written
/// `key=value`, joined by `,`. Fails with the kind of the first value in that
/// order that has no text rendering.
pub fn parse_key_values_to_sorted_string(key_values: Vec<KeyValue>) -> (r: Result<String, ValueKind>)
    ensures
        text_result(r) == canonical(key_values@),
{
    let ghost input = key_values@;
    let sorted = sort_entries(key_values);
    let ghost all = sorted@;
    let ghost mut parts: Seq<Seq<char>> = seq![];
    let mut rest = sorted;
    let mut out = String::new();
    let mut first: bool = true;
    while rest.len() > 0
        invariant
            rest.len() <= all.len(),
            rest@ == all.subrange(all.len() - rest.len(), all.len() as int),
            entry_texts(all.subrange(0, all.len() - rest.len())) == Ok::<Seq<Seq<char>>, ValueKind>(parts),
            out@ == join_commas(parts),
            first == (parts.len() == 0),
            all == sort_by_key(input),
            input == key_values@,
        decreases rest.len(),
    {
        let ghost done = all.len() - rest.len();
        let kv = rest.remove(0);
        proof {
            assert(all.subrange(0, done + 1).drop_last() =~= all.subrange(0, done));
            assert(all.subrange(0, done + 1).last() == kv);
            assert(rest@ =~= all.subrange(all.len() - rest.len(), all.len() as int));
        }
        let ghost entry = kv;
        let KeyValue { key, value, .. } = kv;
        match value {
            Some(AnyValue { value: Some(v) }) => {
                match parse_value_to_str(v) {
                    Err(k) => {
                        proof {
                            assert(present_value(entry) == Some(v));
                            assert(entry_texts(all.subrange(0, done + 1)) == Err::<Seq<Seq<char>>, ValueKind>(k));
                            lemma_entry_texts_err(all, done + 1);
                            assert(entry_texts(sort_by_key(input)) == Err::<Seq<Seq<char>>, ValueKind>(k));
                            assert(canonical(input) == Err::<Seq<char>, ValueKind>(k));
                        }
                        return Err(k);
                    },
                    Ok(t) => {
                        let ghost p = key@ + seq!['='] + t@;
                        proof {
                            reveal_strlit(",");
                            reveal_strlit("=");
                            assert(parts.push(p).drop_last() =~= parts);
                        }
                        if !first {
                            out.append(",");
                        }
                        first = false;
                        out.append(key.as_str());
                        out.append("=");
                        out.append(t.as_str());
                        proof {
                            if parts.len() == 0 {
                                assert(out@ =~= p);
                            } else {
                                assert(out@ =~= join_commas(parts) + seq![','] + p);
                            }
                            parts = parts.push(p);
                        }
                    },
                }
            },
            _ => {},
        }
    }
    proof {
        assert(all.subrange(0, all.len() as int) =~= all);
    }
    Ok(out)
}

proof fn lemma_insert_sorted_multiset(s: Seq<KeyValue>, x: KeyValue)
    ensures
        insert_sorted(s, x).to_multiset() == s.to_multiset().insert(x),
    decreases s.len(),
{
    broadcast use vstd::seq_lib::group_to_multiset_ensures;

    if s.len() == 0 {
        assert(seq![x] =~= s.push(x));
    } else if !key_le(s.last(), x) {
        let t = s.drop_last();
        lemma_insert_sorted_multiset(t, x);
        assert(t.push(s.last()) =~= s);
        assert(insert_sorted(s, x).to_multiset() =~= s.to_multiset().insert(x));
    }
}

/// The stable sort by key only reorders: it holds each entry as often as the
/// input does.
proof fn lemma_sort_by_key_multiset(s: Seq<KeyValue>)
    ensures
        sort_by_key(s).to_multiset() == s.to_multiset(),
    decreases s.len(),
{
    broadcast use vstd::seq_lib::group_to_multiset_ensures;

    if s.len() > 0 {
        lemma_sort_by_key_multiset(s.drop_last());
        lemma_insert_sorted_multiset(sort_by_key(s.drop_last()), s.last());
        assert(s.drop_last().push(s.last()) =~= s);
    }
}

/// Canonicalization is deterministic: attribute sets equal by value have the
/// same canonical text, so repeated calls on equal inputs give identical results.
pub proof fn lemma_canonical_deterministic(a: Seq<KeyValue>, b: Seq<KeyValue>)
    requires
        a == b,
    ensures
        canonical(a) == canonical(b),
{
}

/// The canonical text lists its entries in non-decreasing key order: it is
/// rendered, entry by entry, from a reordering of the input entries whose keys
/// never decrease.
pub proof fn lemma_canonical_in_key_order(a: Seq<KeyValue>)
    ensures
        sorted_by_key(sort_by_key(a)),
        sort_by_key(a).to_multiset() == a.to_multiset(),
        canonical(a) == match entry_texts(sort_by_key(a)) {
            Ok(p) => Ok::<Seq<char>, ValueKind>(join_commas(p)),
            Err(k) => Err(k),
        },
{
    lemma_sort_by_key_sorted(a);
    lemma_sort_by_key_multiset(a);
}

/// Whether an entry's key has the given bytes.
pub open spec fn has_key(kb: Seq<u8>) -> spec_fn(KeyValue) -> bool {
    |y: KeyValue| key_bytes(y) == kb
}

proof fn lemma_filter_push(u: Seq<KeyValue>, x: KeyValue, kb: Seq<u8>)
    ensures
        u.push(x).filter(has_key(kb)) == if key_bytes(x) == kb {
            u.filter(has_key(kb)).push(x)
        } else {
            u.filter(has_key(kb))
        },
{
    reveal(Seq::filter);
    assert(u.push(x).drop_last() =~= u);
}

proof fn lemma_insert_sorted_filter(u: Seq<KeyValue>, x: KeyValue, kb: Seq<u8>)
    ensures
        insert_sorted(u, x).filter(has_key(kb)) == if key_bytes(x) == kb {
            u.filter(has_key(kb)).push(x)
        } else {
            u.filter(has_key(kb))
        },
    decreases u.len(),
{
    if u.len() == 0 {
        lemma_filter_push(u, x, kb);
        assert(u.push(x) =~= seq![x]);
    } else if key_le(u.last(), x) {
        lemma_filter_push(u, x, kb);
    } else {
        let t = u.drop_last();
        let l = u.last();
        lemma_insert_sorted_filter(t, x, kb);
        lemma_filter_push(insert_sorted(t, x), l, kb);
        lemma_filter_push(t, l, kb);
        assert(t.push(l) =~= u);
        lemma_bytes_le_total(key_bytes(l), key_bytes(l));
    }
}

/// The sort by key is stable: for every key, the entries with that key come
/// out in the order in which they came in.
pub proof fn lemma_sort_by_key_stable(s: Seq<KeyValue>, kb: Seq<u8>)
    ensures
        sort_by_key(s).filter(has_key(kb)) == s.filter(has_key(kb)),
    decreases s.len(),
{
    if s.len() > 0 {
        lemma_sort_by_key_stable(s.drop_last(), kb);
        lemma_insert_sorted_filter(sort_by_key(s.drop_last()), s.last(), kb);
        lemma_filter_push(s.drop_last(), s.last(), kb);
        assert(s.drop_last().push(s.last()) =~= s);
    }
}

} // verus!
