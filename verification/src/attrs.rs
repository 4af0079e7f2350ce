//! The attribute serializer: key/value pairs rendered as a sorted,
//! escaped label list, and an order-invariant fingerprint of an attribute
//! set used to give data points a deterministic emission order.

use vstd::prelude::*;
use crate::model::Dup;
use vstd::string::StrSliceExecFns;

verus! {

/// One key/value pair of a label set.
pub struct Attr {
    pub key: String,
    pub value: String,
}

/// The mathematical content of an attribute: its key and value texts.
pub ghost struct AttrV {
    pub key: Seq<char>,
    pub value: Seq<char>,
}

impl View for Attr {
    type V = AttrV;

    open spec fn view(&self) -> AttrV {
        AttrV { key: self.key@, value: self.value@ }
    }
}

impl Attr {
    pub fn new(key: &str, value: &str) -> (r: Attr)
        ensures
            r@.key == key@,
            r@.value == value@,
    {
        Attr { key: String::from_str(key), value: String::from_str(value) }
    }

}

impl crate::sort::SortLe for Attr {
    open spec fn vle(a: AttrV, b: AttrV) -> bool {
        crate::text::lex_le(a.key, b.key)
    }

    fn le(&self, other: &Self) -> (r: bool) {
        crate::text::str_le(self.key.as_str(), other.key.as_str())
    }
}

pub const FNV_OFFSET: u64 = 0xcbf29ce484222325;

pub const FNV_PRIME: u64 = 0x100000001b3;

/// A separator fed between key and value, outside the range of any
/// character, so that the pair boundary is unambiguous.
pub const PAIR_SEP: u64 = 0x110000;

pub open spec fn spec_fnv_step(h: u64, x: u64) -> u64 {
    vstd::wrapping::u64_specs::wrapping_mul(h ^ x, FNV_PRIME)
}

pub open spec fn spec_fnv_seq(h: u64, s: Seq<char>) -> u64
    decreases s.len(),
{
    if s.len() == 0 {
        h
    } else {
        spec_fnv_seq(spec_fnv_step(h, s[0] as u64), s.drop_first())
    }
}

/// The fingerprint of one pair: a fold over its key, a separator, and its
/// value.
pub open spec fn spec_pair_hash(a: AttrV) -> u64 {
    spec_fnv_seq(spec_fnv_step(spec_fnv_seq(FNV_OFFSET, a.key), PAIR_SEP), a.value)
}

/// The fingerprint of an attribute set: the XOR of its pair fingerprints,
/// so that the result does not depend on pair order.
pub open spec fn spec_hash_attrs(s: Seq<AttrV>) -> u64
    decreases s.len(),
{
    if s.len() == 0 {
        0u64
    } else {
        spec_pair_hash(s[0]) ^ spec_hash_attrs(s.drop_first())
    }
}

proof fn lemma_xor_facts()
    ensures
        forall|x: u64| #[trigger] (x ^ 0u64) == x,
        forall|x: u64| #[trigger] (0u64 ^ x) == x,
        forall|a: u64, b: u64| #[trigger] (a ^ b) == (b ^ a),
        forall|a: u64, b: u64, c: u64| #[trigger] ((a ^ b) ^ c) == (a ^ (b ^ c)),
{
    assert(forall|x: u64| #[trigger] (x ^ 0u64) == x) by (bit_vector);
    assert(forall|x: u64| #[trigger] (0u64 ^ x) == x) by (bit_vector);
    assert(forall|a: u64, b: u64| #[trigger] (a ^ b) == (b ^ a)) by (bit_vector);
    assert(forall|a: u64, b: u64, c: u64| #[trigger] ((a ^ b) ^ c) == (a ^ (b ^ c)))
        by (bit_vector);
}

fn fnv_str(h0: u64, s: &str) -> (h: u64)
    ensures
        h == spec_fnv_seq(h0, s@),
{
    let n: usize = s.unicode_len();
    let mut h = h0;
    let mut i: usize = 0;
    proof {
        assert(s@.skip(0) =~= s@);
    }
    while i < n
        invariant
            n == s@.len(),
            i <= n,
            spec_fnv_seq(h0, s@) == spec_fnv_seq(h, s@.skip(i as int)),
        decreases n - i,
    {
        let c = s.get_char(i);
        proof {
            assert(s@.skip(i as int)[0] == c);
            assert(s@.skip(i as int).drop_first() =~= s@.skip(i + 1 as int));
        }
        h = (h ^ (c as u64)).wrapping_mul(FNV_PRIME);
        i = i + 1;
    }
    proof {
        assert(s@.skip(n as int) =~= Seq::<char>::empty());
    }
    h
}

/// The order-invariant fingerprint of a label set.
pub fn hash_attrs(attrs: &Vec<Attr>) -> (h: u64)
    ensures
        h == spec_hash_attrs(crate::text::seq_views(attrs@)),
{
    let ghost sv = crate::text::seq_views(attrs@);
    let n = attrs.len();
    let mut h: u64 = 0;
    let mut i: usize = 0;
    proof {
        assert(sv.skip(0) =~= sv);
        lemma_xor_facts();
    }
    while i < n
        invariant
            n == attrs@.len(),
            sv == crate::text::seq_views(attrs@),
            i <= n,
            spec_hash_attrs(sv) == h ^ spec_hash_attrs(sv.skip(i as int)),
        decreases n - i,
    {
        let a = &attrs[i];
        let hk = fnv_str(FNV_OFFSET, a.key.as_str());
        let hs = (hk ^ PAIR_SEP).wrapping_mul(FNV_PRIME);
        let hp = fnv_str(hs, a.value.as_str());
        proof {
            assert(sv.skip(i as int)[0] == attrs@[i as int]@);
            assert(sv.skip(i as int).drop_first() =~= sv.skip(i + 1 as int));
            assert(hp == spec_pair_hash(attrs@[i as int]@));
            let rest = spec_hash_attrs(sv.skip(i + 1 as int));
            assert(spec_hash_attrs(sv.skip(i as int)) == hp ^ rest);
            lemma_xor_facts();
            assert(h ^ (hp ^ rest) == (h ^ hp) ^ rest);
        }
        h = h ^ hp;
        i = i + 1;
    }
    proof {
        assert(sv.skip(n as int) =~= Seq::<AttrV>::empty());
        lemma_xor_facts();
        assert(h ^ spec_hash_attrs(Seq::<AttrV>::empty()) == h);
    }
    h
}

proof fn lemma_hash_attrs_remove(s: Seq<AttrV>, i: int)
    requires
        0 <= i < s.len(),
    ensures
        spec_hash_attrs(s) == spec_pair_hash(s[i]) ^ spec_hash_attrs(s.remove(i)),
    decreases s.len(),
{
    if i == 0 {
        assert(s.remove(0) =~= s.drop_first());
    } else {
        lemma_hash_attrs_remove(s.drop_first(), i - 1);
        assert(s.drop_first().remove(i - 1) =~= s.remove(i).drop_first());
        assert(s.remove(i)[0] == s[0]);
        assert(s.remove(i).len() > 0);
        let h0 = spec_pair_hash(s[0]);
        let hi = spec_pair_hash(s[i]);
        let rest = spec_hash_attrs(s.drop_first().remove(i - 1));
        assert(spec_hash_attrs(s) == h0 ^ (hi ^ rest));
        assert(spec_hash_attrs(s.remove(i)) == h0 ^ rest);
        lemma_xor_facts();
        assert(h0 ^ (hi ^ rest) == (h0 ^ hi) ^ rest);
        assert((h0 ^ hi) ^ rest == (hi ^ h0) ^ rest);
        assert((hi ^ h0) ^ rest == hi ^ (h0 ^ rest));
    }
}

/// The fingerprint of a label set does not depend on the order of its
/// pairs.
pub proof fn lemma_hash_attrs_perm(s1: Seq<AttrV>, s2: Seq<AttrV>)
    requires
        s1.to_multiset() == s2.to_multiset(),
    ensures
        spec_hash_attrs(s1) == spec_hash_attrs(s2),
    decreases s1.len(),
{
    broadcast use vstd::seq_lib::group_to_multiset_ensures;

    if s1.len() == 0 {
        assert(s2.to_multiset().len() == 0);
    } else {
        assert(s2.len() == s1.len()) by {
            assert(s1.to_multiset().len() == s1.len());
            assert(s2.to_multiset().len() == s2.len());
        }
        assert(s1.contains(s1[0]));
        assert(s2.to_multiset().count(s1[0]) > 0);
        assert(s2.contains(s1[0]));
        let i = choose|i: int| 0 <= i < s2.len() && s2[i] == s1[0];
        lemma_hash_attrs_remove(s2, i);
        assert(s1.remove(0) =~= s1.drop_first());
        assert(s1.drop_first().to_multiset() == s1.to_multiset().remove(s1[0]));
        assert(s2.remove(i).to_multiset() == s2.to_multiset().remove(s2[i]));
        lemma_hash_attrs_perm(s1.drop_first(), s2.remove(i));
    }
}

/// The rendered form of one pair: sanitized key, an equals sign, and the
/// escaped value in double quotes.
pub open spec fn spec_attr_text(a: AttrV) -> Seq<char> {
    crate::sanitize::spec_sanitize(a.key) + seq!['=', '"'] + crate::escape::spec_escape(a.value)
        + seq!['"']
}

/// A comma-separated list of rendered pairs, in the given order.
pub open spec fn spec_attr_list(s: Seq<AttrV>) -> Seq<char> {
    if s.len() == 0 {
        Seq::empty()
    } else {
        spec_attr_text(s[0]) + crate::text::concat_map(
            s.drop_first(),
            |a: AttrV| seq![','] + spec_attr_text(a),
        )
    }
}

proof fn lemma_attr_list_snoc(s: Seq<AttrV>)
    requires
        s.len() > 0,
    ensures
        spec_attr_list(s) == if s.len() == 1 {
            spec_attr_text(s[0])
        } else {
            spec_attr_list(s.drop_last()) + seq![','] + spec_attr_text(s.last())
        },
{
    if s.len() == 1 {
        assert(s.drop_first() =~= Seq::<AttrV>::empty());
        assert(spec_attr_list(s) =~= spec_attr_text(s[0]));
    } else {
        let f = |a: AttrV| seq![','] + spec_attr_text(a);
        crate::text::lemma_concat_map_snoc(s.drop_first(), f);
        assert(s.drop_first().drop_last() =~= s.drop_last().drop_first());
        assert(s.drop_first().last() == s.last());
        assert(s.drop_last()[0] == s[0]);
        assert(spec_attr_list(s) =~= spec_attr_list(s.drop_last()) + seq![','] + spec_attr_text(
            s.last(),
        ));
    }
}

/// The full label-list body of an attribute set: pairs sorted by key.
pub open spec fn spec_attrs_body(s: Seq<AttrV>) -> Seq<char> {
    spec_attr_list(crate::sort::sort_views::<Attr>(s))
}

/// Writes the label-list body for `attrs`: entries sorted by key, each
/// `key="value"` with the key sanitized and the value escaped, separated
/// by commas. Does not write the surrounding curly braces.
pub fn write_attrs(f: &mut String, attrs: &Vec<Attr>)
    ensures
        final(f)@ == old(f)@ + spec_attrs_body(crate::text::seq_views(attrs@)),
{
    let mut sorted: Vec<Attr> = Vec::new();
    let n = attrs.len();
    let mut i: usize = 0;
    while i < n
        invariant
            n == attrs@.len(),
            i <= n,
            crate::text::seq_views(sorted@) == crate::text::seq_views(attrs@).subrange(0, i as int),
        decreases n - i,
    {
        let a = &attrs[i];
        let ghost pre = sorted@;
        let d = a.duplicate();
        proof {
            assert(d@ == attrs@[i as int]@);
        }
        sorted.push(d);
        proof {
            assert(crate::text::seq_views(pre).len() == pre.len());
            assert(pre.len() == i);
            assert(sorted@ == pre.push(d));
            assert forall|j: int|
                0 <= j < i + 1 implies crate::text::seq_views(sorted@)[j] == crate::text::seq_views(
                attrs@,
            ).subrange(0, i + 1 as int)[j] by {
                if j < i {
                    assert(sorted@[j] == pre[j]);
                    assert(crate::text::seq_views(pre)[j] == pre[j]@);
                    assert(crate::text::seq_views(pre)[j] == crate::text::seq_views(
                        attrs@,
                    ).subrange(0, i as int)[j]);
                } else {
                    assert(sorted@[j] == d);
                }
            }
            assert(crate::text::seq_views(sorted@) =~= crate::text::seq_views(attrs@).subrange(
                0,
                i + 1 as int,
            ));
        }
        i = i + 1;
    }
    proof {
        assert(crate::text::seq_views(attrs@).subrange(
            0,
            n as int,
        ) =~= crate::text::seq_views(attrs@));
    }
    crate::sort::stable_sort(&mut sorted);
    let ghost sv = crate::text::seq_views(sorted@);
    let m = sorted.len();
    let mut k: usize = 0;
    proof {
        assert(sv.subrange(0, 0) =~= Seq::<AttrV>::empty());
        assert(f@ + spec_attr_list(sv.subrange(0, 0)) =~= f@);
    }
    let ghost base = f@;
    while k < m
        invariant
            m == sorted@.len(),
            k <= m,
            sv == crate::text::seq_views(sorted@),
            f@ == base + spec_attr_list(sv.subrange(0, k as int)),
        decreases m - k,
    {
        if k > 0 {
            crate::text::string_push(f, ',');
        }
        let a = &sorted[k];
        crate::sanitize::write_sanitized_name(f, a.key.as_str());
        crate::text::string_push(f, '=');
        crate::text::string_push(f, '"');
        crate::escape::write_escaped(f, a.value.as_str());
        crate::text::string_push(f, '"');
        proof {
            let t = sv.subrange(0, k + 1 as int);
            assert(t.last() == sorted@[k as int]@);
            assert(t.drop_last() =~= sv.subrange(0, k as int));
            lemma_attr_list_snoc(t);
            if k == 0 {
                assert(t[0] == sorted@[0]@);
                assert(f@ =~= base + spec_attr_list(t));
            } else {
                assert(f@ =~= base + spec_attr_list(t));
            }
        }
        k = k + 1;
    }
    proof {
        assert(sv.subrange(0, m as int) =~= sv);
    }
}

} // verus!
