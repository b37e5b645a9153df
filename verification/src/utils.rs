//! Matching of container names and labels against filter lists.

use vstd::prelude::*;
use vstd::string::StringSliceAdditionalSpecFns;
use vstd::utf8::{decode_utf8, encode_utf8, is_char_boundary};

use crate::config::{label_filters_of, lemma_label_filter_forms, ContainerLabels};
use crate::strmap::StrMap;
use crate::text::{is_substring, lemma_substring_iff_split, str_contains};

verus! {

/// Labels of a container: label key to label value.
pub type Labels = StrMap<String>;

/// Some reference string contains some pattern string.
pub open spec fn some_contains(refs: Seq<Seq<char>>, pats: Seq<Seq<char>>) -> bool {
    exists|i: int, j: int|
        0 <= i < refs.len() && 0 <= j < pats.len() && #[trigger] is_substring(pats[j], refs[i])
}

/// A label `key=value` satisfies the filter `filter_key` (with an optional value):
/// the key contains the filter key and, when a filter value is given, the value
/// contains it.
pub open spec fn label_entry_matches(
    key: Seq<char>,
    value: Seq<char>,
    filter_key: Seq<char>,
    filter_value: Option<Seq<char>>,
) -> bool {
    &&& is_substring(filter_key, key)
    &&& match filter_value {
        Some(fv) => is_substring(fv, value),
        None => true,
    }
}

/// An empty filter accepts every label set; otherwise some label must satisfy some filter.
pub open spec fn labels_match(
    labels: Map<Seq<char>, Seq<char>>,
    filters: Map<Seq<char>, Option<Seq<char>>>,
) -> bool {
    ||| filters.is_empty()
    ||| exists|k: Seq<char>, fk: Seq<char>|
        labels.contains_key(k) && filters.contains_key(fk) && #[trigger] label_entry_matches(
            k,
            labels[k],
            fk,
            filters[fk],
        )
}

/// Whether some string of `ref_strings` contains some string of `contains_strings`.
pub fn strings_in_strings(ref_strings: &Vec<String>, contains_strings: &Vec<String>) -> (r: bool)
    ensures
        r == some_contains(ref_strings.deep_view(), contains_strings.deep_view()),
{
    let ghost refs = ref_strings.deep_view();
    let ghost pats = contains_strings.deep_view();
    let mut i: usize = 0;
    while i < ref_strings.len()
        invariant
            i <= ref_strings.len(),
            refs == ref_strings.deep_view(),
            pats == contains_strings.deep_view(),
            forall|a: int, b: int|
                0 <= a < i && 0 <= b < pats.len() ==> !#[trigger] is_substring(pats[b], refs[a]),
        decreases ref_strings.len() - i,
    {
        let mut j: usize = 0;
        while j < contains_strings.len()
            invariant
                i < ref_strings.len(),
                j <= contains_strings.len(),
                refs == ref_strings.deep_view(),
                pats == contains_strings.deep_view(),
                forall|b: int| 0 <= b < j ==> !#[trigger] is_substring(pats[b], refs[i as int]),
            decreases contains_strings.len() - j,
        {
            if str_contains(ref_strings[i].as_str(), contains_strings[j].as_str()) {
                assert(is_substring(pats[j as int], refs[i as int]));
                return true;
            }
            j += 1;
        }
        i += 1;
    }
    false
}

/// Whether the container labels `ref_map` satisfy the label filters `contains_map`:
/// true when there are no filters, otherwise true exactly when some label's key
/// contains some filter key and, if that filter carries a value, the label's value
/// contains it.
pub fn label_match(ref_map: &Labels, contains_map: &ContainerLabels) -> (r: bool)
    ensures
        r == labels_match(ref_map@, contains_map@),
{
    if contains_map.is_empty() {
        return true;
    }
    proof {
        use_type_invariant(ref_map);
        use_type_invariant(contains_map);
        ref_map.lemma_entries_agree();
        contains_map.lemma_entries_agree();
    }
    if ref_map.is_empty() {
        return false;
    }
    let mut i: usize = 0;
    while i < ref_map.len()
        invariant
            i <= ref_map.size(),
            forall|a: int, b: int|
                0 <= a < i && 0 <= b < contains_map.size() ==> !#[trigger] label_entry_matches(
                    ref_map.key_at(a),
                    ref_map.value_at(a),
                    contains_map.key_at(b),
                    contains_map.value_at(b),
                ),
        decreases ref_map.size() - i,
    {
        let k = ref_map.key(i);
        let v = ref_map.value(i);
        let mut j: usize = 0;
        while j < contains_map.len()
            invariant
                i < ref_map.size(),
                j <= contains_map.size(),
                k@ == ref_map.key_at(i as int),
                v@ == ref_map.value_at(i as int),
                ref_map@.contains_key(k@),
                ref_map@[k@] == v@,
                forall|b: int|
                    0 <= b < j ==> !#[trigger] label_entry_matches(
                        ref_map.key_at(i as int),
                        ref_map.value_at(i as int),
                        contains_map.key_at(b),
                        contains_map.value_at(b),
                    ),
            decreases contains_map.size() - j,
        {
            let ck = contains_map.key(j);
            let cv = contains_map.value(j);
            if str_contains(k.as_str(), ck.as_str()) {
                match cv {
                    Some(val) => {
                        if str_contains(v.as_str(), val.as_str()) {
                            assert(label_entry_matches(k@, ref_map@[k@], ck@, contains_map@[ck@]));
                            return true;
                        }
                    },
                    None => {
                        assert(label_entry_matches(k@, ref_map@[k@], ck@, contains_map@[ck@]));
                        return true;
                    },
                }
            }
            j += 1;
        }
        i += 1;
    }
    proof {
        assert forall|k: Seq<char>, fk: Seq<char>|
            ref_map@.contains_key(k) && contains_map@.contains_key(fk) implies !#[trigger] label_entry_matches(
                k,
                ref_map@[k],
                fk,
                contains_map@[fk],
            ) by {
            let a = crate::strmap::entry_index(ref_map.entry_seq(), k);
            let b = crate::strmap::entry_index(contains_map.entry_seq(), fk);
            assert(!label_entry_matches(
                ref_map.key_at(a),
                ref_map.value_at(a),
                contains_map.key_at(b),
                contains_map.value_at(b),
            ));
        }
    }
    false
}

/// A single label filter `key` admits the containers having a label whose key
/// contains `key`; a single filter `key=value` admits those having a label whose
/// key contains `key` and whose value contains `value`.
pub proof fn lemma_single_label_filter(labels: Map<Seq<char>, Seq<char>>, k: Seq<char>, v: Seq<char>)
    requires
        forall|i: int| 0 <= i < k.len() ==> k[i] != '=',
    ensures
        labels_match(labels, label_filters_of(seq![k])) == exists|lk: Seq<char>|
            labels.contains_key(lk) && #[trigger] is_substring(k, lk),
        labels_match(labels, label_filters_of(seq![k + seq!['='] + v])) == exists|lk: Seq<char>|
            labels.contains_key(lk) && #[trigger] is_substring(k, lk) && is_substring(v, labels[lk]),
{
    lemma_label_filter_forms(k, v);
    let one = seq![k];
    assert(one.drop_last() =~= Seq::<Seq<char>>::empty());
    assert(one.last() == k);
    assert(label_filters_of(one.drop_last()) == Map::<Seq<char>, Option<Seq<char>>>::empty());
    let f1 = label_filters_of(one);
    assert(f1 == Map::<Seq<char>, Option<Seq<char>>>::empty().insert(k, None));
    assert(f1.contains_key(k));
    if labels_match(labels, f1) {
        let (lk, fk) = choose|lk: Seq<char>, fk: Seq<char>|
            labels.contains_key(lk) && f1.contains_key(fk) && #[trigger] label_entry_matches(lk, labels[lk], fk, f1[fk]);
        assert(is_substring(k, lk));
    }
    if exists|lk: Seq<char>| labels.contains_key(lk) && #[trigger] is_substring(k, lk) {
        let lk = choose|lk: Seq<char>| labels.contains_key(lk) && #[trigger] is_substring(k, lk);
        assert(label_entry_matches(lk, labels[lk], k, f1[k]));
    }
    let kv = k + seq!['='] + v;
    let two = seq![kv];
    assert(two.drop_last() =~= Seq::<Seq<char>>::empty());
    assert(two.last() == kv);
    assert(label_filters_of(two.drop_last()) == Map::<Seq<char>, Option<Seq<char>>>::empty());
    let f2 = label_filters_of(two);
    assert(f2 == Map::<Seq<char>, Option<Seq<char>>>::empty().insert(k, Some(v)));
    assert(f2.contains_key(k));
    if labels_match(labels, f2) {
        let (lk, fk) = choose|lk: Seq<char>, fk: Seq<char>|
            labels.contains_key(lk) && f2.contains_key(fk) && #[trigger] label_entry_matches(lk, labels[lk], fk, f2[fk]);
        assert(is_substring(k, lk) && is_substring(v, labels[lk]));
    }
    if exists|lk: Seq<char>| labels.contains_key(lk) && #[trigger] is_substring(k, lk) && is_substring(v, labels[lk]) {
        let lk = choose|lk: Seq<char>| labels.contains_key(lk) && #[trigger] is_substring(k, lk) && is_substring(v, labels[lk]);
        assert(label_entry_matches(lk, labels[lk], k, f2[k]));
    }
}

/// Label filters admit a label set when there are none, or when some label's key
/// contains some filter's key and, if that filter carries a value, the label's
/// value contains it; a single satisfied filter suffices.
pub proof fn lemma_labels_match_meaning(
    labels: Map<Seq<char>, Seq<char>>,
    filters: Map<Seq<char>, Option<Seq<char>>>,
)
    ensures
        labels_match(labels, filters) <==> (filters.dom().is_empty() || exists|k: Seq<char>, fk: Seq<char>|
            #![trigger labels.contains_key(k), filters.contains_key(fk)]
            labels.contains_key(k) && filters.contains_key(fk) && (exists|a: Seq<char>, b: Seq<char>| k == a + fk + b)
                && (filters[fk] is Some ==> exists|a: Seq<char>, b: Seq<char>| labels[k] == a + filters[fk]->0 + b)),
{
    assert(filters.is_empty() == filters.dom().is_empty());
    if !filters.dom().is_empty() {
        if labels_match(labels, filters) {
            let (k, fk) = choose|k: Seq<char>, fk: Seq<char>|
                labels.contains_key(k) && filters.contains_key(fk) && #[trigger] label_entry_matches(
                    k,
                    labels[k],
                    fk,
                    filters[fk],
                );
            lemma_substring_iff_split(fk, k);
            if filters[fk] is Some {
                lemma_substring_iff_split(filters[fk]->0, labels[k]);
            }
            assert(labels.contains_key(k) && filters.contains_key(fk));
        }
        if exists|k: Seq<char>, fk: Seq<char>|
            #![trigger labels.contains_key(k), filters.contains_key(fk)]
            labels.contains_key(k) && filters.contains_key(fk) && (exists|a: Seq<char>, b: Seq<char>| k == a + fk + b)
                && (filters[fk] is Some ==> exists|a: Seq<char>, b: Seq<char>| labels[k] == a + filters[fk]->0 + b) {
            let (k, fk) = choose|k: Seq<char>, fk: Seq<char>|
                #![trigger labels.contains_key(k), filters.contains_key(fk)]
                labels.contains_key(k) && filters.contains_key(fk) && (exists|a: Seq<char>, b: Seq<char>| k == a + fk + b)
                    && (filters[fk] is Some ==> exists|a: Seq<char>, b: Seq<char>| labels[k] == a + filters[fk]->0 + b);
            lemma_substring_iff_split(fk, k);
            if filters[fk] is Some {
                lemma_substring_iff_split(filters[fk]->0, labels[k]);
            }
            assert(label_entry_matches(k, labels[k], fk, filters[fk]));
        }
    }
}

/// Adding label filters to a non-empty filter set never turns a match into a
/// non-match.
pub proof fn lemma_labels_match_monotone(
    labels: Map<Seq<char>, Seq<char>>,
    filters: Map<Seq<char>, Option<Seq<char>>>,
    more: Map<Seq<char>, Option<Seq<char>>>,
)
    requires
        !filters.dom().is_empty(),
        filters.submap_of(more),
        labels_match(labels, filters),
    ensures
        labels_match(labels, more),
{
    lemma_labels_match_meaning(labels, filters);
    lemma_labels_match_meaning(labels, more);
    let (k, fk) = choose|k: Seq<char>, fk: Seq<char>|
        #![trigger labels.contains_key(k), filters.contains_key(fk)]
        labels.contains_key(k) && filters.contains_key(fk) && (exists|a: Seq<char>, b: Seq<char>| k == a + fk + b)
            && (filters[fk] is Some ==> exists|a: Seq<char>, b: Seq<char>| labels[k] == a + filters[fk]->0 + b);
    assert(more.contains_key(fk) && more[fk] == filters[fk]);
    assert(!more.dom().is_empty()) by {
        assert(more.dom().contains(fk));
    }
}

/// The text of a string whose UTF-8 encoding is `bytes`.
pub open spec fn text_of(bytes: Seq<u8>) -> Seq<char> {
    decode_utf8(bytes)
}

/// The abbreviated form of an identifier: its first six bytes, "...", and its last six bytes.
pub open spec fn short_id_of(bytes: Seq<u8>) -> Seq<char> {
    text_of(bytes.subrange(0, 6)) + "..."@ + text_of(bytes.subrange(bytes.len() - 6, bytes.len() as int))
}

/// For an identifier of ASCII characters (such as a hexadecimal container id), the
/// abbreviation is its first six characters, "...", and its last six characters.
pub proof fn lemma_short_id_ascii(id: Seq<char>)
    requires
        vstd::utf8::is_ascii_chars(id),
        id.len() >= 6,
    ensures
        short_id_of(encode_utf8(id)) == id.take(6) + "..."@ + id.skip(id.len() - 6),
{
    broadcast use vstd::utf8::group_utf8_lib;
    let bytes = encode_utf8(id);
    let head = id.take(6);
    let tail = id.skip(id.len() - 6);
    vstd::utf8::is_ascii_chars_encode_utf8(id);
    assert(vstd::utf8::is_ascii_chars(head));
    assert(vstd::utf8::is_ascii_chars(tail));
    vstd::utf8::is_ascii_chars_encode_utf8(head);
    vstd::utf8::is_ascii_chars_encode_utf8(tail);
    assert(bytes.subrange(0, 6) =~= encode_utf8(head)) by {
        assert forall|i: int| 0 <= i < 6 implies bytes.subrange(0, 6)[i] == encode_utf8(head)[i] by {
            assert(head[i] == id[i]);
        }
    }
    let n = bytes.len() as int;
    assert(bytes.subrange(n - 6, n) =~= encode_utf8(tail)) by {
        assert forall|i: int| 0 <= i < 6 implies bytes.subrange(n - 6, n)[i] == encode_utf8(tail)[i] by {
            assert(tail[i] == id[id.len() - 6 + i]);
        }
    }
    vstd::utf8::encode_utf8_decode_utf8(head);
    vstd::utf8::encode_utf8_decode_utf8(tail);
}

/// Abbreviates an identifier to its first and last six bytes joined by "...".
pub fn short_id(s: &String) -> (r: String)
    requires
        encode_utf8(s@).len() >= 6,
        is_char_boundary(encode_utf8(s@), 6),
        is_char_boundary(encode_utf8(s@), encode_utf8(s@).len() - 6),
    ensures
        r@ == short_id_of(encode_utf8(s@)),
{
    broadcast use vstd::utf8::group_utf8_lib;
    let t = s.as_str();
    let n = t.as_bytes().len();
    assert(t.spec_bytes() == encode_utf8(s@));
    let (start, _) = t.split_at(6);
    let (_, end) = t.split_at(n - 6);
    let mut r = start.to_owned();
    r.append("...");
    r.append(end);
    r
}

} // verus!
