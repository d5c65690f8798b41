//! Label handling for series: a label set is a list of key/value
//! pairs; the derived series label is the metric name followed by the
//! remaining pairs, sorted and joined as `key=value`.

use vstd::multiset::Multiset;
use vstd::prelude::*;
use vstd::relations::{sorted_by, total_ordering};
use vstd::seq_lib::*;

use crate::lexical::{
    chars_lt, lemma_chars_lt_asymmetric, lemma_chars_lt_connected, lemma_chars_lt_irreflexive,
    lemma_chars_lt_transitive, str_eq, str_lt,
};

verus! {

/// One label: a key and a value.
pub struct LabelPair {
    pub key: String,
    pub value: String,
}

/// The mathematical content of a label pair: its key and value as
/// character sequences.
pub type PairV = (Seq<char>, Seq<char>);

impl View for LabelPair {
    type V = PairV;

    open spec fn view(&self) -> PairV {
        (self.key@, self.value@)
    }
}

/// The views of a list of label pairs.
pub open spec fn pairs_view(s: Seq<LabelPair>) -> Seq<PairV> {
    s.map_values(|p: LabelPair| p@)
}

/// Non-strict order on pairs: by key, then by value, lexicographically.
pub open spec fn pair_leq(p: PairV, q: PairV) -> bool {
    chars_lt(p.0, q.0) || (p.0 == q.0 && (chars_lt(p.1, q.1) || p.1 == q.1))
}

/// The pair order as a first-class relation, for sorting.
pub open spec fn pair_order() -> spec_fn(PairV, PairV) -> bool {
    |p: PairV, q: PairV| pair_leq(p, q)
}

/// The pair order is a total ordering, so a sorted arrangement of any
/// multiset of pairs is unique.
pub proof fn lemma_pair_order_total()
    ensures
        total_ordering(pair_order()),
{
    let leq = pair_order();
    assert forall|p: PairV| #[trigger] leq(p, p) by {
        lemma_chars_lt_irreflexive(p.0);
    }
    assert forall|p: PairV, q: PairV| #[trigger] leq(p, q) && #[trigger] leq(q, p) implies p == q by {
        lemma_chars_lt_asymmetric(p.0, q.0);
        lemma_chars_lt_asymmetric(p.1, q.1);
    }
    assert forall|p: PairV, q: PairV, r: PairV|
        #[trigger] leq(p, q) && #[trigger] leq(q, r) implies #[trigger] leq(p, r) by {
        lemma_chars_lt_transitive(p.0, q.0, r.0);
        lemma_chars_lt_transitive(p.1, q.1, r.1);
    }
    assert forall|p: PairV, q: PairV| #[trigger] leq(p, q) || #[trigger] leq(q, p) by {
        lemma_chars_lt_connected(p.0, q.0);
        lemma_chars_lt_connected(p.1, q.1);
    }
}

/// Compares two label pairs in the pair order.
pub fn pair_le(a: &LabelPair, b: &LabelPair) -> (r: bool)
    ensures
        r == pair_leq(a@, b@),
{
    if str_lt(a.key.as_str(), b.key.as_str()) {
        true
    } else if str_eq(a.key.as_str(), b.key.as_str()) {
        if str_lt(a.value.as_str(), b.value.as_str()) {
            true
        } else {
            str_eq(a.value.as_str(), b.value.as_str())
        }
    } else {
        false
    }
}

/// Inserting an element at a position bounded by smaller elements on
/// the left and a larger one on the right keeps a sequence sorted.
proof fn lemma_sorted_insert(s: Seq<PairV>, p: PairV, k: int)
    requires
        sorted_by(s, pair_order()),
        0 <= k <= s.len(),
        forall|j: int| 0 <= j < k ==> pair_leq(#[trigger] s[j], p),
        k < s.len() ==> pair_leq(p, s[k]),
    ensures
        sorted_by(s.insert(k, p), pair_order()),
{
    lemma_pair_order_total();
    let t = s.insert(k, p);
    s.insert_ensures(k, p);
    let leq = pair_order();
    assert forall|i: int, j: int| 0 <= i < j < t.len() implies leq(t[i], t[j]) by {
        if j < k {
            assert(t[i] == s[i] && t[j] == s[j]);
            assert(leq(s[i], s[j]));
        } else if i < k && j == k {
            assert(t[i] == s[i] && t[j] == p);
            assert(pair_leq(s[i], p));
            assert(leq(s[i], p));
        } else if i < k && j > k {
            assert(t[i] == s[i] && t[j] == s[j - 1]);
            assert(leq(s[i], s[j - 1]));
        } else if i == k && j > k {
            assert(t[i] == p && t[j] == s[j - 1]);
            assert(pair_leq(p, s[k]));
            assert(leq(p, s[k]));
            if j - 1 > k {
                assert(leq(s[k], s[j - 1]));
                assert(leq(p, s[j - 1]));
            }
        } else if i > k {
            assert(t[i] == s[i - 1] && t[j] == s[j - 1]);
            assert(leq(s[i - 1], s[j - 1]));
        }
    }
}

/// Mapping the view over a list commutes with `push`.
proof fn lemma_pairs_view_push(s: Seq<LabelPair>, p: LabelPair)
    ensures
        pairs_view(s.push(p)) == pairs_view(s).push(p@),
{
    assert(pairs_view(s.push(p)) =~= pairs_view(s).push(p@));
}

/// Mapping the view over a list commutes with `insert`.
proof fn lemma_pairs_view_insert(s: Seq<LabelPair>, p: LabelPair, k: int)
    requires
        0 <= k <= s.len(),
    ensures
        pairs_view(s.insert(k, p)) == pairs_view(s).insert(k, p@),
{
    assert(pairs_view(s.insert(k, p)) =~= pairs_view(s).insert(k, p@));
}

/// A sequence's multiset gains exactly the inserted element.
proof fn lemma_to_multiset_seq_insert(s: Seq<PairV>, p: PairV, k: int)
    requires
        0 <= k <= s.len(),
    ensures
        s.insert(k, p).to_multiset() == s.to_multiset().insert(p),
{
    broadcast use vstd::seq_lib::group_to_multiset_ensures;

    let t = s.insert(k, p);
    assert(t.remove(k) =~= s);
    assert(t[k] == p);
    assert(t.remove(k).to_multiset() =~= t.to_multiset().remove(p));
    assert(t.contains(p));
    assert(t.to_multiset().count(p) > 0);
    assert(t.to_multiset() =~= s.to_multiset().insert(p));
}

/// Finds the first position in a sorted list where `p` may be
/// inserted: everything before it is at most `p`, and the entry at the
/// position, if any, is at least `p`.
fn insert_pos(sorted: &Vec<LabelPair>, p: &LabelPair) -> (k: usize)
    requires
        sorted_by(pairs_view(sorted@), pair_order()),
    ensures
        k <= sorted@.len(),
        forall|j: int| 0 <= j < k ==> pair_leq(#[trigger] pairs_view(sorted@)[j], p@),
        k < sorted@.len() ==> pair_leq(p@, pairs_view(sorted@)[k as int]),
{
    let mut k: usize = 0;
    while k < sorted.len()
        invariant
            k <= sorted@.len(),
            forall|j: int| 0 <= j < k ==> pair_leq(#[trigger] pairs_view(sorted@)[j], p@),
        decreases sorted@.len() - k,
    {
        if pair_le(p, &sorted[k]) {
            return k;
        }
        proof {
            lemma_pair_order_total();
            let leq = pair_order();
            assert(leq(pairs_view(sorted@)[k as int], p@) || leq(p@, pairs_view(sorted@)[k as int]));
        }
        k += 1;
    }
    k
}

/// Sorts label pairs by key, then value: the output is the unique
/// sorted arrangement of the input pairs.
pub fn sort_pairs(input: Vec<LabelPair>) -> (out: Vec<LabelPair>)
    ensures
        sorted_by(pairs_view(out@), pair_order()),
        pairs_view(out@).to_multiset() == pairs_view(input@).to_multiset(),
{
    broadcast use vstd::seq_lib::group_to_multiset_ensures;

    let mut rest = input;
    let mut out: Vec<LabelPair> = Vec::new();
    let ghost whole: Seq<PairV> = pairs_view(rest@);
    proof {
        assert(pairs_view(out@) =~= Seq::<PairV>::empty());
        assert(pairs_view(out@).to_multiset() =~= Multiset::<PairV>::empty());
        assert(pairs_view(out@).to_multiset().add(pairs_view(rest@).to_multiset()) =~= pairs_view(
            rest@,
        ).to_multiset());
    }
    while rest.len() > 0
        invariant
            sorted_by(pairs_view(out@), pair_order()),
            pairs_view(out@).to_multiset().add(pairs_view(rest@).to_multiset())
                == whole.to_multiset(),
        decreases rest@.len(),
    {
        let ghost rest_before: Seq<LabelPair> = rest@;
        let p = rest.pop().unwrap();
        proof {
            assert(rest_before =~= rest@.push(p));
            lemma_pairs_view_push(rest@, p);
            assert(pairs_view(rest_before) == pairs_view(rest@).push(p@));
            to_multiset_build(pairs_view(rest@), p@);
        }
        let k = insert_pos(&out, &p);
        let ghost out_before: Seq<LabelPair> = out@;
        out.insert(k, p);
        proof {
            lemma_pairs_view_insert(out_before, p, k as int);
            lemma_sorted_insert(pairs_view(out_before), p@, k as int);
            lemma_to_multiset_seq_insert(pairs_view(out_before), p@, k as int);
            assert(pairs_view(out@).to_multiset().add(pairs_view(rest@).to_multiset())
                =~= whole.to_multiset());
        }
    }
    out
}

/// Two sequences sorted under the pair order with the same multiset of
/// elements are equal.
pub proof fn lemma_sorted_unique(a: Seq<PairV>, b: Seq<PairV>)
    requires
        sorted_by(a, pair_order()),
        sorted_by(b, pair_order()),
        a.to_multiset() == b.to_multiset(),
    ensures
        a == b,
    decreases a.len(),
{
    broadcast use vstd::seq_lib::group_to_multiset_ensures;

    lemma_pair_order_total();
    let leq = pair_order();
    assert(a.len() == a.to_multiset().len());
    assert(b.len() == b.to_multiset().len());
    if a.len() == 0 {
        assert(a =~= b);
    } else {
        assert(a.contains(a[0]));
        assert(a.to_multiset().count(a[0]) > 0);
        assert(b.to_multiset().count(a[0]) > 0);
        assert(b.contains(a[0]));
        let ja = choose|j: int| 0 <= j < b.len() && b[j] == a[0];
        assert(leq(b[0], b[ja]) || ja == 0);
        assert(b.contains(b[0]));
        assert(b.to_multiset().count(b[0]) > 0);
        assert(a.to_multiset().count(b[0]) > 0);
        assert(a.contains(b[0]));
        let jb = choose|j: int| 0 <= j < a.len() && a[j] == b[0];
        assert(leq(a[0], a[jb]) || jb == 0);
        assert(a[0] == b[0]);
        let a1 = a.remove(0);
        let b1 = b.remove(0);
        assert(a1.to_multiset() == a.to_multiset().remove(a[0]));
        assert(b1.to_multiset() == b.to_multiset().remove(b[0]));
        assert(a1.to_multiset() == b1.to_multiset());
        assert forall|i: int, j: int| 0 <= i < j < a1.len() implies leq(a1[i], a1[j]) by {
            assert(a1[i] == a[i + 1] && a1[j] == a[j + 1]);
        }
        assert forall|i: int, j: int| 0 <= i < j < b1.len() implies leq(b1[i], b1[j]) by {
            assert(b1[i] == b[i + 1] && b1[j] == b[j + 1]);
        }
        lemma_sorted_unique(a1, b1);
        a.remove_ensures(0);
        b.remove_ensures(0);
        assert forall|i: int| 0 <= i < a.len() implies a[i] == b[i] by {
            if i > 0 {
                assert(a1[i - 1] == a[i]);
                assert(b1[i - 1] == b[i]);
            }
        }
        assert(a =~= b);
    }
}

/// The reserved key naming the metric itself.
pub open spec fn name_key() -> Seq<char> {
    "__name__"@
}

/// Keeps the pairs whose key is not the metric-name key.
pub open spec fn not_name() -> spec_fn(PairV) -> bool {
    |p: PairV| p.0 != name_key()
}

/// Keeps the pairs whose value is not empty.
pub open spec fn has_value() -> spec_fn(PairV) -> bool {
    |p: PairV| p.1.len() != 0
}

/// The metric name of a label set: the value of its first pair keyed
/// by the metric-name key, or empty if there is none.
pub open spec fn name_of(s: Seq<PairV>) -> Seq<char>
    decreases s.len(),
{
    if s.len() == 0 {
        Seq::empty()
    } else if s[0].0 == name_key() {
        s[0].1
    } else {
        name_of(s.drop_first())
    }
}

/// One pair rendered as `key=value`.
pub open spec fn pair_text(p: PairV) -> Seq<char> {
    p.0 + "="@ + p.1
}

/// Pairs rendered as `key=value`, joined by commas.
pub open spec fn join_pairs(s: Seq<PairV>) -> Seq<char>
    decreases s.len(),
{
    if s.len() == 0 {
        Seq::empty()
    } else if s.len() == 1 {
        pair_text(s[0])
    } else {
        join_pairs(s.drop_last()) + ","@ + pair_text(s.last())
    }
}

/// The pairs that appear in a derived label, in order: all but the
/// metric-name pair, sorted, with empty-valued pairs dropped.
pub open spec fn visible_pairs(pairs: Seq<PairV>) -> Seq<PairV> {
    pairs.filter(not_name()).sort_by(pair_order()).filter(has_value())
}

/// The derived label of a label set: the metric name alone when no
/// pair remains, else the name followed by the joined pairs in
/// parentheses.
pub open spec fn label_text(pairs: Seq<PairV>) -> Seq<char> {
    let kept = visible_pairs(pairs);
    if kept.len() == 0 {
        name_of(pairs)
    } else {
        name_of(pairs) + "("@ + join_pairs(kept) + ")"@
    }
}

/// Returns the metric name of a label set.
pub fn metric_name(pairs: &Vec<LabelPair>) -> (out: String)
    ensures
        out@ == name_of(pairs_view(pairs@)),
{
    let ghost whole: Seq<PairV> = pairs_view(pairs@);
    let mut i: usize = 0;
    proof {
        assert(whole.skip(0) =~= whole);
    }
    while i < pairs.len()
        invariant
            i <= pairs@.len(),
            whole == pairs_view(pairs@),
            name_of(whole) == name_of(whole.skip(i as int)),
        decreases pairs@.len() - i,
    {
        proof {
            assert(whole.skip(i as int)[0] == whole[i as int]);
            assert(whole.skip(i as int).drop_first() =~= whole.skip(i as int + 1));
        }
        if str_eq(pairs[i].key.as_str(), "__name__") {
            return pairs[i].value.clone();
        }
        i += 1;
    }
    assert(whole.skip(i as int).len() == 0);
    String::new()
}

/// Filtering a pushed element keeps it exactly when the predicate
/// holds of it.
pub proof fn lemma_filter_push<A>(s: Seq<A>, x: A, pred: spec_fn(A) -> bool)
    ensures
        s.push(x).filter(pred) == if pred(x) {
            s.filter(pred).push(x)
        } else {
            s.filter(pred)
        },
{
    reveal(Seq::filter);
    let t = s.push(x);
    assert(t.drop_last() =~= s);
    assert(t.last() == x);
    assert(t.len() == s.len() + 1);
}

/// Returns the pairs whose key is not the metric-name key, in order.
fn keep_not_name(pairs: &Vec<LabelPair>) -> (out: Vec<LabelPair>)
    ensures
        pairs_view(out@) == pairs_view(pairs@).filter(not_name()),
{
    let ghost whole: Seq<PairV> = pairs_view(pairs@);
    let mut out: Vec<LabelPair> = Vec::new();
    let mut i: usize = 0;
    proof {
        reveal(Seq::filter);
        assert(pairs_view(out@) =~= Seq::<PairV>::empty());
        assert(whole.take(0) =~= Seq::<PairV>::empty());
    }
    while i < pairs.len()
        invariant
            i <= pairs@.len(),
            whole == pairs_view(pairs@),
            pairs_view(out@) == whole.take(i as int).filter(not_name()),
        decreases pairs@.len() - i,
    {
        proof {
            assert(whole.take(i as int + 1) =~= whole.take(i as int).push(whole[i as int]));
            lemma_filter_push(whole.take(i as int), whole[i as int], not_name());
        }
        if !str_eq(pairs[i].key.as_str(), "__name__") {
            let p = LabelPair { key: pairs[i].key.clone(), value: pairs[i].value.clone() };
            let ghost out_before: Seq<LabelPair> = out@;
            out.push(p);
            proof {
                lemma_pairs_view_push(out_before, p);
                assert(p@ == whole[i as int]);
            }
        }
        i += 1;
    }
    proof {
        assert(whole.take(pairs@.len() as int) =~= whole);
    }
    out
}

/// Returns the pairs whose value is non-empty, in order.
fn keep_valued(pairs: &Vec<LabelPair>) -> (out: Vec<LabelPair>)
    ensures
        pairs_view(out@) == pairs_view(pairs@).filter(has_value()),
{
    let ghost whole: Seq<PairV> = pairs_view(pairs@);
    let mut out: Vec<LabelPair> = Vec::new();
    let mut i: usize = 0;
    proof {
        reveal(Seq::filter);
        assert(pairs_view(out@) =~= Seq::<PairV>::empty());
        assert(whole.take(0) =~= Seq::<PairV>::empty());
    }
    while i < pairs.len()
        invariant
            i <= pairs@.len(),
            whole == pairs_view(pairs@),
            pairs_view(out@) == whole.take(i as int).filter(has_value()),
        decreases pairs@.len() - i,
    {
        proof {
            assert(whole.take(i as int + 1) =~= whole.take(i as int).push(whole[i as int]));
            lemma_filter_push(whole.take(i as int), whole[i as int], has_value());
        }
        if !pairs[i].value.as_str().is_empty() {
            let p = LabelPair { key: pairs[i].key.clone(), value: pairs[i].value.clone() };
            let ghost out_before: Seq<LabelPair> = out@;
            out.push(p);
            proof {
                lemma_pairs_view_push(out_before, p);
                assert(p@ == whole[i as int]);
            }
        }
        i += 1;
    }
    proof {
        assert(whole.take(pairs@.len() as int) =~= whole);
    }
    out
}

/// Joins pairs as `key=value`, separated by commas.
fn join_labels(pairs: &Vec<LabelPair>) -> (out: String)
    ensures
        out@ == join_pairs(pairs_view(pairs@)),
{
    let ghost whole: Seq<PairV> = pairs_view(pairs@);
    let mut out = String::new();
    let mut i: usize = 0;
    while i < pairs.len()
        invariant
            i <= pairs@.len(),
            whole == pairs_view(pairs@),
            out@ == join_pairs(whole.take(i as int)),
        decreases pairs@.len() - i,
    {
        if i > 0 {
            out.append(",");
        }
        out.append(pairs[i].key.as_str());
        out.append("=");
        out.append(pairs[i].value.as_str());
        proof {
            let t = whole.take(i as int + 1);
            assert(t.drop_last() =~= whole.take(i as int));
            assert(t.last() == whole[i as int]);
            if i == 0 {
                assert(out@ =~= pair_text(whole[0]));
            } else {
                assert(out@ =~= join_pairs(whole.take(i as int)) + ","@ + pair_text(
                    whole[i as int],
                ));
            }
        }
        i += 1;
    }
    proof {
        assert(whole.take(pairs@.len() as int) =~= whole);
    }
    out
}

/// Derives the label of a series from its label set: the metric name,
/// followed, when any other non-empty-valued label remains, by those
/// labels sorted and joined as `key=value` pairs in parentheses.
pub fn derive_label(pairs: &Vec<LabelPair>) -> (out: String)
    ensures
        out@ == label_text(pairs_view(pairs@)),
{
    let mut out = metric_name(pairs);
    let filtered = keep_not_name(pairs);
    let sorted = sort_pairs(filtered);
    let kept = keep_valued(&sorted);
    proof {
        let fv = pairs_view(pairs@).filter(not_name());
        lemma_pair_order_total();
        fv.lemma_sort_by_ensures(pair_order());
        lemma_sorted_unique(pairs_view(sorted@), fv.sort_by(pair_order()));
        assert(pairs_view(kept@) == visible_pairs(pairs_view(pairs@)));
    }
    if kept.len() > 0 {
        out.append("(");
        let joined = join_labels(&kept);
        out.append(joined.as_str());
        out.append(")");
        proof {
            assert(out@ =~= label_text(pairs_view(pairs@)));
        }
    } else {
        assert(pairs_view(kept@) =~= Seq::<PairV>::empty());
    }
    out
}

/// No key occurs twice in the label set.
pub open spec fn distinct_keys(s: Seq<PairV>) -> bool {
    forall|i: int, j: int| 0 <= i < j < s.len() ==> s[i].0 != s[j].0
}

/// A label set without the metric-name key has the empty metric name.
proof fn lemma_name_of_absent(s: Seq<PairV>)
    requires
        forall|i: int| 0 <= i < s.len() ==> s[i].0 != name_key(),
    ensures
        name_of(s) == Seq::<char>::empty(),
    decreases s.len(),
{
    if s.len() > 0 {
        assert forall|i: int| 0 <= i < s.drop_first().len() implies s.drop_first()[i].0
            != name_key() by {
            assert(s.drop_first()[i] == s[i + 1]);
        }
        lemma_name_of_absent(s.drop_first());
    }
}

/// In a label set without repeated keys, the metric name is the value
/// of its one metric-name pair.
proof fn lemma_name_of_present(s: Seq<PairV>, p: PairV)
    requires
        s.contains(p),
        p.0 == name_key(),
        distinct_keys(s),
    ensures
        name_of(s) == p.1,
    decreases s.len(),
{
    let i = choose|i: int| 0 <= i < s.len() && s[i] == p;
    if s[0].0 == name_key() {
        if i != 0 {
            assert(s[0].0 != s[i].0);
            assert(false);
        }
        assert(s[0] == p);
    } else {
        assert(i > 0);
        assert(s.drop_first()[i - 1] == p);
        assert(s.drop_first().contains(p));
        assert forall|x: int, y: int|
            0 <= x < y < s.drop_first().len() implies s.drop_first()[x].0
            != s.drop_first()[y].0 by {
            assert(s.drop_first()[x] == s[x + 1]);
            assert(s.drop_first()[y] == s[y + 1]);
        }
        lemma_name_of_present(s.drop_first(), p);
    }
}

/// Label sets with the same pairs and no repeated key have the same
/// metric name.
proof fn lemma_name_of_multiset(a: Seq<PairV>, b: Seq<PairV>)
    requires
        a.to_multiset() == b.to_multiset(),
        distinct_keys(a),
        distinct_keys(b),
    ensures
        name_of(a) == name_of(b),
{
    broadcast use vstd::seq_lib::group_to_multiset_ensures;

    if exists|i: int| 0 <= i < a.len() && a[i].0 == name_key() {
        let i = choose|i: int| 0 <= i < a.len() && a[i].0 == name_key();
        let p = a[i];
        assert(a.contains(p));
        assert(a.to_multiset().count(p) > 0);
        assert(b.to_multiset().count(p) > 0);
        assert(b.contains(p));
        lemma_name_of_present(a, p);
        lemma_name_of_present(b, p);
    } else {
        assert forall|j: int| 0 <= j < b.len() implies b[j].0 != name_key() by {
            if b[j].0 == name_key() {
                assert(b.contains(b[j]));
                assert(b.to_multiset().count(b[j]) > 0);
                assert(a.to_multiset().count(b[j]) > 0);
                assert(a.contains(b[j]));
                let k = choose|k: int| 0 <= k < a.len() && a[k] == b[j];
                assert(a[k].0 == name_key());
            }
        }
        assert forall|j: int| 0 <= j < a.len() implies a[j].0 != name_key() by {}
        lemma_name_of_absent(a);
        lemma_name_of_absent(b);
    }
}

/// Filtering a sequence filters its multiset.
proof fn lemma_filter_to_multiset(s: Seq<PairV>, pred: spec_fn(PairV) -> bool)
    ensures
        s.filter(pred).to_multiset() == s.to_multiset().filter(pred),
    decreases s.len(),
{
    broadcast use vstd::seq_lib::group_to_multiset_ensures;
    broadcast use vstd::multiset::group_multiset_axioms;

    reveal(Seq::filter);
    if s.len() == 0 {
        assert forall|v: PairV|
            s.filter(pred).to_multiset().count(v) == s.to_multiset().filter(pred).count(
                v,
            ) by {
            assert(!s.contains(v));
        }
        assert(s.filter(pred).to_multiset() =~= s.to_multiset().filter(pred));
    } else {
        let dl = s.drop_last();
        let x = s.last();
        lemma_filter_to_multiset(dl, pred);
        assert(s =~= dl.push(x));
        to_multiset_build(dl, x);
        if pred(x) {
            to_multiset_build(dl.filter(pred), x);
        }
        assert forall|v: PairV|
            s.filter(pred).to_multiset().count(v) == s.to_multiset().filter(pred).count(
                v,
            ) by {}
        assert(s.filter(pred).to_multiset() =~= s.to_multiset().filter(pred));
    }
}

/// Law: the derived label is independent of the order in which the
/// label pairs arrive. Two label sets with the same pairs (as a
/// multiset) and no repeated key yield the same label text.
pub proof fn lemma_label_order_independent(a: Seq<PairV>, b: Seq<PairV>)
    requires
        a.to_multiset() == b.to_multiset(),
        distinct_keys(a),
        distinct_keys(b),
    ensures
        label_text(a) == label_text(b),
{
    lemma_name_of_multiset(a, b);
    lemma_filter_to_multiset(a, not_name());
    lemma_filter_to_multiset(b, not_name());
    lemma_pair_order_total();
    let fa = a.filter(not_name());
    let fb = b.filter(not_name());
    fa.lemma_sort_by_ensures(pair_order());
    fb.lemma_sort_by_ensures(pair_order());
    assert(fa.to_multiset() == fb.to_multiset());
    lemma_sorted_unique(fa.sort_by(pair_order()), fb.sort_by(pair_order()));
    assert(visible_pairs(a) == visible_pairs(b));
}

/// Every element of a filtered sequence is an element of the original
/// and satisfies the predicate.
pub proof fn lemma_filter_elem<A>(s: Seq<A>, pred: spec_fn(A) -> bool, i: int)
    requires
        0 <= i < s.filter(pred).len(),
    ensures
        s.contains(s.filter(pred)[i]),
        pred(s.filter(pred)[i]),
    decreases s.len(),
{
    reveal(Seq::filter);
    if s.len() > 0 {
        let dl = s.drop_last();
        let f = s.filter(pred);
        if pred(s.last()) && i == f.len() - 1 {
            assert(f[i] == s.last());
            assert(s.contains(s[s.len() - 1]));
        } else {
            lemma_filter_elem(dl, pred, i);
            let x = dl.filter(pred)[i];
            let j = choose|j: int| 0 <= j < dl.len() && dl[j] == x;
            assert(s[j] == x);
            assert(s.contains(x));
        }
    }
}

} // verus!
