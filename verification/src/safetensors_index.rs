//! The sharded-checkpoint index (`model.safetensors.index.json`): which
//! shard file holds each tensor, and the declared total byte size.
//!
//! The tensor map is kept as a vector of (tensor name, shard file) pairs in
//! strictly ascending name order, the iteration order of an ordered map;
//! a name therefore occurs at most once.

use vstd::prelude::*;

use crate::text::{
    chars_eq, chars_lt, chars_of, lemma_text_lt_asymmetric, lemma_text_lt_irreflexive,
    lemma_text_lt_total, lemma_text_lt_transitive, text_lt,
};

verus! {

/// Texts in strictly ascending order.
pub open spec fn ascending(ks: Seq<Seq<char>>) -> bool {
    forall|i: int, j: int| 0 <= i < j < ks.len() ==> text_lt(#[trigger] ks[i], #[trigger] ks[j])
}

/// The tensor names of a list of (name, shard) pairs.
pub open spec fn names_of(es: Seq<(Seq<char>, Seq<char>)>) -> Seq<Seq<char>> {
    es.map_values(|e: (Seq<char>, Seq<char>)| e.0)
}

/// The shard files of a list of (name, shard) pairs, one per pair.
pub open spec fn shards_of(es: Seq<(Seq<char>, Seq<char>)>) -> Seq<Seq<char>> {
    es.map_values(|e: (Seq<char>, Seq<char>)| e.1)
}

/// The map that results from inserting the pairs one after another into an
/// empty map: a later pair for the same name replaces an earlier one.
pub open spec fn map_of(es: Seq<(Seq<char>, Seq<char>)>) -> Map<Seq<char>, Seq<char>>
    decreases es.len(),
{
    if es.len() == 0 {
        Map::empty()
    } else {
        map_of(es.drop_last()).insert(es.last().0, es.last().1)
    }
}

/// A pair of owned strings as text.
pub open spec fn pair_text(e: (String, String)) -> (Seq<char>, Seq<char>) {
    (e.0@, e.1@)
}

/// A list of owned string pairs as text.
pub open spec fn pairs_text(v: Seq<(String, String)>) -> Seq<(Seq<char>, Seq<char>)> {
    v.map_values(|e: (String, String)| pair_text(e))
}

/// The keys of a keyed list as text.
pub open spec fn keys_text<V>(v: Seq<(String, V)>) -> Seq<Seq<char>> {
    v.map_values(|e: (String, V)| e.0@)
}

/// Why an index cannot be built.
#[derive(Debug, Clone, Copy, PartialEq, Eq, Structural)]
pub enum IndexError {
    /// `metadata.total_size` is missing (read as 0) or not positive.
    NonPositiveTotalSize,
}

/// The parsed index.
#[derive(Debug)]
pub struct SafetensorsIndex {
    weight_map: Vec<(String, String)>,
    total_size: i64,
}

impl View for SafetensorsIndex {
    /// The (tensor name, shard file) pairs in ascending name order.
    type V = Seq<(Seq<char>, Seq<char>)>;

    closed spec fn view(&self) -> Self::V {
        pairs_text(self.weight_map@)
    }
}

/// Where a key stands in an ascending keyed list: every key before
/// position `pos` is smaller; `found` tells whether the key at `pos` is the
/// key itself, and otherwise the key at `pos` (if any) is larger.
pub open spec fn located<V>(v: Seq<(String, V)>, key: Seq<char>, pos: int, found: bool) -> bool {
    &&& 0 <= pos <= v.len()
    &&& forall|j: int| 0 <= j < pos ==> text_lt(#[trigger] v[j].0@, key)
    &&& found ==> pos < v.len() && v[pos].0@ == key
    &&& !found ==> (pos == v.len() || text_lt(key, v[pos].0@))
}

/// Finds where `key` stands in an ascending keyed list.
fn locate<V>(v: &Vec<(String, V)>, key: &[char]) -> (res: (usize, bool))
    requires
        ascending(keys_text(v@)),
    ensures
        located(v@, key@, res.0 as int, res.1),
{
    let n = v.len();
    if n > 0 {
        let last = chars_of(v[n - 1].0.as_str());
        if chars_lt(last.as_slice(), key) {
            assert forall|j: int| 0 <= j < n implies text_lt(#[trigger] v@[j].0@, key@) by {
                if j < n - 1 {
                    assert(keys_text(v@)[j] == v@[j].0@);
                    assert(keys_text(v@)[n - 1] == v@[n - 1].0@);
                    lemma_text_lt_transitive(v@[j].0@, v@[n - 1].0@, key@);
                }
            }
            return (n, false);
        }
    }
    let mut i: usize = 0;
    while i < n
        invariant
            n == v@.len(),
            i <= n,
            forall|j: int| 0 <= j < i ==> text_lt(#[trigger] v@[j].0@, key@),
        decreases n - i,
    {
        let here = chars_of(v[i].0.as_str());
        if !chars_lt(here.as_slice(), key) {
            let same = chars_eq(here.as_slice(), key);
            if !same {
                proof {
                    lemma_text_lt_total(here@, key@);
                }
            }
            return (i, same);
        }
        i = i + 1;
    }
    (n, false)
}

/// An ascending list of pairs maps each of its names to the shard that
/// stands beside it, and maps nothing else.
pub proof fn lemma_map_of_ascending(es: Seq<(Seq<char>, Seq<char>)>)
    requires
        ascending(names_of(es)),
    ensures
        forall|i: int|
            0 <= i < es.len() ==> #[trigger] map_of(es).contains_key(es[i].0) && map_of(es)[es[i].0]
                == es[i].1,
        forall|k: Seq<char>|
            #[trigger] map_of(es).contains_key(k) ==> exists|i: int| 0 <= i < es.len() && es[i].0 == k,
    decreases es.len(),
{
    if es.len() > 0 {
        let init = es.drop_last();
        assert(names_of(init) =~= names_of(es).drop_last());
        lemma_map_of_ascending(init);
        assert forall|i: int| 0 <= i < es.len() implies #[trigger] map_of(es).contains_key(es[i].0)
            && map_of(es)[es[i].0] == es[i].1 by {
            assert(map_of(es) == map_of(init).insert(es.last().0, es.last().1));
            if i < es.len() - 1 {
                assert(names_of(es)[i] == es[i].0);
                assert(names_of(es)[es.len() - 1] == es.last().0);
                assert(text_lt(names_of(es)[i], names_of(es)[es.len() - 1]));
                lemma_text_lt_irreflexive(es[i].0);
                assert(es[i].0 != es.last().0);
                assert(init[i] == es[i]);
                assert(map_of(init).contains_key(init[i].0));
            }
        }
        assert forall|k: Seq<char>| #[trigger] map_of(es).contains_key(k) implies exists|i: int|
            0 <= i < es.len() && es[i].0 == k by {
            if k != es.last().0 {
                assert(map_of(init).contains_key(k));
                let i = choose|i: int| 0 <= i < init.len() && init[i].0 == k;
                assert(es[i].0 == k);
            } else {
                assert(es[es.len() - 1].0 == k);
            }
        }
    }
}

/// Two ascending lists of pairs that agree on every name describe the same
/// map.
proof fn lemma_map_of_ext(es: Seq<(Seq<char>, Seq<char>)>, m: Map<Seq<char>, Seq<char>>)
    requires
        ascending(names_of(es)),
        forall|i: int| 0 <= i < es.len() ==> #[trigger] m.contains_key(es[i].0) && m[es[i].0] == es[i].1,
        forall|k: Seq<char>| #[trigger] m.contains_key(k) ==> exists|i: int| 0 <= i < es.len() && es[i].0 == k,
    ensures
        map_of(es) == m,
{
    lemma_map_of_ascending(es);
    assert forall|k: Seq<char>| #[trigger] map_of(es).contains_key(k) <==> m.contains_key(k) by {
        if map_of(es).contains_key(k) {
            let i = choose|i: int| 0 <= i < es.len() && es[i].0 == k;
            assert(m.contains_key(es[i].0));
        }
        if m.contains_key(k) {
            let i = choose|i: int| 0 <= i < es.len() && es[i].0 == k;
            assert(map_of(es).contains_key(es[i].0));
        }
    }
    assert forall|k: Seq<char>| #[trigger] map_of(es).contains_key(k) implies map_of(es)[k] == m[k] by {
        let i = choose|i: int| 0 <= i < es.len() && es[i].0 == k;
        assert(map_of(es).contains_key(es[i].0));
    }
    assert(map_of(es) =~= m);
}

/// Inserts a pair into an ascending list, replacing the pair with the same
/// name if there is one.
fn insert_pair(v: &mut Vec<(String, String)>, name: String, shard: String)
    requires
        ascending(names_of(pairs_text(old(v)@))),
    ensures
        ascending(names_of(pairs_text(final(v)@))),
        map_of(pairs_text(final(v)@)) == map_of(pairs_text(old(v)@)).insert(name@, shard@),
{
    let ghost old_es = pairs_text(v@);
    assert(keys_text(v@) =~= names_of(old_es));
    let key = chars_of(name.as_str());
    let (pos, found) = locate(v, key.as_slice());
    let ghost k = name@;
    let ghost s = shard@;
    if found {
        v.set(pos, (name, shard));
    } else {
        v.insert(pos, (name, shard));
    }
    let ghost new_es = pairs_text(v@);
    proof {
        let p = pos as int;
        if found {
            assert(new_es =~= old_es.update(p, (k, s)));
        } else {
            assert(new_es =~= old_es.insert(p, (k, s)));
        }
        assert forall|i: int, j: int| 0 <= i < j < new_es.len() implies text_lt(
            #[trigger] names_of(new_es)[i],
            #[trigger] names_of(new_es)[j],
        ) by {
            assert(names_of(new_es)[i] == new_es[i].0);
            assert(names_of(new_es)[j] == new_es[j].0);
            if found {
                if i != p && j != p {
                    assert(names_of(old_es)[i] == old_es[i].0);
                    assert(names_of(old_es)[j] == old_es[j].0);
                } else if i == p {
                    assert(names_of(old_es)[i] == old_es[i].0);
                    assert(names_of(old_es)[j] == old_es[j].0);
                } else {
                    assert(old_es[i].0 == v@[i].0@);
                }
            } else {
                if j < p {
                    assert(names_of(old_es)[i] == old_es[i].0);
                    assert(names_of(old_es)[j] == old_es[j].0);
                } else if j == p {
                    assert(new_es[i] == old_es[i]);
                    assert(old_es[i].0 == old(v)@[i].0@);
                } else if i == p {
                    assert(new_es[j] == old_es[j - 1]);
                    assert(old_es[p].0 == old(v)@[p].0@);
                    if j - 1 > p {
                        assert(names_of(old_es)[p] == old_es[p].0);
                        assert(names_of(old_es)[j - 1] == old_es[j - 1].0);
                        lemma_text_lt_transitive(k, old_es[p].0, old_es[j - 1].0);
                    }
                } else if i < p {
                    assert(new_es[i] == old_es[i]);
                    assert(new_es[j] == old_es[j - 1]);
                    assert(names_of(old_es)[i] == old_es[i].0);
                    assert(names_of(old_es)[j - 1] == old_es[j - 1].0);
                } else {
                    assert(new_es[i] == old_es[i - 1]);
                    assert(new_es[j] == old_es[j - 1]);
                    assert(names_of(old_es)[i - 1] == old_es[i - 1].0);
                    assert(names_of(old_es)[j - 1] == old_es[j - 1].0);
                }
            }
        }
        lemma_map_of_ascending(old_es);
        let m = map_of(old_es).insert(k, s);
        assert forall|i: int| 0 <= i < new_es.len() implies #[trigger] m.contains_key(new_es[i].0)
            && m[new_es[i].0] == new_es[i].1 by {
            if i == p {
                assert(new_es[p] == (k, s));
            } else {
                let q: int = if found || i < p { i } else { i - 1 };
                assert(new_es[i] == old_es[q]);
                assert(old_es[q].0 == old(v)@[q].0@);
                assert(names_of(old_es)[q] == old_es[q].0);
                if p < old_es.len() {
                    assert(names_of(old_es)[p] == old_es[p].0);
                }
                if found {
                    assert(old_es[p].0 == old(v)@[p].0@);
                    if q < p {
                        assert(text_lt(names_of(old_es)[q], names_of(old_es)[p]));
                    } else {
                        assert(text_lt(names_of(old_es)[p], names_of(old_es)[q]));
                    }
                    lemma_text_lt_irreflexive(k);
                } else if q < p {
                    lemma_text_lt_irreflexive(k);
                } else {
                    assert(old_es[p].0 == old(v)@[p].0@);
                    if q > p {
                        assert(text_lt(names_of(old_es)[p], names_of(old_es)[q]));
                        lemma_text_lt_transitive(k, old_es[p].0, old_es[q].0);
                    }
                    lemma_text_lt_irreflexive(k);
                }
                assert(old_es[q].0 != k);
                assert(map_of(old_es).contains_key(old_es[q].0));
            }
        }
        assert forall|key2: Seq<char>| #[trigger] m.contains_key(key2) implies exists|i: int|
            0 <= i < new_es.len() && new_es[i].0 == key2 by {
            if key2 == k {
                assert(new_es[p].0 == k);
            } else {
                let i = choose|i: int| 0 <= i < old_es.len() && old_es[i].0 == key2;
                if found {
                    assert(new_es[i] == old_es[i]);
                } else if i < p {
                    assert(new_es[i] == old_es[i]);
                } else {
                    assert(new_es[i + 1] == old_es[i]);
                }
            }
        }
        lemma_map_of_ext(new_es, m);
    }
}


/// How many pairs name the shard file `s`.
pub open spec fn shard_tally(es: Seq<(Seq<char>, Seq<char>)>, s: Seq<char>) -> nat
    decreases es.len(),
{
    if es.len() == 0 {
        0
    } else {
        shard_tally(es.drop_last(), s) + if es.last().1 == s {
            1nat
        } else {
            0nat
        }
    }
}

/// A shard that no pair names has a tally of zero.
pub proof fn lemma_shard_tally_absent(es: Seq<(Seq<char>, Seq<char>)>, s: Seq<char>)
    requires
        !shards_of(es).contains(s),
    ensures
        shard_tally(es, s) == 0,
    decreases es.len(),
{
    if es.len() > 0 {
        assert(shards_of(es.drop_last()) =~= shards_of(es).drop_last());
        assert(shards_of(es)[es.len() - 1] == es.last().1);
        assert forall|j: int| 0 <= j < shards_of(es.drop_last()).len() implies shards_of(es.drop_last())[j] != s by {
            assert(shards_of(es)[j] == shards_of(es.drop_last())[j]);
        }
        lemma_shard_tally_absent(es.drop_last(), s);
    }
}

/// A shard is named by no more pairs than there are.
pub proof fn lemma_shard_tally_bounded(es: Seq<(Seq<char>, Seq<char>)>, s: Seq<char>)
    ensures
        shard_tally(es, s) <= es.len(),
    decreases es.len(),
{
    if es.len() > 0 {
        lemma_shard_tally_bounded(es.drop_last(), s);
    }
}

/// Inserting a key where it belongs keeps a list ascending.
pub proof fn lemma_insert_ascending(ks: Seq<Seq<char>>, p: int, k: Seq<char>)
    requires
        ascending(ks),
        0 <= p <= ks.len(),
        forall|j: int| 0 <= j < p ==> text_lt(#[trigger] ks[j], k),
        p == ks.len() || text_lt(k, ks[p]),
    ensures
        ascending(ks.insert(p, k)),
{
    let n = ks.insert(p, k);
    assert forall|i: int, j: int| 0 <= i < j < n.len() implies text_lt(#[trigger] n[i], #[trigger] n[j]) by {
        if j < p {
            assert(n[i] == ks[i] && n[j] == ks[j]);
        } else if j == p {
            assert(n[i] == ks[i]);
        } else if i == p {
            assert(n[j] == ks[j - 1]);
            if j - 1 > p {
                lemma_text_lt_transitive(k, ks[p], ks[j - 1]);
            }
        } else if i < p {
            assert(n[i] == ks[i] && n[j] == ks[j - 1]);
        } else {
            assert(n[i] == ks[i - 1] && n[j] == ks[j - 1]);
        }
    }
}

/// Ascending texts are pairwise distinct.
pub proof fn lemma_ascending_no_duplicates(ks: Seq<Seq<char>>)
    requires
        ascending(ks),
    ensures
        ks.no_duplicates(),
{
    assert forall|i: int, j: int| 0 <= i < ks.len() && 0 <= j < ks.len() && i != j implies ks[i]
        != ks[j] by {
        if i < j {
            assert(text_lt(ks[i], ks[j]));
        } else {
            assert(text_lt(ks[j], ks[i]));
        }
        lemma_text_lt_irreflexive(ks[i]);
    }
}


/// A keyed list of counts as text and integers.
pub open spec fn rows_text(v: Seq<(String, usize)>) -> Seq<(Seq<char>, int)> {
    v.map_values(|e: (String, usize)| (e.0@, e.1 as int))
}

/// The keys of a list of (text, count) rows.
pub open spec fn row_keys(rows: Seq<(Seq<char>, int)>) -> Seq<Seq<char>> {
    rows.map_values(|e: (Seq<char>, int)| e.0)
}

/// `rows` lists every shard file named by the pairs exactly once, in
/// ascending name order, each with the number of pairs that name it.
pub open spec fn is_shard_table(es: Seq<(Seq<char>, Seq<char>)>, rows: Seq<(Seq<char>, int)>) -> bool {
    &&& ascending(row_keys(rows))
    &&& forall|k: int| 0 <= k < rows.len() ==> #[trigger] rows[k].1 == shard_tally(es, rows[k].0)
    &&& forall|s: Seq<char>| shards_of(es).contains(s) <==> #[trigger] row_keys(rows).contains(s)
}

/// Two ascending lists with the same members are the same list.
pub proof fn lemma_ascending_same_members(a: Seq<Seq<char>>, b: Seq<Seq<char>>)
    requires
        ascending(a),
        ascending(b),
        forall|s: Seq<char>| a.contains(s) <==> b.contains(s),
    ensures
        a == b,
    decreases a.len(),
{
    if a.len() == 0 {
        if b.len() > 0 {
            assert(b.contains(b[0]));
        }
        assert(a =~= b);
    } else {
        assert(a.contains(a[0]));
        assert(b.len() > 0);
        assert(b.contains(b[0]));
        let j = choose|j: int| 0 <= j < b.len() && b[j] == a[0];
        let i = choose|i: int| 0 <= i < a.len() && a[i] == b[0];
        if a[0] != b[0] {
            assert(i > 0 && j > 0);
            assert(text_lt(a[0], a[i]));
            assert(text_lt(b[0], b[j]));
            lemma_text_lt_asymmetric(a[0], b[0]);
        }
        let ta = a.drop_first();
        let tb = b.drop_first();
        assert(ascending(ta)) by {
            assert forall|x: int, y: int| 0 <= x < y < ta.len() implies text_lt(#[trigger] ta[x], #[trigger] ta[y]) by {
                assert(ta[x] == a[x + 1] && ta[y] == a[y + 1]);
            }
        }
        assert(ascending(tb)) by {
            assert forall|x: int, y: int| 0 <= x < y < tb.len() implies text_lt(#[trigger] tb[x], #[trigger] tb[y]) by {
                assert(tb[x] == b[x + 1] && tb[y] == b[y + 1]);
            }
        }
        assert forall|s: Seq<char>| ta.contains(s) <==> tb.contains(s) by {
            if ta.contains(s) {
                let x = choose|x: int| 0 <= x < ta.len() && ta[x] == s;
                assert(a[x + 1] == s);
                assert(text_lt(a[0], a[x + 1]));
                lemma_text_lt_irreflexive(s);
                assert(a.contains(s));
                let y = choose|y: int| 0 <= y < b.len() && b[y] == s;
                assert(y != 0);
                assert(tb[y - 1] == s);
            }
            if tb.contains(s) {
                let x = choose|x: int| 0 <= x < tb.len() && tb[x] == s;
                assert(b[x + 1] == s);
                assert(text_lt(b[0], b[x + 1]));
                lemma_text_lt_irreflexive(s);
                assert(b.contains(s));
                let y = choose|y: int| 0 <= y < a.len() && a[y] == s;
                assert(y != 0);
                assert(ta[y - 1] == s);
            }
        }
        lemma_ascending_same_members(ta, tb);
        assert(a =~= seq![a[0]] + ta);
        assert(b =~= seq![b[0]] + tb);
    }
}

/// The shard table of an index is unique: the conditions of
/// `is_shard_table` pin it down completely.
pub proof fn law_shard_table_unique(
    es: Seq<(Seq<char>, Seq<char>)>,
    r1: Seq<(Seq<char>, int)>,
    r2: Seq<(Seq<char>, int)>,
)
    requires
        is_shard_table(es, r1),
        is_shard_table(es, r2),
    ensures
        r1 == r2,
{
    assert forall|s: Seq<char>| row_keys(r1).contains(s) <==> row_keys(r2).contains(s) by {
        if row_keys(r1).contains(s) {
            assert(shards_of(es).contains(s));
        }
        if row_keys(r2).contains(s) {
            assert(shards_of(es).contains(s));
        }
    }
    lemma_ascending_same_members(row_keys(r1), row_keys(r2));
    assert forall|k: int| 0 <= k < r1.len() implies r1[k] == r2[k] by {
        assert(row_keys(r1)[k] == r1[k].0);
        assert(row_keys(r2)[k] == r2[k].0);
    }
    assert(r1 =~= r2);
}


/// How often `s` occurs in `ks`.
pub open spec fn text_occurrences(ks: Seq<Seq<char>>, s: Seq<char>) -> int
    decreases ks.len(),
{
    if ks.len() == 0 {
        0
    } else {
        text_occurrences(ks.drop_first(), s) + if ks[0] == s {
            1int
        } else {
            0int
        }
    }
}

/// The tallies of the shards in `ks`, added up.
pub open spec fn shard_tally_total(es: Seq<(Seq<char>, Seq<char>)>, ks: Seq<Seq<char>>) -> int
    decreases ks.len(),
{
    if ks.len() == 0 {
        0
    } else {
        shard_tally_total(es, ks.drop_first()) + shard_tally(es, ks[0])
    }
}

proof fn lemma_shard_tally_total_step(es: Seq<(Seq<char>, Seq<char>)>, ks: Seq<Seq<char>>)
    requires
        es.len() > 0,
    ensures
        shard_tally_total(es, ks) == shard_tally_total(es.drop_last(), ks) + text_occurrences(ks, es.last().1),
    decreases ks.len(),
{
    if ks.len() > 0 {
        lemma_shard_tally_total_step(es, ks.drop_first());
    }
}

proof fn lemma_shard_tally_total_none(es: Seq<(Seq<char>, Seq<char>)>, ks: Seq<Seq<char>>)
    requires
        es.len() == 0,
    ensures
        shard_tally_total(es, ks) == 0,
    decreases ks.len(),
{
    if ks.len() > 0 {
        lemma_shard_tally_total_none(es, ks.drop_first());
    }
}

proof fn lemma_text_occurrences_once(ks: Seq<Seq<char>>, s: Seq<char>)
    requires
        ks.no_duplicates(),
        ks.contains(s),
    ensures
        text_occurrences(ks, s) == 1,
    decreases ks.len(),
{
    if ks[0] == s {
        lemma_text_occurrences_absent(ks.drop_first(), s);
    } else {
        let j = choose|j: int| 0 <= j < ks.len() && ks[j] == s;
        assert(ks.drop_first()[j - 1] == s);
        lemma_text_occurrences_once(ks.drop_first(), s);
    }
}

proof fn lemma_text_occurrences_absent(ks: Seq<Seq<char>>, s: Seq<char>)
    requires
        !ks.contains(s),
    ensures
        text_occurrences(ks, s) == 0,
    decreases ks.len(),
{
    if ks.len() > 0 {
        assert(!ks.drop_first().contains(s)) by {
            if ks.drop_first().contains(s) {
                let j = choose|j: int| 0 <= j < ks.len() - 1 && ks.drop_first()[j] == s;
                assert(ks[j + 1] == s);
            }
        }
        lemma_text_occurrences_absent(ks.drop_first(), s);
    }
}

proof fn lemma_shard_tally_total_covers(es: Seq<(Seq<char>, Seq<char>)>, ks: Seq<Seq<char>>)
    requires
        ks.no_duplicates(),
        forall|s: Seq<char>| shards_of(es).contains(s) ==> ks.contains(s),
    ensures
        shard_tally_total(es, ks) == es.len(),
    decreases es.len(),
{
    if es.len() == 0 {
        lemma_shard_tally_total_none(es, ks);
    } else {
        let init = es.drop_last();
        assert forall|s: Seq<char>| shards_of(init).contains(s) implies ks.contains(s) by {
            let j = choose|j: int| 0 <= j < shards_of(init).len() && shards_of(init)[j] == s;
            assert(shards_of(es)[j] == s);
        }
        lemma_shard_tally_total_covers(init, ks);
        lemma_shard_tally_total_step(es, ks);
        assert(shards_of(es)[es.len() - 1] == es.last().1);
        lemma_text_occurrences_once(ks, es.last().1);
    }
}

/// Each tensor lives in exactly one shard file, so the counts of the shard
/// table add up to the number of tensors.
pub proof fn law_shard_table_covers_every_tensor(
    es: Seq<(Seq<char>, Seq<char>)>,
    rows: Seq<(Seq<char>, int)>,
)
    requires
        is_shard_table(es, rows),
    ensures
        shard_tally_total(es, row_keys(rows)) == es.len(),
{
    lemma_ascending_no_duplicates(row_keys(rows));
    assert forall|s: Seq<char>| shards_of(es).contains(s) implies row_keys(rows).contains(s) by {}
    lemma_shard_tally_total_covers(es, row_keys(rows));
}

/// There are never more shard files than tensors, and there are none
/// exactly when there are no tensors.
pub proof fn law_shard_count_bounded(es: Seq<(Seq<char>, Seq<char>)>)
    ensures
        shards_of(es).to_set().len() <= es.len(),
        shards_of(es).to_set().len() == 0 <==> es.len() == 0,
{
    shards_of(es).lemma_cardinality_of_set();
    if es.len() > 0 {
        assert(shards_of(es).to_set().contains(shards_of(es)[0]));
        shards_of(es).lemma_cardinality_of_empty_set_is_0();
    } else {
        assert(shards_of(es).to_set() =~= Set::<Seq<char>>::empty());
    }
}


/// A well-formed index holds each tensor name once: the number of tensors
/// is the number of distinct names it maps.
pub proof fn law_tensor_count_counts_distinct_names(es: Seq<(Seq<char>, Seq<char>)>)
    requires
        ascending(names_of(es)),
    ensures
        map_of(es).dom().len() == es.len(),
{
    lemma_map_of_ascending(es);
    let ns = names_of(es);
    assert forall|k: Seq<char>| map_of(es).dom().contains(k) <==> ns.to_set().contains(k) by {
        if map_of(es).dom().contains(k) {
            let i = choose|i: int| 0 <= i < es.len() && es[i].0 == k;
            assert(ns[i] == k);
        }
        if ns.to_set().contains(k) {
            let i = choose|i: int| 0 <= i < ns.len() && ns[i] == k;
            assert(es[i].0 == k);
            assert(map_of(es).contains_key(es[i].0));
        }
    }
    assert(map_of(es).dom() =~= ns.to_set());
    lemma_ascending_no_duplicates(ns);
    ns.unique_seq_to_set();
}

impl SafetensorsIndex {
    /// The declared `metadata.total_size` in bytes.
    pub closed spec fn declared_size(&self) -> int {
        self.total_size as int
    }

    #[verifier::type_invariant]
    spec fn inv(self) -> bool {
        &&& ascending(names_of(pairs_text(self.weight_map@)))
        &&& self.total_size > 0
    }

    /// Every index is well formed; brings that fact into a caller's proof.
    pub(crate) fn check_wf(&self)
        ensures
            self.wf(),
    {
        proof {
            use_type_invariant(self);
        }
    }

    /// A well-formed index: names strictly ascending, positive total size.
    pub open spec fn wf(&self) -> bool {
        &&& ascending(names_of(self@))
        &&& self.declared_size() > 0
    }

    /// Builds the index from the (tensor name, shard file) pairs of the
    /// `weight_map` object, read in order (a repeated name keeps its last
    /// shard), and the declared total size, which must be positive.
    pub fn from_entries(entries: Vec<(String, String)>, total_size: i64) -> (r: Result<
        SafetensorsIndex,
        IndexError,
    >)
        ensures
            r is Err <==> total_size <= 0,
            r matches Err(e) ==> e == IndexError::NonPositiveTotalSize,
            r matches Ok(idx) ==> {
                &&& idx.wf()
                &&& idx.declared_size() == total_size
                &&& map_of(idx@) == map_of(pairs_text(entries@))
            },
    {
        if total_size <= 0 {
            return Err(IndexError::NonPositiveTotalSize);
        }
        let mut map: Vec<(String, String)> = Vec::new();
        let mut i: usize = 0;
        let ghost all = pairs_text(entries@);
        assert(all.take(0) =~= Seq::<(Seq<char>, Seq<char>)>::empty());
        assert(pairs_text(map@) =~= Seq::<(Seq<char>, Seq<char>)>::empty());
        while i < entries.len()
            invariant
                i <= entries@.len(),
                all == pairs_text(entries@),
                ascending(names_of(pairs_text(map@))),
                map_of(pairs_text(map@)) == map_of(all.take(i as int)),
            decreases entries@.len() - i,
        {
            let name = entries[i].0.clone();
            let shard = entries[i].1.clone();
            insert_pair(&mut map, name, shard);
            assert(all.take(i + 1).drop_last() =~= all.take(i as int));
            assert(all.take(i + 1).last() == pair_text(entries@[i as int]));
            i = i + 1;
        }
        assert(all.take(entries@.len() as int) =~= all);
        Ok(SafetensorsIndex { weight_map: map, total_size })
    }

    /// The declared total size in bytes.
    pub fn total_size(&self) -> (r: i64)
        ensures
            r == self.declared_size(),
    {
        self.total_size
    }

    /// The (tensor name, shard file) pairs, in ascending name order.
    pub fn weight_map(&self) -> (r: &Vec<(String, String)>)
        ensures
            pairs_text(r@) == self@,
    {
        &self.weight_map
    }

    /// The number of tensors.
    pub fn tensor_count(&self) -> (r: usize)
        ensures
            r == self@.len(),
    {
        self.weight_map.len()
    }

    /// The number of tensors held by each shard file, in ascending shard
    /// name order; every shard file named by the index appears once.
    pub fn shard_tensor_counts(&self) -> (r: Vec<(String, usize)>)
        ensures
            is_shard_table(self@, rows_text(r@)),
    {
        proof {
            use_type_invariant(self);
        }
        let mut out: Vec<(String, usize)> = Vec::new();
        let mut i: usize = 0;
        let ghost es = self@;
        let n = self.weight_map.len();
        assert(shards_of(es.take(0)) =~= Seq::<Seq<char>>::empty());
        assert(keys_text(out@) =~= Seq::<Seq<char>>::empty());
        while i < n
            invariant
                n == es.len(),
                es == pairs_text(self.weight_map@),
                i <= n,
                ascending(keys_text(out@)),
                forall|k: int| 0 <= k < out@.len() ==> #[trigger] out@[k].1 == shard_tally(es.take(i as int), out@[k].0@),
                forall|s: Seq<char>| shards_of(es.take(i as int)).contains(s) <==> #[trigger] keys_text(out@).contains(s),
            decreases n - i,
        {
            let shard = &self.weight_map[i].1;
            let key = chars_of(shard.as_str());
            let ghost e = es[i as int];
            assert(e.1 == key@);
            let ghost before = es.take(i as int);
            let ghost after = es.take(i + 1);
            assert(after.drop_last() =~= before);
            assert(after.last() == e);
            assert(shards_of(after) =~= shards_of(before).push(e.1));
            let ghost old_out = out@;
            let (pos, found) = locate(&out, key.as_slice());
            if found {
                let name = out[pos].0.clone();
                let c = out[pos].1;
                proof {
                    lemma_shard_tally_bounded(before, key@);
                }
                out.set(pos, (name, c + 1));
                proof {
                    assert(keys_text(out@) =~= keys_text(old_out));
                    assert forall|k: int| 0 <= k < out@.len() implies #[trigger] out@[k].1 == shard_tally(after, out@[k].0@) by {
                        if k != pos {
                            assert(out@[k] == old_out[k]);
                            assert(keys_text(old_out)[k] == old_out[k].0@);
                            assert(keys_text(old_out)[pos as int] == old_out[pos as int].0@);
                            if k < pos {
                                assert(text_lt(keys_text(old_out)[k], keys_text(old_out)[pos as int]));
                            } else {
                                assert(text_lt(keys_text(old_out)[pos as int], keys_text(old_out)[k]));
                            }
                            lemma_text_lt_irreflexive(key@);
                        }
                    }
                    assert forall|s: Seq<char>| shards_of(after).contains(s) <==> #[trigger] keys_text(out@).contains(s) by {
                        assert(shards_of(after)[i as int] == key@);
                        if s == key@ {
                            assert(keys_text(old_out)[pos as int] == key@);
                            assert(keys_text(out@).contains(s));
                            assert(shards_of(after).contains(s));
                        } else {
                            if shards_of(after).contains(s) {
                                let j = choose|j: int| 0 <= j < shards_of(after).len() && shards_of(after)[j] == s;
                                assert(j != i);
                                assert(shards_of(before)[j] == s);
                                assert(shards_of(before).contains(s));
                                assert(keys_text(old_out).contains(s));
                            }
                            if keys_text(out@).contains(s) {
                                assert(keys_text(old_out).contains(s));
                                assert(shards_of(before).contains(s));
                                let j = choose|j: int| 0 <= j < shards_of(before).len() && shards_of(before)[j] == s;
                                assert(shards_of(after)[j] == s);
                            }
                        }
                    }
                }
            } else {
                let name = shard.clone();
                out.insert(pos, (name, 1));
                proof {
                    assert(keys_text(out@) =~= keys_text(old_out).insert(pos as int, key@));
                    assert forall|j: int| 0 <= j < pos implies text_lt(#[trigger] keys_text(old_out)[j], key@) by {
                        assert(keys_text(old_out)[j] == old_out[j].0@);
                    }
                    if pos < old_out.len() {
                        assert(keys_text(old_out)[pos as int] == old_out[pos as int].0@);
                    }
                    lemma_insert_ascending(keys_text(old_out), pos as int, key@);
                    assert(!shards_of(before).contains(key@)) by {
                        if shards_of(before).contains(key@) {
                            assert(keys_text(old_out).contains(key@));
                            let k = choose|k: int| 0 <= k < keys_text(old_out).len() && keys_text(old_out)[k] == key@;
                            assert(keys_text(old_out)[k] == old_out[k].0@);
                            if k < pos {
                                lemma_text_lt_irreflexive(key@);
                            } else {
                                if k > pos {
                                    assert(text_lt(keys_text(old_out)[pos as int], keys_text(old_out)[k]));
                                    lemma_text_lt_transitive(key@, old_out[pos as int].0@, key@);
                                }
                                lemma_text_lt_irreflexive(key@);
                            }
                        }
                    }
                    assert(shard_tally(before, key@) == 0) by {
                        lemma_shard_tally_absent(before, key@);
                    }
                    assert forall|k: int| 0 <= k < out@.len() implies #[trigger] out@[k].1 == shard_tally(after, out@[k].0@) by {
                        if k < pos {
                            assert(out@[k] == old_out[k]);
                            assert(keys_text(old_out)[k] == old_out[k].0@);
                            lemma_text_lt_irreflexive(key@);
                        } else if k > pos {
                            assert(out@[k] == old_out[k - 1]);
                            assert(keys_text(old_out)[k - 1] == old_out[k - 1].0@);
                            assert(keys_text(old_out)[pos as int] == old_out[pos as int].0@);
                            if k - 1 > pos {
                                assert(text_lt(keys_text(old_out)[pos as int], keys_text(old_out)[k - 1]));
                                lemma_text_lt_transitive(key@, old_out[pos as int].0@, old_out[k - 1].0@);
                            }
                            lemma_text_lt_irreflexive(key@);
                        }
                    }
                    assert forall|s: Seq<char>| shards_of(after).contains(s) <==> #[trigger] keys_text(out@).contains(s) by {
                        if s == key@ {
                            assert(keys_text(out@)[pos as int] == key@);
                            assert(shards_of(after)[i as int] == s);
                        } else {
                            if shards_of(after).contains(s) {
                                let j = choose|j: int| 0 <= j < shards_of(after).len() && shards_of(after)[j] == s;
                                assert(shards_of(before)[j] == s);
                                assert(keys_text(old_out).contains(s));
                                let k = choose|k: int| 0 <= k < keys_text(old_out).len() && keys_text(old_out)[k] == s;
                                if k < pos {
                                    assert(keys_text(out@)[k] == s);
                                } else {
                                    assert(keys_text(out@)[k + 1] == s);
                                }
                            }
                            if keys_text(out@).contains(s) {
                                let k = choose|k: int| 0 <= k < keys_text(out@).len() && keys_text(out@)[k] == s;
                                if k < pos {
                                    assert(keys_text(old_out)[k] == s);
                                } else {
                                    assert(keys_text(old_out)[k - 1] == s);
                                }
                                assert(keys_text(old_out).contains(s));
                                assert(shards_of(before).contains(s));
                                let j = choose|j: int| 0 <= j < shards_of(before).len() && shards_of(before)[j] == s;
                                assert(shards_of(after)[j] == s);
                            }
                        }
                    }
                }
            }
            i = i + 1;
        }
        assert(es.take(n as int) =~= es);
        proof {
            let rows = rows_text(out@);
            assert(row_keys(rows) =~= keys_text(out@));
        }
        out
    }

    /// The number of distinct shard files.
    pub fn shard_count(&self) -> (r: usize)
        ensures
            r == shards_of(self@).to_set().len(),
    {
        let counts = self.shard_tensor_counts();
        proof {
            let ks = row_keys(rows_text(counts@));
            lemma_ascending_no_duplicates(ks);
            ks.unique_seq_to_set();
            assert(ks.to_set() =~= shards_of(self@).to_set());
        }
        counts.len()
    }

    /// An index holds no more pairs than a vector can.
    pub proof fn lemma_len_fits(&self)
        ensures
            self@.len() <= usize::MAX,
    {
        assert(self.weight_map.len() == self.weight_map@.len());
    }
}

} // verus!
