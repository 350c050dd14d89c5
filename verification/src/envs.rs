//! The child process's effective environment.
//!
//! The child inherits the launcher's environment, overlaid with the `-e`
//! pairs of the invocation. A list of pairs denotes a mapping in which the
//! last pair for a key wins; overlaying a list on a base mapping replaces
//! exactly the keys the list names and inherits every other key unchanged.

use crate::args::str_eq;
use crate::args::EnvPair;
use vstd::prelude::*;

verus! {

/// The mapping a list of `KEY=VALUE` pairs denotes: each key maps to the
/// value of its last pair (later pairs win).
pub open spec fn env_map(pairs: Seq<(Seq<char>, Seq<char>)>) -> Map<Seq<char>, Seq<char>>
    decreases pairs.len(),
{
    if pairs.len() == 0 {
        Map::empty()
    } else {
        env_map(pairs.drop_last()).insert(pairs.last().0, pairs.last().1)
    }
}

/// The child's environment: the base (inherited) mapping, overlaid with
/// the pairs in order, an overlay entry winning over an inherited one.
pub open spec fn apply_env(
    base: Map<Seq<char>, Seq<char>>,
    pairs: Seq<(Seq<char>, Seq<char>)>,
) -> Map<Seq<char>, Seq<char>>
    decreases pairs.len(),
{
    if pairs.len() == 0 {
        base
    } else {
        apply_env(base, pairs.drop_last()).insert(pairs.last().0, pairs.last().1)
    }
}

/// A key is in `env_map(pairs)` exactly when some pair has that key.
pub proof fn lemma_env_map_domain(pairs: Seq<(Seq<char>, Seq<char>)>, k: Seq<char>)
    ensures
        env_map(pairs).contains_key(k) <==> exists|i: int| 0 <= i < pairs.len() && pairs[i].0 == k,
    decreases pairs.len(),
{
    if pairs.len() > 0 {
        let rest = pairs.drop_last();
        lemma_env_map_domain(rest, k);
        if env_map(pairs).contains_key(k) {
            if pairs.last().0 == k {
                assert(pairs[pairs.len() - 1].0 == k);
            } else {
                let i = choose|i: int| 0 <= i < rest.len() && rest[i].0 == k;
                assert(pairs[i].0 == k);
            }
        }
        if exists|i: int| 0 <= i < pairs.len() && pairs[i].0 == k {
            let i = choose|i: int| 0 <= i < pairs.len() && pairs[i].0 == k;
            if i < pairs.len() - 1 {
                assert(rest[i].0 == k);
            }
        }
    }
}

/// Later pairs win: if pair `i` is the last one with its key, the denoted
/// mapping sends that key to that pair's value.
pub proof fn lemma_env_last_wins(pairs: Seq<(Seq<char>, Seq<char>)>, i: int)
    requires
        0 <= i < pairs.len(),
        forall|j: int| i < j < pairs.len() ==> pairs[j].0 != pairs[i].0,
    ensures
        env_map(pairs).contains_key(pairs[i].0),
        env_map(pairs)[pairs[i].0] == pairs[i].1,
    decreases pairs.len(),
{
    if i < pairs.len() - 1 {
        let rest = pairs.drop_last();
        assert(pairs.last().0 != pairs[i].0);
        assert forall|j: int| i < j < rest.len() implies rest[j].0 != rest[i].0 by {
            assert(rest[j] == pairs[j]);
        }
        lemma_env_last_wins(rest, i);
    }
}

/// Overlaying pairs on a base touches exactly the keys the pairs name: at
/// a named key the result follows `env_map(pairs)`; elsewhere, the base.
pub proof fn lemma_apply_env(
    base: Map<Seq<char>, Seq<char>>,
    pairs: Seq<(Seq<char>, Seq<char>)>,
    k: Seq<char>,
)
    ensures
        env_map(pairs).contains_key(k) ==> apply_env(base, pairs).contains_key(k) && apply_env(
            base,
            pairs,
        )[k] == env_map(pairs)[k],
        !env_map(pairs).contains_key(k) ==> (apply_env(base, pairs).contains_key(k)
            <==> base.contains_key(k)),
        !env_map(pairs).contains_key(k) && base.contains_key(k) ==> apply_env(base, pairs)[k]
            == base[k],
    decreases pairs.len(),
{
    if pairs.len() > 0 {
        lemma_apply_env(base, pairs.drop_last(), k);
    }
}

/// The override law: whatever the inherited environment held, the child's
/// environment maps each `-e` key to the value of its last `-e` pair.
pub proof fn lemma_child_env_override(
    base: Map<Seq<char>, Seq<char>>,
    pairs: Seq<(Seq<char>, Seq<char>)>,
    i: int,
)
    requires
        0 <= i < pairs.len(),
        forall|j: int| i < j < pairs.len() ==> pairs[j].0 != pairs[i].0,
    ensures
        apply_env(base, pairs).contains_key(pairs[i].0),
        apply_env(base, pairs)[pairs[i].0] == pairs[i].1,
{
    lemma_env_last_wins(pairs, i);
    lemma_apply_env(base, pairs, pairs[i].0);
}

/// Keys no `-e` pair names reach the child exactly as inherited.
pub proof fn lemma_child_env_inherited(
    base: Map<Seq<char>, Seq<char>>,
    pairs: Seq<(Seq<char>, Seq<char>)>,
    k: Seq<char>,
)
    requires
        forall|i: int| 0 <= i < pairs.len() ==> pairs[i].0 != k,
    ensures
        apply_env(base, pairs).contains_key(k) <==> base.contains_key(k),
        base.contains_key(k) ==> apply_env(base, pairs)[k] == base[k],
{
    lemma_env_map_domain(pairs, k);
    lemma_apply_env(base, pairs, k);
}

/// Concatenating pair lists overlays the later list on the earlier one.
pub proof fn lemma_env_map_append(a: Seq<(Seq<char>, Seq<char>)>, b: Seq<(Seq<char>, Seq<char>)>)
    ensures
        env_map(a + b) == apply_env(env_map(a), b),
    decreases b.len(),
{
    if b.len() == 0 {
        assert(a + b =~= a);
    } else {
        lemma_env_map_append(a, b.drop_last());
        assert((a + b).drop_last() =~= a + b.drop_last());
        assert((a + b).last() == b.last());
    }
}

/// Append the invocation's `-e` pairs to a base list; under `env_map`
/// (later wins) the appended pairs take precedence over the base.
pub fn merge_env(base: Vec<EnvPair>, extra: &Vec<EnvPair>) -> (r: Vec<EnvPair>)
    ensures
        r.deep_view() == base.deep_view() + extra.deep_view(),
        env_map(r.deep_view()) == apply_env(env_map(base.deep_view()), extra.deep_view()),
{
    let ghost base_dv = base.deep_view();
    let mut r = base;
    let mut j: usize = 0;
    while j < extra.len()
        invariant
            j <= extra.len(),
            r.deep_view() =~= base_dv + extra.deep_view().subrange(0, j as int),
        decreases extra.len() - j,
    {
        let ghost prevdv = r.deep_view();
        r.push(extra[j].clone());
        proof {
            assert(prevdv.len() == base_dv.len() + j);
            assert(r.deep_view().len() == prevdv.len() + 1);
            assert forall|k: int|
                0 <= k < r.deep_view().len() implies r.deep_view()[k] == (base_dv
                + extra.deep_view().subrange(0, j as int + 1))[k] by {
                if k < prevdv.len() {
                    assert(r.deep_view()[k] == prevdv[k]);
                }
            }
            assert(r.deep_view() =~= base_dv + extra.deep_view().subrange(0, j as int + 1));
        }
        j = j + 1;
    }
    proof {
        assert(extra.deep_view().subrange(0, extra.deep_view().len() as int) =~= extra.deep_view());
        assert(r.deep_view() =~= base_dv + extra.deep_view());
        lemma_env_map_append(base_dv, extra.deep_view());
    }
    r
}

/// The effective value of `key` under a pair list, as `env_map` denotes
/// it: the value of the last pair with that key, or `None` when no pair
/// names the key.
pub fn lookup_env(pairs: &Vec<EnvPair>, key: &str) -> (r: Option<String>)
    ensures
        match r {
            Some(val) => env_map(pairs.deep_view()).contains_key(key@) && env_map(
                pairs.deep_view(),
            )[key@] == val@,
            None => !env_map(pairs.deep_view()).contains_key(key@),
        },
{
    let mut j: usize = pairs.len();
    while j > 0
        invariant
            j <= pairs.len(),
            forall|t: int| j <= t < pairs.len() ==> pairs.deep_view()[t].0 != key@,
        decreases j,
    {
        j = j - 1;
        if str_eq(pairs[j].key.as_str(), key) {
            proof {
                assert(pairs.deep_view()[j as int].0 == key@);
                lemma_env_last_wins(pairs.deep_view(), j as int);
            }
            return Some(pairs[j].value.clone());
        }
        proof {
            assert(pairs.deep_view()[j as int].0 != key@);
        }
    }
    proof {
        lemma_env_map_domain(pairs.deep_view(), key@);
    }
    None
}

} // verus!
