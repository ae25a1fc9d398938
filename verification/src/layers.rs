//! Ordering rulesets by their priority layer.
use vstd::prelude::*;

use crate::rules::{Ruleset, RulesetLayer, RulesetView};

verus! {

/// The views of a sequence of rulesets.
pub open spec fn rulesets_view(v: Seq<Ruleset>) -> Seq<RulesetView> {
    v.map_values(|r: Ruleset| r@)
}

/// The priority of a layer: built-in defaults first, then agent, then user.
pub open spec fn layer_rank(l: RulesetLayer) -> int {
    match l {
        RulesetLayer::BuiltinDefault => 0,
        RulesetLayer::Agent => 1,
        RulesetLayer::User => 2,
    }
}

/// Computes the priority of a layer (see [`layer_rank`]).
pub fn rank_of(l: RulesetLayer) -> (r: u8)
    ensures
        r == layer_rank(l),
{
    match l {
        RulesetLayer::BuiltinDefault => 0,
        RulesetLayer::Agent => 1,
        RulesetLayer::User => 2,
    }
}

/// The rulesets of `s` at layer `l`, in their order in `s`.
pub open spec fn bucket(s: Seq<RulesetView>, l: RulesetLayer) -> Seq<RulesetView>
    decreases s.len(),
{
    if s.len() == 0 {
        Seq::empty()
    } else if s.last().layer == l {
        bucket(s.drop_last(), l).push(s.last())
    } else {
        bucket(s.drop_last(), l)
    }
}

/// `s` stably sorted by layer: the built-in rulesets, then the agent ones,
/// then the user ones, each group in its order in `s`.
pub open spec fn by_layer(s: Seq<RulesetView>) -> Seq<RulesetView> {
    bucket(s, RulesetLayer::BuiltinDefault) + bucket(s, RulesetLayer::Agent) + bucket(
        s,
        RulesetLayer::User,
    )
}

/// Whether the rulesets of `s` come in non-decreasing layer order.
pub open spec fn layer_sorted(s: Seq<RulesetView>) -> bool {
    forall|i: int, j: int|
        0 <= i <= j < s.len() ==> layer_rank(#[trigger] s[i].layer) <= layer_rank(#[trigger] s[j].layer)
}

/// Sorts rulesets by layer, keeping the order of those at the same layer.
pub fn sort_by_layer(v: Vec<Ruleset>) -> (r: Vec<Ruleset>)
    ensures
        rulesets_view(r@) == by_layer(rulesets_view(v@)),
{
    let ghost orig = rulesets_view(v@);
    let mut rest = v;
    let mut b0: Vec<Ruleset> = Vec::new();
    let mut b1: Vec<Ruleset> = Vec::new();
    let mut b2: Vec<Ruleset> = Vec::new();
    let ghost mut k: int = 0;
    proof {
        assert(orig.skip(0) =~= orig);
        assert(orig.take(0) =~= Seq::<RulesetView>::empty());
    }
    while rest.len() > 0
        invariant
            0 <= k <= orig.len(),
            rulesets_view(rest@) == orig.skip(k),
            rulesets_view(b0@) == bucket(orig.take(k), RulesetLayer::BuiltinDefault),
            rulesets_view(b1@) == bucket(orig.take(k), RulesetLayer::Agent),
            rulesets_view(b2@) == bucket(orig.take(k), RulesetLayer::User),
        decreases rest.len(),
    {
        let ghost old_rest = rest@;
        proof {
            assert(rulesets_view(old_rest).len() == old_rest.len());
            assert(k < orig.len());
            assert(rulesets_view(old_rest)[0] == old_rest[0]@);
        }
        let x = rest.remove(0);
        proof {
            assert(x@ == orig[k]);
            assert(rest@ =~= old_rest.subrange(1, old_rest.len() as int));
            assert forall|i: int| 0 <= i < rest@.len() implies #[trigger] rulesets_view(rest@)[i]
                == orig.skip(k + 1)[i] by {
                assert(rest@[i] == old_rest[i + 1]);
                assert(rulesets_view(old_rest)[i + 1] == orig.skip(k)[i + 1]);
            }
            assert(rulesets_view(rest@) =~= orig.skip(k + 1));
            assert(orig.take(k + 1).drop_last() =~= orig.take(k));
            assert(orig.take(k + 1).last() == orig[k]);
        }
        let ghost o0 = b0@;
        let ghost o1 = b1@;
        let ghost o2 = b2@;
        match x.layer {
            RulesetLayer::BuiltinDefault => {
                b0.push(x);
                proof {
                    assert(rulesets_view(b0@) =~= rulesets_view(o0).push(orig[k]));
                }
            },
            RulesetLayer::Agent => {
                b1.push(x);
                proof {
                    assert(rulesets_view(b1@) =~= rulesets_view(o1).push(orig[k]));
                }
            },
            RulesetLayer::User => {
                b2.push(x);
                proof {
                    assert(rulesets_view(b2@) =~= rulesets_view(o2).push(orig[k]));
                }
            },
        }
        proof {
            k = k + 1;
        }
    }
    proof {
        assert(orig.skip(k).len() == 0);
        assert(orig.take(k) =~= orig);
    }
    let ghost c0 = b0@;
    let ghost c1 = b1@;
    let ghost c2 = b2@;
    b0.append(&mut b1);
    b0.append(&mut b2);
    proof {
        assert(rulesets_view(b0@) =~= rulesets_view(c0) + rulesets_view(c1) + rulesets_view(c2));
    }
    b0
}

} // verus!
