//! The library's general guarantees, stated once over the contracts of the
//! signature chain and the policy evaluator, and proved here.

use vstd::prelude::*;
use crate::builder;
use crate::datalog::{iter_set, step_set, PredicateV, RuleV};
use crate::error::Error;
use crate::token::{
    all_caveats_sat, authorize_base, authorize_post, blocks_facts_seq, blocks_rules,
    caveat_failure, chain_valid, fixpoint_of, link_ok, verify_post, BiscuitV, SignedBlockV,
    lemma_blocks_facts_push, lemma_blocks_rules_push,
};

verus! {

/// Creation then verification succeeds: a token whose chain is valid for a
/// root public key — as `Biscuit::new` and `append` guarantee for their
/// root's own key — always passes `verify` with that key.
pub proof fn lemma_create_then_verify(t: Seq<SignedBlockV>, root_pk: Seq<u8>, r: Result<(), Error>)
    requires
        chain_valid(t, root_pk),
        verify_post(t, root_pk, r),
    ensures
        r == Ok::<(), Error>(()),
{
    match r {
        Ok(u) => {
        },
        Err(e) => {
            assert(false);
        },
    }
}

/// Chain validity is exactly link-by-link: a token verifies iff every
/// block's signature validates against the key attested for it — the given
/// root key for block 0, the entry's own attested key binding the previous
/// signature for every later block — regardless of how many blocks precede.
pub proof fn lemma_verify_is_linkwise(t: Seq<SignedBlockV>, root_pk: Seq<u8>, r: Result<(), Error>)
    requires
        verify_post(t, root_pk, r),
    ensures
        (r is Ok) <==> (t.len() >= 1 && (forall|i: int|
            0 <= i < t.len() ==> #[trigger] link_ok(t, root_pk, i))),
{
}

/// Once a derivation pass changes nothing, every later pass changes
/// nothing.
pub proof fn lemma_iter_stable(base: Set<PredicateV>, rs: Seq<RuleV>, k: nat, j: nat)
    requires
        iter_set(base, rs, k) == iter_set(base, rs, k + 1),
        k <= j,
    ensures
        iter_set(base, rs, j) == iter_set(base, rs, k),
    decreases j - k,
{
    if j > k {
        lemma_iter_stable(base, rs, k, (j - 1) as nat);
        assert(iter_set(base, rs, j) == step_set(iter_set(base, rs, (j - 1) as nat), rs));
        assert(iter_set(base, rs, k + 1) == step_set(iter_set(base, rs, k), rs));
    }
}

/// The fixed point reached within the budget is unique.
pub proof fn lemma_fixpoint_unique(
    base: Set<PredicateV>,
    rs: Seq<RuleV>,
    s1: Set<PredicateV>,
    s2: Set<PredicateV>,
)
    requires
        fixpoint_of(base, rs, s1),
        fixpoint_of(base, rs, s2),
    ensures
        s1 == s2,
{
    let k1 = choose|k: nat|
        k < crate::MAX_ITERATIONS && #[trigger] iter_set(base, rs, k) == iter_set(base, rs, k + 1)
            && s1 == iter_set(base, rs, k);
    let k2 = choose|k: nat|
        k < crate::MAX_ITERATIONS && #[trigger] iter_set(base, rs, k) == iter_set(base, rs, k + 1)
            && s2 == iter_set(base, rs, k);
    if k1 <= k2 {
        lemma_iter_stable(base, rs, k1, k2);
    } else {
        lemma_iter_stable(base, rs, k2, k1);
    }
}

/// Fact derivation is monotone: the fact set only grows from pass to pass,
/// and the base facts stay contained in every pass. Termination is by
/// construction: derivation runs a bounded number of passes and reports
/// `ResourceExhausted` when the fixed point lies beyond them.
pub proof fn lemma_derivation_monotone(base: Set<PredicateV>, rs: Seq<RuleV>, n: nat)
    ensures
        iter_set(base, rs, n).subset_of(iter_set(base, rs, n + 1)),
        base.subset_of(iter_set(base, rs, n)),
    decreases n,
{
    let cur = iter_set(base, rs, n);
    assert(iter_set(base, rs, n + 1) == step_set(cur, rs));
    assert forall|f: PredicateV| cur.contains(f) implies step_set(cur, rs).contains(f) by {}
    if n > 0 {
        lemma_derivation_monotone(base, rs, (n - 1) as nat);
        let prev = iter_set(base, rs, (n - 1) as nat);
        assert(cur == step_set(prev, rs));
        assert forall|f: PredicateV| base.contains(f) implies cur.contains(f) by {
            assert(prev.contains(f));
        }
    }
}

/// Authorization is a pure function of token, ambient facts and root key:
/// any two outcomes that both satisfy the authorization contract on the
/// same inputs are equal, so evaluating twice yields identical results.
pub proof fn lemma_authorize_idempotent(
    t: BiscuitV,
    ambient: Seq<builder::PredicateV>,
    root_pk: Seq<u8>,
    r1: Result<(), Error>,
    r2: Result<(), Error>,
)
    requires
        authorize_post(t, ambient, root_pk, r1),
        authorize_post(t, ambient, root_pk, r2),
    ensures
        r1 == r2,
{
    let base = authorize_base(t, ambient);
    let rs = blocks_rules(t.blocks);
    match (r1, r2) {
        (Ok(u1), Ok(u2)) => {
        },
        (Ok(u1), Err(e2)) => {
            lemma_ok_and_err_disagree(t, ambient, root_pk, e2);
        },
        (Err(e1), Ok(u2)) => {
            lemma_ok_and_err_disagree(t, ambient, root_pk, e1);
        },
        (Err(e1), Err(e2)) => {
            lemma_err_agree(t, ambient, root_pk, e1, e2);
        },
    }
}

/// A success outcome excludes every error outcome: the chain arms
/// contradict a valid chain, the evaluation arms contradict the reached
/// fixed point, and the conclusion names an error the authorization
/// contract never admits, which refutes the error outcome itself.
proof fn lemma_ok_and_err_disagree(
    t: BiscuitV,
    ambient: Seq<builder::PredicateV>,
    root_pk: Seq<u8>,
    e: Error,
)
    requires
        authorize_post(t, ambient, root_pk, Ok(())),
        authorize_post(t, ambient, root_pk, Err(e)),
    ensures
        e == Error::Crypto,
{
    let base = authorize_base(t, ambient);
    let rs = blocks_rules(t.blocks);
    let s_ok = choose|s: Set<PredicateV>|
        #[trigger] fixpoint_of(base, rs, s) && all_caveats_sat(t.blocks, s);
    match e {
        Error::Chain { .. } => {
            assert(chain_valid(t.blocks, root_pk));
            assert(!chain_valid(t.blocks, root_pk));
        },
        Error::ResourceExhausted => {
            let k = choose|k: nat|
                k < crate::MAX_ITERATIONS && #[trigger] iter_set(base, rs, k) == iter_set(
                    base,
                    rs,
                    k + 1,
                ) && s_ok == iter_set(base, rs, k);
            assert(iter_set(base, rs, k) != iter_set(base, rs, k + 1));
        },
        Error::CaveatFailed { block_index, caveat_index } => {
            let s_cf = choose|s: Set<PredicateV>|
                #[trigger] fixpoint_of(base, rs, s) && caveat_failure(
                    t.blocks,
                    s,
                    block_index as int,
                    caveat_index as int,
                );
            lemma_fixpoint_unique(base, rs, s_ok, s_cf);
            assert(all_caveats_sat(t.blocks, s_ok));
            assert(t.blocks[block_index as int].block.caveats[caveat_index as int]
                == t.blocks[block_index as int].block.caveats[caveat_index as int]);
        },
        _ => {
        },
    }
}

/// Two error outcomes that both satisfy the contract are the same error.
proof fn lemma_err_agree(
    t: BiscuitV,
    ambient: Seq<builder::PredicateV>,
    root_pk: Seq<u8>,
    e1: Error,
    e2: Error,
)
    requires
        authorize_post(t, ambient, root_pk, Err(e1)),
        authorize_post(t, ambient, root_pk, Err(e2)),
    ensures
        e1 == e2,
{
    let base = authorize_base(t, ambient);
    let rs = blocks_rules(t.blocks);
    match (e1, e2) {
        (
            Error::Chain { block_index: b1, fault: f1 },
            Error::Chain { block_index: b2, fault: f2 },
        ) => {
            if t.blocks.len() == 0 {
                assert(b1 == 0 && b2 == 0);
            } else {
                if b1 < b2 {
                    assert(link_ok(t.blocks, root_pk, b1 as int));
                    assert(false);
                }
                if b2 < b1 {
                    assert(link_ok(t.blocks, root_pk, b2 as int));
                    assert(false);
                }
            }
        },
        (Error::Chain { .. }, _) => {
            assert(false);
        },
        (_, Error::Chain { .. }) => {
            assert(false);
        },
        (Error::ResourceExhausted, Error::ResourceExhausted) => {
        },
        (Error::ResourceExhausted, Error::CaveatFailed { .. }) => {
            let s = choose|s: Set<PredicateV>| #[trigger] fixpoint_of(base, rs, s);
            let k = choose|k: nat|
                k < crate::MAX_ITERATIONS && #[trigger] iter_set(base, rs, k) == iter_set(
                    base,
                    rs,
                    k + 1,
                ) && s == iter_set(base, rs, k);
            assert(iter_set(base, rs, k) != iter_set(base, rs, k + 1));
        },
        (Error::CaveatFailed { .. }, Error::ResourceExhausted) => {
            let s = choose|s: Set<PredicateV>| #[trigger] fixpoint_of(base, rs, s);
            let k = choose|k: nat|
                k < crate::MAX_ITERATIONS && #[trigger] iter_set(base, rs, k) == iter_set(
                    base,
                    rs,
                    k + 1,
                ) && s == iter_set(base, rs, k);
            assert(iter_set(base, rs, k) != iter_set(base, rs, k + 1));
        },
        (
            Error::CaveatFailed { block_index: b1, caveat_index: c1 },
            Error::CaveatFailed { block_index: b2, caveat_index: c2 },
        ) => {
            let s1 = choose|s: Set<PredicateV>|
                #[trigger] fixpoint_of(base, rs, s) && caveat_failure(
                    t.blocks,
                    s,
                    b1 as int,
                    c1 as int,
                );
            let s2 = choose|s: Set<PredicateV>|
                #[trigger] fixpoint_of(base, rs, s) && caveat_failure(
                    t.blocks,
                    s,
                    b2 as int,
                    c2 as int,
                );
            lemma_fixpoint_unique(base, rs, s1, s2);
            if b1 < b2 || (b1 == b2 && c1 < c2) {
                assert(t.blocks[b1 as int].block.caveats[c1 as int]
                    == t.blocks[b1 as int].block.caveats[c1 as int]);
                assert(false);
            }
            if b2 < b1 || (b1 == b2 && c2 < c1) {
                assert(t.blocks[b2 as int].block.caveats[c2 as int]
                    == t.blocks[b2 as int].block.caveats[c2 as int]);
                assert(false);
            }
        },
        _ => {
        },
    }
}

/// Appending a block that carries only caveats — no facts, no rules, as an
/// attenuation block does — can only restrict: whenever the longer token
/// authorizes a request, the shorter token authorized it too, never the
/// reverse.
pub proof fn lemma_caveats_only_restrict(
    t1: BiscuitV,
    t2: BiscuitV,
    nb: SignedBlockV,
    ambient: Seq<builder::PredicateV>,
    root_pk: Seq<u8>,
    r1: Result<(), Error>,
    r2: Result<(), Error>,
)
    requires
        t1.blocks.len() >= 1,
        t2.blocks == t1.blocks.push(nb),
        t2.symbols == t1.symbols,
        nb.block.facts.len() == 0,
        nb.block.rules.len() == 0,
        authorize_post(t1, ambient, root_pk, r1),
        authorize_post(t2, ambient, root_pk, r2),
        r2 == Ok::<(), Error>(()),
    ensures
        r1 == Ok::<(), Error>(()),
{
    assert(chain_valid(t2.blocks, root_pk));
    assert forall|i: int| 0 <= i < t1.blocks.len() implies #[trigger] link_ok(
        t1.blocks,
        root_pk,
        i,
    ) by {
        assert(link_ok(t2.blocks, root_pk, i));
        assert(t2.blocks[i] == t1.blocks[i]);
        if i > 0 {
            assert(t2.blocks[i - 1] == t1.blocks[i - 1]);
        }
    }
    assert(chain_valid(t1.blocks, root_pk));
    lemma_blocks_facts_push(t1.blocks, nb);
    assert(nb.block.facts =~= Seq::<PredicateV>::empty());
    assert(blocks_facts_seq(t2.blocks) =~= blocks_facts_seq(t1.blocks));
    lemma_blocks_rules_push(t1.blocks, nb);
    assert(nb.block.rules =~= Seq::<RuleV>::empty());
    assert(blocks_rules(t2.blocks) =~= blocks_rules(t1.blocks));
    assert(authorize_base(t2, ambient) == authorize_base(t1, ambient));
    let base = authorize_base(t1, ambient);
    let rs = blocks_rules(t1.blocks);
    let s2 = choose|s: Set<PredicateV>|
        #[trigger] fixpoint_of(base, rs, s) && all_caveats_sat(t2.blocks, s);
    match r1 {
        Ok(u) => {
        },
        Err(e) => match e {
            Error::Chain { .. } => {
                assert(false);
            },
            Error::ResourceExhausted => {
                let k = choose|k: nat|
                    k < crate::MAX_ITERATIONS && #[trigger] iter_set(base, rs, k) == iter_set(
                        base,
                        rs,
                        k + 1,
                    ) && s2 == iter_set(base, rs, k);
                assert(iter_set(base, rs, k) != iter_set(base, rs, k + 1));
                assert(false);
            },
            Error::CaveatFailed { block_index, caveat_index } => {
                let s1 = choose|s: Set<PredicateV>|
                    #[trigger] fixpoint_of(base, rs, s) && caveat_failure(
                        t1.blocks,
                        s,
                        block_index as int,
                        caveat_index as int,
                    );
                lemma_fixpoint_unique(base, rs, s1, s2);
                assert(t2.blocks[block_index as int] == t1.blocks[block_index as int]);
                assert(t2.blocks[block_index as int].block.caveats[caveat_index as int]
                    == t1.blocks[block_index as int].block.caveats[caveat_index as int]);
                assert(false);
            },
            _ => {
                assert(false);
            },
        },
    }
}

} // verus!
