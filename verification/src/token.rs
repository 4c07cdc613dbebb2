//! Blocks, the signature chain, and the token itself: creation, append,
//! chain verification, and authorization.

use vstd::prelude::*;
use crate::builder;
use crate::crypto::{pk_of, sig_checks, sig_of, sign_message, check_signature, clone_bytes, KeyPair};
use crate::datalog::{
    caveat_sat, derive_facts, check_caveat, fact_views, iter_set, Fact, PredicateV, Rule, RuleV,
    SymbolTable,
};
use crate::error::{ChainFault, Error};
use crate::wire::{
    preds_bytes, push_bytes, push_facts, push_rules, push_strings, push_u32, push_u64, rules_bytes,
    strs_bytes, u32_bytes, u64_bytes,
};

verus! {

// ---------------------------------------------------------------------------
// Blocks
// ---------------------------------------------------------------------------

/// One immutable unit of the token: an index, the slice of symbols it
/// introduces at `symbols_start`, and its facts, rules and caveats.
#[derive(Debug)]
pub struct Block {
    pub index: u32,
    pub symbols_start: usize,
    pub symbols: SymbolTable,
    pub facts: Vec<Fact>,
    pub rules: Vec<Rule>,
    pub caveats: Vec<Rule>,
}

/// The mathematical value of a [`Block`].
pub struct BlockV {
    pub index: u32,
    pub symbols_start: int,
    pub symbols: Seq<Seq<char>>,
    pub facts: Seq<PredicateV>,
    pub rules: Seq<RuleV>,
    pub caveats: Seq<RuleV>,
}

impl View for Block {
    type V = BlockV;

    open spec fn view(&self) -> BlockV {
        BlockV {
            index: self.index,
            symbols_start: self.symbols_start as int,
            symbols: self.symbols@,
            facts: self.facts@.map_values(|f: Fact| f@),
            rules: self.rules@.map_values(|r: Rule| r@),
            caveats: self.caveats@.map_values(|r: Rule| r@),
        }
    }
}

/// Copies a vector of rules.
fn clone_rules(v: &Vec<Rule>) -> (r: Vec<Rule>)
    ensures
        r@.len() == v@.len(),
        forall|j: int| 0 <= j < v@.len() ==> (#[trigger] r@[j])@ == v@[j]@,
{
    let mut r: Vec<Rule> = Vec::new();
    let mut k: usize = 0;
    while k < v.len()
        invariant
            k <= v.len(),
            r@.len() == k as int,
            forall|j: int| 0 <= j < k ==> (#[trigger] r@[j])@ == v@[j]@,
        decreases v.len() - k,
    {
        r.push(v[k].clone());
        k += 1;
    }
    r
}

/// Copies a vector of facts.
fn clone_fact_vec(v: &Vec<Fact>) -> (r: Vec<Fact>)
    ensures
        r@.len() == v@.len(),
        forall|j: int| 0 <= j < v@.len() ==> (#[trigger] r@[j])@ == v@[j]@,
{
    let mut r: Vec<Fact> = Vec::new();
    let mut k: usize = 0;
    while k < v.len()
        invariant
            k <= v.len(),
            r@.len() == k as int,
            forall|j: int| 0 <= j < k ==> (#[trigger] r@[j])@ == v@[j]@,
        decreases v.len() - k,
    {
        r.push(v[k].clone());
        k += 1;
    }
    r
}

impl Clone for Block {
    fn clone(&self) -> (r: Self)
        ensures
            r@ == self@,
    {
        let r = Block {
            index: self.index,
            symbols_start: self.symbols_start,
            symbols: self.symbols.clone(),
            facts: clone_fact_vec(&self.facts),
            rules: clone_rules(&self.rules),
            caveats: clone_rules(&self.caveats),
        };
        proof {
            assert(r@.facts =~= self@.facts);
            assert(r@.rules =~= self@.rules);
            assert(r@.caveats =~= self@.caveats);
        }
        r
    }
}

/// The deterministic byte encoding of a block, the unit that is signed.
#[verifier::opaque]
pub open spec fn block_bytes(b: BlockV) -> Seq<u8> {
    u32_bytes(b.index) + u64_bytes(b.symbols_start as u64) + strs_bytes(b.symbols) + preds_bytes(
        b.facts,
    ) + rules_bytes(b.rules) + rules_bytes(b.caveats)
}

/// Serializes a block deterministically.
pub fn block_to_bytes(b: &Block) -> (r: Vec<u8>)
    ensures
        r@ == block_bytes(b@),
{
    let mut out: Vec<u8> = Vec::new();
    push_u32(&mut out, b.index);
    push_u64(&mut out, b.symbols_start as u64);
    push_strings(&mut out, &b.symbols.symbols);
    push_facts(&mut out, &b.facts);
    push_rules(&mut out, &b.rules);
    push_rules(&mut out, &b.caveats);
    proof {
        reveal(block_bytes);
        assert(out@ =~= block_bytes(b@));
    }
    out
}

// ---------------------------------------------------------------------------
// The signature chain
// ---------------------------------------------------------------------------

/// One chain entry: a block, the public key that signed it, and the
/// signature.
#[derive(Debug)]
pub struct SignedBlock {
    pub block: Block,
    pub key: Vec<u8>,
    pub signature: Vec<u8>,
}

/// The mathematical value of a [`SignedBlock`].
pub struct SignedBlockV {
    pub block: BlockV,
    pub key: Seq<u8>,
    pub signature: Seq<u8>,
}

impl View for SignedBlock {
    type V = SignedBlockV;

    open spec fn view(&self) -> SignedBlockV {
        SignedBlockV { block: self.block@, key: self.key@, signature: self.signature@ }
    }
}

impl Clone for SignedBlock {
    fn clone(&self) -> (r: Self)
        ensures
            r@ == self@,
    {
        SignedBlock {
            block: self.block.clone(),
            key: clone_bytes(&self.key),
            signature: clone_bytes(&self.signature),
        }
    }
}

/// Whether the signature link at position `i` checks out: block 0 against
/// the root public key, every later block against the public key its entry
/// attests, over a message that binds the previous block's signature.
pub open spec fn link_ok(t: Seq<SignedBlockV>, root_pk: Seq<u8>, i: int) -> bool {
    if i == 0 {
        sig_checks(root_pk, block_bytes(t[0].block) + root_pk, t[0].signature)
    } else {
        t[i].key.len() == 32 && sig_checks(
            t[i].key,
            block_bytes(t[i].block) + t[i].key + t[i - 1].signature,
            t[i].signature,
        )
    }
}

/// A chain is valid for a root public key when it is nonempty and every
/// link checks out.
pub open spec fn chain_valid(t: Seq<SignedBlockV>, root_pk: Seq<u8>) -> bool {
    t.len() >= 1 && forall|i: int| 0 <= i < t.len() ==> #[trigger] link_ok(t, root_pk, i)
}

/// What a chain error reports: the first link that fails, and whether the
/// cause was a bad signature or a malformed attested key.
pub open spec fn chain_err_report(t: Seq<SignedBlockV>, root_pk: Seq<u8>, e: Error) -> bool {
    e matches Error::Chain { block_index: bi, fault } && (if t.len() == 0 {
        bi == 0 && fault == ChainFault::BadSignature
    } else {
        bi < t.len() && !link_ok(t, root_pk, bi as int) && (forall|j: int|
            0 <= j < bi ==> #[trigger] link_ok(t, root_pk, j)) && (fault
            == ChainFault::MalformedAttestation <==> (bi > 0 && t[bi as int].key.len() != 32))
    })
}

/// A chain extended by one link that checks out under its own attested key
/// verifies for exactly the root keys the shorter chain verifies for.
pub proof fn lemma_append_preserves_chain(t1: Seq<SignedBlockV>, t2: Seq<SignedBlockV>)
    requires
        t1.len() >= 1,
        t2.len() == t1.len() + 1,
        forall|i: int| 0 <= i < t1.len() ==> t2[i] == t1[i],
        t2.last().key.len() == 32,
        sig_checks(
            t2.last().key,
            block_bytes(t2.last().block) + t2.last().key + t1.last().signature,
            t2.last().signature,
        ),
    ensures
        forall|rpk: Seq<u8>| #[trigger] chain_valid(t2, rpk) == chain_valid(t1, rpk),
{
    let n = t1.len() as int;
    assert forall|rpk: Seq<u8>| #[trigger] chain_valid(t2, rpk) == chain_valid(t1, rpk) by {
        assert forall|i: int| 0 <= i < n implies link_ok(t2, rpk, i) == link_ok(t1, rpk, i) by {
            assert(t2[i] == t1[i]);
            if i > 0 {
                assert(t2[i - 1] == t1[i - 1]);
            }
        }
        assert(t2[n - 1] == t1[n - 1]);
        assert(link_ok(t2, rpk, n));
        if chain_valid(t1, rpk) {
            assert forall|i: int| 0 <= i < t2.len() implies #[trigger] link_ok(t2, rpk, i) by {
                if i < n {
                    assert(link_ok(t1, rpk, i));
                }
            }
        }
        if chain_valid(t2, rpk) {
            assert forall|i: int| 0 <= i < t1.len() implies #[trigger] link_ok(t1, rpk, i) by {
                assert(link_ok(t2, rpk, i));
            }
        }
    }
}

/// Chain verification's exact outcome.
pub open spec fn verify_post(t: Seq<SignedBlockV>, root_pk: Seq<u8>, r: Result<(), Error>) -> bool {
    match r {
        Ok(_) => chain_valid(t, root_pk),
        Err(e) => !chain_valid(t, root_pk) && chain_err_report(t, root_pk, e),
    }
}

// ---------------------------------------------------------------------------
// The token
// ---------------------------------------------------------------------------

/// The token: the ordered chain of signed blocks and the cumulative symbol
/// table built from every block's local slice in index order.
#[derive(Debug)]
pub struct Biscuit {
    pub blocks: Vec<SignedBlock>,
    pub symbols: SymbolTable,
}

/// The mathematical value of a [`Biscuit`].
pub struct BiscuitV {
    pub blocks: Seq<SignedBlockV>,
    pub symbols: Seq<Seq<char>>,
}

impl View for Biscuit {
    type V = BiscuitV;

    open spec fn view(&self) -> BiscuitV {
        BiscuitV { blocks: self.blocks@.map_values(|b: SignedBlock| b@), symbols: self.symbols@ }
    }
}

/// The symbols every token starts from; block 0's own slice begins after
/// them.
pub open spec fn default_symbols() -> Seq<Seq<char>> {
    seq![
        "authority"@,
        "ambient"@,
        "resource"@,
        "operation"@,
        "right"@,
        "current_time"@,
        "revocation_id"@,
    ]
}

/// Builds the table of default symbols.
pub fn default_symbol_table() -> (r: SymbolTable)
    ensures
        r@ == default_symbols(),
{
    let mut symbols: Vec<String> = Vec::new();
    symbols.push("authority".to_owned());
    symbols.push("ambient".to_owned());
    symbols.push("resource".to_owned());
    symbols.push("operation".to_owned());
    symbols.push("right".to_owned());
    symbols.push("current_time".to_owned());
    symbols.push("revocation_id".to_owned());
    let r = SymbolTable { symbols };
    proof {
        assert(r@ =~= default_symbols());
    }
    r
}

/// Appends another table's symbols to `dst`.
fn extend_symbols(dst: &mut SymbolTable, src: &SymbolTable)
    ensures
        final(dst)@ == old(dst)@ + src@,
{
    let mut k: usize = 0;
    while k < src.symbols.len()
        invariant
            k <= src.symbols.len(),
            dst@ == old(dst)@ + src@.subrange(0, k as int),
        decreases src.symbols.len() - k,
    {
        let ghost pre = dst@;
        dst.symbols.push(src.symbols[k].clone());
        proof {
            assert(dst@ =~= pre.push(src@[k as int]));
            assert(old(dst)@ + src@.subrange(0, k as int + 1) =~= pre.push(src@[k as int]));
        }
        k += 1;
    }
    proof {
        assert(src@.subrange(0, src@.len() as int) =~= src@);
    }
}

impl Biscuit {
    /// Creates a token from the authority block, signed by the root key
    /// pair. The authority block must carry index 0 and start its symbol
    /// slice right after the default symbols.
    pub fn new(root: &KeyPair, authority: Block) -> (r: Result<Biscuit, Error>)
        requires
            root.wf(),
        ensures
            ({
                let av = authority@;
                match r {
                    Ok(t) => av.index == 0 && av.symbols_start == default_symbols().len()
                        && t@.blocks.len() == 1 && t@.blocks[0].block == av && t@.blocks[0].key
                        == pk_of(root.seed@) && t@.blocks[0].signature == sig_of(
                        root.seed@,
                        block_bytes(av) + pk_of(root.seed@),
                    ) && t@.symbols == default_symbols() + av.symbols && chain_valid(
                        t@.blocks,
                        pk_of(root.seed@),
                    ),
                    Err(e) => e == Error::BlockOffsetMismatch && !(av.index == 0
                        && av.symbols_start == default_symbols().len()),
                }
            }),
    {
        let defaults = default_symbol_table();
        if authority.index != 0 || authority.symbols_start != defaults.symbols.len() {
            return Err(Error::BlockOffsetMismatch);
        }
        let mut symbols = defaults;
        extend_symbols(&mut symbols, &authority.symbols);
        let mut msg = block_to_bytes(&authority);
        push_bytes(&mut msg, &root.public);
        let signature = sign_message(root, &msg);
        let key = root.public_key();
        let entry = SignedBlock { block: authority, key, signature };
        let mut blocks: Vec<SignedBlock> = Vec::new();
        blocks.push(entry);
        let t = Biscuit { blocks, symbols };
        proof {
            let tv = t@.blocks;
            assert(tv.len() == 1);
            assert(link_ok(tv, pk_of(root.seed@), 0));
        }
        Ok(t)
    }

    /// Appends a block signed by an ephemeral key pair, handing back a new
    /// token; the token appended to is untouched. The block's index must equal the
    /// chain length and its symbol offset the cumulative symbol count.
    #[verifier::rlimit(80)]
    pub fn append(&self, keypair: &KeyPair, block: Block) -> (r: Result<Biscuit, Error>)
        requires
            keypair.wf(),
        ensures
            ({
                let bv = block@;
                let ok_cond = self@.blocks.len() >= 1 && bv.index == self@.blocks.len()
                    && bv.symbols_start == self@.symbols.len();
                match r {
                    Ok(t2) => ok_cond && t2@.symbols == self@.symbols + bv.symbols
                        && t2@.blocks == self@.blocks.push(
                        SignedBlockV {
                            block: bv,
                            key: pk_of(keypair.seed@),
                            signature: sig_of(
                                keypair.seed@,
                                block_bytes(bv) + pk_of(keypair.seed@)
                                    + self@.blocks.last().signature,
                            ),
                        },
                    ) && (forall|rpk: Seq<u8>|
                        #[trigger] chain_valid(t2@.blocks, rpk) == chain_valid(self@.blocks, rpk)),
                    Err(e) => e == Error::BlockOffsetMismatch && !ok_cond,
                }
            }),
    {
        if self.blocks.len() == 0 || (block.index as u64) != (self.blocks.len() as u64)
            || (block.symbols_start as u64) != (self.symbols.symbols.len() as u64) {
            return Err(Error::BlockOffsetMismatch);
        }
        let mut symbols = self.symbols.clone();
        extend_symbols(&mut symbols, &block.symbols);
        let mut msg = block_to_bytes(&block);
        push_bytes(&mut msg, &keypair.public);
        push_bytes(&mut msg, &self.blocks[self.blocks.len() - 1].signature);
        let signature = sign_message(keypair, &msg);
        let key = keypair.public_key();
        let mut blocks: Vec<SignedBlock> = Vec::new();
        let mut k: usize = 0;
        while k < self.blocks.len()
            invariant
                k <= self.blocks.len(),
                blocks@.len() == k as int,
                forall|j: int| 0 <= j < k ==> (#[trigger] blocks@[j])@ == self.blocks@[j]@,
            decreases self.blocks.len() - k,
        {
            blocks.push(self.blocks[k].clone());
            k += 1;
        }
        let entry = SignedBlock { block, key, signature };
        blocks.push(entry);
        let t2 = Biscuit { blocks, symbols };
        proof {
            let t1v = self@.blocks;
            let t2v = t2@.blocks;
            let n = t1v.len() as int;
            assert(t2v =~= t1v.push(t2v[n]));
            assert(t2v[n].key == pk_of(keypair.seed@));
            lemma_append_preserves_chain(t1v, t2v);
        }
        Ok(t2)
    }

    /// Walks the chain: block 0 is verified against the given root public
    /// key, every later block against the public key its entry attests,
    /// failing fast at the first broken link.
    pub fn verify(&self, root_pk: &Vec<u8>) -> (r: Result<(), Error>)
        ensures
            verify_post(self@.blocks, root_pk@, r),
    {
        let ghost tv = self@.blocks;
        if self.blocks.len() == 0 {
            return Err(Error::Chain { block_index: 0, fault: ChainFault::BadSignature });
        }
        let mut i: usize = 0;
        while i < self.blocks.len()
            invariant
                tv == self@.blocks,
                tv.len() == self.blocks.len(),
                tv.len() >= 1,
                i <= self.blocks.len(),
                forall|j: int| 0 <= j < i ==> #[trigger] link_ok(tv, root_pk@, j),
            decreases self.blocks.len() - i,
        {
            let mut msg = block_to_bytes(&self.blocks[i].block);
            if i == 0 {
                push_bytes(&mut msg, root_pk);
                if !check_signature(root_pk, &msg, &self.blocks[i].signature) {
                    assert(!link_ok(tv, root_pk@, 0));
                    return Err(
                        Error::Chain { block_index: 0, fault: ChainFault::BadSignature },
                    );
                }
                assert(link_ok(tv, root_pk@, 0));
            } else {
                if self.blocks[i].key.len() != 32 {
                    assert(!link_ok(tv, root_pk@, i as int));
                    return Err(
                        Error::Chain {
                            block_index: i as u64,
                            fault: ChainFault::MalformedAttestation,
                        },
                    );
                }
                push_bytes(&mut msg, &self.blocks[i].key);
                push_bytes(&mut msg, &self.blocks[i - 1].signature);
                if !check_signature(&self.blocks[i].key, &msg, &self.blocks[i].signature) {
                    assert(!link_ok(tv, root_pk@, i as int));
                    return Err(
                        Error::Chain { block_index: i as u64, fault: ChainFault::BadSignature },
                    );
                }
                assert(link_ok(tv, root_pk@, i as int));
            }
            i += 1;
        }
        Ok(())
    }
}

// ---------------------------------------------------------------------------
// Authorization
// ---------------------------------------------------------------------------

/// The set of values a sequence holds.
pub open spec fn seq_set<A>(s: Seq<A>) -> Set<A> {
    Set::new(|x: A| s.contains(x))
}

/// Every block's facts, in chain order.
pub open spec fn blocks_facts_seq(bs: Seq<SignedBlockV>) -> Seq<PredicateV>
    decreases bs.len(),
{
    if bs.len() == 0 {
        Seq::empty()
    } else {
        bs[0].block.facts + blocks_facts_seq(bs.skip(1))
    }
}

/// Every block's rules, in chain order.
pub open spec fn blocks_rules(bs: Seq<SignedBlockV>) -> Seq<RuleV>
    decreases bs.len(),
{
    if bs.len() == 0 {
        Seq::empty()
    } else {
        bs[0].block.rules + blocks_rules(bs.skip(1))
    }
}

/// Appending a block appends its facts.
pub proof fn lemma_blocks_facts_push(bs: Seq<SignedBlockV>, x: SignedBlockV)
    ensures
        blocks_facts_seq(bs.push(x)) == blocks_facts_seq(bs) + x.block.facts,
    decreases bs.len(),
{
    if bs.len() == 0 {
        let e = bs.push(x);
        assert(e.skip(1) =~= Seq::<SignedBlockV>::empty());
        assert(e[0] == x);
        assert(blocks_facts_seq(e) == x.block.facts + blocks_facts_seq(e.skip(1)));
        assert(blocks_facts_seq(Seq::<SignedBlockV>::empty()) == Seq::<PredicateV>::empty());
        assert(blocks_facts_seq(bs) == Seq::<PredicateV>::empty());
        assert(blocks_facts_seq(e) =~= blocks_facts_seq(bs) + x.block.facts);
    } else {
        assert(bs.push(x)[0] == bs[0]);
        assert(bs.push(x).skip(1) =~= bs.skip(1).push(x));
        lemma_blocks_facts_push(bs.skip(1), x);
        assert(blocks_facts_seq(bs.push(x)) =~= blocks_facts_seq(bs) + x.block.facts);
    }
}

/// Appending a block appends its rules.
pub proof fn lemma_blocks_rules_push(bs: Seq<SignedBlockV>, x: SignedBlockV)
    ensures
        blocks_rules(bs.push(x)) == blocks_rules(bs) + x.block.rules,
    decreases bs.len(),
{
    if bs.len() == 0 {
        let e = bs.push(x);
        assert(e.skip(1) =~= Seq::<SignedBlockV>::empty());
        assert(e[0] == x);
        assert(blocks_rules(e) == x.block.rules + blocks_rules(e.skip(1)));
        assert(blocks_rules(Seq::<SignedBlockV>::empty()) == Seq::<RuleV>::empty());
        assert(blocks_rules(bs) == Seq::<RuleV>::empty());
        assert(blocks_rules(e) =~= blocks_rules(bs) + x.block.rules);
    } else {
        assert(bs.push(x)[0] == bs[0]);
        assert(bs.push(x).skip(1) =~= bs.skip(1).push(x));
        lemma_blocks_rules_push(bs.skip(1), x);
        assert(blocks_rules(bs.push(x)) =~= blocks_rules(bs) + x.block.rules);
    }
}

/// A fact list's value set is the set its views form.
pub proof fn lemma_fact_views_seq(v: Seq<Fact>)
    ensures
        fact_views(v) == seq_set(v.map_values(|f: Fact| f@)),
{
    let m = v.map_values(|f: Fact| f@);
    assert forall|p: PredicateV| fact_views(v).contains(p) implies seq_set(m).contains(p) by {
        let j = choose|j: int| 0 <= j < v.len() && (#[trigger] v[j])@ == p;
        assert(m[j] == p);
        assert(m.contains(p));
    }
    assert forall|p: PredicateV| seq_set(m).contains(p) implies fact_views(v).contains(p) by {
        let j = choose|j: int| 0 <= j < m.len() && m[j] == p;
        assert(v[j]@ == p);
    }
    assert(fact_views(v) =~= seq_set(m));
}

/// Whether `s` is the fact set that fixed-point derivation from `base`
/// under `rs` reaches within the iteration budget.
pub open spec fn fixpoint_of(base: Set<PredicateV>, rs: Seq<RuleV>, s: Set<PredicateV>) -> bool {
    exists|k: nat|
        k < crate::MAX_ITERATIONS && #[trigger] iter_set(base, rs, k) == iter_set(
            base,
            rs,
            k + 1,
        ) && s == iter_set(base, rs, k)
}

/// Whether every caveat of every block is satisfied against the fact set
/// `s`.
pub open spec fn all_caveats_sat(bs: Seq<SignedBlockV>, s: Set<PredicateV>) -> bool {
    forall|b: int, c: int|
        #![trigger bs[b].block.caveats[c]]
        0 <= b < bs.len() && 0 <= c < bs[b].block.caveats.len() ==> caveat_sat(
            bs[b].block.caveats[c],
            s,
        )
}

/// Whether the caveat at `(bi, ci)` is the first one, in block order, that
/// has no satisfying binding against `s`.
pub open spec fn caveat_failure(bs: Seq<SignedBlockV>, s: Set<PredicateV>, bi: int, ci: int) -> bool {
    0 <= bi < bs.len() && 0 <= ci < bs[bi].block.caveats.len() && !caveat_sat(
        bs[bi].block.caveats[ci],
        s,
    ) && (forall|b: int, c: int|
        #![trigger bs[b].block.caveats[c]]
        0 <= b < bs.len() && 0 <= c < bs[b].block.caveats.len() && (b < bi || (b == bi && c < ci))
            ==> caveat_sat(bs[b].block.caveats[c], s))
}

/// The merged base fact set of an authorization run: every block's facts
/// together with the ambient facts, converted against the token's
/// cumulative symbol table.
pub open spec fn authorize_base(t: BiscuitV, ambient: Seq<builder::PredicateV>) -> Set<PredicateV> {
    seq_set(blocks_facts_seq(t.blocks) + builder::spec_preds_convert(ambient, t.symbols).0)
}

/// Authorization's exact outcome: a chain error exactly when the chain is
/// invalid (caveats are then never evaluated); otherwise the fixed point of
/// the merged facts is computed, and either every caveat of every block is
/// satisfied, or the first failing caveat is reported, or the fixed point
/// was out of reach within the iteration budget.
pub open spec fn authorize_post(
    t: BiscuitV,
    ambient: Seq<builder::PredicateV>,
    root_pk: Seq<u8>,
    r: Result<(), Error>,
) -> bool {
    let base = authorize_base(t, ambient);
    let rs = blocks_rules(t.blocks);
    match r {
        Ok(_) => chain_valid(t.blocks, root_pk) && (exists|s: Set<PredicateV>|
            #[trigger] fixpoint_of(base, rs, s) && all_caveats_sat(t.blocks, s)),
        Err(e) => match e {
            Error::Chain { .. } => !chain_valid(t.blocks, root_pk) && chain_err_report(
                t.blocks,
                root_pk,
                e,
            ),
            Error::ResourceExhausted => chain_valid(t.blocks, root_pk) && (forall|k: nat|
                k < crate::MAX_ITERATIONS ==> #[trigger] iter_set(base, rs, k) != iter_set(
                    base,
                    rs,
                    k + 1,
                )),
            Error::CaveatFailed { block_index, caveat_index } => chain_valid(t.blocks, root_pk)
                && (exists|s: Set<PredicateV>|
                #[trigger] fixpoint_of(base, rs, s) && caveat_failure(
                    t.blocks,
                    s,
                    block_index as int,
                    caveat_index as int,
                )),
            _ => false,
        },
    }
}

impl Biscuit {
    /// Authorizes a request: verifies the chain, merges every block's facts
    /// and rules with the ambient facts, runs derivation to its fixed
    /// point, and checks every caveat of every block, failing at the first
    /// unsatisfied one.
    pub fn authorize(&self, ambient_facts: &Vec<builder::Fact>, root_pk: &Vec<u8>) -> (r: Result<
        (),
        Error,
    >)
        ensures
            authorize_post(
                self@,
                ambient_facts@.map_values(|f: builder::Fact| f@),
                root_pk@,
                r,
            ),
    {
        let ghost tv = self@;
        let ghost ambv = ambient_facts@.map_values(|f: builder::Fact| f@);
        match self.verify(root_pk) {
            Ok(_) => {},
            Err(e) => {
                return Err(e);
            },
        }
        let mut world: Vec<Fact> = Vec::new();
        let mut bi: usize = 0;
        while bi < self.blocks.len()
            invariant
                tv == self@,
                tv.blocks.len() == self.blocks.len(),
                bi <= self.blocks.len(),
                world@.map_values(|f: Fact| f@) == blocks_facts_seq(tv.blocks.take(bi as int)),
            decreases self.blocks.len() - bi,
        {
            let mut fi: usize = 0;
            let ghost row = blocks_facts_seq(tv.blocks.take(bi as int));
            while fi < self.blocks[bi].block.facts.len()
                invariant
                    tv == self@,
                    tv.blocks.len() == self.blocks.len(),
                    bi < self.blocks.len(),
                    fi <= self.blocks[bi as int].block.facts@.len(),
                    tv.blocks[bi as int].block.facts.len()
                        == self.blocks[bi as int].block.facts@.len(),
                    world@.map_values(|f: Fact| f@) == row + tv.blocks[bi as int].block.facts.take(
                        fi as int,
                    ),
                decreases self.blocks[bi as int].block.facts@.len() - fi,
            {
                let ghost pre = world@.map_values(|f: Fact| f@);
                world.push(self.blocks[bi].block.facts[fi].clone());
                proof {
                    let fv = tv.blocks[bi as int].block.facts[fi as int];
                    assert(world@.map_values(|f: Fact| f@) =~= pre.push(fv));
                    assert(tv.blocks[bi as int].block.facts.take(fi as int).push(fv)
                        =~= tv.blocks[bi as int].block.facts.take(fi as int + 1));
                    assert(row + tv.blocks[bi as int].block.facts.take(fi as int + 1) =~= (row
                        + tv.blocks[bi as int].block.facts.take(fi as int)).push(fv));
                }
                fi += 1;
            }
            proof {
                let entry = tv.blocks[bi as int];
                assert(entry.block.facts.take(entry.block.facts.len() as int)
                    =~= entry.block.facts);
                lemma_blocks_facts_push(tv.blocks.take(bi as int), entry);
                assert(tv.blocks.take(bi as int).push(entry) =~= tv.blocks.take(bi as int + 1));
            }
            bi += 1;
        }
        proof {
            assert(tv.blocks.take(tv.blocks.len() as int) =~= tv.blocks);
        }
        let mut syms = self.symbols.clone();
        let ghost t0 = tv.symbols;
        let mut amb: Vec<Fact> = Vec::new();
        proof {
            assert(ambv.skip(0) =~= ambv);
        }
        let mut k: usize = 0;
        while k < ambient_facts.len()
            invariant
                tv == self@,
                ambv == ambient_facts@.map_values(|f: builder::Fact| f@),
                ambv.len() == ambient_facts.len(),
                k <= ambient_facts.len(),
                amb@.len() == k as int,
                builder::spec_preds_convert(ambv, t0) == ({
                    let (rest, tfin) = builder::spec_preds_convert(ambv.skip(k as int), syms@);
                    (amb@.map_values(|f: Fact| f@) + rest, tfin)
                }),
            decreases ambient_facts.len() - k,
        {
            proof {
                assert(ambv.skip(k as int)[0] == ambv[k as int]);
                assert(ambv.skip(k as int).skip(1) =~= ambv.skip(k as int + 1));
            }
            let ghost amb_pre = amb@.map_values(|f: Fact| f@);
            let ghost tb = syms@;
            let d = ambient_facts[k].convert(&mut syms);
            amb.push(d);
            proof {
                let converted = amb@.last();
                assert(amb@.map_values(|f: Fact| f@) =~= amb_pre.push(converted@));
                let (p0, tm) = builder::spec_pred_convert(ambv[k as int], tb);
                let (rest, t2) = builder::spec_preds_convert(ambv.skip(k as int + 1), syms@);
                assert(amb_pre + (seq![p0] + rest) =~= (amb_pre.push(p0)) + rest);
            }
            k += 1;
        }
        proof {
            assert(ambv.skip(ambient_facts@.len() as int) =~= Seq::<builder::PredicateV>::empty());
            let (rest, t2) = builder::spec_preds_convert(
                ambv.skip(ambient_facts@.len() as int),
                syms@,
            );
            assert(rest =~= Seq::<PredicateV>::empty());
            assert(amb@.map_values(|f: Fact| f@) + rest =~= amb@.map_values(|f: Fact| f@));
            assert(amb@.map_values(|f: Fact| f@) == builder::spec_preds_convert(ambv, t0).0);
        }
        let ghost ambseq = builder::spec_preds_convert(ambv, t0).0;
        let ghost world_facts = blocks_facts_seq(tv.blocks);
        let mut k2: usize = 0;
        while k2 < amb.len()
            invariant
                amb@.map_values(|f: Fact| f@) == ambseq,
                amb@.len() == ambseq.len(),
                k2 <= amb.len(),
                world@.map_values(|f: Fact| f@) == world_facts + ambseq.take(k2 as int),
            decreases amb.len() - k2,
        {
            let ghost pre = world@.map_values(|f: Fact| f@);
            world.push(amb[k2].clone());
            proof {
                assert(world@.map_values(|f: Fact| f@) =~= pre.push(ambseq[k2 as int]));
                assert(ambseq.take(k2 as int).push(ambseq[k2 as int]) =~= ambseq.take(
                    k2 as int + 1,
                ));
                assert(world_facts + ambseq.take(k2 as int + 1) =~= (world_facts + ambseq.take(
                    k2 as int,
                )).push(ambseq[k2 as int]));
            }
            k2 += 1;
        }
        proof {
            assert(ambseq.take(ambseq.len() as int) =~= ambseq);
            lemma_fact_views_seq(world@);
            assert(fact_views(world@) == authorize_base(tv, ambv));
        }
        let mut rules_vec: Vec<Rule> = Vec::new();
        let mut rb: usize = 0;
        while rb < self.blocks.len()
            invariant
                tv == self@,
                tv.blocks.len() == self.blocks.len(),
                rb <= self.blocks.len(),
                rules_vec@.map_values(|r: Rule| r@) == blocks_rules(tv.blocks.take(rb as int)),
            decreases self.blocks.len() - rb,
        {
            let mut ri: usize = 0;
            let ghost row = blocks_rules(tv.blocks.take(rb as int));
            while ri < self.blocks[rb].block.rules.len()
                invariant
                    tv == self@,
                    tv.blocks.len() == self.blocks.len(),
                    rb < self.blocks.len(),
                    ri <= self.blocks[rb as int].block.rules@.len(),
                    tv.blocks[rb as int].block.rules.len()
                        == self.blocks[rb as int].block.rules@.len(),
                    rules_vec@.map_values(|r: Rule| r@) == row
                        + tv.blocks[rb as int].block.rules.take(ri as int),
                decreases self.blocks[rb as int].block.rules@.len() - ri,
            {
                let ghost pre = rules_vec@.map_values(|r: Rule| r@);
                rules_vec.push(self.blocks[rb].block.rules[ri].clone());
                proof {
                    let rv = tv.blocks[rb as int].block.rules[ri as int];
                    assert(rules_vec@.map_values(|r: Rule| r@) =~= pre.push(rv));
                    assert(tv.blocks[rb as int].block.rules.take(ri as int).push(rv)
                        =~= tv.blocks[rb as int].block.rules.take(ri as int + 1));
                    assert(row + tv.blocks[rb as int].block.rules.take(ri as int + 1) =~= (row
                        + tv.blocks[rb as int].block.rules.take(ri as int)).push(rv));
                }
                ri += 1;
            }
            proof {
                let entry = tv.blocks[rb as int];
                assert(entry.block.rules.take(entry.block.rules.len() as int)
                    =~= entry.block.rules);
                lemma_blocks_rules_push(tv.blocks.take(rb as int), entry);
                assert(tv.blocks.take(rb as int).push(entry) =~= tv.blocks.take(rb as int + 1));
            }
            rb += 1;
        }
        proof {
            assert(tv.blocks.take(tv.blocks.len() as int) =~= tv.blocks);
        }
        let derived = match derive_facts(&world, &rules_vec) {
            Ok(d) => d,
            Err(e) => {
                return Err(e);
            },
        };
        let ghost s_fix = fact_views(derived@);
        proof {
            assert(fixpoint_of(authorize_base(tv, ambv), blocks_rules(tv.blocks), s_fix));
        }
        let mut cb: usize = 0;
        while cb < self.blocks.len()
            invariant
                tv == self@,
                tv.blocks.len() == self.blocks.len(),
                cb <= self.blocks.len(),
                s_fix == fact_views(derived@),
                fixpoint_of(authorize_base(tv, ambv), blocks_rules(tv.blocks), s_fix),
                chain_valid(tv.blocks, root_pk@),
                ambv == ambient_facts@.map_values(|f: builder::Fact| f@),
                forall|b: int, c: int|
                    #![trigger tv.blocks[b].block.caveats[c]]
                    0 <= b < cb && 0 <= c < tv.blocks[b].block.caveats.len() ==> caveat_sat(
                        tv.blocks[b].block.caveats[c],
                        s_fix,
                    ),
            decreases self.blocks.len() - cb,
        {
            let mut cc: usize = 0;
            while cc < self.blocks[cb].block.caveats.len()
                invariant
                    tv == self@,
                    tv.blocks.len() == self.blocks.len(),
                    cb < self.blocks.len(),
                    cc <= self.blocks[cb as int].block.caveats@.len(),
                    tv.blocks[cb as int].block.caveats.len()
                        == self.blocks[cb as int].block.caveats@.len(),
                    s_fix == fact_views(derived@),
                    fixpoint_of(authorize_base(tv, ambv), blocks_rules(tv.blocks), s_fix),
                    chain_valid(tv.blocks, root_pk@),
                    ambv == ambient_facts@.map_values(|f: builder::Fact| f@),
                    forall|b: int, c: int|
                        #![trigger tv.blocks[b].block.caveats[c]]
                        0 <= b < cb && 0 <= c < tv.blocks[b].block.caveats.len() ==> caveat_sat(
                            tv.blocks[b].block.caveats[c],
                            s_fix,
                        ),
                    forall|c: int|
                        0 <= c < cc ==> caveat_sat(
                            #[trigger] tv.blocks[cb as int].block.caveats[c],
                            s_fix,
                        ),
                decreases self.blocks[cb as int].block.caveats@.len() - cc,
            {
                if !check_caveat(&derived, &self.blocks[cb].block.caveats[cc]) {
                    proof {
                        assert(caveat_failure(tv.blocks, s_fix, cb as int, cc as int));
                    }
                    return Err(
                        Error::CaveatFailed { block_index: cb as u64, caveat_index: cc as u64 },
                    );
                }
                cc += 1;
            }
            cb += 1;
        }
        proof {
            assert(all_caveats_sat(tv.blocks, s_fix));
        }
        Ok(())
    }
}

} // verus!
