//! The deterministic byte encoding of blocks, signed to make the token
//! tamper-evident. Integers are little-endian; characters are code points
//! on four bytes; every list is preceded by its length.

use vstd::prelude::*;
use crate::datalog::{
    Constraint, ConstraintKind, ConstraintKindV, ConstraintV, DateConstraint, Fact, IntConstraint,
    IntConstraintV, Predicate, PredicateV, Rule, RuleV, StrConstraint, StrConstraintV, ID, IDV,
};
use vstd::string::StrSliceExecFns;

verus! {

/// The concatenation of `f` applied to every element of `s`, in order.
pub open spec fn concat_map<A>(s: Seq<A>, f: spec_fn(A) -> Seq<u8>) -> Seq<u8>
    decreases s.len(),
{
    if s.len() == 0 {
        Seq::empty()
    } else {
        f(s[0]) + concat_map(s.skip(1), f)
    }
}

/// Appending one element appends its encoding.
pub proof fn lemma_concat_map_push<A>(s: Seq<A>, f: spec_fn(A) -> Seq<u8>, x: A)
    ensures
        concat_map(s.push(x), f) == concat_map(s, f) + f(x),
    decreases s.len(),
{
    if s.len() == 0 {
        let e = s.push(x);
        assert(e.skip(1) =~= Seq::<A>::empty());
        assert(e[0] == x);
        assert(concat_map(e, f) == f(x) + concat_map(e.skip(1), f));
        assert(concat_map(Seq::<A>::empty(), f) == Seq::<u8>::empty());
        assert(concat_map(s, f) == Seq::<u8>::empty());
        assert(concat_map(e, f) =~= concat_map(s, f) + f(x));
    } else {
        assert(s.push(x)[0] == s[0]);
        assert(s.push(x).skip(1) =~= s.skip(1).push(x));
        lemma_concat_map_push(s.skip(1), f, x);
        assert(concat_map(s.push(x), f) =~= concat_map(s, f) + f(x));
    }
}

/// A 64-bit value on eight little-endian bytes.
pub open spec fn u64_bytes(x: u64) -> Seq<u8> {
    seq![
        (x % 256) as u8,
        ((x / 256) % 256) as u8,
        ((x / 65536) % 256) as u8,
        ((x / 16777216) % 256) as u8,
        ((x / 4294967296) % 256) as u8,
        ((x / 1099511627776) % 256) as u8,
        ((x / 281474976710656) % 256) as u8,
        ((x / 72057594037927936) % 256) as u8,
    ]
}

/// A 32-bit value on four little-endian bytes.
pub open spec fn u32_bytes(x: u32) -> Seq<u8> {
    seq![(x % 256) as u8, ((x / 256) % 256) as u8, ((x / 65536) % 256) as u8, ((x / 16777216)
        % 256) as u8]
}

/// A signed 64-bit value reinterpreted on the unsigned range.
pub open spec fn i64_to_u64(i: i64) -> u64 {
    if i >= 0 {
        i as u64
    } else {
        (i + 0x10000000000000000) as u64
    }
}

/// One character as its code point on four bytes.
pub open spec fn char_bytes(c: char) -> Seq<u8> {
    u32_bytes(c as u32)
}

/// A string: its length, then its characters.
pub open spec fn str_bytes(s: Seq<char>) -> Seq<u8> {
    u64_bytes(s.len() as u64) + concat_map(s, |c: char| char_bytes(c))
}

/// A string list: its length, then its strings.
pub open spec fn strs_bytes(v: Seq<Seq<char>>) -> Seq<u8> {
    u64_bytes(v.len() as u64) + concat_map(v, |s: Seq<char>| str_bytes(s))
}

/// An integer list: its length, then its values.
pub open spec fn ints_bytes(v: Seq<i64>) -> Seq<u8> {
    u64_bytes(v.len() as u64) + concat_map(v, |i: i64| u64_bytes(i64_to_u64(i)))
}

/// One identifier: a tag byte, then its payload.
pub open spec fn id_bytes(i: IDV) -> Seq<u8> {
    match i {
        IDV::Symbol(s) => seq![0u8] + u64_bytes(s),
        IDV::Variable(v) => seq![1u8] + u32_bytes(v),
        IDV::Integer(x) => seq![2u8] + u64_bytes(i64_to_u64(x)),
        IDV::Str(s) => seq![3u8] + str_bytes(s),
        IDV::Date(d) => seq![4u8] + u64_bytes(d),
    }
}

/// One predicate: its name, its arity, then its identifiers.
pub open spec fn pred_bytes(p: PredicateV) -> Seq<u8> {
    u64_bytes(p.name) + u64_bytes(p.ids.len() as u64) + concat_map(p.ids, |i: IDV| id_bytes(i))
}

/// A predicate list: its length, then its predicates.
pub open spec fn preds_bytes(s: Seq<PredicateV>) -> Seq<u8> {
    u64_bytes(s.len() as u64) + concat_map(s, |p: PredicateV| pred_bytes(p))
}

/// One integer filter: a tag byte, then its payload.
pub open spec fn int_constraint_bytes(c: IntConstraintV) -> Seq<u8> {
    match c {
        IntConstraintV::Lower(b) => seq![0u8] + u64_bytes(i64_to_u64(b)),
        IntConstraintV::Larger(b) => seq![1u8] + u64_bytes(i64_to_u64(b)),
        IntConstraintV::LowerOrEqual(b) => seq![2u8] + u64_bytes(i64_to_u64(b)),
        IntConstraintV::LargerOrEqual(b) => seq![3u8] + u64_bytes(i64_to_u64(b)),
        IntConstraintV::Equal(b) => seq![4u8] + u64_bytes(i64_to_u64(b)),
        IntConstraintV::In(v) => seq![5u8] + ints_bytes(v),
        IntConstraintV::NotIn(v) => seq![6u8] + ints_bytes(v),
    }
}

/// One string filter: a tag byte, then its payload.
pub open spec fn str_constraint_bytes(c: StrConstraintV) -> Seq<u8> {
    match c {
        StrConstraintV::Prefix(s) => seq![0u8] + str_bytes(s),
        StrConstraintV::Suffix(s) => seq![1u8] + str_bytes(s),
        StrConstraintV::Equal(s) => seq![2u8] + str_bytes(s),
        StrConstraintV::In(v) => seq![3u8] + strs_bytes(v),
        StrConstraintV::NotIn(v) => seq![4u8] + strs_bytes(v),
    }
}

/// One date filter: a tag byte, then the timestamp.
pub open spec fn date_constraint_bytes(c: DateConstraint) -> Seq<u8> {
    match c {
        DateConstraint::Before(t) => seq![0u8] + u64_bytes(t),
        DateConstraint::After(t) => seq![1u8] + u64_bytes(t),
    }
}

/// One filter kind: a tag byte, then the filter.
pub open spec fn kind_bytes(k: ConstraintKindV) -> Seq<u8> {
    match k {
        ConstraintKindV::Int(c) => seq![0u8] + int_constraint_bytes(c),
        ConstraintKindV::Str(c) => seq![1u8] + str_constraint_bytes(c),
        ConstraintKindV::Date(c) => seq![2u8] + date_constraint_bytes(c),
    }
}

/// One constraint: its variable, then its filter.
pub open spec fn constraint_bytes(c: ConstraintV) -> Seq<u8> {
    u32_bytes(c.id) + kind_bytes(c.kind)
}

/// One rule: head, body and constraints, each list with its length.
pub open spec fn rule_bytes(r: RuleV) -> Seq<u8> {
    pred_bytes(r.head) + u64_bytes(r.body.len() as u64) + concat_map(
        r.body,
        |p: PredicateV| pred_bytes(p),
    ) + u64_bytes(r.constraints.len() as u64) + concat_map(
        r.constraints,
        |c: ConstraintV| constraint_bytes(c),
    )
}

/// A rule list: its length, then its rules.
pub open spec fn rules_bytes(s: Seq<RuleV>) -> Seq<u8> {
    u64_bytes(s.len() as u64) + concat_map(s, |r: RuleV| rule_bytes(r))
}

/// Appends a 64-bit value.
pub fn push_u64(out: &mut Vec<u8>, x: u64)
    ensures
        final(out)@ == old(out)@ + u64_bytes(x),
{
    out.push((x % 256) as u8);
    out.push(((x / 256) % 256) as u8);
    out.push(((x / 65536) % 256) as u8);
    out.push(((x / 16777216) % 256) as u8);
    out.push(((x / 4294967296) % 256) as u8);
    out.push(((x / 1099511627776) % 256) as u8);
    out.push(((x / 281474976710656) % 256) as u8);
    out.push(((x / 72057594037927936) % 256) as u8);
    proof {
        assert(out@ =~= old(out)@ + u64_bytes(x));
    }
}

/// Appends a 32-bit value.
pub fn push_u32(out: &mut Vec<u8>, x: u32)
    ensures
        final(out)@ == old(out)@ + u32_bytes(x),
{
    out.push((x % 256) as u8);
    out.push(((x / 256) % 256) as u8);
    out.push(((x / 65536) % 256) as u8);
    out.push(((x / 16777216) % 256) as u8);
    proof {
        assert(out@ =~= old(out)@ + u32_bytes(x));
    }
}

/// Reinterprets a signed value on the unsigned range.
fn i64_reinterpret(i: i64) -> (r: u64)
    ensures
        r == i64_to_u64(i),
{
    if i >= 0 {
        i as u64
    } else {
        let big: i128 = (i as i128) + 0x10000000000000000i128;
        big as u64
    }
}

/// Appends a string.
pub fn push_str(out: &mut Vec<u8>, s: &String)
    ensures
        final(out)@ == old(out)@ + str_bytes(s@),
{
    let l = s.as_str().unicode_len();
    push_u64(out, l as u64);
    let ghost base = out@;
    let mut k: usize = 0;
    while k < l
        invariant
            k <= l,
            l == s@.len(),
            out@ == base + concat_map(s@.take(k as int), |c: char| char_bytes(c)),
        decreases l - k,
    {
        let c = s.as_str().get_char(k);
        push_u32(out, c as u32);
        proof {
            lemma_concat_map_push(s@.take(k as int), |c: char| char_bytes(c), s@[k as int]);
            assert(s@.take(k as int).push(s@[k as int]) =~= s@.take(k as int + 1));
        }
        k += 1;
    }
    proof {
        assert(s@.take(s@.len() as int) =~= s@);
        assert(out@ =~= old(out)@ + str_bytes(s@));
    }
}

/// Appends a string list.
pub fn push_strings(out: &mut Vec<u8>, v: &Vec<String>)
    ensures
        final(out)@ == old(out)@ + strs_bytes(v@.map_values(|s: String| s@)),
{
    let ghost vv = v@.map_values(|s: String| s@);
    push_u64(out, v.len() as u64);
    let ghost base = out@;
    let mut k: usize = 0;
    while k < v.len()
        invariant
            k <= v.len(),
            vv == v@.map_values(|s: String| s@),
            out@ == base + concat_map(vv.take(k as int), |s: Seq<char>| str_bytes(s)),
        decreases v.len() - k,
    {
        push_str(out, &v[k]);
        proof {
            lemma_concat_map_push(vv.take(k as int), |s: Seq<char>| str_bytes(s), vv[k as int]);
            assert(vv.take(k as int).push(vv[k as int]) =~= vv.take(k as int + 1));
        }
        k += 1;
    }
    proof {
        assert(vv.take(vv.len() as int) =~= vv);
        assert(out@ =~= old(out)@ + strs_bytes(vv));
    }
}

/// Appends an integer list.
fn push_ints(out: &mut Vec<u8>, v: &Vec<i64>)
    ensures
        final(out)@ == old(out)@ + ints_bytes(v@),
{
    push_u64(out, v.len() as u64);
    let ghost base = out@;
    let mut k: usize = 0;
    while k < v.len()
        invariant
            k <= v.len(),
            out@ == base + concat_map(v@.take(k as int), |i: i64| u64_bytes(i64_to_u64(i))),
        decreases v.len() - k,
    {
        let u = i64_reinterpret(v[k]);
        push_u64(out, u);
        proof {
            lemma_concat_map_push(
                v@.take(k as int),
                |i: i64| u64_bytes(i64_to_u64(i)),
                v@[k as int],
            );
            assert(v@.take(k as int).push(v@[k as int]) =~= v@.take(k as int + 1));
        }
        k += 1;
    }
    proof {
        assert(v@.take(v@.len() as int) =~= v@);
        assert(out@ =~= old(out)@ + ints_bytes(v@));
    }
}

/// Appends one identifier.
fn push_id(out: &mut Vec<u8>, i: &ID)
    ensures
        final(out)@ == old(out)@ + id_bytes(i@),
{
    match i {
        ID::Symbol(s) => {
            out.push(0u8);
            push_u64(out, *s);
        },
        ID::Variable(v) => {
            out.push(1u8);
            push_u32(out, *v);
        },
        ID::Integer(x) => {
            out.push(2u8);
            let u = i64_reinterpret(*x);
            push_u64(out, u);
        },
        ID::Str(s) => {
            out.push(3u8);
            push_str(out, s);
        },
        ID::Date(d) => {
            out.push(4u8);
            push_u64(out, *d);
        },
    }
    proof {
        assert(out@ =~= old(out)@ + id_bytes(i@));
    }
}

/// Appends one predicate.
pub fn push_pred(out: &mut Vec<u8>, p: &Predicate)
    ensures
        final(out)@ == old(out)@ + pred_bytes(p@),
{
    push_u64(out, p.name);
    push_u64(out, p.ids.len() as u64);
    let ghost base = out@;
    let ghost pv = p@.ids;
    let mut k: usize = 0;
    while k < p.ids.len()
        invariant
            k <= p.ids.len(),
            pv == p@.ids,
            pv.len() == p.ids.len(),
            out@ == base + concat_map(pv.take(k as int), |i: IDV| id_bytes(i)),
        decreases p.ids.len() - k,
    {
        push_id(out, &p.ids[k]);
        proof {
            lemma_concat_map_push(pv.take(k as int), |i: IDV| id_bytes(i), pv[k as int]);
            assert(pv.take(k as int).push(pv[k as int]) =~= pv.take(k as int + 1));
        }
        k += 1;
    }
    proof {
        assert(pv.take(pv.len() as int) =~= pv);
        assert(out@ =~= old(out)@ + pred_bytes(p@));
    }
}

/// Appends a fact list.
pub fn push_facts(out: &mut Vec<u8>, v: &Vec<Fact>)
    ensures
        final(out)@ == old(out)@ + preds_bytes(v@.map_values(|f: Fact| f@)),
{
    let ghost vv = v@.map_values(|f: Fact| f@);
    push_u64(out, v.len() as u64);
    let ghost base = out@;
    let mut k: usize = 0;
    while k < v.len()
        invariant
            k <= v.len(),
            vv == v@.map_values(|f: Fact| f@),
            out@ == base + concat_map(vv.take(k as int), |p: PredicateV| pred_bytes(p)),
        decreases v.len() - k,
    {
        push_pred(out, &v[k].predicate);
        proof {
            lemma_concat_map_push(vv.take(k as int), |p: PredicateV| pred_bytes(p), vv[k as int]);
            assert(vv.take(k as int).push(vv[k as int]) =~= vv.take(k as int + 1));
        }
        k += 1;
    }
    proof {
        assert(vv.take(vv.len() as int) =~= vv);
        assert(out@ =~= old(out)@ + preds_bytes(vv));
    }
}

/// Appends one constraint.
fn push_constraint(out: &mut Vec<u8>, c: &Constraint)
    ensures
        final(out)@ == old(out)@ + constraint_bytes(c@),
{
    push_u32(out, c.id);
    match &c.kind {
        ConstraintKind::Int(ic) => {
            out.push(0u8);
            match ic {
                IntConstraint::Lower(b) => {
                    out.push(0u8);
                    let u = i64_reinterpret(*b);
                    push_u64(out, u);
                },
                IntConstraint::Larger(b) => {
                    out.push(1u8);
                    let u = i64_reinterpret(*b);
                    push_u64(out, u);
                },
                IntConstraint::LowerOrEqual(b) => {
                    out.push(2u8);
                    let u = i64_reinterpret(*b);
                    push_u64(out, u);
                },
                IntConstraint::LargerOrEqual(b) => {
                    out.push(3u8);
                    let u = i64_reinterpret(*b);
                    push_u64(out, u);
                },
                IntConstraint::Equal(b) => {
                    out.push(4u8);
                    let u = i64_reinterpret(*b);
                    push_u64(out, u);
                },
                IntConstraint::In(v) => {
                    out.push(5u8);
                    push_ints(out, v);
                },
                IntConstraint::NotIn(v) => {
                    out.push(6u8);
                    push_ints(out, v);
                },
            }
        },
        ConstraintKind::Str(sc) => {
            out.push(1u8);
            match sc {
                StrConstraint::Prefix(s) => {
                    out.push(0u8);
                    push_str(out, s);
                },
                StrConstraint::Suffix(s) => {
                    out.push(1u8);
                    push_str(out, s);
                },
                StrConstraint::Equal(s) => {
                    out.push(2u8);
                    push_str(out, s);
                },
                StrConstraint::In(v) => {
                    out.push(3u8);
                    push_strings(out, v);
                },
                StrConstraint::NotIn(v) => {
                    out.push(4u8);
                    push_strings(out, v);
                },
            }
        },
        ConstraintKind::Date(dc) => {
            out.push(2u8);
            match dc {
                DateConstraint::Before(t) => {
                    out.push(0u8);
                    push_u64(out, *t);
                },
                DateConstraint::After(t) => {
                    out.push(1u8);
                    push_u64(out, *t);
                },
            }
        },
    }
    proof {
        assert(out@ =~= old(out)@ + constraint_bytes(c@));
    }
}

/// Appends one rule.
pub fn push_rule(out: &mut Vec<u8>, r: &Rule)
    ensures
        final(out)@ == old(out)@ + rule_bytes(r@),
{
    push_pred(out, &r.head);
    push_u64(out, r.body.len() as u64);
    let ghost base = out@;
    let ghost bv = r@.body;
    let mut k: usize = 0;
    while k < r.body.len()
        invariant
            k <= r.body.len(),
            bv == r@.body,
            bv.len() == r.body.len(),
            out@ == base + concat_map(bv.take(k as int), |p: PredicateV| pred_bytes(p)),
        decreases r.body.len() - k,
    {
        push_pred(out, &r.body[k]);
        proof {
            lemma_concat_map_push(bv.take(k as int), |p: PredicateV| pred_bytes(p), bv[k as int]);
            assert(bv.take(k as int).push(bv[k as int]) =~= bv.take(k as int + 1));
        }
        k += 1;
    }
    proof {
        assert(bv.take(bv.len() as int) =~= bv);
    }
    push_u64(out, r.constraints.len() as u64);
    let ghost base2 = out@;
    let ghost cv = r@.constraints;
    let mut k2: usize = 0;
    while k2 < r.constraints.len()
        invariant
            k2 <= r.constraints.len(),
            cv == r@.constraints,
            cv.len() == r.constraints.len(),
            out@ == base2 + concat_map(cv.take(k2 as int), |c: ConstraintV| constraint_bytes(c)),
        decreases r.constraints.len() - k2,
    {
        push_constraint(out, &r.constraints[k2]);
        proof {
            lemma_concat_map_push(
                cv.take(k2 as int),
                |c: ConstraintV| constraint_bytes(c),
                cv[k2 as int],
            );
            assert(cv.take(k2 as int).push(cv[k2 as int]) =~= cv.take(k2 as int + 1));
        }
        k2 += 1;
    }
    proof {
        assert(cv.take(cv.len() as int) =~= cv);
        assert(out@ =~= old(out)@ + rule_bytes(r@));
    }
}

/// Appends a rule list.
pub fn push_rules(out: &mut Vec<u8>, v: &Vec<Rule>)
    ensures
        final(out)@ == old(out)@ + rules_bytes(v@.map_values(|r: Rule| r@)),
{
    let ghost vv = v@.map_values(|r: Rule| r@);
    push_u64(out, v.len() as u64);
    let ghost base = out@;
    let mut k: usize = 0;
    while k < v.len()
        invariant
            k <= v.len(),
            vv == v@.map_values(|r: Rule| r@),
            out@ == base + concat_map(vv.take(k as int), |r: RuleV| rule_bytes(r)),
        decreases v.len() - k,
    {
        push_rule(out, &v[k]);
        proof {
            lemma_concat_map_push(vv.take(k as int), |r: RuleV| rule_bytes(r), vv[k as int]);
            assert(vv.take(k as int).push(vv[k as int]) =~= vv.take(k as int + 1));
        }
        k += 1;
    }
    proof {
        assert(vv.take(vv.len() as int) =~= vv);
        assert(out@ =~= old(out)@ + rules_bytes(vv));
    }
}

/// Appends a byte vector as it stands.
pub fn push_bytes(out: &mut Vec<u8>, v: &Vec<u8>)
    ensures
        final(out)@ == old(out)@ + v@,
{
    let mut k: usize = 0;
    while k < v.len()
        invariant
            k <= v.len(),
            out@ == old(out)@ + v@.subrange(0, k as int),
        decreases v.len() - k,
    {
        out.push(v[k]);
        proof {
            assert(old(out)@ + v@.subrange(0, k as int + 1) =~= (old(out)@ + v@.subrange(
                0,
                k as int,
            )).push(v@[k as int]));
        }
        k += 1;
    }
    proof {
        assert(v@.subrange(0, v@.len() as int) =~= v@);
    }
}

} // verus!
