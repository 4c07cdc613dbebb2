//! The Datalog core: identifiers, predicates, facts, rules and constraints,
//! the symbol table, unification, caveat checking, and fixed-point fact
//! derivation.

use vstd::prelude::*;
use vstd::string::StrSliceExecFns;
use crate::error::Error;

verus! {

// ---------------------------------------------------------------------------
// Identifiers
// ---------------------------------------------------------------------------

/// A value standing at a predicate position: an interned symbol code, a rule
/// variable, or a ground integer, string or date (seconds since the epoch).
#[derive(Debug)]
pub enum ID {
    Symbol(u64),
    Variable(u32),
    Integer(i64),
    Str(String),
    Date(u64),
}

/// The mathematical value of an [`ID`]: strings become character sequences.
pub enum IDV {
    Symbol(u64),
    Variable(u32),
    Integer(i64),
    Str(Seq<char>),
    Date(u64),
}

impl View for ID {
    type V = IDV;

    open spec fn view(&self) -> IDV {
        match self {
            ID::Symbol(s) => IDV::Symbol(*s),
            ID::Variable(v) => IDV::Variable(*v),
            ID::Integer(i) => IDV::Integer(*i),
            ID::Str(s) => IDV::Str(s@),
            ID::Date(d) => IDV::Date(*d),
        }
    }
}

impl Clone for ID {
    fn clone(&self) -> (r: Self)
        ensures
            r@ == self@,
    {
        match self {
            ID::Symbol(s) => ID::Symbol(*s),
            ID::Variable(v) => ID::Variable(*v),
            ID::Integer(i) => ID::Integer(*i),
            ID::Str(s) => ID::Str(s.clone()),
            ID::Date(d) => ID::Date(*d),
        }
    }
}

/// An identifier is ground when it is not a variable.
pub open spec fn id_ground(i: IDV) -> bool {
    !(i matches IDV::Variable(_))
}

/// Executable equality of two identifier values.
pub fn id_eq(a: &ID, b: &ID) -> (r: bool)
    ensures
        r == (a@ == b@),
{
    match (a, b) {
        (ID::Symbol(x), ID::Symbol(y)) => x == y,
        (ID::Variable(x), ID::Variable(y)) => x == y,
        (ID::Integer(x), ID::Integer(y)) => x == y,
        (ID::Str(x), ID::Str(y)) => x.eq(y),
        (ID::Date(x), ID::Date(y)) => x == y,
        _ => false,
    }
}

// ---------------------------------------------------------------------------
// Predicates, facts, rules, constraints
// ---------------------------------------------------------------------------

/// A predicate: a name (symbol code) applied to an ordered list of
/// identifiers.
#[derive(Debug)]
pub struct Predicate {
    pub name: u64,
    pub ids: Vec<ID>,
}

/// The mathematical value of a [`Predicate`].
pub struct PredicateV {
    pub name: u64,
    pub ids: Seq<IDV>,
}

impl View for Predicate {
    type V = PredicateV;

    open spec fn view(&self) -> PredicateV {
        PredicateV { name: self.name, ids: self.ids@.map_values(|i: ID| i@) }
    }
}

impl Clone for Predicate {
    fn clone(&self) -> (r: Self)
        ensures
            r@ == self@,
    {
        let mut ids: Vec<ID> = Vec::new();
        let mut k: usize = 0;
        while k < self.ids.len()
            invariant
                k <= self.ids.len(),
                ids@.len() == k as int,
                forall|j: int| 0 <= j < k ==> ids@[j]@ == self.ids@[j]@,
            decreases self.ids.len() - k,
        {
            ids.push(self.ids[k].clone());
            k += 1;
        }
        let r = Predicate { name: self.name, ids };
        proof {
            assert(r@.ids =~= self@.ids);
        }
        r
    }
}

/// A predicate is ground when every identifier in it is ground.
pub open spec fn pred_ground(p: PredicateV) -> bool {
    forall|i: int| 0 <= i < p.ids.len() ==> id_ground(#[trigger] p.ids[i])
}

/// Executable equality of two predicates.
pub fn pred_eq(a: &Predicate, b: &Predicate) -> (r: bool)
    ensures
        r == (a@ == b@),
{
    if a.name != b.name || a.ids.len() != b.ids.len() {
        proof {
            if a@.ids.len() != b@.ids.len() {
                assert(a@ != b@);
            }
        }
        return false;
    }
    let mut k: usize = 0;
    while k < a.ids.len()
        invariant
            k <= a.ids.len(),
            a.name == b.name,
            a.ids.len() == b.ids.len(),
            forall|j: int| 0 <= j < k ==> a@.ids[j] == b@.ids[j],
        decreases a.ids.len() - k,
    {
        if !id_eq(&a.ids[k], &b.ids[k]) {
            assert(a@.ids[k as int] != b@.ids[k as int]);
            return false;
        }
        k += 1;
    }
    proof {
        assert(a@.ids =~= b@.ids);
    }
    true
}

/// A fact: an asserted, ground predicate.
#[derive(Debug)]
pub struct Fact {
    pub predicate: Predicate,
}

impl View for Fact {
    type V = PredicateV;

    open spec fn view(&self) -> PredicateV {
        self.predicate@
    }
}

impl Clone for Fact {
    fn clone(&self) -> (r: Self)
        ensures
            r@ == self@,
    {
        Fact { predicate: self.predicate.clone() }
    }
}

/// An integer filter on one variable.
#[derive(Debug)]
pub enum IntConstraint {
    Lower(i64),
    Larger(i64),
    LowerOrEqual(i64),
    LargerOrEqual(i64),
    Equal(i64),
    In(Vec<i64>),
    NotIn(Vec<i64>),
}

/// A string filter on one variable.
#[derive(Debug)]
pub enum StrConstraint {
    Prefix(String),
    Suffix(String),
    Equal(String),
    In(Vec<String>),
    NotIn(Vec<String>),
}

/// A date filter on one variable; both bounds are inclusive.
#[derive(Clone, Copy, Debug)]
pub enum DateConstraint {
    Before(u64),
    After(u64),
}

/// The kind of filter a constraint applies.
#[derive(Debug)]
pub enum ConstraintKind {
    Int(IntConstraint),
    Str(StrConstraint),
    Date(DateConstraint),
}

/// A typed filter bound to the variable with index `id`.
#[derive(Debug)]
pub struct Constraint {
    pub id: u32,
    pub kind: ConstraintKind,
}

/// The mathematical value of an [`IntConstraint`].
pub enum IntConstraintV {
    Lower(i64),
    Larger(i64),
    LowerOrEqual(i64),
    LargerOrEqual(i64),
    Equal(i64),
    In(Seq<i64>),
    NotIn(Seq<i64>),
}

/// The mathematical value of a [`StrConstraint`].
pub enum StrConstraintV {
    Prefix(Seq<char>),
    Suffix(Seq<char>),
    Equal(Seq<char>),
    In(Seq<Seq<char>>),
    NotIn(Seq<Seq<char>>),
}

/// The mathematical value of a [`ConstraintKind`].
pub enum ConstraintKindV {
    Int(IntConstraintV),
    Str(StrConstraintV),
    Date(DateConstraint),
}

/// The mathematical value of a [`Constraint`].
pub struct ConstraintV {
    pub id: u32,
    pub kind: ConstraintKindV,
}

impl View for IntConstraint {
    type V = IntConstraintV;

    open spec fn view(&self) -> IntConstraintV {
        match self {
            IntConstraint::Lower(b) => IntConstraintV::Lower(*b),
            IntConstraint::Larger(b) => IntConstraintV::Larger(*b),
            IntConstraint::LowerOrEqual(b) => IntConstraintV::LowerOrEqual(*b),
            IntConstraint::LargerOrEqual(b) => IntConstraintV::LargerOrEqual(*b),
            IntConstraint::Equal(b) => IntConstraintV::Equal(*b),
            IntConstraint::In(v) => IntConstraintV::In(v@),
            IntConstraint::NotIn(v) => IntConstraintV::NotIn(v@),
        }
    }
}

impl View for StrConstraint {
    type V = StrConstraintV;

    open spec fn view(&self) -> StrConstraintV {
        match self {
            StrConstraint::Prefix(s) => StrConstraintV::Prefix(s@),
            StrConstraint::Suffix(s) => StrConstraintV::Suffix(s@),
            StrConstraint::Equal(s) => StrConstraintV::Equal(s@),
            StrConstraint::In(v) => StrConstraintV::In(v@.map_values(|s: String| s@)),
            StrConstraint::NotIn(v) => StrConstraintV::NotIn(v@.map_values(|s: String| s@)),
        }
    }
}

impl View for ConstraintKind {
    type V = ConstraintKindV;

    open spec fn view(&self) -> ConstraintKindV {
        match self {
            ConstraintKind::Int(c) => ConstraintKindV::Int(c@),
            ConstraintKind::Str(c) => ConstraintKindV::Str(c@),
            ConstraintKind::Date(c) => ConstraintKindV::Date(*c),
        }
    }
}

impl View for Constraint {
    type V = ConstraintV;

    open spec fn view(&self) -> ConstraintV {
        ConstraintV { id: self.id, kind: self.kind@ }
    }
}

impl Clone for IntConstraint {
    fn clone(&self) -> (r: Self)
        ensures
            r@ == self@,
    {
        match self {
            IntConstraint::Lower(b) => IntConstraint::Lower(*b),
            IntConstraint::Larger(b) => IntConstraint::Larger(*b),
            IntConstraint::LowerOrEqual(b) => IntConstraint::LowerOrEqual(*b),
            IntConstraint::LargerOrEqual(b) => IntConstraint::LargerOrEqual(*b),
            IntConstraint::Equal(b) => IntConstraint::Equal(*b),
            IntConstraint::In(v) => IntConstraint::In(clone_ints(v)),
            IntConstraint::NotIn(v) => IntConstraint::NotIn(clone_ints(v)),
        }
    }
}

impl Clone for StrConstraint {
    fn clone(&self) -> (r: Self)
        ensures
            r@ == self@,
    {
        match self {
            StrConstraint::Prefix(s) => StrConstraint::Prefix(s.clone()),
            StrConstraint::Suffix(s) => StrConstraint::Suffix(s.clone()),
            StrConstraint::Equal(s) => StrConstraint::Equal(s.clone()),
            StrConstraint::In(v) => StrConstraint::In(clone_strings(v)),
            StrConstraint::NotIn(v) => StrConstraint::NotIn(clone_strings(v)),
        }
    }
}

impl Clone for ConstraintKind {
    fn clone(&self) -> (r: Self)
        ensures
            r@ == self@,
    {
        match self {
            ConstraintKind::Int(c) => ConstraintKind::Int(c.clone()),
            ConstraintKind::Str(c) => ConstraintKind::Str(c.clone()),
            ConstraintKind::Date(c) => ConstraintKind::Date(*c),
        }
    }
}

impl Clone for Constraint {
    fn clone(&self) -> (r: Self)
        ensures
            r@ == self@,
    {
        Constraint { id: self.id, kind: self.kind.clone() }
    }
}

/// Copies a vector of integers.
fn clone_ints(v: &Vec<i64>) -> (r: Vec<i64>)
    ensures
        r@ == v@,
{
    let mut r: Vec<i64> = Vec::new();
    let mut k: usize = 0;
    while k < v.len()
        invariant
            k <= v.len(),
            r@ =~= v@.subrange(0, k as int),
        decreases v.len() - k,
    {
        r.push(v[k]);
        k += 1;
    }
    proof {
        assert(r@ =~= v@);
    }
    r
}

/// Copies a vector of strings.
fn clone_strings(v: &Vec<String>) -> (r: Vec<String>)
    ensures
        r@.map_values(|s: String| s@) == v@.map_values(|s: String| s@),
{
    let mut r: Vec<String> = Vec::new();
    let mut k: usize = 0;
    while k < v.len()
        invariant
            k <= v.len(),
            r@.len() == k as int,
            forall|j: int| 0 <= j < k ==> r@[j]@ == v@[j]@,
        decreases v.len() - k,
    {
        r.push(v[k].clone());
        k += 1;
    }
    proof {
        assert(r@.map_values(|s: String| s@) =~= v@.map_values(|s: String| s@));
    }
    r
}

/// A rule: a head predicate derived whenever the whole body unifies against
/// the fact set and every constraint accepts the resulting binding. A rule
/// whose head is never asserted, only tested for satisfiability, serves as a
/// caveat.
#[derive(Debug)]
pub struct Rule {
    pub head: Predicate,
    pub body: Vec<Predicate>,
    pub constraints: Vec<Constraint>,
}

/// The mathematical value of a [`Rule`].
pub struct RuleV {
    pub head: PredicateV,
    pub body: Seq<PredicateV>,
    pub constraints: Seq<ConstraintV>,
}

impl View for Rule {
    type V = RuleV;

    open spec fn view(&self) -> RuleV {
        RuleV {
            head: self.head@,
            body: self.body@.map_values(|p: Predicate| p@),
            constraints: self.constraints@.map_values(|c: Constraint| c@),
        }
    }
}

impl Clone for Rule {
    fn clone(&self) -> (r: Self)
        ensures
            r@ == self@,
    {
        let head = self.head.clone();
        let mut body: Vec<Predicate> = Vec::new();
        let mut k: usize = 0;
        while k < self.body.len()
            invariant
                k <= self.body.len(),
                body@.len() == k as int,
                forall|j: int| 0 <= j < k ==> body@[j]@ == self.body@[j]@,
            decreases self.body.len() - k,
        {
            body.push(self.body[k].clone());
            k += 1;
        }
        let mut constraints: Vec<Constraint> = Vec::new();
        let mut k2: usize = 0;
        while k2 < self.constraints.len()
            invariant
                k2 <= self.constraints.len(),
                constraints@.len() == k2 as int,
                forall|j: int| 0 <= j < k2 ==> constraints@[j]@ == self.constraints@[j]@,
            decreases self.constraints.len() - k2,
        {
            constraints.push(self.constraints[k2].clone());
            k2 += 1;
        }
        let r = Rule { head, body, constraints };
        proof {
            assert(r@.body =~= self@.body);
            assert(r@.constraints =~= self@.constraints);
        }
        r
    }
}

// ---------------------------------------------------------------------------
// Symbol table
// ---------------------------------------------------------------------------

/// The bidirectional mapping between strings and dense integer codes; a code
/// is the string's index in the table.
#[derive(Debug)]
pub struct SymbolTable {
    pub symbols: Vec<String>,
}

impl View for SymbolTable {
    type V = Seq<Seq<char>>;

    open spec fn view(&self) -> Seq<Seq<char>> {
        self.symbols@.map_values(|s: String| s@)
    }
}

impl Clone for SymbolTable {
    fn clone(&self) -> (r: Self)
        ensures
            r@ == self@,
    {
        let r = SymbolTable { symbols: clone_strings(&self.symbols) };
        proof {
            assert(r@ =~= self@);
        }
        r
    }
}

/// The table after interning `s`: unchanged when `s` is already present,
/// else extended by `s`.
pub open spec fn table_insert(t: Seq<Seq<char>>, s: Seq<char>) -> Seq<Seq<char>> {
    if t.contains(s) {
        t
    } else {
        t.push(s)
    }
}

/// The code that interning `s` yields: the first index holding `s`, or the
/// index `s` is appended at.
pub open spec fn table_code(t: Seq<Seq<char>>, s: Seq<char>) -> int {
    if t.contains(s) {
        t.index_of_first(s)->Some_0
    } else {
        t.len() as int
    }
}

impl SymbolTable {
    /// An empty table.
    pub fn new() -> (r: SymbolTable)
        ensures
            r@ == Seq::<Seq<char>>::empty(),
    {
        let r = SymbolTable { symbols: Vec::new() };
        proof {
            assert(r@ =~= Seq::<Seq<char>>::empty());
        }
        r
    }

    /// The number of interned symbols.
    pub fn len(&self) -> (r: usize)
        ensures
            r == self@.len(),
    {
        self.symbols.len()
    }

    /// Interns `s`: returns the code it already has anywhere in the
    /// cumulative table, or appends it and returns the new code.
    pub fn insert(&mut self, s: &String) -> (code: u64)
        ensures
            final(self)@ == table_insert(old(self)@, s@),
            code == table_code(old(self)@, s@),
            final(self)@[code as int] == s@,
            code < final(self)@.len(),
    {
        let ghost t0 = self@;
        let mut k: usize = 0;
        while k < self.symbols.len()
            invariant
                k <= self.symbols.len(),
                self@ == t0,
                forall|j: int| 0 <= j < k ==> self@[j] != s@,
            decreases self.symbols.len() - k,
        {
            if self.symbols[k].eq(s) {
                proof {
                    assert(t0[k as int] == s@);
                    assert(t0.contains(s@));
                    t0.index_of_first_ensures(s@);
                }
                return k as u64;
            }
            k += 1;
        }
        proof {
            assert(forall|j: int| 0 <= j < t0.len() ==> t0[j] != s@);
            assert(!t0.contains(s@));
        }
        let code = self.symbols.len() as u64;
        self.symbols.push(s.clone());
        proof {
            assert(self@ =~= t0.push(s@));
        }
        code
    }

    /// Resolves a code back to its string; fails with `UnknownSymbol` when
    /// the code lies outside the table.
    pub fn resolve(&self, code: u64) -> (r: Result<String, Error>)
        ensures
            match r {
                Ok(s) => code < self@.len() && s@ == self@[code as int],
                Err(e) => e == Error::UnknownSymbol && code >= self@.len(),
            },
    {
        if code < self.symbols.len() as u64 {
            Ok(self.symbols[code as usize].clone())
        } else {
            Err(Error::UnknownSymbol)
        }
    }
}

// ---------------------------------------------------------------------------
// Constraint evaluation
// ---------------------------------------------------------------------------

/// Whether integer `i` passes the filter `c`.
pub open spec fn int_constraint_ok(c: IntConstraintV, i: i64) -> bool {
    match c {
        IntConstraintV::Lower(b) => i < b,
        IntConstraintV::Larger(b) => i > b,
        IntConstraintV::LowerOrEqual(b) => i <= b,
        IntConstraintV::LargerOrEqual(b) => i >= b,
        IntConstraintV::Equal(b) => i == b,
        IntConstraintV::In(set) => set.contains(i),
        IntConstraintV::NotIn(set) => !set.contains(i),
    }
}

/// Whether string `s` passes the filter `c`.
pub open spec fn str_constraint_ok(c: StrConstraintV, s: Seq<char>) -> bool {
    match c {
        StrConstraintV::Prefix(p) => p.is_prefix_of(s),
        StrConstraintV::Suffix(p) => p.is_suffix_of(s),
        StrConstraintV::Equal(e) => s == e,
        StrConstraintV::In(set) => set.contains(s),
        StrConstraintV::NotIn(set) => !set.contains(s),
    }
}

/// Whether date `d` passes the filter `c`; both bounds are inclusive.
pub open spec fn date_constraint_ok(c: DateConstraint, d: u64) -> bool {
    match c {
        DateConstraint::Before(t) => d <= t,
        DateConstraint::After(t) => d >= t,
    }
}

/// Whether the candidate value `v` passes the filter `k`. A candidate of a
/// kind other than the filter's is rejected, not an error.
pub open spec fn kind_ok(k: ConstraintKindV, v: IDV) -> bool {
    match k {
        ConstraintKindV::Int(c) => match v {
            IDV::Integer(i) => int_constraint_ok(c, i),
            _ => false,
        },
        ConstraintKindV::Str(c) => match v {
            IDV::Str(s) => str_constraint_ok(c, s),
            _ => false,
        },
        ConstraintKindV::Date(c) => match v {
            IDV::Date(d) => date_constraint_ok(c, d),
            _ => false,
        },
    }
}

/// Whether `p` is a prefix of `s`, character by character.
fn str_is_prefix(p: &String, s: &String) -> (r: bool)
    ensures
        r == p@.is_prefix_of(s@),
{
    let pl = p.as_str().unicode_len();
    let sl = s.as_str().unicode_len();
    if pl > sl {
        return false;
    }
    let mut k: usize = 0;
    while k < pl
        invariant
            k <= pl,
            pl == p@.len(),
            sl == s@.len(),
            pl <= sl,
            forall|j: int| 0 <= j < k ==> p@[j] == s@[j],
        decreases pl - k,
    {
        if p.as_str().get_char(k) != s.as_str().get_char(k) {
            assert(p@[k as int] != s@[k as int]);
            assert(!p@.is_prefix_of(s@));
            return false;
        }
        k += 1;
    }
    proof {
        assert(p@ =~= s@.subrange(0, p@.len() as int));
    }
    true
}

/// Whether `p` is a suffix of `s`, character by character.
fn str_is_suffix(p: &String, s: &String) -> (r: bool)
    ensures
        r == p@.is_suffix_of(s@),
{
    let pl = p.as_str().unicode_len();
    let sl = s.as_str().unicode_len();
    if pl > sl {
        return false;
    }
    let off = sl - pl;
    let mut k: usize = 0;
    while k < pl
        invariant
            k <= pl,
            pl == p@.len(),
            sl == s@.len(),
            pl <= sl,
            off == sl - pl,
            forall|j: int| 0 <= j < k ==> p@[j] == s@[off + j],
        decreases pl - k,
    {
        if p.as_str().get_char(k) != s.as_str().get_char(off + k) {
            assert(p@[k as int] != s@[off + k as int]);
            assert(!p@.is_suffix_of(s@));
            return false;
        }
        k += 1;
    }
    proof {
        assert(p@ =~= s@.subrange(s@.len() - p@.len(), s@.len() as int));
    }
    true
}

/// Whether `set` holds `s`.
fn strings_contain(set: &Vec<String>, s: &String) -> (r: bool)
    ensures
        r == set@.map_values(|x: String| x@).contains(s@),
{
    let ghost sv = set@.map_values(|x: String| x@);
    let mut k: usize = 0;
    while k < set.len()
        invariant
            k <= set.len(),
            sv == set@.map_values(|x: String| x@),
            forall|j: int| 0 <= j < k ==> sv[j] != s@,
        decreases set.len() - k,
    {
        if set[k].eq(s) {
            assert(sv[k as int] == s@);
            return true;
        }
        k += 1;
    }
    assert(forall|j: int| 0 <= j < sv.len() ==> sv[j] != s@);
    false
}

/// Whether `set` holds `i`.
fn ints_contain(set: &Vec<i64>, i: i64) -> (r: bool)
    ensures
        r == set@.contains(i),
{
    let mut k: usize = 0;
    while k < set.len()
        invariant
            k <= set.len(),
            forall|j: int| 0 <= j < k ==> set@[j] != i,
        decreases set.len() - k,
    {
        if set[k] == i {
            return true;
        }
        k += 1;
    }
    false
}

/// Applies the filter `k` to the candidate value `v`: a pure predicate over
/// the pair, with a mismatched identifier kind rejected.
pub fn constraint_kind_check(k: &ConstraintKind, v: &ID) -> (r: bool)
    ensures
        r == kind_ok(k@, v@),
{
    match (k, v) {
        (ConstraintKind::Int(c), ID::Integer(i)) => match c {
            IntConstraint::Lower(b) => *i < *b,
            IntConstraint::Larger(b) => *i > *b,
            IntConstraint::LowerOrEqual(b) => *i <= *b,
            IntConstraint::LargerOrEqual(b) => *i >= *b,
            IntConstraint::Equal(b) => *i == *b,
            IntConstraint::In(set) => ints_contain(set, *i),
            IntConstraint::NotIn(set) => !ints_contain(set, *i),
        },
        (ConstraintKind::Str(c), ID::Str(s)) => match c {
            StrConstraint::Prefix(p) => str_is_prefix(p, s),
            StrConstraint::Suffix(p) => str_is_suffix(p, s),
            StrConstraint::Equal(e) => e.eq(s),
            StrConstraint::In(set) => strings_contain(set, s),
            StrConstraint::NotIn(set) => !strings_contain(set, s),
        },
        (ConstraintKind::Date(c), ID::Date(d)) => match c {
            DateConstraint::Before(t) => *d <= *t,
            DateConstraint::After(t) => *d >= *t,
        },
        _ => false,
    }
}

// ---------------------------------------------------------------------------
// Variable bindings
// ---------------------------------------------------------------------------

/// A candidate assignment of rule variables to ground values, discovered
/// during unification.
pub struct Bindings {
    pub pairs: Vec<(u32, ID)>,
}

/// The mapping that a pair list denotes; a later pair overrides an earlier
/// one with the same variable.
pub open spec fn pairs_map(s: Seq<(u32, IDV)>) -> Map<u32, IDV>
    decreases s.len(),
{
    if s.len() == 0 {
        Map::empty()
    } else {
        pairs_map(s.drop_last()).insert(s.last().0, s.last().1)
    }
}

impl View for Bindings {
    type V = Map<u32, IDV>;

    open spec fn view(&self) -> Map<u32, IDV> {
        pairs_map(self.pairs@.map_values(|p: (u32, ID)| (p.0, p.1@)))
    }
}

/// A variable is bound in a pair list's mapping exactly when some pair
/// names it.
proof fn lemma_pairs_map_contains(s: Seq<(u32, IDV)>, v: u32)
    ensures
        pairs_map(s).contains_key(v) <==> exists|i: int|
            0 <= i < s.len() && (#[trigger] s[i]).0 == v,
    decreases s.len(),
{
    if s.len() > 0 {
        let s0 = s.drop_last();
        lemma_pairs_map_contains(s0, v);
        assert(forall|i: int| 0 <= i < s0.len() ==> s0[i] == s[i]);
        if s.last().0 == v {
            assert(s[s.len() - 1].0 == v);
        } else {
            if pairs_map(s).contains_key(v) {
                let i = choose|i: int| 0 <= i < s0.len() && (#[trigger] s0[i]).0 == v;
                assert(s[i].0 == v);
            }
            if exists|i: int| 0 <= i < s.len() && (#[trigger] s[i]).0 == v {
                let i = choose|i: int| 0 <= i < s.len() && (#[trigger] s[i]).0 == v;
                assert(i < s.len() - 1);
                assert(s0[i].0 == v);
            }
        }
    }
}

/// The mapping binds a variable to the value of the last pair naming it.
proof fn lemma_pairs_map_at(s: Seq<(u32, IDV)>, v: u32, i: int)
    requires
        0 <= i < s.len(),
        s[i].0 == v,
        forall|j: int| i < j < s.len() ==> (#[trigger] s[j]).0 != v,
    ensures
        pairs_map(s).contains_key(v),
        pairs_map(s)[v] == s[i].1,
    decreases s.len(),
{
    if i == s.len() - 1 {
        assert(pairs_map(s)[v] == s.last().1);
    } else {
        let s0 = s.drop_last();
        assert(s0[i] == s[i]);
        assert(forall|j: int| i < j < s0.len() ==> (#[trigger] s0[j]).0 != v);
        lemma_pairs_map_at(s0, v, i);
        assert(s.last().0 != v);
    }
}

impl Bindings {
    /// The empty assignment.
    pub fn empty() -> (r: Bindings)
        ensures
            r@ == Map::<u32, IDV>::empty(),
    {
        let r = Bindings { pairs: Vec::new() };
        proof {
            assert(r.pairs@.map_values(|p: (u32, ID)| (p.0, p.1@)) =~= Seq::<(u32, IDV)>::empty());
        }
        r
    }

    /// Looks the variable `v` up, handing back a copy of its value.
    pub fn get(&self, v: u32) -> (r: Option<ID>)
        ensures
            match r {
                Some(id) => self@.contains_key(v) && self@[v] == id@,
                None => !self@.contains_key(v),
            },
    {
        let ghost s = self.pairs@.map_values(|p: (u32, ID)| (p.0, p.1@));
        let mut k: usize = self.pairs.len();
        while k > 0
            invariant
                k <= self.pairs.len(),
                s == self.pairs@.map_values(|p: (u32, ID)| (p.0, p.1@)),
                forall|j: int| k <= j < s.len() ==> (#[trigger] s[j]).0 != v,
            decreases k,
        {
            k -= 1;
            if self.pairs[k].0 == v {
                proof {
                    assert(s[k as int].0 == v);
                    lemma_pairs_map_at(s, v, k as int);
                }
                return Some(self.pairs[k].1.clone());
            }
        }
        proof {
            assert(forall|j: int| 0 <= j < s.len() ==> (#[trigger] s[j]).0 != v);
            lemma_pairs_map_contains(s, v);
        }
        None
    }

    /// Binds `v` to `id`, overriding any earlier binding of `v`.
    pub fn set(&mut self, v: u32, id: ID)
        ensures
            final(self)@ == old(self)@.insert(v, id@),
    {
        let ghost s0 = self.pairs@.map_values(|p: (u32, ID)| (p.0, p.1@));
        self.pairs.push((v, id));
        proof {
            let s1 = self.pairs@.map_values(|p: (u32, ID)| (p.0, p.1@));
            assert(s1.drop_last() =~= s0);
        }
    }
}

impl Clone for Bindings {
    fn clone(&self) -> (r: Self)
        ensures
            r@ == self@,
    {
        let mut pairs: Vec<(u32, ID)> = Vec::new();
        let mut k: usize = 0;
        while k < self.pairs.len()
            invariant
                k <= self.pairs.len(),
                pairs@.len() == k as int,
                forall|j: int| 0 <= j < k ==> (#[trigger] pairs@[j]).0 == self.pairs@[j].0
                    && pairs@[j].1@ == self.pairs@[j].1@,
            decreases self.pairs.len() - k,
        {
            let p = &self.pairs[k];
            pairs.push((p.0, p.1.clone()));
            k += 1;
        }
        let r = Bindings { pairs };
        proof {
            assert(r.pairs@.map_values(|p: (u32, ID)| (p.0, p.1@)) =~= self.pairs@.map_values(
                |p: (u32, ID)| (p.0, p.1@),
            ));
        }
        r
    }
}

// ---------------------------------------------------------------------------
// Unification
// ---------------------------------------------------------------------------

/// Matches predicate positions against fact positions one by one under the
/// binding `m`: a ground position must be equal, a bound variable must agree
/// with its value, an unbound variable is bound to the fact's value.
pub open spec fn spec_match_ids(pids: Seq<IDV>, fids: Seq<IDV>, m: Map<u32, IDV>) -> Option<
    Map<u32, IDV>,
>
    decreases pids.len(),
{
    if pids.len() == 0 {
        Some(m)
    } else {
        match pids[0] {
            IDV::Variable(v) => {
                if m.contains_key(v) {
                    if m[v] == fids[0] {
                        spec_match_ids(pids.skip(1), fids.skip(1), m)
                    } else {
                        None
                    }
                } else {
                    spec_match_ids(pids.skip(1), fids.skip(1), m.insert(v, fids[0]))
                }
            },
            g => if g == fids[0] {
                spec_match_ids(pids.skip(1), fids.skip(1), m)
            } else {
                None
            },
        }
    }
}

/// The binding that matching predicate `p` against fact `f` under `m`
/// produces, if names, arities and all positions line up.
pub open spec fn spec_match_pred(p: PredicateV, f: PredicateV, m: Map<u32, IDV>) -> Option<
    Map<u32, IDV>,
> {
    if p.name == f.name && p.ids.len() == f.ids.len() {
        spec_match_ids(p.ids, f.ids, m)
    } else {
        None
    }
}

/// Matches one body predicate against one fact, extending the binding `m`.
pub fn match_pred(p: &Predicate, f: &Fact, m: &Bindings) -> (r: Option<Bindings>)
    ensures
        match r {
            Some(b) => spec_match_pred(p@, f@, m@) == Some(b@),
            None => spec_match_pred(p@, f@, m@) is None,
        },
{
    if p.name != f.predicate.name || p.ids.len() != f.predicate.ids.len() {
        return None;
    }
    let mut b = m.clone();
    let ghost pv = p@.ids;
    let ghost fv = f@.ids;
    proof {
        assert(pv.skip(0) =~= pv);
        assert(fv.skip(0) =~= fv);
    }
    let mut k: usize = 0;
    while k < p.ids.len()
        invariant
            k <= p.ids.len(),
            pv == p@.ids,
            fv == f@.ids,
            pv.len() == p.ids.len(),
            fv.len() == pv.len(),
            spec_match_ids(pv, fv, m@) == spec_match_ids(
                pv.skip(k as int),
                fv.skip(k as int),
                b@,
            ),
        decreases p.ids.len() - k,
    {
        proof {
            assert(pv.skip(k as int)[0] == pv[k as int]);
            assert(fv.skip(k as int)[0] == fv[k as int]);
            assert(pv.skip(k as int).skip(1) =~= pv.skip(k as int + 1));
            assert(fv.skip(k as int).skip(1) =~= fv.skip(k as int + 1));
        }
        match &p.ids[k] {
            ID::Variable(v) => {
                match b.get(*v) {
                    Some(bound) => {
                        if !id_eq(&bound, &f.predicate.ids[k]) {
                            return None;
                        }
                    },
                    None => {
                        b.set(*v, f.predicate.ids[k].clone());
                    },
                }
            },
            other => {
                if !id_eq(other, &f.predicate.ids[k]) {
                    return None;
                }
            },
        }
        k += 1;
    }
    proof {
        assert(pv.skip(p.ids.len() as int) =~= Seq::<IDV>::empty());
    }
    Some(b)
}

// ---------------------------------------------------------------------------
// Rule semantics
// ---------------------------------------------------------------------------

/// The set of fact values a list of facts holds.
pub open spec fn fact_views(s: Seq<Fact>) -> Set<PredicateV> {
    Set::new(|p: PredicateV| exists|j: int| 0 <= j < s.len() && (#[trigger] s[j])@ == p)
}

/// The set of binding values a list of bindings holds.
pub open spec fn binding_views(s: Seq<Bindings>) -> Set<Map<u32, IDV>> {
    Set::new(|m: Map<u32, IDV>| exists|j: int| 0 <= j < s.len() && (#[trigger] s[j])@ == m)
}

/// All bindings that extending some member of `ms` by matching `p` against
/// some fact of `facts` can produce.
pub open spec fn step_bindings(
    p: PredicateV,
    facts: Set<PredicateV>,
    ms: Set<Map<u32, IDV>>,
) -> Set<Map<u32, IDV>> {
    Set::new(
        |m2: Map<u32, IDV>|
            exists|m: Map<u32, IDV>, f: PredicateV|
                ms.contains(m) && facts.contains(f) && spec_match_pred(p, f, m) == Some(m2),
    )
}

/// All bindings that matching the whole body, predicate after predicate,
/// against `facts` can produce, starting from the bindings in `ms`.
pub open spec fn body_bindings(
    body: Seq<PredicateV>,
    facts: Set<PredicateV>,
    ms: Set<Map<u32, IDV>>,
) -> Set<Map<u32, IDV>>
    decreases body.len(),
{
    if body.len() == 0 {
        ms
    } else {
        body_bindings(body.skip(1), facts, step_bindings(body[0], facts, ms))
    }
}

/// All bindings of a rule's body against `facts`, from the empty binding.
pub open spec fn rule_bindings(r: RuleV, facts: Set<PredicateV>) -> Set<Map<u32, IDV>> {
    body_bindings(r.body, facts, Set::<Map<u32, IDV>>::empty().insert(Map::empty()))
}

/// Whether the binding `m` satisfies the constraint `c`: the constrained
/// variable must have been grounded, and its value must pass the filter.
pub open spec fn spec_constraint_ok(m: Map<u32, IDV>, c: ConstraintV) -> bool {
    m.contains_key(c.id) && kind_ok(c.kind, m[c.id])
}

/// Whether `m` satisfies every constraint in `cs`.
pub open spec fn spec_constraints_ok(m: Map<u32, IDV>, cs: Seq<ConstraintV>) -> bool {
    forall|i: int| 0 <= i < cs.len() ==> spec_constraint_ok(m, #[trigger] cs[i])
}

/// Whether `m` is a satisfying, constraint-passing binding of rule `r`
/// against the fact set `facts`.
pub open spec fn binding_matches(r: RuleV, facts: Set<PredicateV>, m: Map<u32, IDV>) -> bool {
    rule_bindings(r, facts).contains(m) && spec_constraints_ok(m, r.constraints)
}

/// A caveat holds iff at least one satisfying, constraint-passing binding
/// of its body exists; its head is never asserted.
pub open spec fn caveat_sat(r: RuleV, facts: Set<PredicateV>) -> bool {
    exists|m: Map<u32, IDV>| binding_matches(r, facts, m)
}

/// The identifier `i` with a bound variable replaced by its value.
pub open spec fn subst_id(i: IDV, m: Map<u32, IDV>) -> IDV {
    match i {
        IDV::Variable(v) => if m.contains_key(v) {
            m[v]
        } else {
            i
        },
        _ => i,
    }
}

/// The head predicate with every bound variable replaced by its value.
pub open spec fn subst_pred(p: PredicateV, m: Map<u32, IDV>) -> PredicateV {
    PredicateV { name: p.name, ids: p.ids.map_values(|i: IDV| subst_id(i, m)) }
}

/// Whether rule `r` derives the ground fact `f` from the fact set `facts`.
pub open spec fn rule_derives(r: RuleV, facts: Set<PredicateV>, f: PredicateV) -> bool {
    exists|m: Map<u32, IDV>|
        binding_matches(r, facts, m) && f == subst_pred(r.head, m) && pred_ground(f)
}

/// Computes exactly the bindings of `body` against `facts`.
fn bindings_for_body(body: &Vec<Predicate>, facts: &Vec<Fact>) -> (res: Vec<Bindings>)
    ensures
        binding_views(res@) == body_bindings(
            body@.map_values(|p: Predicate| p@),
            fact_views(facts@),
            Set::<Map<u32, IDV>>::empty().insert(Map::empty()),
        ),
{
    let ghost bodyv = body@.map_values(|p: Predicate| p@);
    let ghost fsv = fact_views(facts@);
    let ghost ms0 = Set::<Map<u32, IDV>>::empty().insert(Map::empty());
    let mut cur: Vec<Bindings> = Vec::new();
    cur.push(Bindings::empty());
    proof {
        assert(cur@[0]@ == Map::<u32, IDV>::empty());
        assert(binding_views(cur@) =~= ms0);
        assert(bodyv.skip(0) =~= bodyv);
    }
    let mut k: usize = 0;
    while k < body.len()
        invariant
            k <= body.len(),
            bodyv == body@.map_values(|p: Predicate| p@),
            fsv == fact_views(facts@),
            bodyv.len() == body.len(),
            body_bindings(bodyv, fsv, ms0) == body_bindings(
                bodyv.skip(k as int),
                fsv,
                binding_views(cur@),
            ),
        decreases body.len() - k,
    {
        let ghost pk = bodyv[k as int];
        let ghost curv = binding_views(cur@);
        let mut next: Vec<Bindings> = Vec::new();
        let mut bi: usize = 0;
        while bi < cur.len()
            invariant
                bi <= cur.len(),
                pk == bodyv[k as int],
                fsv == fact_views(facts@),
                curv == binding_views(cur@),
                pk == body@[k as int]@,
                k < body.len(),
                forall|j: int|
                    0 <= j < next@.len() ==> step_bindings(pk, fsv, curv).contains(
                        (#[trigger] next@[j])@,
                    ),
                forall|b: int, fj: int|
                    #![trigger facts@[fj], cur@[b]]
                    0 <= b < bi && 0 <= fj < facts@.len() ==> (spec_match_pred(
                        pk,
                        facts@[fj]@,
                        cur@[b]@,
                    ) matches Some(m2) ==> binding_views(next@).contains(m2)),
            decreases cur.len() - bi,
        {
            let mut fi: usize = 0;
            while fi < facts.len()
                invariant
                    fi <= facts.len(),
                    bi < cur.len(),
                    pk == bodyv[k as int],
                    fsv == fact_views(facts@),
                    curv == binding_views(cur@),
                    pk == body@[k as int]@,
                    k < body.len(),
                    forall|j: int|
                        0 <= j < next@.len() ==> step_bindings(pk, fsv, curv).contains(
                            (#[trigger] next@[j])@,
                        ),
                    forall|b: int, fj: int|
                        #![trigger facts@[fj], cur@[b]]
                        0 <= b < bi && 0 <= fj < facts@.len() ==> (spec_match_pred(
                            pk,
                            facts@[fj]@,
                            cur@[b]@,
                        ) matches Some(m2) ==> binding_views(next@).contains(m2)),
                    forall|fj: int|
                        #![trigger facts@[fj]]
                        0 <= fj < fi ==> (spec_match_pred(
                            pk,
                            facts@[fj]@,
                            cur@[bi as int]@,
                        ) matches Some(m2) ==> binding_views(next@).contains(m2)),
                decreases facts.len() - fi,
            {
                let ghost old_next = next@;
                match match_pred(&body[k], &facts[fi], &cur[bi]) {
                    Some(b2) => {
                        proof {
                            assert(fsv.contains(facts@[fi as int]@));
                            assert(curv.contains(cur@[bi as int]@));
                            let m = cur@[bi as int]@;
                            let f = facts@[fi as int]@;
                            assert(spec_match_pred(pk, f, m) == Some(b2@));
                            assert(step_bindings(pk, fsv, curv).contains(b2@));
                        }
                        next.push(b2);
                        proof {
                            assert(next@[next@.len() - 1]@ == next@.last()@);
                            assert(forall|j: int|
                                0 <= j < old_next.len() ==> next@[j] == old_next[j]);
                            assert(forall|m2: Map<u32, IDV>|
                                binding_views(old_next).contains(m2) ==> binding_views(
                                    next@,
                                ).contains(m2));
                        }
                    },
                    None => {},
                }
                fi += 1;
            }
            bi += 1;
        }
        proof {
            let stepset = step_bindings(pk, fsv, curv);
            assert forall|m2: Map<u32, IDV>| stepset.contains(m2) implies binding_views(
                next@,
            ).contains(m2) by {
                let (m, f) = choose|m: Map<u32, IDV>, f: PredicateV|
                    curv.contains(m) && fsv.contains(f) && spec_match_pred(pk, f, m) == Some(m2);
                let b = choose|b: int| 0 <= b < cur@.len() && (#[trigger] cur@[b])@ == m;
                let fj = choose|fj: int| 0 <= fj < facts@.len() && (#[trigger] facts@[fj])@ == f;
                assert(spec_match_pred(pk, facts@[fj]@, cur@[b]@) == Some(m2));
            }
            assert(binding_views(next@) =~= stepset);
            assert(bodyv.skip(k as int)[0] == pk);
            assert(bodyv.skip(k as int).skip(1) =~= bodyv.skip(k as int + 1));
        }
        cur = next;
        k += 1;
    }
    proof {
        assert(bodyv.skip(body.len() as int) =~= Seq::<PredicateV>::empty());
    }
    cur
}

/// Tests every constraint of `cs` against the binding `b`.
fn constraints_check(b: &Bindings, cs: &Vec<Constraint>) -> (r: bool)
    ensures
        r == spec_constraints_ok(b@, cs@.map_values(|c: Constraint| c@)),
{
    let ghost csv = cs@.map_values(|c: Constraint| c@);
    let mut k: usize = 0;
    while k < cs.len()
        invariant
            k <= cs.len(),
            csv == cs@.map_values(|c: Constraint| c@),
            forall|j: int| 0 <= j < k ==> spec_constraint_ok(b@, #[trigger] csv[j]),
        decreases cs.len() - k,
    {
        match b.get(cs[k].id) {
            Some(v) => {
                if !constraint_kind_check(&cs[k].kind, &v) {
                    assert(!spec_constraint_ok(b@, csv[k as int]));
                    return false;
                }
            },
            None => {
                assert(!spec_constraint_ok(b@, csv[k as int]));
                return false;
            },
        }
        k += 1;
    }
    true
}

/// Substitutes the binding `b` into the predicate `p`.
fn subst_pred_exec(p: &Predicate, b: &Bindings) -> (r: Predicate)
    ensures
        r@ == subst_pred(p@, b@),
{
    let mut ids: Vec<ID> = Vec::new();
    let mut k: usize = 0;
    while k < p.ids.len()
        invariant
            k <= p.ids.len(),
            ids@.len() == k as int,
            forall|j: int| 0 <= j < k ==> (#[trigger] ids@[j])@ == subst_id(p@.ids[j], b@),
        decreases p.ids.len() - k,
    {
        match &p.ids[k] {
            ID::Variable(v) => {
                match b.get(*v) {
                    Some(val) => ids.push(val),
                    None => ids.push(ID::Variable(*v)),
                }
            },
            other => {
                ids.push(other.clone());
            },
        }
        k += 1;
    }
    let r = Predicate { name: p.name, ids };
    proof {
        assert(r@.ids =~= subst_pred(p@, b@).ids);
    }
    r
}

/// Whether every position of `p` is ground.
fn pred_is_ground(p: &Predicate) -> (r: bool)
    ensures
        r == pred_ground(p@),
{
    let mut k: usize = 0;
    while k < p.ids.len()
        invariant
            k <= p.ids.len(),
            forall|j: int| 0 <= j < k ==> id_ground(#[trigger] p@.ids[j]),
        decreases p.ids.len() - k,
    {
        if let ID::Variable(_) = &p.ids[k] {
            assert(!id_ground(p@.ids[k as int]));
            return false;
        }
        k += 1;
    }
    true
}

/// Whether the list `v` holds the fact value `f@`.
fn contains_fact(v: &Vec<Fact>, f: &Fact) -> (r: bool)
    ensures
        r == fact_views(v@).contains(f@),
{
    let mut k: usize = 0;
    while k < v.len()
        invariant
            k <= v.len(),
            forall|j: int| 0 <= j < k ==> (#[trigger] v@[j])@ != f@,
        decreases v.len() - k,
    {
        if pred_eq(&v[k].predicate, &f.predicate) {
            assert(v@[k as int]@ == f@);
            return true;
        }
        k += 1;
    }
    false
}

/// Copies a list of facts.
fn clone_facts(v: &Vec<Fact>) -> (r: Vec<Fact>)
    ensures
        r@.len() == v@.len(),
        forall|j: int| 0 <= j < v@.len() ==> (#[trigger] r@[j])@ == v@[j]@,
        fact_views(r@) == fact_views(v@),
{
    let mut r: Vec<Fact> = Vec::new();
    let mut k: usize = 0;
    while k < v.len()
        invariant
            k <= v.len(),
            r@.len() == k as int,
            forall|j: int| 0 <= j < k ==> (#[trigger] r@[j])@ == v@[j]@,
        decreases v.len() - k,
    {
        r.push(v[k].clone());
        k += 1;
    }
    proof {
        assert forall|p: PredicateV| fact_views(r@).contains(p) implies fact_views(v@).contains(p)
        by {
            let j = choose|j: int| 0 <= j < r@.len() && (#[trigger] r@[j])@ == p;
            assert(v@[j]@ == p);
        }
        assert forall|p: PredicateV| fact_views(v@).contains(p) implies fact_views(r@).contains(p)
        by {
            let j = choose|j: int| 0 <= j < v@.len() && (#[trigger] v@[j])@ == p;
            assert(r@[j]@ == p);
        }
        assert(fact_views(r@) =~= fact_views(v@));
    }
    r
}

/// Checks a caveat: true iff at least one satisfying, constraint-passing
/// binding of its body against `facts` exists. The caveat's head plays no
/// role.
pub fn check_caveat(facts: &Vec<Fact>, caveat: &Rule) -> (r: bool)
    ensures
        r == caveat_sat(caveat@, fact_views(facts@)),
{
    let ghost fsv = fact_views(facts@);
    let bindings = bindings_for_body(&caveat.body, facts);
    proof {
        assert(binding_views(bindings@) == rule_bindings(caveat@, fsv));
    }
    let mut k: usize = 0;
    while k < bindings.len()
        invariant
            k <= bindings.len(),
            fsv == fact_views(facts@),
            binding_views(bindings@) == rule_bindings(caveat@, fsv),
            forall|j: int|
                0 <= j < k ==> !spec_constraints_ok(
                    (#[trigger] bindings@[j])@,
                    caveat@.constraints,
                ),
        decreases bindings.len() - k,
    {
        if constraints_check(&bindings[k], &caveat.constraints) {
            proof {
                let m = bindings@[k as int]@;
                assert(binding_views(bindings@).contains(m));
                assert(binding_matches(caveat@, fsv, m));
            }
            return true;
        }
        k += 1;
    }
    proof {
        if caveat_sat(caveat@, fsv) {
            let m = choose|m: Map<u32, IDV>| binding_matches(caveat@, fsv, m);
            let j = choose|j: int| 0 <= j < bindings@.len() && (#[trigger] bindings@[j])@ == m;
            assert(!spec_constraints_ok(bindings@[j]@, caveat@.constraints));
        }
    }
    false
}

/// Applies one rule to `facts`: hands back every ground fact some
/// satisfying, constraint-passing binding substitutes into the head.
fn rule_apply(r: &Rule, facts: &Vec<Fact>) -> (res: Vec<Fact>)
    ensures
        forall|j: int|
            0 <= j < res@.len() ==> rule_derives(r@, fact_views(facts@), (#[trigger] res@[j])@),
        forall|fv: PredicateV|
            rule_derives(r@, fact_views(facts@), fv) ==> fact_views(res@).contains(fv),
{
    let ghost fsv = fact_views(facts@);
    let bindings = bindings_for_body(&r.body, facts);
    proof {
        assert(binding_views(bindings@) == rule_bindings(r@, fsv));
    }
    let mut res: Vec<Fact> = Vec::new();
    let mut k: usize = 0;
    while k < bindings.len()
        invariant
            k <= bindings.len(),
            fsv == fact_views(facts@),
            binding_views(bindings@) == rule_bindings(r@, fsv),
            forall|j: int|
                0 <= j < res@.len() ==> rule_derives(r@, fsv, (#[trigger] res@[j])@),
            forall|j: int|
                0 <= j < k ==> ({
                    let m = (#[trigger] bindings@[j])@;
                    spec_constraints_ok(m, r@.constraints) && pred_ground(subst_pred(r@.head, m))
                        ==> fact_views(res@).contains(subst_pred(r@.head, m))
                }),
        decreases bindings.len() - k,
    {
        let ghost old_res = res@;
        if constraints_check(&bindings[k], &r.constraints) {
            let h = subst_pred_exec(&r.head, &bindings[k]);
            if pred_is_ground(&h) {
                proof {
                    let m = bindings@[k as int]@;
                    assert(binding_views(bindings@).contains(m));
                    assert(binding_matches(r@, fsv, m));
                    assert(rule_derives(r@, fsv, h@));
                }
                res.push(Fact { predicate: h });
                proof {
                    assert(res@[res@.len() - 1]@ == subst_pred(r@.head, bindings@[k as int]@));
                    assert(forall|j: int| 0 <= j < old_res.len() ==> res@[j] == old_res[j]);
                    assert(forall|fv: PredicateV|
                        fact_views(old_res).contains(fv) ==> fact_views(res@).contains(fv));
                }
            }
        }
        k += 1;
    }
    proof {
        assert forall|fv: PredicateV| rule_derives(r@, fsv, fv) implies fact_views(res@).contains(
            fv,
        ) by {
            let m = choose|m: Map<u32, IDV>|
                binding_matches(r@, fsv, m) && fv == subst_pred(r@.head, m) && pred_ground(fv);
            let j = choose|j: int| 0 <= j < bindings@.len() && (#[trigger] bindings@[j])@ == m;
        }
    }
    res
}

// ---------------------------------------------------------------------------
// Fixed-point derivation
// ---------------------------------------------------------------------------

/// One derivation pass: the facts together with everything any rule derives
/// from them.
pub open spec fn step_set(facts: Set<PredicateV>, rules: Seq<RuleV>) -> Set<PredicateV> {
    facts.union(
        Set::new(
            |f: PredicateV|
                exists|i: int| 0 <= i < rules.len() && rule_derives(#[trigger] rules[i], facts, f),
        ),
    )
}

/// The fact set after `n` derivation passes over the base facts.
pub open spec fn iter_set(base: Set<PredicateV>, rules: Seq<RuleV>, n: nat) -> Set<PredicateV>
    decreases n,
{
    if n == 0 {
        base
    } else {
        step_set(iter_set(base, rules, (n - 1) as nat), rules)
    }
}

/// Runs the naive fixed point: passes derive new facts until a pass adds
/// nothing, with set semantics and no duplicates beyond the base list's own.
/// Gives up with `ResourceExhausted` when `MAX_ITERATIONS` passes did not
/// reach the fixed point.
pub fn derive_facts(base: &Vec<Fact>, rules: &Vec<Rule>) -> (r: Result<Vec<Fact>, Error>)
    ensures
        ({
            let b = fact_views(base@);
            let rs = rules@.map_values(|x: Rule| x@);
            match r {
                Ok(res) => exists|k: nat|
                    k < crate::MAX_ITERATIONS && #[trigger] iter_set(b, rs, k) == iter_set(
                        b,
                        rs,
                        k + 1,
                    ) && fact_views(res@) == iter_set(b, rs, k),
                Err(e) => e == Error::ResourceExhausted && forall|k: nat|
                    k < crate::MAX_ITERATIONS ==> #[trigger] iter_set(b, rs, k) != iter_set(
                        b,
                        rs,
                        k + 1,
                    ),
            }
        }),
{
    let ghost b = fact_views(base@);
    let ghost rs = rules@.map_values(|x: Rule| x@);
    let mut cur: Vec<Fact> = clone_facts(base);
    let mut pass: u64 = 0;
    while pass < crate::MAX_ITERATIONS
        invariant
            pass <= crate::MAX_ITERATIONS,
            b == fact_views(base@),
            rs == rules@.map_values(|x: Rule| x@),
            rs.len() == rules.len(),
            fact_views(cur@) == iter_set(b, rs, pass as nat),
            forall|k: nat|
                k < pass ==> #[trigger] iter_set(b, rs, k) != iter_set(b, rs, k + 1),
        decreases crate::MAX_ITERATIONS - pass,
    {
        let ghost s_start = fact_views(cur@);
        let ghost cur_seq0 = cur@;
        let snapshot = clone_facts(&cur);
        let mut added = false;
        let mut ri: usize = 0;
        while ri < rules.len()
            invariant
                ri <= rules.len(),
                rs == rules@.map_values(|x: Rule| x@),
                rs.len() == rules.len(),
                s_start == iter_set(b, rs, pass as nat),
                snapshot@.len() == cur_seq0.len(),
                fact_views(snapshot@) == s_start,
                fact_views(cur@) =~= s_start.union(
                    Set::new(
                        |f: PredicateV|
                            exists|i: int|
                                0 <= i < ri && rule_derives(#[trigger] rs[i], s_start, f),
                    ),
                ),
                !added ==> cur@ == cur_seq0,
                cur_seq0.len() <= cur@.len(),
                s_start == fact_views(cur_seq0),
                added ==> iter_set(b, rs, pass as nat) != iter_set(b, rs, pass as nat + 1),
            decreases rules.len() - ri,
        {
            let derived = rule_apply(&rules[ri], &snapshot);
            proof {
                assert(rules@[ri as int]@ == rs[ri as int]);
            }
            let mut di: usize = 0;
            let ghost cur_ri = cur@;
            while di < derived.len()
                invariant
                    di <= derived.len(),
                    ri < rules.len(),
                    rs == rules@.map_values(|x: Rule| x@),
                    rs.len() == rules.len(),
                    s_start == iter_set(b, rs, pass as nat),
                    forall|j: int|
                        0 <= j < derived@.len() ==> rule_derives(
                            rs[ri as int],
                            s_start,
                            (#[trigger] derived@[j])@,
                        ),
                    fact_views(cur@) =~= fact_views(cur_ri).union(
                        fact_views(derived@.subrange(0, di as int)),
                    ),
                    !added ==> cur@ == cur_seq0,
                    cur_seq0.len() <= cur@.len(),
                    s_start == fact_views(cur_seq0),
                    fact_views(cur_ri).subset_of(fact_views(cur@)),
                    s_start.subset_of(fact_views(cur_ri)),
                    added ==> iter_set(b, rs, pass as nat) != iter_set(b, rs, pass as nat + 1),
                decreases derived.len() - di,
            {
                let ghost cur_before = cur@;
                if !contains_fact(&cur, &derived[di]) {
                    proof {
                        let f = derived@[di as int]@;
                        assert(!fact_views(cur@).contains(f));
                        assert(!s_start.contains(f));
                        assert(rule_derives(rs[ri as int], s_start, f));
                        assert(step_set(s_start, rs).contains(f));
                        assert(iter_set(b, rs, pass as nat + 1) == step_set(s_start, rs));
                        assert(iter_set(b, rs, pass as nat) != iter_set(b, rs, pass as nat + 1));
                    }
                    let fcopy = derived[di].clone();
                    cur.push(fcopy);
                    added = true;
                    proof {
                        assert(forall|j: int|
                            0 <= j < cur_before.len() ==> cur@[j] == cur_before[j]);
                        assert(cur@[cur@.len() - 1]@ == derived@[di as int]@);
                        assert(fact_views(cur@).contains(derived@[di as int]@));
                        assert forall|fv: PredicateV| fact_views(cur_before).contains(fv)
                            implies fact_views(cur@).contains(fv) by {
                            let j = choose|j: int|
                                0 <= j < cur_before.len() && (#[trigger] cur_before[j])@ == fv;
                            assert(cur@[j]@ == fv);
                        }
                    }
                } else {
                    proof {
                        assert(fact_views(cur@).contains(derived@[di as int]@));
                    }
                }
                proof {
                    let prefix = derived@.subrange(0, di as int);
                    let prefix1 = derived@.subrange(0, di as int + 1);
                    assert(prefix1 =~= prefix.push(derived@[di as int]));
                    assert(fact_views(cur@).contains(derived@[di as int]@));
                    assert forall|fv: PredicateV| fact_views(cur@).contains(fv) implies
                        fact_views(cur_ri).union(fact_views(prefix1)).contains(fv) by {
                        let j = choose|j: int| 0 <= j < cur@.len() && (#[trigger] cur@[j])@ == fv;
                        if j < cur_before.len() {
                            assert(cur_before[j]@ == fv);
                            assert(fact_views(cur_before).contains(fv));
                            if fact_views(prefix).contains(fv) {
                                let j2 = choose|j2: int|
                                    0 <= j2 < prefix.len() && (#[trigger] prefix[j2])@ == fv;
                                assert(prefix1[j2]@ == fv);
                                assert(fact_views(prefix1).contains(fv));
                            }
                        } else {
                            assert(fv == derived@[di as int]@);
                            assert(prefix1[di as int]@ == fv);
                            assert(fact_views(prefix1).contains(fv));
                        }
                    }
                    assert forall|fv: PredicateV|
                        fact_views(cur_ri).union(fact_views(prefix1)).contains(fv) implies
                        fact_views(cur@).contains(fv) by {
                        if fact_views(cur_ri).contains(fv) {
                            assert(fact_views(cur_before).contains(fv));
                            let j = choose|j: int|
                                0 <= j < cur_before.len() && (#[trigger] cur_before[j])@ == fv;
                            assert(cur@[j]@ == fv);
                        } else {
                            let j = choose|j: int|
                                0 <= j < prefix1.len() && (#[trigger] prefix1[j])@ == fv;
                            if j < di {
                                assert(prefix[j]@ == fv);
                                assert(fact_views(prefix).contains(fv));
                                assert(fact_views(cur_before).contains(fv));
                                let j2 = choose|j2: int|
                                    0 <= j2 < cur_before.len() && (#[trigger] cur_before[j2])@
                                        == fv;
                                assert(cur@[j2]@ == fv);
                            } else {
                                assert(prefix1[j] == derived@[di as int]);
                                assert(fv == derived@[di as int]@);
                            }
                        }
                    }
                    assert(fact_views(cur@) =~= fact_views(cur_ri).union(fact_views(prefix1)));
                }
                di += 1;
            }
            proof {
                assert(derived@.subrange(0, derived@.len() as int) =~= derived@);
                let dset = Set::new(
                    |f: PredicateV|
                        exists|i: int|
                            0 <= i < ri + 1 && rule_derives(#[trigger] rs[i], s_start, f),
                );
                assert forall|fv: PredicateV| fact_views(cur@).contains(fv) implies
                    s_start.union(dset).contains(fv) by {
                    if fact_views(cur_ri).contains(fv) {
                    } else {
                        assert(fact_views(derived@).contains(fv));
                        let j = choose|j: int|
                            0 <= j < derived@.len() && (#[trigger] derived@[j])@ == fv;
                        assert(rule_derives(rs[ri as int], s_start, fv));
                    }
                }
                assert forall|fv: PredicateV| s_start.union(dset).contains(fv) implies
                    fact_views(cur@).contains(fv) by {
                    if s_start.contains(fv) {
                        assert(fact_views(cur_ri).contains(fv));
                    } else {
                        let i = choose|i: int|
                            0 <= i < ri + 1 && rule_derives(#[trigger] rs[i], s_start, fv);
                        if i < ri {
                            assert(fact_views(cur_ri).contains(fv));
                        } else {
                            assert(fact_views(derived@).contains(fv));
                        }
                    }
                }
                assert(fact_views(cur@) =~= s_start.union(dset));
            }
            ri += 1;
        }
        proof {
            let dall = Set::new(
                |f: PredicateV|
                    exists|i: int|
                        0 <= i < rules.len() && rule_derives(#[trigger] rs[i], s_start, f),
            );
            assert(fact_views(cur@) =~= s_start.union(dall));
            assert(s_start.union(dall) =~= step_set(s_start, rs));
            assert(iter_set(b, rs, pass as nat + 1) == step_set(s_start, rs));
        }
        if !added {
            proof {
                assert(cur@ == cur_seq0);
                assert(fact_views(cur@) == s_start);
                assert(iter_set(b, rs, pass as nat + 1) == iter_set(b, rs, pass as nat));
            }
            return Ok(cur);
        }
        pass += 1;
    }
    proof {
        assert(forall|k: nat|
            k < crate::MAX_ITERATIONS ==> #[trigger] iter_set(b, rs, k) != iter_set(b, rs, k + 1));
    }
    Err(Error::ResourceExhausted)
}

} // verus!
