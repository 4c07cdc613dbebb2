//! The fluent construction layer: atoms, predicates, facts and rules over
//! plain strings, converted into the symbol-coded Datalog core when a block
//! is assembled.

use vstd::prelude::*;
use crate::datalog;
use crate::datalog::{table_code, table_insert, SymbolTable};

verus! {

// ---------------------------------------------------------------------------
// Atoms
// ---------------------------------------------------------------------------

/// A literal value before symbol interning.
#[derive(Debug)]
pub enum Atom {
    Symbol(String),
    Variable(u32),
    Integer(i64),
    Str(String),
    Date(u64),
}

/// The mathematical value of an [`Atom`].
pub enum AtomV {
    Symbol(Seq<char>),
    Variable(u32),
    Integer(i64),
    Str(Seq<char>),
    Date(u64),
}

impl View for Atom {
    type V = AtomV;

    open spec fn view(&self) -> AtomV {
        match self {
            Atom::Symbol(s) => AtomV::Symbol(s@),
            Atom::Variable(v) => AtomV::Variable(*v),
            Atom::Integer(i) => AtomV::Integer(*i),
            Atom::Str(s) => AtomV::Str(s@),
            Atom::Date(d) => AtomV::Date(*d),
        }
    }
}

impl Clone for Atom {
    fn clone(&self) -> (r: Self)
        ensures
            r@ == self@,
    {
        match self {
            Atom::Symbol(s) => Atom::Symbol(s.clone()),
            Atom::Variable(v) => Atom::Variable(*v),
            Atom::Integer(i) => Atom::Integer(*i),
            Atom::Str(s) => Atom::Str(s.clone()),
            Atom::Date(d) => Atom::Date(*d),
        }
    }
}

/// The identifier an atom converts to, and the table after interning a
/// symbol atom's string.
pub open spec fn spec_atom_convert(a: AtomV, t: Seq<Seq<char>>) -> (datalog::IDV, Seq<Seq<char>>) {
    match a {
        AtomV::Symbol(s) => (datalog::IDV::Symbol(table_code(t, s) as u64), table_insert(t, s)),
        AtomV::Variable(v) => (datalog::IDV::Variable(v), t),
        AtomV::Integer(i) => (datalog::IDV::Integer(i), t),
        AtomV::Str(s) => (datalog::IDV::Str(s), t),
        AtomV::Date(d) => (datalog::IDV::Date(d), t),
    }
}

/// Atom lists convert left to right, threading the table.
pub open spec fn spec_atoms_convert(ids: Seq<AtomV>, t: Seq<Seq<char>>) -> (
    Seq<datalog::IDV>,
    Seq<Seq<char>>,
)
    decreases ids.len(),
{
    if ids.len() == 0 {
        (Seq::empty(), t)
    } else {
        let (i0, t1) = spec_atom_convert(ids[0], t);
        let (rest, t2) = spec_atoms_convert(ids.skip(1), t1);
        (seq![i0] + rest, t2)
    }
}

impl Atom {
    /// Converts the atom, interning a symbol atom's string.
    pub fn convert(&self, symbols: &mut SymbolTable) -> (r: datalog::ID)
        ensures
            ({
                let (idv, t2) = spec_atom_convert(self@, old(symbols)@);
                r@ == idv && final(symbols)@ == t2
            }),
    {
        match self {
            Atom::Symbol(s) => datalog::ID::Symbol(symbols.insert(s)),
            Atom::Variable(v) => datalog::ID::Variable(*v),
            Atom::Integer(i) => datalog::ID::Integer(*i),
            Atom::Str(s) => datalog::ID::Str(s.clone()),
            Atom::Date(d) => datalog::ID::Date(*d),
        }
    }
}

// ---------------------------------------------------------------------------
// Predicates, facts, rules
// ---------------------------------------------------------------------------

/// A predicate over a string name and literal atoms.
#[derive(Debug)]
pub struct Predicate {
    pub name: String,
    pub ids: Vec<Atom>,
}

/// The mathematical value of a builder [`Predicate`].
pub struct PredicateV {
    pub name: Seq<char>,
    pub ids: Seq<AtomV>,
}

impl View for Predicate {
    type V = PredicateV;

    open spec fn view(&self) -> PredicateV {
        PredicateV { name: self.name@, ids: self.ids@.map_values(|a: Atom| a@) }
    }
}

impl Clone for Predicate {
    fn clone(&self) -> (r: Self)
        ensures
            r@ == self@,
    {
        let r = Predicate { name: self.name.clone(), ids: clone_atoms(&self.ids) };
        proof {
            assert(r@.ids =~= self@.ids);
        }
        r
    }
}

/// Copies a vector of atoms.
fn clone_atoms(v: &Vec<Atom>) -> (r: Vec<Atom>)
    ensures
        r@.len() == v@.len(),
        forall|j: int| 0 <= j < v@.len() ==> (#[trigger] r@[j])@ == v@[j]@,
{
    let mut r: Vec<Atom> = Vec::new();
    let mut k: usize = 0;
    while k < v.len()
        invariant
            k <= v.len(),
            r@.len() == k as int,
            forall|j: int| 0 <= j < k ==> (#[trigger] r@[j])@ == v@[j]@,
        decreases v.len() - k,
    {
        r.push(v[k].clone());
        k += 1;
    }
    r
}

/// The symbol-coded predicate a builder predicate converts to: the name is
/// interned first, then the atoms in order.
pub open spec fn spec_pred_convert(p: PredicateV, t: Seq<Seq<char>>) -> (
    datalog::PredicateV,
    Seq<Seq<char>>,
) {
    let name = table_code(t, p.name) as u64;
    let t1 = table_insert(t, p.name);
    let (ids, t2) = spec_atoms_convert(p.ids, t1);
    (datalog::PredicateV { name, ids }, t2)
}

impl Predicate {
    /// Converts the predicate, interning its name and symbol atoms.
    pub fn convert(&self, symbols: &mut SymbolTable) -> (r: datalog::Predicate)
        ensures
            ({
                let (pv, t2) = spec_pred_convert(self@, old(symbols)@);
                r@ == pv && final(symbols)@ == t2
            }),
    {
        let name = symbols.insert(&self.name);
        let mut ids: Vec<datalog::ID> = Vec::new();
        let ghost t1 = symbols@;
        let ghost av = self@.ids;
        proof {
            assert(av.skip(0) =~= av);
        }
        let mut k: usize = 0;
        while k < self.ids.len()
            invariant
                k <= self.ids.len(),
                av == self@.ids,
                av.len() == self.ids.len(),
                ids@.len() == k as int,
                spec_atoms_convert(av, t1) == ({
                    let (rest, t2) = spec_atoms_convert(av.skip(k as int), symbols@);
                    (ids@.map_values(|i: datalog::ID| i@) + rest, t2)
                }),
            decreases self.ids.len() - k,
        {
            proof {
                assert(av.skip(k as int)[0] == av[k as int]);
                assert(av.skip(k as int).skip(1) =~= av.skip(k as int + 1));
            }
            let ghost ids_pre = ids@.map_values(|i: datalog::ID| i@);
            let converted = self.ids[k].convert(symbols);
            ids.push(converted);
            proof {
                assert(ids@.map_values(|i: datalog::ID| i@) =~= ids_pre.push(converted@));
                let (i0, tm) = spec_atom_convert(av[k as int], old(symbols)@);
                let (rest, t2) = spec_atoms_convert(av.skip(k as int + 1), symbols@);
                assert(ids_pre + (seq![i0] + rest) =~= (ids_pre.push(i0)) + rest);
            }
            k += 1;
        }
        proof {
            assert(av.skip(self.ids.len() as int) =~= Seq::<AtomV>::empty());
            let (rest, t2) = spec_atoms_convert(av.skip(self.ids.len() as int), symbols@);
            assert(rest =~= Seq::<datalog::IDV>::empty());
            assert(ids@.map_values(|i: datalog::ID| i@) + rest =~= ids@.map_values(
                |i: datalog::ID| i@,
            ));
        }
        datalog::Predicate { name, ids }
    }

    /// A predicate from a name and a list of atoms.
    pub fn new(name: String, ids: &Vec<Atom>) -> (r: Predicate)
        ensures
            r@.name == name@,
            r@.ids.len() == ids@.len(),
            forall|j: int| 0 <= j < ids@.len() ==> r@.ids[j] == (#[trigger] ids@[j])@,
    {
        Predicate { name, ids: clone_atoms(ids) }
    }
}

/// A fact: a builder predicate asserted as ground truth.
#[derive(Debug)]
pub struct Fact(pub Predicate);

/// The mathematical value of a builder fact is its predicate's.
impl View for Fact {
    type V = PredicateV;

    open spec fn view(&self) -> PredicateV {
        self.0@
    }
}

impl Clone for Fact {
    fn clone(&self) -> (r: Self)
        ensures
            r@ == self@,
    {
        Fact(self.0.clone())
    }
}

/// The symbol-coded fact a builder fact converts to.
pub open spec fn spec_fact_convert(f: PredicateV, t: Seq<Seq<char>>) -> (
    datalog::PredicateV,
    Seq<Seq<char>>,
) {
    spec_pred_convert(f, t)
}

impl Fact {
    /// A fact from a name and a list of atoms.
    pub fn new(name: String, ids: &Vec<Atom>) -> (r: Fact)
        ensures
            r@.name == name@,
            r@.ids.len() == ids@.len(),
            forall|j: int| 0 <= j < ids@.len() ==> r@.ids[j] == (#[trigger] ids@[j])@,
    {
        Fact(Predicate::new(name, ids))
    }

    /// Converts the fact, interning its vocabulary.
    pub fn convert(&self, symbols: &mut SymbolTable) -> (r: datalog::Fact)
        ensures
            ({
                let (pv, t2) = spec_fact_convert(self@, old(symbols)@);
                r@ == pv && final(symbols)@ == t2
            }),
    {
        datalog::Fact { predicate: self.0.convert(symbols) }
    }
}

/// A rule: a head predicate, a body, and constraints already expressed over
/// the Datalog core's types.
#[derive(Debug)]
pub struct Rule(pub Predicate, pub Vec<Predicate>, pub Vec<datalog::Constraint>);

/// The mathematical value of a builder [`Rule`].
pub struct RuleBV {
    pub head: PredicateV,
    pub body: Seq<PredicateV>,
    pub constraints: Seq<datalog::ConstraintV>,
}

impl View for Rule {
    type V = RuleBV;

    open spec fn view(&self) -> RuleBV {
        RuleBV {
            head: self.0@,
            body: self.1@.map_values(|p: Predicate| p@),
            constraints: self.2@.map_values(|c: datalog::Constraint| c@),
        }
    }
}

impl Clone for Rule {
    fn clone(&self) -> (r: Self)
        ensures
            r@ == self@,
    {
        let mut body: Vec<Predicate> = Vec::new();
        let mut k: usize = 0;
        while k < self.1.len()
            invariant
                k <= self.1.len(),
                body@.len() == k as int,
                forall|j: int| 0 <= j < k ==> (#[trigger] body@[j])@ == self.1@[j]@,
            decreases self.1.len() - k,
        {
            body.push(self.1[k].clone());
            k += 1;
        }
        let mut constraints: Vec<datalog::Constraint> = Vec::new();
        let mut k2: usize = 0;
        while k2 < self.2.len()
            invariant
                k2 <= self.2.len(),
                constraints@.len() == k2 as int,
                forall|j: int| 0 <= j < k2 ==> (#[trigger] constraints@[j])@ == self.2@[j]@,
            decreases self.2.len() - k2,
        {
            constraints.push(self.2[k2].clone());
            k2 += 1;
        }
        let r = Rule(self.0.clone(), body, constraints);
        proof {
            assert(r@.body =~= self@.body);
            assert(r@.constraints =~= self@.constraints);
        }
        r
    }
}

/// Builder predicate lists convert left to right, threading the table.
pub open spec fn spec_preds_convert(ps: Seq<PredicateV>, t: Seq<Seq<char>>) -> (
    Seq<datalog::PredicateV>,
    Seq<Seq<char>>,
)
    decreases ps.len(),
{
    if ps.len() == 0 {
        (Seq::empty(), t)
    } else {
        let (p0, t1) = spec_pred_convert(ps[0], t);
        let (rest, t2) = spec_preds_convert(ps.skip(1), t1);
        (seq![p0] + rest, t2)
    }
}

/// The symbol-coded rule a builder rule converts to: head first, then the
/// body in order; the constraints carry over as they stand.
pub open spec fn spec_rule_convert(r: RuleBV, t: Seq<Seq<char>>) -> (
    datalog::RuleV,
    Seq<Seq<char>>,
) {
    let (head, t1) = spec_pred_convert(r.head, t);
    let (body, t2) = spec_preds_convert(r.body, t1);
    (datalog::RuleV { head, body, constraints: r.constraints }, t2)
}

impl Rule {
    /// Converts the rule, interning its vocabulary head first.
    pub fn convert(&self, symbols: &mut SymbolTable) -> (r: datalog::Rule)
        ensures
            ({
                let (rv, t2) = spec_rule_convert(self@, old(symbols)@);
                r@ == rv && final(symbols)@ == t2
            }),
    {
        let head = self.0.convert(symbols);
        let mut body: Vec<datalog::Predicate> = Vec::new();
        let ghost t1 = symbols@;
        let ghost bv = self@.body;
        proof {
            assert(bv.skip(0) =~= bv);
        }
        let mut k: usize = 0;
        while k < self.1.len()
            invariant
                k <= self.1.len(),
                bv == self@.body,
                bv.len() == self.1.len(),
                body@.len() == k as int,
                spec_preds_convert(bv, t1) == ({
                    let (rest, t2) = spec_preds_convert(bv.skip(k as int), symbols@);
                    (body@.map_values(|p: datalog::Predicate| p@) + rest, t2)
                }),
            decreases self.1.len() - k,
        {
            proof {
                assert(bv.skip(k as int)[0] == bv[k as int]);
                assert(bv.skip(k as int).skip(1) =~= bv.skip(k as int + 1));
            }
            let ghost body_pre = body@.map_values(|p: datalog::Predicate| p@);
            let converted = self.1[k].convert(symbols);
            body.push(converted);
            proof {
                assert(body@.map_values(|p: datalog::Predicate| p@) =~= body_pre.push(
                    converted@,
                ));
                let (p0, tm) = spec_pred_convert(bv[k as int], old(symbols)@);
                let (rest, t2) = spec_preds_convert(bv.skip(k as int + 1), symbols@);
                assert(body_pre + (seq![p0] + rest) =~= (body_pre.push(p0)) + rest);
            }
            k += 1;
        }
        proof {
            assert(bv.skip(self.1.len() as int) =~= Seq::<PredicateV>::empty());
            let (rest, t2) = spec_preds_convert(bv.skip(self.1.len() as int), symbols@);
            assert(rest =~= Seq::<datalog::PredicateV>::empty());
            assert(body@.map_values(|p: datalog::Predicate| p@) + rest =~= body@.map_values(
                |p: datalog::Predicate| p@,
            ));
        }
        let mut constraints: Vec<datalog::Constraint> = Vec::new();
        let mut k2: usize = 0;
        while k2 < self.2.len()
            invariant
                k2 <= self.2.len(),
                constraints@.len() == k2 as int,
                forall|j: int| 0 <= j < k2 ==> (#[trigger] constraints@[j])@ == self.2@[j]@,
            decreases self.2.len() - k2,
        {
            constraints.push(self.2[k2].clone());
            k2 += 1;
        }
        let r = datalog::Rule { head, body, constraints };
        proof {
            assert(r@.constraints =~= self@.constraints);
        }
        r
    }
}

// ---------------------------------------------------------------------------
// Free construction helpers
// ---------------------------------------------------------------------------

/// Creates a new fact.
pub fn fact(name: &str, ids: &Vec<Atom>) -> (r: Fact)
    ensures
        r@.name == name@,
        r@.ids.len() == ids@.len(),
        forall|j: int| 0 <= j < ids@.len() ==> r@.ids[j] == (#[trigger] ids@[j])@,
{
    Fact(pred(name, ids))
}

/// Creates a predicate.
pub fn pred(name: &str, ids: &Vec<Atom>) -> (r: Predicate)
    ensures
        r@.name == name@,
        r@.ids.len() == ids@.len(),
        forall|j: int| 0 <= j < ids@.len() ==> r@.ids[j] == (#[trigger] ids@[j])@,
{
    Predicate { name: name.to_owned(), ids: clone_atoms(ids) }
}

/// Creates a rule.
pub fn rule(head_name: &str, head_ids: &Vec<Atom>, predicates: &Vec<Predicate>) -> (r: Rule)
    ensures
        r@.head.name == head_name@,
        r@.head.ids.len() == head_ids@.len(),
        forall|j: int| 0 <= j < head_ids@.len() ==> r@.head.ids[j] == (#[trigger] head_ids@[j])@,
        r@.body.len() == predicates@.len(),
        forall|j: int| 0 <= j < predicates@.len() ==> r@.body[j] == (#[trigger] predicates@[j])@,
        r@.constraints.len() == 0,
{
    let mut body: Vec<Predicate> = Vec::new();
    let mut k: usize = 0;
    while k < predicates.len()
        invariant
            k <= predicates.len(),
            body@.len() == k as int,
            forall|j: int| 0 <= j < k ==> (#[trigger] body@[j])@ == predicates@[j]@,
        decreases predicates.len() - k,
    {
        body.push(predicates[k].clone());
        k += 1;
    }
    Rule(pred(head_name, head_ids), body, Vec::new())
}

/// Creates a rule with constraints.
pub fn constrained_rule(
    head_name: &str,
    head_ids: &Vec<Atom>,
    predicates: &Vec<Predicate>,
    constraints: &Vec<datalog::Constraint>,
) -> (r: Rule)
    ensures
        r@.head.name == head_name@,
        r@.head.ids.len() == head_ids@.len(),
        forall|j: int| 0 <= j < head_ids@.len() ==> r@.head.ids[j] == (#[trigger] head_ids@[j])@,
        r@.body.len() == predicates@.len(),
        forall|j: int| 0 <= j < predicates@.len() ==> r@.body[j] == (#[trigger] predicates@[j])@,
        r@.constraints.len() == constraints@.len(),
        forall|j: int|
            0 <= j < constraints@.len() ==> r@.constraints[j] == (#[trigger] constraints@[j])@,
{
    let mut body: Vec<Predicate> = Vec::new();
    let mut k: usize = 0;
    while k < predicates.len()
        invariant
            k <= predicates.len(),
            body@.len() == k as int,
            forall|j: int| 0 <= j < k ==> (#[trigger] body@[j])@ == predicates@[j]@,
        decreases predicates.len() - k,
    {
        body.push(predicates[k].clone());
        k += 1;
    }
    let mut cs: Vec<datalog::Constraint> = Vec::new();
    let mut k2: usize = 0;
    while k2 < constraints.len()
        invariant
            k2 <= constraints.len(),
            cs@.len() == k2 as int,
            forall|j: int| 0 <= j < k2 ==> (#[trigger] cs@[j])@ == constraints@[j]@,
        decreases constraints.len() - k2,
    {
        cs.push(constraints[k2].clone());
        k2 += 1;
    }
    Rule(pred(head_name, head_ids), body, cs)
}

/// Creates an integer value.
pub fn integer(i: i64) -> (r: Atom)
    ensures
        r@ == AtomV::Integer(i),
{
    Atom::Integer(i)
}

/// Creates a string.
pub fn string(text: &str) -> (r: Atom)
    ensures
        r@ == AtomV::Str(text@),
{
    Atom::Str(text.to_owned())
}

/// Creates a symbol; it is interned when the block is assembled.
pub fn s(name: &str) -> (r: Atom)
    ensures
        r@ == AtomV::Symbol(name@),
{
    Atom::Symbol(name.to_owned())
}

/// Creates a symbol; it is interned when the block is assembled.
pub fn symbol(name: &str) -> (r: Atom)
    ensures
        r@ == AtomV::Symbol(name@),
{
    Atom::Symbol(name.to_owned())
}

/// Creates a date from seconds since the epoch.
pub fn date(t: u64) -> (r: Atom)
    ensures
        r@ == AtomV::Date(t),
{
    Atom::Date(t)
}

/// Creates a variable for a rule.
pub fn var(i: u32) -> (r: Atom)
    ensures
        r@ == AtomV::Variable(i),
{
    Atom::Variable(i)
}

/// Creates a variable for a rule.
pub fn variable(i: u32) -> (r: Atom)
    ensures
        r@ == AtomV::Variable(i),
{
    Atom::Variable(i)
}

// ---------------------------------------------------------------------------
// Block builder
// ---------------------------------------------------------------------------

/// Assembles one block: it starts from the cumulative symbol table seen so
/// far and collects facts, rules and caveats, interning their vocabulary.
#[derive(Debug)]
pub struct BlockBuilder {
    pub index: u32,
    pub symbols_start: usize,
    pub symbols: SymbolTable,
    pub facts: Vec<datalog::Fact>,
    pub rules: Vec<datalog::Rule>,
    pub caveats: Vec<datalog::Rule>,
}

/// The caveat `check_right` builds: the named right must be granted by the
/// authority for the ambient resource, and be the ambient operation.
pub open spec fn check_right_rule(right: Seq<char>) -> RuleBV {
    RuleBV {
        head: PredicateV { name: "check_right"@, ids: seq![AtomV::Symbol(right)] },
        body: seq![
            PredicateV {
                name: "resource"@,
                ids: seq![AtomV::Symbol("ambient"@), AtomV::Variable(0)],
            },
            PredicateV {
                name: "operation"@,
                ids: seq![AtomV::Symbol("ambient"@), AtomV::Symbol(right)],
            },
            PredicateV {
                name: "right"@,
                ids: seq![AtomV::Symbol("authority"@), AtomV::Variable(0), AtomV::Symbol(right)],
            },
        ],
        constraints: Seq::empty(),
    }
}

/// The caveat `check_resource` builds: the ambient resource must equal the
/// given string.
pub open spec fn check_resource_rule(resource: Seq<char>) -> RuleBV {
    RuleBV {
        head: PredicateV { name: "resource_check"@, ids: seq![AtomV::Symbol("resource_check"@)] },
        body: seq![
            PredicateV { name: "resource"@, ids: seq![AtomV::Symbol("ambient"@), AtomV::Str(resource)] },
        ],
        constraints: Seq::empty(),
    }
}

/// The caveat `check_operation` builds: the ambient operation must equal
/// the given symbol.
pub open spec fn check_operation_rule(operation: Seq<char>) -> RuleBV {
    RuleBV {
        head: PredicateV {
            name: "operation_check"@,
            ids: seq![AtomV::Symbol("operation_check"@)],
        },
        body: seq![
            PredicateV {
                name: "operation"@,
                ids: seq![AtomV::Symbol("ambient"@), AtomV::Symbol(operation)],
            },
        ],
        constraints: Seq::empty(),
    }
}

/// The caveat `resource_prefix` builds: the ambient resource must start
/// with the given prefix.
pub open spec fn resource_prefix_rule(prefix: Seq<char>) -> RuleBV {
    RuleBV {
        head: PredicateV { name: "prefix"@, ids: seq![AtomV::Variable(0)] },
        body: seq![
            PredicateV { name: "resource"@, ids: seq![AtomV::Symbol("ambient"@), AtomV::Variable(0)] },
        ],
        constraints: seq![
            datalog::ConstraintV {
                id: 0,
                kind: datalog::ConstraintKindV::Str(datalog::StrConstraintV::Prefix(prefix)),
            },
        ],
    }
}

/// The caveat `resource_suffix` builds: the ambient resource must end with
/// the given suffix.
pub open spec fn resource_suffix_rule(suffix: Seq<char>) -> RuleBV {
    RuleBV {
        head: PredicateV { name: "suffix"@, ids: seq![AtomV::Variable(0)] },
        body: seq![
            PredicateV { name: "resource"@, ids: seq![AtomV::Symbol("ambient"@), AtomV::Variable(0)] },
        ],
        constraints: seq![
            datalog::ConstraintV {
                id: 0,
                kind: datalog::ConstraintKindV::Str(datalog::StrConstraintV::Suffix(suffix)),
            },
        ],
    }
}

/// The caveat `expiration_date` builds: the ambient time must not lie
/// after the given timestamp.
pub open spec fn expiration_date_rule(date: u64) -> RuleBV {
    RuleBV {
        head: PredicateV { name: "expiration"@, ids: seq![AtomV::Variable(0)] },
        body: seq![
            PredicateV { name: "time"@, ids: seq![AtomV::Symbol("ambient"@), AtomV::Variable(0)] },
        ],
        constraints: seq![
            datalog::ConstraintV {
                id: 0,
                kind: datalog::ConstraintKindV::Date(datalog::DateConstraint::Before(date)),
            },
        ],
    }
}

/// The fact `revocation_id` builds.
pub open spec fn revocation_id_fact(id: i64) -> PredicateV {
    PredicateV { name: "revocation_id"@, ids: seq![AtomV::Integer(id)] }
}

/// What a builder mutation leaves untouched.
pub open spec fn builder_frame(b1: BlockBuilder, b2: BlockBuilder) -> bool {
    b2.index == b1.index && b2.symbols_start == b1.symbols_start
}

impl BlockBuilder {
    /// A builder for the block at `index`, starting its symbol slice after
    /// the cumulative table it was given.
    pub fn new(index: u32, base_symbols: SymbolTable) -> (r: BlockBuilder)
        ensures
            r.index == index,
            r.symbols_start == base_symbols@.len(),
            r.symbols@ == base_symbols@,
            r.facts@.len() == 0,
            r.rules@.len() == 0,
            r.caveats@.len() == 0,
    {
        let symbols_start = base_symbols.symbols.len();
        BlockBuilder {
            index,
            symbols_start,
            symbols: base_symbols,
            facts: Vec::new(),
            rules: Vec::new(),
            caveats: Vec::new(),
        }
    }

    /// Converts and records a fact.
    pub fn add_fact(&mut self, fact: &Fact)
        ensures
            ({
                let (fv, t2) = spec_fact_convert(fact@, old(self).symbols@);
                final(self).symbols@ == t2 && final(self).facts@.map_values(
                    |f: datalog::Fact| f@,
                ) == old(self).facts@.map_values(|f: datalog::Fact| f@).push(fv) && final(self).rules@ == old(self).rules@ && final(self).caveats@ == old(self).caveats@
                    && builder_frame(*old(self), *final(self))
            }),
    {
        let f = fact.convert(&mut self.symbols);
        let ghost pre = self.facts@.map_values(|f: datalog::Fact| f@);
        let ghost fv = f@;
        self.facts.push(f);
        proof {
            assert(self.facts@.map_values(|f: datalog::Fact| f@) =~= pre.push(fv));
        }
    }

    /// Converts and records a rule.
    pub fn add_rule(&mut self, rule: &Rule)
        ensures
            ({
                let (rv, t2) = spec_rule_convert(rule@, old(self).symbols@);
                final(self).symbols@ == t2 && final(self).rules@.map_values(
                    |r: datalog::Rule| r@,
                ) == old(self).rules@.map_values(|r: datalog::Rule| r@).push(rv) && final(self).facts@ == old(self).facts@ && final(self).caveats@ == old(self).caveats@
                    && builder_frame(*old(self), *final(self))
            }),
    {
        let c = rule.convert(&mut self.symbols);
        let ghost pre = self.rules@.map_values(|r: datalog::Rule| r@);
        let ghost rv = c@;
        self.rules.push(c);
        proof {
            assert(self.rules@.map_values(|r: datalog::Rule| r@) =~= pre.push(rv));
        }
    }

    /// Converts and records a caveat.
    pub fn add_caveat(&mut self, caveat: &Rule)
        ensures
            ({
                let (rv, t2) = spec_rule_convert(caveat@, old(self).symbols@);
                final(self).symbols@ == t2 && final(self).caveats@.map_values(
                    |r: datalog::Rule| r@,
                ) == old(self).caveats@.map_values(|r: datalog::Rule| r@).push(rv) && final(self).facts@ == old(self).facts@ && final(self).rules@ == old(self).rules@
                    && builder_frame(*old(self), *final(self))
            }),
    {
        let c = caveat.convert(&mut self.symbols);
        let ghost pre = self.caveats@.map_values(|r: datalog::Rule| r@);
        let ghost rv = c@;
        self.caveats.push(c);
        proof {
            assert(self.caveats@.map_values(|r: datalog::Rule| r@) =~= pre.push(rv));
        }
    }

    /// Finalizes the block: it keeps only the symbols introduced at or
    /// after its starting offset.
    pub fn build(self) -> (r: crate::token::Block)
        requires
            self.symbols_start <= self.symbols@.len(),
        ensures
            r@.index == self.index,
            r@.symbols_start == self.symbols_start,
            r@.symbols == self.symbols@.skip(self.symbols_start as int),
            r@.facts == self.facts@.map_values(|f: datalog::Fact| f@),
            r@.rules == self.rules@.map_values(|x: datalog::Rule| x@),
            r@.caveats == self.caveats@.map_values(|x: datalog::Rule| x@),
    {
        let mut symbols = self.symbols;
        let new_syms = symbols.symbols.split_off(self.symbols_start);
        let r = crate::token::Block {
            index: self.index,
            symbols_start: self.symbols_start,
            symbols: SymbolTable { symbols: new_syms },
            facts: self.facts,
            rules: self.rules,
            caveats: self.caveats,
        };
        proof {
            assert(r@.symbols =~= self.symbols@.skip(self.symbols_start as int));
        }
        r
    }

    /// Adds the caveat that the named right is granted for the ambient
    /// resource and matches the ambient operation.
    pub fn check_right(&mut self, right: &str)
        ensures
            ({
                let (rv, t2) = spec_rule_convert(check_right_rule(right@), old(self).symbols@);
                final(self).symbols@ == t2 && final(self).caveats@.map_values(
                    |r: datalog::Rule| r@,
                ) == old(self).caveats@.map_values(|r: datalog::Rule| r@).push(rv) && final(self).facts@ == old(self).facts@ && final(self).rules@ == old(self).rules@
                    && builder_frame(*old(self), *final(self))
            }),
    {
        let mut head_ids: Vec<Atom> = Vec::new();
        head_ids.push(s(right));
        let mut ids0: Vec<Atom> = Vec::new();
        ids0.push(s("ambient"));
        ids0.push(var(0));
        let mut ids1: Vec<Atom> = Vec::new();
        ids1.push(s("ambient"));
        ids1.push(s(right));
        let mut ids2: Vec<Atom> = Vec::new();
        ids2.push(s("authority"));
        ids2.push(var(0));
        ids2.push(s(right));
        let mut body: Vec<Predicate> = Vec::new();
        body.push(pred("resource", &ids0));
        body.push(pred("operation", &ids1));
        body.push(pred("right", &ids2));
        let caveat = rule("check_right", &head_ids, &body);
        proof {
            let want = check_right_rule(right@);
            assert(head_ids@[0]@ == AtomV::Symbol(right@));
            assert(caveat@.head.ids[0] == head_ids@[0]@);
            assert(ids0@[0]@ == AtomV::Symbol("ambient"@));
            assert(ids0@[1]@ == AtomV::Variable(0));
            assert(ids1@[0]@ == AtomV::Symbol("ambient"@));
            assert(ids1@[1]@ == AtomV::Symbol(right@));
            assert(ids2@[0]@ == AtomV::Symbol("authority"@));
            assert(ids2@[1]@ == AtomV::Variable(0));
            assert(ids2@[2]@ == AtomV::Symbol(right@));
            assert(body@[0]@.ids =~= want.body[0].ids);
            assert(body@[1]@.ids =~= want.body[1].ids);
            assert(body@[2]@.ids =~= want.body[2].ids);
            assert(caveat@.body[0] == body@[0]@);
            assert(caveat@.body[1] == body@[1]@);
            assert(caveat@.body[2] == body@[2]@);
            assert(caveat@.head.ids =~= want.head.ids);
            assert(caveat@.body =~= want.body);
            assert(caveat@.constraints =~= want.constraints);
            assert(caveat@ == want);
        }
        self.add_caveat(&caveat);
    }

    /// Adds the caveat that the ambient resource equals `resource`.
    pub fn check_resource(&mut self, resource: &str)
        ensures
            ({
                let (rv, t2) = spec_rule_convert(
                    check_resource_rule(resource@),
                    old(self).symbols@,
                );
                final(self).symbols@ == t2 && final(self).caveats@.map_values(
                    |r: datalog::Rule| r@,
                ) == old(self).caveats@.map_values(|r: datalog::Rule| r@).push(rv) && final(self).facts@ == old(self).facts@ && final(self).rules@ == old(self).rules@
                    && builder_frame(*old(self), *final(self))
            }),
    {
        let mut head_ids: Vec<Atom> = Vec::new();
        head_ids.push(s("resource_check"));
        let mut ids0: Vec<Atom> = Vec::new();
        ids0.push(s("ambient"));
        ids0.push(string(resource));
        let mut body: Vec<Predicate> = Vec::new();
        body.push(pred("resource", &ids0));
        let caveat = rule("resource_check", &head_ids, &body);
        proof {
            let want = check_resource_rule(resource@);
            assert(head_ids@.len() == 1);
            assert(head_ids@[0]@ == AtomV::Symbol("resource_check"@));
            assert(caveat@.head.ids[0] == head_ids@[0]@);
            assert(ids0@[0]@ == AtomV::Symbol("ambient"@));
            assert(ids0@[1]@ == AtomV::Str(resource@));
            assert(body@[0]@.ids =~= want.body[0].ids);
            assert(caveat@.body[0] == body@[0]@);
            assert(caveat@.head.ids =~= want.head.ids);
            assert(caveat@.body[0].ids =~= want.body[0].ids);
            assert(caveat@.body =~= want.body);
            assert(caveat@.constraints =~= want.constraints);
            assert(caveat@ == want);
        }
        self.add_caveat(&caveat);
    }

    /// Adds the caveat that the ambient operation equals `operation`.
    pub fn check_operation(&mut self, operation: &str)
        ensures
            ({
                let (rv, t2) = spec_rule_convert(
                    check_operation_rule(operation@),
                    old(self).symbols@,
                );
                final(self).symbols@ == t2 && final(self).caveats@.map_values(
                    |r: datalog::Rule| r@,
                ) == old(self).caveats@.map_values(|r: datalog::Rule| r@).push(rv) && final(self).facts@ == old(self).facts@ && final(self).rules@ == old(self).rules@
                    && builder_frame(*old(self), *final(self))
            }),
    {
        let mut head_ids: Vec<Atom> = Vec::new();
        head_ids.push(s("operation_check"));
        let mut ids0: Vec<Atom> = Vec::new();
        ids0.push(s("ambient"));
        ids0.push(s(operation));
        let mut body: Vec<Predicate> = Vec::new();
        body.push(pred("operation", &ids0));
        let caveat = rule("operation_check", &head_ids, &body);
        proof {
            let want = check_operation_rule(operation@);
            assert(head_ids@[0]@ == AtomV::Symbol("operation_check"@));
            assert(caveat@.head.ids[0] == head_ids@[0]@);
            assert(ids0@[0]@ == AtomV::Symbol("ambient"@));
            assert(ids0@[1]@ == AtomV::Symbol(operation@));
            assert(body@[0]@.ids =~= want.body[0].ids);
            assert(caveat@.body[0] == body@[0]@);
            assert(caveat@.head.ids =~= want.head.ids);
            assert(caveat@.body =~= want.body);
            assert(caveat@.constraints =~= want.constraints);
            assert(caveat@ == want);
        }
        self.add_caveat(&caveat);
    }

    /// Adds the caveat that the ambient resource starts with `prefix`.
    pub fn resource_prefix(&mut self, prefix: &str)
        ensures
            ({
                let (rv, t2) = spec_rule_convert(
                    resource_prefix_rule(prefix@),
                    old(self).symbols@,
                );
                final(self).symbols@ == t2 && final(self).caveats@.map_values(
                    |r: datalog::Rule| r@,
                ) == old(self).caveats@.map_values(|r: datalog::Rule| r@).push(rv) && final(self).facts@ == old(self).facts@ && final(self).rules@ == old(self).rules@
                    && builder_frame(*old(self), *final(self))
            }),
    {
        let mut head_ids: Vec<Atom> = Vec::new();
        head_ids.push(var(0));
        let mut ids0: Vec<Atom> = Vec::new();
        ids0.push(s("ambient"));
        ids0.push(var(0));
        let mut body: Vec<Predicate> = Vec::new();
        body.push(pred("resource", &ids0));
        let mut constraints: Vec<datalog::Constraint> = Vec::new();
        constraints.push(
            datalog::Constraint {
                id: 0,
                kind: datalog::ConstraintKind::Str(
                    datalog::StrConstraint::Prefix(prefix.to_owned()),
                ),
            },
        );
        let caveat = constrained_rule("prefix", &head_ids, &body, &constraints);
        proof {
            let want = resource_prefix_rule(prefix@);
            assert(head_ids@[0]@ == AtomV::Variable(0));
            assert(caveat@.head.ids[0] == head_ids@[0]@);
            assert(ids0@[0]@ == AtomV::Symbol("ambient"@));
            assert(ids0@[1]@ == AtomV::Variable(0));
            assert(body@[0]@.ids =~= want.body[0].ids);
            assert(caveat@.body[0] == body@[0]@);
            assert(constraints@[0]@ == want.constraints[0]);
            assert(caveat@.constraints[0] == constraints@[0]@);
            assert(caveat@.head.ids =~= want.head.ids);
            assert(caveat@.body =~= want.body);
            assert(caveat@.constraints =~= want.constraints);
            assert(caveat@ == want);
        }
        self.add_caveat(&caveat);
    }

    /// Adds the caveat that the ambient resource ends with `suffix`.
    pub fn resource_suffix(&mut self, suffix: &str)
        ensures
            ({
                let (rv, t2) = spec_rule_convert(
                    resource_suffix_rule(suffix@),
                    old(self).symbols@,
                );
                final(self).symbols@ == t2 && final(self).caveats@.map_values(
                    |r: datalog::Rule| r@,
                ) == old(self).caveats@.map_values(|r: datalog::Rule| r@).push(rv) && final(self).facts@ == old(self).facts@ && final(self).rules@ == old(self).rules@
                    && builder_frame(*old(self), *final(self))
            }),
    {
        let mut head_ids: Vec<Atom> = Vec::new();
        head_ids.push(var(0));
        let mut ids0: Vec<Atom> = Vec::new();
        ids0.push(s("ambient"));
        ids0.push(var(0));
        let mut body: Vec<Predicate> = Vec::new();
        body.push(pred("resource", &ids0));
        let mut constraints: Vec<datalog::Constraint> = Vec::new();
        constraints.push(
            datalog::Constraint {
                id: 0,
                kind: datalog::ConstraintKind::Str(
                    datalog::StrConstraint::Suffix(suffix.to_owned()),
                ),
            },
        );
        let caveat = constrained_rule("suffix", &head_ids, &body, &constraints);
        proof {
            let want = resource_suffix_rule(suffix@);
            assert(head_ids@[0]@ == AtomV::Variable(0));
            assert(caveat@.head.ids[0] == head_ids@[0]@);
            assert(ids0@[0]@ == AtomV::Symbol("ambient"@));
            assert(ids0@[1]@ == AtomV::Variable(0));
            assert(body@[0]@.ids =~= want.body[0].ids);
            assert(caveat@.body[0] == body@[0]@);
            assert(constraints@[0]@ == want.constraints[0]);
            assert(caveat@.constraints[0] == constraints@[0]@);
            assert(caveat@.head.ids =~= want.head.ids);
            assert(caveat@.body =~= want.body);
            assert(caveat@.constraints =~= want.constraints);
            assert(caveat@ == want);
        }
        self.add_caveat(&caveat);
    }

    /// Adds the caveat that the ambient time does not lie after `date`,
    /// given as seconds since the epoch.
    pub fn expiration_date(&mut self, date: u64)
        ensures
            ({
                let (rv, t2) = spec_rule_convert(expiration_date_rule(date), old(self).symbols@);
                final(self).symbols@ == t2 && final(self).caveats@.map_values(
                    |r: datalog::Rule| r@,
                ) == old(self).caveats@.map_values(|r: datalog::Rule| r@).push(rv) && final(self).facts@ == old(self).facts@ && final(self).rules@ == old(self).rules@
                    && builder_frame(*old(self), *final(self))
            }),
    {
        let mut head_ids: Vec<Atom> = Vec::new();
        head_ids.push(var(0));
        let mut ids0: Vec<Atom> = Vec::new();
        ids0.push(s("ambient"));
        ids0.push(var(0));
        let mut body: Vec<Predicate> = Vec::new();
        body.push(pred("time", &ids0));
        let mut constraints: Vec<datalog::Constraint> = Vec::new();
        constraints.push(
            datalog::Constraint {
                id: 0,
                kind: datalog::ConstraintKind::Date(datalog::DateConstraint::Before(date)),
            },
        );
        let caveat = constrained_rule("expiration", &head_ids, &body, &constraints);
        proof {
            let want = expiration_date_rule(date);
            assert(head_ids@[0]@ == AtomV::Variable(0));
            assert(caveat@.head.ids[0] == head_ids@[0]@);
            assert(ids0@[0]@ == AtomV::Symbol("ambient"@));
            assert(ids0@[1]@ == AtomV::Variable(0));
            assert(body@[0]@.ids =~= want.body[0].ids);
            assert(caveat@.body[0] == body@[0]@);
            assert(constraints@[0]@ == want.constraints[0]);
            assert(caveat@.constraints[0] == constraints@[0]@);
            assert(caveat@.head.ids =~= want.head.ids);
            assert(caveat@.body =~= want.body);
            assert(caveat@.constraints =~= want.constraints);
            assert(caveat@ == want);
        }
        self.add_caveat(&caveat);
    }

    /// Records a revocation identifier fact that external logic can check
    /// against a revocation store.
    pub fn revocation_id(&mut self, id: i64)
        ensures
            ({
                let (fv, t2) = spec_fact_convert(revocation_id_fact(id), old(self).symbols@);
                final(self).symbols@ == t2 && final(self).facts@.map_values(
                    |f: datalog::Fact| f@,
                ) == old(self).facts@.map_values(|f: datalog::Fact| f@).push(fv) && final(self).rules@ == old(self).rules@ && final(self).caveats@ == old(self).caveats@
                    && builder_frame(*old(self), *final(self))
            }),
    {
        let mut ids: Vec<Atom> = Vec::new();
        ids.push(integer(id));
        let f = fact("revocation_id", &ids);
        proof {
            let want = revocation_id_fact(id);
            assert(ids@[0]@ == AtomV::Integer(id));
            assert(f@.ids[0] == ids@[0]@);
            assert(f@.ids =~= want.ids);
            assert(f@ == want);
        }
        self.add_fact(&f);
    }
}

// ---------------------------------------------------------------------------
// Biscuit builder
// ---------------------------------------------------------------------------

/// Assembles the authority block and creates the token with the root key
/// pair.
pub struct BiscuitBuilder {
    pub root: crate::crypto::KeyPair,
    pub symbols_start: usize,
    pub symbols: SymbolTable,
    pub facts: Vec<datalog::Fact>,
    pub rules: Vec<datalog::Rule>,
    pub caveats: Vec<datalog::Rule>,
}

/// A predicate with the `authority` symbol forced into its first position,
/// as authority facts and rule heads carry it.
pub open spec fn with_authority(p: PredicateV) -> PredicateV {
    if p.ids.len() == 0 || p.ids[0] != AtomV::Symbol("authority"@) {
        PredicateV { name: p.name, ids: seq![AtomV::Symbol("authority"@)] + p.ids }
    } else {
        p
    }
}

/// Whether an atom is the `authority` symbol.
fn is_authority_atom(a: &Atom) -> (r: bool)
    ensures
        r == (a@ == AtomV::Symbol("authority"@)),
{
    match a {
        Atom::Symbol(sym) => {
            let lit: String = "authority".to_owned();
            sym.eq(&lit)
        },
        _ => false,
    }
}

/// Forces the `authority` symbol into a predicate's first position.
fn make_authority(p: &Predicate) -> (r: Predicate)
    ensures
        r@ == with_authority(p@),
{
    let mut r = p.clone();
    if r.ids.len() == 0 || !is_authority_atom(&r.ids[0]) {
        let ghost pre = r@.ids;
        r.ids.insert(0, s("authority"));
        proof {
            assert(r@.ids =~= seq![AtomV::Symbol("authority"@)] + pre);
        }
    }
    r
}

impl BiscuitBuilder {
    /// A builder for the authority block, holding the root key pair it will
    /// sign with.
    pub fn new(root: &crate::crypto::KeyPair, base_symbols: SymbolTable) -> (r: BiscuitBuilder)
        requires
            root.wf(),
        ensures
            r.root.wf(),
            r.root.seed@ == root.seed@,
            r.symbols_start == base_symbols@.len(),
            r.symbols@ == base_symbols@,
            r.facts@.len() == 0,
            r.rules@.len() == 0,
            r.caveats@.len() == 0,
    {
        let symbols_start = base_symbols.symbols.len();
        BiscuitBuilder {
            root: root.clone(),
            symbols_start,
            symbols: base_symbols,
            facts: Vec::new(),
            rules: Vec::new(),
            caveats: Vec::new(),
        }
    }

    /// Converts and records a fact, forcing the `authority` symbol into its
    /// first position.
    pub fn add_authority_fact(&mut self, fact: &Fact)
        ensures
            ({
                let (fv, t2) = spec_fact_convert(with_authority(fact@), old(self).symbols@);
                final(self).symbols@ == t2 && final(self).facts@.map_values(
                    |f: datalog::Fact| f@,
                ) == old(self).facts@.map_values(|f: datalog::Fact| f@).push(fv) && final(self).rules@ == old(self).rules@ && final(self).caveats@ == old(self).caveats@
                    && final(self).symbols_start == old(self).symbols_start && final(self).root
                    == old(self).root
            }),
    {
        let p = make_authority(&fact.0);
        let f = p.convert(&mut self.symbols);
        let ghost pre = self.facts@.map_values(|f: datalog::Fact| f@);
        let ghost fv = f@;
        self.facts.push(datalog::Fact { predicate: f });
        proof {
            assert(self.facts@.map_values(|f: datalog::Fact| f@) =~= pre.push(fv));
        }
    }

    /// Converts and records a rule, forcing the `authority` symbol into its
    /// head's first position.
    pub fn add_authority_rule(&mut self, rule: &Rule)
        ensures
            ({
                let amended = RuleBV {
                    head: with_authority(rule@.head),
                    body: rule@.body,
                    constraints: rule@.constraints,
                };
                let (rv, t2) = spec_rule_convert(amended, old(self).symbols@);
                final(self).symbols@ == t2 && final(self).rules@.map_values(
                    |r: datalog::Rule| r@,
                ) == old(self).rules@.map_values(|r: datalog::Rule| r@).push(rv) && final(self).facts@ == old(self).facts@ && final(self).caveats@ == old(self).caveats@
                    && final(self).symbols_start == old(self).symbols_start && final(self).root
                    == old(self).root
            }),
    {
        let head = make_authority(&rule.0);
        let amended = Rule(head, clone_preds(&rule.1), clone_constraint_vec(&rule.2));
        proof {
            assert(amended@.body =~= rule@.body);
            assert(amended@.constraints =~= rule@.constraints);
        }
        let r = amended.convert(&mut self.symbols);
        let ghost pre = self.rules@.map_values(|r: datalog::Rule| r@);
        let ghost rv = r@;
        self.rules.push(r);
        proof {
            assert(self.rules@.map_values(|r: datalog::Rule| r@) =~= pre.push(rv));
        }
    }

    /// Converts and records a caveat of the authority block.
    pub fn add_authority_caveat(&mut self, caveat: &Rule)
        ensures
            ({
                let (rv, t2) = spec_rule_convert(caveat@, old(self).symbols@);
                final(self).symbols@ == t2 && final(self).caveats@.map_values(
                    |r: datalog::Rule| r@,
                ) == old(self).caveats@.map_values(|r: datalog::Rule| r@).push(rv) && final(self).facts@ == old(self).facts@ && final(self).rules@ == old(self).rules@
                    && final(self).symbols_start == old(self).symbols_start && final(self).root
                    == old(self).root
            }),
    {
        let r = caveat.convert(&mut self.symbols);
        let ghost pre = self.caveats@.map_values(|r: datalog::Rule| r@);
        let ghost rv = r@;
        self.caveats.push(r);
        proof {
            assert(self.caveats@.map_values(|r: datalog::Rule| r@) =~= pre.push(rv));
        }
    }

    /// Records that `right` is granted on `resource` by the authority.
    pub fn add_right(&mut self, resource: &str, right: &str)
        ensures
            ({
                let want = PredicateV {
                    name: "right"@,
                    ids: seq![
                        AtomV::Symbol("authority"@),
                        AtomV::Str(resource@),
                        AtomV::Symbol(right@),
                    ],
                };
                let (fv, t2) = spec_fact_convert(want, old(self).symbols@);
                final(self).symbols@ == t2 && final(self).facts@.map_values(
                    |f: datalog::Fact| f@,
                ) == old(self).facts@.map_values(|f: datalog::Fact| f@).push(fv) && final(self).rules@ == old(self).rules@ && final(self).caveats@ == old(self).caveats@
                    && final(self).symbols_start == old(self).symbols_start && final(self).root
                    == old(self).root
            }),
    {
        let mut ids: Vec<Atom> = Vec::new();
        ids.push(s("authority"));
        ids.push(string(resource));
        ids.push(s(right));
        let f = fact("right", &ids);
        proof {
            let want = PredicateV {
                name: "right"@,
                ids: seq![
                    AtomV::Symbol("authority"@),
                    AtomV::Str(resource@),
                    AtomV::Symbol(right@),
                ],
            };
            assert(ids@[0]@ == AtomV::Symbol("authority"@));
            assert(ids@[1]@ == AtomV::Str(resource@));
            assert(ids@[2]@ == AtomV::Symbol(right@));
            assert(f@.ids[0] == ids@[0]@);
            assert(f@.ids[1] == ids@[1]@);
            assert(f@.ids[2] == ids@[2]@);
            assert(f@.ids =~= want.ids);
            assert(f@ == want);
            assert(with_authority(f@) == f@);
        }
        self.add_authority_fact(&f);
    }

    /// Finalizes the authority block and creates the signed token.
    pub fn build(self) -> (r: Result<crate::token::Biscuit, crate::error::Error>)
        requires
            self.root.wf(),
            self.symbols_start <= self.symbols@.len(),
        ensures
            ({
                let av = crate::token::BlockV {
                    index: 0,
                    symbols_start: self.symbols_start as int,
                    symbols: self.symbols@.skip(self.symbols_start as int),
                    facts: self.facts@.map_values(|f: datalog::Fact| f@),
                    rules: self.rules@.map_values(|x: datalog::Rule| x@),
                    caveats: self.caveats@.map_values(|x: datalog::Rule| x@),
                };
                match r {
                    Ok(t) => self.symbols_start == crate::token::default_symbols().len()
                        && t@.blocks.len() == 1 && t@.blocks[0].block == av && chain_valid_for(
                        t@,
                        self.root.seed@,
                    ),
                    Err(e) => e == crate::error::Error::BlockOffsetMismatch
                        && self.symbols_start != crate::token::default_symbols().len(),
                }
            }),
    {
        let mut symbols = self.symbols;
        let new_syms = symbols.symbols.split_off(self.symbols_start);
        let authority_block = crate::token::Block {
            index: 0,
            symbols_start: self.symbols_start,
            symbols: SymbolTable { symbols: new_syms },
            facts: self.facts,
            rules: self.rules,
            caveats: self.caveats,
        };
        proof {
            assert(authority_block@.symbols =~= self.symbols@.skip(self.symbols_start as int));
        }
        crate::token::Biscuit::new(&self.root, authority_block)
    }
}

/// Whether a token's chain is valid for the public key of `seed`.
pub open spec fn chain_valid_for(t: crate::token::BiscuitV, seed: Seq<u8>) -> bool {
    crate::token::chain_valid(t.blocks, crate::crypto::pk_of(seed))
}

/// Copies a vector of builder predicates.
fn clone_preds(v: &Vec<Predicate>) -> (r: Vec<Predicate>)
    ensures
        r@.len() == v@.len(),
        forall|j: int| 0 <= j < v@.len() ==> (#[trigger] r@[j])@ == v@[j]@,
{
    let mut r: Vec<Predicate> = Vec::new();
    let mut k: usize = 0;
    while k < v.len()
        invariant
            k <= v.len(),
            r@.len() == k as int,
            forall|j: int| 0 <= j < k ==> (#[trigger] r@[j])@ == v@[j]@,
        decreases v.len() - k,
    {
        r.push(v[k].clone());
        k += 1;
    }
    r
}

/// Copies a vector of constraints.
fn clone_constraint_vec(v: &Vec<datalog::Constraint>) -> (r: Vec<datalog::Constraint>)
    ensures
        r@.len() == v@.len(),
        forall|j: int| 0 <= j < v@.len() ==> (#[trigger] r@[j])@ == v@[j]@,
{
    let mut r: Vec<datalog::Constraint> = Vec::new();
    let mut k: usize = 0;
    while k < v.len()
        invariant
            k <= v.len(),
            r@.len() == k as int,
            forall|j: int| 0 <= j < k ==> (#[trigger] r@[j])@ == v@[j]@,
        decreases v.len() - k,
    {
        r.push(v[k].clone());
        k += 1;
    }
    r
}

} // verus!
