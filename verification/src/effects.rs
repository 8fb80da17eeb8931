use vstd::prelude::*;

verus! {

/// A step of a checked program, reduced to what operator checking reads:
/// operations with their operands, array literals, and every other effect as
/// an opaque handle that the caller keeps.
#[derive(Debug, PartialEq, Eq)]
pub enum Effects {
    /// The effect that does nothing.
    NOP,
    /// Any other effect, carried through by a handle of the caller's choosing.
    Other(u64),
    /// An operation, named by its pattern (UTF-8 bytes, such as `{}+{}`),
    /// applied to its operands.
    Operation(Vec<u8>, Vec<Effects>),
    /// An array literal.
    CreateArray(Vec<Effects>),
}

/// The mathematical value of an effect.
pub enum Term {
    Nop,
    Other(u64),
    Operation(Seq<u8>, Seq<Term>),
    CreateArray(Seq<Term>),
}

/// The value of one effect.
pub open spec fn term(e: Effects) -> Term
    decreases e,
{
    match e {
        Effects::NOP => Term::Nop,
        Effects::Other(h) => Term::Other(h),
        Effects::Operation(op, args) => Term::Operation(op@, terms(args@)),
        Effects::CreateArray(items) => Term::CreateArray(terms(items@)),
    }
}

/// The values of a sequence of effects, one for one.
pub open spec fn terms(s: Seq<Effects>) -> Seq<Term>
    decreases s,
{
    if s.len() == 0 {
        Seq::empty()
    } else {
        terms(s.drop_last()).push(term(s.last()))
    }
}

/// `terms` maps each effect to its value, position by position.
pub proof fn lemma_terms(s: Seq<Effects>)
    ensures
        terms(s).len() == s.len(),
        forall|i: int| 0 <= i < s.len() ==> #[trigger] terms(s)[i] == term(s[i]),
    decreases s.len(),
{
    if s.len() > 0 {
        lemma_terms(s.drop_last());
    }
}

/// The view of a vector of effects.
pub open spec fn terms_of(v: Vec<Effects>) -> Seq<Term> {
    terms(v@)
}

/// What the checker knows of an operation that a pattern names: its name, the
/// pattern it was declared with (its `operation` attribute, where that is a
/// string), its `priority` attribute (where that is an integer) and its
/// `parse_left` attribute (where that is a boolean).
#[derive(Clone, Debug, PartialEq, Eq)]
pub struct OperationData {
    pub name: String,
    pub pattern: Option<Vec<u8>>,
    pub priority: Option<i64>,
    pub parse_left: Option<bool>,
}

pub struct OperationModel {
    pub name: Seq<char>,
    pub pattern: Option<Seq<u8>>,
    pub priority: Option<i64>,
    pub parse_left: Option<bool>,
}

impl View for OperationData {
    type V = OperationModel;

    open spec fn view(&self) -> OperationModel {
        OperationModel {
            name: self.name@,
            pattern: match self.pattern {
                Some(p) => Some(p@),
                None => None,
            },
            priority: self.priority,
            parse_left: self.parse_left,
        }
    }
}

/// The view of an optional operation.
pub open spec fn operation_model(o: Option<OperationData>) -> Option<OperationModel> {
    match o {
        Some(d) => Some(d@),
        None => None,
    }
}

/// A copy of a byte string.
pub fn copy_bytes(v: &Vec<u8>) -> (r: Vec<u8>)
    ensures
        r@ == v@,
{
    let mut r: Vec<u8> = Vec::new();
    let mut i: usize = 0;
    while i < v.len()
        invariant
            i <= v.len(),
            r@ == v@.take(i as int),
        decreases v.len() - i,
    {
        r.push(v[i]);
        i = i + 1;
        assert(r@ =~= v@.take(i as int));
    }
    assert(r@ =~= v@);
    r
}

impl Effects {
    /// A copy of this effect, operands and items included.
    pub fn duplicate(&self) -> (r: Effects)
        ensures
            term(r) == term(*self),
        decreases self,
    {
        match self {
            Effects::NOP => Effects::NOP,
            Effects::Other(h) => Effects::Other(*h),
            Effects::Operation(op, args) => Effects::Operation(copy_bytes(op), duplicate_all(args)),
            Effects::CreateArray(items) => Effects::CreateArray(duplicate_all(items)),
        }
    }
}

/// A copy of a sequence of effects.
pub fn duplicate_all(v: &Vec<Effects>) -> (r: Vec<Effects>)
    ensures
        terms(r@) == terms(v@),
    decreases v,
{
    let mut r: Vec<Effects> = Vec::new();
    let mut i: usize = 0;
    while i < v.len()
        invariant
            i <= v.len(),
            terms(r@) == terms(v@.take(i as int)),
        decreases v.len() - i,
    {
        proof {
            assert(decreases_to!(v => v[i as int]));
        }
        let e = v[i].duplicate();
        let ghost before = r@;
        r.push(e);
        proof {
            assert(r@.drop_last() =~= before);
            assert(v@.take(i + 1).drop_last() =~= v@.take(i as int));
            assert(v@.take(i + 1).last() == v@[i as int]);
        }
        i = i + 1;
    }
    assert(v@.take(v.len() as int) =~= v@);
    r
}

impl OperationData {
    /// A copy of this operation's data.
    pub fn duplicate(&self) -> (r: OperationData)
        ensures
            r@ == self@,
    {
        let pattern = match &self.pattern {
            Some(p) => Some(copy_bytes(p)),
            None => None,
        };
        OperationData {
            name: self.name.clone(),
            pattern,
            priority: self.priority,
            parse_left: self.parse_left,
        }
    }

    /// The operation's priority: its `priority` attribute, and 0 where it has none.
    pub fn priority_or_default(&self) -> (p: i64)
        ensures
            p == priority_of(self@),
    {
        match self.priority {
            Some(p) => p,
            None => 0,
        }
    }

    /// Whether the operation groups to the left: its `parse_left` attribute,
    /// and `false` where it has none.
    pub fn parse_left_or_default(&self) -> (b: bool)
        ensures
            b == parse_left_of(self@),
    {
        match self.parse_left {
            Some(b) => b,
            None => false,
        }
    }
}

pub open spec fn priority_of(o: OperationModel) -> i64 {
    match o.priority {
        Some(p) => p,
        None => 0,
    }
}

pub open spec fn parse_left_of(o: OperationModel) -> bool {
    match o.parse_left {
        Some(b) => b,
        None => false,
    }
}

} // verus!
