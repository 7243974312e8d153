//! What the semantic passes share: the value types, the symbol information,
//! structured diagnostics, and a verified name-keyed table.

use vstd::prelude::*;

use crate::ast::BinaryOp;
use crate::span::Span;

verus! {

/// The closed set of value types. `Bool` cannot be declared in source; it
/// arises only from operators. `Unit` is the type of statements and calls.
#[derive(Debug, Copy, Clone, PartialEq, Eq, Structural)]
pub enum IsiType {
    Int,
    Float,
    String,
    Bool,
    Unit,
}

/// What the type checker records for a declared name.
#[derive(Debug, Copy, Clone, PartialEq, Eq, Structural)]
pub struct SymbolInfo {
    pub ty: IsiType,
    pub declaration: Span,
}

impl View for IsiType {
    type V = IsiType;

    open spec fn view(&self) -> IsiType {
        *self
    }
}

impl View for SymbolInfo {
    type V = SymbolInfo;

    open spec fn view(&self) -> SymbolInfo {
        *self
    }
}

/// The reason a check failed, with the data a renderer needs to word it.
#[derive(Debug, PartialEq, Eq)]
pub enum CheckErrorKind {
    UndefinedVariable { name: Vec<u8> },
    Redeclaration { name: Vec<u8> },
    UnknownType { name: Vec<u8> },
    MismatchedBinOperands { op: BinaryOp, left: IsiType, right: IsiType },
    InvalidOperands { op: BinaryOp, ty: IsiType },
    MismatchedAssignment { expected: IsiType, found: IsiType },
    NonBoolCondition { found: IsiType },
    NonBoolNegation { found: IsiType },
    DeclaredNotUsed { name: Vec<u8> },
    UsedNotAssigned { name: Vec<u8> },
}

pub enum CheckErrorKindV {
    UndefinedVariable { name: Seq<u8> },
    Redeclaration { name: Seq<u8> },
    UnknownType { name: Seq<u8> },
    MismatchedBinOperands { op: BinaryOp, left: IsiType, right: IsiType },
    InvalidOperands { op: BinaryOp, ty: IsiType },
    MismatchedAssignment { expected: IsiType, found: IsiType },
    NonBoolCondition { found: IsiType },
    NonBoolNegation { found: IsiType },
    DeclaredNotUsed { name: Seq<u8> },
    UsedNotAssigned { name: Seq<u8> },
}

impl View for CheckErrorKind {
    type V = CheckErrorKindV;

    open spec fn view(&self) -> CheckErrorKindV {
        match *self {
            CheckErrorKind::UndefinedVariable { name } => CheckErrorKindV::UndefinedVariable {
                name: name@,
            },
            CheckErrorKind::Redeclaration { name } => CheckErrorKindV::Redeclaration {
                name: name@,
            },
            CheckErrorKind::UnknownType { name } => CheckErrorKindV::UnknownType { name: name@ },
            CheckErrorKind::MismatchedBinOperands { op, left, right } => {
                CheckErrorKindV::MismatchedBinOperands { op, left, right }
            },
            CheckErrorKind::InvalidOperands { op, ty } => CheckErrorKindV::InvalidOperands {
                op,
                ty,
            },
            CheckErrorKind::MismatchedAssignment { expected, found } => {
                CheckErrorKindV::MismatchedAssignment { expected, found }
            },
            CheckErrorKind::NonBoolCondition { found } => CheckErrorKindV::NonBoolCondition {
                found,
            },
            CheckErrorKind::NonBoolNegation { found } => CheckErrorKindV::NonBoolNegation {
                found,
            },
            CheckErrorKind::DeclaredNotUsed { name } => CheckErrorKindV::DeclaredNotUsed {
                name: name@,
            },
            CheckErrorKind::UsedNotAssigned { name } => CheckErrorKindV::UsedNotAssigned {
                name: name@,
            },
        }
    }
}

/// A structured diagnostic: a byte span into the source and the reason.
/// Rendering it as text is the driver's business, not the core's.
#[derive(Debug, PartialEq, Eq)]
pub struct CheckError {
    pub span: Span,
    pub kind: CheckErrorKind,
}

pub struct CheckErrorV {
    pub span: Span,
    pub kind: CheckErrorKindV,
}

impl View for CheckError {
    type V = CheckErrorV;

    open spec fn view(&self) -> CheckErrorV {
        CheckErrorV { span: self.span, kind: self.kind@ }
    }
}

pub open spec fn errors_view(es: Seq<CheckError>) -> Seq<CheckErrorV> {
    es.map_values(|e: CheckError| e@)
}

/// A diagnostic of the back end.
#[derive(Debug, PartialEq, Eq)]
pub struct IsiError {
    pub span: Span,
    pub msg: Vec<u8>,
}

// ---------------------------------------------------------------------------
// A name-keyed association table, modelled as a mathematical map from byte
// strings. Lookups key on the name alone; insertion order is preserved, which
// later passes use to report in a deterministic order.
// ---------------------------------------------------------------------------

/// Whether two byte slices hold the same bytes.
pub fn bytes_eq(a: &[u8], b: &[u8]) -> (r: bool)
    ensures
        r == (a@ == b@),
{
    if a.len() != b.len() {
        return false;
    }
    let mut i: usize = 0;
    while i < a.len()
        invariant
            0 <= i <= a@.len(),
            a@.len() == b@.len(),
            forall|m: int| 0 <= m < i ==> a@[m] == b@[m],
        decreases a@.len() - i,
    {
        if a[i] != b[i] {
            return false;
        }
        i = i + 1;
    }
    proof {
        assert(a@ =~= b@);
    }
    true
}

pub struct NameMap<T> {
    pub entries: Vec<(Vec<u8>, T)>,
}

/// The mathematical map a table stands for.
pub open spec fn entries_map<T: View>(es: Seq<(Vec<u8>, T)>) -> Map<Seq<u8>, T::V>
    decreases es,
{
    if es.len() == 0 {
        Map::empty()
    } else {
        entries_map(es.drop_last()).insert(es.last().0@, es.last().1@)
    }
}

impl<T: View> View for NameMap<T> {
    type V = Map<Seq<u8>, T::V>;

    open spec fn view(&self) -> Map<Seq<u8>, T::V> {
        entries_map(self.entries@)
    }
}

/// No name occurs twice.
pub open spec fn entries_wf<T>(es: Seq<(Vec<u8>, T)>) -> bool {
    forall|i: int, j: int| 0 <= i < j < es.len() ==> (#[trigger] es[i].0@) != (#[trigger] es[j].0@)
}

pub proof fn lemma_entries_map_dom<T: View>(es: Seq<(Vec<u8>, T)>, k: Seq<u8>)
    ensures
        entries_map(es).dom().contains(k) <==> exists|i: int|
            0 <= i < es.len() && (#[trigger] es[i].0@) == k,
    decreases es,
{
    if es.len() > 0 {
        lemma_entries_map_dom(es.drop_last(), k);
        if es.last().0@ == k {
            assert(es[es.len() - 1].0@ == k);
        } else {
            if exists|i: int| 0 <= i < es.drop_last().len() && (#[trigger] es.drop_last()[i].0@)
                == k {
                let i = choose|i: int|
                    0 <= i < es.drop_last().len() && (#[trigger] es.drop_last()[i].0@) == k;
                assert(es[i].0@ == k);
            }
            if exists|i: int| 0 <= i < es.len() && (#[trigger] es[i].0@) == k {
                let i = choose|i: int| 0 <= i < es.len() && (#[trigger] es[i].0@) == k;
                assert(es.drop_last()[i].0@ == k);
            }
        }
    }
}

pub proof fn lemma_entries_map_at<T: View>(es: Seq<(Vec<u8>, T)>, i: int)
    requires
        entries_wf(es),
        0 <= i < es.len(),
    ensures
        entries_map(es).dom().contains(es[i].0@),
        entries_map(es)[es[i].0@] == es[i].1@,
    decreases es,
{
    lemma_entries_map_dom(es, es[i].0@);
    if i == es.len() - 1 {
    } else {
        assert(entries_wf(es.drop_last()));
        assert(es.drop_last()[i] == es[i]);
        lemma_entries_map_at(es.drop_last(), i);
        assert(es[i].0@ != es[es.len() - 1].0@);
    }
}

pub proof fn lemma_entries_map_update<T: View>(es: Seq<(Vec<u8>, T)>, i: int, e2: (Vec<u8>, T))
    requires
        entries_wf(es),
        0 <= i < es.len(),
        e2.0@ == es[i].0@,
    ensures
        entries_map(es.update(i, e2)) == entries_map(es).insert(e2.0@, e2.1@),
        entries_wf(es.update(i, e2)),
    decreases es,
{
    let up = es.update(i, e2);
    assert(entries_wf(up));
    if i == es.len() - 1 {
        assert(up.drop_last() =~= es.drop_last());
        assert(up.last() == e2);
        assert(entries_map(up) == entries_map(es.drop_last()).insert(e2.0@, e2.1@));
        assert(entries_map(es.drop_last()).insert(e2.0@, e2.1@) =~= entries_map(es).insert(
            e2.0@,
            e2.1@,
        ));
    } else {
        assert(entries_wf(es.drop_last()));
        assert(es.drop_last()[i] == es[i]);
        lemma_entries_map_update(es.drop_last(), i, e2);
        assert(up.drop_last() =~= es.drop_last().update(i, e2));
        assert(up.last() == es.last());
        assert(entries_map(up) == entries_map(es.drop_last().update(i, e2)).insert(
            es.last().0@,
            es.last().1@,
        ));
        assert(es[i].0@ != es.last().0@);
        assert(entries_map(es.drop_last()).insert(e2.0@, e2.1@).insert(es.last().0@, es.last().1@)
            =~= entries_map(es).insert(e2.0@, e2.1@));
    }
}

impl<T: View> NameMap<T> {
    /// All names are distinct; every method keeps this.
    pub open spec fn wf(&self) -> bool {
        entries_wf(self.entries@)
    }

    pub fn new() -> (r: NameMap<T>)
        ensures
            r.wf(),
            r@ == Map::<Seq<u8>, T::V>::empty(),
            r.entries@.len() == 0,
    {
        NameMap { entries: Vec::new() }
    }

    /// The index of the entry for `name`, if one exists.
    fn find(&self, name: &[u8]) -> (r: Option<usize>)
        ensures
            match r {
                Some(i) => i < self.entries@.len() && self.entries@[i as int].0@ == name@,
                None => forall|i: int|
                    0 <= i < self.entries@.len() ==> (#[trigger] self.entries@[i].0@) != name@,
            },
    {
        let mut i: usize = 0;
        while i < self.entries.len()
            invariant
                0 <= i <= self.entries@.len(),
                forall|m: int| 0 <= m < i ==> (#[trigger] self.entries@[m].0@) != name@,
            decreases self.entries@.len() - i,
        {
            if bytes_eq(self.entries[i].0.as_slice(), name) {
                return Some(i);
            }
            i = i + 1;
        }
        None
    }

    /// Whether `name` is present.
    pub fn contains(&self, name: &[u8]) -> (r: bool)
        requires
            self.wf(),
        ensures
            r == self@.dom().contains(name@),
    {
        proof {
            lemma_entries_map_dom(self.entries@, name@);
        }
        match self.find(name) {
            Some(i) => {
                proof {
                    lemma_entries_map_at(self.entries@, i as int);
                }
                true
            },
            None => false,
        }
    }

    /// The value stored under `name`, if any.
    pub fn get(&self, name: &[u8]) -> (r: Option<&T>)
        requires
            self.wf(),
        ensures
            match r {
                Some(t) => self@.dom().contains(name@) && t@ == self@[name@],
                None => !self@.dom().contains(name@),
            },
    {
        proof {
            lemma_entries_map_dom(self.entries@, name@);
        }
        match self.find(name) {
            Some(i) => {
                proof {
                    lemma_entries_map_at(self.entries@, i as int);
                }
                Some(&self.entries[i].1)
            },
            None => None,
        }
    }

    /// Binds `name` to `v`, replacing any earlier binding.
    pub fn insert(&mut self, name: Vec<u8>, v: T)
        requires
            old(self).wf(),
        ensures
            final(self).wf(),
            final(self)@ == old(self)@.insert(name@, v@),
            final(self).entries@.len() <= old(self).entries@.len() + 1,
    {
        proof {
            lemma_entries_map_dom(self.entries@, name@);
        }
        match self.find(name.as_slice()) {
            Some(i) => {
                proof {
                    lemma_entries_map_update(self.entries@, i as int, (name, v));
                }
                self.entries.set(i, (name, v));
            },
            None => {
                let ghost pre = self.entries@;
                self.entries.push((name, v));
                proof {
                    assert(self.entries@.drop_last() =~= pre);
                    assert(forall|i: int, j: int|
                        0 <= i < j < self.entries@.len() ==> (#[trigger] self.entries@[i].0@)
                            != (#[trigger] self.entries@[j].0@));
                }
            },
        }
    }

    /// How many names are bound.
    pub fn len(&self) -> (r: usize)
        ensures
            r == self.entries@.len(),
    {
        self.entries.len()
    }

    /// The name of the `i`-th binding, in insertion order.
    pub fn key_at(&self, i: usize) -> (r: &Vec<u8>)
        requires
            i < self.entries@.len(),
        ensures
            r@ == self.entries@[i as int].0@,
    {
        &self.entries[i].0
    }

    /// The value of the `i`-th binding, in insertion order.
    pub fn val_at(&self, i: usize) -> (r: &T)
        requires
            self.wf(),
            i < self.entries@.len(),
        ensures
            r == self.entries@[i as int].1,
            self@.dom().contains(self.entries@[i as int].0@),
            r@ == self@[self.entries@[i as int].0@],
    {
        proof {
            lemma_entries_map_at(self.entries@, i as int);
        }
        &self.entries[i].1
    }
}

} // verus!
