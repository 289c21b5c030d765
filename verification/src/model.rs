//! The data that the index holds: symbols, the references collected for
//! them, and positions in a document.

use vstd::prelude::*;

verus! {

/// A zero-based place in a document.
#[derive(Clone, Copy, Debug, PartialEq, Eq, Structural)]
pub struct Position {
    pub line: u32,
    pub character: u32,
}

/// A span between two positions.
#[derive(Clone, Copy, Debug, PartialEq, Eq, Structural)]
pub struct Range {
    pub start: Position,
    pub end: Position,
}

/// What a declaration line introduces; its leading keyword decides.
#[derive(Clone, Copy, Debug, PartialEq, Eq, Structural)]
pub enum SymbolKind {
    Backend,
    Frontend,
    Listen,
    Acl,
    Server,
}

/// Why a reference was recorded.
#[derive(Clone, Copy, Debug, PartialEq, Eq, Structural)]
pub enum ReferenceContext {
    UseBackend,
    DefaultBackend,
    AclCondition,
    AclUnlessCondition,
    ServerReference,
}

/// A use of a symbol's name in some document.
#[derive(Debug)]
pub struct Reference {
    pub range: Range,
    pub uri: String,
    pub context: ReferenceContext,
}

/// The mathematical content of a `Reference`.
pub struct ReferenceView {
    pub range: Range,
    pub uri: Seq<char>,
    pub context: ReferenceContext,
}

impl View for Reference {
    type V = ReferenceView;

    open spec fn view(&self) -> ReferenceView {
        ReferenceView { range: self.range, uri: self.uri@, context: self.context }
    }
}

impl Clone for Reference {
    fn clone(&self) -> (copy: Self)
        ensures
            copy@ == self@,
    {
        Reference { range: self.range, uri: self.uri.clone(), context: self.context }
    }
}

/// The contents of a list of references.
pub open spec fn reference_views(references: Seq<Reference>) -> Seq<ReferenceView> {
    references.map_values(|reference: Reference| reference@)
}

/// A declared name, with the references collected for it.
#[derive(Debug)]
pub struct Symbol {
    pub name: String,
    pub kind: SymbolKind,
    pub range: Range,
    pub uri: String,
    pub references: Vec<Reference>,
}

/// The mathematical content of a `Symbol`.
pub struct SymbolView {
    pub name: Seq<char>,
    pub kind: SymbolKind,
    pub range: Range,
    pub uri: Seq<char>,
    pub references: Seq<ReferenceView>,
}

impl View for Symbol {
    type V = SymbolView;

    open spec fn view(&self) -> SymbolView {
        SymbolView {
            name: self.name@,
            kind: self.kind,
            range: self.range,
            uri: self.uri@,
            references: reference_views(self.references@),
        }
    }
}

/// The contents of a list of symbols.
pub open spec fn symbol_views(symbols: Seq<Symbol>) -> Seq<SymbolView> {
    symbols.map_values(|symbol: Symbol| symbol@)
}

/// A copy of `references`, element by element.
pub fn clone_references(references: &Vec<Reference>) -> (copy: Vec<Reference>)
    ensures
        reference_views(copy@) == reference_views(references@),
{
    let mut copy: Vec<Reference> = Vec::new();
    let mut i: usize = 0;
    while i < references.len()
        invariant
            i <= references.len(),
            reference_views(copy@) == reference_views(references@.take(i as int)),
        decreases references.len() - i,
    {
        let ghost before = copy@;
        let reference = references[i].clone();
        copy.push(reference);
        assert(reference_views(copy@) =~= reference_views(before).push(reference@));
        assert(reference_views(references@.take(i + 1)) =~= reference_views(
            references@.take(i as int),
        ).push(references@[i as int]@));
        i += 1;
    }
    assert(references@.take(references.len() as int) =~= references@);
    copy
}

impl Clone for Symbol {
    fn clone(&self) -> (copy: Self)
        ensures
            copy@ == self@,
    {
        Symbol {
            name: self.name.clone(),
            kind: self.kind,
            range: self.range,
            uri: self.uri.clone(),
            references: clone_references(&self.references),
        }
    }
}

} // verus!
