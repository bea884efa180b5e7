//! Dotted names (`a.b.c`, `.a.b`) and import paths with wildcard and group
//! segments.

use vstd::prelude::*;

verus! {

/// A name such as `a.b.c`; `global` is set when it is anchored at the root
/// namespace (written with a leading period).
#[derive(Clone, Debug)]
pub struct DottedName {
    pub ids: Vec<String>,
    pub global: bool,
}

/// The mathematical value of a `DottedName`.
pub struct DottedNameView {
    pub ids: Seq<Seq<char>>,
    pub global: bool,
}

/// The text of each string of a list.
pub open spec fn texts(v: Seq<String>) -> Seq<Seq<char>> {
    v.map_values(|s: String| s@)
}

impl View for DottedName {
    type V = DottedNameView;

    open spec fn view(&self) -> DottedNameView {
        DottedNameView { ids: texts(self.ids@), global: self.global }
    }
}

impl DottedName {
    pub fn new(ids: Vec<String>, global: bool) -> (r: DottedName)
        ensures
            r.ids == ids,
            r.global == global,
    {
        DottedName { ids, global }
    }

    /// A one-segment name relative to the current scope.
    pub fn local(id: String) -> (r: DottedName)
        ensures
            r@.ids == seq![id@],
            !r.global,
    {
        let mut ids: Vec<String> = Vec::new();
        ids.push(id);
        let r = DottedName { ids, global: false };
        assert(r@.ids =~= seq![r.ids@[0]@]);
        r
    }
}

/// One segment of an import path.
#[derive(Debug)]
pub enum CompoundDottedNameSegment {
    Identifier(String),
    /// A wildcard; the text is what was written in front of the `*`.
    Glob(String),
    /// A set of sub-paths that share the prefix before it.
    Group(Vec<CompoundDottedName>),
}

/// An import path: each segment is a name, a wildcard or a group.
#[derive(Debug)]
pub struct CompoundDottedName {
    pub ids: Vec<CompoundDottedNameSegment>,
    pub global: bool,
}

/// The mathematical value of a segment.
pub enum SegmentView {
    Identifier(Seq<char>),
    Glob(Seq<char>),
    Group(Seq<CompoundDottedName>),
}

impl View for CompoundDottedNameSegment {
    type V = SegmentView;

    open spec fn view(&self) -> SegmentView {
        match self {
            CompoundDottedNameSegment::Identifier(s) => SegmentView::Identifier(s@),
            CompoundDottedNameSegment::Glob(s) => SegmentView::Glob(s@),
            CompoundDottedNameSegment::Group(v) => SegmentView::Group(v@),
        }
    }
}

/// The mathematical value of a `CompoundDottedName`.
pub struct CompoundDottedNameView {
    pub ids: Seq<SegmentView>,
    pub global: bool,
}

/// The value of each segment of a list.
pub open spec fn segments_view(v: Seq<CompoundDottedNameSegment>) -> Seq<SegmentView> {
    v.map_values(|s: CompoundDottedNameSegment| s@)
}

impl View for CompoundDottedName {
    type V = CompoundDottedNameView;

    open spec fn view(&self) -> CompoundDottedNameView {
        CompoundDottedNameView { ids: segments_view(self.ids@), global: self.global }
    }
}

impl CompoundDottedName {
    pub fn new(ids: Vec<CompoundDottedNameSegment>, global: bool) -> (r: CompoundDottedName)
        ensures
            r.ids == ids,
            r.global == global,
    {
        CompoundDottedName { ids, global }
    }

    /// A one-segment path relative to the current scope.
    pub fn local(id: CompoundDottedNameSegment) -> (r: CompoundDottedName)
        ensures
            r.ids@ == seq![id],
            !r.global,
    {
        let mut ids: Vec<CompoundDottedNameSegment> = Vec::new();
        ids.push(id);
        assert(ids@ =~= seq![id]);
        CompoundDottedName { ids, global: false }
    }
}

} // verus!
