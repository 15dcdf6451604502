//! The line/inline aggregate owned by a symbol record: plain line-table
//! entries and inlined-call sites, whose file ids and inline-origin ids are
//! local to one compilation unit until remapped.

use vstd::prelude::*;

verus! {

/// One line-table entry: the instruction range it covers, the source line
/// number, and the id of the source file.
#[derive(Clone, Copy, PartialEq, Eq, Structural, Debug)]
pub struct SourceLine {
    pub rva: u32,
    pub len: u32,
    pub line: u32,
    pub file_id: u32,
}

/// One inlined-call site: its nesting depth, the line and file of the call,
/// and the id of the function definition the inlined code originated from.
#[derive(Clone, Copy, PartialEq, Eq, Structural, Debug)]
pub struct InlineSite {
    pub depth: u32,
    pub call_line: u32,
    pub call_file_id: u32,
    pub inline_origin_id: u32,
}

/// A half-open instruction range `[rva, rva + len)` covered by an inline site.
#[derive(Clone, Copy, PartialEq, Eq, Structural, Debug)]
pub struct AddressRange {
    pub rva: u32,
    pub len: u32,
}

/// An inline site together with the address ranges it covers.
#[derive(Clone, Debug)]
pub struct InlineEntry {
    pub site: InlineSite,
    pub ranges: Vec<AddressRange>,
}

#[verifier::ext_equal]
pub ghost struct InlineEntryView {
    pub site: InlineSite,
    pub ranges: Seq<AddressRange>,
}

impl View for InlineEntry {
    type V = InlineEntryView;

    open spec fn view(&self) -> InlineEntryView {
        InlineEntryView { site: self.site, ranges: self.ranges@ }
    }
}

/// The aggregate itself; empty for pure public symbols.
#[derive(Clone, Debug)]
pub struct Lines {
    pub lines: Vec<SourceLine>,
    pub inlines: Vec<InlineEntry>,
}

#[verifier::ext_equal]
pub ghost struct LinesView {
    pub lines: Seq<SourceLine>,
    pub inlines: Seq<InlineEntryView>,
}

impl View for Lines {
    type V = LinesView;

    open spec fn view(&self) -> LinesView {
        LinesView { lines: self.lines@, inlines: self.inlines@.map_values(|e: InlineEntry| e@) }
    }
}

impl Lines {
    /// An empty aggregate.
    pub fn new() -> (r: Lines)
        ensures
            r@.lines.len() == 0,
            r@.inlines.len() == 0,
    {
        Lines { lines: Vec::new(), inlines: Vec::new() }
    }
}

} // verus!
