//! The symbol record: identity, address span, call-convention metadata, the
//! owned line/inline aggregate, its two renderable text forms, and the
//! identifier-remapping pass that lifts compilation-unit-local file ids and
//! inline-origin ids into the module-wide namespace.

use vstd::prelude::*;
use vstd::string::StringExecFns;

use crate::hex::{hex_seq, hex_string};
use crate::lines::{InlineEntryView, Lines, LinesView, SourceLine};

verus! {

/// One symbol record, owned by exactly one table entry.
#[derive(Clone, Debug)]
pub struct ElfSymbol {
    /// The symbolic identifier; arbitrary text, not unique across the binary.
    pub name: String,
    /// True for a minimal public symbol; false for a full function record.
    pub is_public: bool,
    /// True if more than one independent source claimed this address.
    pub is_multiple: bool,
    /// True if the record was synthesized from a section header.
    pub is_synthetic: bool,
    /// Relative virtual address: offset from the module base, the table key.
    pub rva: u32,
    /// Byte length of the address span; 0 when unknown.
    pub len: u32,
    /// Stack-passed-argument byte count; 0 when unknown.
    pub parameter_size: u32,
    /// The owned line/inline aggregate; empty for pure public symbols.
    pub source: Lines,
}

#[verifier::ext_equal]
pub ghost struct SymbolView {
    pub name: Seq<char>,
    pub is_public: bool,
    pub is_multiple: bool,
    pub is_synthetic: bool,
    pub rva: u32,
    pub len: u32,
    pub parameter_size: u32,
    pub source: LinesView,
}

impl View for ElfSymbol {
    type V = SymbolView;

    open spec fn view(&self) -> SymbolView {
        SymbolView {
            name: self.name@,
            is_public: self.is_public,
            is_multiple: self.is_multiple,
            is_synthetic: self.is_synthetic,
            rva: self.rva,
            len: self.len,
            parameter_size: self.parameter_size,
            source: self.source@,
        }
    }
}

impl Default for ElfSymbol {
    /// An all-zero public-flagless record with an empty name and aggregate.
    fn default() -> (r: ElfSymbol)
        ensures
            r@.name.len() == 0,
            !r@.is_public,
            !r@.is_multiple,
            !r@.is_synthetic,
            r@.rva == 0,
            r@.len == 0,
            r@.parameter_size == 0,
            r@.source.lines.len() == 0,
            r@.source.inlines.len() == 0,
    {
        ElfSymbol {
            name: String::new(),
            is_public: false,
            is_multiple: false,
            is_synthetic: false,
            rva: 0,
            len: 0,
            parameter_size: 0,
            source: Lines::new(),
        }
    }
}

/// The multiplicity marker: `"m "` when the record is multiple, else nothing.
pub open spec fn marker_seq(is_multiple: bool) -> Seq<char> {
    if is_multiple {
        "m "@
    } else {
        Seq::<char>::empty()
    }
}

/// The exact text of a record: one `PUBLIC` line, or one `FUNC` line followed
/// by the aggregate's own rendering `source_text`. All numeric fields are
/// lowercase hexadecimal without a prefix, fields separated by single spaces.
pub open spec fn spec_render(s: SymbolView, source_text: Seq<char>) -> Seq<char> {
    if s.is_public {
        "PUBLIC "@ + marker_seq(s.is_multiple) + hex_seq(s.rva as nat) + " "@ + hex_seq(
            s.parameter_size as nat,
        ) + " "@ + s.name + "\n"@
    } else {
        "FUNC "@ + marker_seq(s.is_multiple) + hex_seq(s.rva as nat) + " "@ + hex_seq(
            s.len as nat,
        ) + " "@ + hex_seq(s.parameter_size as nat) + " "@ + s.name + "\n"@ + source_text
    }
}

/// The view of an optional remapping slice.
pub open spec fn remap_view(m: Option<&[u32]>) -> Option<Seq<u32>> {
    match m {
        Option::Some(s) => Option::Some(s@),
        Option::None => Option::None,
    }
}

/// One line entry with its file id translated; everything else kept.
pub open spec fn spec_remap_line(l: SourceLine, m: Seq<u32>) -> SourceLine {
    SourceLine { file_id: m[l.file_id as int], ..l }
}

/// All line entries translated via `fr` when present; identity when absent.
pub open spec fn spec_remap_lines(ls: Seq<SourceLine>, fr: Option<Seq<u32>>) -> Seq<SourceLine> {
    match fr {
        Option::None => ls,
        Option::Some(m) => ls.map_values(|l: SourceLine| spec_remap_line(l, m)),
    }
}

/// One inline entry with its call file id translated via `fr` when present
/// and its inline-origin id always translated via `ir`; the address ranges
/// and everything else kept.
pub open spec fn spec_remap_inline(
    e: InlineEntryView,
    fr: Option<Seq<u32>>,
    ir: Seq<u32>,
) -> InlineEntryView {
    let call_file_id = match fr {
        Option::Some(m) => m[e.site.call_file_id as int],
        Option::None => e.site.call_file_id,
    };
    InlineEntryView {
        site: crate::lines::InlineSite {
            call_file_id,
            inline_origin_id: ir[e.site.inline_origin_id as int],
            ..e.site
        },
        ranges: e.ranges,
    }
}

/// All inline entries translated.
pub open spec fn spec_remap_inlines(
    es: Seq<InlineEntryView>,
    fr: Option<Seq<u32>>,
    ir: Seq<u32>,
) -> Seq<InlineEntryView> {
    es.map_values(|e: InlineEntryView| spec_remap_inline(e, fr, ir))
}

impl ElfSymbol {
    /// Renders the record. `source_text` is the line/inline aggregate's own
    /// rendering, produced under its external contract; it follows a `FUNC`
    /// line and is ignored for a `PUBLIC` record.
    pub fn render(&self, source_text: &str) -> (r: String)
        ensures
            r@ == spec_render(self@, source_text@),
    {
        let mut s = if self.is_public {
            String::from_str("PUBLIC ")
        } else {
            String::from_str("FUNC ")
        };
        if self.is_multiple {
            s.append("m ");
        }
        s.append(hex_string(self.rva as u64).as_str());
        s.append(" ");
        if !self.is_public {
            s.append(hex_string(self.len as u64).as_str());
            s.append(" ");
        }
        s.append(hex_string(self.parameter_size as u64).as_str());
        s.append(" ");
        s.append(self.name.as_str());
        s.append("\n");
        if !self.is_public {
            s.append(source_text);
        }
        proof {
            assert(s@ =~= spec_render(self@, source_text@));
        }
        s
    }

    /// Rewrites every line entry's file id through `file_remapping` when it
    /// is present; an absent remapping means the ids are already module-wide
    /// and every entry is left untouched. Inline entries and all other fields
    /// are never changed.
    pub fn remap_lines(&mut self, file_remapping: Option<&[u32]>)
        requires
            file_remapping matches Some(m) ==> forall|i: int|
                0 <= i < old(self).source.lines@.len() ==> (#[trigger] old(
                    self,
                ).source.lines@[i]).file_id < m@.len(),
        ensures
            final(self)@ == (SymbolView {
                source: LinesView {
                    lines: spec_remap_lines(
                        old(self)@.source.lines,
                        remap_view(file_remapping),
                    ),
                    inlines: old(self)@.source.inlines,
                },
                ..old(self)@
            }),
    {
        if let Some(m) = file_remapping {
            let n = self.source.lines.len();
            let mut i: usize = 0;
            while i < n
                invariant
                    i <= n,
                    n == old(self).source.lines@.len(),
                    self.source.lines@.len() == n,
                    file_remapping == Some(m),
                    forall|j: int| 0 <= j < n ==> (#[trigger] old(
                        self,
                    ).source.lines@[j]).file_id < m@.len(),
                    forall|j: int| 0 <= j < i ==> self.source.lines@[j] == spec_remap_line(
                        old(self).source.lines@[j],
                        m@,
                    ),
                    forall|j: int| i <= j < n ==> self.source.lines@[j] == old(
                        self,
                    ).source.lines@[j],
                    self.name == old(self).name,
                    self.is_public == old(self).is_public,
                    self.is_multiple == old(self).is_multiple,
                    self.is_synthetic == old(self).is_synthetic,
                    self.rva == old(self).rva,
                    self.len == old(self).len,
                    self.parameter_size == old(self).parameter_size,
                    self.source.inlines == old(self).source.inlines,
                decreases n - i,
            {
                let mut l = self.source.lines[i];
                proof {
                    assert(old(self).source.lines@[i as int].file_id < m@.len());
                }
                l.file_id = m[l.file_id as usize];
                self.source.lines[i] = l;
                i += 1;
            }
            proof {
                assert(self.source.lines@ =~= spec_remap_lines(
                    old(self)@.source.lines,
                    remap_view(file_remapping),
                ));
                assert(self@ =~= (SymbolView {
                    source: LinesView {
                        lines: spec_remap_lines(
                            old(self)@.source.lines,
                            remap_view(file_remapping),
                        ),
                        inlines: old(self)@.source.inlines,
                    },
                    ..old(self)@
                }));
            }
        } else {
            proof {
                assert(self@ =~= (SymbolView {
                    source: LinesView {
                        lines: spec_remap_lines(
                            old(self)@.source.lines,
                            remap_view(file_remapping),
                        ),
                        inlines: old(self)@.source.inlines,
                    },
                    ..old(self)@
                }));
            }
        }
    }

    /// Rewrites every inline site's call file id through `file_remapping`
    /// when it is present, and its inline-origin id through the mandatory
    /// `inline_origin_remapping`. The address ranges attached to each site,
    /// the line entries, and all other fields are never changed.
    pub fn remap_inlines(
        &mut self,
        file_remapping: Option<&[u32]>,
        inline_origin_remapping: &[u32],
    )
        requires
            forall|i: int| 0 <= i < old(self).source.inlines@.len() ==> (#[trigger] old(
                self,
            ).source.inlines@[i]).site.inline_origin_id < inline_origin_remapping@.len(),
            file_remapping matches Some(m) ==> forall|i: int|
                0 <= i < old(self).source.inlines@.len() ==> (#[trigger] old(
                    self,
                ).source.inlines@[i]).site.call_file_id < m@.len(),
        ensures
            final(self)@ == (SymbolView {
                source: LinesView {
                    lines: old(self)@.source.lines,
                    inlines: spec_remap_inlines(
                        old(self)@.source.inlines,
                        remap_view(file_remapping),
                        inline_origin_remapping@,
                    ),
                },
                ..old(self)@
            }),
    {
        let n = self.source.inlines.len();
        let mut i: usize = 0;
        while i < n
            invariant
                i <= n,
                n == old(self).source.inlines@.len(),
                self.source.inlines@.len() == n,
                forall|j: int| 0 <= j < n ==> (#[trigger] old(
                    self,
                ).source.inlines@[j]).site.inline_origin_id < inline_origin_remapping@.len(),
                file_remapping matches Some(m) ==> forall|j: int|
                    0 <= j < n ==> (#[trigger] old(
                        self,
                    ).source.inlines@[j]).site.call_file_id < m@.len(),
                forall|j: int| 0 <= j < i ==> self.source.inlines@[j]@ == spec_remap_inline(
                    old(self).source.inlines@[j]@,
                    remap_view(file_remapping),
                    inline_origin_remapping@,
                ),
                forall|j: int| i <= j < n ==> self.source.inlines@[j] == old(
                    self,
                ).source.inlines@[j],
                self.name == old(self).name,
                self.is_public == old(self).is_public,
                self.is_multiple == old(self).is_multiple,
                self.is_synthetic == old(self).is_synthetic,
                self.rva == old(self).rva,
                self.len == old(self).len,
                self.parameter_size == old(self).parameter_size,
                self.source.lines == old(self).source.lines,
            decreases n - i,
        {
            let mut site = self.source.inlines[i].site;
            proof {
                assert(old(self).source.inlines@[i as int].site.inline_origin_id
                    < inline_origin_remapping@.len());
                assert(self.source.inlines@[i as int] == old(self).source.inlines@[i as int]);
            }
            if let Some(m) = file_remapping {
                proof {
                    assert(old(self).source.inlines@[i as int].site.call_file_id < m@.len());
                }
                site.call_file_id = m[site.call_file_id as usize];
            }
            site.inline_origin_id = inline_origin_remapping[site.inline_origin_id as usize];
            self.source.inlines[i].site = site;
            i += 1;
        }
        proof {
            assert(self.source.inlines@.map_values(|e: crate::lines::InlineEntry| e@)
                =~= spec_remap_inlines(
                old(self)@.source.inlines,
                remap_view(file_remapping),
                inline_origin_remapping@,
            ));
            assert(self@ =~= (SymbolView {
                source: LinesView {
                    lines: old(self)@.source.lines,
                    inlines: spec_remap_inlines(
                        old(self)@.source.inlines,
                        remap_view(file_remapping),
                        inline_origin_remapping@,
                    ),
                },
                ..old(self)@
            }));
        }
    }
}

} // verus!
