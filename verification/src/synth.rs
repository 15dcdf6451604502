//! Section-header-driven synthesis of placeholder public symbols: the raw
//! module bytes are re-parsed as an ELF container, and for every executable
//! section not already covered by a record a synthetic public symbol is
//! inserted at the section's start address. Parse failure, or a container
//! that is not ELF, leaves the table untouched: synthesis is a best-effort
//! enhancement whose failure never propagates.

use vstd::prelude::*;
use vstd::string::StringExecFns;

use crate::lines::{Lines, LinesView};
use crate::symbol::{ElfSymbol, SymbolView};
use crate::table::{contains_rva, sorted_by_rva, spec_insert, ElfSymbols};

verus! {

/// One ELF section header, reduced to what synthesis reads: its virtual
/// address, its flags, and its name as resolved through the section-header
/// string table (`None` when the string table has no entry for it).
#[derive(Clone, Debug)]
pub struct ElfSection {
    pub sh_addr: u64,
    pub sh_flags: u64,
    pub name: Option<String>,
}

#[verifier::ext_equal]
pub ghost struct SectionView {
    pub sh_addr: u64,
    pub sh_flags: u64,
    pub name: Option<Seq<char>>,
}

impl View for ElfSection {
    type V = SectionView;

    open spec fn view(&self) -> SectionView {
        SectionView {
            sh_addr: self.sh_addr,
            sh_flags: self.sh_flags,
            name: match self.name {
                Option::Some(ref n) => Option::Some(n@),
                Option::None => Option::None,
            },
        }
    }
}

/// The section headers of `data` parsed as an ELF container: `None` when the
/// bytes are not a parseable ELF object, otherwise one entry per section
/// header in header-table order. The parse depends on the bytes alone.
pub uninterp spec fn elf_sections_of(data: Seq<u8>) -> Option<Seq<SectionView>>;

/// The view of a parsed section list.
pub open spec fn sections_view(r: Option<Vec<ElfSection>>) -> Option<Seq<SectionView>> {
    match r {
        Option::Some(v) => Option::Some(v@.map_values(|s: ElfSection| s@)),
        Option::None => Option::None,
    }
}

/// Relies on `goblin::Object::parse` to recognize an ELF container, on the
/// `sh_addr`, `sh_flags` and `sh_name` fields of its parsed section headers,
/// and on `goblin::strtab::Strtab::get_at` to resolve each header's name:
/// all are functions of the input bytes alone.
#[verifier::external_body]
fn parse_elf_sections(data: &[u8]) -> (r: Option<Vec<ElfSection>>)
    ensures
        sections_view(r) == elf_sections_of(data@),
{
    match goblin::Object::parse(data) {
        Ok(goblin::Object::Elf(elf)) => Some(
            elf.section_headers
                .iter()
                .map(|h| ElfSection {
                    sh_addr: h.sh_addr,
                    sh_flags: h.sh_flags,
                    name: elf.shdr_strtab.get_at(h.sh_name).map(str::to_string),
                })
                .collect(),
        ),
        _ => None,
    }
}

/// A section is executable when its flags carry both `SHF_ALLOC` (0x2) and
/// `SHF_EXECINSTR` (0x4).
pub open spec fn spec_section_executable(flags: u64) -> bool {
    flags & 0x2 == 0x2 && flags & 0x4 == 0x4
}

/// The executable-flag test over a section header's `sh_flags`.
pub fn section_is_executable(flags: u64) -> (r: bool)
    ensures
        r == spec_section_executable(flags),
{
    flags & 0x2 == 0x2 && flags & 0x4 == 0x4
}

/// A section's start address taken as a relative virtual address: the low
/// 32 bits of `sh_addr`.
pub open spec fn section_rva(sh_addr: u64) -> u32 {
    (sh_addr % 0x1_0000_0000) as u32
}

/// The display name of a synthetic section symbol:
/// `"<SECTION_NAME ELF section in MODULE_NAME>"`, with `"unknown"` for a
/// section name missing from the string table and for an empty module name.
pub open spec fn spec_section_symbol_name(
    section_name: Option<Seq<char>>,
    module: Seq<char>,
) -> Seq<char> {
    "<"@ + (match section_name {
        Option::Some(n) => n,
        Option::None => "unknown"@,
    }) + " ELF section in "@ + (if module.len() == 0 {
        "unknown"@
    } else {
        module
    }) + ">"@
}

/// The placeholder record synthesized for one executable section: a public,
/// synthetic, zero-length symbol at the section's start address.
pub open spec fn spec_synthetic_record(module: Seq<char>, sec: SectionView) -> SymbolView {
    SymbolView {
        name: spec_section_symbol_name(sec.name, module),
        is_public: true,
        is_multiple: false,
        is_synthetic: true,
        rva: section_rva(sec.sh_addr),
        len: 0,
        parameter_size: 0,
        source: LinesView { lines: Seq::empty(), inlines: Seq::empty() },
    }
}

/// The table after a placeholder has been offered for every executable
/// section, in header order; a record already present at a section's address
/// is authoritative and stays.
pub open spec fn spec_synthesize(
    s: Seq<SymbolView>,
    module: Seq<char>,
    secs: Seq<SectionView>,
) -> Seq<SymbolView>
    decreases secs.len(),
{
    if secs.len() == 0 {
        s
    } else {
        let prev = spec_synthesize(s, module, secs.drop_last());
        if spec_section_executable(secs.last().sh_flags) {
            spec_insert(prev, spec_synthetic_record(module, secs.last()))
        } else {
            prev
        }
    }
}

/// The table after synthesis from a parse result: unchanged when the bytes
/// were not a parseable ELF container.
pub open spec fn spec_add_section_symbols(
    s: Seq<SymbolView>,
    module: Seq<char>,
    parsed: Option<Seq<SectionView>>,
) -> Seq<SymbolView> {
    match parsed {
        Option::None => s,
        Option::Some(secs) => spec_synthesize(s, module, secs),
    }
}

/// Synthesis preserves the table invariant.
pub proof fn lemma_synthesize_sorted(s: Seq<SymbolView>, module: Seq<char>, secs: Seq<SectionView>)
    requires
        sorted_by_rva(s),
    ensures
        sorted_by_rva(spec_synthesize(s, module, secs)),
    decreases secs.len(),
{
    if secs.len() > 0 {
        lemma_synthesize_sorted(s, module, secs.drop_last());
        if spec_section_executable(secs.last().sh_flags) {
            crate::table::lemma_insert_sorted(
                spec_synthesize(s, module, secs.drop_last()),
                spec_synthetic_record(module, secs.last()),
            );
        }
    }
}

/// After synthesis every executable section's start address is covered by
/// some record.
pub proof fn lemma_synthesize_covers(s: Seq<SymbolView>, module: Seq<char>, secs: Seq<SectionView>)
    ensures
        forall|i: int|
            0 <= i < secs.len() && spec_section_executable((#[trigger] secs[i]).sh_flags)
                ==> contains_rva(spec_synthesize(s, module, secs), section_rva(secs[i].sh_addr)),
    decreases secs.len(),
{
    if secs.len() > 0 {
        let front = secs.drop_last();
        lemma_synthesize_covers(s, module, front);
        let prev = spec_synthesize(s, module, front);
        let out = spec_synthesize(s, module, secs);
        assert forall|i: int|
            0 <= i < secs.len() && spec_section_executable(
                (#[trigger] secs[i]).sh_flags,
            ) implies contains_rva(out, section_rva(secs[i].sh_addr)) by {
            if spec_section_executable(secs.last().sh_flags) {
                let v = spec_synthetic_record(module, secs.last());
                crate::table::lemma_insert_contains(prev, v, section_rva(secs[i].sh_addr));
                if i < secs.len() - 1 {
                    assert(front[i] == secs[i]);
                }
            } else {
                assert(i < secs.len() - 1);
                assert(front[i] == secs[i]);
            }
        }
    }
}

/// Synthesis into a sorted table that already covers every executable
/// section's start address changes nothing.
proof fn lemma_synthesize_noop(t: Seq<SymbolView>, module: Seq<char>, secs: Seq<SectionView>)
    requires
        sorted_by_rva(t),
        forall|i: int|
            0 <= i < secs.len() && spec_section_executable((#[trigger] secs[i]).sh_flags)
                ==> contains_rva(t, section_rva(secs[i].sh_addr)),
    ensures
        spec_synthesize(t, module, secs) == t,
    decreases secs.len(),
{
    if secs.len() > 0 {
        let front = secs.drop_last();
        assert forall|i: int|
            0 <= i < front.len() && spec_section_executable(
                (#[trigger] front[i]).sh_flags,
            ) implies contains_rva(t, section_rva(front[i].sh_addr)) by {
            assert(front[i] == secs[i]);
        }
        lemma_synthesize_noop(t, module, front);
        if spec_section_executable(secs.last().sh_flags) {
            let v = spec_synthetic_record(module, secs.last());
            assert(contains_rva(t, v.rva));
            crate::table::lemma_insert_existing(t, v);
        }
    }
}

/// Synthesis is idempotent: running it twice over the same table, module
/// name and parse result yields the table that one run yields.
pub proof fn lemma_synthesis_idempotent(
    s: Seq<SymbolView>,
    module: Seq<char>,
    parsed: Option<Seq<SectionView>>,
)
    requires
        sorted_by_rva(s),
    ensures
        spec_add_section_symbols(spec_add_section_symbols(s, module, parsed), module, parsed)
            == spec_add_section_symbols(s, module, parsed),
{
    match parsed {
        Option::Some(secs) => {
            lemma_synthesize_sorted(s, module, secs);
            lemma_synthesize_covers(s, module, secs);
            lemma_synthesize_noop(spec_synthesize(s, module, secs), module, secs);
        },
        Option::None => {},
    }
}

fn section_symbol_name(section_name: &Option<String>, module: &str) -> (r: String)
    ensures
        r@ == spec_section_symbol_name(
            match section_name {
                Option::Some(n) => Option::Some(n@),
                Option::None => Option::None,
            },
            module@,
        ),
{
    let mut s = String::from_str("<");
    match section_name {
        Some(n) => s.append(n.as_str()),
        None => s.append("unknown"),
    }
    s.append(" ELF section in ");
    if module.is_empty() {
        s.append("unknown");
    } else {
        s.append(module);
    }
    s.append(">");
    proof {
        assert(s@ =~= spec_section_symbol_name(
            match section_name {
                Option::Some(n) => Option::Some(n@),
                Option::None => Option::None,
            },
            module@,
        ));
    }
    s
}

/// Re-parses `data` as an ELF container and inserts, for every executable
/// section header, a synthetic public placeholder record at the section's
/// start address — unless a record already exists at that exact address,
/// which is then left untouched. When `data` is not a parseable ELF
/// container the table is returned byte-for-byte unchanged.
pub fn add_executable_section_symbols(syms: ElfSymbols, name: &str, data: &[u8]) -> (r:
    ElfSymbols)
    requires
        syms.wf(),
    ensures
        r.wf(),
        r@ == spec_add_section_symbols(syms@, name@, elf_sections_of(data@)),
        elf_sections_of(data@) is None ==> r@ == syms@,
{
    let ghost s0 = syms@;
    let parsed = parse_elf_sections(data);
    match parsed {
        None => syms,
        Some(sections) => {
            let ghost sv = sections@.map_values(|s: ElfSection| s@);
            let mut t = syms;
            let n = sections.len();
            let mut i: usize = 0;
            proof {
                assert(sv.take(0) =~= Seq::<SectionView>::empty());
            }
            while i < n
                invariant
                    i <= n,
                    n == sections@.len(),
                    sv == sections@.map_values(|s: ElfSection| s@),
                    t.wf(),
                    t@ == spec_synthesize(s0, name@, sv.take(i as int)),
                decreases n - i,
            {
                proof {
                    assert(sv.take(i + 1).drop_last() =~= sv.take(i as int));
                    assert(sv.take(i + 1).last() == sv[i as int]);
                    assert(sv[i as int] == sections@[i as int]@);
                }
                if section_is_executable(sections[i].sh_flags) {
                    let symbol_name = section_symbol_name(&sections[i].name, name);
                    let rva = (sections[i].sh_addr % 0x1_0000_0000) as u32;
                    let record = ElfSymbol {
                        name: symbol_name,
                        is_public: true,
                        is_multiple: false,
                        is_synthetic: true,
                        rva,
                        len: 0,
                        parameter_size: 0,
                        source: Lines::new(),
                    };
                    proof {
                        assert(record@ =~= spec_synthetic_record(name@, sv[i as int]));
                    }
                    t.insert(record);
                }
                i += 1;
            }
            proof {
                assert(sv.take(n as int) =~= sv);
            }
            t
        },
    }
}

} // verus!
