use elf_symbols::lines::Lines;
use elf_symbols::symbol::ElfSymbol;
use elf_symbols::synth::add_executable_section_symbols;
use elf_symbols::table::{ContainsSymbol, ElfSymbols};

fn record(rva: u32, len: u32, name: &str) -> ElfSymbol {
    ElfSymbol {
        name: name.to_string(),
        is_public: false,
        is_multiple: false,
        is_synthetic: false,
        rva,
        len,
        parameter_size: 0,
        source: Lines::new(),
    }
}

fn assert_tables_equal(a: &ElfSymbols, b: &ElfSymbols) {
    assert_eq!(a.len(), b.len());
    for i in 0..a.len() {
        let x = a.record_at(i);
        let y = b.record_at(i);
        assert_eq!(x.name, y.name);
        assert_eq!(x.is_public, y.is_public);
        assert_eq!(x.is_multiple, y.is_multiple);
        assert_eq!(x.is_synthetic, y.is_synthetic);
        assert_eq!(x.rva, y.rva);
        assert_eq!(x.len, y.len);
        assert_eq!(x.parameter_size, y.parameter_size);
        assert_eq!(x.source.lines, y.source.lines);
        assert_eq!(x.source.inlines.len(), y.source.inlines.len());
    }
}

#[test]
fn containment_is_half_open_against_nearest_preceding_record() {
    let mut table = ElfSymbols::new();
    table.insert(record(0x1000, 0x10, "a"));
    table.insert(record(0x2000, 0, "b"));
    // Before the first record.
    assert!(!table.is_inside_symbol(0xfff));
    // A record's own start address is excluded from the preceding search.
    assert!(!table.is_inside_symbol(0x1000));
    // Strictly inside the half-open span.
    assert!(table.is_inside_symbol(0x1001));
    assert!(table.is_inside_symbol(0x100f));
    // Exactly one past the end: end-exclusive.
    assert!(!table.is_inside_symbol(0x1010));
    // In a gap between records.
    assert!(!table.is_inside_symbol(0x1800));
    // A zero-length record contains no address.
    assert!(!table.is_inside_symbol(0x2001));
}

#[test]
fn insertion_orders_by_address_and_keeps_existing_records() {
    let mut table = ElfSymbols::new();
    table.insert(record(0x3000, 1, "late"));
    table.insert(record(0x1000, 1, "early"));
    table.insert(record(0x2000, 1, "middle"));
    assert_eq!(table.len(), 3);
    assert_eq!(table.record_at(0).rva, 0x1000);
    assert_eq!(table.record_at(1).rva, 0x2000);
    assert_eq!(table.record_at(2).rva, 0x3000);
    // A second record at an occupied address never overwrites.
    table.insert(record(0x2000, 99, "intruder"));
    assert_eq!(table.len(), 3);
    assert_eq!(table.record_at(1).name, "middle");
    assert_eq!(table.record_at(1).len, 1);
    // Exact-key lookup.
    assert_eq!(table.get(0x2000).unwrap().name, "middle");
    assert!(table.get(0x1500).is_none());
}

fn push_u16(v: &mut Vec<u8>, x: u16) {
    v.extend_from_slice(&x.to_le_bytes());
}

fn push_u32(v: &mut Vec<u8>, x: u32) {
    v.extend_from_slice(&x.to_le_bytes());
}

fn push_u64(v: &mut Vec<u8>, x: u64) {
    v.extend_from_slice(&x.to_le_bytes());
}

/// String table shared by every test image; name offsets into it:
/// 1 = ".text", 7 = ".data", 13 = ".shstrtab".
const STRTAB: &[u8] = b"\0.text\0.data\0.shstrtab\0";

/// Builds a minimal little-endian ELF64 image whose section header table
/// holds a null section, one section per `(sh_name, sh_flags, sh_addr)`
/// entry, and the section-name string table.
fn build_elf(sections: &[(u32, u64, u64)]) -> Vec<u8> {
    let shnum = sections.len() as u16 + 2;
    let shoff: u64 = 64;
    let strtab_off = shoff + 64 * shnum as u64;
    let mut v = Vec::new();
    // ELF header.
    v.extend_from_slice(&[0x7f, b'E', b'L', b'F', 2, 1, 1, 0]);
    v.extend_from_slice(&[0u8; 8]);
    push_u16(&mut v, 3); // e_type: shared object
    push_u16(&mut v, 0x3e); // e_machine: x86-64
    push_u32(&mut v, 1); // e_version
    push_u64(&mut v, 0); // e_entry
    push_u64(&mut v, 0); // e_phoff
    push_u64(&mut v, shoff);
    push_u32(&mut v, 0); // e_flags
    push_u16(&mut v, 64); // e_ehsize
    push_u16(&mut v, 0); // e_phentsize
    push_u16(&mut v, 0); // e_phnum
    push_u16(&mut v, 64); // e_shentsize
    push_u16(&mut v, shnum);
    push_u16(&mut v, shnum - 1); // e_shstrndx: the last section
    // Null section header.
    v.extend_from_slice(&[0u8; 64]);
    // One header per requested section (SHT_PROGBITS, no file contents).
    for &(sh_name, sh_flags, sh_addr) in sections {
        push_u32(&mut v, sh_name);
        push_u32(&mut v, 1); // sh_type: PROGBITS
        push_u64(&mut v, sh_flags);
        push_u64(&mut v, sh_addr);
        push_u64(&mut v, strtab_off); // sh_offset (no contents)
        push_u64(&mut v, 0); // sh_size
        push_u32(&mut v, 0); // sh_link
        push_u32(&mut v, 0); // sh_info
        push_u64(&mut v, 1); // sh_addralign
        push_u64(&mut v, 0); // sh_entsize
    }
    // Section-name string table header.
    push_u32(&mut v, 13);
    push_u32(&mut v, 3); // sh_type: STRTAB
    push_u64(&mut v, 0);
    push_u64(&mut v, 0);
    push_u64(&mut v, strtab_off);
    push_u64(&mut v, STRTAB.len() as u64);
    push_u32(&mut v, 0);
    push_u32(&mut v, 0);
    push_u64(&mut v, 1);
    push_u64(&mut v, 0);
    assert_eq!(v.len() as u64, strtab_off);
    v.extend_from_slice(STRTAB);
    v
}

const EXEC_FLAGS: u64 = 0x6; // SHF_ALLOC | SHF_EXECINSTR
const DATA_FLAGS: u64 = 0x3; // SHF_WRITE | SHF_ALLOC

#[test]
fn synthesis_inserts_one_record_per_executable_section() {
    let elf = build_elf(&[(1, EXEC_FLAGS, 0x400000)]);
    let table = add_executable_section_symbols(ElfSymbols::new(), "app.so", &elf);
    assert_eq!(table.len(), 1);
    let sym = table.record_at(0);
    assert_eq!(sym.rva, 0x400000);
    assert_eq!(sym.name, "<.text ELF section in app.so>");
    assert!(sym.is_public);
    assert!(sym.is_synthetic);
    assert!(!sym.is_multiple);
    assert_eq!(sym.len, 0);
    assert_eq!(sym.parameter_size, 0);
    assert!(sym.source.lines.is_empty());
    assert!(sym.source.inlines.is_empty());
}

#[test]
fn synthesis_skips_non_executable_sections() {
    let elf = build_elf(&[(1, EXEC_FLAGS, 0x400000), (7, DATA_FLAGS, 0x600000)]);
    let table = add_executable_section_symbols(ElfSymbols::new(), "app.so", &elf);
    assert_eq!(table.len(), 1);
    assert_eq!(table.record_at(0).rva, 0x400000);
}

#[test]
fn synthesis_substitutes_unknown_for_an_empty_module_name() {
    let elf = build_elf(&[(1, EXEC_FLAGS, 0x400000)]);
    let table = add_executable_section_symbols(ElfSymbols::new(), "", &elf);
    assert_eq!(table.record_at(0).name, "<.text ELF section in unknown>");
}

#[test]
fn synthesis_substitutes_unknown_for_a_missing_section_name() {
    // sh_name points past the end of the string table.
    let elf = build_elf(&[(100, EXEC_FLAGS, 0x400000)]);
    let table = add_executable_section_symbols(ElfSymbols::new(), "app.so", &elf);
    assert_eq!(table.record_at(0).name, "<unknown ELF section in app.so>");
}

#[test]
fn synthesis_never_overwrites_an_existing_record() {
    let elf = build_elf(&[(1, EXEC_FLAGS, 0x400000)]);
    let mut table = ElfSymbols::new();
    table.insert(record(0x400000, 0x20, "real_function"));
    let table = add_executable_section_symbols(table, "app.so", &elf);
    assert_eq!(table.len(), 1);
    let sym = table.record_at(0);
    assert_eq!(sym.name, "real_function");
    assert!(!sym.is_synthetic);
    assert!(!sym.is_public);
    assert_eq!(sym.len, 0x20);
}

#[test]
fn synthesis_leaves_the_table_unchanged_for_non_elf_input() {
    let mut table = ElfSymbols::new();
    table.insert(record(0x1000, 4, "keep_me"));
    table.insert(record(0x2000, 8, "me_too"));
    let mut reference = ElfSymbols::new();
    reference.insert(record(0x1000, 4, "keep_me"));
    reference.insert(record(0x2000, 8, "me_too"));
    let out = add_executable_section_symbols(table, "app.so", b"definitely not an ELF image");
    assert_tables_equal(&out, &reference);
}

#[test]
fn synthesis_is_idempotent() {
    let elf = build_elf(&[(1, EXEC_FLAGS, 0x400000), (7, DATA_FLAGS, 0x600000)]);
    let mut table = ElfSymbols::new();
    table.insert(record(0x1000, 4, "existing"));
    let once = add_executable_section_symbols(table, "app.so", &elf);
    let twice = add_executable_section_symbols(
        add_executable_section_symbols(
            {
                let mut t = ElfSymbols::new();
                t.insert(record(0x1000, 4, "existing"));
                t
            },
            "app.so",
            &elf,
        ),
        "app.so",
        &elf,
    );
    assert_tables_equal(&once, &twice);
    assert_eq!(once.len(), 2);
}
