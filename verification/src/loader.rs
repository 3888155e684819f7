//! Metadata loader: find the `.mldyn` and `.mlhook` sections of an ELF or
//! PE image, walk their packed little-endian records, resolve the
//! virtual-address string references, and build the dynamic-symbol and
//! hook tables. Header parsing is delegated to goblin behind trusted
//! items; everything after the header — section matching, the
//! address-to-file-offset translation, record decoding, string reading
//! and hook bucketing — is verified here.

use vstd::prelude::*;

use vstd::utf8::decode_utf8;
use vstd::utf8::valid_utf8;
use vstd::wrapping::u64_specs;

use crate::defs::Error;

verus! {

/// Flag bit: the hook mediates dispatch for its target.
pub const FLAG_DISPATCHER: u64 = 0x01;

/// Flag bit: the hook may be attached and detached at runtime.
pub const FLAG_DYNAMIC: u64 = 0x02;

/// Flag bit: the hook runs under the target's mutual exclusion.
pub const FLAG_LOCKING: u64 = 0x04;

/// Flag bit: the hook is installed before the module's initializers.
pub const FLAG_PRELOAD: u64 = 0x08;

/// Flag bit: a failure to install the hook is tolerated.
pub const FLAG_OPTIONAL: u64 = 0x10;

/// Flag bit: the hook runs before its bucket's other hooks.
pub const FLAG_PRIORITY: u64 = 0x20;

/// What kind of module an image is.
#[derive(PartialEq, Eq, Structural, Clone, Copy, Debug)]
pub enum ModuleKind {
    Binary,
}

/// One `.mldyn` record, resolved: a module-relative address, the symbol
/// name, and an optional free-form record string.
pub struct DynamicEntry {
    pub address: usize,
    pub sym: String,
    pub record: String,
}

/// One `.mlhook` record, resolved and flag-decoded.
#[derive(PartialEq, Eq, Structural, Clone, Copy, Debug)]
pub struct HookEntry {
    pub target: usize,
    pub callback: usize,
    pub dispatcher: bool,
    pub dynamic: bool,
    pub locking: bool,
    pub preload: bool,
    pub optional: bool,
    pub priority: bool,
}

/// The resolved `.mldyn` records, in section order.
pub type DynamicTable = Vec<DynamicEntry>;

/// The resolved `.mlhook` records, bucketed by flag at ingest time;
/// insertion order is preserved inside each bucket.
pub struct HookTable {
    pub dispatchers: Vec<HookEntry>,
    pub hooks: Vec<HookEntry>,
    pub locking_hooks: Vec<HookEntry>,
}

impl Default for HookTable {
    /// An empty table.
    fn default() -> (r: HookTable)
        ensures
            r.dispatchers@ == Seq::<HookEntry>::empty(),
            r.hooks@ == Seq::<HookEntry>::empty(),
            r.locking_hooks@ == Seq::<HookEntry>::empty(),
    {
        HookTable { dispatchers: Vec::new(), hooks: Vec::new(), locking_hooks: Vec::new() }
    }
}

/// One section header, reduced to what the loader reads: the raw name
/// bytes, the section's virtual address, and where its raw contents stand
/// in the file.
pub struct SectionInfo {
    pub name: Vec<u8>,
    pub virtual_address: u64,
    pub size_of_raw_data: u64,
    pub pointer_to_raw_data: u64,
}

/// An image's header data, reduced to what the loader reads.
pub struct ImageInfo {
    pub is_64: bool,
    pub image_base: u64,
    pub sections: Vec<SectionInfo>,
}

pub uninterp spec fn pe_info_of(image: Seq<u8>) -> Option<ImageInfo>;

/// Relies on goblin's PE parser: the header data read from a byte image
/// depends on those bytes alone; `None` reports a malformed image.
#[verifier::external_body]
fn parse_pe_info(image: &[u8]) -> (r: Option<ImageInfo>)
    ensures
        r == pe_info_of(image@),
{
    match goblin::pe::PE::parse(image) {
        Ok(pe) => Some(ImageInfo {
            is_64: pe.is_64,
            image_base: pe.image_base,
            sections: pe.sections.iter().map(|s| SectionInfo {
                name: s.name.to_vec(),
                virtual_address: s.virtual_address as u64,
                size_of_raw_data: s.size_of_raw_data as u64,
                pointer_to_raw_data: s.pointer_to_raw_data as u64,
            }).collect(),
        }),
        Err(_) => None,
    }
}

pub uninterp spec fn elf_info_of(image: Seq<u8>) -> Option<ImageInfo>;

/// Relies on goblin's ELF parser: the section headers read from a byte
/// image depend on those bytes alone. An ELF image's reference base is
/// zero; a section with no readable name gets an empty one and so never
/// matches.
#[verifier::external_body]
fn parse_elf_info(image: &[u8]) -> (r: Option<ImageInfo>)
    ensures
        r == elf_info_of(image@),
{
    match goblin::elf::Elf::parse(image) {
        Ok(elf) => Some(ImageInfo {
            is_64: elf.is_64,
            image_base: 0,
            sections: elf.section_headers.iter().map(|sh| SectionInfo {
                name: elf.shdr_strtab.get_at(sh.sh_name).map(|n| n.as_bytes().to_vec()).unwrap_or(Vec::new()),
                virtual_address: sh.sh_addr,
                size_of_raw_data: sh.sh_size,
                pointer_to_raw_data: sh.sh_offset,
            }).collect(),
        }),
        Err(_) => None,
    }
}

/// Relies on `String::from_utf8`: it succeeds exactly on valid UTF-8 and
/// the resulting string decodes those bytes.
#[verifier::external_body]
fn string_from_utf8(bytes: Vec<u8>) -> (r: Option<String>)
    ensures
        r is Some <==> valid_utf8(bytes@),
        r matches Some(s) ==> s@ == decode_utf8(bytes@),
{
    String::from_utf8(bytes).ok()
}

/// The name of the dynamic-record section, `.mldyn`.
pub open spec fn spec_dyn_name() -> Seq<u8> {
    seq![46u8, 109u8, 108u8, 100u8, 121u8, 110u8]
}

/// The name of the hook-record section, `.mlhook`.
pub open spec fn spec_hook_name() -> Seq<u8> {
    seq![46u8, 109u8, 108u8, 104u8, 111u8, 111u8, 107u8]
}

fn dyn_name() -> (r: Vec<u8>)
    ensures
        r@ == spec_dyn_name(),
{
    let mut v: Vec<u8> = Vec::new();
    v.push(46u8);
    v.push(109u8);
    v.push(108u8);
    v.push(100u8);
    v.push(121u8);
    v.push(110u8);
    proof {
        assert(v@ =~= spec_dyn_name());
    }
    v
}

fn hook_name() -> (r: Vec<u8>)
    ensures
        r@ == spec_hook_name(),
{
    let mut v: Vec<u8> = Vec::new();
    v.push(46u8);
    v.push(109u8);
    v.push(108u8);
    v.push(104u8);
    v.push(111u8);
    v.push(111u8);
    v.push(107u8);
    proof {
        assert(v@ =~= spec_hook_name());
    }
    v
}

/// A stored section name matches a wanted one when it carries the wanted
/// bytes, padded only by trailing NULs (the PE name field is fixed-width).
pub open spec fn sec_name_matches(name: Seq<u8>, want: Seq<u8>) -> bool {
    &&& name.len() >= want.len()
    &&& name.subrange(0, want.len() as int) == want
    &&& forall|k: int| want.len() <= k < name.len() ==> name[k] == 0
}

fn name_matches(name: &[u8], want: &[u8]) -> (r: bool)
    ensures
        r == sec_name_matches(name@, want@),
{
    if name.len() < want.len() {
        return false;
    }
    let mut k: usize = 0;
    while k < want.len()
        invariant
            k <= want@.len() <= name@.len(),
            forall|j: int| 0 <= j < k ==> name@[j] == want@[j],
        decreases want@.len() - k,
    {
        if name[k] != want[k] {
            return false;
        }
        k = k + 1;
    }
    while k < name.len()
        invariant
            want@.len() <= k <= name@.len(),
            name@.subrange(0, want@.len() as int) =~= want@,
            forall|j: int| want@.len() <= j < k ==> name@[j] == 0,
        decreases name@.len() - k,
    {
        if name[k] != 0 {
            return false;
        }
        k = k + 1;
    }
    proof {
        assert(name@.subrange(0, want@.len() as int) =~= want@);
    }
    true
}

/// The first section whose name matches, scanning from `i`.
pub open spec fn spec_find_section(sections: Seq<SectionInfo>, want: Seq<u8>, i: int) -> Option<
    int,
>
    decreases sections.len() - i,
{
    if i < 0 || i >= sections.len() {
        None
    } else if sec_name_matches(sections[i].name@, want) {
        Some(i)
    } else {
        spec_find_section(sections, want, i + 1)
    }
}

fn find_section(info: &ImageInfo, want: &[u8]) -> (r: Option<usize>)
    ensures
        match r {
            Some(i) => i < info.sections@.len() && spec_find_section(info.sections@, want@, 0)
                == Some(i as int),
            None => spec_find_section(info.sections@, want@, 0) is None,
        },
{
    let mut i: usize = 0;
    loop
        invariant
            i <= info.sections@.len(),
            spec_find_section(info.sections@, want@, 0) == spec_find_section(
                info.sections@,
                want@,
                i as int,
            ),
        decreases info.sections@.len() - i,
    {
        if i >= info.sections.len() {
            return None;
        }
        if name_matches(info.sections[i].name.as_slice(), want) {
            return Some(i);
        }
        i = i + 1;
    }
}

/// The little-endian 32-bit value at `off`, widened.
pub open spec fn spec_le32(b: Seq<u8>, off: int) -> u64 {
    (b[off] + b[off + 1] * 0x100 + b[off + 2] * 0x10000 + b[off + 3] * 0x1000000) as u64
}

/// The little-endian 64-bit value at `off`.
pub open spec fn spec_le64(b: Seq<u8>, off: int) -> u64 {
    (b[off] + b[off + 1] * 0x100 + b[off + 2] * 0x10000 + b[off + 3] * 0x1000000 + b[off + 4]
        * 0x100000000 + b[off + 5] * 0x10000000000 + b[off + 6] * 0x1000000000000 + b[off + 7]
        * 0x100000000000000) as u64
}

fn read_u32_le(image: &[u8], off: usize) -> (r: u64)
    requires
        off + 4 <= image@.len(),
    ensures
        r == spec_le32(image@, off as int),
{
    (image[off] as u64) + (image[off + 1] as u64) * 0x100 + (image[off + 2] as u64) * 0x10000 + (
    image[off + 3] as u64) * 0x1000000
}

fn read_u64_le(image: &[u8], off: usize) -> (r: u64)
    requires
        off + 8 <= image@.len(),
    ensures
        r == spec_le64(image@, off as int),
{
    (image[off] as u64) + (image[off + 1] as u64) * 0x100 + (image[off + 2] as u64) * 0x10000 + (
    image[off + 3] as u64) * 0x1000000 + (image[off + 4] as u64) * 0x100000000 + (image[off
        + 5] as u64) * 0x10000000000 + (image[off + 6] as u64) * 0x1000000000000 + (image[off
        + 7] as u64) * 0x100000000000000
}

/// Whether a section covers virtual address `va`, by the strict rule: the
/// address must lie strictly between the section's start and the end of
/// its raw data; exact boundaries are rejected. A section whose file
/// mapping would run out of the address space is ignored.
pub open spec fn sec_maps_va(base: u64, s: SectionInfo, va: u64) -> bool {
    &&& base + s.virtual_address < va
    &&& va < base + s.virtual_address + s.size_of_raw_data
    &&& va - (base + s.virtual_address) + s.pointer_to_raw_data <= u64::MAX
}

/// The file offset of virtual address `va`, resolved against the first
/// section covering it, scanning from `i`.
pub open spec fn spec_find_raw(base: u64, sections: Seq<SectionInfo>, va: u64, i: int) -> Option<
    int,
>
    decreases sections.len() - i,
{
    if i < 0 || i >= sections.len() {
        None
    } else if sec_maps_va(base, sections[i], va) {
        Some(va - (base + sections[i].virtual_address) + sections[i].pointer_to_raw_data)
    } else {
        spec_find_raw(base, sections, va, i + 1)
    }
}

fn find_raw_addr(base: u64, info: &ImageInfo, va: u64) -> (r: Option<u64>)
    ensures
        match r {
            Some(off) => spec_find_raw(base, info.sections@, va, 0) == Some(off as int),
            None => spec_find_raw(base, info.sections@, va, 0) is None,
        },
{
    let mut i: usize = 0;
    loop
        invariant
            i <= info.sections@.len(),
            spec_find_raw(base, info.sections@, va, 0) == spec_find_raw(
                base,
                info.sections@,
                va,
                i as int,
            ),
        decreases info.sections@.len() - i,
    {
        if i >= info.sections.len() {
            return None;
        }
        let s = &info.sections[i];
        if va > base && va - base > s.virtual_address && (va - base) - s.virtual_address
            < s.size_of_raw_data && (va - base) - s.virtual_address <= u64::MAX
            - s.pointer_to_raw_data {
            let off = (va - base) - s.virtual_address + s.pointer_to_raw_data;
            proof {
                assert(sec_maps_va(base, info.sections@[i as int], va));
            }
            return Some(off);
        }
        proof {
            assert(!sec_maps_va(base, info.sections@[i as int], va)) by {
                if base + s.virtual_address < va && va < base + s.virtual_address
                    + s.size_of_raw_data {
                    assert(va > base);
                }
            }
        }
        i = i + 1;
    }
}

/// The NUL-terminated byte run starting at `p`, or nothing if no NUL
/// follows inside the image.
pub open spec fn spec_cstr(image: Seq<u8>, p: int) -> Option<Seq<u8>>
    decreases image.len() - p,
{
    if p < 0 || p >= image.len() {
        None
    } else if image[p] == 0 {
        Some(Seq::empty())
    } else {
        match spec_cstr(image, p + 1) {
            Some(s) => Some(seq![image[p]] + s),
            None => None,
        }
    }
}

proof fn lemma_cstr_found(image: Seq<u8>, p: int, e: int)
    requires
        0 <= p <= e < image.len(),
        image[e] == 0,
        forall|k: int| p <= k < e ==> image[k] != 0,
    ensures
        spec_cstr(image, p) == Some(image.subrange(p, e)),
    decreases e - p,
{
    if p == e {
        assert(image.subrange(p, e) =~= Seq::<u8>::empty());
    } else {
        lemma_cstr_found(image, p + 1, e);
        assert(seq![image[p]] + image.subrange(p + 1, e) =~= image.subrange(p, e));
    }
}

proof fn lemma_cstr_missing(image: Seq<u8>, p: int)
    requires
        0 <= p,
        forall|k: int| p <= k < image.len() ==> image[k] != 0,
    ensures
        spec_cstr(image, p) is None,
    decreases image.len() - p,
{
    if p < image.len() {
        lemma_cstr_missing(image, p + 1);
    }
}

fn read_cstr(image: &[u8], p: u64) -> (r: Option<Vec<u8>>)
    ensures
        match r {
            Some(v) => spec_cstr(image@, p as int) == Some(v@),
            None => spec_cstr(image@, p as int) is None,
        },
{
    let ilen: usize = image.len();
    if p >= ilen as u64 {
        return None;
    }
    let start = p as usize;
    proof {
        assert(p <= ilen);
        assert(start as int == p as int);
    }
    let mut e: usize = start;
    loop
        invariant
            start as int == p as int,
            start <= e <= image@.len(),
            forall|k: int| start <= k < e ==> image@[k] != 0,
        decreases image@.len() - e,
    {
        if e >= image.len() {
            proof {
                lemma_cstr_missing(image@, start as int);
            }
            return None;
        }
        if image[e] == 0 {
            proof {
                lemma_cstr_found(image@, start as int, e as int);
            }
            let mut v: Vec<u8> = Vec::new();
            let mut k: usize = start;
            while k < e
                invariant
                    start <= k <= e <= image@.len(),
                    v@.len() == k - start,
                    forall|j: int| 0 <= j < v@.len() ==> v@[j] == image@[start + j],
                decreases e - k,
            {
                v.push(image[k]);
                k = k + 1;
            }
            proof {
                assert(v@ =~= image@.subrange(start as int, e as int));
            }
            return Some(v);
        }
        e = e + 1;
    }
}

/// The string referenced by virtual address `va`: resolve the address to
/// a file offset, take the NUL-terminated bytes there, and decode them as
/// UTF-8. Nothing when the address resolves to no section, the bytes run
/// off the image, or they are not UTF-8.
pub open spec fn spec_read_string(image: Seq<u8>, base: u64, sections: Seq<SectionInfo>, va: u64) -> Option<
    Seq<char>,
> {
    match spec_find_raw(base, sections, va, 0) {
        Some(off) => match spec_cstr(image, off) {
            Some(bytes) => if valid_utf8(bytes) {
                Some(decode_utf8(bytes))
            } else {
                None
            },
            None => None,
        },
        None => None,
    }
}

fn read_raw_string(image: &[u8], base: u64, info: &ImageInfo, va: u64) -> (r: Option<String>)
    ensures
        match r {
            Some(s) => spec_read_string(image@, base, info.sections@, va) == Some(s@),
            None => spec_read_string(image@, base, info.sections@, va) is None,
        },
{
    match find_raw_addr(base, info, va) {
        Some(off) => match read_cstr(image, off) {
            Some(bytes) => string_from_utf8(bytes),
            None => None,
        },
        None => None,
    }
}

/// The module-relative rebasing offset: with a nonzero load offset, the
/// image base is subtracted from it once per parse; a zero offset stores
/// record fields verbatim.
pub open spec fn spec_eff(offset: u64, image_base: u64) -> u64 {
    if offset != 0 {
        u64_specs::wrapping_sub(offset, image_base)
    } else {
        0
    }
}

/// The resolved `.mldyn` records from the section's raw bytes, scanning
/// at `pos`: `(address, symbol, record)` triples until the section is
/// exhausted or a record's primary field is zero. Nothing when a record
/// runs off the image or a symbol string cannot be read.
pub open spec fn spec_dyn_records(
    image: Seq<u8>,
    base: u64,
    sections: Seq<SectionInfo>,
    eff: u64,
    ptr: int,
    size: int,
    pos: int,
    wide: bool,
) -> Option<Seq<(usize, Seq<char>, Seq<char>)>>
    decreases size - pos,
{
    let rec: int = if wide {
        24
    } else {
        12
    };
    if pos < 0 || pos + rec > size {
        Some(Seq::empty())
    } else if ptr < 0 || ptr + pos + rec > image.len() {
        None
    } else {
        let addr = if wide {
            spec_le64(image, ptr + pos)
        } else {
            spec_le32(image, ptr + pos)
        };
        if addr == 0 {
            Some(Seq::empty())
        } else {
            let sym_va = if wide {
                spec_le64(image, ptr + pos + 8)
            } else {
                spec_le32(image, ptr + pos + 4)
            };
            let rec_va = if wide {
                spec_le64(image, ptr + pos + 16)
            } else {
                spec_le32(image, ptr + pos + 8)
            };
            match spec_read_string(image, base, sections, sym_va) {
                None => None,
                Some(sym) => {
                    let record = match spec_read_string(image, base, sections, rec_va) {
                        Some(sr) => sr,
                        None => Seq::empty(),
                    };
                    let address = u64_specs::wrapping_add(eff, addr) as usize;
                    match spec_dyn_records(image, base, sections, eff, ptr, size, pos + rec, wide) {
                        Some(rest) => Some(seq![(address, sym, record)] + rest),
                        None => None,
                    }
                },
            }
        }
    }
}

/// A resolved dynamic table carries exactly the given triples.
pub open spec fn dyn_table_matches(
    t: Seq<DynamicEntry>,
    s: Seq<(usize, Seq<char>, Seq<char>)>,
) -> bool {
    &&& t.len() == s.len()
    &&& forall|i: int|
        0 <= i < t.len() ==> (#[trigger] t[i]).address == s[i].0 && t[i].sym@ == s[i].1
            && t[i].record@ == s[i].2
}

fn dump_dyn(
    image: &[u8],
    base: u64,
    info: &ImageInfo,
    eff: u64,
    ptr: u64,
    size: u64,
    wide: bool,
) -> (r: Result<DynamicTable, Error>)
    ensures
        match spec_dyn_records(
            image@,
            base,
            info.sections@,
            eff,
            ptr as int,
            size as int,
            0,
            wide,
        ) {
            Some(s) => r is Ok && dyn_table_matches(r.unwrap()@, s),
            None => r == Err::<DynamicTable, Error>(Error::InvalidData),
        },
{
    let ghost fullspec = spec_dyn_records(
        image@,
        base,
        info.sections@,
        eff,
        ptr as int,
        size as int,
        0,
        wide,
    );
    let rec: u64 = if wide {
        24
    } else {
        12
    };
    let ilen: usize = image.len();
    let mut table: Vec<DynamicEntry> = Vec::new();
    let ghost mut built: Seq<(usize, Seq<char>, Seq<char>)> = Seq::empty();
    let mut pos: u64 = 0;
    loop
        invariant
            rec == (if wide { 24u64 } else { 12u64 }),
            ilen == image@.len(),
            pos <= size,
            dyn_table_matches(table@, built),
            fullspec == spec_dyn_records(image@, base, info.sections@, eff, ptr as int, size as int, 0, wide),
            fullspec == (match spec_dyn_records(
                image@,
                base,
                info.sections@,
                eff,
                ptr as int,
                size as int,
                pos as int,
                wide,
            ) {
                Some(rest) => Some(built + rest),
                None => None::<Seq<(usize, Seq<char>, Seq<char>)>>,
            }),
        decreases size - pos,
    {
        let ghost posspec = spec_dyn_records(
            image@,
            base,
            info.sections@,
            eff,
            ptr as int,
            size as int,
            pos as int,
            wide,
        );
        if size - pos < rec {
            proof {
                assert(built + Seq::<(usize, Seq<char>, Seq<char>)>::empty() =~= built);
            }
            return Ok(table);
        }
        if ptr > ilen as u64 || pos + rec > ilen as u64 - ptr {
            return Err(Error::InvalidData);
        }
        let off = (ptr + pos) as usize;
        proof {
            assert(off as int == ptr + pos);
        }
        let addr = if wide {
            read_u64_le(image, off)
        } else {
            read_u32_le(image, off)
        };
        if addr == 0 {
            proof {
                assert(built + Seq::<(usize, Seq<char>, Seq<char>)>::empty() =~= built);
            }
            return Ok(table);
        }
        let sym_va = if wide {
            read_u64_le(image, off + 8)
        } else {
            read_u32_le(image, off + 4)
        };
        let rec_va = if wide {
            read_u64_le(image, off + 16)
        } else {
            read_u32_le(image, off + 8)
        };
        let sym = match read_raw_string(image, base, info, sym_va) {
            Some(sv) => sv,
            None => {
                return Err(Error::InvalidData);
            },
        };
        let record = match read_raw_string(image, base, info, rec_va) {
            Some(sv) => sv,
            None => String::new(),
        };
        let address = eff.wrapping_add(addr) as usize;
        proof {
            let entry = (address, sym@, record@);
            match spec_dyn_records(
                image@,
                base,
                info.sections@,
                eff,
                ptr as int,
                size as int,
                pos as int + rec as int,
                wide,
            ) {
                Some(rest) => {
                    assert(built + (seq![entry] + rest) =~= built.push(entry) + rest);
                },
                None => {},
            }
            built = built.push(entry);
        }
        table.push(DynamicEntry { address, sym, record });
        pos = pos + rec;
    }
}

/// The hook entry a record with the given flag bits resolves to: a
/// dispatcher record forces every other option off; otherwise each
/// option reflects its flag bit.
pub open spec fn spec_hook_entry(eff: u64, target: u64, callback: u64, flags: u64) -> HookEntry {
    let t = u64_specs::wrapping_add(eff, target) as usize;
    let c = u64_specs::wrapping_add(eff, callback) as usize;
    if flags & FLAG_DISPATCHER != 0 {
        HookEntry {
            target: t,
            callback: c,
            dispatcher: true,
            dynamic: flags & FLAG_DYNAMIC != 0,
            locking: false,
            preload: false,
            optional: false,
            priority: false,
        }
    } else {
        HookEntry {
            target: t,
            callback: c,
            dispatcher: false,
            dynamic: flags & FLAG_DYNAMIC != 0,
            locking: flags & FLAG_LOCKING != 0,
            preload: flags & FLAG_PRELOAD != 0,
            optional: flags & FLAG_OPTIONAL != 0,
            priority: flags & FLAG_PRIORITY != 0,
        }
    }
}

/// The resolved `.mlhook` records in section order, scanning at `pos`.
/// Nothing when a record runs off the image.
pub open spec fn spec_hook_records(
    image: Seq<u8>,
    eff: u64,
    ptr: int,
    size: int,
    pos: int,
    wide: bool,
) -> Option<Seq<HookEntry>>
    decreases size - pos,
{
    let rec: int = if wide {
        24
    } else {
        16
    };
    if pos < 0 || pos + rec > size {
        Some(Seq::empty())
    } else if ptr < 0 || ptr + pos + rec > image.len() {
        None
    } else {
        let target = if wide {
            spec_le64(image, ptr + pos)
        } else {
            spec_le32(image, ptr + pos)
        };
        if target == 0 {
            Some(Seq::empty())
        } else {
            let callback = if wide {
                spec_le64(image, ptr + pos + 8)
            } else {
                spec_le32(image, ptr + pos + 4)
            };
            let flags = if wide {
                spec_le64(image, ptr + pos + 16)
            } else {
                spec_le64(image, ptr + pos + 8)
            };
            match spec_hook_records(image, eff, ptr, size, pos + rec, wide) {
                Some(rest) => Some(seq![spec_hook_entry(eff, target, callback, flags)] + rest),
                None => None,
            }
        }
    }
}

/// The three buckets of a record stream: dispatchers, plain hooks,
/// locking hooks, each in input order.
pub open spec fn spec_bucketed(s: Seq<HookEntry>) -> (
    Seq<HookEntry>,
    Seq<HookEntry>,
    Seq<HookEntry>,
) {
    (
        s.filter(|e: HookEntry| e.dispatcher),
        s.filter(|e: HookEntry| !e.dispatcher && !e.locking),
        s.filter(|e: HookEntry| !e.dispatcher && e.locking),
    )
}

proof fn lemma_filter_push<A>(s: Seq<A>, e: A, pred: spec_fn(A) -> bool)
    ensures
        s.push(e).filter(pred) == (if pred(e) {
            s.filter(pred).push(e)
        } else {
            s.filter(pred)
        }),
{
    reveal(Seq::filter);
    assert(s.push(e).drop_last() =~= s);
    assert(s.push(e).last() == e);
}

fn dump_hooks(image: &[u8], eff: u64, ptr: u64, size: u64, wide: bool) -> (r: Result<
    HookTable,
    Error,
>)
    ensures
        match spec_hook_records(image@, eff, ptr as int, size as int, 0, wide) {
            Some(s) => r is Ok && ({
                let t = r.unwrap();
                &&& t.dispatchers@ == spec_bucketed(s).0
                &&& t.hooks@ == spec_bucketed(s).1
                &&& t.locking_hooks@ == spec_bucketed(s).2
            }),
            None => r == Err::<HookTable, Error>(Error::InvalidData),
        },
{
    let ghost fullspec = spec_hook_records(image@, eff, ptr as int, size as int, 0, wide);
    let rec: u64 = if wide {
        24
    } else {
        16
    };
    let ilen: usize = image.len();
    let mut table = HookTable::default();
    let ghost mut flat: Seq<HookEntry> = Seq::empty();
    let mut pos: u64 = 0;
    loop
        invariant
            rec == (if wide { 24u64 } else { 16u64 }),
            ilen == image@.len(),
            pos <= size,
            table.dispatchers@ == spec_bucketed(flat).0,
            table.hooks@ == spec_bucketed(flat).1,
            table.locking_hooks@ == spec_bucketed(flat).2,
            fullspec == spec_hook_records(image@, eff, ptr as int, size as int, 0, wide),
            fullspec == (match spec_hook_records(
                image@,
                eff,
                ptr as int,
                size as int,
                pos as int,
                wide,
            ) {
                Some(rest) => Some(flat + rest),
                None => None::<Seq<HookEntry>>,
            }),
        decreases size - pos,
    {
        if size - pos < rec {
            proof {
                assert(flat + Seq::<HookEntry>::empty() =~= flat);
            }
            return Ok(table);
        }
        if ptr > ilen as u64 || pos + rec > ilen as u64 - ptr {
            return Err(Error::InvalidData);
        }
        let off = (ptr + pos) as usize;
        proof {
            assert(off as int == ptr + pos);
        }
        let target = if wide {
            read_u64_le(image, off)
        } else {
            read_u32_le(image, off)
        };
        if target == 0 {
            proof {
                assert(flat + Seq::<HookEntry>::empty() =~= flat);
            }
            return Ok(table);
        }
        let callback = if wide {
            read_u64_le(image, off + 8)
        } else {
            read_u32_le(image, off + 4)
        };
        let flags = if wide {
            read_u64_le(image, off + 16)
        } else {
            read_u64_le(image, off + 8)
        };
        let t = eff.wrapping_add(target) as usize;
        let c = eff.wrapping_add(callback) as usize;
        let dynamic = flags & FLAG_DYNAMIC != 0;
        let e: HookEntry = if flags & FLAG_DISPATCHER != 0 {
            HookEntry {
                target: t,
                callback: c,
                dispatcher: true,
                dynamic,
                locking: false,
                preload: false,
                optional: false,
                priority: false,
            }
        } else {
            HookEntry {
                target: t,
                callback: c,
                dispatcher: false,
                dynamic,
                locking: flags & FLAG_LOCKING != 0,
                preload: flags & FLAG_PRELOAD != 0,
                optional: flags & FLAG_OPTIONAL != 0,
                priority: flags & FLAG_PRIORITY != 0,
            }
        };
        proof {
            assert(e == spec_hook_entry(eff, target, callback, flags));
            lemma_filter_push(flat, e, |x: HookEntry| x.dispatcher);
            lemma_filter_push(flat, e, |x: HookEntry| !x.dispatcher && !x.locking);
            lemma_filter_push(flat, e, |x: HookEntry| !x.dispatcher && x.locking);
            match spec_hook_records(
                image@,
                eff,
                ptr as int,
                size as int,
                pos as int + rec as int,
                wide,
            ) {
                Some(rest) => {
                    assert(flat + (seq![e] + rest) =~= flat.push(e) + rest);
                },
                None => {},
            }
            flat = flat.push(e);
        }
        if e.dispatcher {
            table.dispatchers.push(e);
        } else if e.locking {
            table.locking_hooks.push(e);
        } else {
            table.hooks.push(e);
        }
        pos = pos + rec;
    }
}

/// The dynamic table an image's headers lead to: nothing to resolve when
/// the image has no `.mldyn` section.
pub open spec fn spec_dyn_table(image: Seq<u8>, info: ImageInfo, offset: u64) -> Option<
    Seq<(usize, Seq<char>, Seq<char>)>,
> {
    let eff = spec_eff(offset, info.image_base);
    match spec_find_section(info.sections@, spec_dyn_name(), 0) {
        None => Some(Seq::empty()),
        Some(i) => spec_dyn_records(
            image,
            info.image_base,
            info.sections@,
            eff,
            info.sections@[i].pointer_to_raw_data as int,
            info.sections@[i].size_of_raw_data as int,
            0,
            info.is_64,
        ),
    }
}

/// The hook records an image's headers lead to.
pub open spec fn spec_hook_table(image: Seq<u8>, info: ImageInfo, offset: u64) -> Option<
    Seq<HookEntry>,
> {
    let eff = spec_eff(offset, info.image_base);
    match spec_find_section(info.sections@, spec_hook_name(), 0) {
        None => Some(Seq::empty()),
        Some(i) => spec_hook_records(
            image,
            eff,
            info.sections@[i].pointer_to_raw_data as int,
            info.sections@[i].size_of_raw_data as int,
            0,
            info.is_64,
        ),
    }
}

/// What a dump must return, given the header data the image parser
/// found: `InvalidData` on a malformed image or malformed records, the
/// two resolved tables otherwise.
pub open spec fn dump_spec(
    infoopt: Option<ImageInfo>,
    image: Seq<u8>,
    offset: u64,
    r: Result<(DynamicTable, HookTable), Error>,
) -> bool {
    match infoopt {
        None => r == Err::<(DynamicTable, HookTable), Error>(Error::InvalidData),
        Some(info) => match (spec_dyn_table(image, info, offset), spec_hook_table(
            image,
            info,
            offset,
        )) {
            (Some(d), Some(h)) => match r {
                Ok(t) => dyn_table_matches(t.0@, d) && t.1.dispatchers@ == spec_bucketed(h).0
                    && t.1.hooks@ == spec_bucketed(h).1 && t.1.locking_hooks@ == spec_bucketed(
                    h,
                ).2,
                Err(_) => false,
            },
            _ => r == Err::<(DynamicTable, HookTable), Error>(Error::InvalidData),
        },
    }
}

fn dump_tables(offset: usize, image: &[u8], info: &ImageInfo) -> (r: Result<
    (DynamicTable, HookTable),
    Error,
>)
    ensures
        dump_spec(Some(*info), image@, offset as u64, r),
{
    let eff: u64 = if offset != 0 {
        (offset as u64).wrapping_sub(info.image_base)
    } else {
        0
    };
    let dn = dyn_name();
    let dyn_table = match find_section(info, dn.as_slice()) {
        None => Vec::new(),
        Some(i) => {
            let ptr = info.sections[i].pointer_to_raw_data;
            let size = info.sections[i].size_of_raw_data;
            match dump_dyn(image, info.image_base, info, eff, ptr, size, info.is_64) {
                Ok(t) => t,
                Err(e) => {
                    return Err(e);
                },
            }
        },
    };
    let hn = hook_name();
    let hook_table = match find_section(info, hn.as_slice()) {
        None => HookTable::default(),
        Some(i) => {
            let ptr = info.sections[i].pointer_to_raw_data;
            let size = info.sections[i].size_of_raw_data;
            match dump_hooks(image, eff, ptr, size, info.is_64) {
                Ok(t) => t,
                Err(e) => {
                    return Err(e);
                },
            }
        },
    };
    proof {
        let du = spec_dyn_table(image@, *info, offset as u64);
        let hu = spec_hook_table(image@, *info, offset as u64);
        assert(du is Some);
        assert(dyn_table_matches(dyn_table@, du.unwrap()));
        assert(hu is Some);
        assert(hook_table.dispatchers@ == spec_bucketed(hu.unwrap()).0);
        assert(hook_table.hooks@ == spec_bucketed(hu.unwrap()).1);
        assert(hook_table.locking_hooks@ == spec_bucketed(hu.unwrap()).2);
    }
    Ok((dyn_table, hook_table))
}

/// Extract the metadata tables of a PE image mapped at `offset`.
pub fn dump_pe(offset: usize, image: &[u8]) -> (r: Result<(DynamicTable, HookTable), Error>)
    ensures
        dump_spec(pe_info_of(image@), image@, offset as u64, r),
{
    match parse_pe_info(image) {
        Some(info) => dump_tables(offset, image, &info),
        None => Err(Error::InvalidData),
    }
}

/// Extract the metadata tables of an ELF image mapped at `offset`.
pub fn dump_elf(offset: usize, image: &[u8]) -> (r: Result<(DynamicTable, HookTable), Error>)
    ensures
        dump_spec(elf_info_of(image@), image@, offset as u64, r),
{
    match parse_elf_info(image) {
        Some(info) => dump_tables(offset, image, &info),
        None => Err(Error::InvalidData),
    }
}

/// The image starts with the PE `MZ` signature.
pub open spec fn spec_is_pe(image: Seq<u8>) -> bool {
    image.len() >= 2 && image[0] == 0x4D && image[1] == 0x5A
}

/// The image starts with the ELF magic.
pub open spec fn spec_is_elf(image: Seq<u8>) -> bool {
    image.len() >= 4 && image[0] == 0x7F && image[1] == 0x45 && image[2] == 0x4C && image[3] == 0x46
}

/// Extract the `.mldyn` and `.mlhook` tables of an ELF or PE image whose
/// bytes were mapped (or read) at load offset `offset`. An image of any
/// other format is `InvalidData`.
pub fn parse_ml_image(offset: usize, image: &[u8]) -> (r: Result<(DynamicTable, HookTable), Error>)
    ensures
        spec_is_elf(image@) ==> dump_spec(elf_info_of(image@), image@, offset as u64, r),
        !spec_is_elf(image@) && spec_is_pe(image@) ==> dump_spec(
            pe_info_of(image@),
            image@,
            offset as u64,
            r,
        ),
        !spec_is_elf(image@) && !spec_is_pe(image@) ==> r == Err::<
            (DynamicTable, HookTable),
            Error,
        >(Error::InvalidData),
{
    if image.len() >= 4 && image[0] == 0x7F && image[1] == 0x45 && image[2] == 0x4C && image[3]
        == 0x46 {
        dump_elf(offset, image)
    } else if image.len() >= 2 && image[0] == 0x4D && image[1] == 0x5A {
        dump_pe(offset, image)
    } else {
        Err(Error::InvalidData)
    }
}

/// A `.mldyn` record stream whose first record carries a zero primary
/// field resolves to the empty table.
pub proof fn lemma_zero_terminator_dyn(
    image: Seq<u8>,
    base: u64,
    sections: Seq<SectionInfo>,
    eff: u64,
    ptr: int,
    size: int,
    wide: bool,
)
    requires
        0 <= ptr,
        (if wide { 24int } else { 12int }) <= size,
        ptr + (if wide { 24int } else { 12int }) <= image.len(),
        wide ==> spec_le64(image, ptr) == 0,
        !wide ==> spec_le32(image, ptr) == 0,
    ensures
        spec_dyn_records(image, base, sections, eff, ptr, size, 0, wide) == Some(
            Seq::<(usize, Seq<char>, Seq<char>)>::empty(),
        ),
{
}

/// A `.mlhook` record stream whose first record carries a zero primary
/// field resolves to the empty table.
pub proof fn lemma_zero_terminator_hooks(
    image: Seq<u8>,
    eff: u64,
    ptr: int,
    size: int,
    wide: bool,
)
    requires
        0 <= ptr,
        (if wide { 24int } else { 16int }) <= size,
        ptr + (if wide { 24int } else { 16int }) <= image.len(),
        wide ==> spec_le64(image, ptr) == 0,
        !wide ==> spec_le32(image, ptr) == 0,
    ensures
        spec_hook_records(image, eff, ptr, size, 0, wide) == Some(Seq::<HookEntry>::empty()),
{
}

/// Which bucket a record lands in is a function of its flag bits alone:
/// the dispatcher bit wins, then the locking bit; the addresses and the
/// record's position play no part.
pub proof fn lemma_bucket_by_flags(eff: u64, target: u64, callback: u64, flags: u64)
    ensures
        ({
            let e = spec_hook_entry(eff, target, callback, flags);
            &&& e.dispatcher <==> flags & FLAG_DISPATCHER != 0
            &&& (!e.dispatcher && e.locking) <==> (flags & FLAG_DISPATCHER == 0 && flags
                & FLAG_LOCKING != 0)
            &&& (!e.dispatcher && !e.locking) <==> (flags & FLAG_DISPATCHER == 0 && flags
                & FLAG_LOCKING == 0)
        }),
{
}

} // verus!
