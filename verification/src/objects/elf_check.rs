//! Structural screening of ELF images before binary rewriting.
//!
//! The builtin rewriter patches the image in place, trusting the section
//! header table: it slices symbol tables, section groups, relocation and
//! extended-index sections at the offsets the table gives, with the entry
//! sizes the ELF class dictates. On an image whose table lies about those
//! offsets or sizes the patcher would fault instead of failing. This
//! module defines exactly the structural facts the rewrite relies on —
//! [`elf_rewrite_safe`] — and a verified checker for them, so that every
//! image handed to the rewriter provably satisfies them and a malformed
//! image is rejected with an error instead.

use vstd::prelude::*;

use crate::archives::is_elf_header;

verus! {

pub open spec fn u16_le_at(d: Seq<u8>, off: int) -> int {
    d[off] + d[off + 1] * 0x100
}

pub open spec fn u16_be_at(d: Seq<u8>, off: int) -> int {
    d[off] * 0x100 + d[off + 1]
}

pub open spec fn u32_le_at(d: Seq<u8>, off: int) -> int {
    d[off] + d[off + 1] * 0x100 + d[off + 2] * 0x10000 + d[off + 3] * 0x1000000
}

pub open spec fn u32_be_at(d: Seq<u8>, off: int) -> int {
    d[off] * 0x1000000 + d[off + 1] * 0x10000 + d[off + 2] * 0x100 + d[off + 3]
}

pub open spec fn u64_le_at(d: Seq<u8>, off: int) -> int {
    u32_le_at(d, off) + u32_le_at(d, off + 4) * 0x100000000
}

pub open spec fn u64_be_at(d: Seq<u8>, off: int) -> int {
    u32_be_at(d, off) * 0x100000000 + u32_be_at(d, off + 4)
}

/// The image is 64-bit (`ELFCLASS64`).
pub open spec fn elf_is_64(d: Seq<u8>) -> bool {
    d[4] == 2
}

/// The image is little-endian (`ELFDATA2LSB`).
pub open spec fn elf_is_le(d: Seq<u8>) -> bool {
    d[5] == 1
}

pub open spec fn u16_field(d: Seq<u8>, off: int) -> int {
    if elf_is_le(d) {
        u16_le_at(d, off)
    } else {
        u16_be_at(d, off)
    }
}

pub open spec fn u32_field(d: Seq<u8>, off: int) -> int {
    if elf_is_le(d) {
        u32_le_at(d, off)
    } else {
        u32_be_at(d, off)
    }
}

pub open spec fn u64_field(d: Seq<u8>, off: int) -> int {
    if elf_is_le(d) {
        u64_le_at(d, off)
    } else {
        u64_be_at(d, off)
    }
}

/// Size of the ELF file header for the image's class.
pub open spec fn elf_ehdr_size(d: Seq<u8>) -> int {
    if elf_is_64(d) {
        0x40
    } else {
        0x34
    }
}

/// The section header table offset `e_shoff`.
pub open spec fn elf_shoff(d: Seq<u8>) -> int {
    if elf_is_64(d) {
        u64_field(d, 0x28)
    } else {
        u32_field(d, 0x20)
    }
}

/// The section header entry size `e_shentsize`.
pub open spec fn elf_shentsize(d: Seq<u8>) -> int {
    if elf_is_64(d) {
        u16_field(d, 0x3a)
    } else {
        u16_field(d, 0x2e)
    }
}

/// The section header count `e_shnum`.
pub open spec fn elf_shnum(d: Seq<u8>) -> int {
    if elf_is_64(d) {
        u16_field(d, 0x3c)
    } else {
        u16_field(d, 0x30)
    }
}

/// Size of one section header for the image's class.
pub open spec fn elf_shdr_size(d: Seq<u8>) -> int {
    if elf_is_64(d) {
        64
    } else {
        40
    }
}

/// Size of one symbol table entry for the image's class.
pub open spec fn elf_sym_size(d: Seq<u8>) -> int {
    if elf_is_64(d) {
        24
    } else {
        16
    }
}

/// File offset of section header `i`.
pub open spec fn sh_base(d: Seq<u8>, i: int) -> int {
    elf_shoff(d) + i * elf_shdr_size(d)
}

pub open spec fn sh_type(d: Seq<u8>, i: int) -> int {
    u32_field(d, sh_base(d, i) + 4)
}

pub open spec fn sh_flags(d: Seq<u8>, i: int) -> int {
    if elf_is_64(d) {
        u64_field(d, sh_base(d, i) + 8)
    } else {
        u32_field(d, sh_base(d, i) + 8)
    }
}

pub open spec fn sh_offset(d: Seq<u8>, i: int) -> int {
    if elf_is_64(d) {
        u64_field(d, sh_base(d, i) + 0x18)
    } else {
        u32_field(d, sh_base(d, i) + 0x10)
    }
}

pub open spec fn sh_size(d: Seq<u8>, i: int) -> int {
    if elf_is_64(d) {
        u64_field(d, sh_base(d, i) + 0x20)
    } else {
        u32_field(d, sh_base(d, i) + 0x14)
    }
}

pub open spec fn sh_link(d: Seq<u8>, i: int) -> int {
    if elf_is_64(d) {
        u32_field(d, sh_base(d, i) + 0x28)
    } else {
        u32_field(d, sh_base(d, i) + 0x18)
    }
}

pub open spec fn sh_info(d: Seq<u8>, i: int) -> int {
    if elf_is_64(d) {
        u32_field(d, sh_base(d, i) + 0x2c)
    } else {
        u32_field(d, sh_base(d, i) + 0x1c)
    }
}

pub open spec fn sh_entsize(d: Seq<u8>, i: int) -> int {
    if elf_is_64(d) {
        u64_field(d, sh_base(d, i) + 0x38)
    } else {
        u32_field(d, sh_base(d, i) + 0x24)
    }
}

/// The section's file contents lie within the image.
pub open spec fn section_in_bounds(d: Seq<u8>, i: int) -> bool {
    sh_offset(d, i) + sh_size(d, i) <= d.len()
}

/// The section's `sh_link` names a symbol table section.
pub open spec fn linked_symtab_ok(d: Seq<u8>, i: int) -> bool {
    sh_link(d, i) < elf_shnum(d) && sh_type(d, sh_link(d, i)) == 2
}

/// A section group the rewriter may read through: its contents are in
/// bounds, and if its first word carries exactly the COMDAT flag, the
/// symbol table it names is present, in bounds, and holds the signature
/// symbol the group's `sh_info` points at.
pub open spec fn comdat_group_safe(d: Seq<u8>, i: int) -> bool {
    &&& section_in_bounds(d, i)
    &&& ((sh_size(d, i) >= 4 && u32_field(d, sh_offset(d, i)) == 1) ==> {
        &&& linked_symtab_ok(d, i)
        &&& section_in_bounds(d, sh_link(d, i))
        &&& (sh_info(d, i) + 1) * elf_sym_size(d) <= sh_size(d, sh_link(d, i))
    })
}

/// The facts the in-place rewrite relies on for section `i`:
/// symbol tables (`SHT_SYMTAB`) are in bounds with the standard entry
/// size; extended-index sections (`SHT_SYMTAB_SHNDX`) that name a symbol
/// table are in bounds and hold one word per symbol; relocation sections
/// (`SHT_REL`/`SHT_RELA`) that name a symbol table are in bounds; and
/// plain section groups (`SHT_GROUP` with zero `sh_flags`) satisfy
/// [`comdat_group_safe`].
pub open spec fn section_safe(d: Seq<u8>, i: int) -> bool {
    &&& sh_type(d, i) == 2 ==> section_in_bounds(d, i) && sh_entsize(d, i) == elf_sym_size(d)
    &&& sh_type(d, i) == 18 ==> (linked_symtab_ok(d, i) ==> section_in_bounds(d, i) && sh_size(
        d,
        i,
    ) >= 4 * (sh_size(d, sh_link(d, i)) / elf_sym_size(d)))
    &&& (sh_type(d, i) == 4 || sh_type(d, i) == 9) ==> (linked_symtab_ok(d, i)
        ==> section_in_bounds(d, i))
    &&& (sh_type(d, i) == 17 && sh_flags(d, i) == 0) ==> comdat_group_safe(d, i)
}

/// The structural facts the builtin rewriter relies on, over the whole
/// image: a recognized ELF identification, a complete file header, and —
/// when a section header table is present — a positive section count
/// (extended numbering is not supported), the standard header entry size,
/// a table lying within the image, and [`section_safe`] for every section.
pub open spec fn elf_rewrite_safe(d: Seq<u8>) -> bool {
    &&& d.len() >= 16
    &&& is_elf_header(d)
    &&& (d[4] == 1 || d[4] == 2)
    &&& (d[5] == 1 || d[5] == 2)
    &&& d.len() >= elf_ehdr_size(d)
    &&& (elf_shoff(d) == 0 || {
        &&& elf_shnum(d) > 0
        &&& elf_shentsize(d) == elf_shdr_size(d)
        &&& elf_shoff(d) + elf_shnum(d) * elf_shdr_size(d) <= d.len()
        &&& forall|i: int| 0 <= i < elf_shnum(d) ==> section_safe(d, i)
    })
}

fn read_u16(data: &Vec<u8>, off: usize, le: bool) -> (r: u16)
    requires
        off + 2 <= data@.len(),
    ensures
        le ==> r as int == u16_le_at(data@, off as int),
        !le ==> r as int == u16_be_at(data@, off as int),
{
    let n = data.len();
    proof {
        assert(off + 2 <= n);
    }
    let b0 = data[off] as u16;
    let b1 = data[off + 1] as u16;
    if le {
        b0 + b1 * 0x100
    } else {
        b0 * 0x100 + b1
    }
}

fn read_u32(data: &Vec<u8>, off: usize, le: bool) -> (r: u32)
    requires
        off + 4 <= data@.len(),
    ensures
        le ==> r as int == u32_le_at(data@, off as int),
        !le ==> r as int == u32_be_at(data@, off as int),
{
    let n = data.len();
    proof {
        assert(off + 4 <= n);
    }
    let b0 = data[off] as u32;
    let b1 = data[off + 1] as u32;
    let b2 = data[off + 2] as u32;
    let b3 = data[off + 3] as u32;
    if le {
        b0 + b1 * 0x100 + b2 * 0x10000 + b3 * 0x1000000
    } else {
        b0 * 0x1000000 + b1 * 0x10000 + b2 * 0x100 + b3
    }
}

fn read_u64(data: &Vec<u8>, off: usize, le: bool) -> (r: u64)
    requires
        off + 8 <= data@.len(),
    ensures
        le ==> r as int == u64_le_at(data@, off as int),
        !le ==> r as int == u64_be_at(data@, off as int),
{
    let n = data.len();
    proof {
        assert(off + 8 <= n);
    }
    let lo = read_u32(data, off, le) as u64;
    let hi = read_u32(data, off + 4, le) as u64;
    if le {
        lo + hi * 0x100000000
    } else {
        lo * 0x100000000 + hi
    }
}

/// Check [`section_safe`] for one section.
fn section_safe_at(data: &Vec<u8>, i: usize, is64: bool, le: bool, shoff: usize, shnum: u16) -> (r:
    bool)
    requires
        is64 == elf_is_64(data@),
        le == elf_is_le(data@),
        shoff as int == elf_shoff(data@),
        shnum as int == elf_shnum(data@),
        elf_shoff(data@) + elf_shnum(data@) * elf_shdr_size(data@) <= data@.len(),
        0 <= (i as int) < elf_shnum(data@),
    ensures
        r == section_safe(data@, i as int),
{
    let n = data.len();
    let shsz: usize = if is64 {
        64
    } else {
        40
    };
    proof {
        assert(shoff as int + (i + 1) * (shsz as int) <= n as int) by {
            assert((i + 1) * (shsz as int) <= elf_shnum(data@) * elf_shdr_size(data@))
                by (nonlinear_arith)
                requires
                    0 <= (i as int) < elf_shnum(data@),
                    shsz as int == elf_shdr_size(data@),
                    elf_shdr_size(data@) > 0,
            ;
        }
    }
    let base = shoff + i * shsz;
    proof {
        assert(base as int == sh_base(data@, i as int));
        assert(base + shsz <= n);
    }
    let stype = read_u32(data, base + 4, le);
    let flags: u64 = if is64 {
        read_u64(data, base + 8, le)
    } else {
        read_u32(data, base + 8, le) as u64
    };
    let offset: u64 = if is64 {
        read_u64(data, base + 0x18, le)
    } else {
        read_u32(data, base + 0x10, le) as u64
    };
    let size: u64 = if is64 {
        read_u64(data, base + 0x20, le)
    } else {
        read_u32(data, base + 0x14, le) as u64
    };
    let link = if is64 {
        read_u32(data, base + 0x28, le)
    } else {
        read_u32(data, base + 0x18, le)
    };
    let info = if is64 {
        read_u32(data, base + 0x2c, le)
    } else {
        read_u32(data, base + 0x1c, le)
    };
    let entsize: u64 = if is64 {
        read_u64(data, base + 0x38, le)
    } else {
        read_u32(data, base + 0x24, le) as u64
    };
    let symsz: u64 = if is64 {
        24
    } else {
        16
    };
    proof {
        assert(stype as int == sh_type(data@, i as int));
        assert(flags as int == sh_flags(data@, i as int));
        assert(offset as int == sh_offset(data@, i as int));
        assert(size as int == sh_size(data@, i as int));
        assert(link as int == sh_link(data@, i as int));
        assert(info as int == sh_info(data@, i as int));
        assert(entsize as int == sh_entsize(data@, i as int));
        assert(symsz as int == elf_sym_size(data@));
    }
    let in_bounds = (offset as u128) + (size as u128) <= (n as u128);

    if stype == 2 {
        if !(in_bounds && entsize == symsz) {
            return false;
        }
    }
    if stype == 18 {
        if link < shnum as u32 {
            let lsec = linked_section(data, link as usize, is64, le, shoff, shsz);
            if lsec.0 == 2 {
                let needed = 4u128 * ((lsec.2 / symsz) as u128);
                if !(in_bounds && (size as u128) >= needed) {
                    return false;
                }
            }
        }
    }
    if stype == 4 || stype == 9 {
        if link < shnum as u32 {
            let lsec = linked_section(data, link as usize, is64, le, shoff, shsz);
            if lsec.0 == 2 {
                if !in_bounds {
                    return false;
                }
            }
        }
    }
    if stype == 17 && flags == 0 {
        if !in_bounds {
            return false;
        }
        if size >= 4 {
            let word = read_u32(data, offset as usize, le);
            if word == 1 {
                if !(link < shnum as u32) {
                    return false;
                }
                let lsec = linked_section(data, link as usize, is64, le, shoff, shsz);
                if lsec.0 != 2 {
                    return false;
                }
                if !((lsec.1 as u128) + (lsec.2 as u128) <= (n as u128)) {
                    return false;
                }
                if !(((info as u128) + 1) * (symsz as u128) <= (lsec.2 as u128)) {
                    return false;
                }
            }
        }
    }
    true
}

/// The type, offset and size of the section at index `link`.
fn linked_section(data: &Vec<u8>, link: usize, is64: bool, le: bool, shoff: usize, shsz: usize) -> (r:
    (u32, u64, u64))
    requires
        is64 == elf_is_64(data@),
        le == elf_is_le(data@),
        shoff as int == elf_shoff(data@),
        shsz as int == elf_shdr_size(data@),
        elf_shoff(data@) + elf_shnum(data@) * elf_shdr_size(data@) <= data@.len(),
        (link as int) < elf_shnum(data@),
    ensures
        r.0 as int == sh_type(data@, link as int),
        r.1 as int == sh_offset(data@, link as int),
        r.2 as int == sh_size(data@, link as int),
{
    let n = data.len();
    proof {
        assert(shoff as int + (link + 1) * (shsz as int) <= n as int) by {
            assert((link + 1) * (shsz as int) <= elf_shnum(data@) * elf_shdr_size(data@))
                by (nonlinear_arith)
                requires
                    0 <= (link as int) < elf_shnum(data@),
                    shsz as int == elf_shdr_size(data@),
                    elf_shdr_size(data@) > 0,
            ;
        }
    }
    let base = shoff + link * shsz;
    proof {
        assert(base as int == sh_base(data@, link as int));
        assert(base + shsz <= n);
    }
    let stype = read_u32(data, base + 4, le);
    let offset: u64 = if is64 {
        read_u64(data, base + 0x18, le)
    } else {
        read_u32(data, base + 0x10, le) as u64
    };
    let size: u64 = if is64 {
        read_u64(data, base + 0x20, le)
    } else {
        read_u32(data, base + 0x14, le) as u64
    };
    (stype, offset, size)
}

/// Run the structural checks of [`elf_rewrite_safe`] over an image.
pub fn check_elf_rewrite_safe(data: &Vec<u8>) -> (r: bool)
    ensures
        r == elf_rewrite_safe(data@),
{
    let n = data.len();
    if n < 16 {
        return false;
    }
    if !(data[0] == 0x7f && data[1] == 0x45 && data[2] == 0x4c && data[3] == 0x46) {
        return false;
    }
    let class = data[4];
    let enc = data[5];
    if !(class == 1 || class == 2) {
        return false;
    }
    if !(enc == 1 || enc == 2) {
        return false;
    }
    let is64 = class == 2;
    let le = enc == 1;
    let ehdr: usize = if is64 {
        0x40
    } else {
        0x34
    };
    if n < ehdr {
        return false;
    }
    let shoff: u64 = if is64 {
        read_u64(data, 0x28, le)
    } else {
        read_u32(data, 0x20, le) as u64
    };
    proof {
        assert(shoff as int == elf_shoff(data@));
    }
    if shoff == 0 {
        return true;
    }
    let shentsize = read_u16(
        data,
        if is64 {
            0x3a
        } else {
            0x2e
        },
        le,
    );
    let shnum = read_u16(
        data,
        if is64 {
            0x3c
        } else {
            0x30
        },
        le,
    );
    let shsz: u64 = if is64 {
        64
    } else {
        40
    };
    if shnum == 0 {
        return false;
    }
    if !(shentsize as u64 == shsz) {
        return false;
    }
    if (shoff as u128) + (shnum as u128) * (shsz as u128) > (n as u128) {
        return false;
    }
    for i in 0..shnum
        invariant
            is64 == elf_is_64(data@),
            le == elf_is_le(data@),
            n == data@.len(),
            shoff as int == elf_shoff(data@),
            shnum as int == elf_shnum(data@),
            elf_shoff(data@) + elf_shnum(data@) * elf_shdr_size(data@) <= data@.len(),
            elf_shoff(data@) > 0,
            forall|k: int| 0 <= k < i ==> section_safe(data@, k),
    {
        if !section_safe_at(data, i as usize, is64, le, shoff as usize, shnum) {
            return false;
        }
    }
    true
}

} // verus!
