//! Classification of extracted object files and naming of scratch objects.
//!
//! Every member pulled out of an input archive is classified from the first
//! 16 bytes of its payload into one of the supported object formats, and the
//! per-member classes are folded into an archive-wide class with a small
//! monoid (`Empty` is the identity, equal classes merge to themselves, and
//! anything else is `Mixed`).

use vstd::prelude::*;
use vstd::seq_lib::*;

verus! {

/// The object-file format detected across all members of the input archives.
#[derive(Copy, Clone, Debug, PartialEq, Eq, Structural)]
pub enum ArchiveContents {
    /// Only ELF files
    Elf,
    /// Only Mach-O files
    MachO,
    /// Only unsupported files (e.g. PE/COFF)
    Other,
    /// Archives contain a mix of file types
    Mixed,
    /// No contents
    Empty,
}

/// The archive-wide class is the fold of the per-object classes under this
/// combination: `Empty` is the identity, equal classes stay, all else mixes.
pub open spec fn merge_class(a: ArchiveContents, b: ArchiveContents) -> ArchiveContents {
    if a == ArchiveContents::Mixed || b == ArchiveContents::Mixed {
        ArchiveContents::Mixed
    } else if a == ArchiveContents::Empty {
        b
    } else if b == ArchiveContents::Empty {
        a
    } else if a == b {
        a
    } else {
        ArchiveContents::Mixed
    }
}

/// Fold of a sequence of per-object classes, starting from the identity.
pub open spec fn fold_classes(s: Seq<ArchiveContents>) -> ArchiveContents
    decreases s.len(),
{
    if s.len() == 0 {
        ArchiveContents::Empty
    } else {
        merge_class(fold_classes(s.drop_last()), s.last())
    }
}

impl ArchiveContents {
    /// Combine two format classes.
    pub fn merge(a: ArchiveContents, b: ArchiveContents) -> (r: ArchiveContents)
        ensures
            r == merge_class(a, b),
    {
        if a == ArchiveContents::Mixed || b == ArchiveContents::Mixed {
            ArchiveContents::Mixed
        } else if a == ArchiveContents::Empty {
            b
        } else if b == ArchiveContents::Empty {
            a
        } else if a == b {
            a
        } else {
            ArchiveContents::Mixed
        }
    }
}

/// The aggregate class of a whole extraction is the monoid fold of the
/// per-object classes, in order.
pub fn fold_object_types(types: &Vec<ArchiveContents>) -> (r: ArchiveContents)
    ensures
        r == fold_classes(types@),
{
    let mut r = ArchiveContents::Empty;
    for i in 0..types.len()
        invariant
            r == fold_classes(types@.take(i as int)),
    {
        r = ArchiveContents::merge(r, types[i]);
        proof {
            assert(types@.take(i + 1).drop_last() =~= types@.take(i as int));
            assert(types@.take(i + 1).last() == types@[i as int]);
        }
    }
    proof {
        assert(types@.take(types@.len() as int) =~= types@);
    }
    r
}

/// `Empty` is a two-sided identity for the class combination.
pub proof fn lemma_merge_class_identity(a: ArchiveContents)
    ensures
        merge_class(ArchiveContents::Empty, a) == a,
        merge_class(a, ArchiveContents::Empty) == a,
{
}

/// Combining a class with itself yields the same class.
pub proof fn lemma_merge_class_idempotent(a: ArchiveContents)
    ensures
        merge_class(a, a) == a,
{
}

/// The class combination is commutative.
pub proof fn lemma_merge_class_commutative(a: ArchiveContents, b: ArchiveContents)
    ensures
        merge_class(a, b) == merge_class(b, a),
{
}

/// The class combination is associative, so folding per-object classes in
/// any grouping yields the same aggregate.
pub proof fn lemma_merge_class_associative(
    a: ArchiveContents,
    b: ArchiveContents,
    c: ArchiveContents,
)
    ensures
        merge_class(merge_class(a, b), c) == merge_class(a, merge_class(b, c)),
{
}

pub open spec fn header_u16_le(h: Seq<u8>) -> int {
    h[0] + h[1] * 0x100
}

pub open spec fn header_u32_be(h: Seq<u8>) -> int {
    h[0] * 0x1000000 + h[1] * 0x10000 + h[2] * 0x100 + h[3]
}

/// The four ELF magic bytes `\x7fELF`.
pub open spec fn is_elf_header(h: Seq<u8>) -> bool {
    h[0] == 0x7f && h[1] == 0x45 && h[2] == 0x4c && h[3] == 0x46
}

/// The archive magic `!<arch>\n`.
pub open spec fn is_archive_header(h: Seq<u8>) -> bool {
    h[0] == 0x21 && h[1] == 0x3c && h[2] == 0x61 && h[3] == 0x72 && h[4] == 0x63 && h[5] == 0x68
        && h[6] == 0x3e && h[7] == 0x0a
}

/// A PE, TE or COFF header: the leading little-endian 16-bit word is one of
/// the DOS magic, the TE magic, or a known COFF machine number.
pub open spec fn is_pe_like_header(h: Seq<u8>) -> bool {
    ||| header_u16_le(h) == 0x5a4d
    ||| header_u16_le(h) == 0x5a56
    ||| header_u16_le(h) == 0x14c
    ||| header_u16_le(h) == 0x8664
    ||| header_u16_le(h) == 0xaa64
}

/// A Mach-O header: the leading big-endian 32-bit word is one of the four
/// thin magics or the fat magic, and no earlier rule claimed the bytes.
pub open spec fn is_macho_header(h: Seq<u8>) -> bool {
    &&& !is_archive_header(h)
    &&& !is_pe_like_header(h)
    &&& {
        ||| header_u32_be(h) == 0xfeedface
        ||| header_u32_be(h) == 0xcefaedfe
        ||| header_u32_be(h) == 0xfeedfacf
        ||| header_u32_be(h) == 0xcffaedfe
        ||| header_u32_be(h) == 0xcafebabe
    }
}

/// Format class of one object, from the first 16 bytes of its payload.
/// Anything that is neither ELF nor Mach-O (archives, PE/TE/COFF, or
/// unrecognized magic) counts as `Other`; malformed input never fails.
pub open spec fn class_of_header(h: Seq<u8>) -> ArchiveContents {
    if is_elf_header(h) {
        ArchiveContents::Elf
    } else if is_macho_header(h) {
        ArchiveContents::MachO
    } else {
        ArchiveContents::Other
    }
}

/// Classify one extracted object from its 16-byte header hint.
pub fn archive_object_type(object_header: &[u8]) -> (r: ArchiveContents)
    requires
        object_header@.len() >= 16,
    ensures
        r == class_of_header(object_header@),
{
    let b0 = object_header[0];
    let b1 = object_header[1];
    let b2 = object_header[2];
    let b3 = object_header[3];
    if b0 == 0x7f && b1 == 0x45 && b2 == 0x4c && b3 == 0x46 {
        ArchiveContents::Elf
    } else {
        let is_ar = b0 == 0x21 && b1 == 0x3c && b2 == 0x61 && b3 == 0x72 && object_header[4]
            == 0x63 && object_header[5] == 0x68 && object_header[6] == 0x3e && object_header[7]
            == 0x0a;
        let m16: u32 = b0 as u32 + (b1 as u32) * 0x100;
        let m32: u32 = (b0 as u32) * 0x1000000 + (b1 as u32) * 0x10000 + (b2 as u32) * 0x100
            + (b3 as u32);
        if is_ar {
            ArchiveContents::Other
        } else if m16 == 0x5a4d || m16 == 0x5a56 || m16 == 0x14c || m16 == 0x8664 || m16 == 0xaa64 {
            ArchiveContents::Other
        } else if m32 == 0xfeedface || m32 == 0xcefaedfe || m32 == 0xfeedfacf || m32 == 0xcffaedfe
            || m32 == 0xcafebabe {
            ArchiveContents::MachO
        } else {
            ArchiveContents::Other
        }
    }
}

/// Plan the archive-indexer run that writes the symbol index of the
/// finished archive.
pub fn create_index(archive_path: &String) -> (r: crate::objects::merge::ToolInvocation)
    ensures
        r.tool == crate::objects::merge::ToolKind::Ranlib,
        crate::objects::syms::names_of(r.args@) == seq![archive_path@],
{
    let mut args: Vec<String> = Vec::new();
    args.push(archive_path.clone());
    proof {
        assert(crate::objects::syms::names_of(args@) =~~= seq![archive_path@]);
    }
    crate::objects::merge::ToolInvocation { tool: crate::objects::merge::ToolKind::Ranlib, args }
}

/// Passthrough merge: append every extracted object as its own member, in
/// order, and close the builder, which plans the index finalization.
pub fn merge(output: &mut crate::arbuilder::ArBuilder, objects: &Vec<String>) -> (r: Option<
    crate::objects::merge::ToolInvocation,
>)
    requires
        !crate::arbuilder::builder_closed(*old(output)),
    ensures
        crate::arbuilder::builder_members(*final(output)) == crate::arbuilder::builder_members(
            *old(output),
        ) + objects@,
        crate::arbuilder::builder_closed(*final(output)),
        crate::arbuilder::close_invocation_ok(r, *final(output)),
{
    let ghost base = crate::arbuilder::builder_members(*output);
    for i in 0..objects.len()
        invariant
            !crate::arbuilder::builder_closed(*output),
            crate::arbuilder::builder_members(*output) == base + objects@.take(i as int),
    {
        proof {
            assert(base + objects@.take(i as int) =~= (base + objects@.take(i + 1)).drop_last());
        }
        output.append_obj(&objects[i]);
        proof {
            assert(crate::arbuilder::builder_members(*output) =~= base + objects@.take(i + 1));
        }
    }
    proof {
        assert(objects@.take(objects@.len() as int) =~= objects@);
    }
    output.close()
}

/// Passthrough identity: starting from a fresh builder, the member list
/// of the output archive is exactly the list of extracted objects.
pub proof fn lemma_passthrough_identity(objects: Seq<String>, after: Seq<String>)
    requires
        after == Seq::<String>::empty() + objects,
    ensures
        after == objects,
{
    assert(after =~= objects);
}

/// Passthrough is idempotent: merging the members of a passthrough output
/// again, with no keep policy, yields the same member list.
pub proof fn lemma_passthrough_idempotent(
    objects: Seq<String>,
    once: Seq<String>,
    twice: Seq<String>,
)
    requires
        once == Seq::<String>::empty() + objects,
        twice == Seq::<String>::empty() + once,
    ensures
        once == objects,
        twice == objects,
{
    assert(once =~= objects);
    assert(twice =~= objects);
}

/// The file-name component of a path: everything after the last `/`, or the
/// whole path when it holds no `/`.
pub open spec fn file_name_of(path: Seq<char>) -> Seq<char> {
    match path.index_of_last('/') {
        Some(i) => path.subrange(i + 1, path.len() as int),
        None => path,
    }
}

/// Remove the suffix that starts at the last `.`, the dot included.
pub open spec fn strip_last_dot(name: Seq<char>) -> Option<Seq<char>> {
    match name.index_of_last('.') {
        Some(i) => Some(name.take(i)),
        None => None,
    }
}

/// A scratch path carries an object name only when its file name still has
/// the two dot-separated suffixes (`.<token>.o`) to strip.
pub open spec fn has_object_name(path: Seq<char>) -> bool {
    match strip_last_dot(file_name_of(path)) {
        Some(rest) => strip_last_dot(rest) is Some,
        None => false,
    }
}

/// The base name of a scratch object: its file name with the two trailing
/// dot-separated suffixes removed.
pub open spec fn object_name_of(path: Seq<char>) -> Seq<char> {
    strip_last_dot(strip_last_dot(file_name_of(path)).unwrap()).unwrap()
}

/// Index of the last occurrence of `c` in `s`, scanning from the end.
pub fn last_index_of_char(s: &str, c: char) -> (r: Option<usize>)
    ensures
        match r {
            Some(i) => s@.index_of_last(c) == Some(i as int),
            None => s@.index_of_last(c) is None,
        },
{
    let n = s.unicode_len();
    let mut i = n;
    while i > 0
        invariant
            i <= n,
            n == s@.len(),
            forall|k: int| i <= k < n ==> s@[k] != c,
        decreases i,
    {
        i = i - 1;
        if s.get_char(i) == c {
            proof {
                s@.index_of_last_ensures(c);
                assert(s@.contains(c)) by {
                    assert(s@[i as int] == c);
                }
                let index = s@.index_of_last(c).unwrap();
                if index < i {
                    assert(s@[i as int] != c);
                }
                if index > i {
                    assert(s@[index] != c);
                }
            }
            return Some(i);
        }
    }
    proof {
        s@.index_of_last_ensures(c);
        assert(!s@.contains(c));
        if s@.index_of_last(c) is Some {
            assert(s@.contains(c));
        }
    }
    None
}

/// Does the path carry an object name — a file name with the two
/// dot-separated suffixes that [`get_object_name_from_path`] strips?
pub fn has_base_name(path: &str) -> (r: bool)
    ensures
        r == has_object_name(path@),
{
    let n = path.unicode_len();
    let file_start: usize = match last_index_of_char(path, '/') {
        Some(i) => {
            proof {
                path@.index_of_last_ensures('/');
            }
            i + 1
        },
        None => 0,
    };
    let file = path.substring_char(file_start, n);
    proof {
        assert(file@ =~= file_name_of(path@));
    }
    match last_index_of_char(file, '.') {
        None => false,
        Some(j) => {
            proof {
                file@.index_of_last_ensures('.');
            }
            let rest = file.substring_char(0, j);
            proof {
                assert(rest@ =~= strip_last_dot(file@).unwrap());
            }
            match last_index_of_char(rest, '.') {
                Some(_) => true,
                None => false,
            }
        },
    }
}

/// Base name of an extracted object: the scratch file name with the random
/// token and the `.o` suffix stripped.
pub fn get_object_name_from_path(path: &str) -> (r: String)
    requires
        has_object_name(path@),
    ensures
        r@ == object_name_of(path@),
{
    let n = path.unicode_len();
    let file_start: usize = match last_index_of_char(path, '/') {
        Some(i) => {
            proof {
                path@.index_of_last_ensures('/');
            }
            i + 1
        },
        None => 0,
    };
    let file = path.substring_char(file_start, n);
    proof {
        assert(file@ =~= file_name_of(path@));
    }
    let j = match last_index_of_char(file, '.') {
        Some(j) => j,
        None => {
            proof {
                assert(false);
            }
            0
        },
    };
    proof {
        file@.index_of_last_ensures('.');
    }
    let rest = file.substring_char(0, j);
    proof {
        assert(rest@ =~= strip_last_dot(file@).unwrap());
    }
    let i2 = match last_index_of_char(rest, '.') {
        Some(i2) => i2,
        None => {
            proof {
                assert(false);
            }
            0
        },
    };
    proof {
        rest@.index_of_last_ensures('.');
    }
    let base = rest.substring_char(0, i2);
    proof {
        assert(base@ =~= object_name_of(path@));
    }
    base.to_owned()
}

/// The scratch file name given to one extracted member:
/// `<library>@<member>.<token>.o`.
pub open spec fn scratch_name_spec(
    lib_name: Seq<char>,
    member_name: Seq<char>,
    token: Seq<char>,
) -> Seq<char> {
    lib_name + seq!['@'] + member_name + seq!['.'] + token + seq!['.', 'o']
}

/// A scratch name parses back to its base name: for a library and member
/// name free of `/` and a token free of `/` and `.`, the base name of
/// `<dir>/<library>@<member>.<token>.o` is `<library>@<member>`, whatever
/// the random token was.
pub proof fn lemma_scratch_name_round_trip(
    dir: Seq<char>,
    lib: Seq<char>,
    member: Seq<char>,
    token: Seq<char>,
)
    requires
        !lib.contains('/'),
        !member.contains('/'),
        !token.contains('/'),
        !token.contains('.'),
    ensures
        ({
            let path = dir + seq!['/'] + scratch_name_spec(lib, member, token);
            has_object_name(path) && object_name_of(path) == lib + seq!['@'] + member
        }),
{
    let name = scratch_name_spec(lib, member, token);
    let path = dir + seq!['/'] + name;
    let l = lib.len() as int;
    let m = member.len() as int;
    let t = token.len() as int;
    let dl = dir.len() as int;
    assert(name.len() == l + m + t + 4);
    assert forall|k: int| 0 <= k < name.len() implies #[trigger] name[k] == (if k < l {
        lib[k]
    } else if k == l {
        '@'
    } else if k < l + 1 + m {
        member[k - l - 1]
    } else if k == l + 1 + m {
        '.'
    } else if k < l + 2 + m + t {
        token[k - l - 2 - m]
    } else if k == l + 2 + m + t {
        '.'
    } else {
        'o'
    }) by {
        assert(seq!['.', 'o'][0] == '.');
        assert(seq!['.', 'o'][1] == 'o');
    }
    assert forall|k: int| dl < k < path.len() implies #[trigger] path[k] != '/' by {
        assert(path[k] == name[k - dl - 1]);
        let k2 = k - dl - 1;
        if k2 < l {
            assert(lib[k2] != '/');
        } else if l + 1 <= k2 < l + 1 + m {
            assert(member[k2 - l - 1] != '/');
        } else if l + 2 + m <= k2 < l + 2 + m + t {
            assert(token[k2 - l - 2 - m] != '/');
        }
    }
    assert(path[dl] == '/');
    path.index_of_last_ensures('/');
    assert(path.contains('/')) by {
        assert(path[dl] == '/');
    }
    let slash = path.index_of_last('/').unwrap();
    assert(slash == dl) by {
        if slash < dl {
            assert(path[dl] != '/');
        }
        if slash > dl {
            assert(path[slash] != '/');
        }
    }
    let file = file_name_of(path);
    assert(file =~= name);

    // the last dot of the file name is the one before the trailing `o`
    name.index_of_last_ensures('.');
    assert(name[l + 2 + m + t] == '.');
    assert(name.contains('.')) by {
        assert(name[l + 2 + m + t] == '.');
    }
    let d1 = name.index_of_last('.').unwrap();
    assert(d1 == l + 2 + m + t) by {
        if d1 < l + 2 + m + t {
            assert(name[l + 2 + m + t] != '.');
        }
        if d1 > l + 2 + m + t {
            assert(name[d1] == 'o');
        }
    }
    let rest = name.take(d1);

    // the last dot of the rest is the one before the token
    rest.index_of_last_ensures('.');
    assert(rest[l + 1 + m] == '.');
    assert(rest.contains('.')) by {
        assert(rest[l + 1 + m] == '.');
    }
    let d2 = rest.index_of_last('.').unwrap();
    assert(d2 == l + 1 + m) by {
        if d2 < l + 1 + m {
            assert(rest[l + 1 + m] != '.');
        }
        if d2 > l + 1 + m {
            assert(rest[d2] == token[d2 - l - 2 - m]);
            assert(token[d2 - l - 2 - m] != '.');
        }
    }
    assert(rest.take(d2) =~= lib + seq!['@'] + member);
}

/// Build the collision-resistant scratch file name for one extracted member.
pub fn scratch_object_name(lib_name: &str, member_name: &str, token: &str) -> (r: String)
    ensures
        r@ == scratch_name_spec(lib_name@, member_name@, token@),
{
    proof {
        reveal_strlit("@");
        reveal_strlit(".");
        reveal_strlit(".o");
    }
    let mut r = lib_name.to_owned();
    r.append("@");
    r.append(member_name);
    r.append(".");
    r.append(token);
    r.append(".o");
    proof {
        assert(r@ =~= scratch_name_spec(lib_name@, member_name@, token@));
    }
    r
}

} // verus!
