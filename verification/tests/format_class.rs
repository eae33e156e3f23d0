use armerge::archives::archive_object_type;
use armerge::archives::fold_object_types;
use armerge::ArchiveContents;

#[test]
fn merge_empty_is_identity() {
    assert_eq!(
        ArchiveContents::merge(ArchiveContents::Empty, ArchiveContents::Elf),
        ArchiveContents::Elf
    );
    assert_eq!(
        ArchiveContents::merge(ArchiveContents::MachO, ArchiveContents::Empty),
        ArchiveContents::MachO
    );
    assert_eq!(
        ArchiveContents::merge(ArchiveContents::Empty, ArchiveContents::Empty),
        ArchiveContents::Empty
    );
}

#[test]
fn merge_equal_classes_stay() {
    assert_eq!(
        ArchiveContents::merge(ArchiveContents::Elf, ArchiveContents::Elf),
        ArchiveContents::Elf
    );
    assert_eq!(
        ArchiveContents::merge(ArchiveContents::Other, ArchiveContents::Other),
        ArchiveContents::Other
    );
}

#[test]
fn merge_different_classes_mix() {
    assert_eq!(
        ArchiveContents::merge(ArchiveContents::Elf, ArchiveContents::MachO),
        ArchiveContents::Mixed
    );
    assert_eq!(
        ArchiveContents::merge(ArchiveContents::Mixed, ArchiveContents::Elf),
        ArchiveContents::Mixed
    );
    assert_eq!(
        ArchiveContents::merge(ArchiveContents::Other, ArchiveContents::Mixed),
        ArchiveContents::Mixed
    );
}

#[test]
fn fold_of_classes_matches_monoid() {
    assert_eq!(fold_object_types(&Vec::new()), ArchiveContents::Empty);
    assert_eq!(
        fold_object_types(&vec![ArchiveContents::Elf, ArchiveContents::Elf]),
        ArchiveContents::Elf
    );
    assert_eq!(
        fold_object_types(&vec![ArchiveContents::Elf, ArchiveContents::MachO]),
        ArchiveContents::Mixed
    );
    assert_eq!(
        fold_object_types(&vec![
            ArchiveContents::Empty,
            ArchiveContents::MachO,
            ArchiveContents::MachO
        ]),
        ArchiveContents::MachO
    );
}

fn header(prefix: &[u8]) -> Vec<u8> {
    let mut h = prefix.to_vec();
    while h.len() < 16 {
        h.push(0);
    }
    h
}

#[test]
fn classify_elf_magic() {
    let h = header(&[0x7f, b'E', b'L', b'F', 2, 1, 1, 0]);
    assert_eq!(archive_object_type(&h), ArchiveContents::Elf);
}

#[test]
fn classify_macho_magics() {
    // 64-bit big-endian thin magic, stored big-endian
    let h = header(&[0xfe, 0xed, 0xfa, 0xcf]);
    assert_eq!(archive_object_type(&h), ArchiveContents::MachO);
    // 64-bit little-endian object: the bytes read back as the swapped magic
    let h = header(&[0xcf, 0xfa, 0xed, 0xfe]);
    assert_eq!(archive_object_type(&h), ArchiveContents::MachO);
    // fat binary
    let h = header(&[0xca, 0xfe, 0xba, 0xbe]);
    assert_eq!(archive_object_type(&h), ArchiveContents::MachO);
}

#[test]
fn classify_other_formats() {
    let h = header(b"!<arch>\x0a");
    assert_eq!(archive_object_type(&h), ArchiveContents::Other);
    let h = header(b"MZ");
    assert_eq!(archive_object_type(&h), ArchiveContents::Other);
    let h = header(b"VZ");
    assert_eq!(archive_object_type(&h), ArchiveContents::Other);
    // COFF machine number for x86-64, little-endian
    let h = header(&[0x64, 0x86]);
    assert_eq!(archive_object_type(&h), ArchiveContents::Other);
    let h = header(&[0, 0, 0, 0]);
    assert_eq!(archive_object_type(&h), ArchiveContents::Other);
}
