use armerge::arbuilder::create_ar_builder;
use armerge::arbuilder::mac::MacArBuilder;
use armerge::arbuilder::ArBuilder;
use armerge::archives::create_index;
use armerge::objects::builtin_filter::filter_merged_elf;
use armerge::objects::filter_deps::filter_required_objects;
use armerge::objects::merge::create_merged_object;
use armerge::objects::merge::ToolKind;
use armerge::objects::syms::parse_object_symbols;
use armerge::objects::system_filter::create_filtered_merged_macho_object;
use armerge::objects::system_filter::create_symbol_filter_list;
use armerge::objects::system_filter::demote_elf_comdats;
use armerge::ArchiveContents;
use armerge::ArmergeKeepOrRemove;
use armerge::MergeError;
use armerge::Pattern;

use object::write::{Object, Symbol, SymbolSection};
use object::Object as ReadObject;
use object::{Architecture, BinaryFormat, Endianness, SymbolFlags, SymbolKind, SymbolScope};

/// Build a minimal ELF relocatable defining `defined` in `.text` and
/// referencing `undefined`.
fn build_elf(defined: &[&str], undefined: &[&str]) -> Vec<u8> {
    let mut obj = Object::new(BinaryFormat::Elf, Architecture::X86_64, Endianness::Little);
    let text = obj.add_section(Vec::new(), b".text".to_vec(), object::SectionKind::Text);
    obj.append_section_data(text, &[0xc3], 1);
    for name in defined {
        obj.add_symbol(Symbol {
            name: name.as_bytes().to_vec(),
            value: 0,
            size: 1,
            kind: SymbolKind::Text,
            scope: SymbolScope::Dynamic,
            weak: false,
            section: SymbolSection::Section(text),
            flags: SymbolFlags::None,
        });
    }
    for name in undefined {
        obj.add_symbol(Symbol {
            name: name.as_bytes().to_vec(),
            value: 0,
            size: 0,
            kind: SymbolKind::Unknown,
            scope: SymbolScope::Unknown,
            weak: false,
            section: SymbolSection::Undefined,
            flags: SymbolFlags::None,
        });
    }
    obj.write().unwrap()
}

#[test]
fn parse_reads_the_symbol_table() {
    let data = build_elf(&["pub_api"], &["helper"]);
    let syms = parse_object_symbols(&data).unwrap();
    let api = syms
        .iter()
        .find(|s| s.name.as_deref() == Some("pub_api"))
        .expect("defined symbol present");
    assert!(api.global && !api.undefined);
    let helper = syms
        .iter()
        .find(|s| s.name.as_deref() == Some("helper"))
        .expect("undefined symbol present");
    assert!(helper.undefined);
}

#[test]
fn parse_rejects_garbage() {
    assert!(parse_object_symbols(&[0u8; 8]).is_err());
}

fn keep(patterns: &[&str]) -> Vec<Pattern> {
    patterns.iter().map(|p| Pattern::new(p).unwrap()).collect()
}

#[test]
fn dead_code_pruning() {
    // a defines pub and calls aux; b defines aux; c defines unused dead
    let paths = vec![
        "/s/a.t1.o".to_string(),
        "/s/b.t2.o".to_string(),
        "/s/c.t3.o".to_string(),
    ];
    let datas = vec![
        build_elf(&["pub"], &["aux"]),
        build_elf(&["aux"], &[]),
        build_elf(&["dead"], &[]),
    ];
    let kept = filter_required_objects(
        &paths,
        &datas,
        ArmergeKeepOrRemove::KeepSymbols,
        &keep(&["^pub$"]),
    )
    .unwrap();
    assert_eq!(kept, vec![0usize, 1usize]);
}

#[test]
fn no_kept_symbols_leaves_nothing() {
    let paths = vec!["/s/a.t1.o".to_string(), "/s/b.t2.o".to_string()];
    let datas = vec![build_elf(&["foo"], &[]), build_elf(&["bar"], &[])];
    let kept = filter_required_objects(
        &paths,
        &datas,
        ArmergeKeepOrRemove::KeepSymbols,
        &keep(&["^nonexistent$"]),
    )
    .unwrap();
    assert!(kept.is_empty());
}

#[test]
fn filter_list_keep_mode() {
    // keep pub_api, localize helper
    let paths = vec!["/s/a.t1.o".to_string()];
    let datas = vec![build_elf(&["pub_api", "helper"], &[])];
    let (path, syms) = create_symbol_filter_list(
        &"/s".to_string(),
        &paths,
        &datas,
        ArmergeKeepOrRemove::KeepSymbols,
        &keep(&["^pub_api$"]),
    )
    .unwrap();
    assert_eq!(path, "/s/localize.syms");
    assert_eq!(syms, vec!["helper".to_string()]);
}

#[test]
fn filter_list_remove_mode() {
    let paths = vec!["/s/x.t1.o".to_string()];
    let datas = vec![build_elf(&["keep_me", "hide_me"], &[])];
    let (_, syms) = create_symbol_filter_list(
        &"/s".to_string(),
        &paths,
        &datas,
        ArmergeKeepOrRemove::RemoveSymbols,
        &keep(&["^hide_me$"]),
    )
    .unwrap();
    assert_eq!(syms, vec!["hide_me".to_string()]);
}

#[test]
fn filter_list_deduplicates() {
    let paths = vec!["/s/a.t1.o".to_string(), "/s/b.t2.o".to_string()];
    let datas = vec![
        build_elf(&["shared", "one"], &[]),
        build_elf(&["shared", "two"], &[]),
    ];
    let (_, syms) = create_symbol_filter_list(
        &"/s".to_string(),
        &paths,
        &datas,
        ArmergeKeepOrRemove::KeepSymbols,
        &keep(&["^nothing$"]),
    )
    .unwrap();
    assert_eq!(
        syms,
        vec!["shared".to_string(), "one".to_string(), "two".to_string()]
    );
}

#[test]
fn simple_hide_plan() {
    // S2: a.o defines pub_api and helper; keep ^pub_api$
    let paths = vec!["/s/a.t1.o".to_string()];
    let datas = vec![build_elf(&["pub_api", "helper"], &[])];
    let order: Vec<String> = Vec::new();
    let ldflags: Vec<String> = Vec::new();
    let plan = armerge::objects::merge(
        ArchiveContents::Elf,
        &"/s".to_string(),
        &paths,
        &datas,
        ArmergeKeepOrRemove::KeepSymbols,
        keep(&["^pub_api$"]),
        &order,
        &ldflags,
    )
    .unwrap();
    assert_eq!(plan.merged_path, "/s/merged.o");
    assert_eq!(plan.sorted_objects, vec!["/s/a.t1.o".to_string()]);
    assert_eq!(plan.filter_list_path, "/s/localize.syms");
    assert_eq!(plan.filter_syms, vec!["helper".to_string()]);
    assert!(plan.demote_merged_elf);
    assert_eq!(plan.invocations.len(), 2);
    assert_eq!(plan.invocations[0].tool, ToolKind::Linker);
    assert_eq!(
        plan.invocations[0].args,
        vec![
            "-r".to_string(),
            "-o".to_string(),
            "/s/merged.o".to_string(),
            "/s/a.t1.o".to_string(),
        ]
    );
    assert_eq!(plan.invocations[1].tool, ToolKind::Objcopy);
    assert_eq!(
        plan.invocations[1].args,
        vec![
            "--localize-symbols".to_string(),
            "/s/localize.syms".to_string(),
            "/s/merged.o".to_string(),
        ]
    );
    // the runtime exceptions were appended under keep mode
    assert_eq!(plan.final_patterns.len(), 3);
    assert_eq!(plan.final_patterns[1].as_str(), "^_?_Unwind_.*");
    assert_eq!(plan.final_patterns[2].as_str(), "_?__g.._personality_.*");
}

#[test]
fn hide_plan_orders_objects() {
    // S6 at plan level: retained base names gamma, alpha, beta
    let paths = vec![
        "/s/gamma.t1.o".to_string(),
        "/s/alpha.t2.o".to_string(),
        "/s/beta.t3.o".to_string(),
    ];
    let datas = vec![
        build_elf(&["g"], &[]),
        build_elf(&["a"], &[]),
        build_elf(&["b"], &[]),
    ];
    let order = vec!["alpha".to_string(), "beta".to_string()];
    let ldflags: Vec<String> = Vec::new();
    let plan = armerge::objects::merge(
        ArchiveContents::Elf,
        &"/s".to_string(),
        &paths,
        &datas,
        ArmergeKeepOrRemove::KeepSymbols,
        keep(&["^[gab]$"]),
        &order,
        &ldflags,
    )
    .unwrap();
    assert_eq!(
        plan.sorted_objects,
        vec![
            "/s/alpha.t2.o".to_string(),
            "/s/beta.t3.o".to_string(),
            "/s/gamma.t1.o".to_string(),
        ]
    );
}

#[test]
fn hide_plan_with_nothing_kept_fails() {
    // S5: objects defining only foo and bar, keeping ^nonexistent$
    let paths = vec!["/s/a.t1.o".to_string(), "/s/b.t2.o".to_string()];
    let datas = vec![build_elf(&["foo"], &[]), build_elf(&["bar"], &[])];
    let order: Vec<String> = Vec::new();
    let ldflags: Vec<String> = Vec::new();
    let r = armerge::objects::merge(
        ArchiveContents::Elf,
        &"/s".to_string(),
        &paths,
        &datas,
        ArmergeKeepOrRemove::KeepSymbols,
        keep(&["^nonexistent$"]),
        &order,
        &ldflags,
    );
    assert!(matches!(r, Err(MergeError::NoObjectsLeft)));
}

#[test]
fn macho_plan_takes_two_linker_passes() {
    let invs = create_filtered_merged_macho_object(
        &"/s/merged.o".to_string(),
        &vec!["/s/a.t1.o".to_string()],
        &"/s/localize.syms".to_string(),
        &Vec::new(),
    );
    assert_eq!(invs.len(), 2);
    assert_eq!(invs[0].tool, ToolKind::Linker);
    assert_eq!(
        invs[0].args,
        vec![
            "-r".to_string(),
            "-o".to_string(),
            "/s/merged_firstpass.o".to_string(),
            "-unexported_symbols_list".to_string(),
            "/s/localize.syms".to_string(),
            "/s/a.t1.o".to_string(),
        ]
    );
    assert_eq!(invs[1].tool, ToolKind::Linker);
    assert_eq!(
        invs[1].args,
        vec![
            "-r".to_string(),
            "-o".to_string(),
            "/s/merged.o".to_string(),
            "/s/merged_firstpass.o".to_string(),
        ]
    );
}

#[test]
fn macho_firstpass_without_directory() {
    let invs = create_filtered_merged_macho_object(
        &"merged.o".to_string(),
        &vec!["a.t1.o".to_string()],
        &"localize.syms".to_string(),
        &Vec::new(),
    );
    assert_eq!(invs[0].args[2], "merged_firstpass.o");
    assert_eq!(invs[1].args[3], "merged_firstpass.o");
}

#[test]
fn linker_invocation_carries_ldflags() {
    let inv = create_merged_object(
        &"/s/merged.o".to_string(),
        &Vec::new(),
        &vec!["--gc-sections".to_string()],
        &vec!["/s/a.t1.o".to_string()],
    );
    assert_eq!(inv.tool, ToolKind::Linker);
    assert_eq!(
        inv.args,
        vec![
            "-r".to_string(),
            "-o".to_string(),
            "/s/merged.o".to_string(),
            "--gc-sections".to_string(),
            "/s/a.t1.o".to_string(),
        ]
    );
}

#[test]
fn builtin_filter_localizes_globals() {
    let data = build_elf(&["keep_me", "hide_me"], &[]);
    let filtered = filter_merged_elf(data, &keep(&["^keep_me$"])).unwrap();
    let syms = parse_object_symbols(&filtered).unwrap();
    let kept = syms
        .iter()
        .find(|s| s.name.as_deref() == Some("keep_me"))
        .unwrap();
    assert!(kept.global);
    let hidden = syms
        .iter()
        .find(|s| s.name.as_deref() == Some("hide_me"))
        .unwrap();
    assert!(!hidden.global);
}

#[test]
fn demote_skips_non_elf() {
    let mut macho = vec![0xfe, 0xed, 0xfa, 0xcf];
    macho.resize(32, 0);
    let r = demote_elf_comdats(macho, &keep(&[])).unwrap();
    assert!(r.is_none());
}

#[test]
fn demote_rewrites_elf_in_place() {
    let data = build_elf(&["f"], &[]);
    let r = demote_elf_comdats(data.clone(), &keep(&["^f$"])).unwrap();
    // the object holds no COMDAT group, so the image comes back intact
    assert_eq!(r.unwrap(), data);
}

#[test]
fn demote_clears_comdat_flag_of_localized_group() {
    // one COMDAT group whose signature symbol is not kept
    let mut obj = Object::new(BinaryFormat::Elf, Architecture::X86_64, Endianness::Little);
    let text = obj.add_section(
        Vec::new(),
        b".text.folded".to_vec(),
        object::SectionKind::Text,
    );
    obj.append_section_data(text, &[0xc3], 1);
    let sig = obj.add_symbol(Symbol {
        name: b"folded".to_vec(),
        value: 0,
        size: 1,
        kind: SymbolKind::Text,
        scope: SymbolScope::Dynamic,
        weak: false,
        section: SymbolSection::Section(text),
        flags: SymbolFlags::None,
    });
    obj.add_comdat(object::write::Comdat {
        kind: object::ComdatKind::Any,
        symbol: sig,
        sections: vec![text],
    });
    let data = obj.write().unwrap();
    let rewritten = demote_elf_comdats(data.clone(), &keep(&["^kept_only$"]))
        .unwrap()
        .expect("an ELF image must be rewritten");
    assert_ne!(rewritten, data);

    // the rewritten image holds no COMDAT-flagged group any more
    let parsed = object::File::parse(rewritten.as_slice()).unwrap();
    assert!(ReadObject::comdats(&parsed).next().is_none());
}

#[test]
fn demote_rejects_short_input() {
    let r = demote_elf_comdats(vec![0u8; 4], &keep(&[]));
    assert!(matches!(r, Err(MergeError::InternalError(_))));
}

#[test]
fn demote_rejects_malformed_elf() {
    // ELF magic with an invalid class byte: the structural screen refuses
    // it before the rewriter runs
    let mut junk = b"\x7fELF".to_vec();
    junk.resize(64, 0);
    let r = demote_elf_comdats(junk, &keep(&[]));
    assert!(matches!(r, Err(MergeError::InternalError(_))));
}

#[test]
fn builtin_filter_rejects_malformed_elf() {
    let mut junk = b"\x7fELF".to_vec();
    junk.resize(64, 0);
    let r = filter_merged_elf(junk, &keep(&[]));
    assert!(matches!(r, Err(MergeError::InternalError(_))));
}

#[test]
fn builtin_merge_rejects_remove_mode() {
    let r = armerge::objects::builtin_filter::merge_required_objects(
        &"/s/merged.o".to_string(),
        &vec!["/s/a.t1.o".to_string()],
        ArmergeKeepOrRemove::RemoveSymbols,
        &Vec::new(),
    );
    assert!(matches!(r, Err(MergeError::InternalError(_))));
}

#[test]
fn builtin_merge_keep_mode_plans_the_link() {
    let inv = armerge::objects::builtin_filter::merge_required_objects(
        &"/s/merged.o".to_string(),
        &vec!["/s/a.t1.o".to_string()],
        ArmergeKeepOrRemove::KeepSymbols,
        &Vec::new(),
    )
    .unwrap();
    assert_eq!(inv.tool, ToolKind::Linker);
    assert_eq!(
        inv.args,
        vec![
            "-r".to_string(),
            "-o".to_string(),
            "/s/merged.o".to_string(),
            "/s/a.t1.o".to_string(),
        ]
    );
}

#[test]
fn structural_screen_accepts_real_objects() {
    let data = build_elf(&["f"], &[]);
    assert!(armerge::objects::elf_check::check_elf_rewrite_safe(&data));
    // cutting the image below the file header size must fail the screen
    let mut truncated = data.clone();
    truncated.truncate(40);
    assert!(!armerge::objects::elf_check::check_elf_rewrite_safe(&truncated));
    // an image whose section table runs past the end must fail the screen
    let mut cut = data.clone();
    cut.truncate(data.len() - 1);
    assert!(!armerge::objects::elf_check::check_elf_rewrite_safe(&cut));
}

#[test]
fn scratch_names_have_base_names() {
    assert!(armerge::archives::has_base_name("/s/liba.a@a.o.t1.o"));
    assert!(armerge::archives::has_base_name("alpha.tok.o"));
    assert!(!armerge::archives::has_base_name("/s/merged.o"));
    assert!(!armerge::archives::has_base_name("plain"));
}

#[test]
fn passthrough_keeps_all_members() {
    // S1 at plan level: both extracted objects become members, in order
    let mut builder = create_ar_builder(
        ArchiveContents::Elf,
        false,
        &"/out/lib.a".to_string(),
    )
    .unwrap();
    let objects = vec![
        "/s/liba.a@a.o.t1.o".to_string(),
        "/s/libb.a@b.o.t2.o".to_string(),
    ];
    let index = armerge::archives::merge(&mut builder, &objects).unwrap();
    match &builder {
        ArBuilder::Common(c) => {
            assert_eq!(c.appended, objects);
            assert!(c.closed);
        },
        _ => panic!("ELF contents take the common builder"),
    }
    assert_eq!(index.tool, ToolKind::Ranlib);
    assert_eq!(index.args, vec!["/out/lib.a".to_string()]);
}

#[test]
fn hide_path_packages_one_member() {
    // the hide path's archive holds exactly the merged object
    let mut builder = create_ar_builder(
        ArchiveContents::Elf,
        false,
        &"/out/lib.a".to_string(),
    )
    .unwrap();
    let index = armerge::objects::package_merged_object(&mut builder, &"/s/merged.o".to_string());
    match &builder {
        ArBuilder::Common(c) => {
            assert_eq!(c.appended, vec!["/s/merged.o".to_string()]);
            assert!(c.closed);
        },
        _ => panic!("ELF contents take the common builder"),
    }
    let index = index.unwrap();
    assert_eq!(index.tool, ToolKind::Ranlib);
    assert_eq!(index.args, vec!["/out/lib.a".to_string()]);
}

#[test]
fn hide_path_packages_one_member_on_mac() {
    let mut builder = create_ar_builder(
        ArchiveContents::MachO,
        false,
        &"/out/lib.a".to_string(),
    )
    .unwrap();
    let index = armerge::objects::package_merged_object(&mut builder, &"/s/merged.o".to_string());
    let index = index.unwrap();
    assert_eq!(index.tool, ToolKind::Libtool);
    assert_eq!(
        index.args,
        vec![
            "-static".to_string(),
            "-o".to_string(),
            "/out/lib.a".to_string(),
            "/s/merged.o".to_string(),
        ]
    );
}

#[test]
fn empty_input_is_refused() {
    let r = create_ar_builder(ArchiveContents::Empty, false, &"/out/lib.a".to_string());
    assert!(matches!(
        r,
        Err(armerge::ProcessInputError::Empty)
    ));
}

#[test]
fn mac_builder_plans_one_libtool_run() {
    let mut b = MacArBuilder::new(&"/out/lib.a".to_string());
    b.append_obj(&"/s/merged.o".to_string());
    let inv = b.write_obj().unwrap();
    assert_eq!(inv.tool, ToolKind::Libtool);
    assert_eq!(
        inv.args,
        vec![
            "-static".to_string(),
            "-o".to_string(),
            "/out/lib.a".to_string(),
            "/s/merged.o".to_string(),
        ]
    );
    // a second close does nothing
    assert!(b.write_obj().is_none());
}

#[test]
fn ranlib_invocation_names_the_archive() {
    let inv = create_index(&"/out/lib.a".to_string());
    assert_eq!(inv.tool, ToolKind::Ranlib);
    assert_eq!(inv.args, vec!["/out/lib.a".to_string()]);
}
