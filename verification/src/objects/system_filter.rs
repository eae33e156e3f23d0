//! Symbol filtering through external tools.
//!
//! This path builds the newline-separated list of symbols the external
//! symbol-editing tool must localize, and plans the linker and tool
//! invocations that produce the filtered merged object. For ELF outputs it
//! also applies the COMDAT demotion to the merged bytes.

use vstd::prelude::*;

use crate::archives::{archive_object_type, class_of_header, ArchiveContents};
use crate::merge_error::MergeError;
use crate::objects::builtin_filter::{demote_comdat_groups, elf_demoted};
use crate::objects::merge::{create_merged_object, linker_args_spec, ToolInvocation, ToolKind};
use crate::objects::syms::{
    contains_name, contains_string, kind_considered, names_of, parse_object_symbols, sym_table_of,
    syms_view, SymData, SymKind, SymbolInfo,
};
use crate::objects::filter_deps::{datas_view, tables_of};
use crate::policy::{
    matches_any, name_matches_any, pat_views, ArmergeKeepOrRemove, Pattern,
};

verus! {

/// The policy marks this symbol for localization. Under `KeepSymbols` a
/// considered, global, defined symbol is localized when no regex matches
/// its name; under `RemoveSymbols` a considered symbol is localized when
/// some regex matches its name.
pub open spec fn localize_cond(
    s: SymData,
    keep_or_remove: ArmergeKeepOrRemove,
    pats: Seq<Seq<char>>,
) -> bool {
    if keep_or_remove == ArmergeKeepOrRemove::KeepSymbols {
        &&& kind_considered(s)
        &&& s.global
        &&& !s.undefined
        &&& s.name is Some
        &&& !matches_any(pats, s.name.unwrap())
    } else {
        &&& kind_considered(s)
        &&& s.name is Some
        &&& matches_any(pats, s.name.unwrap())
    }
}

/// Some symbol of the table carries name `n` and is marked for
/// localization.
pub open spec fn table_wants_localized(
    t: Seq<SymData>,
    n: Seq<char>,
    keep_or_remove: ArmergeKeepOrRemove,
    pats: Seq<Seq<char>>,
) -> bool {
    exists|k: int| 0 <= k < t.len() && localize_cond(t[k], keep_or_remove, pats) && t[k].name == Some(n)
}

/// Some of the first `upto` tables wants `n` localized.
pub open spec fn wants_before(
    tables: Seq<Seq<SymData>>,
    upto: int,
    n: Seq<char>,
    keep_or_remove: ArmergeKeepOrRemove,
    pats: Seq<Seq<char>>,
) -> bool {
    exists|k: int| 0 <= k < upto && table_wants_localized(tables[k], n, keep_or_remove, pats)
}

/// One symbol of `t`'s prefix of length `upto` wants `n` localized.
pub open spec fn wants_prefix(
    t: Seq<SymData>,
    upto: int,
    n: Seq<char>,
    keep_or_remove: ArmergeKeepOrRemove,
    pats: Seq<Seq<char>>,
) -> bool {
    exists|l: int| 0 <= l < upto && localize_cond(t[l], keep_or_remove, pats) && t[l].name == Some(n)
}

/// Hiding soundness under `KeepSymbols`: a considered, global, defined
/// symbol of one of the walked objects whose name is missing from the
/// filter list — and therefore stays global — matches one of the
/// effective keep patterns (the caller's own patterns together with the
/// runtime exceptions appended to them).
pub proof fn lemma_keep_hiding_soundness(
    filter_syms: Seq<String>,
    tables: Seq<Seq<SymData>>,
    pats: Seq<Seq<char>>,
    k: int,
    j: int,
)
    requires
        forall|n: Seq<char>|
            #[trigger] contains_name(filter_syms, n) <==> wants_before(
                tables,
                tables.len() as int,
                n,
                ArmergeKeepOrRemove::KeepSymbols,
                pats,
            ),
        0 <= k < tables.len(),
        0 <= j < tables[k].len(),
        kind_considered(tables[k][j]),
        tables[k][j].global,
        !tables[k][j].undefined,
        tables[k][j].name is Some,
        !contains_name(filter_syms, tables[k][j].name.unwrap()),
    ensures
        matches_any(pats, tables[k][j].name.unwrap()),
{
    let n = tables[k][j].name.unwrap();
    if !matches_any(pats, n) {
        assert(localize_cond(tables[k][j], ArmergeKeepOrRemove::KeepSymbols, pats));
        assert(tables[k][j].name == Some(n));
        assert(table_wants_localized(tables[k], n, ArmergeKeepOrRemove::KeepSymbols, pats));
        assert(wants_before(
            tables,
            tables.len() as int,
            n,
            ArmergeKeepOrRemove::KeepSymbols,
            pats,
        ));
    }
}

/// Hiding soundness under `RemoveSymbols`: a considered symbol of one of
/// the walked objects whose name is missing from the filter list — and
/// therefore stays as it was — is matched by none of the remove patterns.
pub proof fn lemma_remove_hiding_soundness(
    filter_syms: Seq<String>,
    tables: Seq<Seq<SymData>>,
    pats: Seq<Seq<char>>,
    k: int,
    j: int,
)
    requires
        forall|n: Seq<char>|
            #[trigger] contains_name(filter_syms, n) <==> wants_before(
                tables,
                tables.len() as int,
                n,
                ArmergeKeepOrRemove::RemoveSymbols,
                pats,
            ),
        0 <= k < tables.len(),
        0 <= j < tables[k].len(),
        kind_considered(tables[k][j]),
        tables[k][j].name is Some,
        !contains_name(filter_syms, tables[k][j].name.unwrap()),
    ensures
        !matches_any(pats, tables[k][j].name.unwrap()),
{
    let n = tables[k][j].name.unwrap();
    if matches_any(pats, n) {
        assert(localize_cond(tables[k][j], ArmergeKeepOrRemove::RemoveSymbols, pats));
        assert(tables[k][j].name == Some(n));
        assert(table_wants_localized(tables[k], n, ArmergeKeepOrRemove::RemoveSymbols, pats));
        assert(wants_before(
            tables,
            tables.len() as int,
            n,
            ArmergeKeepOrRemove::RemoveSymbols,
            pats,
        ));
    }
}

/// Does the policy mark this symbol for localization?
fn symbol_localized(
    s: &SymbolInfo,
    keep_or_remove: ArmergeKeepOrRemove,
    regexes: &Vec<Pattern>,
) -> (r: bool)
    ensures
        r == localize_cond(s@, keep_or_remove, pat_views(regexes@)),
{
    let considered = matches!(s.kind, SymKind::Text | SymKind::Data | SymKind::Unknown);
    if !considered {
        return false;
    }
    if keep_or_remove == ArmergeKeepOrRemove::KeepSymbols {
        if !s.global || s.undefined {
            return false;
        }
        match &s.name {
            None => false,
            Some(n) => !name_matches_any(regexes, n.as_str()),
        }
    } else {
        match &s.name {
            None => false,
            Some(n) => name_matches_any(regexes, n.as_str()),
        }
    }
}

/// Walk the symbol tables of the retained objects and collect, without
/// duplicates, every symbol name the policy marks for localization. The
/// returned path, `<scratch dir>/localize.syms`, is where the runner
/// writes the list, one name per line.
pub fn create_symbol_filter_list(
    object_dir: &String,
    object_paths: &Vec<String>,
    object_datas: &Vec<Vec<u8>>,
    keep_or_remove: ArmergeKeepOrRemove,
    regexes: &Vec<Pattern>,
) -> (r: Result<(String, Vec<String>), MergeError>)
    requires
        object_paths@.len() == object_datas@.len(),
    ensures
        match r {
            Ok(pl) => {
                &&& pl.0@ == object_dir@ + "/localize.syms"@
                &&& forall|k: int|
                    0 <= k < object_datas@.len() ==> sym_table_of(
                        #[trigger] object_datas@[k]@,
                    ) is Some
                &&& forall|a: int, b: int| 0 <= a < b < pl.1@.len() ==> pl.1@[a]@ != pl.1@[b]@
                &&& forall|n: Seq<char>|
                    #[trigger] contains_name(pl.1@, n) <==> wants_before(
                        tables_of(datas_view(object_datas@)),
                        object_datas@.len() as int,
                        n,
                        keep_or_remove,
                        pat_views(regexes@),
                    )
            },
            Err(e) => exists|k: int|
                0 <= k < object_datas@.len() && sym_table_of(#[trigger] object_datas@[k]@) is None
                    && (e matches MergeError::InvalidObject { path, .. } && path@
                    == object_paths@[k]@),
        },
{
    let ghost pats = pat_views(regexes@);
    let ghost tables = tables_of(datas_view(object_datas@));
    let n_objs = object_datas.len();
    let mut filter_syms: Vec<String> = Vec::new();
    for i in 0..n_objs
        invariant
            n_objs == object_datas@.len(),
            object_paths@.len() == object_datas@.len(),
            pats == pat_views(regexes@),
            tables == tables_of(datas_view(object_datas@)),
            forall|k: int| 0 <= k < i ==> sym_table_of(#[trigger] object_datas@[k]@) is Some,
            forall|a: int, b: int|
                0 <= a < b < filter_syms@.len() ==> filter_syms@[a]@ != filter_syms@[b]@,
            forall|n: Seq<char>|
                #[trigger] contains_name(filter_syms@, n) <==> wants_before(
                    tables,
                    i as int,
                    n,
                    keep_or_remove,
                    pats,
                ),
    {
        let syms = match parse_object_symbols(object_datas[i].as_slice()) {
            Ok(syms) => syms,
            Err(e) => {
                return Err(
                    MergeError::InvalidObject { path: object_paths[i].clone(), inner: e },
                );
            },
        };
        let ghost ti = syms_view(syms@);
        proof {
            assert(datas_view(object_datas@)[i as int] == object_datas@[i as int]@);
            assert(tables[i as int] == ti);
            assert forall|n: Seq<char>| #[trigger] contains_name(filter_syms@, n) implies (
            wants_before(tables, i as int, n, keep_or_remove, pats) || wants_prefix(
                ti,
                0,
                n,
                keep_or_remove,
                pats,
            )) by {}
        }
        for j in 0..syms.len()
            invariant
                n_objs == object_datas@.len(),
                object_paths@.len() == object_datas@.len(),
                0 <= i < n_objs,
                pats == pat_views(regexes@),
                tables == tables_of(datas_view(object_datas@)),
                ti == syms_view(syms@),
                tables[i as int] == ti,
                forall|a: int, b: int|
                    0 <= a < b < filter_syms@.len() ==> filter_syms@[a]@ != filter_syms@[b]@,
                forall|n: Seq<char>|
                    #[trigger] contains_name(filter_syms@, n) <==> (wants_before(
                        tables,
                        i as int,
                        n,
                        keep_or_remove,
                        pats,
                    ) || wants_prefix(ti, j as int, n, keep_or_remove, pats)),
        {
            let s = &syms[j];
            let ghost cur = ti[j as int];
            let ghost fs0 = filter_syms@;
            if symbol_localized(s, keep_or_remove, regexes) {
                match &s.name {
                    Some(nm) => {
                        if !contains_string(&filter_syms, nm) {
                            let c = nm.clone();
                            filter_syms.push(c);
                            proof {
                                assert(filter_syms@[fs0.len() as int]@ == nm@);
                                assert forall|a: int, b: int|
                                    0 <= a < b < filter_syms@.len() implies filter_syms@[a]@
                                    != filter_syms@[b]@ by {
                                    if b < fs0.len() {
                                        assert(filter_syms@[a] == fs0[a]);
                                        assert(filter_syms@[b] == fs0[b]);
                                    } else {
                                        assert(!contains_name(fs0, nm@));
                                        assert(filter_syms@[a] == fs0[a]);
                                    }
                                }
                                assert forall|n: Seq<char>|
                                    #[trigger] contains_name(filter_syms@, n) <==> (wants_before(
                                    tables,
                                    i as int,
                                    n,
                                    keep_or_remove,
                                    pats,
                                ) || wants_prefix(
                                    ti,
                                    j + 1,
                                    n,
                                    keep_or_remove,
                                    pats,
                                )) by {
                                    if contains_name(filter_syms@, n) {
                                        let k = choose|k: int|
                                            0 <= k < filter_syms@.len() && filter_syms@[k]@ == n;
                                        if k < fs0.len() {
                                            assert(contains_name(fs0, n));
                                        } else {
                                            assert(n == nm@);
                                            assert(cur.name == Some(nm@));
                                            assert(localize_cond(cur, keep_or_remove, pats));
                                            assert(wants_prefix(ti, j + 1, n, keep_or_remove, pats));
                                        }
                                    }
                                    if wants_before(tables, i as int, n, keep_or_remove, pats) {
                                        assert(contains_name(fs0, n));
                                        let k = choose|k: int|
                                            0 <= k < fs0.len() && fs0[k]@ == n;
                                        assert(filter_syms@[k]@ == n);
                                        assert(contains_name(filter_syms@, n));
                                    }
                                    if wants_prefix(ti, j + 1, n, keep_or_remove, pats) {
                                        let l = choose|l: int|
                                            0 <= l < j + 1 && localize_cond(
                                                ti[l],
                                                keep_or_remove,
                                                pats,
                                            ) && ti[l].name == Some(n);
                                        if l < j {
                                            assert(contains_name(fs0, n));
                                            let k = choose|k: int|
                                                0 <= k < fs0.len() && fs0[k]@ == n;
                                            assert(filter_syms@[k]@ == n);
                                        } else {
                                            assert(n == nm@);
                                            assert(contains_name(filter_syms@, n));
                                        }
                                    }
                                }
                            }
                        } else {
                            proof {
                                assert(cur.name == Some(nm@));
                                assert(localize_cond(cur, keep_or_remove, pats));
                                assert forall|n: Seq<char>|
                                    #[trigger] contains_name(filter_syms@, n) <==> (wants_before(
                                    tables,
                                    i as int,
                                    n,
                                    keep_or_remove,
                                    pats,
                                ) || wants_prefix(
                                    ti,
                                    j + 1,
                                    n,
                                    keep_or_remove,
                                    pats,
                                )) by {
                                    if wants_prefix(ti, j + 1, n, keep_or_remove, pats) {
                                        let l = choose|l: int|
                                            0 <= l < j + 1 && localize_cond(
                                                ti[l],
                                                keep_or_remove,
                                                pats,
                                            ) && ti[l].name == Some(n);
                                        if l == j {
                                            assert(n == nm@);
                                            assert(contains_name(filter_syms@, n));
                                        }
                                    }
                                }
                            }
                        }
                    },
                    None => {
                        proof {
                            assert(false);
                        }
                    },
                }
            } else {
                proof {
                    assert(!localize_cond(cur, keep_or_remove, pats));
                    assert forall|n: Seq<char>|
                        #[trigger] contains_name(filter_syms@, n) <==> (wants_before(
                        tables,
                        i as int,
                        n,
                        keep_or_remove,
                        pats,
                    ) || wants_prefix(ti, j + 1, n, keep_or_remove, pats)) by {
                        if wants_prefix(ti, j + 1, n, keep_or_remove, pats) {
                            let l = choose|l: int|
                                0 <= l < j + 1 && localize_cond(ti[l], keep_or_remove, pats)
                                    && ti[l].name == Some(n);
                            assert(l < j);
                        }
                    }
                }
            }
        }
        proof {
            assert forall|n: Seq<char>| #[trigger] contains_name(filter_syms@, n) <==> wants_before(
                tables,
                i + 1,
                n,
                keep_or_remove,
                pats,
            ) by {
                if contains_name(filter_syms@, n) {
                    if wants_before(tables, i as int, n, keep_or_remove, pats) {
                        let k = choose|k: int|
                            0 <= k < i && table_wants_localized(tables[k], n, keep_or_remove, pats);
                        assert(table_wants_localized(tables[k], n, keep_or_remove, pats));
                    } else {
                        assert(wants_prefix(ti, syms@.len() as int, n, keep_or_remove, pats));
                        assert(table_wants_localized(tables[i as int], n, keep_or_remove, pats));
                    }
                }
                if wants_before(tables, i + 1, n, keep_or_remove, pats) {
                    let k = choose|k: int|
                        0 <= k < i + 1 && table_wants_localized(tables[k], n, keep_or_remove, pats);
                    if k < i {
                        assert(wants_before(tables, i as int, n, keep_or_remove, pats));
                    } else {
                        assert(wants_prefix(ti, syms@.len() as int, n, keep_or_remove, pats));
                    }
                }
            }
        }
    }
    let mut filter_path = object_dir.clone();
    filter_path.append("/localize.syms");
    Ok((filter_path, filter_syms))
}

/// Plan the filtered merge used for ELF and unknown formats: one
/// relocatable link of all retained objects, then the symbol-editing tool
/// localizing every name in the filter list.
pub fn create_filtered_merged_object(
    merged_path: &String,
    objects: &Vec<String>,
    filter_list: &String,
    ldflags: &Vec<String>,
) -> (r: Vec<ToolInvocation>)
    ensures
        r@.len() == 2,
        r@[0].tool == ToolKind::Linker,
        names_of(r@[0].args@) == linker_args_spec(
            merged_path@,
            Seq::empty(),
            names_of(ldflags@),
            names_of(objects@),
        ),
        r@[1].tool == ToolKind::Objcopy,
        names_of(r@[1].args@) == seq!["--localize-symbols"@, filter_list@, merged_path@],
{
    let extra: Vec<String> = Vec::new();
    proof {
        assert(names_of(extra@) =~= Seq::<Seq<char>>::empty());
    }
    let link = create_merged_object(merged_path, &extra, ldflags, objects);
    let localize = filter_symbols(merged_path, filter_list);
    let mut r: Vec<ToolInvocation> = Vec::new();
    r.push(link);
    r.push(localize);
    r
}

/// Plan the invocation of the symbol-editing tool that localizes the
/// listed symbols in place.
fn filter_symbols(object_path: &String, filter_list_path: &String) -> (r: ToolInvocation)
    ensures
        r.tool == ToolKind::Objcopy,
        names_of(r.args@) == seq!["--localize-symbols"@, filter_list_path@, object_path@],
{
    let mut args: Vec<String> = Vec::new();
    args.push("--localize-symbols".to_owned());
    args.push(filter_list_path.clone());
    args.push(object_path.clone());
    proof {
        assert(names_of(args@) =~~= seq!["--localize-symbols"@, filter_list_path@, object_path@]);
    }
    ToolInvocation { tool: ToolKind::Objcopy, args }
}

/// The scratch path of the first-pass Mach-O merge, next to the final
/// merged object.
pub open spec fn firstpass_path_spec(merged: Seq<char>) -> Seq<char> {
    match merged.index_of_last('/') {
        Some(i) => merged.take(i + 1) + "merged_firstpass.o"@,
        None => "merged_firstpass.o"@,
    }
}

/// Plan the two-pass Mach-O merge: the first link applies the unexported
/// symbols list, the second consolidates the first pass into the final
/// merged object.
pub fn create_filtered_merged_macho_object(
    merged_path: &String,
    objects: &Vec<String>,
    filter_list: &String,
    ldflags: &Vec<String>,
) -> (r: Vec<ToolInvocation>)
    ensures
        r@.len() == 2,
        r@[0].tool == ToolKind::Linker,
        names_of(r@[0].args@) == linker_args_spec(
            firstpass_path_spec(merged_path@),
            seq!["-unexported_symbols_list"@, filter_list@],
            names_of(ldflags@),
            names_of(objects@),
        ),
        r@[1].tool == ToolKind::Linker,
        names_of(r@[1].args@) == linker_args_spec(
            merged_path@,
            Seq::empty(),
            names_of(ldflags@),
            seq![firstpass_path_spec(merged_path@)],
        ),
{
    let merged_len = merged_path.as_str().unicode_len();
    let mut firstpass: String = match crate::archives::last_index_of_char(
        merged_path.as_str(),
        '/',
    ) {
        Some(i) => {
            proof {
                merged_path@.index_of_last_ensures('/');
                assert(i < merged_len);
            }
            let p = merged_path.as_str().substring_char(0, i + 1);
            p.to_owned()
        },
        None => String::new(),
    };
    firstpass.append("merged_firstpass.o");
    proof {
        assert(firstpass@ =~= firstpass_path_spec(merged_path@));
    }
    let mut extra: Vec<String> = Vec::new();
    extra.push("-unexported_symbols_list".to_owned());
    extra.push(filter_list.clone());
    proof {
        assert(names_of(extra@) =~~= seq!["-unexported_symbols_list"@, filter_list@]);
    }
    let first = create_merged_object(&firstpass, &extra, ldflags, objects);
    let extra2: Vec<String> = Vec::new();
    let mut single: Vec<String> = Vec::new();
    single.push(firstpass);
    proof {
        assert(names_of(extra2@) =~= Seq::<Seq<char>>::empty());
        assert(names_of(single@) =~~= seq![firstpass_path_spec(merged_path@)]);
    }
    let second = create_merged_object(merged_path, &extra2, ldflags, &single);
    let mut r: Vec<ToolInvocation> = Vec::new();
    r.push(first);
    r.push(second);
    r
}

/// If the merged object is ELF, clear the COMDAT flag of every section
/// group whose signature symbol is not kept, returning the rewritten
/// image; other formats are left untouched (`None`). An ELF image that
/// fails the structural screen of the rewriter is rejected with an error
/// rather than rewritten.
pub fn demote_elf_comdats(data: Vec<u8>, keep_regexes: &Vec<Pattern>) -> (r: Result<
    Option<Vec<u8>>,
    MergeError,
>)
    ensures
        match r {
            Ok(out) => {
                &&& data@.len() >= 16
                &&& (out is Some <==> class_of_header(data@) == ArchiveContents::Elf)
                &&& out matches Some(v) ==> crate::objects::elf_check::elf_rewrite_safe(data@)
                    && elf_demoted(data@, pat_views(keep_regexes@)) == Some(v@)
            },
            Err(e) => (data@.len() < 16 || (class_of_header(data@) == ArchiveContents::Elf && (
            !crate::objects::elf_check::elf_rewrite_safe(data@) || elf_demoted(
                data@,
                pat_views(keep_regexes@),
            ) is None))) && e matches MergeError::InternalError(_),
        },
{
    if data.len() < 16 {
        return Err(MergeError::InternalError("merged object is too short".to_owned()));
    }
    let cls = archive_object_type(data.as_slice());
    if cls != ArchiveContents::Elf {
        return Ok(None);
    }
    if !crate::objects::elf_check::check_elf_rewrite_safe(&data) {
        return Err(
            MergeError::InternalError(
                "merged object failed the structural checks of the group demoter".to_owned(),
            ),
        );
    }
    match demote_comdat_groups(data, keep_regexes) {
        Ok(v) => Ok(Some(v)),
        Err(m) => Err(MergeError::InternalError(m)),
    }
}

/// Plan the Mach-O filtered merge: the filter list plus the two-pass link.
pub fn merge_required_macho_objects(
    obj_dir: &String,
    merged_path: &String,
    objects: &Vec<String>,
    object_paths: &Vec<String>,
    object_datas: &Vec<Vec<u8>>,
    keep_or_remove: ArmergeKeepOrRemove,
    regexes: &Vec<Pattern>,
    ldflags: &Vec<String>,
) -> (r: Result<(String, Vec<String>, Vec<ToolInvocation>), MergeError>)
    requires
        object_paths@.len() == object_datas@.len(),
    ensures
        match r {
            Ok(pl) => {
                &&& pl.0@ == obj_dir@ + "/localize.syms"@
                &&& forall|a: int, b: int| 0 <= a < b < pl.1@.len() ==> pl.1@[a]@ != pl.1@[b]@
                &&& forall|n: Seq<char>|
                    #[trigger] contains_name(pl.1@, n) <==> wants_before(
                        tables_of(datas_view(object_datas@)),
                        object_datas@.len() as int,
                        n,
                        keep_or_remove,
                        pat_views(regexes@),
                    )
                &&& pl.2@.len() == 2
                &&& pl.2@[0].tool == ToolKind::Linker
                &&& names_of(pl.2@[0].args@) == linker_args_spec(
                    firstpass_path_spec(merged_path@),
                    seq!["-unexported_symbols_list"@, (obj_dir@ + "/localize.syms"@)],
                    names_of(ldflags@),
                    names_of(objects@),
                )
                &&& pl.2@[1].tool == ToolKind::Linker
                &&& names_of(pl.2@[1].args@) == linker_args_spec(
                    merged_path@,
                    Seq::empty(),
                    names_of(ldflags@),
                    seq![firstpass_path_spec(merged_path@)],
                )
            },
            Err(e) => exists|k: int|
                0 <= k < object_datas@.len() && sym_table_of(#[trigger] object_datas@[k]@) is None,
        },
{
    let (filter_path, filter_syms) = match create_symbol_filter_list(
        obj_dir,
        object_paths,
        object_datas,
        keep_or_remove,
        regexes,
    ) {
        Ok(pl) => pl,
        Err(e) => {
            return Err(e);
        },
    };
    let invocations = create_filtered_merged_macho_object(
        merged_path,
        objects,
        &filter_path,
        ldflags,
    );
    Ok((filter_path, filter_syms, invocations))
}

/// Plan the system-tool filtered merge used for ELF and unknown formats:
/// the filter list, the link, and the localizing tool run. For ELF merged
/// objects the runner must afterwards apply [`demote_elf_comdats`] to the
/// merged bytes.
pub fn merge_required_objects(
    obj_dir: &String,
    merged_path: &String,
    objects: &Vec<String>,
    object_paths: &Vec<String>,
    object_datas: &Vec<Vec<u8>>,
    keep_or_remove: ArmergeKeepOrRemove,
    regexes: &Vec<Pattern>,
    ldflags: &Vec<String>,
) -> (r: Result<(String, Vec<String>, Vec<ToolInvocation>), MergeError>)
    requires
        object_paths@.len() == object_datas@.len(),
    ensures
        match r {
            Ok(pl) => {
                &&& pl.0@ == obj_dir@ + "/localize.syms"@
                &&& forall|a: int, b: int| 0 <= a < b < pl.1@.len() ==> pl.1@[a]@ != pl.1@[b]@
                &&& forall|n: Seq<char>|
                    #[trigger] contains_name(pl.1@, n) <==> wants_before(
                        tables_of(datas_view(object_datas@)),
                        object_datas@.len() as int,
                        n,
                        keep_or_remove,
                        pat_views(regexes@),
                    )
                &&& pl.2@.len() == 2
                &&& pl.2@[0].tool == ToolKind::Linker
                &&& names_of(pl.2@[0].args@) == linker_args_spec(
                    merged_path@,
                    Seq::empty(),
                    names_of(ldflags@),
                    names_of(objects@),
                )
                &&& pl.2@[1].tool == ToolKind::Objcopy
                &&& names_of(pl.2@[1].args@) == seq!["--localize-symbols"@, (obj_dir@
                    + "/localize.syms"@), merged_path@]
            },
            Err(e) => exists|k: int|
                0 <= k < object_datas@.len() && sym_table_of(#[trigger] object_datas@[k]@) is None,
        },
{
    let (filter_path, filter_syms) = match create_symbol_filter_list(
        obj_dir,
        object_paths,
        object_datas,
        keep_or_remove,
        regexes,
    ) {
        Ok(pl) => pl,
        Err(e) => {
            return Err(e);
        },
    };
    let invocations = create_filtered_merged_object(merged_path, objects, &filter_path, ldflags);
    Ok((filter_path, filter_syms, invocations))
}

} // verus!
