//! Symbol indexing, dependency analysis, and merge planning for the
//! extracted object files.

pub mod builtin_filter;
pub mod elf_check;
pub mod filter_deps;
pub mod merge;
pub mod syms;
pub mod system_filter;

use vstd::prelude::*;

use crate::archives::{has_object_name, ArchiveContents};
use crate::merge_error::MergeError;
use crate::objects::filter_deps::{
    datas_view, filter_required_objects, strictly_increasing, table_retained, tables_of,
};
use crate::objects::merge::{linker_args_spec, ToolInvocation, ToolKind};
use crate::objects::syms::{contains_name, names_of, sym_table_of};
use crate::objects::system_filter::{firstpass_path_spec, wants_before};
use crate::order::{sort_objects_by_order, stable_sorted_by_order};
use crate::policy::{pat_views, regex_compiles, ArmergeKeepOrRemove, Pattern};

verus! {

/// The source of the regex protecting stack-unwinding entry points. It is
/// appended under `KeepSymbols` before reachability is evaluated, so an
/// object whose only exports are unwinder entry points can anchor
/// retention.
pub open spec fn unwind_pattern_spec() -> Seq<char> {
    "^_?_Unwind_.*"@
}

/// The source of the regex protecting language personality routines. It is
/// appended under `KeepSymbols` only after reachability is evaluated:
/// personality routines survive hiding but do not by themselves keep an
/// object alive.
pub open spec fn personality_pattern_spec() -> Seq<char> {
    "_?__g.._personality_.*"@
}

/// The pattern sources in force while reachability is evaluated.
pub open spec fn reach_pats_spec(
    pats0: Seq<Seq<char>>,
    keep_or_remove: ArmergeKeepOrRemove,
) -> Seq<Seq<char>> {
    if keep_or_remove == ArmergeKeepOrRemove::KeepSymbols {
        pats0.push(unwind_pattern_spec())
    } else {
        pats0
    }
}

/// The pattern sources in force while symbols are localized.
pub open spec fn local_pats_spec(
    pats0: Seq<Seq<char>>,
    keep_or_remove: ArmergeKeepOrRemove,
) -> Seq<Seq<char>> {
    if keep_or_remove == ArmergeKeepOrRemove::KeepSymbols {
        pats0.push(unwind_pattern_spec()).push(personality_pattern_spec())
    } else {
        pats0
    }
}

/// The retained indices: ascending, in range, and holding exactly the
/// objects reachable from one with kept exports under the reachability
/// patterns.
pub open spec fn kept_indices_ok(
    kept: Seq<usize>,
    datas: Seq<Vec<u8>>,
    keep_or_remove: ArmergeKeepOrRemove,
    reach_pats: Seq<Seq<char>>,
) -> bool {
    &&& strictly_increasing(kept)
    &&& forall|k: int| 0 <= k < kept.len() ==> (#[trigger] kept[k] as int) < datas.len()
    &&& forall|t: usize|
        (t as int) < datas.len() ==> (#[trigger] kept.contains(t) <==> table_retained(
            tables_of(datas_view(datas)),
            keep_or_remove,
            reach_pats,
            t as int,
        ))
}

/// No orphans: under a valid retained-index list, an object whose symbol
/// table counts as holding kept exports is always kept.
pub proof fn lemma_no_orphans(
    kept: Seq<usize>,
    datas: Seq<Vec<u8>>,
    keep_or_remove: ArmergeKeepOrRemove,
    reach_pats: Seq<Seq<char>>,
    t: usize,
)
    requires
        kept_indices_ok(kept, datas, keep_or_remove, reach_pats),
        (t as int) < datas.len(),
        crate::objects::syms::some_sym_exported(
            tables_of(datas_view(datas))[t as int],
            keep_or_remove,
            reach_pats,
        ),
    ensures
        kept.contains(t),
{
    crate::objects::filter_deps::lemma_root_retained(
        tables_of(datas_view(datas)),
        keep_or_remove,
        reach_pats,
        t as int,
    );
}

/// The elements of `s` selected at the positions in `kept`, in order.
pub open spec fn paths_at(ps: Seq<String>, kept: Seq<usize>) -> Seq<String> {
    kept.map_values(|i: usize| ps[i as int])
}

/// The byte views of `vs` selected at the positions in `kept`, in order.
pub open spec fn views_at(vs: Seq<Seq<u8>>, kept: Seq<usize>) -> Seq<Seq<u8>> {
    kept.map_values(|i: usize| vs[i as int])
}

/// Everything the runner needs to produce the merged, symbol-filtered
/// object: where to write the symbol filter list and what it holds, the
/// external tool invocations in order, and whether the merged bytes must
/// afterwards run through the ELF COMDAT demotion.
pub struct MergePlan {
    /// Path of the single merged object inside the scratch directory.
    pub merged_path: String,
    /// The retained objects, in the order the linker must receive them.
    pub sorted_objects: Vec<String>,
    /// Where the symbol filter list is written.
    pub filter_list_path: String,
    /// The symbol names to localize, one per line, without duplicates.
    pub filter_syms: Vec<String>,
    /// The external tool invocations, in order.
    pub invocations: Vec<ToolInvocation>,
    /// Apply [`crate::objects::system_filter::demote_elf_comdats`] to the
    /// merged bytes after the tools ran.
    pub demote_merged_elf: bool,
    /// The patterns in force for the bytes-level steps, runtime additions
    /// included.
    pub final_patterns: Vec<Pattern>,
}

/// The plan's invocations for one contents type.
pub open spec fn invocations_ok(
    invs: Seq<ToolInvocation>,
    contents_type: ArchiveContents,
    merged_path: Seq<char>,
    filter_list: Seq<char>,
    sorted: Seq<String>,
    ldflags: Seq<String>,
) -> bool {
    if contents_type == ArchiveContents::MachO {
        &&& invs.len() == 2
        &&& invs[0].tool == ToolKind::Linker
        &&& names_of(invs[0].args@) == linker_args_spec(
            firstpass_path_spec(merged_path),
            seq!["-unexported_symbols_list"@, filter_list],
            names_of(ldflags),
            names_of(sorted),
        )
        &&& invs[1].tool == ToolKind::Linker
        &&& names_of(invs[1].args@) == linker_args_spec(
            merged_path,
            Seq::empty(),
            names_of(ldflags),
            seq![firstpass_path_spec(merged_path)],
        )
    } else {
        &&& invs.len() == 2
        &&& invs[0].tool == ToolKind::Linker
        &&& names_of(invs[0].args@) == linker_args_spec(
            merged_path,
            Seq::empty(),
            names_of(ldflags),
            names_of(sorted),
        )
        &&& invs[1].tool == ToolKind::Objcopy
        &&& names_of(invs[1].args@) == seq!["--localize-symbols"@, filter_list, merged_path]
    }
}

/// The retained-index list and sort permutation witnessing a plan: the
/// index list selects exactly the reachable objects, the linker receives
/// them stably sorted by the order file, and the filter list holds — once
/// each — exactly the names the localization patterns condemn across the
/// retained objects.
pub open spec fn merge_plan_witness_ok(
    plan: MergePlan,
    object_paths: Seq<String>,
    object_datas: Seq<Vec<u8>>,
    keep_or_remove: ArmergeKeepOrRemove,
    pats0: Seq<Seq<char>>,
    object_order: Seq<String>,
    kept: Seq<usize>,
    idx: Seq<int>,
) -> bool {
    &&& kept_indices_ok(kept, object_datas, keep_or_remove, reach_pats_spec(pats0, keep_or_remove))
    &&& kept.len() > 0
    &&& stable_sorted_by_order(idx, paths_at(object_paths, kept), object_order, plan.sorted_objects@)
    &&& forall|a: int, b: int|
        0 <= a < b < plan.filter_syms@.len() ==> plan.filter_syms@[a]@ != plan.filter_syms@[b]@
    &&& forall|n: Seq<char>|
        #[trigger] contains_name(plan.filter_syms@, n) <==> wants_before(
            tables_of(views_at(datas_view(object_datas), kept)),
            kept.len() as int,
            n,
            keep_or_remove,
            local_pats_spec(pats0, keep_or_remove),
        )
}

/// The whole hide-path plan is right for the inputs: the merged path and
/// filter list live in the scratch directory, some retained index list
/// selects exactly the reachable objects, the linker receives them stably
/// sorted by the order file, the filter list holds exactly the names the
/// localization patterns condemn across the retained objects, and the
/// invocations fit the contents type.
pub open spec fn merge_plan_ok(
    plan: MergePlan,
    contents_type: ArchiveContents,
    object_dir: Seq<char>,
    object_paths: Seq<String>,
    object_datas: Seq<Vec<u8>>,
    keep_or_remove: ArmergeKeepOrRemove,
    pats0: Seq<Seq<char>>,
    object_order: Seq<String>,
    ldflags: Seq<String>,
) -> bool {
    &&& plan.merged_path@ == object_dir + "/merged.o"@
    &&& plan.filter_list_path@ == object_dir + "/localize.syms"@
    &&& pat_views(plan.final_patterns@) == local_pats_spec(pats0, keep_or_remove)
    &&& plan.demote_merged_elf == (contents_type != ArchiveContents::MachO)
    &&& exists|kept: Seq<usize>, idx: Seq<int>|
        merge_plan_witness_ok(
            plan,
            object_paths,
            object_datas,
            keep_or_remove,
            pats0,
            object_order,
            kept,
            idx,
        )
    &&& invocations_ok(
        plan.invocations@,
        contents_type,
        plan.merged_path@,
        plan.filter_list_path@,
        plan.sorted_objects@,
        ldflags,
    )
}

/// Hiding soundness of a plan under `KeepSymbols`: a considered, global,
/// defined symbol of a retained object whose name is missing from the
/// plan's filter list — and which the symbol-editing tool therefore
/// leaves global — matches one of the caller's keep patterns, the unwind
/// exception, or the personality exception.
pub proof fn lemma_plan_keep_soundness(
    plan: MergePlan,
    object_paths: Seq<String>,
    object_datas: Seq<Vec<u8>>,
    pats0: Seq<Seq<char>>,
    object_order: Seq<String>,
    kept: Seq<usize>,
    idx: Seq<int>,
    k: int,
    j: int,
)
    requires
        merge_plan_witness_ok(
            plan,
            object_paths,
            object_datas,
            ArmergeKeepOrRemove::KeepSymbols,
            pats0,
            object_order,
            kept,
            idx,
        ),
        0 <= k < kept.len(),
        0 <= j < tables_of(views_at(datas_view(object_datas), kept))[k].len(),
        crate::objects::syms::kind_considered(
            tables_of(views_at(datas_view(object_datas), kept))[k][j],
        ),
        tables_of(views_at(datas_view(object_datas), kept))[k][j].global,
        !tables_of(views_at(datas_view(object_datas), kept))[k][j].undefined,
        tables_of(views_at(datas_view(object_datas), kept))[k][j].name is Some,
        !contains_name(
            plan.filter_syms@,
            tables_of(views_at(datas_view(object_datas), kept))[k][j].name.unwrap(),
        ),
    ensures
        ({
            let n = tables_of(views_at(datas_view(object_datas), kept))[k][j].name.unwrap();
            crate::policy::matches_any(pats0, n) || crate::policy::regex_matches(
                unwind_pattern_spec(),
                n,
            ) || crate::policy::regex_matches(personality_pattern_spec(), n)
        }),
{
    let tables = tables_of(views_at(datas_view(object_datas), kept));
    let local = local_pats_spec(pats0, ArmergeKeepOrRemove::KeepSymbols);
    crate::objects::system_filter::lemma_keep_hiding_soundness(
        plan.filter_syms@,
        tables,
        local,
        k,
        j,
    );
    let n = tables[k][j].name.unwrap();
    crate::policy::lemma_matches_any_push(
        pats0.push(unwind_pattern_spec()),
        personality_pattern_spec(),
        n,
    );
    crate::policy::lemma_matches_any_push(pats0, unwind_pattern_spec(), n);
}

/// Hiding soundness of a plan under `RemoveSymbols`: a considered symbol
/// of a retained object whose name is missing from the plan's filter list
/// — and which therefore keeps its binding — is matched by none of the
/// caller's remove patterns.
pub proof fn lemma_plan_remove_soundness(
    plan: MergePlan,
    object_paths: Seq<String>,
    object_datas: Seq<Vec<u8>>,
    pats0: Seq<Seq<char>>,
    object_order: Seq<String>,
    kept: Seq<usize>,
    idx: Seq<int>,
    k: int,
    j: int,
)
    requires
        merge_plan_witness_ok(
            plan,
            object_paths,
            object_datas,
            ArmergeKeepOrRemove::RemoveSymbols,
            pats0,
            object_order,
            kept,
            idx,
        ),
        0 <= k < kept.len(),
        0 <= j < tables_of(views_at(datas_view(object_datas), kept))[k].len(),
        crate::objects::syms::kind_considered(
            tables_of(views_at(datas_view(object_datas), kept))[k][j],
        ),
        tables_of(views_at(datas_view(object_datas), kept))[k][j].name is Some,
        !contains_name(
            plan.filter_syms@,
            tables_of(views_at(datas_view(object_datas), kept))[k][j].name.unwrap(),
        ),
    ensures
        !crate::policy::matches_any(
            pats0,
            tables_of(views_at(datas_view(object_datas), kept))[k][j].name.unwrap(),
        ),
{
    let tables = tables_of(views_at(datas_view(object_datas), kept));
    crate::objects::system_filter::lemma_remove_hiding_soundness(
        plan.filter_syms@,
        tables,
        local_pats_spec(pats0, ArmergeKeepOrRemove::RemoveSymbols),
        k,
        j,
    );
}

/// Plan the filtered merge of the already-sorted retained objects for the
/// given contents type: Mach-O takes the two-pass linker protocol, every
/// other format takes one link plus the symbol-editing tool (the runner
/// demotes ELF COMDAT groups afterwards).
pub fn merge_required_objects(
    contents_type: ArchiveContents,
    obj_dir: &String,
    merged_path: &String,
    objs: &Vec<String>,
    object_paths: &Vec<String>,
    object_datas: &Vec<Vec<u8>>,
    keep_or_remove: ArmergeKeepOrRemove,
    regexes: &Vec<Pattern>,
    ldflags: &Vec<String>,
) -> (r: Result<(String, Vec<String>, Vec<ToolInvocation>), MergeError>)
    requires
        object_paths@.len() == object_datas@.len(),
    ensures
        match r {
            Ok(pl) => {
                &&& pl.0@ == obj_dir@ + "/localize.syms"@
                &&& forall|a: int, b: int| 0 <= a < b < pl.1@.len() ==> pl.1@[a]@ != pl.1@[b]@
                &&& forall|n: Seq<char>|
                    #[trigger] contains_name(pl.1@, n) <==> wants_before(
                        tables_of(datas_view(object_datas@)),
                        object_datas@.len() as int,
                        n,
                        keep_or_remove,
                        pat_views(regexes@),
                    )
                &&& invocations_ok(
                    pl.2@,
                    contents_type,
                    merged_path@,
                    pl.0@,
                    objs@,
                    ldflags@,
                )
            },
            Err(e) => exists|k: int|
                0 <= k < object_datas@.len() && sym_table_of(#[trigger] object_datas@[k]@) is None,
        },
{
    if contents_type == ArchiveContents::MachO {
        system_filter::merge_required_macho_objects(
            obj_dir,
            merged_path,
            objs,
            object_paths,
            object_datas,
            keep_or_remove,
            regexes,
            ldflags,
        )
    } else {
        system_filter::merge_required_objects(
            obj_dir,
            merged_path,
            objs,
            object_paths,
            object_datas,
            keep_or_remove,
            regexes,
            ldflags,
        )
    }
}

/// Package the hide path's result: append the single merged object as the
/// output archive's one new member and close the builder, which plans the
/// index finalization. On a fresh builder the archive therefore holds
/// exactly one member, the merged object.
pub fn package_merged_object(
    output: &mut crate::arbuilder::ArBuilder,
    merged_path: &String,
) -> (r: Option<ToolInvocation>)
    requires
        !crate::arbuilder::builder_closed(*old(output)),
    ensures
        crate::arbuilder::builder_members(*final(output)) == crate::arbuilder::builder_members(
            *old(output),
        ).push(*merged_path),
        crate::arbuilder::builder_closed(*final(output)),
        crate::arbuilder::close_invocation_ok(r, *final(output)),
{
    output.append_obj(merged_path);
    output.close()
}

/// Plan the whole hide-symbols merge.
///
/// Under `KeepSymbols` the unwind pattern is appended before reachability
/// is evaluated and the personality pattern only after it, preserving the
/// split between what anchors retention and what merely survives hiding.
/// The plan is produced exactly when the runtime patterns compile, every
/// object parses, and at least one object is retained; otherwise the
/// matching error comes back.
pub fn merge(
    contents_type: ArchiveContents,
    object_dir: &String,
    object_paths: &Vec<String>,
    object_datas: &Vec<Vec<u8>>,
    keep_or_remove: ArmergeKeepOrRemove,
    regexes: Vec<Pattern>,
    object_order: &Vec<String>,
    ldflags: &Vec<String>,
) -> (r: Result<MergePlan, MergeError>)
    requires
        object_paths@.len() == object_datas@.len(),
        forall|k: int| 0 <= k < object_paths@.len() ==> has_object_name(#[trigger] object_paths@[k]@),
    ensures
        ({
            let pats0 = pat_views(regexes@);
            let compiles_ok = keep_or_remove != ArmergeKeepOrRemove::KeepSymbols || (
            regex_compiles(unwind_pattern_spec()) && regex_compiles(personality_pattern_spec()));
            let parses_ok = forall|k: int|
                0 <= k < object_datas@.len() ==> sym_table_of(#[trigger] object_datas@[k]@) is Some;
            let some_retained = exists|t: usize|
                (t as int) < object_datas@.len() && table_retained(
                    tables_of(datas_view(object_datas@)),
                    keep_or_remove,
                    reach_pats_spec(pats0, keep_or_remove),
                    t as int,
                );
            match r {
                Ok(plan) => merge_plan_ok(
                    plan,
                    contents_type,
                    object_dir@,
                    object_paths@,
                    object_datas@,
                    keep_or_remove,
                    pats0,
                    object_order@,
                    ldflags@,
                ),
                Err(e) => {
                    &&& !(compiles_ok && parses_ok && some_retained)
                    &&& (e matches MergeError::InternalError(_) ==> !compiles_ok)
                    &&& (e matches MergeError::InvalidObject { path, .. } ==> exists|k: int|
                        0 <= k < object_datas@.len() && sym_table_of(
                            #[trigger] object_datas@[k]@,
                        ) is None && path@ == object_paths@[k]@)
                    &&& (e matches MergeError::NoObjectsLeft ==> parses_ok && !some_retained)
                    &&& (e matches MergeError::InternalError(_) || e
                        matches MergeError::InvalidObject { .. } || e
                        matches MergeError::NoObjectsLeft)
                },
            }
        }),
{
    let ghost pats0 = pat_views(regexes@);
    let mut regexes = regexes;
    let mut merged_path = object_dir.clone();
    merged_path.append("/merged.o");

    if keep_or_remove == ArmergeKeepOrRemove::KeepSymbols {
        match Pattern::new("^_?_Unwind_.*") {
            Ok(p) => {
                proof {
                    crate::policy::lemma_pat_views_push(regexes@, p);
                }
                regexes.push(p);
            },
            Err(_) => {
                return Err(
                    MergeError::InternalError(
                        "failed to compile the unwind keep pattern".to_owned(),
                    ),
                );
            },
        }
    }
    proof {
        assert(pat_views(regexes@) == reach_pats_spec(pats0, keep_or_remove));
    }
    let ghost reach_pats = pat_views(regexes@);

    let kept = match filter_required_objects(
        object_paths,
        object_datas,
        keep_or_remove,
        &regexes,
    ) {
        Ok(kept) => kept,
        Err(e) => {
            return Err(e);
        },
    };
    if kept.len() == 0 {
        proof {
            assert forall|t: usize|
                (t as int) < object_datas@.len() implies !table_retained(
                tables_of(datas_view(object_datas@)),
                keep_or_remove,
                reach_pats,
                t as int,
            ) by {
                assert(!kept@.contains(t));
            }
        }
        return Err(MergeError::NoObjectsLeft);
    }

    let mut retained_paths: Vec<String> = Vec::new();
    let mut retained_datas: Vec<Vec<u8>> = Vec::new();
    for k in 0..kept.len()
        invariant
            object_paths@.len() == object_datas@.len(),
            forall|k2: int|
                0 <= k2 < kept@.len() ==> (#[trigger] kept@[k2] as int) < object_datas@.len(),
            forall|k2: int|
                0 <= k2 < object_paths@.len() ==> has_object_name(#[trigger] object_paths@[k2]@),
            retained_paths@.len() == k,
            retained_datas@.len() == k,
            forall|k2: int|
                0 <= k2 < k ==> #[trigger] retained_paths@[k2] == object_paths@[kept@[k2] as int],
            forall|k2: int|
                0 <= k2 < k ==> (#[trigger] retained_datas@[k2])@ == object_datas@[kept@[k2] as int]@,
    {
        let i = kept[k];
        retained_paths.push(object_paths[i].clone());
        let d = object_datas[i].clone();
        proof {
            assert forall|j: int| 0 <= j < object_datas@[i as int]@.len() implies d@[j]
                == object_datas@[i as int]@[j] by {
                assert(vstd::pervasive::cloned::<u8>(object_datas@[i as int]@[j], d@[j]));
            }
            assert(d@ =~= object_datas@[i as int]@);
        }
        retained_datas.push(d);
    }
    proof {
        assert(retained_paths@ =~= paths_at(object_paths@, kept@));
        assert(datas_view(retained_datas@) =~= views_at(datas_view(object_datas@), kept@));
    }

    let sorted_objects = sort_objects_by_order(&retained_paths, object_order);

    if keep_or_remove == ArmergeKeepOrRemove::KeepSymbols {
        match Pattern::new("_?__g.._personality_.*") {
            Ok(p) => {
                proof {
                    crate::policy::lemma_pat_views_push(regexes@, p);
                }
                regexes.push(p);
            },
            Err(_) => {
                return Err(
                    MergeError::InternalError(
                        "failed to compile the personality keep pattern".to_owned(),
                    ),
                );
            },
        }
    }
    proof {
        assert(pat_views(regexes@) == local_pats_spec(pats0, keep_or_remove));
    }

    match merge_required_objects(
        contents_type,
        object_dir,
        &merged_path,
        &sorted_objects,
        &retained_paths,
        &retained_datas,
        keep_or_remove,
        &regexes,
        ldflags,
    ) {
        Ok((filter_list_path, filter_syms, invocations)) => {
            let plan = MergePlan {
                merged_path,
                sorted_objects,
                filter_list_path,
                filter_syms,
                invocations,
                demote_merged_elf: !(contents_type == ArchiveContents::MachO),
                final_patterns: regexes,
            };
            proof {
                assert(tables_of(datas_view(retained_datas@)) =~= tables_of(
                    views_at(datas_view(object_datas@), kept@),
                ));
                let idx = choose|idx: Seq<int>|
                    stable_sorted_by_order(
                        idx,
                        retained_paths@,
                        object_order@,
                        plan.sorted_objects@,
                    );
                assert(kept_indices_ok(kept@, object_datas@, keep_or_remove, reach_pats));
                assert(stable_sorted_by_order(
                    idx,
                    paths_at(object_paths@, kept@),
                    object_order@,
                    plan.sorted_objects@,
                ));
                assert(merge_plan_witness_ok(
                    plan,
                    object_paths@,
                    object_datas@,
                    keep_or_remove,
                    pats0,
                    object_order@,
                    kept@,
                    idx,
                ));
                assert(merge_plan_ok(
                    plan,
                    contents_type,
                    object_dir@,
                    object_paths@,
                    object_datas@,
                    keep_or_remove,
                    pats0,
                    object_order@,
                    ldflags@,
                ));
            }
            Ok(plan)
        },
        Err(e) => {
            proof {
                let k = choose|k: int|
                    0 <= k < retained_datas@.len() && sym_table_of(retained_datas@[k]@) is None;
                assert(retained_datas@[k]@ == object_datas@[kept@[k] as int]@);
                assert(sym_table_of(object_datas@[kept@[k] as int]@) is Some);
                assert(false);
            }
            Err(e)
        },
    }
}

} // verus!
