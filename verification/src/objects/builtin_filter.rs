//! The builtin ELF symbol rewriter.
//!
//! Binary rewriting of the merged ELF object is done by the `objpoke`
//! crate: demoting non-kept global symbols to local binding, and clearing
//! the COMDAT flag of section groups whose signature symbol was localized.
//! Every image handed to `objpoke` must first pass the verified structural
//! screen of [`crate::objects::elf_check`], which establishes the bounds
//! the in-place patcher relies on. The group demotion is a pure function
//! of the image and the pattern sources, named by [`elf_demoted`]; the
//! symbol localization is not (its symbol-table reordering walks hash
//! maps whose iteration order varies between processes), so nothing is
//! claimed of its result beyond what the verified follow-up steps check.

use vstd::prelude::*;

use crate::merge_error::MergeError;
use crate::objects::elf_check::{check_elf_rewrite_safe, elf_rewrite_safe};
use crate::objects::merge::{create_merged_object, ToolInvocation, ToolKind};
use crate::objects::syms::names_of;
use crate::policy::{pat_views, ArmergeKeepOrRemove, Pattern};

verus! {

/// What `objpoke::elf::demote_comdat_groups` makes of an ELF image under
/// the given keep patterns: the image with COMDAT flags cleared on groups
/// whose signature symbol is not kept, or `None` when the rewrite fails.
pub uninterp spec fn elf_demoted(data: Seq<u8>, pats: Seq<Seq<char>>) -> Option<Seq<u8>>;

/// Whether `objpoke::elf::localize_elf_symbols` succeeds on this image
/// under these keep patterns. The success or failure of the rewrite is
/// decided by the section headers and string tables alone, so it is a
/// function of the image and the pattern sources even though the
/// rewritten bytes are not.
pub uninterp spec fn localize_outcome_ok(data: Seq<u8>, pats: Seq<Seq<char>>) -> bool;

/// Relies on `objpoke::elf::localize_elf_symbols`. The rewritten bytes
/// themselves get no name: the rewrite walks hash maps whose iteration
/// order differs between processes, so two runs on the same image may
/// place the reordered symbols differently. Its outcome, however, is
/// deterministic — every failure path (an unsupported `GNU_VERSYM`
/// section, a bad extended-index or string-table link, a malformed string
/// table) reads only section headers and string tables, which the rewrite
/// never alters. The rewrite is in place: the length is preserved, and
/// everything the structural screen reads (the file header; the section
/// headers, which only see hash sections demoted to null type and
/// symbol-table `sh_info` counts updated; group section contents) comes
/// out still screened. The precondition is the screen under which the
/// patcher's slicing and writes stay in bounds, so the call returns
/// instead of faulting.
#[verifier::external_body]
pub fn localize_elf_symbols(data: Vec<u8>, keep_regexes: &Vec<Pattern>) -> (r: Result<
    Vec<u8>,
    String,
>)
    requires
        elf_rewrite_safe(data@),
    ensures
        r is Ok <==> localize_outcome_ok(data@, pat_views(keep_regexes@)),
        r matches Ok(v) ==> elf_rewrite_safe(v@) && v@.len() == data@.len(),
{
    let regexes: Vec<regex::Regex> = keep_regexes.iter().map(|p| p.as_regex().clone()).collect();
    objpoke::elf::localize_elf_symbols(data, &regexes).map_err(|e| format!("{}", e))
}

/// Relies on `objpoke::elf::demote_comdat_groups`: under the structural
/// screen its reads stay in bounds, so the call returns instead of
/// faulting, and the result is a function of the ELF image and the
/// keep-pattern sources alone.
#[verifier::external_body]
pub fn demote_comdat_groups(data: Vec<u8>, keep_regexes: &Vec<Pattern>) -> (r: Result<
    Vec<u8>,
    String,
>)
    requires
        elf_rewrite_safe(data@),
    ensures
        r matches Ok(v) ==> elf_demoted(data@, pat_views(keep_regexes@)) == Some(v@),
        r is Err ==> elf_demoted(data@, pat_views(keep_regexes@)) is None,
{
    let regexes: Vec<regex::Regex> = keep_regexes.iter().map(|p| p.as_regex().clone()).collect();
    objpoke::elf::demote_comdat_groups(data, &regexes).map_err(|e| format!("{}", e))
}

/// Plan the relocatable link of the builtin ELF path: the merge itself
/// still needs a real linker, while the symbol filtering is applied to the
/// merged bytes by [`filter_merged_elf`]. The builtin rewriter supports
/// only the keep-symbols mode; a remove-symbols request fails cleanly.
pub fn merge_required_objects(
    merged_path: &String,
    objects: &Vec<String>,
    keep_or_remove: ArmergeKeepOrRemove,
    ldflags: &Vec<String>,
) -> (r: Result<ToolInvocation, MergeError>)
    ensures
        keep_or_remove == ArmergeKeepOrRemove::KeepSymbols <==> r is Ok,
        r matches Ok(inv) ==> inv.tool == ToolKind::Linker && names_of(inv.args@)
            == crate::objects::merge::linker_args_spec(
            merged_path@,
            Seq::empty(),
            names_of(ldflags@),
            names_of(objects@),
        ),
        r matches Err(e) ==> e matches MergeError::InternalError(_),
{
    if keep_or_remove == ArmergeKeepOrRemove::RemoveSymbols {
        return Err(
            MergeError::InternalError(
                "the builtin symbol rewriter does not support removing symbols".to_owned(),
            ),
        );
    }
    let extra: Vec<String> = Vec::new();
    proof {
        assert(names_of(extra@) =~= Seq::<Seq<char>>::empty());
    }
    Ok(create_merged_object(merged_path, &extra, ldflags, objects))
}

/// Localize the non-kept globals of the merged ELF image, then clear the
/// COMDAT flag of any section group whose signature symbol was localized,
/// so that a downstream linker cannot fold the localized code away. The
/// image is screened before the rewrite; a malformed image is rejected
/// with an error. Success is owed exactly when the image passes the
/// screen, the symbol rewrite succeeds on it, and the group demotion
/// succeeds on the rewritten bytes.
pub fn filter_merged_elf(data: Vec<u8>, keep_regexes: &Vec<Pattern>) -> (r: Result<
    Vec<u8>,
    MergeError,
>)
    ensures
        ({
            let pats = pat_views(keep_regexes@);
            match r {
                Ok(v) => elf_rewrite_safe(data@) && localize_outcome_ok(data@, pats) && exists|
                    loc: Seq<u8>,
                |
                    elf_rewrite_safe(loc) && elf_demoted(loc, pats) == Some(v@),
                Err(e) => (e matches MergeError::InternalError(_)) && (!(elf_rewrite_safe(data@)
                    && localize_outcome_ok(data@, pats)) || exists|loc: Seq<u8>|
                    elf_rewrite_safe(loc) && elf_demoted(loc, pats) is None),
            }
        }),
{
    if !check_elf_rewrite_safe(&data) {
        return Err(
            MergeError::InternalError(
                "merged object failed the structural checks of the symbol rewriter".to_owned(),
            ),
        );
    }
    let localized = match localize_elf_symbols(data, keep_regexes) {
        Ok(v) => v,
        Err(m) => {
            return Err(MergeError::InternalError(m));
        },
    };
    let ghost loc = localized@;
    match demote_comdat_groups(localized, keep_regexes) {
        Ok(v) => {
            proof {
                assert(elf_rewrite_safe(loc) && elf_demoted(loc, pat_views(keep_regexes@))
                    == Some(v@));
            }
            Ok(v)
        },
        Err(m) => {
            proof {
                assert(elf_rewrite_safe(loc) && elf_demoted(loc, pat_views(keep_regexes@)) is None);
            }
            Err(MergeError::InternalError(m))
        },
    }
}

} // verus!
