//! Planning of external tool invocations.
//!
//! The merge engine never spawns processes itself: it computes exactly
//! which tool must run with which arguments, and the thin runner around the
//! library executes the plan. The contracts pin every argument list.

use vstd::prelude::*;

use crate::objects::syms::names_of;

verus! {

/// Which external tool an invocation addresses. The concrete program path
/// (the `LD`, `OBJCOPY` and `RANLIB` environment variables, `libtool` on
/// the Mach-O packaging path) is resolved by the runner.
#[derive(Copy, Clone, Debug, PartialEq, Eq, Structural)]
pub enum ToolKind {
    /// The relocatable linker.
    Linker,
    /// The symbol-editing tool.
    Objcopy,
    /// The archive indexer.
    Ranlib,
    /// The Mach-O static library packer.
    Libtool,
}

/// One external tool invocation: the tool and its full argument list, in
/// order.
pub struct ToolInvocation {
    pub tool: ToolKind,
    pub args: Vec<String>,
}

/// The argument list of a relocatable link: `-r -o <merged>` followed by
/// the caller's extra flags, the environment's extra linker flags, and the
/// input objects in order.
pub open spec fn linker_args_spec(
    merged: Seq<char>,
    extra: Seq<Seq<char>>,
    ldflags: Seq<Seq<char>>,
    objects: Seq<Seq<char>>,
) -> Seq<Seq<char>> {
    seq!["-r"@, "-o"@, merged] + extra + ldflags + objects
}

/// Append clones of all of `src` to `dst`.
pub fn extend_strings(dst: &mut Vec<String>, src: &Vec<String>)
    ensures
        names_of(final(dst)@) == names_of(old(dst)@) + names_of(src@),
{
    let ghost base = dst@;
    for i in 0..src.len()
        invariant
            dst@.len() == base.len() + i,
            names_of(dst@) == names_of(base) + names_of(src@.take(i as int)),
    {
        let ghost pre = dst@;
        let c = src[i].clone();
        proof {
            assert(c@ == src@[i as int]@);
        }
        dst.push(c);
        proof {
            assert(dst@ == pre.push(c));
            let cur = names_of(dst@);
            let rhs = names_of(base) + names_of(src@.take(i + 1));
            assert(src@.take(i + 1).len() == i + 1);
            assert(cur.len() == rhs.len());
            assert forall|k: int| 0 <= k < cur.len() implies cur[k] == rhs[k] by {
                if k < pre.len() {
                    assert(dst@[k] == pre[k]);
                    assert(cur[k] == names_of(pre)[k]);
                    if k >= base.len() {
                        assert(names_of(src@.take(i as int))[k - base.len()] == src@.take(
                            i as int,
                        )[k - base.len()]@);
                        assert(src@.take(i + 1)[k - base.len()] == src@.take(i as int)[k
                            - base.len()]);
                    }
                } else {
                    assert(dst@[k] == c);
                    assert(src@.take(i + 1)[i as int] == src@[i as int]);
                }
            }
            assert(cur =~= rhs);
        }
    }
    proof {
        assert(src@.take(src@.len() as int) =~= src@);
        assert(names_of(final(dst)@) =~~= names_of(old(dst)@) + names_of(src@));
    }
}

/// Plan the relocatable link that combines `objects` into `merged_path`.
pub fn create_merged_object(
    merged_path: &String,
    extra_args: &Vec<String>,
    ldflags: &Vec<String>,
    objects: &Vec<String>,
) -> (r: ToolInvocation)
    ensures
        r.tool == ToolKind::Linker,
        names_of(r.args@) == linker_args_spec(
            merged_path@,
            names_of(extra_args@),
            names_of(ldflags@),
            names_of(objects@),
        ),
{
    let mut args: Vec<String> = Vec::new();
    args.push("-r".to_owned());
    args.push("-o".to_owned());
    args.push(merged_path.clone());
    proof {
        assert(names_of(args@) =~~= seq!["-r"@, "-o"@, merged_path@]);
    }
    extend_strings(&mut args, extra_args);
    extend_strings(&mut args, ldflags);
    extend_strings(&mut args, objects);
    proof {
        assert(names_of(args@) =~~= linker_args_spec(
            merged_path@,
            names_of(extra_args@),
            names_of(ldflags@),
            names_of(objects@),
        ));
    }
    ToolInvocation { tool: ToolKind::Linker, args }
}

} // verus!
