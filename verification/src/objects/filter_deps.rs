//! Reachability-based pruning of the extracted objects.
//!
//! An object is retained exactly when some object marked as holding kept
//! exports reaches it along dependency edges. The specification is phrased
//! over the symbol tables of the object bytes, so the contract of
//! [`filter_required_objects`] pins the retained set from the input bytes
//! and the policy alone.

use vstd::prelude::*;

use crate::merge_error::MergeError;
use crate::objects::syms::{
    deps_ok, facts_match, has_dep, lemma_contains_name_is_names_of_contains,
    lemma_defined_names_membership, lemma_referenced_names_membership, seq_defines,
    seq_references, some_sym_exported, sym_table_of, ObjectSyms, SymData,
};
use crate::policy::{pat_views, ArmergeKeepOrRemove, Pattern};

verus! {

/// The symbol tables parsed from each object's bytes (meaningful only when
/// every table parses).
pub open spec fn tables_of(datas: Seq<Seq<u8>>) -> Seq<Seq<SymData>> {
    Seq::new(datas.len(), |k: int| sym_table_of(datas[k]).unwrap())
}

pub open spec fn datas_view(datas: Seq<Vec<u8>>) -> Seq<Seq<u8>> {
    datas.map_values(|d: Vec<u8>| d@)
}

/// Table `a` references a name that table `b` defines.
pub open spec fn table_has_dep(a: Seq<SymData>, b: Seq<SymData>) -> bool {
    exists|n: Seq<char>| seq_references(a, n) && seq_defines(b, n)
}

/// Dependency edge from object `a` to object `b`.
pub open spec fn table_edge(tables: Seq<Seq<SymData>>, a: int, b: int) -> bool {
    &&& 0 <= a < tables.len()
    &&& 0 <= b < tables.len()
    &&& a != b
    &&& table_has_dep(tables[a], tables[b])
}

/// A non-empty path along dependency edges.
pub open spec fn table_path(tables: Seq<Seq<SymData>>, p: Seq<int>) -> bool {
    &&& p.len() >= 1
    &&& forall|k: int| 0 <= k < p.len() ==> 0 <= #[trigger] p[k] < tables.len()
    &&& forall|k: int| 0 <= k < p.len() - 1 ==> table_edge(tables, p[k], #[trigger] p[k + 1])
}

/// Object `t` is retained: an object whose table counts as exported under
/// the policy reaches `t` (a root reaches itself by a one-element path).
pub open spec fn table_retained(
    tables: Seq<Seq<SymData>>,
    keep_or_remove: ArmergeKeepOrRemove,
    pats: Seq<Seq<char>>,
    t: int,
) -> bool {
    exists|p: Seq<int>|
        table_path(tables, p) && some_sym_exported(tables[p[0]], keep_or_remove, pats)
            && p.last() == t
}

/// An object whose table counts as exported is retained.
pub proof fn lemma_root_retained(
    tables: Seq<Seq<SymData>>,
    keep_or_remove: ArmergeKeepOrRemove,
    pats: Seq<Seq<char>>,
    i: int,
)
    requires
        0 <= i < tables.len(),
        some_sym_exported(tables[i], keep_or_remove, pats),
    ensures
        table_retained(tables, keep_or_remove, pats, i),
{
    let p: Seq<int> = seq![i];
    assert(p.last() == i);
    assert(table_path(tables, p));
}

/// Retention propagates along dependency edges.
pub proof fn lemma_retained_step(
    tables: Seq<Seq<SymData>>,
    keep_or_remove: ArmergeKeepOrRemove,
    pats: Seq<Seq<char>>,
    a: int,
    d: int,
)
    requires
        table_retained(tables, keep_or_remove, pats, a),
        table_edge(tables, a, d),
    ensures
        table_retained(tables, keep_or_remove, pats, d),
{
    let p = choose|p: Seq<int>|
        table_path(tables, p) && some_sym_exported(tables[p[0]], keep_or_remove, pats)
            && p.last() == a;
    let q = p.push(d);
    assert(q[0] == p[0]);
    assert(q.last() == d);
    assert forall|k: int| 0 <= k < q.len() - 1 implies table_edge(tables, q[k], #[trigger] q[k
        + 1]) by {
        if k < p.len() - 1 {
            assert(q[k] == p[k] && q[k + 1] == p[k + 1]);
        } else {
            assert(q[k] == p.last() && q[k + 1] == d);
        }
    }
    assert(table_path(tables, q));
}

/// Retention completeness: a retained object either holds a kept export
/// itself, or a chain of at least one dependency edge leads from an
/// object with kept exports to it.
pub proof fn lemma_retention_completeness(
    tables: Seq<Seq<SymData>>,
    keep_or_remove: ArmergeKeepOrRemove,
    pats: Seq<Seq<char>>,
    t: int,
)
    requires
        0 <= t < tables.len(),
        table_retained(tables, keep_or_remove, pats, t),
    ensures
        some_sym_exported(tables[t], keep_or_remove, pats) || exists|p: Seq<int>|
            table_path(tables, p) && p.len() >= 2 && some_sym_exported(
                tables[p[0]],
                keep_or_remove,
                pats,
            ) && p.last() == t,
{
    let p = choose|p: Seq<int>|
        table_path(tables, p) && some_sym_exported(tables[p[0]], keep_or_remove, pats)
            && p.last() == t;
    if p.len() == 1 {
        assert(p[0] == p.last());
        assert(some_sym_exported(tables[t], keep_or_remove, pats));
    }
}

/// `has_dep` over the computed facts coincides with `table_has_dep` over
/// the symbol tables they were computed from.
pub proof fn lemma_has_dep_iff_table(
    a: ObjectSyms,
    at: Seq<SymData>,
    b: ObjectSyms,
    bt: Seq<SymData>,
    keep_or_remove: ArmergeKeepOrRemove,
    pats: Seq<Seq<char>>,
)
    requires
        facts_match(a, at, keep_or_remove, pats),
        facts_match(b, bt, keep_or_remove, pats),
    ensures
        has_dep(&a, &b) <==> table_has_dep(at, bt),
{
    if has_dep(&a, &b) {
        let k = choose|k: int|
            0 <= k < a.undefineds@.len() && crate::objects::syms::contains_name(
                b.globals@,
                a.undefineds@[k]@,
            );
        let n = a.undefineds@[k]@;
        assert(crate::objects::syms::contains_name(a.undefineds@, n));
        lemma_contains_name_is_names_of_contains(a.undefineds@, n);
        lemma_referenced_names_membership(at, n);
        lemma_contains_name_is_names_of_contains(b.globals@, n);
        lemma_defined_names_membership(bt, n);
        assert(seq_references(at, n) && seq_defines(bt, n));
    }
    if table_has_dep(at, bt) {
        let n = choose|n: Seq<char>| seq_references(at, n) && seq_defines(bt, n);
        lemma_referenced_names_membership(at, n);
        lemma_contains_name_is_names_of_contains(a.undefineds@, n);
        lemma_defined_names_membership(bt, n);
        lemma_contains_name_is_names_of_contains(b.globals@, n);
        assert(crate::objects::syms::contains_name(a.undefineds@, n));
        let k = choose|k: int| 0 <= k < a.undefineds@.len() && a.undefineds@[k]@ == n;
        assert(crate::objects::syms::contains_name(b.globals@, a.undefineds@[k]@));
    }
}

/// Number of `false` entries in a visited map.
pub open spec fn count_false(s: Seq<bool>) -> nat
    decreases s.len(),
{
    if s.len() == 0 {
        0
    } else {
        count_false(s.drop_last()) + if s.last() {
            0nat
        } else {
            1nat
        }
    }
}

proof fn lemma_count_false_update(s: Seq<bool>, i: int)
    requires
        0 <= i < s.len(),
        !s[i],
    ensures
        count_false(s.update(i, true)) + 1 == count_false(s),
    decreases s.len(),
{
    let t = s.update(i, true);
    if i == s.len() - 1 {
        assert(t.drop_last() =~= s.drop_last());
        assert(t.last());
    } else {
        assert(t.drop_last() =~= s.drop_last().update(i, true));
        assert(t.last() == s.last());
        lemma_count_false_update(s.drop_last(), i);
    }
}

/// Once the visited map contains every root and is closed under dependency
/// edges, it contains every retained object.
proof fn lemma_closure_complete(
    tables: Seq<Seq<SymData>>,
    keep_or_remove: ArmergeKeepOrRemove,
    pats: Seq<Seq<char>>,
    objs: Seq<ObjectSyms>,
    visited: Seq<bool>,
    p: Seq<int>,
)
    requires
        objs.len() == tables.len(),
        visited.len() == tables.len(),
        objs.len() <= usize::MAX,
        forall|i: int|
            0 <= i < objs.len() ==> facts_match(#[trigger] objs[i], tables[i], keep_or_remove, pats),
        forall|i: int| 0 <= i < objs.len() ==> deps_ok(objs, i, #[trigger] objs[i].deps@),
        forall|i: int|
            0 <= i < tables.len() && some_sym_exported(tables[i], keep_or_remove, pats)
                ==> visited[i],
        forall|a: int, k: int|
            0 <= a < objs.len() && visited[a] && 0 <= k < objs[a].deps@.len() ==> visited[
                #[trigger] objs[a].deps@[k] as int
            ],
        table_path(tables, p),
        some_sym_exported(tables[p[0]], keep_or_remove, pats),
    ensures
        visited[p.last()],
    decreases p.len(),
{
    if p.len() == 1 {
        assert(visited[p[0]]);
    } else {
        let q = p.drop_last();
        assert(q[0] == p[0]);
        assert(table_path(tables, q)) by {
            assert forall|k: int| 0 <= k < q.len() - 1 implies table_edge(
                tables,
                q[k],
                #[trigger] q[k + 1],
            ) by {
                assert(q[k] == p[k] && q[k + 1] == p[k + 1]);
            }
        }
        lemma_closure_complete(tables, keep_or_remove, pats, objs, visited, q);
        let kk = p.len() - 2;
        let a = p[kk];
        let d = p.last();
        assert(visited[a]);
        assert(table_edge(tables, p[kk], p[kk + 1]));
        assert(p[kk + 1] == d);
        assert(table_edge(tables, a, d));
        lemma_has_dep_iff_table(objs[a], tables[a], objs[d], tables[d], keep_or_remove, pats);
        assert(has_dep(&objs[a], &objs[d]));
        assert(deps_ok(objs, a, objs[a].deps@));
        assert(objs[a].deps@.contains(d as usize));
        let k = choose|k: int| 0 <= k < objs[a].deps@.len() && objs[a].deps@[k] == d as usize;
        assert(visited[objs[a].deps@[k] as int]);
    }
}

/// Indices strictly increase along the sequence.
pub open spec fn strictly_increasing(s: Seq<usize>) -> bool {
    forall|a: int, b: int| 0 <= a < b < s.len() ==> s[a] < s[b]
}

/// Index the symbol facts of every object, compute the dependency graph,
/// and keep exactly the objects reachable from one with kept exports.
///
/// Returns the retained indices in ascending order. Fails with
/// `InvalidObject` when some object's bytes cannot be parsed; the error
/// names the first such object.
pub fn filter_required_objects(
    paths: &Vec<String>,
    datas: &Vec<Vec<u8>>,
    keep_or_remove: ArmergeKeepOrRemove,
    regexes: &Vec<Pattern>,
) -> (r: Result<Vec<usize>, MergeError>)
    requires
        paths@.len() == datas@.len(),
    ensures
        match r {
            Ok(kept) => {
                &&& forall|k: int|
                    0 <= k < datas@.len() ==> sym_table_of(#[trigger] datas@[k]@) is Some
                &&& strictly_increasing(kept@)
                &&& forall|k: int| 0 <= k < kept@.len() ==> (#[trigger] kept@[k] as int) < datas@.len()
                &&& forall|t: usize|
                    (t as int) < datas@.len() ==> (#[trigger] kept@.contains(t)
                        <==> table_retained(
                        tables_of(datas_view(datas@)),
                        keep_or_remove,
                        pat_views(regexes@),
                        t as int,
                    ))
            },
            Err(e) => exists|k: int|
                0 <= k < datas@.len() && sym_table_of(#[trigger] datas@[k]@) is None && (
                e matches MergeError::InvalidObject { path, .. } && path@ == paths@[k]@)
                && forall|j: int| 0 <= j < k ==> sym_table_of(#[trigger] datas@[j]@) is Some,
        },
{
    let ghost pats = pat_views(regexes@);
    let ghost tables = tables_of(datas_view(datas@));
    let n = datas.len();

    let mut object_syms: Vec<ObjectSyms> = Vec::new();
    for i in 0..n
        invariant
            n == datas@.len(),
            paths@.len() == datas@.len(),
            pats == pat_views(regexes@),
            tables == tables_of(datas_view(datas@)),
            object_syms@.len() == i,
            forall|k: int| 0 <= k < i ==> sym_table_of(#[trigger] datas@[k]@) is Some,
            forall|k: int|
                0 <= k < i ==> facts_match(
                    #[trigger] object_syms@[k],
                    tables[k],
                    keep_or_remove,
                    pats,
                ),
    {
        match ObjectSyms::new(paths[i].as_str(), datas[i].as_slice(), keep_or_remove, regexes) {
            Ok(o) => {
                proof {
                    assert(tables[i as int] == sym_table_of(datas@[i as int]@).unwrap());
                }
                object_syms.push(o);
            },
            Err(e) => {
                return Err(e);
            },
        }
    }

    ObjectSyms::check_dependencies(&mut object_syms);
    let ghost objs = object_syms@;
    proof {
        assert forall|i: int| 0 <= i < objs.len() implies deps_ok(
            objs,
            i,
            #[trigger] objs[i].deps@,
        ) by {
            assert(deps_ok(objs, i, objs[i].deps@));
        }
    }

    let mut visited: Vec<bool> = vec![false; n];
    let mut stack: Vec<usize> = Vec::new();

    for i in 0..n
        invariant
            n == datas@.len(),
            objs == object_syms@,
            objs.len() == n,
            visited@.len() == n,
            tables.len() == n,
            pats == pat_views(regexes@),
            forall|k: int|
                0 <= k < objs.len() ==> facts_match(
                    #[trigger] objs[k],
                    tables[k],
                    keep_or_remove,
                    pats,
                ),
            forall|a: int|
                0 <= a < n && #[trigger] visited@[a] ==> table_retained(
                    tables,
                    keep_or_remove,
                    pats,
                    a,
                ),
            forall|a: int| 0 <= a < i && objs[a].has_exported_symbols ==> #[trigger] visited@[a],
            forall|k: int|
                0 <= k < stack@.len() ==> (#[trigger] stack@[k] as int) < n && visited@[stack@[k] as int],
            forall|a: int|
                0 <= a < n && #[trigger] visited@[a] ==> stack@.contains(a as usize),
    {
        if object_syms[i].has_exported_symbols {
            if !visited[i] {
                let ghost vi0 = visited@;
                let ghost sv0 = stack@;
                visited[i] = true;
                stack.push(i);
                proof {
                    assert(visited@ == vi0.update(i as int, true));
                    assert(stack@ == sv0.push(i as usize));
                    assert(objs[i as int].has_exported_symbols);
                    assert(facts_match(objs[i as int], tables[i as int], keep_or_remove, pats));
                    assert(some_sym_exported(tables[i as int], keep_or_remove, pats));
                    lemma_root_retained(tables, keep_or_remove, pats, i as int);
                    assert(stack@[stack@.len() - 1] == i as usize);
                    assert forall|a: int| 0 <= a < n && #[trigger] visited@[a] implies stack@.contains(
                        a as usize,
                    ) by {
                        if a != i as int {
                            assert(vi0[a]);
                            assert(sv0.contains(a as usize));
                            let k = choose|k: int| 0 <= k < sv0.len() && sv0[k] == a as usize;
                            assert(stack@[k] == a as usize);
                        }
                    }
                    assert forall|k: int|
                        0 <= k < stack@.len() implies (#[trigger] stack@[k] as int) < n
                        && visited@[stack@[k] as int] by {
                        if k < sv0.len() {
                            assert(stack@[k] == sv0[k]);
                            assert(vi0[sv0[k] as int]);
                        }
                    }
                }
            }
        }
    }

    proof {
        assert forall|a: int|
            0 <= a < n && objs[a].has_exported_symbols implies #[trigger] visited@[a] by {}
    }

    while stack.len() > 0
        invariant
            n == datas@.len(),
            objs == object_syms@,
            objs.len() == n,
            visited@.len() == n,
            tables.len() == n,
            pats == pat_views(regexes@),
            forall|k: int|
                0 <= k < objs.len() ==> facts_match(
                    #[trigger] objs[k],
                    tables[k],
                    keep_or_remove,
                    pats,
                ),
            forall|i: int| 0 <= i < objs.len() ==> deps_ok(objs, i, #[trigger] objs[i].deps@),
            forall|a: int|
                0 <= a < n && #[trigger] visited@[a] ==> table_retained(
                    tables,
                    keep_or_remove,
                    pats,
                    a,
                ),
            forall|a: int| 0 <= a < n && objs[a].has_exported_symbols ==> #[trigger] visited@[a],
            forall|k: int|
                0 <= k < stack@.len() ==> (#[trigger] stack@[k] as int) < n && visited@[stack@[k] as int],
            forall|a: int, k: int|
                0 <= a < n && #[trigger] visited@[a] && !stack@.contains(a as usize) && 0 <= k
                    < objs[a].deps@.len() ==> visited@[#[trigger] objs[a].deps@[k] as int],
        decreases count_false(visited@), stack@.len(),
    {
        let ghost c0 = count_false(visited@);
        let ghost l0 = stack@.len();
        let ghost stack_pre = stack@;
        let x = match stack.pop() {
            Some(x) => x,
            None => {
                proof {
                    assert(false);
                }
                0
            },
        };
        proof {
            assert(stack@ == stack_pre.drop_last());
            assert(stack_pre.last() == x);
            assert(stack_pre[stack_pre.len() - 1] == x);
            assert forall|a: int, k: int|
                0 <= a < n && #[trigger] visited@[a] && a != x as int && !stack@.contains(
                    a as usize,
                ) && 0 <= k < objs[a].deps@.len() implies visited@[
                #[trigger] objs[a].deps@[k] as int
            ] by {
                if stack_pre.contains(a as usize) {
                    let kk = choose|kk: int|
                        0 <= kk < stack_pre.len() && stack_pre[kk] == a as usize;
                    assert(kk < stack_pre.len() - 1);
                    assert(stack@[kk] == a as usize);
                    assert(false);
                }
            }
        }
        let num_deps = object_syms[x].deps.len();
        for di in 0..num_deps
            invariant
                n == datas@.len(),
                objs == object_syms@,
                objs.len() == n,
                visited@.len() == n,
                tables.len() == n,
                pats == pat_views(regexes@),
                (x as int) < n,
                num_deps == objs[x as int].deps@.len(),
                forall|k: int|
                    0 <= k < objs.len() ==> facts_match(
                        #[trigger] objs[k],
                        tables[k],
                        keep_or_remove,
                        pats,
                    ),
                forall|i: int| 0 <= i < objs.len() ==> deps_ok(objs, i, #[trigger] objs[i].deps@),
                forall|a: int|
                    0 <= a < n && #[trigger] visited@[a] ==> table_retained(
                        tables,
                        keep_or_remove,
                        pats,
                        a,
                    ),
                forall|a: int|
                    0 <= a < n && objs[a].has_exported_symbols ==> #[trigger] visited@[a],
                forall|k: int|
                    0 <= k < stack@.len() ==> (#[trigger] stack@[k] as int) < n && visited@[stack@[k] as int],
                visited@[x as int],
                forall|a: int, k: int|
                    0 <= a < n && #[trigger] visited@[a] && a != x as int && !stack@.contains(
                        a as usize,
                    ) && 0 <= k < objs[a].deps@.len() ==> visited@[
                        #[trigger] objs[a].deps@[k] as int
                    ],
                forall|k: int|
                    0 <= k < di ==> visited@[#[trigger] objs[x as int].deps@[k] as int],
                count_false(visited@) <= c0,
                count_false(visited@) == c0 ==> stack@.len() == l0 - 1,
        {
            let d = object_syms[x].deps[di];
            proof {
                assert(deps_ok(objs, x as int, objs[x as int].deps@));
                assert(objs[x as int].deps@[di as int] == d);
                assert((d as int) < n);
            }
            if !visited[d] {
                let ghost vi0 = visited@;
                let ghost sv0 = stack@;
                proof {
                    lemma_count_false_update(visited@, d as int);
                    assert(objs[x as int].deps@.contains(d));
                    assert(has_dep(&objs[x as int], &objs[d as int]));
                    lemma_has_dep_iff_table(
                        objs[x as int],
                        tables[x as int],
                        objs[d as int],
                        tables[d as int],
                        keep_or_remove,
                        pats,
                    );
                    assert(table_edge(tables, x as int, d as int));
                    lemma_retained_step(tables, keep_or_remove, pats, x as int, d as int);
                }
                visited[d] = true;
                stack.push(d);
                proof {
                    assert(visited@ == vi0.update(d as int, true));
                    assert(stack@ == sv0.push(d));
                    assert(stack@[stack@.len() - 1] == d);
                    assert(stack@.contains(d));
                    assert(count_false(visited@) + 1 == count_false(vi0));
                    assert forall|k: int|
                        0 <= k < stack@.len() implies (#[trigger] stack@[k] as int) < n
                        && visited@[stack@[k] as int] by {
                        if k < stack@.len() - 1 {
                            assert(stack@[k] == sv0[k]);
                            assert(vi0[sv0[k] as int]);
                        }
                    }
                    assert forall|a: int, k: int|
                        0 <= a < n && #[trigger] visited@[a] && a != x as int && !stack@.contains(
                            a as usize,
                        ) && 0 <= k < objs[a].deps@.len() implies visited@[
                        #[trigger] objs[a].deps@[k] as int
                    ] by {
                        if a == d as int {
                            assert(stack@.contains(d));
                            assert(false);
                        } else {
                            assert(vi0[a]);
                            if sv0.contains(a as usize) {
                                let kk = choose|kk: int|
                                    0 <= kk < sv0.len() && sv0[kk] == a as usize;
                                assert(stack@[kk] == a as usize);
                                assert(false);
                            }
                            assert(vi0[objs[a].deps@[k] as int]);
                        }
                    }
                    assert forall|k: int|
                        0 <= k < di + 1 implies visited@[
                        #[trigger] objs[x as int].deps@[k] as int
                    ] by {
                        if k < di {
                            assert(vi0[objs[x as int].deps@[k] as int]);
                        } else {
                            assert(objs[x as int].deps@[k] == d);
                        }
                    }
                }
            } else {
                proof {
                    assert forall|k: int|
                        0 <= k < di + 1 implies visited@[
                        #[trigger] objs[x as int].deps@[k] as int
                    ] by {
                        if k == di {
                            assert(objs[x as int].deps@[k] == d);
                        }
                    }
                }
            }
        }
        proof {
            assert forall|a: int, k: int|
                0 <= a < n && #[trigger] visited@[a] && !stack@.contains(a as usize) && 0 <= k
                    < objs[a].deps@.len() implies visited@[#[trigger] objs[a].deps@[k] as int] by {
                if a == x as int {
                    assert(visited@[objs[x as int].deps@[k] as int]);
                }
            }
        }
    }

    proof {
        assert forall|a: int|
            0 <= a < n && table_retained(tables, keep_or_remove, pats, a) implies #[trigger] visited@[a] by {
            let p = choose|p: Seq<int>|
                table_path(tables, p) && some_sym_exported(tables[p[0]], keep_or_remove, pats)
                    && p.last() == a;
            assert forall|i: int|
                0 <= i < tables.len() && some_sym_exported(
                    tables[i],
                    keep_or_remove,
                    pats,
                ) implies visited@[i] by {
                assert(facts_match(objs[i], tables[i], keep_or_remove, pats));
                assert(objs[i].has_exported_symbols);
            }
            lemma_closure_complete(tables, keep_or_remove, pats, objs, visited@, p);
        }
    }

    let mut kept: Vec<usize> = Vec::new();
    for i in 0..n
        invariant
            n == datas@.len(),
            visited@.len() == n,
            tables.len() == n,
            pats == pat_views(regexes@),
            strictly_increasing(kept@),
            forall|k: int| 0 <= k < kept@.len() ==> (#[trigger] kept@[k] as int) < i,
            forall|a: int|
                0 <= a < n && #[trigger] visited@[a] ==> table_retained(
                    tables,
                    keep_or_remove,
                    pats,
                    a,
                ),
            forall|a: int|
                0 <= a < n && table_retained(tables, keep_or_remove, pats, a) ==> #[trigger] visited@[a],
            forall|t: usize|
                (t as int) < i ==> (#[trigger] kept@.contains(t) <==> visited@[t as int]),
    {
        let ghost kept0 = kept@;
        if visited[i] {
            kept.push(i);
        }
        proof {
            assert forall|t: usize| (t as int) < i + 1 implies (#[trigger] kept@.contains(t)
                <==> visited@[t as int]) by {
                if visited@[i as int] {
                    assert(kept@[kept@.len() - 1] == i as usize);
                    if (t as int) < i {
                        if kept0.contains(t) {
                            let k = choose|k: int| 0 <= k < kept0.len() && kept0[k] == t;
                            assert(kept@[k] == t);
                        }
                        if kept@.contains(t) {
                            let k = choose|k: int| 0 <= k < kept@.len() && kept@[k] == t;
                            assert(kept0.contains(t));
                        }
                    } else {
                        assert(kept@.contains(t));
                    }
                } else {
                    if (t as int) == i && kept@.contains(t) {
                        let k = choose|k: int| 0 <= k < kept@.len() && kept@[k] == t;
                        assert(false);
                    }
                }
            }
        }
    }
    proof {
        // every retained object was visited: the loop above established
        // closedness and root coverage, so completeness applies
        assert forall|t: usize|
            (t as int) < datas@.len() implies (#[trigger] kept@.contains(t) <==> table_retained(
            tables,
            keep_or_remove,
            pats,
            t as int,
        )) by {}
    }
    Ok(kept)
}

} // verus!
