//! The symbol facts of one extracted object.
//!
//! Parsing of the object file itself is done by the `object` crate behind a
//! trusted wrapper; everything computed from the parsed symbol table — the
//! defined and undefined name sets, the "has kept exports" flag, and the
//! inter-object dependency edges — is verified.

use vstd::prelude::*;
use vstd::seq_lib::*;

use crate::merge_error::MergeError;
use crate::policy::{
    fails_some, matches_any, name_fails_some, name_matches_any, pat_views, ArmergeKeepOrRemove,
    Pattern,
};

use object::{Object, ObjectSymbol};

verus! {

/// The kind of a symbol, as the `object` crate reports it. Only `Text`,
/// `Data` and `Unknown` symbols take part in the analysis (hand-written
/// assembly frequently lacks a kind); everything else is `Other`.
#[derive(Copy, Clone, Debug, PartialEq, Eq, Structural)]
pub enum SymKind {
    Text,
    Data,
    Unknown,
    Other,
}

/// One entry of an object's symbol table, reduced to the facts the merge
/// logic reads.
pub struct SymbolInfo {
    /// The symbol's name; `None` when the name could not be read.
    pub name: Option<String>,
    pub kind: SymKind,
    pub undefined: bool,
    pub global: bool,
    pub weak: bool,
}

/// The mathematical value of one symbol-table entry.
pub struct SymData {
    pub name: Option<Seq<char>>,
    pub kind: SymKind,
    pub undefined: bool,
    pub global: bool,
    pub weak: bool,
}

impl View for SymbolInfo {
    type V = SymData;

    open spec fn view(&self) -> SymData {
        SymData {
            name: match self.name {
                Some(n) => Some(n@),
                None => None,
            },
            kind: self.kind,
            undefined: self.undefined,
            global: self.global,
            weak: self.weak,
        }
    }
}

/// The values of a parsed symbol table.
pub open spec fn syms_view(v: Seq<SymbolInfo>) -> Seq<SymData> {
    v.map_values(|s: SymbolInfo| s@)
}

/// The symbol table that the `object` crate reads out of `data`, or `None`
/// when parsing fails. The result depends on the bytes alone.
pub uninterp spec fn sym_table_of(data: Seq<u8>) -> Option<Seq<SymData>>;

/// Relies on `object::File::parse` and the `ObjectSymbol` accessors: the
/// symbol table read from a byte image is a function of the bytes alone.
#[verifier::external_body]
pub fn parse_object_symbols(data: &[u8]) -> (r: Result<Vec<SymbolInfo>, object::read::Error>)
    ensures
        r matches Ok(v) ==> sym_table_of(data@) == Some(syms_view(v@)),
        r is Err ==> sym_table_of(data@) is None,
{
    let file = object::File::parse(data)?;
    let mut v = Vec::new();
    for s in file.symbols() {
        let kind = match s.kind() {
            object::SymbolKind::Text => SymKind::Text,
            object::SymbolKind::Data => SymKind::Data,
            object::SymbolKind::Unknown => SymKind::Unknown,
            _ => SymKind::Other,
        };
        let name = s.name().ok().map(str::to_string);
        v.push(SymbolInfo { name, kind, undefined: s.is_undefined(), global: s.is_global(), weak: s.is_weak() });
    }
    Ok(v)
}

/// A symbol of one of the kinds the analysis considers.
pub open spec fn kind_considered(s: SymData) -> bool {
    s.kind == SymKind::Text || s.kind == SymKind::Data || s.kind == SymKind::Unknown
}

/// The symbol contributes a defined name: global or weak, not undefined.
pub open spec fn defines_some(s: SymData) -> bool {
    kind_considered(s) && s.name is Some && !s.undefined && (s.global || s.weak)
}

/// The symbol references a name it does not define.
pub open spec fn references_some(s: SymData) -> bool {
    kind_considered(s) && s.name is Some && s.undefined
}

/// The symbol makes its object count as having kept exports: it is a
/// global, defined, considered symbol whose name survives the policy —
/// under `KeepSymbols` some regex matches it, under `RemoveSymbols` some
/// regex fails to match it (so the removal leaves it global).
pub open spec fn counts_exported(
    s: SymData,
    keep_or_remove: ArmergeKeepOrRemove,
    pats: Seq<Seq<char>>,
) -> bool {
    &&& kind_considered(s)
    &&& s.global
    &&& !s.undefined
    &&& s.name is Some
    &&& if keep_or_remove == ArmergeKeepOrRemove::KeepSymbols {
        matches_any(pats, s.name.unwrap())
    } else {
        fails_some(pats, s.name.unwrap())
    }
}

/// The defined names of a symbol table, in order.
pub open spec fn defined_names(syms: Seq<SymData>) -> Seq<Seq<char>>
    decreases syms.len(),
{
    if syms.len() == 0 {
        Seq::empty()
    } else {
        let rest = defined_names(syms.drop_last());
        if defines_some(syms.last()) {
            rest.push(syms.last().name.unwrap())
        } else {
            rest
        }
    }
}

/// The undefined (referenced) names of a symbol table, in order.
pub open spec fn referenced_names(syms: Seq<SymData>) -> Seq<Seq<char>>
    decreases syms.len(),
{
    if syms.len() == 0 {
        Seq::empty()
    } else {
        let rest = referenced_names(syms.drop_last());
        if references_some(syms.last()) {
            rest.push(syms.last().name.unwrap())
        } else {
            rest
        }
    }
}

/// Some symbol of the table defines `n`.
pub open spec fn seq_defines(syms: Seq<SymData>, n: Seq<char>) -> bool {
    exists|k: int| 0 <= k < syms.len() && defines_some(syms[k]) && syms[k].name == Some(n)
}

/// Some symbol of the table references `n` without defining it.
pub open spec fn seq_references(syms: Seq<SymData>, n: Seq<char>) -> bool {
    exists|k: int| 0 <= k < syms.len() && references_some(syms[k]) && syms[k].name == Some(n)
}

/// A name is among the defined names exactly when some symbol defines it.
pub proof fn lemma_defined_names_membership(syms: Seq<SymData>, n: Seq<char>)
    ensures
        defined_names(syms).contains(n) <==> seq_defines(syms, n),
    decreases syms.len(),
{
    if syms.len() > 0 {
        lemma_defined_names_membership(syms.drop_last(), n);
        let rest = defined_names(syms.drop_last());
        if defines_some(syms.last()) && syms.last().name == Some(n) {
            assert(rest.push(n)[rest.len() as int] == n);
            assert(defines_some(syms[syms.len() - 1]) && syms[syms.len() - 1].name == Some(n));
        }
        if seq_defines(syms, n) {
            let k = choose|k: int|
                0 <= k < syms.len() && defines_some(syms[k]) && syms[k].name == Some(n);
            if k < syms.len() - 1 {
                assert(syms.drop_last()[k] == syms[k]);
                assert(seq_defines(syms.drop_last(), n));
                if defines_some(syms.last()) {
                    assert(rest.contains(n));
                    let j = choose|j: int| 0 <= j < rest.len() && rest[j] == n;
                    assert(rest.push(syms.last().name.unwrap())[j] == n);
                }
            }
        }
        if defined_names(syms).contains(n) && !(defines_some(syms.last()) && syms.last().name
            == Some(n)) {
            let j = choose|j: int|
                0 <= j < defined_names(syms).len() && defined_names(syms)[j] == n;
            if defines_some(syms.last()) {
                assert(defined_names(syms) == rest.push(syms.last().name.unwrap()));
                assert(j < rest.len());
                assert(rest[j] == n);
            }
            assert(rest.contains(n));
            let k = choose|k: int|
                0 <= k < syms.drop_last().len() && defines_some(syms.drop_last()[k])
                    && syms.drop_last()[k].name == Some(n);
            assert(syms[k] == syms.drop_last()[k]);
        }
    }
}

/// A name is among the referenced names exactly when some symbol references
/// it.
pub proof fn lemma_referenced_names_membership(syms: Seq<SymData>, n: Seq<char>)
    ensures
        referenced_names(syms).contains(n) <==> seq_references(syms, n),
    decreases syms.len(),
{
    if syms.len() > 0 {
        lemma_referenced_names_membership(syms.drop_last(), n);
        let rest = referenced_names(syms.drop_last());
        if references_some(syms.last()) && syms.last().name == Some(n) {
            assert(rest.push(n)[rest.len() as int] == n);
            assert(references_some(syms[syms.len() - 1]) && syms[syms.len() - 1].name == Some(
                n,
            ));
        }
        if seq_references(syms, n) {
            let k = choose|k: int|
                0 <= k < syms.len() && references_some(syms[k]) && syms[k].name == Some(n);
            if k < syms.len() - 1 {
                assert(syms.drop_last()[k] == syms[k]);
                assert(seq_references(syms.drop_last(), n));
                if references_some(syms.last()) {
                    assert(rest.contains(n));
                    let j = choose|j: int| 0 <= j < rest.len() && rest[j] == n;
                    assert(rest.push(syms.last().name.unwrap())[j] == n);
                }
            }
        }
        if referenced_names(syms).contains(n) && !(references_some(syms.last())
            && syms.last().name == Some(n)) {
            let j = choose|j: int|
                0 <= j < referenced_names(syms).len() && referenced_names(syms)[j] == n;
            if references_some(syms.last()) {
                assert(referenced_names(syms) == rest.push(syms.last().name.unwrap()));
                assert(j < rest.len());
                assert(rest[j] == n);
            }
            assert(rest.contains(n));
            let k = choose|k: int|
                0 <= k < syms.drop_last().len() && references_some(syms.drop_last()[k])
                    && syms.drop_last()[k].name == Some(n);
            assert(syms[k] == syms.drop_last()[k]);
        }
    }
}

/// Some considered symbol of the table counts as a kept export.
pub open spec fn some_sym_exported(
    syms: Seq<SymData>,
    keep_or_remove: ArmergeKeepOrRemove,
    pats: Seq<Seq<char>>,
) -> bool {
    exists|k: int| 0 <= k < syms.len() && counts_exported(syms[k], keep_or_remove, pats)
}

/// The names held by a list of strings.
pub open spec fn names_of(v: Seq<String>) -> Seq<Seq<char>> {
    v.map_values(|s: String| s@)
}

/// Membership of a name in a list of strings.
pub open spec fn contains_name(v: Seq<String>, n: Seq<char>) -> bool {
    exists|i: int| 0 <= i < v.len() && v[i]@ == n
}

pub proof fn lemma_contains_name_is_names_of_contains(v: Seq<String>, n: Seq<char>)
    ensures
        contains_name(v, n) <==> names_of(v).contains(n),
{
    if contains_name(v, n) {
        let i = choose|i: int| 0 <= i < v.len() && v[i]@ == n;
        assert(names_of(v)[i] == n);
    }
    if names_of(v).contains(n) {
        let i = choose|i: int| 0 <= i < names_of(v).len() && names_of(v)[i] == n;
        assert(v[i]@ == n);
    }
}

/// The symbol facts of one object: its defined global or weak names, the
/// names it references but does not define, whether the keep policy marks
/// it as holding a kept export, and (once computed) the indices of the
/// objects it depends on.
pub struct ObjectSyms {
    pub globals: Vec<String>,
    pub undefineds: Vec<String>,
    pub has_exported_symbols: bool,
    pub deps: Vec<usize>,
}

/// The symbol facts of `o` are exactly those of the symbol table `syms`
/// under the given policy.
pub open spec fn facts_match(
    o: ObjectSyms,
    syms: Seq<SymData>,
    keep_or_remove: ArmergeKeepOrRemove,
    pats: Seq<Seq<char>>,
) -> bool {
    &&& names_of(o.globals@) == defined_names(syms)
    &&& names_of(o.undefineds@) == referenced_names(syms)
    &&& o.has_exported_symbols == some_sym_exported(syms, keep_or_remove, pats)
}

/// The facts of `o` are exactly those of the symbol table `syms` under the
/// given policy, with no dependency edges computed yet.
pub open spec fn obj_syms_ok(
    o: ObjectSyms,
    syms: Seq<SymData>,
    keep_or_remove: ArmergeKeepOrRemove,
    pats: Seq<Seq<char>>,
) -> bool {
    &&& facts_match(o, syms, keep_or_remove, pats)
    &&& o.deps@ == Seq::<usize>::empty()
}

/// Does the policy make this symbol count as a kept export?
fn symbol_counts_exported(
    s: &SymbolInfo,
    keep_or_remove: ArmergeKeepOrRemove,
    regexes: &Vec<Pattern>,
) -> (r: bool)
    ensures
        r == counts_exported(s@, keep_or_remove, pat_views(regexes@)),
{
    if !(matches!(s.kind, SymKind::Text | SymKind::Data | SymKind::Unknown)) {
        return false;
    }
    if !s.global || s.undefined {
        return false;
    }
    match &s.name {
        None => false,
        Some(n) => {
            if keep_or_remove == ArmergeKeepOrRemove::KeepSymbols {
                name_matches_any(regexes, n.as_str())
            } else {
                name_fails_some(regexes, n.as_str())
            }
        },
    }
}

impl ObjectSyms {
    /// Build the symbol facts from a parsed symbol table.
    pub fn from_symbols(
        syms: &Vec<SymbolInfo>,
        keep_or_remove: ArmergeKeepOrRemove,
        regexes: &Vec<Pattern>,
    ) -> (r: ObjectSyms)
        ensures
            obj_syms_ok(r, syms_view(syms@), keep_or_remove, pat_views(regexes@)),
    {
        let ghost symv = syms_view(syms@);
        let ghost pats = pat_views(regexes@);
        let mut globals: Vec<String> = Vec::new();
        let mut undefineds: Vec<String> = Vec::new();
        let mut has_exported_symbols = false;
        for i in 0..syms.len()
            invariant
                symv == syms_view(syms@),
                pats == pat_views(regexes@),
                names_of(globals@) == defined_names(symv.take(i as int)),
                names_of(undefineds@) == referenced_names(symv.take(i as int)),
                has_exported_symbols == some_sym_exported(
                    symv.take(i as int),
                    keep_or_remove,
                    pats,
                ),
        {
            let ghost prefix = symv.take(i as int);
            let ghost cur = symv[i as int];
            proof {
                assert(symv.take(i + 1).drop_last() =~= prefix);
                assert(symv.take(i + 1).last() == cur);
            }
            let s = &syms[i];
            let considered = matches!(s.kind, SymKind::Text | SymKind::Data | SymKind::Unknown);
            if considered {
                match &s.name {
                    Some(n) => {
                        if s.undefined {
                            undefineds.push(n.clone());
                            proof {
                                assert(names_of(undefineds@) =~= referenced_names(
                                    symv.take(i + 1),
                                ));
                            }
                        } else if s.global || s.weak {
                            globals.push(n.clone());
                            proof {
                                assert(names_of(globals@) =~= defined_names(symv.take(i + 1)));
                            }
                        }
                    },
                    None => {},
                }
            }
            if !has_exported_symbols {
                if symbol_counts_exported(s, keep_or_remove, regexes) {
                    has_exported_symbols = true;
                }
            }
            proof {
                if !defines_some(cur) {
                    assert(defined_names(symv.take(i + 1)) =~= defined_names(prefix));
                }
                if !references_some(cur) {
                    assert(referenced_names(symv.take(i + 1)) =~= referenced_names(prefix));
                }
                if has_exported_symbols {
                    if counts_exported(cur, keep_or_remove, pats) {
                        assert(some_sym_exported(symv.take(i + 1), keep_or_remove, pats));
                    } else {
                        assert(some_sym_exported(prefix, keep_or_remove, pats));
                        let k = choose|k: int|
                            0 <= k < prefix.len() && counts_exported(
                                prefix[k],
                                keep_or_remove,
                                pats,
                            );
                        assert(counts_exported(symv.take(i + 1)[k], keep_or_remove, pats));
                    }
                } else {
                    assert forall|k: int|
                        0 <= k < i + 1 implies !(#[trigger] counts_exported(
                        symv.take(i + 1)[k],
                        keep_or_remove,
                        pats,
                    )) by {
                        if k < i {
                            assert(!counts_exported(prefix[k], keep_or_remove, pats));
                        }
                    }
                }
            }
        }
        proof {
            assert(symv.take(symv.len() as int) =~= symv);
        }
        ObjectSyms { globals, undefineds, has_exported_symbols, deps: Vec::new() }
    }

    /// Parse one extracted object and build its symbol facts.
    ///
    /// `object_path` is only used to name the object in the error when the
    /// bytes cannot be parsed.
    pub fn new(
        object_path: &str,
        data: &[u8],
        keep_or_remove: ArmergeKeepOrRemove,
        regexes: &Vec<Pattern>,
    ) -> (r: Result<ObjectSyms, MergeError>)
        ensures
            match r {
                Ok(o) => sym_table_of(data@) matches Some(t) && obj_syms_ok(
                    o,
                    t,
                    keep_or_remove,
                    pat_views(regexes@),
                ),
                Err(e) => sym_table_of(data@) is None && (e matches MergeError::InvalidObject {
                    path,
                    ..
                } && path@ == object_path@),
            },
    {
        match parse_object_symbols(data) {
            Ok(syms) => Ok(ObjectSyms::from_symbols(&syms, keep_or_remove, regexes)),
            Err(e) => Err(MergeError::InvalidObject { path: object_path.to_owned(), inner: e }),
        }
    }

    /// Does `self` reference a name that `obj_syms` defines?
    pub fn has_dependency(&self, obj_syms: &ObjectSyms) -> (r: bool)
        ensures
            r == has_dep(self, obj_syms),
    {
        for i in 0..self.undefineds.len()
            invariant
                forall|k: int|
                    0 <= k < i ==> !contains_name(obj_syms.globals@, self.undefineds@[k]@),
        {
            if contains_string(&obj_syms.globals, &self.undefineds[i]) {
                return true;
            }
        }
        false
    }
}

/// The dependency edges recorded for object `i` are exactly the objects it
/// depends on, itself excluded.
pub open spec fn deps_ok(objs: Seq<ObjectSyms>, i: int, deps: Seq<usize>) -> bool {
    &&& forall|j: usize|
        (j as int) < objs.len() ==> (#[trigger] deps.contains(j) <==> (j as int) != i && has_dep(
            &objs[i],
            &objs[j as int],
        ))
    &&& forall|k: int| 0 <= k < deps.len() ==> (deps[k] as int) < objs.len()
}

impl ObjectSyms {
    /// Fill in the dependency edges of every object: `j` is an edge of `i`
    /// exactly when `i` references a name that `j` defines. The symbol facts
    /// themselves are left untouched.
    pub fn check_dependencies(object_syms: &mut Vec<ObjectSyms>)
        ensures
            final(object_syms)@.len() == old(object_syms)@.len(),
            forall|i: int|
                0 <= i < old(object_syms)@.len() ==> {
                    &&& (#[trigger] final(object_syms)@[i]).globals == old(object_syms)@[i].globals
                    &&& final(object_syms)@[i].undefineds == old(object_syms)@[i].undefineds
                    &&& final(object_syms)@[i].has_exported_symbols == old(
                        object_syms,
                    )@[i].has_exported_symbols
                    &&& deps_ok(old(object_syms)@, i, final(object_syms)@[i].deps@)
                },
    {
        let ghost objs0 = object_syms@;
        let n = object_syms.len();
        for i in 0..n
            invariant
                n == object_syms@.len(),
                object_syms@.len() == objs0.len(),
                forall|a: int|
                    0 <= a < objs0.len() ==> {
                        &&& (#[trigger] object_syms@[a]).globals == objs0[a].globals
                        &&& object_syms@[a].undefineds == objs0[a].undefineds
                        &&& object_syms@[a].has_exported_symbols == objs0[a].has_exported_symbols
                    },
                forall|a: int|
                    0 <= a < i ==> deps_ok(objs0, a, #[trigger] object_syms@[a].deps@),
        {
            let mut deps_i: Vec<usize> = Vec::new();
            for j in 0..n
                invariant
                    n == object_syms@.len(),
                    object_syms@.len() == objs0.len(),
                    0 <= i < n,
                    forall|a: int|
                        0 <= a < objs0.len() ==> {
                            &&& (#[trigger] object_syms@[a]).globals == objs0[a].globals
                            &&& object_syms@[a].undefineds == objs0[a].undefineds
                            &&& object_syms@[a].has_exported_symbols
                                == objs0[a].has_exported_symbols
                        },
                    forall|a: int|
                        0 <= a < i ==> deps_ok(objs0, a, #[trigger] object_syms@[a].deps@),
                    forall|j2: usize|
                        (j2 as int) < j ==> (#[trigger] deps_i@.contains(j2) <==> (j2 as int) != i
                            && has_dep(&objs0[i as int], &objs0[j2 as int])),
                    forall|k: int| 0 <= k < deps_i@.len() ==> (deps_i@[k] as int) < j,
            {
                if j != i && object_syms[i].has_dependency(&object_syms[j]) {
                    let ghost before = deps_i@;
                    deps_i.push(j);
                    proof {
                        assert(deps_i@ == before.push(j as usize));
                        assert(deps_i@[before.len() as int] == j);
                        assert(deps_i@.contains(j as usize));
                        assert forall|j2: usize| (j2 as int) < j + 1 implies (
                        #[trigger] deps_i@.contains(j2) <==> (j2 as int) != i && has_dep(
                            &objs0[i as int],
                            &objs0[j2 as int],
                        )) by {
                            if deps_i@.contains(j2) {
                                let k = choose|k: int|
                                    0 <= k < deps_i@.len() && deps_i@[k] == j2;
                                if k < before.len() {
                                    assert(before.contains(j2));
                                }
                            }
                            if (j2 as int) < j && before.contains(j2) {
                                let k = choose|k: int| 0 <= k < before.len() && before[k] == j2;
                                assert(deps_i@[k] == j2);
                            }
                        }
                    }
                } else {
                    proof {
                        assert forall|j2: usize| (j2 as int) < j + 1 implies (
                        #[trigger] deps_i@.contains(j2) <==> (j2 as int) != i && has_dep(
                            &objs0[i as int],
                            &objs0[j2 as int],
                        )) by {
                            if (j2 as int) == j {
                                if deps_i@.contains(j2) {
                                    let k = choose|k: int|
                                        0 <= k < deps_i@.len() && deps_i@[k] == j2;
                                }
                            }
                        }
                    }
                }
            }
            object_syms[i].deps = deps_i;
            proof {
                assert(deps_ok(objs0, i as int, object_syms@[i as int].deps@));
            }
        }
    }
}

/// Object `a` depends on object `b`: some undefined name of `a` is defined
/// by `b`.
pub open spec fn has_dep(a: &ObjectSyms, b: &ObjectSyms) -> bool {
    exists|k: int| 0 <= k < a.undefineds@.len() && contains_name(b.globals@, a.undefineds@[k]@)
}

/// Linear search for a name in a list of strings.
pub fn contains_string(v: &Vec<String>, n: &String) -> (r: bool)
    ensures
        r == contains_name(v@, n@),
{
    for i in 0..v.len()
        invariant
            forall|k: int| 0 <= k < i ==> v@[k]@ != n@,
    {
        if v[i].eq(n) {
            return true;
        }
    }
    false
}

} // verus!
