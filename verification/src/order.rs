//! Deterministic ordering of the retained objects.
//!
//! The caller supplies an ordered list of base names (the parsed order
//! file). An object whose base name stands in the list gets that entry's
//! position as its priority; unknown names get the maximum priority, so
//! they sort after all listed ones. The sort is stable: objects of equal
//! priority keep their original relative order.

use vstd::prelude::*;
use vstd::seq_lib::*;

use crate::archives::{has_object_name, object_name_of};
use crate::objects::syms::names_of;

verus! {

/// The priority of `name` under the order list: the position of its last
/// occurrence, or `usize::MAX` when it is not listed.
pub open spec fn order_priority(order: Seq<String>, name: Seq<char>) -> int {
    match names_of(order).index_of_last(name) {
        Some(i) => i,
        None => usize::MAX as int,
    }
}

/// The priority of an extracted object's path: the priority of its base
/// name.
pub open spec fn path_priority(order: Seq<String>, path: Seq<char>) -> int {
    order_priority(order, object_name_of(path))
}

/// A listed name always sorts before an unlisted one.
pub proof fn lemma_listed_before_unlisted(order: Seq<String>, listed: Seq<char>, other: Seq<char>)
    requires
        names_of(order).contains(listed),
        !names_of(order).contains(other),
        order.len() < usize::MAX,
    ensures
        order_priority(order, listed) < order_priority(order, other),
{
    names_of(order).index_of_last_ensures(listed);
    names_of(order).index_of_last_ensures(other);
}

/// Priority of one name, scanning the order list from the end.
pub fn priority_of(order: &Vec<String>, name: &String) -> (r: usize)
    ensures
        r as int == order_priority(order@, name@),
{
    let n = order.len();
    let mut i = n;
    while i > 0
        invariant
            i <= n,
            n == order@.len(),
            forall|k: int| i <= k < n ==> order@[k]@ != name@,
        decreases i,
    {
        i = i - 1;
        if order[i].eq(name) {
            proof {
                let ns = names_of(order@);
                ns.index_of_last_ensures(name@);
                assert(ns[i as int] == name@);
                assert(ns.contains(name@));
                let index = ns.index_of_last(name@).unwrap();
                if index < i {
                    assert(ns[i as int] != name@);
                }
                if index > i {
                    assert(order@[index]@ != name@);
                }
            }
            return i;
        }
    }
    proof {
        let ns = names_of(order@);
        ns.index_of_last_ensures(name@);
        if ns.contains(name@) {
            let k = choose|k: int| 0 <= k < ns.len() && ns[k] == name@;
            assert(order@[k]@ == name@);
        }
    }
    usize::MAX
}

/// `i` comes lexicographically before `j` under `keys`: a smaller key, or
/// an equal key at a smaller original position.
pub open spec fn lex_before(keys: Seq<int>, i: int, j: int) -> bool {
    keys[i] < keys[j] || (keys[i] == keys[j] && i < j)
}

/// The priorities of every path in the input list.
pub open spec fn path_keys(order: Seq<String>, paths: Seq<String>) -> Seq<int> {
    Seq::new(paths.len(), |k: int| path_priority(order, paths[k]@))
}

/// `idx` enumerates positions of `paths` in stable sorted order: every
/// entry is in range, and the (priority, original position) pairs strictly
/// increase, which makes the entries pairwise distinct. `r` is `paths`
/// permuted by `idx`.
pub open spec fn stable_sorted_by_order(
    idx: Seq<int>,
    paths: Seq<String>,
    order: Seq<String>,
    r: Seq<String>,
) -> bool {
    &&& idx.len() == paths.len()
    &&& r.len() == paths.len()
    &&& forall|a: int| 0 <= a < idx.len() ==> 0 <= #[trigger] idx[a] < paths.len()
    &&& forall|a: int, b: int|
        0 <= a < b < idx.len() ==> lex_before(path_keys(order, paths), idx[a], idx[b])
    &&& forall|a: int| 0 <= a < r.len() ==> #[trigger] r[a] == paths[idx[a]]
}

/// Count of `false` entries in a selection map.
pub open spec fn count_unused(s: Seq<bool>) -> nat
    decreases s.len(),
{
    if s.len() == 0 {
        0
    } else {
        count_unused(s.drop_last()) + if s.last() {
            0nat
        } else {
            1nat
        }
    }
}

proof fn lemma_count_unused_update(s: Seq<bool>, i: int)
    requires
        0 <= i < s.len(),
        !s[i],
    ensures
        count_unused(s.update(i, true)) + 1 == count_unused(s),
    decreases s.len(),
{
    let t = s.update(i, true);
    if i == s.len() - 1 {
        assert(t.drop_last() =~= s.drop_last());
    } else {
        assert(t.drop_last() =~= s.drop_last().update(i, true));
        assert(t.last() == s.last());
        lemma_count_unused_update(s.drop_last(), i);
    }
}

proof fn lemma_count_unused_all_false(s: Seq<bool>)
    requires
        forall|i: int| 0 <= i < s.len() ==> !s[i],
    ensures
        count_unused(s) == s.len(),
    decreases s.len(),
{
    if s.len() > 0 {
        lemma_count_unused_all_false(s.drop_last());
    }
}

proof fn lemma_count_unused_nonzero(s: Seq<bool>) -> (w: int)
    requires
        count_unused(s) > 0,
    ensures
        0 <= w < s.len() && !s[w],
    decreases s.len(),
{
    if !s.last() {
        s.len() - 1
    } else {
        let w = lemma_count_unused_nonzero(s.drop_last());
        w
    }
}

/// Sort the retained object paths by the priority of their base names,
/// stably: listed names keep their listed order, unlisted names follow in
/// their original order.
pub fn sort_objects_by_order(paths: &Vec<String>, order: &Vec<String>) -> (r: Vec<String>)
    requires
        forall|k: int| 0 <= k < paths@.len() ==> has_object_name(#[trigger] paths@[k]@),
    ensures
        exists|idx: Seq<int>| stable_sorted_by_order(idx, paths@, order@, r@),
{
    let ghost keys = path_keys(order@, paths@);
    let n = paths.len();

    let mut prio: Vec<usize> = Vec::new();
    for i in 0..n
        invariant
            n == paths@.len(),
            keys == path_keys(order@, paths@),
            prio@.len() == i,
            forall|k: int| 0 <= k < paths@.len() ==> has_object_name(#[trigger] paths@[k]@),
            forall|k: int| 0 <= k < i ==> (#[trigger] prio@[k] as int) == keys[k],
    {
        let base = crate::archives::get_object_name_from_path(paths[i].as_str());
        let p = priority_of(order, &base);
        prio.push(p);
    }

    let mut used: Vec<bool> = vec![false; n];
    proof {
        lemma_count_unused_all_false(used@);
    }
    let mut result: Vec<String> = Vec::new();
    let ghost mut idx: Seq<int> = Seq::empty();

    for step in 0..n
        invariant
            n == paths@.len(),
            keys == path_keys(order@, paths@),
            prio@.len() == n,
            forall|k: int| 0 <= k < n ==> (#[trigger] prio@[k] as int) == keys[k],
            used@.len() == n,
            result@.len() == step,
            idx.len() == step,
            count_unused(used@) == n - step,
            forall|a: int| 0 <= a < idx.len() ==> 0 <= #[trigger] idx[a] < n,
            forall|a: int, b: int| 0 <= a < b < idx.len() ==> lex_before(keys, idx[a], idx[b]),
            forall|a: int| 0 <= a < result@.len() ==> #[trigger] result@[a] == paths@[idx[a]],
            forall|j: int| 0 <= j < n ==> (#[trigger] used@[j] <==> idx.contains(j)),
            forall|a: int, j: int|
                0 <= a < idx.len() && 0 <= j < n && !used@[j] ==> #[trigger] lex_before(
                    keys,
                    idx[a],
                    j,
                ),
    {
        let mut best: usize = 0;
        let mut found = false;
        for j in 0..n
            invariant
                n == paths@.len(),
                used@.len() == n,
                prio@.len() == n,
                forall|k: int| 0 <= k < n ==> (#[trigger] prio@[k] as int) == keys[k],
                found ==> (best as int) < n && !used@[best as int],
                found ==> (best as int) < j,
                found ==> forall|j2: int|
                    0 <= j2 < j && !used@[j2] ==> !lex_before(keys, j2, best as int) || j2
                        == best as int,
                !found ==> forall|j2: int| 0 <= j2 < j ==> used@[j2],
                (best as int) < n || !found,
        {
            if !used[j] {
                if !found {
                    best = j;
                    found = true;
                } else {
                    let better = if prio[j] < prio[best] {
                        true
                    } else {
                        false
                    };
                    if better {
                        best = j;
                    }
                }
            }
        }
        proof {
            if !found {
                let w = lemma_count_unused_nonzero(used@);
                assert(used@[w]);
                assert(false);
            }
        }
        let ghost used0 = used@;
        used[best] = true;
        result.push(paths[best].clone());
        proof {
            lemma_count_unused_update(used0, best as int);
            let ghost old_idx = idx;
            idx = idx.push(best as int);
            assert(idx.len() == step + 1);
            assert forall|j: int| 0 <= j < n implies (#[trigger] used@[j] <==> idx.contains(
                j,
            )) by {
                if j == best as int {
                    assert(idx[idx.len() - 1] == j);
                } else {
                    if used0[j] {
                        assert(old_idx.contains(j));
                        let k = choose|k: int| 0 <= k < old_idx.len() && old_idx[k] == j;
                        assert(idx[k] == j);
                    }
                    if idx.contains(j) {
                        let k = choose|k: int| 0 <= k < idx.len() && idx[k] == j;
                        assert(k < old_idx.len());
                        assert(old_idx[k] == j);
                    }
                }
            }
            assert forall|a: int, b: int| 0 <= a < b < idx.len() implies lex_before(
                keys,
                idx[a],
                idx[b],
            ) by {
                if b == idx.len() - 1 {
                    assert(idx[b] == best as int);
                    assert(!used0[best as int]);
                    assert(lex_before(keys, old_idx[a], best as int));
                } else {
                    assert(old_idx[a] == idx[a] && old_idx[b] == idx[b]);
                }
            }
            assert forall|a: int, j: int|
                0 <= a < idx.len() && 0 <= j < n && !(#[trigger] used@[j]) implies #[trigger] lex_before(
                keys,
                idx[a],
                j,
            ) by {
                assert(!used0[j]);
                assert(j != best as int);
                if a < idx.len() - 1 {
                    assert(lex_before(keys, old_idx[a], j));
                } else {
                    assert(idx[a] == best as int);
                    if lex_before(keys, j, best as int) {
                        assert(false);
                    }
                    assert(keys[j] != keys[best as int] || j > best as int);
                    assert(lex_before(keys, best as int, j));
                }
            }
        }
    }
    proof {
        assert(stable_sorted_by_order(idx, paths@, order@, result@));
    }
    result
}

/// What `char::is_whitespace` returns for `c`.
pub uninterp spec fn char_whitespace(c: char) -> bool;

/// Relies on `char::is_whitespace`: the result depends on the character
/// alone.
#[verifier::external_body]
fn is_whitespace_char(c: char) -> (r: bool)
    ensures
        r == char_whitespace(c),
{
    c.is_whitespace()
}

/// A line with its leading whitespace removed.
pub open spec fn trim_start_spec(l: Seq<char>) -> Seq<char>
    decreases l.len(),
{
    if l.len() == 0 {
        l
    } else if char_whitespace(l[0]) {
        trim_start_spec(l.drop_first())
    } else {
        l
    }
}

/// A line with its trailing whitespace removed.
pub open spec fn trim_end_spec(l: Seq<char>) -> Seq<char>
    decreases l.len(),
{
    if l.len() == 0 {
        l
    } else if char_whitespace(l.last()) {
        trim_end_spec(l.drop_last())
    } else {
        l
    }
}

/// A line with whitespace removed from both ends.
pub open spec fn trim_spec(l: Seq<char>) -> Seq<char> {
    trim_end_spec(trim_start_spec(l))
}

/// The lines of the order file, split on `\n`.
pub open spec fn split_lines_spec(s: Seq<char>) -> Seq<Seq<char>>
    decreases s.len(),
{
    match s.index_of_first('\n') {
        Some(i) => if 0 <= i < s.len() {
            seq![s.take(i)] + split_lines_spec(s.subrange(i + 1, s.len() as int))
        } else {
            seq![s]
        },
        None => seq![s],
    }
}

/// A line carries an entry: after trimming it is neither blank nor a
/// `#` comment.
pub open spec fn order_line_kept(l: Seq<char>) -> bool {
    trim_spec(l).len() > 0 && trim_spec(l)[0] != '#'
}

/// The trimmed entries of the kept lines, in order.
pub open spec fn parse_lines(ls: Seq<Seq<char>>) -> Seq<Seq<char>>
    decreases ls.len(),
{
    if ls.len() == 0 {
        Seq::empty()
    } else {
        let rest = parse_lines(ls.drop_last());
        if order_line_kept(ls.last()) {
            rest.push(trim_spec(ls.last()))
        } else {
            rest
        }
    }
}

/// The entries of an order file: one base name per line, blank lines and
/// `#` comments skipped, every entry trimmed.
pub open spec fn parse_order_spec(s: Seq<char>) -> Seq<Seq<char>> {
    parse_lines(split_lines_spec(s))
}

proof fn lemma_parse_lines_add(a: Seq<Seq<char>>, b: Seq<Seq<char>>)
    ensures
        parse_lines(a + b) == parse_lines(a) + parse_lines(b),
    decreases b.len(),
{
    if b.len() == 0 {
        assert(a + b =~= a);
        assert(parse_lines(a) + parse_lines(b) =~= parse_lines(a));
    } else {
        assert((a + b).drop_last() =~= a + b.drop_last());
        assert((a + b).last() == b.last());
        lemma_parse_lines_add(a, b.drop_last());
        if order_line_kept(b.last()) {
            assert(parse_lines(a) + parse_lines(b) =~= (parse_lines(a) + parse_lines(
                b.drop_last(),
            )).push(trim_spec(b.last())));
        }
    }
}

proof fn lemma_trim_start(l: Seq<char>, i: int)
    requires
        0 <= i <= l.len(),
        forall|k: int| 0 <= k < i ==> char_whitespace(l[k]),
        i < l.len() ==> !char_whitespace(l[i]),
    ensures
        trim_start_spec(l) == l.skip(i),
    decreases i,
{
    if i == 0 {
        assert(l.skip(0) =~= l);
        if l.len() > 0 && char_whitespace(l[0]) {
            assert(false);
        }
    } else {
        assert(char_whitespace(l[0]));
        let l2 = l.drop_first();
        lemma_trim_start(l2, i - 1);
        assert(l2.skip(i - 1) =~= l.skip(i));
    }
}

proof fn lemma_trim_end(l: Seq<char>, j: int)
    requires
        0 <= j <= l.len(),
        forall|k: int| j <= k < l.len() ==> char_whitespace(l[k]),
        j > 0 ==> !char_whitespace(l[j - 1]),
    ensures
        trim_end_spec(l) == l.take(j),
    decreases l.len() - j,
{
    if j == l.len() {
        assert(l.take(j) =~= l);
        if l.len() > 0 && char_whitespace(l.last()) {
            assert(false);
        }
    } else {
        assert(char_whitespace(l.last()));
        let l2 = l.drop_last();
        lemma_trim_end(l2, j);
        assert(l2.take(j) =~= l.take(j));
    }
}

/// Remove the whitespace from both ends of a line.
fn trim_str(line: &str) -> (r: String)
    ensures
        r@ == trim_spec(line@),
{
    let n = line.unicode_len();
    let mut i: usize = 0;
    while i < n && is_whitespace_char(line.get_char(i))
        invariant
            i <= n,
            n == line@.len(),
            forall|k: int| 0 <= k < i ==> char_whitespace(line@[k]),
        decreases n - i,
    {
        i = i + 1;
    }
    let mut j: usize = n;
    while j > i && is_whitespace_char(line.get_char(j - 1))
        invariant
            i <= j <= n,
            n == line@.len(),
            forall|k: int| j <= k < n ==> char_whitespace(line@[k]),
        decreases j,
    {
        j = j - 1;
    }
    let r = line.substring_char(i, j).to_owned();
    proof {
        lemma_trim_start(line@, i as int);
        let l2 = line@.skip(i as int);
        lemma_trim_end(l2, j - i);
        assert(l2.take(j - i) =~= line@.subrange(i as int, j as int));
        assert(r@ == trim_spec(line@));
    }
    r
}

/// Scan forward for the first `\n` at or after `from`.
fn find_newline(s: &str, from: usize) -> (r: Option<usize>)
    requires
        from <= s@.len(),
    ensures
        match r {
            Some(i) => from <= i < s@.len() && s@.skip(from as int).index_of_first('\n') == Some(
                i - from,
            ),
            None => s@.skip(from as int).index_of_first('\n') is None,
        },
{
    let n = s.unicode_len();
    let mut i = from;
    while i < n
        invariant
            from <= i <= n,
            n == s@.len(),
            forall|k: int| from <= k < i ==> s@[k] != '\n',
        decreases n - i,
    {
        if s.get_char(i) == '\n' {
            proof {
                let suf = s@.skip(from as int);
                suf.index_of_first_ensures('\n');
                assert(suf[i - from] == '\n');
                assert(suf.contains('\n'));
                let index = suf.index_of_first('\n').unwrap();
                if index < i - from {
                    assert(s@[index + from] != '\n');
                    assert(suf[index] == s@[index + from]);
                }
                if index > i - from {
                    assert(suf[i - from] != '\n');
                }
            }
            return Some(i);
        }
        i = i + 1;
    }
    proof {
        let suf = s@.skip(from as int);
        suf.index_of_first_ensures('\n');
        if suf.contains('\n') {
            let k = choose|k: int| 0 <= k < suf.len() && suf[k] == '\n';
            assert(s@[k + from] == '\n');
        }
    }
    None
}

/// Parse the contents of an order file: one base name per line, blank
/// lines and lines whose first non-blank character is `#` skipped, each
/// entry trimmed of surrounding whitespace.
pub fn parse_order_file(content: &str) -> (r: Vec<String>)
    ensures
        names_of(r@) == parse_order_spec(content@),
{
    let n = content.unicode_len();
    let mut result: Vec<String> = Vec::new();
    let mut pos: usize = 0;
    let mut done = false;
    proof {
        assert(content@.skip(0) =~= content@);
        assert(names_of(result@) + parse_order_spec(content@) =~= parse_order_spec(content@));
    }
    while !done
        invariant
            pos <= n,
            n == content@.len(),
            !done ==> parse_order_spec(content@) == names_of(result@) + parse_order_spec(
                content@.skip(pos as int),
            ),
            done ==> names_of(result@) == parse_order_spec(content@),
        decreases n - pos + (if done {
            0int
        } else {
            1int
        }),
    {
        let ghost suf = content@.skip(pos as int);
        let (line_end, next_pos, last) = match find_newline(content, pos) {
            Some(nl) => (nl, nl + 1, false),
            None => (n, n, true),
        };
        let line = content.substring_char(pos, line_end);
        proof {
            suf.index_of_first_ensures('\n');
            assert(line@ =~= suf.take(line_end - pos));
            if last {
                assert(suf.index_of_first('\n') is None);
                assert(suf.take(line_end - pos) =~= suf);
                assert(split_lines_spec(suf) == seq![suf]);
            } else {
                assert(split_lines_spec(suf) == seq![suf.take(line_end - pos)]
                    + split_lines_spec(suf.subrange(line_end - pos + 1, suf.len() as int)));
                assert(suf.subrange(line_end - pos + 1, suf.len() as int) =~= content@.skip(
                    next_pos as int,
                ));
            }
        }
        let trimmed = trim_str(line);
        let keep_line = if trimmed.as_str().unicode_len() == 0 {
            false
        } else {
            let first = trimmed.as_str().get_char(0);
            first != '#'
        };
        proof {
            assert(keep_line == order_line_kept(line@));
        }
        let ghost res0 = result@;
        if keep_line {
            result.push(trimmed);
            proof {
                assert forall|k: int| 0 <= k < result@.len() implies names_of(result@)[k] == (
                names_of(res0).push(trim_spec(line@)))[k] by {
                    if k < res0.len() {
                        assert(result@[k] == res0[k]);
                    }
                }
                assert(names_of(result@) =~= names_of(res0).push(trim_spec(line@)));
            }
        }
        proof {
            let lines_here: Seq<Seq<char>> = seq![line@];
            if last {
                assert(parse_lines(split_lines_spec(suf)) == parse_lines(lines_here));
            } else {
                lemma_parse_lines_add(
                    lines_here,
                    split_lines_spec(content@.skip(next_pos as int)),
                );
                assert(lines_here + split_lines_spec(content@.skip(next_pos as int))
                    =~= split_lines_spec(suf));
            }
            assert(lines_here.len() == 1);
            assert(lines_here.last() == line@);
            assert(lines_here.drop_last() =~= Seq::<Seq<char>>::empty());
            assert(parse_lines(Seq::<Seq<char>>::empty()) == Seq::<Seq<char>>::empty());
            assert(parse_lines(lines_here) == (if order_line_kept(line@) {
                Seq::<Seq<char>>::empty().push(trim_spec(line@))
            } else {
                Seq::<Seq<char>>::empty()
            }));
            if order_line_kept(line@) {
                assert(names_of(res0) + parse_lines(lines_here) =~= names_of(result@));
            } else {
                assert(names_of(res0) + parse_lines(lines_here) =~= names_of(result@));
            }
            if !last {
                assert(names_of(res0) + parse_order_spec(suf) =~= names_of(result@)
                    + parse_order_spec(content@.skip(next_pos as int)));
            }
        }
        pos = next_pos;
        if last {
            done = true;
            proof {
                assert(names_of(result@) =~= parse_order_spec(content@));
            }
        }
    }
    result
}

/// Objects with strictly smaller priority stand strictly earlier in the
/// sorted list: if both `X` and `Y` are listed and `X` comes first in the
/// order file, every copy of `X` precedes every copy of `Y`; and every
/// listed object precedes every unlisted one.
pub proof fn lemma_order_respected(
    idx: Seq<int>,
    paths: Seq<String>,
    order: Seq<String>,
    r: Seq<String>,
    a: int,
    b: int,
)
    requires
        stable_sorted_by_order(idx, paths, order, r),
        0 <= a < r.len(),
        0 <= b < r.len(),
        path_priority(order, r[a]@) < path_priority(order, r[b]@),
    ensures
        a < b,
{
    if a >= b {
        if a == b {
        } else {
            assert(lex_before(path_keys(order, paths), idx[b], idx[a]));
            assert(path_keys(order, paths)[idx[a]] == path_priority(order, r[a]@));
            assert(path_keys(order, paths)[idx[b]] == path_priority(order, r[b]@));
        }
    }
}

/// Equal-priority objects keep their original relative order (stability).
pub proof fn lemma_order_stable(
    idx: Seq<int>,
    paths: Seq<String>,
    order: Seq<String>,
    r: Seq<String>,
    a: int,
    b: int,
)
    requires
        stable_sorted_by_order(idx, paths, order, r),
        0 <= a < b < r.len(),
        path_priority(order, r[a]@) == path_priority(order, r[b]@),
    ensures
        idx[a] < idx[b],
{
    assert(lex_before(path_keys(order, paths), idx[a], idx[b]));
    assert(path_keys(order, paths)[idx[a]] == path_priority(order, r[a]@));
    assert(path_keys(order, paths)[idx[b]] == path_priority(order, r[b]@));
}

} // verus!
