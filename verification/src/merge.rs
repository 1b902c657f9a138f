//! The merge engine: combining a source tree into a target tree.
//!
//! The target's shape is authoritative. A `Nil` target becomes the source, a
//! `Nil` source changes nothing, a scalar is overwritten by a scalar of its own
//! kind, tables merge key by key and arrays index by index. Any other pairing
//! is a type error that names the target's kind and what the source held.

use crate::error::Error;
use crate::error::Failure;
use crate::error::found_of;
use crate::error::Unexpected;
use crate::value::items_model;
use crate::value::lemma_items_model;
use crate::value::Table;
use crate::value::Tree;
use crate::value::Value;
use vstd::prelude::*;

verus! {

/// Whether two trees are of the same kind.
pub open spec fn same_kind(a: Tree, b: Tree) -> bool {
    match (a, b) {
        (Tree::Nil, Tree::Nil) => true,
        (Tree::Integer(_), Tree::Integer(_)) => true,
        (Tree::Float(_), Tree::Float(_)) => true,
        (Tree::Boolean(_), Tree::Boolean(_)) => true,
        (Tree::String(_), Tree::String(_)) => true,
        (Tree::Table(_), Tree::Table(_)) => true,
        (Tree::Array(_), Tree::Array(_)) => true,
        _ => false,
    }
}

/// How a type error names the kind of a merge target.
pub open spec fn target_name(target: Tree) -> Seq<char> {
    match target {
        Tree::Nil => "nil"@,
        Tree::Integer(_) => "a integer"@,
        Tree::Float(_) => "a float"@,
        Tree::Boolean(_) => "a bool"@,
        Tree::String(_) => "a string"@,
        Tree::Table(_) => "a map"@,
        Tree::Array(_) => "a array"@,
    }
}

/// The source cannot be merged into the target at this level: both hold
/// something, and of different kinds.
pub open spec fn clashes(target: Tree, source: Tree) -> bool {
    !(target is Nil) && !(source is Nil) && !same_kind(target, source)
}

/// The type error of a clash.
pub open spec fn clash(target: Tree, source: Tree) -> Failure {
    Failure::Type { found: found_of(source), expected: target_name(target) }
}

/// `failure` is the error of a clash between the target and the source, at
/// the top or at some place that both reach.
pub open spec fn conflict(target: Tree, source: Tree, failure: Failure) -> bool
    decreases source,
{
    if clashes(target, source) {
        failure == clash(target, source)
    } else {
        match (target, source) {
            (Tree::Table(mt), Tree::Table(ms)) => exists|k: Seq<char>|
                #![trigger ms[k]]
                mt.contains_key(k) && ms.contains_key(k) && conflict(mt[k], ms[k], failure),
            (Tree::Array(lt), Tree::Array(ls)) => exists|i: int|
                #![trigger ls[i]]
                0 <= i < lt.len() && 0 <= i < ls.len() && conflict(lt[i], ls[i], failure),
            _ => false,
        }
    }
}

/// The source can be merged into the target: nothing clashes.
pub open spec fn mergeable(target: Tree, source: Tree) -> bool {
    forall|failure: Failure| !conflict(target, source, failure)
}

/// The target after the source has been merged into it.
pub open spec fn merged(target: Tree, source: Tree) -> Tree
    decreases source,
{
    match (target, source) {
        (_, Tree::Nil) => target,
        (Tree::Nil, _) => source,
        (Tree::Table(mt), Tree::Table(ms)) => Tree::Table(
            Map::new(
                |k: Seq<char>| mt.contains_key(k) || ms.contains_key(k),
                |k: Seq<char>|
                    if ms.contains_key(k) {
                        if mt.contains_key(k) {
                            merged(mt[k], ms[k])
                        } else {
                            ms[k]
                        }
                    } else {
                        mt[k]
                    },
            ),
        ),
        (Tree::Array(lt), Tree::Array(ls)) => Tree::Array(
            Seq::new(
                if lt.len() >= ls.len() {
                    lt.len()
                } else {
                    ls.len()
                },
                |i: int|
                    if 0 <= i < ls.len() {
                        if i < lt.len() {
                            merged(lt[i], ls[i])
                        } else {
                            ls[i]
                        }
                    } else {
                        lt[i]
                    },
            ),
        ),
        _ => source,
    }
}

/// Whether `part` is a part of `whole`: `Nil`, or the same scalar, or a table
/// with some of the entries of `whole`, each holding a part of what `whole`
/// holds there, or an array of parts of the first items of `whole`.
pub open spec fn part_of(part: Tree, whole: Tree) -> bool
    decreases whole,
{
    match (part, whole) {
        (Tree::Nil, _) => true,
        (Tree::Table(mp), Tree::Table(mw)) => forall|k: Seq<char>|
            #![trigger mp.contains_key(k)]
            mp.contains_key(k) ==> mw.contains_key(k) && part_of(mp[k], mw[k]),
        (Tree::Array(lp), Tree::Array(lw)) => lp.len() <= lw.len() && forall|i: int|
            #![trigger lw[i]]
            0 <= i < lp.len() ==> 0 <= i < lw.len() && part_of(lp[i], lw[i]),
        _ => part == whole,
    }
}

/// What a merge that failed leaves behind: the target merged with a part of
/// the source that could be merged.
pub open spec fn partly_merged(before: Tree, source: Tree, after: Tree) -> bool {
    exists|part: Tree|
        #![trigger part_of(part, source)]
        part_of(part, source) && mergeable(before, part) && after == merged(before, part)
}

/// Every tree is a part of itself.
pub proof fn lemma_part_of_itself(tree: Tree)
    ensures
        part_of(tree, tree),
    decreases tree,
{
    match tree {
        Tree::Table(entries) => {
            assert forall|k: Seq<char>|
                #![trigger entries.contains_key(k)]
                entries.contains_key(k) implies part_of(entries[k], entries[k]) by {
                broadcast use vstd::map::axiom_map_index_decreases_infinite;

                assert(entries.dom().contains(k));
                assert(tree->Table_0 == entries);
                lemma_part_of_itself(entries[k]);
            }
            lemma_part_of_table(entries, entries);
        },
        Tree::Array(items) => {
            assert forall|i: int| #![trigger items[i]] 0 <= i < items.len() implies part_of(
                items[i],
                items[i],
            ) by {
                broadcast use vstd::seq::axiom_seq_index_decreases;

                assert(decreases_to!(tree => tree->Array_0));
                assert(decreases_to!(items => items[i]));
                lemma_part_of_itself(items[i]);
            }
            lemma_part_of_array(items, items);
        },
        _ => {},
    }
}

/// A table is a part of another where each of its entries holds a part of
/// what the other holds under the same key.
pub proof fn lemma_part_of_table(part: Map<Seq<char>, Tree>, whole: Map<Seq<char>, Tree>)
    requires
        forall|k: Seq<char>|
            #![trigger part.contains_key(k)]
            part.contains_key(k) ==> whole.contains_key(k) && part_of(part[k], whole[k]),
    ensures
        part_of(Tree::Table(part), Tree::Table(whole)),
{
}

/// An array is a part of another where it is no longer and each of its items
/// is a part of the item of the other at the same place.
pub proof fn lemma_part_of_array(part: Seq<Tree>, whole: Seq<Tree>)
    requires
        part.len() <= whole.len(),
        forall|i: int| #![trigger whole[i]] 0 <= i < part.len() ==> part_of(part[i], whole[i]),
    ensures
        part_of(Tree::Array(part), Tree::Array(whole)),
{
    assert forall|i: int| #![trigger whole[i]] 0 <= i < part.len() implies 0 <= i < whole.len()
        && part_of(part[i], whole[i]) by {
        broadcast use vstd::seq::axiom_seq_index_decreases;

        let tree = Tree::Array(whole);
        assert(decreases_to!(tree => tree->Array_0));
        assert(decreases_to!(whole => whole[i]));
    }
}

/// How a merge that failed stopped: with which error, and leaving what.
///
/// A clash at the top leaves the target as it was and is the error. Two
/// arrays stop at the first place whose items do not merge: the places before
/// it are merged, the place itself stopped in the same way, and the places
/// after it are untouched. Two tables stop inside some entry that both have:
/// that entry stopped in the same way, some of the other entries of the
/// source are merged or added, and the rest of the target is untouched.
pub open spec fn stopped(before: Tree, source: Tree, failure: Failure, after: Tree) -> bool
    decreases source,
{
    if clashes(before, source) {
        failure == clash(before, source) && after == before
    } else {
        match (before, source, after) {
            (Tree::Table(mt), Tree::Table(ms), Tree::Table(ma)) => exists|
                k: Seq<char>,
                done: Set<Seq<char>>,
            |
                #![trigger ms[k], done.contains(k)]
                mt.contains_key(k) && ms.contains_key(k) && ma.contains_key(k) && !done.contains(k)
                    && table_stopped(mt, ms, ma, k, done) && stopped(mt[k], ms[k], failure, ma[k]),
            (Tree::Array(lt), Tree::Array(ls), Tree::Array(la)) => exists|i: int|
                #![trigger ls[i]]
                0 <= i < lt.len() && 0 <= i < ls.len() && la.len() == lt.len() && array_stopped(
                    lt,
                    ls,
                    la,
                    i,
                ) && stopped(lt[i], ls[i], failure, la[i]),
            _ => false,
        }
    }
}

/// What a merge of tables that stopped inside the entry `k` leaves outside
/// that entry: the entries of the source in `done` merged or added, and
/// everything else as it was.
pub open spec fn table_stopped(
    mt: Map<Seq<char>, Tree>,
    ms: Map<Seq<char>, Tree>,
    ma: Map<Seq<char>, Tree>,
    k: Seq<char>,
    done: Set<Seq<char>>,
) -> bool {
    &&& forall|x: Seq<char>|
        #![trigger done.contains(x)]
        done.contains(x) ==> ms.contains_key(x) && (mt.contains_key(x) ==> mergeable(
            mt[x],
            ms[x],
        ))
    &&& forall|x: Seq<char>|
        #![trigger ma.contains_key(x)]
        ma.contains_key(x) <==> mt.contains_key(x) || done.contains(x)
    &&& forall|x: Seq<char>|
        #![trigger ma[x]]
        ma.contains_key(x) && x != k ==> ma[x] == (if done.contains(x) {
            if mt.contains_key(x) {
                merged(mt[x], ms[x])
            } else {
                ms[x]
            }
        } else {
            mt[x]
        })
}

/// What a merge of arrays that stopped at the place `i` leaves at the other
/// places: every place before it merged, which it could be, and every place
/// after it as it was.
pub open spec fn array_stopped(lt: Seq<Tree>, ls: Seq<Tree>, la: Seq<Tree>, i: int) -> bool {
    &&& forall|j: int|
        #![trigger la[j]]
        0 <= j < i ==> mergeable(lt[j], ls[j]) && la[j] == merged(lt[j], ls[j])
    &&& forall|j: int| #![trigger la[j]] i < j < lt.len() ==> la[j] == lt[j]
}

/// A merge of tables that stopped inside an entry stopped.
pub proof fn lemma_stopped_in_table(
    mt: Map<Seq<char>, Tree>,
    ms: Map<Seq<char>, Tree>,
    ma: Map<Seq<char>, Tree>,
    k: Seq<char>,
    done: Set<Seq<char>>,
    failure: Failure,
)
    requires
        mt.contains_key(k),
        ms.contains_key(k),
        ma.contains_key(k),
        !done.contains(k),
        table_stopped(mt, ms, ma, k, done),
        stopped(mt[k], ms[k], failure, ma[k]),
    ensures
        stopped(Tree::Table(mt), Tree::Table(ms), failure, Tree::Table(ma)),
{
    broadcast use vstd::map::axiom_map_index_decreases_infinite;

    let source = Tree::Table(ms);
    assert(source->Table_0 == ms);
    assert(ms.dom().contains(k));
    assert(!done.contains(k) && stopped(mt[k], ms[k], failure, ma[k]));
}

/// A merge of arrays that stopped at a place stopped.
pub proof fn lemma_stopped_in_array(
    lt: Seq<Tree>,
    ls: Seq<Tree>,
    la: Seq<Tree>,
    i: int,
    failure: Failure,
)
    requires
        0 <= i < lt.len(),
        0 <= i < ls.len(),
        la.len() == lt.len(),
        array_stopped(lt, ls, la, i),
        stopped(lt[i], ls[i], failure, la[i]),
    ensures
        stopped(Tree::Array(lt), Tree::Array(ls), failure, Tree::Array(la)),
{
    broadcast use vstd::seq::axiom_seq_index_decreases;

    let source = Tree::Array(ls);
    assert(decreases_to!(source => source->Array_0));
    assert(decreases_to!(ls => ls[i]));
    assert(0 <= i < ls.len() && stopped(lt[i], ls[i], failure, la[i]));
}

/// A target that is left as it was is partly merged: with nothing.
pub proof fn lemma_nothing_merged(before: Tree, source: Tree)
    ensures
        partly_merged(before, source, before),
{
    assert(part_of(Tree::Nil, source) && mergeable(before, Tree::Nil) && before == merged(
        before,
        Tree::Nil,
    ));
}

/// Merging `Nil` into a tree never fails and changes nothing.
pub proof fn lemma_merge_of_nil(target: Tree)
    ensures
        mergeable(target, Tree::Nil),
        merged(target, Tree::Nil) == target,
{
}

/// Merging into `Nil` never fails and yields the source.
pub proof fn lemma_merge_into_nil(source: Tree)
    ensures
        mergeable(Tree::Nil, source),
        merged(Tree::Nil, source) == source,
{
}

/// A scalar takes the payload of a source of its own kind.
pub proof fn lemma_merge_of_scalars(target: Tree, source: Tree)
    requires
        same_kind(target, source),
        !(target is Table),
        !(target is Array),
    ensures
        mergeable(target, source),
        merged(target, source) == source,
{
}

/// Where two things of different kinds meet, neither of them `Nil`, the
/// merge fails with the type error that names the kind of the target and
/// what the source held.
pub proof fn lemma_merge_of_clash(target: Tree, source: Tree)
    requires
        clashes(target, source),
    ensures
        !mergeable(target, source),
        forall|failure: Failure| conflict(target, source, failure) <==> failure == clash(
            target,
            source,
        ),
{
    assert(conflict(target, source, clash(target, source)));
}

/// The merge of two tables has the keys of both. A key of the source alone
/// brings its value, a key of the target alone keeps its value, and under a
/// key of both stands the merge of the two values.
pub proof fn lemma_merge_of_tables(target: Map<Seq<char>, Tree>, source: Map<Seq<char>, Tree>)
    ensures
        merged(Tree::Table(target), Tree::Table(source)) is Table,
        ({
            let whole = merged(Tree::Table(target), Tree::Table(source))->Table_0;
            &&& forall|k: Seq<char>|
                whole.contains_key(k) <==> target.contains_key(k) || source.contains_key(k)
            &&& forall|k: Seq<char>|
                source.contains_key(k) && !target.contains_key(k) ==> whole[k] == source[k]
            &&& forall|k: Seq<char>|
                target.contains_key(k) && !source.contains_key(k) ==> whole[k] == target[k]
            &&& forall|k: Seq<char>|
                target.contains_key(k) && source.contains_key(k) ==> whole[k] == merged(
                    target[k],
                    source[k],
                )
        }),
{
}

/// The merge of two arrays is as long as the longer of them. Where both
/// have an item stands the merge of the two, and beyond the end of one stand
/// the items of the other.
pub proof fn lemma_merge_of_arrays(target: Seq<Tree>, source: Seq<Tree>)
    ensures
        merged(Tree::Array(target), Tree::Array(source)) is Array,
        ({
            let whole = merged(Tree::Array(target), Tree::Array(source))->Array_0;
            &&& whole.len() == if target.len() >= source.len() {
                target.len()
            } else {
                source.len()
            }
            &&& forall|i: int|
                0 <= i < target.len() && i < source.len() ==> whole[i] == merged(
                    target[i],
                    source[i],
                )
            &&& forall|i: int| source.len() <= i < target.len() ==> whole[i] == target[i]
            &&& forall|i: int| target.len() <= i < source.len() ==> whole[i] == source[i]
        }),
{
}

/// Where two tables can be merged, so can the values under every key that
/// both have.
pub proof fn lemma_mergeable_entries(
    mt: Map<Seq<char>, Tree>,
    ms: Map<Seq<char>, Tree>,
    key: Seq<char>,
)
    requires
        mergeable(Tree::Table(mt), Tree::Table(ms)),
        mt.contains_key(key),
        ms.contains_key(key),
    ensures
        mergeable(mt[key], ms[key]),
{
    assert forall|failure: Failure| !conflict(mt[key], ms[key], failure) by {
        if conflict(mt[key], ms[key], failure) {
            lemma_conflict_in_table(mt, ms, key, failure);
        }
    }
}

/// Where two arrays can be merged, so can the items at every place that
/// both have.
pub proof fn lemma_mergeable_items(lt: Seq<Tree>, ls: Seq<Tree>, i: int)
    requires
        mergeable(Tree::Array(lt), Tree::Array(ls)),
        0 <= i < lt.len(),
        0 <= i < ls.len(),
    ensures
        mergeable(lt[i], ls[i]),
{
    assert forall|failure: Failure| !conflict(lt[i], ls[i], failure) by {
        if conflict(lt[i], ls[i], failure) {
            lemma_conflict_in_array(lt, ls, i, failure);
        }
    }
}

/// Merging a tree into itself never fails and changes nothing.
pub proof fn lemma_merge_of_itself(tree: Tree)
    ensures
        mergeable(tree, tree),
        merged(tree, tree) == tree,
    decreases tree,
{
    match tree {
        Tree::Table(entries) => {
            assert forall|k: Seq<char>|
                #![trigger mergeable(entries[k], entries[k])]
                #![trigger merged(entries[k], entries[k])]
                entries.contains_key(k) implies mergeable(entries[k], entries[k]) && merged(
                entries[k],
                entries[k],
            ) == entries[k] by {
                broadcast use vstd::map::axiom_map_index_decreases_infinite;

                assert(entries.dom().contains(k));
                assert(tree->Table_0 == entries);
                lemma_merge_of_itself(entries[k]);
            }
            lemma_mergeable_tables(entries, entries);
            lemma_merge_of_tables(entries, entries);
            let whole = merged(tree, tree)->Table_0;
            assert forall|k: Seq<char>| whole.contains_key(k) implies whole[k] == entries[k] by {
                assert(whole[k] == merged(entries[k], entries[k]));
            }
            assert(whole =~= entries);
        },
        Tree::Array(items) => {
            assert forall|i: int|
                #![trigger mergeable(items[i], items[i])]
                #![trigger merged(items[i], items[i])]
                0 <= i < items.len() implies mergeable(items[i], items[i]) && merged(
                items[i],
                items[i],
            ) == items[i] by {
                broadcast use vstd::seq::axiom_seq_index_decreases;

                assert(decreases_to!(tree => tree->Array_0));
                assert(decreases_to!(items => items[i]));
                lemma_merge_of_itself(items[i]);
            }
            lemma_mergeable_arrays(items, items);
            lemma_merge_of_arrays(items, items);
            let whole = merged(tree, tree)->Array_0;
            assert forall|i: int| 0 <= i < whole.len() implies whole[i] == items[i] by {
                assert(whole[i] == merged(items[i], items[i]));
            }
            assert(whole =~= items);
        },
        _ => {},
    }
}

/// Merging the same source a second time never fails and changes nothing.
pub proof fn lemma_merge_twice(target: Tree, source: Tree)
    requires
        mergeable(target, source),
    ensures
        mergeable(merged(target, source), source),
        merged(merged(target, source), source) == merged(target, source),
    decreases source,
{
    let once = merged(target, source);
    match (target, source) {
        (_, Tree::Nil) => {},
        (Tree::Nil, _) => {
            lemma_merge_of_itself(source);
        },
        (Tree::Table(mt), Tree::Table(ms)) => {
            let mo = once->Table_0;
            assert forall|k: Seq<char>|
                #![trigger mergeable(mo[k], ms[k])]
                #![trigger merged(mo[k], ms[k])]
                mo.contains_key(k) && ms.contains_key(k) implies mergeable(mo[k], ms[k]) && merged(
                mo[k],
                ms[k],
            ) == mo[k] by {
                broadcast use vstd::map::axiom_map_index_decreases_infinite;

                assert(ms.dom().contains(k));
                assert(source->Table_0 == ms);
                if mt.contains_key(k) {
                    lemma_mergeable_entries(mt, ms, k);
                    lemma_merge_twice(mt[k], ms[k]);
                } else {
                    lemma_merge_of_itself(ms[k]);
                }
            }
            lemma_mergeable_tables(mo, ms);
            lemma_merge_of_tables(mt, ms);
            lemma_merge_of_tables(mo, ms);
            let twice = merged(once, source)->Table_0;
            assert forall|k: Seq<char>| twice.contains_key(k) implies twice[k] == mo[k] by {
                if ms.contains_key(k) {
                    assert(twice[k] == merged(mo[k], ms[k]));
                }
            }
            assert(twice =~= mo);
        },
        (Tree::Array(lt), Tree::Array(ls)) => {
            let lo = once->Array_0;
            assert forall|i: int|
                #![trigger mergeable(lo[i], ls[i])]
                #![trigger merged(lo[i], ls[i])]
                0 <= i < lo.len() && 0 <= i < ls.len() implies mergeable(lo[i], ls[i]) && merged(
                lo[i],
                ls[i],
            ) == lo[i] by {
                broadcast use vstd::seq::axiom_seq_index_decreases;

                assert(decreases_to!(source => source->Array_0));
                assert(decreases_to!(ls => ls[i]));
                if i < lt.len() {
                    lemma_mergeable_items(lt, ls, i);
                    lemma_merge_twice(lt[i], ls[i]);
                } else {
                    lemma_merge_of_itself(ls[i]);
                }
            }
            lemma_mergeable_arrays(lo, ls);
            lemma_merge_of_arrays(lt, ls);
            lemma_merge_of_arrays(lo, ls);
            let twice = merged(once, source)->Array_0;
            assert forall|i: int| 0 <= i < twice.len() implies twice[i] == lo[i] by {
                if i < ls.len() {
                    assert(twice[i] == merged(lo[i], ls[i]));
                }
            }
            assert(twice =~= lo);
        },
        _ => {
            if clashes(target, source) {
                assert(conflict(target, source, clash(target, source)));
            }
        },
    }
}

/// The merge of two tables while the entries in `rest` of the source are
/// still to come.
pub open spec fn merged_entries(
    mt: Map<Seq<char>, Tree>,
    ms: Map<Seq<char>, Tree>,
    rest: Map<Seq<char>, Tree>,
) -> Map<Seq<char>, Tree> {
    Map::new(
        |k: Seq<char>| mt.contains_key(k) || (ms.contains_key(k) && !rest.contains_key(k)),
        |k: Seq<char>|
            if ms.contains_key(k) && !rest.contains_key(k) {
                if mt.contains_key(k) {
                    merged(mt[k], ms[k])
                } else {
                    ms[k]
                }
            } else {
                mt[k]
            },
    )
}

/// A conflict under a key that two tables share is a conflict of the tables.
pub proof fn lemma_conflict_in_table(
    mt: Map<Seq<char>, Tree>,
    ms: Map<Seq<char>, Tree>,
    key: Seq<char>,
    failure: Failure,
)
    requires
        mt.contains_key(key),
        ms.contains_key(key),
        conflict(mt[key], ms[key], failure),
    ensures
        conflict(Tree::Table(mt), Tree::Table(ms), failure),
{
    broadcast use vstd::map::axiom_map_index_decreases_infinite;

    let source = Tree::Table(ms);
    assert(source->Table_0 == ms);
    assert(ms.dom().contains(key));
    assert(mt.contains_key(key) && ms.contains_key(key) && conflict(mt[key], ms[key], failure));
}

/// Two tables are mergeable where the values under every shared key are.
pub proof fn lemma_mergeable_tables(mt: Map<Seq<char>, Tree>, ms: Map<Seq<char>, Tree>)
    requires
        forall|k: Seq<char>|
            mt.contains_key(k) && ms.contains_key(k) ==> #[trigger] mergeable(mt[k], ms[k]),
    ensures
        mergeable(Tree::Table(mt), Tree::Table(ms)),
{
    assert forall|failure: Failure| !conflict(Tree::Table(mt), Tree::Table(ms), failure) by {
        if conflict(Tree::Table(mt), Tree::Table(ms), failure) {
            assert(!clashes(Tree::Table(mt), Tree::Table(ms)));
            let k = choose|k: Seq<char>|
                #![trigger ms[k]]
                mt.contains_key(k) && ms.contains_key(k) && conflict(mt[k], ms[k], failure);
            assert(mergeable(mt[k], ms[k]));
        }
    }
}

/// A conflict at a place that two arrays share is a conflict of the arrays.
pub proof fn lemma_conflict_in_array(lt: Seq<Tree>, ls: Seq<Tree>, i: int, failure: Failure)
    requires
        0 <= i < lt.len(),
        0 <= i < ls.len(),
        conflict(lt[i], ls[i], failure),
    ensures
        conflict(Tree::Array(lt), Tree::Array(ls), failure),
{
    broadcast use vstd::seq::axiom_seq_index_decreases;

    let source = Tree::Array(ls);
    assert(decreases_to!(source => source->Array_0));
    assert(decreases_to!(ls => ls[i]));
    assert(0 <= i < lt.len() && 0 <= i < ls.len() && conflict(lt[i], ls[i], failure));
}

/// Two arrays are mergeable where the items at every shared place are.
pub proof fn lemma_mergeable_arrays(lt: Seq<Tree>, ls: Seq<Tree>)
    requires
        forall|i: int| 0 <= i < lt.len() && 0 <= i < ls.len() ==> #[trigger] mergeable(lt[i], ls[i]),
    ensures
        mergeable(Tree::Array(lt), Tree::Array(ls)),
{
    assert forall|failure: Failure| !conflict(Tree::Array(lt), Tree::Array(ls), failure) by {
        if conflict(Tree::Array(lt), Tree::Array(ls), failure) {
            assert(!clashes(Tree::Array(lt), Tree::Array(ls)));
            let i = choose|i: int|
                #![trigger ls[i]]
                0 <= i < lt.len() && 0 <= i < ls.len() && conflict(lt[i], ls[i], failure);
            assert(mergeable(lt[i], ls[i]));
        }
    }
}

/// Merges the entries of the source table into the target table.
fn merge_tables(target: &mut Table, source: Table) -> (r: Result<(), Error>)
    ensures
        match r {
            Ok(()) => mergeable(Tree::Table(old(target)@), Tree::Table(source@)) && Tree::Table(
                final(target)@,
            ) == merged(Tree::Table(old(target)@), Tree::Table(source@)),
            Err(e) => conflict(Tree::Table(old(target)@), Tree::Table(source@), e@)
                && partly_merged(
                Tree::Table(old(target)@),
                Tree::Table(source@),
                Tree::Table(final(target)@),
            ) && stopped(
                Tree::Table(old(target)@),
                Tree::Table(source@),
                e@,
                Tree::Table(final(target)@),
            ),
        },
    decreases source,
{
    let ghost mt = target@;
    let ghost ms = source@;
    let mut rest = source;
    proof {
        use_type_invariant(&rest);
        assert(target@ =~= merged_entries(mt, ms, rest@));
    }
    loop
        invariant
            source.inv(),
            rest.size() <= source.size(),
            forall|j: int| 0 <= j < rest.size() ==> rest.value_at(j) == source.value_at(j),
            forall|k: Seq<char>| #[trigger]
                rest@.contains_key(k) ==> ms.contains_key(k) && rest@[k] == ms[k],
            target@ == merged_entries(mt, ms, rest@),
            forall|k: Seq<char>|
                mt.contains_key(k) && ms.contains_key(k) && !rest@.contains_key(k)
                    ==> #[trigger] mergeable(mt[k], ms[k]),
            mt == old(target)@,
            ms == source@,
        decreases rest.size(),
    {
        let ghost before = rest@;
        let ghost current = target@;
        match rest.pop() {
            None => {
                proof {
                    assert(target@ =~= merged(Tree::Table(mt), Tree::Table(ms))->Table_0);
                    lemma_mergeable_tables(mt, ms);
                }
                return Ok(());
            },
            Some((key, value)) => {
                proof {
                    source.lemma_value_smaller(rest.size() as int);
                    assert(before.contains_key(key@));
                }
                match target.position(key.as_str()) {
                    Some(i) => {
                        assert(mt.contains_key(key@) && current[key@] == mt[key@]);
                        let place = target.slot(i);
                        match place.merge(value) {
                            Ok(()) => {
                                proof {
                                    assert(target@ =~= merged_entries(mt, ms, rest@));
                                }
                            },
                            Err(e) => {
                                proof {
                                    lemma_conflict_in_table(mt, ms, key@, e@);
                                    let k = key@;
                                    let done = Set::new(
                                        |x: Seq<char>|
                                            ms.contains_key(x) && !before.contains_key(x),
                                    );
                                    assert(table_stopped(mt, ms, target@, k, done)) by {
                                        assert forall|x: Seq<char>|
                                            #![trigger done.contains(x)]
                                            done.contains(x) implies ms.contains_key(x) && (
                                        mt.contains_key(x) ==> mergeable(mt[x], ms[x])) by {}
                                    }
                                    lemma_stopped_in_table(mt, ms, target@, k, done, e@);
                                    let left = target@[k];
                                    let part_k = choose|p: Tree|
                                        #![trigger part_of(p, ms[k])]
                                        part_of(p, ms[k]) && mergeable(mt[k], p) && left == merged(
                                            mt[k],
                                            p,
                                        );
                                    let part = Map::new(
                                        |x: Seq<char>|
                                            x == k || (ms.contains_key(x) && !before.contains_key(x)),
                                        |x: Seq<char>|
                                            if x == k {
                                                part_k
                                            } else {
                                                ms[x]
                                            },
                                    );
                                    assert forall|x: Seq<char>|
                                        #![trigger part.contains_key(x)]
                                        part.contains_key(x) implies ms.contains_key(x) && part_of(
                                        part[x],
                                        ms[x],
                                    ) by {
                                        if x != k {
                                            lemma_part_of_itself(ms[x]);
                                        }
                                    }
                                    lemma_part_of_table(part, ms);
                                    assert forall|x: Seq<char>|
                                        mt.contains_key(x) && part.contains_key(x) implies #[trigger]
                                        mergeable(mt[x], part[x]) by {
                                        if x != k {
                                            assert(mergeable(mt[x], ms[x]));
                                        }
                                    }
                                    lemma_mergeable_tables(mt, part);
                                    assert(target@ =~= merged(
                                        Tree::Table(mt),
                                        Tree::Table(part),
                                    )->Table_0);
                                    assert(part_of(Tree::Table(part), Tree::Table(ms)) && mergeable(
                                        Tree::Table(mt),
                                        Tree::Table(part),
                                    ) && Tree::Table(target@) == merged(
                                        Tree::Table(mt),
                                        Tree::Table(part),
                                    ));
                                }
                                return Err(e);
                            },
                        }
                    },
                    None => {
                        assert(!mt.contains_key(key@));
                        target.insert(key, value);
                        proof {
                            assert(target@ =~= merged_entries(mt, ms, rest@));
                        }
                    },
                }
            },
        }
    }
}

/// Merges the items of the source array into the target array, place by
/// place; what the source has beyond the target's length is appended.
fn merge_arrays(target: &mut Vec<Value>, source: Vec<Value>) -> (r: Result<(), Error>)
    ensures
        match r {
            Ok(()) => mergeable(
                Tree::Array(items_model(old(target)@)),
                Tree::Array(items_model(source@)),
            ) && Tree::Array(items_model(final(target)@)) == merged(
                Tree::Array(items_model(old(target)@)),
                Tree::Array(items_model(source@)),
            ),
            Err(e) => conflict(
                Tree::Array(items_model(old(target)@)),
                Tree::Array(items_model(source@)),
                e@,
            ) && partly_merged(
                Tree::Array(items_model(old(target)@)),
                Tree::Array(items_model(source@)),
                Tree::Array(items_model(final(target)@)),
            ) && stopped(
                Tree::Array(items_model(old(target)@)),
                Tree::Array(items_model(source@)),
                e@,
                Tree::Array(items_model(final(target)@)),
            ),
        },
    decreases source,
{
    let ghost lt = items_model(target@);
    let ghost ls = items_model(source@);
    let mut rest = source;
    let count = rest.len();
    let mut i: usize = 0;
    proof {
        lemma_items_model(target@);
        lemma_items_model(source@);
    }
    while i < count
        invariant
            i <= count,
            count == source.len(),
            rest.len() == count,
            forall|j: int| i <= j < count ==> rest[j] == source[j],
            lt == items_model(old(target)@),
            ls == items_model(source@),
            lt.len() == old(target).len(),
            ls.len() == count,
            target.len() == (if lt.len() >= i {
                lt.len()
            } else {
                i as nat
            }),
            forall|j: int|
                0 <= j < target.len() ==> #[trigger] target[j]@ == (if j < i {
                    if j < lt.len() {
                        merged(lt[j], ls[j])
                    } else {
                        ls[j]
                    }
                } else {
                    lt[j]
                }),
            forall|j: int| 0 <= j < i && j < lt.len() ==> #[trigger] mergeable(lt[j], ls[j]),
        decreases count - i,
    {
        let mut item = Value::Nil;
        core::mem::swap(&mut rest[i], &mut item);
        proof {
            broadcast use vstd::std_specs::vec::axiom_vec_index_decreases;

            assert(item == source[i as int]);
            assert(decreases_to!(source => source[i as int]));
            lemma_items_model(source@);
        }
        if i < target.len() {
            let ghost current = target@;
            let place = &mut target[i];
            match place.merge(item) {
                Ok(()) => {},
                Err(e) => {
                    proof {
                        lemma_conflict_in_array(lt, ls, i as int, e@);
                        lemma_items_model(target@);
                        lemma_items_model(current);
                        assert(array_stopped(lt, ls, items_model(target@), i as int));
                        lemma_stopped_in_array(lt, ls, items_model(target@), i as int, e@);
                        let left = target@[i as int]@;
                        let part_i = choose|p: Tree|
                            #![trigger part_of(p, ls[i as int])]
                            part_of(p, ls[i as int]) && mergeable(lt[i as int], p) && left
                                == merged(lt[i as int], p);
                        let part = Seq::new(
                            (i + 1) as nat,
                            |j: int|
                                if j < i {
                                    ls[j]
                                } else {
                                    part_i
                                },
                        );
                        assert forall|j: int| #![trigger ls[j]] 0 <= j < part.len() implies part_of(
                            part[j],
                            ls[j],
                        ) by {
                            if j < i {
                                lemma_part_of_itself(ls[j]);
                            }
                        }
                        lemma_part_of_array(part, ls);
                        assert forall|j: int|
                            0 <= j < lt.len() && 0 <= j < part.len() implies #[trigger] mergeable(
                            lt[j],
                            part[j],
                        ) by {
                            if j < i {
                                assert(mergeable(lt[j], ls[j]));
                            }
                        }
                        lemma_mergeable_arrays(lt, part);
                        assert(items_model(target@) =~= merged(
                            Tree::Array(lt),
                            Tree::Array(part),
                        )->Array_0);
                        assert(part_of(Tree::Array(part), Tree::Array(ls)) && mergeable(
                            Tree::Array(lt),
                            Tree::Array(part),
                        ) && Tree::Array(items_model(target@)) == merged(
                            Tree::Array(lt),
                            Tree::Array(part),
                        ));
                    }
                    return Err(e);
                },
            }
        } else {
            target.push(item);
        }
        i += 1;
    }
    proof {
        lemma_items_model(target@);
        let whole = merged(Tree::Array(lt), Tree::Array(ls));
        assert(items_model(target@) =~= whole->Array_0);
        lemma_mergeable_arrays(lt, ls);
    }
    Ok(())
}

impl Value {
    /// Merges `source` into the value.
    ///
    /// Succeeds exactly when nothing clashes, and then the value is the merge
    /// of what it was with the source. Where something clashes the result is
    /// the type error of the first clash that is met, and the value is what
    /// it was merged with the part of the source that came before the clash:
    /// see [`stopped`].
    pub fn merge(&mut self, source: Value) -> (r: Result<(), Error>)
        ensures
            match r {
                Ok(()) => mergeable(old(self)@, source@) && final(self)@ == merged(
                    old(self)@,
                    source@,
                ),
                Err(e) => conflict(old(self)@, source@, e@) && partly_merged(
                    old(self)@,
                    source@,
                    final(self)@,
                ) && stopped(old(self)@, source@, e@, final(self)@),
            },
            clashes(old(self)@, source@) ==> r is Err && final(self)@ == old(self)@,
        decreases source,
    {
        if matches!(source, Value::Nil) {
            return Ok(());
        }
        proof {
            lemma_nothing_merged(self@, source@);
        }
        match self {
            Value::Nil => {
                *self = source;
                Ok(())
            },
            Value::Boolean(target) => match source {
                Value::Boolean(b) => {
                    *target = b;
                    Ok(())
                },
                other => Err(Error::invalid_type(Unexpected::describing(&other), "a bool")),
            },
            Value::Integer(target) => match source {
                Value::Integer(n) => {
                    *target = n;
                    Ok(())
                },
                other => Err(Error::invalid_type(Unexpected::describing(&other), "a integer")),
            },
            Value::Float(target) => match source {
                Value::Float(f) => {
                    *target = f;
                    Ok(())
                },
                other => Err(Error::invalid_type(Unexpected::describing(&other), "a float")),
            },
            Value::String(target) => match source {
                Value::String(s) => {
                    *target = s;
                    Ok(())
                },
                other => Err(Error::invalid_type(Unexpected::describing(&other), "a string")),
            },
            Value::Table(target) => match source {
                Value::Table(entries) => {
                    assert(decreases_to!(source => source->Table_0));
                    merge_tables(target, entries)
                },
                other => Err(Error::invalid_type(Unexpected::describing(&other), "a map")),
            },
            Value::Array(target) => match source {
                Value::Array(items) => {
                    assert(decreases_to!(source => source->Array_0));
                    merge_arrays(target, items)
                },
                other => Err(Error::invalid_type(Unexpected::describing(&other), "a array")),
            },
        }
    }
}

} // verus!
