//! Lexicographic keys, a stable sort over them and selection of the least.

use crate::scalar::Scalar;
use vstd::prelude::*;

verus! {

/// Whether `left` precedes `right` lexicographically; a proper prefix precedes.
pub open spec fn key_before(left: Seq<i64>, right: Seq<i64>) -> bool
    decreases left.len(),
{
    if right.len() == 0 {
        false
    } else if left.len() == 0 {
        true
    } else if left[0] != right[0] {
        left[0] < right[0]
    } else {
        key_before(left.drop_first(), right.drop_first())
    }
}

/// The places of the components of a rank.
pub open spec fn rank_key(rank: Seq<Scalar>) -> Seq<i64> {
    rank.map_values(|part: Scalar| part.place() as i64)
}

/// Exactly one of two different keys precedes the other, and no key precedes itself.
pub proof fn lemma_key_total(left: Seq<i64>, right: Seq<i64>)
    ensures
        key_before(left, right) ==> !key_before(right, left) && left != right,
        left != right ==> key_before(left, right) || key_before(right, left),
    decreases left.len(),
{
    if left.len() > 0 && right.len() > 0 {
        lemma_key_total(left.drop_first(), right.drop_first());
        if left[0] == right[0] && left.drop_first() == right.drop_first() {
            assert(left =~= seq![left[0]] + left.drop_first());
            assert(right =~= seq![right[0]] + right.drop_first());
        }
    } else if left.len() == 0 && right.len() == 0 {
        assert(left =~= right);
    }
}

/// The order of keys is transitive.
pub proof fn lemma_key_transitive(first: Seq<i64>, second: Seq<i64>, third: Seq<i64>)
    requires
        key_before(first, second),
        key_before(second, third),
    ensures
        key_before(first, third),
    decreases first.len(),
{
    if first.len() > 0 && second.len() > 0 && third.len() > 0 && first[0] == second[0] && second[0]
        == third[0] {
        lemma_key_transitive(first.drop_first(), second.drop_first(), third.drop_first());
    }
}

/// Whether `left` precedes `right` lexicographically.
pub fn before(left: &Vec<i64>, right: &Vec<i64>) -> (result: bool)
    ensures
        result == key_before(left@, right@),
{
    let mut index: usize = 0;
    assert(left@.subrange(0, left@.len() as int) =~= left@);
    assert(right@.subrange(0, right@.len() as int) =~= right@);
    while index < left.len() && index < right.len() && left[index] == right[index]
        invariant
            index <= left@.len(),
            index <= right@.len(),
            key_before(left@, right@) == key_before(
                left@.subrange(index as int, left@.len() as int),
                right@.subrange(index as int, right@.len() as int),
            ),
        decreases left@.len() - index,
    {
        assert(left@.subrange(index as int, left@.len() as int).drop_first() =~= left@.subrange(
            index as int + 1,
            left@.len() as int,
        ));
        assert(right@.subrange(index as int, right@.len() as int).drop_first() =~= right@.subrange(
            index as int + 1,
            right@.len() as int,
        ));
        index += 1;
    }
    if index >= right.len() {
        false
    } else if index >= left.len() {
        true
    } else {
        left[index] < right[index]
    }
}

/// The places of the components of a rank.
pub fn rank_places(rank: &Vec<Scalar>) -> (key: Vec<i64>)
    ensures
        key@ == rank_key(rank@),
{
    let mut key: Vec<i64> = Vec::new();
    let mut index: usize = 0;
    while index < rank.len()
        invariant
            index <= rank@.len(),
            key@ == rank_key(rank@.subrange(0, index as int)),
        decreases rank@.len() - index,
    {
        key.push(rank[index].key());
        index += 1;
        assert(key@ =~= rank_key(rank@.subrange(0, index as int)));
    }
    assert(rank@.subrange(0, index as int) =~= rank@);
    key
}

/// The keys that a vector of vectors holds.
pub open spec fn key_views(keys: Seq<Vec<i64>>) -> Seq<Seq<i64>> {
    keys.map_values(|key: Vec<i64>| key@)
}

/// Whether position `left` comes before position `right` in the stable order of
/// `keys`: by key, then by position.
pub open spec fn stable_before(keys: Seq<Seq<i64>>, left: int, right: int) -> bool {
    key_before(keys[left], keys[right]) || (keys[left] == keys[right] && left < right)
}

/// Whether `order` lists positions below `count` without repetition.
pub open spec fn distinct_positions(order: Seq<usize>, count: nat) -> bool {
    &&& forall|i: int| 0 <= i < order.len() ==> (#[trigger] order[i]) < count
    &&& forall|i: int, j: int|
        0 <= i < order.len() && 0 <= j < order.len() && i != j ==> #[trigger] order[i]
            != #[trigger] order[j]
}

/// Whether `order` lists every position of `keys` once, each after those that
/// precede it in the stable order.
pub open spec fn is_stable_order(keys: Seq<Seq<i64>>, order: Seq<usize>) -> bool {
    &&& order.len() == keys.len()
    &&& distinct_positions(order, keys.len())
    &&& forall|i: int, j: int|
        0 <= i < j < order.len() ==> stable_before(
            keys,
            #[trigger] order[i] as int,
            #[trigger] order[j] as int,
        )
}

proof fn lemma_stable_total(keys: Seq<Seq<i64>>, left: int, right: int)
    ensures
        stable_before(keys, left, right) ==> !stable_before(keys, right, left) && left != right,
        left != right ==> stable_before(keys, left, right) || stable_before(keys, right, left),
{
    lemma_key_total(keys[left], keys[right]);
}

proof fn lemma_stable_transitive(keys: Seq<Seq<i64>>, first: int, second: int, third: int)
    requires
        stable_before(keys, first, second),
        stable_before(keys, second, third),
    ensures
        stable_before(keys, first, third),
{
    if key_before(keys[first], keys[second]) && key_before(keys[second], keys[third]) {
        lemma_key_transitive(keys[first], keys[second], keys[third]);
    }
}

/// Whether position `left` precedes position `right` in the stable order.
fn precedes(keys: &Vec<Vec<i64>>, left: usize, right: usize) -> (result: bool)
    requires
        left < keys@.len(),
        right < keys@.len(),
    ensures
        result == stable_before(key_views(keys@), left as int, right as int),
{
    proof {
        lemma_key_total(keys@[left as int]@, keys@[right as int]@);
    }
    if before(&keys[left], &keys[right]) {
        true
    } else if before(&keys[right], &keys[left]) {
        false
    } else {
        left < right
    }
}

/// Whether `order` holds exactly the positions `from..to`, in the stable order.
spec fn orders_range(keys: Seq<Seq<i64>>, order: Seq<usize>, from: int, to: int) -> bool {
    &&& order.len() == to - from
    &&& forall|i: int| 0 <= i < order.len() ==> from <= #[trigger] order[i] < to
    &&& forall|i: int, j: int|
        0 <= i < j < order.len() ==> stable_before(
            keys,
            #[trigger] order[i] as int,
            #[trigger] order[j] as int,
        )
}

fn merge(keys: &Vec<Vec<i64>>, left: &Vec<usize>, right: &Vec<usize>, Ghost(from): Ghost<int>, Ghost(middle): Ghost<int>, Ghost(to): Ghost<int>) -> (merged: Vec<usize>)
    requires
        0 <= from <= middle <= to <= keys@.len(),
        orders_range(key_views(keys@), left@, from, middle),
        orders_range(key_views(keys@), right@, middle, to),
    ensures
        orders_range(key_views(keys@), merged@, from, to),
{
    let ghost views = key_views(keys@);
    let mut merged: Vec<usize> = Vec::new();
    let mut first: usize = 0;
    let mut second: usize = 0;
    while first < left.len() || second < right.len()
        invariant
            views == key_views(keys@),
            0 <= from <= middle <= to <= keys@.len(),
            orders_range(views, left@, from, middle),
            orders_range(views, right@, middle, to),
            first <= left@.len(),
            second <= right@.len(),
            merged@.len() == first + second,
            forall|i: int| 0 <= i < merged@.len() ==> from <= #[trigger] merged@[i] < to,
            forall|i: int, j: int|
                0 <= i < j < merged@.len() ==> stable_before(
                    views,
                    #[trigger] merged@[i] as int,
                    #[trigger] merged@[j] as int,
                ),
            forall|i: int, j: int|
                0 <= i < merged@.len() && first <= j < left@.len() ==> stable_before(
                    views,
                    #[trigger] merged@[i] as int,
                    #[trigger] left@[j] as int,
                ),
            forall|i: int, j: int|
                0 <= i < merged@.len() && second <= j < right@.len() ==> stable_before(
                    views,
                    #[trigger] merged@[i] as int,
                    #[trigger] right@[j] as int,
                ),
        decreases left@.len() + right@.len() - first - second,
    {
        let ghost before_step = merged@;
        let take_left = second >= right.len() || (first < left.len() && precedes(
            keys,
            left[first],
            right[second],
        ));
        if take_left {
            assert forall|j: int| second <= j < right@.len() implies stable_before(
                views,
                left@[first as int] as int,
                #[trigger] right@[j] as int,
            ) by {
                if j > second {
                    lemma_stable_transitive(
                        views,
                        left@[first as int] as int,
                        right@[second as int] as int,
                        right@[j] as int,
                    );
                }
            }
            merged.push(left[first]);
            first += 1;
        } else {
            proof {
                if first < left@.len() {
                    lemma_stable_total(
                        views,
                        left@[first as int] as int,
                        right@[second as int] as int,
                    );
                }
            }
            assert forall|j: int| first <= j < left@.len() implies stable_before(
                views,
                right@[second as int] as int,
                #[trigger] left@[j] as int,
            ) by {
                if j > first {
                    lemma_stable_transitive(
                        views,
                        right@[second as int] as int,
                        left@[first as int] as int,
                        left@[j] as int,
                    );
                }
            }
            merged.push(right[second]);
            second += 1;
        }
    }
    merged
}

fn sort_range(keys: &Vec<Vec<i64>>, from: usize, to: usize) -> (order: Vec<usize>)
    requires
        from <= to <= keys@.len(),
    ensures
        orders_range(key_views(keys@), order@, from as int, to as int),
    decreases to - from,
{
    if to - from < 2 {
        let mut order: Vec<usize> = Vec::new();
        if from < to {
            order.push(from);
        }
        order
    } else {
        let middle = from + (to - from) / 2;
        let left = sort_range(keys, from, middle);
        let right = sort_range(keys, middle, to);
        merge(
            keys,
            &left,
            &right,
            Ghost(from as int),
            Ghost(middle as int),
            Ghost(to as int),
        )
    }
}

/// The positions of `keys` in ascending order of key; equal keys keep their order.
pub fn stable_order(keys: &Vec<Vec<i64>>) -> (order: Vec<usize>)
    ensures
        is_stable_order(key_views(keys@), order@),
{
    let order = sort_range(keys, 0, keys.len());
    assert forall|i: int, j: int|
        0 <= i < order@.len() && 0 <= j < order@.len() && i != j implies #[trigger] order@[i]
        != #[trigger] order@[j] by {
        if i < j {
            lemma_stable_total(key_views(keys@), order@[i] as int, order@[j] as int);
        } else {
            lemma_stable_total(key_views(keys@), order@[j] as int, order@[i] as int);
        }
    }
    order
}

/// Every position occurs in a stable order.
pub proof fn lemma_stable_order_covers(keys: Seq<Seq<i64>>, order: Seq<usize>, position: int)
    requires
        is_stable_order(keys, order),
        0 <= position < keys.len(),
    ensures
        exists|i: int| 0 <= i < order.len() && #[trigger] order[i] == position,
{
    lemma_covers(order, keys.len(), position);
}

/// A list of `count` different positions below `count` holds each of them.
pub proof fn lemma_covers(order: Seq<usize>, count: nat, position: int)
    requires
        order.len() == count,
        distinct_positions(order, count),
        0 <= position < count,
    ensures
        exists|i: int| 0 <= i < order.len() && #[trigger] order[i] == position,
{
    let listed = order.map_values(|value: usize| value as int);
    assert(listed.no_duplicates());
    listed.unique_seq_to_set();
    let all = vstd::set_lib::set_int_range(0, count as int);
    vstd::set_lib::lemma_int_range(0, count as int);
    assert(listed.to_set().subset_of(all)) by {
        assert forall|value: int| listed.to_set().contains(value) implies all.contains(value) by {
            let at = choose|i: int| 0 <= i < listed.len() && listed[i] == value;
            assert(order[at] < count);
        }
    }
    vstd::set_lib::lemma_subset_equality(listed.to_set(), all);
    assert(all.contains(position));
    assert(listed.to_set().contains(position));
    let at = choose|i: int| 0 <= i < listed.len() && listed[i] == position;
    assert(order[at] == position);
}

/// The stable order of keys is unique.
pub proof fn lemma_stable_order_unique(keys: Seq<Seq<i64>>, left: Seq<usize>, right: Seq<usize>)
    requires
        is_stable_order(keys, left),
        is_stable_order(keys, right),
    ensures
        left == right,
{
    assert forall|n: int| 0 <= n < left.len() implies left[n] == right[n] by {
        lemma_stable_prefix_unique(keys, left, right, n);
    }
    assert(left =~= right);
}

proof fn lemma_stable_prefix_unique(keys: Seq<Seq<i64>>, left: Seq<usize>, right: Seq<usize>, n: int)
    requires
        is_stable_order(keys, left),
        is_stable_order(keys, right),
        0 <= n < left.len(),
    ensures
        left[n] == right[n],
    decreases n,
{
    assert forall|m: int| 0 <= m < n implies left[m] == right[m] by {
        lemma_stable_prefix_unique(keys, left, right, m);
    }
    lemma_stable_order_covers(keys, right, left[n] as int);
    lemma_stable_order_covers(keys, left, right[n] as int);
    let in_right = choose|i: int| 0 <= i < right.len() && #[trigger] right[i] == left[n];
    let in_left = choose|i: int| 0 <= i < left.len() && #[trigger] left[i] == right[n];
    if in_right < n {
        assert(left[in_right] == right[in_right]);
    }
    if in_left < n {
        assert(right[in_left] == left[in_left]);
    }
    if in_right > n && in_left > n {
        lemma_stable_total(keys, left[n] as int, right[n] as int);
    }
}

/// Whether `position` is the first least of the keys that are present.
pub open spec fn is_least(keys: Seq<Option<Seq<i64>>>, position: int) -> bool {
    &&& 0 <= position < keys.len()
    &&& keys[position] is Some
    &&& forall|other: int|
        0 <= other < keys.len() && (#[trigger] keys[other]) is Some ==> !key_before(
            keys[other]->0,
            keys[position]->0,
        ) && (other < position ==> key_before(keys[position]->0, keys[other]->0))
}

/// The keys that a vector of optional vectors holds.
pub open spec fn optional_keys(keys: Seq<Option<Vec<i64>>>) -> Seq<Option<Seq<i64>>> {
    keys.map_values(
        |key: Option<Vec<i64>>|
            match key {
                Some(key) => Some(key@),
                None => None,
            },
    )
}

/// The first position of the least key that is present.
pub fn least(keys: &Vec<Option<Vec<i64>>>) -> (found: Option<usize>)
    ensures
        found is None <==> forall|i: int| 0 <= i < keys@.len() ==> (#[trigger] keys@[i]) is None,
        found matches Some(position) ==> is_least(optional_keys(keys@), position as int),
{
    let ghost views = optional_keys(keys@);
    let mut found: Option<usize> = None;
    let mut index: usize = 0;
    while index < keys.len()
        invariant
            views == optional_keys(keys@),
            index <= keys@.len(),
            found is None ==> forall|i: int| 0 <= i < index ==> (#[trigger] keys@[i]) is None,
            found matches Some(position) ==> {
                &&& position < index
                &&& keys@[position as int] is Some
                &&& forall|other: int|
                    0 <= other < index && (#[trigger] views[other]) is Some ==> !key_before(
                        views[other]->0,
                        views[position as int]->0,
                    ) && (other < position ==> key_before(
                        views[position as int]->0,
                        views[other]->0,
                    ))
            },
        decreases keys@.len() - index,
    {
        if let Some(key) = &keys[index] {
            assert(views[index as int] == Some(key@));
            match found {
                None => {
                    proof {
                        lemma_key_total(key@, key@);
                    }
                    found = Some(index);
                },
                Some(position) => {
                    if let Some(current) = &keys[position] {
                        assert(views[position as int] == Some(current@));
                        if before(key, current) {
                            proof {
                                lemma_key_total(key@, current@);
                                lemma_key_total(key@, key@);
                                assert forall|other: int|
                                    0 <= other < index && (#[trigger] views[other]) is Some implies key_before(
                                    key@,
                                    views[other]->0,
                                ) by {
                                    lemma_key_total(views[other]->0, current@);
                                    if views[other]->0 != current@ {
                                        lemma_key_transitive(key@, current@, views[other]->0);
                                    }
                                }
                                assert forall|other: int|
                                    0 <= other < index && (#[trigger] views[other]) is Some implies !key_before(
                                    views[other]->0,
                                    key@,
                                ) by {
                                    lemma_key_total(key@, views[other]->0);
                                }
                            }
                            found = Some(index);
                        }
                    }
                },
            }
        } else {
            assert(views[index as int] is None);
        }
        index += 1;
    }
    found
}

} // verus!
