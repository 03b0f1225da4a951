//! Sequences that are put together piece by piece.
//!
//! Many results of this crate are described as "for each entry in order, these items": the
//! change list of a diff, the steps of a plan, the routes read out of a table. [`gathered`]
//! is that description, and the lemmas here are the facts about it that proofs share.

use vstd::prelude::*;

verus! {

/// The concatenation of `piece(0)`, `piece(1)`, up to `piece(n - 1)`.
pub open spec fn gathered<A>(n: nat, piece: spec_fn(int) -> Seq<A>) -> Seq<A>
    decreases n,
{
    if n == 0 {
        Seq::empty()
    } else {
        gathered((n - 1) as nat, piece) + piece(n - 1)
    }
}

/// The sequence that holds `value` when there is one.
pub open spec fn optional<A>(value: Option<A>) -> Seq<A> {
    match value {
        Some(a) => seq![a],
        None => Seq::empty(),
    }
}

/// The sequence that holds `value` when `present`.
pub open spec fn given<A>(present: bool, value: A) -> Seq<A> {
    if present {
        seq![value]
    } else {
        Seq::empty()
    }
}

/// Pieces that agree below `n` give the same concatenation.
pub proof fn lemma_gathered_congruent<A>(
    n: nat,
    left: spec_fn(int) -> Seq<A>,
    right: spec_fn(int) -> Seq<A>,
)
    requires
        forall|i: int| 0 <= i < n ==> #[trigger] left(i) == right(i),
    ensures
        gathered(n, left) == gathered(n, right),
    decreases n,
{
    if n > 0 {
        lemma_gathered_congruent((n - 1) as nat, left, right);
        assert(left(n - 1) == right(n - 1));
    }
}

/// Empty pieces give nothing.
pub proof fn lemma_gathered_empty<A>(n: nat, piece: spec_fn(int) -> Seq<A>)
    requires
        forall|i: int| 0 <= i < n ==> (#[trigger] piece(i)).len() == 0,
    ensures
        gathered(n, piece) == Seq::<A>::empty(),
    decreases n,
{
    if n > 0 {
        lemma_gathered_empty((n - 1) as nat, piece);
        assert(piece(n - 1).len() == 0);
        assert(gathered(n, piece) =~= Seq::empty());
    }
}

/// Pieces of one item each give one item per piece.
pub proof fn lemma_gathered_singles<A>(n: nat, piece: spec_fn(int) -> Seq<A>)
    requires
        forall|i: int| 0 <= i < n ==> (#[trigger] piece(i)).len() == 1,
    ensures
        gathered(n, piece).len() == n,
        forall|i: int| 0 <= i < n ==> #[trigger] gathered(n, piece)[i] == piece(i)[0],
    decreases n,
{
    if n > 0 {
        lemma_gathered_singles((n - 1) as nat, piece);
        assert(piece(n - 1).len() == 1);
        assert forall|i: int| 0 <= i < n implies #[trigger] gathered(n, piece)[i] == piece(
            i,
        )[0] by {
            if i < n - 1 {
                assert(gathered(n, piece)[i] == gathered((n - 1) as nat, piece)[i]);
            }
        }
    }
}

/// Whatever a piece holds is in the concatenation.
pub proof fn lemma_gathered_holds<A>(n: nat, piece: spec_fn(int) -> Seq<A>, i: int, k: int)
    requires
        0 <= i < n,
        0 <= k < piece(i).len(),
    ensures
        gathered(n, piece).contains(piece(i)[k]),
    decreases n,
{
    let shorter = gathered((n - 1) as nat, piece);
    if i == n - 1 {
        assert(gathered(n, piece)[shorter.len() + k] == piece(i)[k]);
    } else {
        lemma_gathered_holds((n - 1) as nat, piece, i, k);
        let at = choose|at: int| 0 <= at < shorter.len() && shorter[at] == piece(i)[k];
        assert(gathered(n, piece)[at] == piece(i)[k]);
    }
}

/// Whatever is in the concatenation comes out of some piece.
pub proof fn lemma_gathered_origin<A>(n: nat, piece: spec_fn(int) -> Seq<A>, item: A) -> (at: (
    int,
    int,
))
    requires
        gathered(n, piece).contains(item),
    ensures
        0 <= at.0 < n,
        0 <= at.1 < piece(at.0).len(),
        piece(at.0)[at.1] == item,
    decreases n,
{
    let all = gathered(n, piece);
    let at = choose|at: int| 0 <= at < all.len() && all[at] == item;
    if n == 0 {
        assert(false);
        (0, 0)
    } else {
        let shorter = gathered((n - 1) as nat, piece);
        if at < shorter.len() {
            assert(shorter[at] == item);
            lemma_gathered_origin((n - 1) as nat, piece, item)
        } else {
            (n - 1, at - shorter.len())
        }
    }
}

/// A concatenation splits at every index.
pub proof fn lemma_gathered_split<A>(
    n: nat,
    m: nat,
    piece: spec_fn(int) -> Seq<A>,
    rest: spec_fn(int) -> Seq<A>,
)
    requires
        forall|i: int| 0 <= i < m ==> #[trigger] rest(i) == piece(n + i),
    ensures
        gathered(n + m, piece) == gathered(n, piece) + gathered(m, rest),
    decreases m,
{
    if m == 0 {
        assert(gathered(n, piece) + gathered(m, rest) =~= gathered(n, piece));
    } else {
        lemma_gathered_split(n, (m - 1) as nat, piece, rest);
        assert(rest(m - 1) == piece(n + m - 1));
        assert(gathered(n + m, piece) =~= gathered(n, piece) + gathered(m, rest));
    }
}

/// A relation that holds between what earlier and later pieces hold, holds between earlier and
/// later items, where no piece holds more than one.
pub proof fn lemma_gathered_related<A>(
    n: nat,
    piece: spec_fn(int) -> Seq<A>,
    related: spec_fn(A, A) -> bool,
)
    requires
        forall|i: int| 0 <= i < n ==> (#[trigger] piece(i)).len() <= 1,
        forall|i: int, j: int|
            0 <= i < j < n && (#[trigger] piece(i)).len() == 1 && (#[trigger] piece(j)).len() == 1
                ==> related(piece(i)[0], piece(j)[0]),
    ensures
        forall|a: int, b: int|
            0 <= a < b < gathered(n, piece).len() ==> related(
                #[trigger] gathered(n, piece)[a],
                #[trigger] gathered(n, piece)[b],
            ),
    decreases n,
{
    if n > 0 {
        let shorter = gathered((n - 1) as nat, piece);
        lemma_gathered_related((n - 1) as nat, piece, related);
        let all = gathered(n, piece);
        assert forall|a: int, b: int| 0 <= a < b < all.len() implies related(
            #[trigger] all[a],
            #[trigger] all[b],
        ) by {
            assert(piece(n - 1).len() <= 1);
            assert(all[a] == shorter[a]);
            if b < shorter.len() {
                assert(all[b] == shorter[b]);
                assert(related(shorter[a], shorter[b]));
            } else {
                assert(all[b] == piece(n - 1)[0]);
                assert(shorter.contains(shorter[a]));
                let at = lemma_gathered_origin((n - 1) as nat, piece, shorter[a]);
                assert(piece(at.0).len() <= 1);
                assert(at.1 == 0);
            }
        }
    }
}

// ---- counting ----

/// How many items of a list pass a test.
pub open spec fn count<A>(list: Seq<A>, test: spec_fn(A) -> bool) -> nat
    decreases list.len(),
{
    if list.len() == 0 {
        0
    } else {
        count(list.drop_last(), test) + if test(list.last()) {
            1nat
        } else {
            0nat
        }
    }
}

/// Counting goes item by item.
pub proof fn lemma_count_take<A>(list: Seq<A>, test: spec_fn(A) -> bool, n: int)
    requires
        0 <= n < list.len(),
    ensures
        count(list.take(n + 1), test) == count(list.take(n), test) + if test(list[n]) {
            1nat
        } else {
            0nat
        },
{
    assert(list.take(n + 1).drop_last() =~= list.take(n));
}

/// No more items pass than there are, and all of them pass exactly when as many do as there
/// are.
pub proof fn lemma_count_bound<A>(list: Seq<A>, test: spec_fn(A) -> bool)
    ensures
        count(list, test) <= list.len(),
        count(list, test) == list.len() <==> (forall|i: int|
            0 <= i < list.len() ==> test(#[trigger] list[i])),
    decreases list.len(),
{
    if list.len() > 0 {
        let shorter = list.drop_last();
        lemma_count_bound(shorter, test);
        assert(test(list[list.len() - 1]) || !test(list.last()));
        if count(list, test) == list.len() {
            assert forall|i: int| 0 <= i < list.len() implies test(#[trigger] list[i]) by {
                if i < shorter.len() {
                    assert(test(shorter[i]));
                }
            }
        }
        if forall|i: int| 0 <= i < list.len() ==> test(#[trigger] list[i]) {
            assert forall|i: int| 0 <= i < shorter.len() implies test(#[trigger] shorter[i]) by {
                assert(test(list[i]));
            }
            assert(test(list[list.len() - 1]));
        }
    }
}

/// Items that pass one of two tests that exclude each other are counted once.
pub proof fn lemma_count_disjoint<A>(
    list: Seq<A>,
    left: spec_fn(A) -> bool,
    right: spec_fn(A) -> bool,
    either: spec_fn(A) -> bool,
)
    requires
        forall|a: A| #[trigger] either(a) == (left(a) || right(a)),
        forall|a: A| !(#[trigger] left(a) && right(a)),
    ensures
        count(list, either) == count(list, left) + count(list, right),
    decreases list.len(),
{
    if list.len() > 0 {
        lemma_count_disjoint(list.drop_last(), left, right, either);
        let last = list.last();
        assert(either(last) == (left(last) || right(last)));
        assert(!(left(last) && right(last)));
    }
}

/// Where something passes, one item does.
pub proof fn lemma_count_witness<A>(list: Seq<A>, test: spec_fn(A) -> bool) -> (i: int)
    requires
        count(list, test) > 0,
    ensures
        0 <= i < list.len(),
        test(list[i]),
    decreases list.len(),
{
    if test(list.last()) {
        list.len() - 1
    } else {
        lemma_count_witness(list.drop_last(), test)
    }
}

/// Every item that passes counts.
pub proof fn lemma_count_some<A>(list: Seq<A>, test: spec_fn(A) -> bool, i: int)
    requires
        0 <= i < list.len(),
        test(list[i]),
    ensures
        count(list, test) > 0,
    decreases list.len(),
{
    if i < list.len() - 1 {
        lemma_count_some(list.drop_last(), test, i);
    }
}

/// Where one item passes, no other does.
pub proof fn lemma_count_unique<A>(list: Seq<A>, test: spec_fn(A) -> bool, i: int, j: int)
    requires
        count(list, test) == 1,
        0 <= i < list.len(),
        0 <= j < list.len(),
        test(list[i]),
        test(list[j]),
    ensures
        i == j,
    decreases list.len(),
{
    let shorter = list.drop_last();
    if i < list.len() - 1 {
        lemma_count_some(shorter, test, i);
    }
    if j < list.len() - 1 {
        lemma_count_some(shorter, test, j);
    }
    if i < list.len() - 1 && j < list.len() - 1 {
        lemma_count_unique(shorter, test, i, j);
    }
}

// ---- the last of several ----

/// The last index at which `key` stands in a list.
pub open spec fn last_index<K>(keys: Seq<K>, key: K) -> Option<int>
    decreases keys.len(),
{
    if keys.len() == 0 {
        None
    } else if keys.last() == key {
        Some(keys.len() - 1)
    } else {
        last_index(keys.drop_last(), key)
    }
}

/// Whether no later entry of a list repeats the key at index `i`.
pub open spec fn is_last<K>(keys: Seq<K>, i: int) -> bool {
    forall|j: int| i < j < keys.len() ==> keys[j] != keys[i]
}

/// The last index of a key is where it stands for the last time, and there is none exactly
/// when the list does not hold the key.
pub proof fn lemma_last_index<K>(keys: Seq<K>, key: K)
    ensures
        last_index(keys, key) is None <==> !keys.contains(key),
        last_index(keys, key) matches Some(i) ==> 0 <= i < keys.len() && keys[i] == key && is_last(
            keys,
            i,
        ),
    decreases keys.len(),
{
    if keys.len() > 0 {
        let shorter = keys.drop_last();
        lemma_last_index(shorter, key);
        if keys.last() == key {
            assert(keys[keys.len() - 1] == key);
        } else {
            if keys.contains(key) {
                let i = choose|i: int| 0 <= i < keys.len() && keys[i] == key;
                assert(shorter[i] == key);
            }
            if shorter.contains(key) {
                let i = choose|i: int| 0 <= i < shorter.len() && shorter[i] == key;
                assert(keys[i] == key);
            }
            if let Some(i) = last_index(shorter, key) {
                assert forall|j: int| i < j < keys.len() implies keys[j] != keys[i] by {
                    if j < shorter.len() {
                        assert(shorter[j] != shorter[i]);
                    }
                }
            }
        }
    }
}

/// An entry that no later one repeats is the last of its key.
pub proof fn lemma_is_last_index<K>(keys: Seq<K>, i: int)
    requires
        0 <= i < keys.len(),
    ensures
        is_last(keys, i) <==> last_index(keys, keys[i]) == Some(i),
{
    lemma_last_index(keys, keys[i]);
    assert(keys.contains(keys[i]));
}

// ---- picking one value ----

/// What the last item that yields something yields.
pub open spec fn latest<A, B>(list: Seq<A>, pick: spec_fn(A) -> Option<B>) -> Option<B>
    decreases list.len(),
{
    if list.len() == 0 {
        None
    } else {
        match pick(list.last()) {
            Some(value) => Some(value),
            None => latest(list.drop_last(), pick),
        }
    }
}

/// What the first item that yields something yields.
pub open spec fn earliest<A, B>(list: Seq<A>, pick: spec_fn(A) -> Option<B>) -> Option<B>
    decreases list.len(),
{
    if list.len() == 0 {
        None
    } else {
        match earliest(list.drop_last(), pick) {
            Some(value) => Some(value),
            None => pick(list.last()),
        }
    }
}

/// Both go item by item.
pub proof fn lemma_pick_take<A, B>(list: Seq<A>, pick: spec_fn(A) -> Option<B>, n: int)
    requires
        0 <= n < list.len(),
    ensures
        latest(list.take(n + 1), pick) == (match pick(list[n]) {
            Some(value) => Some(value),
            None => latest(list.take(n), pick),
        }),
        earliest(list.take(n + 1), pick) == (match earliest(list.take(n), pick) {
            Some(value) => Some(value),
            None => pick(list[n]),
        }),
{
    assert(list.take(n + 1).drop_last() =~= list.take(n));
    assert(list.take(n + 1).last() == list[n]);
}

/// The first item that yields something is found, and no item before it yields anything. Where
/// nothing is found no item yields anything.
pub proof fn lemma_earliest_at<A, B>(list: Seq<A>, pick: spec_fn(A) -> Option<B>) -> (at: int)
    ensures
        earliest(list, pick) is Some ==> 0 <= at < list.len() && pick(list[at]) == earliest(
            list,
            pick,
        ) && forall|j: int| 0 <= j < at ==> pick(#[trigger] list[j]) is None,
        earliest(list, pick) is None ==> forall|j: int|
            0 <= j < list.len() ==> pick(#[trigger] list[j]) is None,
    decreases list.len(),
{
    if list.len() == 0 {
        0
    } else {
        let shorter = list.drop_last();
        let at = lemma_earliest_at(shorter, pick);
        assert forall|j: int| 0 <= j < shorter.len() implies shorter[j] == #[trigger] list[j] by {}
        if earliest(shorter, pick) is Some {
            at
        } else {
            list.len() - 1
        }
    }
}

/// The value inside two options.
pub open spec fn flat<A>(value: Option<Option<A>>) -> Option<A> {
    match value {
        Some(inner) => inner,
        None => None,
    }
}

// ---- leaving out repeats ----

/// The items of a list, each where it stands first.
pub open spec fn without_repeats<A>(list: Seq<A>) -> Seq<A>
    decreases list.len(),
{
    if list.len() == 0 {
        Seq::empty()
    } else {
        let before = without_repeats(list.drop_last());
        if before.contains(list.last()) {
            before
        } else {
            before.push(list.last())
        }
    }
}

/// Leaving out repeats loses no item and leaves none twice.
pub proof fn repeats_are_left_out<A>(list: Seq<A>)
    ensures
        without_repeats(list).no_duplicates(),
        forall|item: A| #[trigger] without_repeats(list).contains(item) <==> list.contains(item),
    decreases list.len(),
{
    if list.len() > 0 {
        let shorter = list.drop_last();
        let before = without_repeats(shorter);
        let after = without_repeats(list);
        repeats_are_left_out(shorter);
        assert forall|item: A| #[trigger] after.contains(item) <==> list.contains(item) by {
            if after.contains(item) {
                let i = choose|i: int| 0 <= i < after.len() && after[i] == item;
                if i < before.len() {
                    assert(before[i] == item);
                    assert(before.contains(item));
                    let k = choose|k: int| 0 <= k < shorter.len() && shorter[k] == item;
                    assert(list[k] == item);
                } else {
                    assert(list[list.len() - 1] == item);
                }
            }
            if list.contains(item) {
                let k = choose|k: int| 0 <= k < list.len() && list[k] == item;
                if k < shorter.len() {
                    assert(shorter[k] == item);
                    assert(before.contains(item));
                    let i = choose|i: int| 0 <= i < before.len() && before[i] == item;
                    assert(after[i] == item);
                } else if !before.contains(item) {
                    assert(after[before.len() as int] == item);
                }
            }
        }
    } else {
        assert forall|item: A| #[trigger] without_repeats(list).contains(item) <==> list.contains(
            item,
        ) by {}
    }
}

/// The last item that yields something is found, and no item after it yields anything. Where
/// nothing is found no item yields anything.
pub proof fn lemma_latest_at<A, B>(list: Seq<A>, pick: spec_fn(A) -> Option<B>) -> (at: int)
    ensures
        latest(list, pick) is Some ==> 0 <= at < list.len() && pick(list[at]) == latest(list, pick)
            && forall|j: int| at < j < list.len() ==> pick(#[trigger] list[j]) is None,
        latest(list, pick) is None ==> forall|j: int|
            0 <= j < list.len() ==> pick(#[trigger] list[j]) is None,
    decreases list.len(),
{
    if list.len() == 0 {
        0
    } else if pick(list.last()) is Some {
        list.len() - 1
    } else {
        let shorter = list.drop_last();
        let at = lemma_latest_at(shorter, pick);
        assert(forall|j: int| 0 <= j < shorter.len() ==> #[trigger] shorter[j] == list[j]);
        assert forall|j: int|
            0 <= j < list.len() && (latest(shorter, pick) is Some ==> at < j) implies pick(
            #[trigger] list[j],
        ) is None by {
            if j < shorter.len() {
                assert(pick(shorter[j]) is None);
            }
        }
        at
    }
}

/// The last item that yields something decides: what an item yields is picked where no later
/// item yields anything, and nothing is picked where no item yields anything.
pub proof fn lemma_latest_is<A, B>(list: Seq<A>, pick: spec_fn(A) -> Option<B>, i: int)
    ensures
        0 <= i < list.len() && pick(list[i]) is Some && (forall|j: int|
            i < j < list.len() ==> pick(#[trigger] list[j]) is None) ==> latest(list, pick) == pick(
            list[i],
        ),
        (forall|j: int| 0 <= j < list.len() ==> pick(#[trigger] list[j]) is None) ==> latest(
            list,
            pick,
        ) is None,
{
    let at = lemma_latest_at(list, pick);
    if latest(list, pick) is Some && 0 <= i < list.len() && pick(list[i]) is Some && i != at {
        if at < i {
            assert(pick(list[i]) is None);
        } else {
            assert(pick(list[at]) is Some);
        }
    }
}

/// The same of the first item that yields something.
pub proof fn lemma_earliest_is<A, B>(list: Seq<A>, pick: spec_fn(A) -> Option<B>, i: int)
    ensures
        0 <= i < list.len() && pick(list[i]) is Some && (forall|j: int|
            0 <= j < i ==> pick(#[trigger] list[j]) is None) ==> earliest(list, pick) == pick(
            list[i],
        ),
        (forall|j: int| 0 <= j < list.len() ==> pick(#[trigger] list[j]) is None) ==> earliest(
            list,
            pick,
        ) is None,
{
    let at = lemma_earliest_at(list, pick);
    if earliest(list, pick) is Some && 0 <= i < list.len() && pick(list[i]) is Some && i != at {
        if i < at {
            assert(pick(list[i]) is None);
        } else {
            assert(pick(list[at]) is Some);
        }
    }
}

/// A piece stands in the concatenation behind all the pieces before it.
pub proof fn lemma_gathered_at<A>(n: nat, piece: spec_fn(int) -> Seq<A>, i: nat, k: int)
    requires
        i < n,
        0 <= k < piece(i as int).len(),
    ensures
        gathered(i, piece).len() + piece(i as int).len() <= gathered(n, piece).len(),
        gathered(n, piece)[gathered(i, piece).len() + k] == piece(i as int)[k],
    decreases n,
{
    if i < n - 1 {
        lemma_gathered_at((n - 1) as nat, piece, i, k);
    }
}

/// The last place of a key is the one that no later entry with the key follows.
pub proof fn lemma_last_place<K>(keys: Seq<K>, i: int)
    requires
        0 <= i < keys.len(),
    ensures
        (forall|j: int| i < j < keys.len() ==> #[trigger] keys[j] != keys[i]) <==> is_last(keys, i),
        (forall|j: int| i < j < keys.len() ==> #[trigger] keys[j] != keys[i]) ==> last_index(
            keys,
            keys[i],
        ) == Some(i),
{
    lemma_is_last_index(keys, i);
}

/// Where a single item passes, one does.
pub proof fn lemma_count_lone<A>(list: Seq<A>, test: spec_fn(A) -> bool, i: int)
    requires
        0 <= i < list.len(),
        test(list[i]),
        forall|k: int| 0 <= k < list.len() && k != i ==> !test(#[trigger] list[k]),
    ensures
        count(list, test) == 1,
    decreases list.len(),
{
    let shorter = list.drop_last();
    assert forall|k: int| 0 <= k < shorter.len() && k != i implies !test(#[trigger] shorter[k]) by {
        assert(!test(list[k]));
    }
    if i < list.len() - 1 {
        assert(!test(list[list.len() - 1]));
        lemma_count_lone(shorter, test, i);
    } else if count(shorter, test) > 0 {
        let k = lemma_count_witness(shorter, test);
        assert(!test(list[k]));
    }
}

} // verus!
