//! Dividing the files among the workers.

use vstd::prelude::*;

verus! {

/// The size of a shard when `files` files go to `workers` workers: the
/// quotient, rounded up.
pub open spec fn shard_size(files: nat, workers: nat) -> nat
    recommends
        workers > 0,
{
    if files % workers == 0 {
        files / workers
    } else {
        files / workers + 1
    }
}

/// The contents of a sequence of shards.
pub open spec fn shard_views<T>(shards: Seq<Vec<T>>) -> Seq<Seq<T>> {
    shards.map_values(|shard: Vec<T>| shard@)
}

/// Whether `shards` divides `entries` into consecutive shards of `size`
/// entries each, but for the last, which holds the rest and is not empty.
pub open spec fn is_partition<T>(shards: Seq<Seq<T>>, entries: Seq<T>, size: nat) -> bool {
    &&& shards.flatten() == entries
    &&& forall|i: int| 0 <= i < shards.len() - 1 ==> (#[trigger] shards[i]).len() == size
    &&& shards.len() > 0 ==> 0 < shards.last().len() <= size
}

/// The size of a shard when `files` files go to `workers` workers.
pub fn chunk_size(files: usize, workers: usize) -> (size: usize)
    requires
        workers > 0,
    ensures
        size == shard_size(files as nat, workers as nat),
        files > 0 ==> size > 0,
        size * workers >= files,
{
    let whole: usize = files / workers;
    proof {
        let f = files as int;
        let w = workers as int;
        let q = f / w;
        let r = f % w;
        assert(f == w * q + r && 0 <= r < w && 0 <= q <= f) by (nonlinear_arith)
            requires
                w > 0,
                f >= 0,
                q == f / w,
                r == f % w,
        ;
        assert(r != 0 ==> q + 1 <= f) by (nonlinear_arith)
            requires
                f == w * q + r,
                0 <= r < w,
                0 <= q,
        ;
        assert((q + 1) * w == w * q + w && q * w == w * q) by (nonlinear_arith);
    }
    if files % workers == 0 {
        whole
    } else {
        whole + 1
    }
}

/// Divides `entries` among `workers` workers: consecutive shards of
/// `shard_size` entries, the last one holding the rest. No shard is empty,
/// so there are at most `workers` of them, and none for no entries.
pub fn partition<T>(entries: Vec<T>, workers: usize) -> (shards: Vec<Vec<T>>)
    requires
        workers > 0,
    ensures
        is_partition(
            shard_views(shards@),
            entries@,
            shard_size(entries@.len(), workers as nat),
        ),
        shards@.len() <= workers,
        entries@.len() == 0 ==> shards@.len() == 0,
{
    let size: usize = chunk_size(entries.len(), workers);
    let ghost all = entries@;
    let mut shards: Vec<Vec<T>> = Vec::new();
    let mut rest: Vec<T> = entries;
    assert(shard_views(shards@) =~= Seq::<Seq<T>>::empty());
    assert(shard_views(shards@).flatten() + rest@ =~= all);
    while rest.len() > size
        invariant
            all.len() > 0 ==> size > 0,
            shards@.len() > 0 ==> size > 0,
            size * workers >= all.len(),
            shard_views(shards@).flatten() + rest@ == all,
            forall|i: int| 0 <= i < shards@.len() ==> (#[trigger] shards@[i])@.len() == size,
            shards@.len() * size + rest@.len() == all.len(),
        decreases rest.len(),
    {
        let tail: Vec<T> = rest.split_off(size);
        proof {
            let views = shard_views(shards@);
            assert(shard_views(shards@.push(rest)) =~= views.push(rest@));
            views.lemma_flatten_push(rest@);
            assert(views.push(rest@).flatten() + tail@ =~= all);
            assert((shards@.len() + 1) * size == shards@.len() * size + size)
                by (nonlinear_arith);
        }
        shards.push(rest);
        rest = tail;
    }
    if rest.len() > 0 {
        proof {
            let views = shard_views(shards@);
            assert(shard_views(shards@.push(rest)) =~= views.push(rest@));
            views.lemma_flatten_push(rest@);
            assert(shards@.len() < workers) by (nonlinear_arith)
                requires
                    shards@.len() * size + rest@.len() == all.len(),
                    rest@.len() > 0,
                    size * workers >= all.len(),
                    size > 0,
            ;
        }
        shards.push(rest);
    } else {
        proof {
            assert(shard_views(shards@).flatten() =~= all);
            assert(shards@.len() <= workers) by (nonlinear_arith)
                requires
                    shards@.len() * size == all.len(),
                    size * workers >= all.len(),
                    shards@.len() > 0 ==> size > 0,
            ;
        }
    }
    shards
}

/// Joins what the workers hand back, shard after shard.
pub fn merge<T>(parts: Vec<Vec<T>>) -> (all: Vec<T>)
    ensures
        all@ == shard_views(parts@).flatten(),
{
    let ghost whole = shard_views(parts@).flatten();
    let mut rest: Vec<Vec<T>> = parts;
    let mut all: Vec<T> = Vec::new();
    assert(shard_views(rest@).flatten() + all@ =~= whole);
    while rest.len() > 0
        invariant
            shard_views(rest@).flatten() + all@ == whole,
        decreases rest.len(),
    {
        let ghost before = rest@;
        let ghost behind = all@;
        let mut part: Vec<T> = rest.pop().unwrap();
        proof {
            let views = shard_views(rest@);
            assert(shard_views(before) =~= views.push(part@));
            views.lemma_flatten_push(part@);
            assert(views.flatten() + (part@ + behind) =~= whole);
        }
        part.append(&mut all);
        all = part;
    }
    assert(shard_views(rest@).flatten() =~= Seq::<T>::empty());
    assert(Seq::<T>::empty() + all@ =~= all@);
    all
}

/// The same items, the last one first.
pub fn reversed<T>(items: Vec<T>) -> (turned: Vec<T>)
    ensures
        turned@.len() == items@.len(),
        forall|k: int| 0 <= k < turned@.len() ==> turned@[k] == items@[items@.len() - 1 - k],
{
    let ghost all = items@;
    let mut rest: Vec<T> = items;
    let mut turned: Vec<T> = Vec::new();
    while rest.len() > 0
        invariant
            rest@.len() + turned@.len() == all.len(),
            forall|k: int| 0 <= k < rest@.len() ==> rest@[k] == all[k],
            forall|k: int| 0 <= k < turned@.len() ==> turned@[k] == all[all.len() - 1 - k],
        decreases rest.len(),
    {
        let item: T = rest.pop().unwrap();
        turned.push(item);
    }
    turned
}

/// What all the workers hand back, in their order, or the error of the
/// first one that failed: one failure ends the whole run.
pub fn gather<T, E>(results: Vec<Result<T, E>>) -> (all: Result<Vec<T>, E>)
    ensures
        match all {
            Ok(values) => values@.len() == results@.len() && forall|i: int|
                0 <= i < results@.len() ==> #[trigger] results@[i] == Ok::<T, E>(values@[i]),
            Err(e) => exists|i: int|
                0 <= i < results@.len() && #[trigger] results@[i] == Err::<T, E>(e) && forall|
                    k: int,
                | 0 <= k < i ==> (#[trigger] results@[k]) is Ok,
        },
{
    let ghost all = results@;
    let mut stack: Vec<Result<T, E>> = reversed(results);
    let mut values: Vec<T> = Vec::new();
    while stack.len() > 0
        invariant
            all == results@,
            stack@.len() + values@.len() == all.len(),
            forall|k: int| 0 <= k < stack@.len() ==> stack@[k] == all[all.len() - 1 - k],
            forall|i: int| 0 <= i < values@.len() ==> #[trigger] all[i] == Ok::<T, E>(values@[i]),
        decreases stack.len(),
    {
        let ghost place = values@.len() as int;
        let next: Result<T, E> = stack.pop().unwrap();
        assert(next == all[place]);
        match next {
            Ok(value) => {
                values.push(value);
            },
            Err(e) => {
                assert(all[place] == Err::<T, E>(e));
                assert forall|k: int| 0 <= k < place implies (#[trigger] all[k]) is Ok by {
                    assert(all[k] == Ok::<T, E>(values@[k]));
                }
                return Err(e);
            },
        }
    }
    Ok(values)
}

} // verus!
