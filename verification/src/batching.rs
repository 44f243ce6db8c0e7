//! The policy by which a list of files is worked through in batches.

use crate::measurements::MSMeasurement;
use vstd::arithmetic::div_mod::{lemma_div_denominator, lemma_fundamental_div_mod};
use vstd::prelude::*;

verus! {

/// A list of more files than this is worked through in batches.
pub const LARGE_BATCH_THRESHOLD: usize = 25;

/// No batch is planned smaller than this.
pub const MIN_BATCH_SIZE: usize = 5;

/// Whether a list of `file_count` files is worked through in batches.
pub fn is_large_batch(file_count: usize) -> (r: bool)
    ensures
        r == (file_count > LARGE_BATCH_THRESHOLD),
{
    file_count > LARGE_BATCH_THRESHOLD
}

/// The batch size for `file_count` files on `cores` physical cores: an even
/// share for twice as many batches as there are cores, and never less than
/// [`MIN_BATCH_SIZE`].
pub open spec fn planned_batch_size(file_count: int, cores: int) -> int {
    let share = file_count / (2 * cores);
    if share > MIN_BATCH_SIZE {
        share
    } else {
        MIN_BATCH_SIZE as int
    }
}

/// The batch size for `file_count` files on `cores` physical cores.
pub fn batch_size_for(file_count: usize, cores: usize) -> (r: usize)
    requires
        cores >= 1,
    ensures
        r == planned_batch_size(file_count as int, cores as int),
{
    let share = (file_count / 2) / cores;
    proof {
        lemma_div_denominator(file_count as int, 2, cores as int);
    }
    if share > MIN_BATCH_SIZE {
        share
    } else {
        MIN_BATCH_SIZE
    }
}

/// The number of physical cores of this machine, from
/// `num_cpus::get_physical`, which documents that it returns at least 1.
/// Nothing else is claimed of the count: it belongs to the machine.
#[verifier::external_body]
fn physical_cores() -> (r: usize)
    ensures
        r >= 1,
{
    num_cpus::get_physical()
}

/// The batch size for `file_count` files on this machine. Which size comes
/// out depends on the machine's cores; whatever their number, it is the
/// planned size for some number of cores.
pub fn batch_size(file_count: usize) -> (r: usize)
    ensures
        exists|cores: int|
            cores >= 1 && r == #[trigger] planned_batch_size(file_count as int, cores),
        MIN_BATCH_SIZE <= r,
{
    let cores = physical_cores();
    let r = batch_size_for(file_count, cores);
    assert(r == planned_batch_size(file_count as int, cores as int));
    r
}

/// The number of batches of `size` items that `n` items fill, the last one
/// perhaps in part.
pub open spec fn batch_count(n: int, size: int) -> int {
    (n + size - 1) / size
}

/// Batch `k` of the items `s` cut into batches of `size`: the items from
/// place `k * size` on, `size` of them or as many as are left.
pub open spec fn batch<T>(s: Seq<T>, size: int, k: int) -> Seq<T> {
    s.subrange(
        k * size,
        if k * size + size <= s.len() {
            k * size + size
        } else {
            s.len() as int
        },
    )
}

/// The items `s` cut into consecutive batches of `size`.
pub open spec fn batches<T>(s: Seq<T>, size: int) -> Seq<Seq<T>> {
    Seq::new(batch_count(s.len() as int, size) as nat, |k: int| batch(s, size, k))
}

/// What one finished batch holds: its measurements where it came back,
/// nothing where it was lost.
pub open spec fn batch_content(batch: Option<Vec<MSMeasurement>>) -> Seq<MSMeasurement> {
    match batch {
        Some(v) => v@,
        None => Seq::empty(),
    }
}

/// What a list of finished batches holds: the measurements of the batches
/// that came back, batch after batch.
pub open spec fn gathered(batches: Seq<Option<Vec<MSMeasurement>>>) -> Seq<MSMeasurement> {
    batches.map_values(|b: Option<Vec<MSMeasurement>>| batch_content(b)).flatten()
}

/// One more finished batch adds its content at the end.
pub proof fn lemma_gathered_push(
    batches: Seq<Option<Vec<MSMeasurement>>>,
    batch: Option<Vec<MSMeasurement>>,
)
    ensures
        gathered(batches.push(batch)) == gathered(batches) + batch_content(batch),
{
    let f = |b: Option<Vec<MSMeasurement>>| batch_content(b);
    assert(batches.push(batch).map_values(f) =~= batches.map_values(f).push(f(batch)));
    batches.map_values(f).lemma_flatten_push(f(batch));
}

/// Gathers the measurements of the batches that came back into one list,
/// in batch order.
pub fn gather_batches(batch_results: Vec<Option<Vec<MSMeasurement>>>) -> (r: Vec<MSMeasurement>)
    ensures
        r@ == gathered(batch_results@),
{
    let mut out: Vec<MSMeasurement> = Vec::new();
    let ghost all = batch_results@;
    proof {
        assert(all.take(0) =~= Seq::empty());
        assert(gathered(all.take(0)) =~= Seq::empty());
    }
    for batch in it: batch_results
        invariant
            it.seq() == all,
            out@ == gathered(all.take(it.index() as int)),
    {
        proof {
            let done = it.index() as int;
            assert(all.take(done + 1) =~= all.take(done).push(batch));
            lemma_gathered_push(all.take(done), batch);
        }
        match batch {
            Some(mut v) => {
                out.append(&mut v);
            },
            None => {
                assert(out@ + batch_content(batch) =~= out@);
            },
        }
    }
    proof {
        assert(all.take(all.len() as int) =~= all);
    }
    out
}

/// Cuts a list of file paths into consecutive batches of `batch_size`
/// paths; the last batch holds what is left. No path is lost, repeated or
/// moved: the batches laid end to end give the list again.
pub fn split_batches(file_paths: &[String], batch_size: usize) -> (r: Vec<Vec<String>>)
    requires
        batch_size >= 1,
    ensures
        r.deep_view() == batches(file_paths.deep_view(), batch_size as int),
        r.deep_view().flatten() == file_paths.deep_view(),
{
    let n = file_paths.len();
    let ghost paths = file_paths.deep_view();
    let ghost size = batch_size as int;
    let mut out: Vec<Vec<String>> = Vec::new();
    let mut start: usize = 0;
    proof {
        assert(out.deep_view() =~= Seq::<Seq<Seq<char>>>::empty());
        assert(out.deep_view().flatten() =~= paths.take(0));
        assert(out.len() == 0);
        assert(0 * size == 0);
    }
    while start < n
        invariant
            paths == file_paths.deep_view(),
            paths.len() == n,
            n == file_paths.len(),
            size == batch_size as int,
            size >= 1,
            start <= n,
            start < n ==> start == out.len() * size,
            start == n ==> (out.len() - 1) * size < n <= out.len() * size || (n == 0 && out.len()
                == 0),
            forall|k: int|
                0 <= k < out.len() ==> #[trigger] out.deep_view()[k] == batch(paths, size, k),
            out.deep_view().flatten() == paths.take(start as int),
        decreases n - start,
    {
        let end = if n - start <= batch_size {
            n
        } else {
            start + batch_size
        };
        let ghost k = out.len() as int;
        let mut chunk: Vec<String> = Vec::new();
        let mut i: usize = start;
        while i < end
            invariant
                start <= i <= end <= n,
                n == file_paths.len(),
                paths == file_paths.deep_view(),
                chunk.len() == i - start,
                forall|j: int| 0 <= j < chunk.len() ==> chunk@[j]@ == paths[start + j],
            decreases end - i,
        {
            chunk.push(file_paths[i].clone());
            i += 1;
        }
        proof {
            assert(k * size + size == (k + 1) * size) by (nonlinear_arith);
            assert(chunk.deep_view() =~= paths.subrange(start as int, end as int));
            assert(chunk.deep_view() == batch(paths, size, k));
            out.deep_view().lemma_flatten_push(chunk.deep_view());
            assert(paths.take(start as int) + paths.subrange(start as int, end as int)
                =~= paths.take(end as int));
        }
        let ghost before = out.deep_view();
        out.push(chunk);
        proof {
            assert(out.deep_view() =~= before.push(chunk.deep_view()));
        }
        start = end;
    }
    proof {
        assert(paths.take(n as int) =~= paths);
        let count = out.len() as int;
        assert(count == batch_count(n as int, size)) by (nonlinear_arith)
            requires
                size >= 1,
                n >= 0,
                count >= 0,
                (count - 1) * size < n <= count * size || (n == 0 && count == 0),
        ;
        assert(out.deep_view() =~= batches(paths, size));
    }
    out
}

/// Cuts a list of file paths into the batches that this machine works
/// through side by side: batches of the size that [`batch_size`] gives for
/// the length of the list.
pub fn plan_batches(file_paths: &[String]) -> (r: Vec<Vec<String>>)
    ensures
        exists|cores: int|
            cores >= 1 && r.deep_view() == batches(
                file_paths.deep_view(),
                #[trigger] planned_batch_size(file_paths.len() as int, cores),
            ),
        r.deep_view().flatten() == file_paths.deep_view(),
{
    let size = batch_size(file_paths.len());
    let r = split_batches(file_paths, size);
    proof {
        let cores = choose|cores: int|
            cores >= 1 && size == #[trigger] planned_batch_size(file_paths.len() as int, cores);
        assert(r.deep_view() == batches(
            file_paths.deep_view(),
            planned_batch_size(file_paths.len() as int, cores),
        ));
    }
    r
}

/// The batches of `n` items are as many as are needed and no more: all but
/// the last are full, and the last is not empty.
pub proof fn lemma_batch_count_bounds(n: int, size: int)
    requires
        n >= 0,
        size >= 1,
    ensures
        batch_count(n, size) >= 0,
        n == 0 <==> batch_count(n, size) == 0,
        (batch_count(n, size) - 1) * size < n || n == 0,
        n <= batch_count(n, size) * size,
{
    let c = batch_count(n, size);
    lemma_fundamental_div_mod(n + size - 1, size);
    let r = (n + size - 1) % size;
    assert(n + size - 1 == size * c + r);
    assert(size * c == c * size) by (nonlinear_arith);
    assert((c - 1) * size == c * size - size) by (nonlinear_arith);
    if c < 0 {
        assert(c * size <= -size) by (nonlinear_arith)
            requires
                c <= -1,
                size >= 1,
        ;
    }
    if c == 0 {
        assert(c * size == 0) by (nonlinear_arith)
            requires
                c == 0,
        ;
    }
}

/// Two lists of lists that agree in the lengths of their members hold as
/// many items.
proof fn lemma_flatten_len<A, B>(a: Seq<Seq<A>>, b: Seq<Seq<B>>)
    requires
        a.len() == b.len(),
        forall|k: int| 0 <= k < a.len() ==> a[k].len() == b[k].len(),
    ensures
        a.flatten().len() == b.flatten().len(),
    decreases a.len(),
{
    if a.len() == 0 {
        assert(a =~= Seq::empty());
        assert(b =~= Seq::empty());
    } else {
        lemma_flatten_len(a.drop_last(), b.drop_last());
        assert(a =~= a.drop_last().push(a.last()));
        assert(b =~= b.drop_last().push(b.last()));
        a.drop_last().lemma_flatten_push(a.last());
        b.drop_last().lemma_flatten_push(b.last());
    }
}

/// Two lists of lists of one shape, whose members are related place by
/// place, are related place by place when each is laid end to end.
pub proof fn lemma_flatten_related<A, B>(
    a: Seq<Seq<A>>,
    b: Seq<Seq<B>>,
    related: spec_fn(A, B) -> bool,
)
    requires
        a.len() == b.len(),
        forall|k: int| 0 <= k < a.len() ==> a[k].len() == b[k].len(),
        forall|k: int, j: int|
            0 <= k < a.len() && 0 <= j < a[k].len() ==> related(#[trigger] a[k][j], b[k][j]),
    ensures
        a.flatten().len() == b.flatten().len(),
        forall|i: int|
            0 <= i < a.flatten().len() ==> related(#[trigger] a.flatten()[i], b.flatten()[i]),
    decreases a.len(),
{
    if a.len() == 0 {
        assert(a =~= Seq::empty());
        assert(b =~= Seq::empty());
    } else {
        let a_front = a.drop_last();
        let b_front = b.drop_last();
        assert forall|k: int, j: int| 0 <= k < a_front.len() && 0 <= j < a_front[k].len() implies related(
            #[trigger] a_front[k][j],
            b_front[k][j],
        ) by {
            assert(related(a[k][j], b[k][j]));
        }
        lemma_flatten_related(a_front, b_front, related);
        assert(a =~= a_front.push(a.last()));
        assert(b =~= b_front.push(b.last()));
        a_front.lemma_flatten_push(a.last());
        b_front.lemma_flatten_push(b.last());
        let n = a_front.flatten().len();
        assert forall|i: int| 0 <= i < a.flatten().len() implies related(
            #[trigger] a.flatten()[i],
            b.flatten()[i],
        ) by {
            if i < n {
                assert(related(a_front.flatten()[i], b_front.flatten()[i]));
            } else {
                assert(related(a[a.len() - 1][i - n], b[a.len() - 1][i - n]));
            }
        }
    }
}

/// The batches of a list, laid end to end, give the list again.
pub proof fn lemma_batches_cover<T>(s: Seq<T>, size: int)
    requires
        size >= 1,
    ensures
        batches(s, size).flatten() == s,
    decreases s.len(),
{
    let n = s.len() as int;
    let count = batch_count(n, size);
    lemma_batch_count_bounds(n, size);
    if n == 0 {
        assert(batches(s, size) =~= Seq::<Seq<T>>::empty());
        assert(batches(s, size).flatten() =~= s);
    } else {
        let m = (count - 1) * size;
        assert(m >= 0) by (nonlinear_arith)
            requires
                m == (count - 1) * size,
                count >= 1,
                size >= 1,
        ;
        let front = s.take(m);
        lemma_batch_count_bounds(m, size);
        assert(batch_count(m, size) == count - 1) by (nonlinear_arith)
            requires
                m == (count - 1) * size,
                size >= 1,
                count >= 1,
                batch_count(m, size) >= 0,
                (batch_count(m, size) - 1) * size < m || m == 0,
                m <= batch_count(m, size) * size,
                m == 0 <==> batch_count(m, size) == 0,
        ;
        assert forall|k: int| 0 <= k < count - 1 implies batch(front, size, k) == batch(
            s,
            size,
            k,
        ) by {
            assert(k * size + size <= m) by (nonlinear_arith)
                requires
                    0 <= k < count - 1,
                    m == (count - 1) * size,
                    size >= 1,
            ;
            assert(k * size >= 0) by (nonlinear_arith)
                requires
                    0 <= k,
                    size >= 1,
            ;
            assert(batch(front, size, k) =~= batch(s, size, k));
        }
        assert(batches(s, size).drop_last() =~= batches(front, size));
        assert(m + size == count * size) by (nonlinear_arith)
            requires
                m == (count - 1) * size,
        ;
        assert(batches(s, size).last() =~= s.skip(m));
        assert(batches(s, size) =~= batches(front, size).push(s.skip(m)));
        lemma_batches_cover(front, size);
        batches(front, size).lemma_flatten_push(s.skip(m));
        assert(front + s.skip(m) =~= s);
    }
}

/// Cutting into batches and changing every item go together either way
/// round: the batches of the changed items are the changed batches. So the
/// files read from the paths of a batch are a batch of the files read from
/// the paths of the list.
pub proof fn lemma_batches_of_mapped<A, B>(s: Seq<A>, change: spec_fn(A) -> B, size: int)
    requires
        size >= 1,
    ensures
        batches(s.map_values(change), size) == batches(s, size).map_values(
            |b: Seq<A>| b.map_values(change),
        ),
{
    let left = batches(s.map_values(change), size);
    let right = batches(s, size).map_values(|b: Seq<A>| b.map_values(change));
    lemma_batch_count_bounds(s.len() as int, size);
    assert(left.len() == right.len());
    assert forall|k: int| 0 <= k < left.len() implies left[k] == right[k] by {
        assert(k * size >= 0) by (nonlinear_arith)
            requires
                0 <= k,
                size >= 1,
        ;
        assert(k * size < s.len()) by (nonlinear_arith)
            requires
                0 <= k < batch_count(s.len() as int, size),
                (batch_count(s.len() as int, size) - 1) * size < s.len(),
                size >= 1,
        ;
        assert(left[k] =~= right[k]);
    }
    assert(left =~= right);
}

/// One measurement for each file, wherever the batches are cut: when every
/// batch of a list of files comes back with as many measurements as it has
/// files, the gathered measurements are as many as the files of the list.
pub proof fn lemma_one_measurement_per_file(
    file_paths: Seq<Seq<char>>,
    size: int,
    results: Seq<Option<Vec<MSMeasurement>>>,
)
    requires
        size >= 1,
        results.len() == batches(file_paths, size).len(),
        forall|k: int|
            0 <= k < results.len() ==> batch_content(#[trigger] results[k]).len() == batches(
                file_paths,
                size,
            )[k].len(),
    ensures
        gathered(results).len() == file_paths.len(),
{
    let contents = results.map_values(|b: Option<Vec<MSMeasurement>>| batch_content(b));
    lemma_flatten_len(contents, batches(file_paths, size));
    lemma_batches_cover(file_paths, size);
}

} // verus!
