//! How the generation of a batch of ensemble entries is split over worker
//! threads, and when a batch counts as complete.

use vstd::prelude::*;

verus! {

pub open spec fn min_usize(a: usize, b: usize) -> usize {
    if a <= b {
        a
    } else {
        b
    }
}

/// The number of worker threads: as many as were asked for, but no more
/// than the machine runs in parallel nor than there are entries.
pub open spec fn effective_threads(entries: usize, requested: usize, available: usize) -> usize {
    min_usize(min_usize(requested, available), entries)
}

/// The entries that each thread generates (the last may get fewer):
/// the number of entries over the number of threads, rounded up.
pub open spec fn entries_per_thread(entries: usize, threads: usize) -> int {
    (entries + threads - 1) / threads as int
}

/// The thread ranges of a batch of `entries` entries split into chunks of
/// `per` entries: thread `t` generates the entries from `t * per` up to,
/// and not including, `min((t + 1) * per, entries)`; a thread whose chunk
/// would start at or past the end gets no work, and no thread after it.
pub open spec fn is_thread_plan(
    ranges: Seq<(usize, usize)>,
    entries: usize,
    threads: usize,
    per: int,
) -> bool {
    &&& ranges.len() <= threads
    &&& (ranges.len() == threads || ranges.len() * per >= entries)
    &&& forall|t: int|
        0 <= t < ranges.len() ==> {
            &&& #[trigger] ranges[t].0 == t * per
            &&& t * per < entries
            &&& ranges[t].1 == if t * per + per <= entries {
                t * per + per
            } else {
                entries as int
            }
        }
}

/// `No worker thread to generate the entries with`.
pub open spec fn no_thread_text() -> Seq<char> {
    seq![
        'N', 'o', ' ', 'w', 'o', 'r', 'k', 'e', 'r', ' ', 't', 'h', 'r', 'e', 'a', 'd', ' ', 't',
        'o', ' ', 'g', 'e', 'n', 'e', 'r', 'a', 't', 'e', ' ', 't', 'h', 'e', ' ', 'e', 'n', 't',
        'r', 'i', 'e', 's', ' ', 'w', 'i', 't', 'h',
    ]
}

/// The ranges of entry ids that the worker threads of a batch generate,
/// one range per thread that gets work: `number_of_entries` entries over
/// at most `parallel_threads` threads and no more threads than the machine
/// runs in parallel (`available_parallelism`). An empty batch needs no
/// thread and gets no range; a batch with entries but no thread to run
/// them is an error.
#[verifier::spinoff_prover]
pub fn plan_entry_ranges(
    number_of_entries: usize,
    parallel_threads: usize,
    available_parallelism: usize,
) -> (r: Result<Vec<(usize, usize)>, String>)
    ensures
        number_of_entries == 0 ==> (r matches Ok(ranges) && ranges@.len() == 0),
        number_of_entries > 0 && effective_threads(
            number_of_entries,
            parallel_threads,
            available_parallelism,
        ) == 0 ==> (r matches Err(msg) && msg@ == no_thread_text()),
        number_of_entries > 0 && effective_threads(
            number_of_entries,
            parallel_threads,
            available_parallelism,
        ) > 0 ==> (r matches Ok(ranges) && is_thread_plan(
            ranges@,
            number_of_entries,
            effective_threads(number_of_entries, parallel_threads, available_parallelism),
            entries_per_thread(
                number_of_entries,
                effective_threads(number_of_entries, parallel_threads, available_parallelism),
            ),
        )),
{
    if number_of_entries == 0 {
        return Ok(Vec::new());
    }
    let threads = if parallel_threads <= available_parallelism {
        parallel_threads
    } else {
        available_parallelism
    };
    let threads = if threads <= number_of_entries {
        threads
    } else {
        number_of_entries
    };
    if threads == 0 {
        proof {
            reveal_strlit("No worker thread to generate the entries with");
        }
        let msg = String::from_str("No worker thread to generate the entries with");
        assert(msg@ =~= no_thread_text());
        return Err(msg);
    }
    let q = number_of_entries / threads;
    let rest = number_of_entries % threads;
    proof {
        if rest != 0 {
            assert(threads >= 2);
            assert(q < usize::MAX) by (nonlinear_arith)
                requires
                    threads >= 2,
                    q == number_of_entries / threads,
            ;
        }
    }
    let per = if rest == 0 {
        q
    } else {
        q + 1
    };
    let ghost n = number_of_entries as int;
    proof {
        assert(per == (n + threads - 1) / threads as int) by (nonlinear_arith)
            requires
                per == n / threads as int + if n % threads as int == 0 {
                    0int
                } else {
                    1int
                },
                threads > 0,
        ;
        assert(per * threads >= n) by (nonlinear_arith)
            requires
                per == (n + threads - 1) / threads as int,
                threads > 0,
        ;
        assert(per >= 1) by (nonlinear_arith)
            requires
                per == (n + threads - 1) / threads as int,
                threads > 0,
                n > 0,
        ;
        assert(threads == effective_threads(number_of_entries, parallel_threads, available_parallelism));
        assert(per == entries_per_thread(number_of_entries, threads));
    }
    let mut ranges: Vec<(usize, usize)> = Vec::new();
    let mut t: usize = 0;
    let mut start: usize = 0;
    while t < threads && start < number_of_entries
        invariant
            t <= threads,
            threads == effective_threads(number_of_entries, parallel_threads, available_parallelism),
            per == entries_per_thread(number_of_entries, threads),
            threads > 0,
            n == number_of_entries,
            per >= 1,
            per * threads >= n,
            start == if t * per < n {
                t * per
            } else {
                n
            },
            ranges@.len() == t,
            forall|u: int|
                0 <= u < t ==> {
                    &&& #[trigger] ranges@[u].0 == u * per
                    &&& u * per < n
                    &&& ranges@[u].1 == if u * per + per <= n {
                        u * per + per
                    } else {
                        n
                    }
                },
        decreases threads - t,
    {
        assert(t * per + per == (t + 1) * per) by (nonlinear_arith);
        assert(start == t * per && t * per < n);
        let end = if per <= number_of_entries - start {
            start + per
        } else {
            number_of_entries
        };
        let ghost before = ranges@;
        ranges.push((start, end));
        assert(forall|u: int| 0 <= u < t ==> ranges@[u] == before[u]);
        assert(ranges@[t as int] == (start, end));
        start = end;
        t = t + 1;
    }
    proof {
        if ranges@.len() < threads {
            assert(ranges@.len() * per >= n);
        }
    }
    Ok(ranges)
}

/// A plan's ranges follow one another without gap or overlap from entry 0
/// to the last entry, so that every entry of the batch is generated by
/// exactly one thread, and no thread gets more than its share.
pub proof fn lemma_thread_plan_partitions(
    ranges: Seq<(usize, usize)>,
    entries: usize,
    requested: usize,
    available: usize,
)
    requires
        entries > 0,
        requested > 0,
        available > 0,
        is_thread_plan(
            ranges,
            entries,
            effective_threads(entries, requested, available),
            entries_per_thread(entries, effective_threads(entries, requested, available)),
        ),
    ensures
        ranges.len() > 0,
        ranges[0].0 == 0,
        ranges[ranges.len() - 1].1 == entries,
        forall|t: int|
            0 <= t < ranges.len() ==> #[trigger] ranges[t].0 < ranges[t].1 && ranges[t].1
                - ranges[t].0 <= entries_per_thread(
                entries,
                effective_threads(entries, requested, available),
            ),
        forall|t: int| 0 <= t < ranges.len() - 1 ==> #[trigger] ranges[t].1 == ranges[t + 1].0,
{
    let threads = effective_threads(entries, requested, available);
    let per = entries_per_thread(entries, threads);
    let n = entries as int;
    assert(threads > 0);
    assert(per * threads >= n) by (nonlinear_arith)
        requires
            per == (n + threads - 1) / threads as int,
            threads > 0,
    ;
    assert(per >= 1) by (nonlinear_arith)
        requires
            per == (n + threads - 1) / threads as int,
            threads > 0,
            n > 0,
    ;
    if ranges.len() == 0 {
        assert(ranges.len() * per == 0);
        assert(false);
    }
    let last = ranges.len() - 1;
    assert(ranges[last].0 == last * per);
    assert(last * per + per == ranges.len() * per) by (nonlinear_arith)
        requires
            last == ranges.len() - 1,
    ;
    if ranges.len() == threads {
        assert(ranges.len() * per >= entries) by (nonlinear_arith)
            requires
                ranges.len() == threads,
                per * threads >= entries,
        ;
    }
    assert forall|t: int| 0 <= t < ranges.len() - 1 implies #[trigger] ranges[t].1 == ranges[t + 1].0 by {
        let u = t + 1;
        assert(ranges[u].0 == u * per && u * per < entries);
        assert(u * per == t * per + per) by (nonlinear_arith)
            requires
                u == t + 1,
        ;
        assert(ranges[t].0 == t * per);
    }
}

/// The least of three numbers.
pub open spec fn least_of(a: int, b: int, c: int) -> int {
    if a <= b && a <= c {
        a
    } else if b <= c {
        b
    } else {
        c
    }
}

/// The number of threads of a batch is the least of the threads asked for,
/// the threads the machine runs in parallel and the entries.
pub proof fn lemma_effective_threads_least(entries: usize, requested: usize, available: usize)
    ensures
        effective_threads(entries, requested, available) <= requested,
        effective_threads(entries, requested, available) <= available,
        effective_threads(entries, requested, available) <= entries,
        effective_threads(entries, requested, available) == requested
            || effective_threads(entries, requested, available) == available
            || effective_threads(entries, requested, available) == entries,
        effective_threads(entries, requested, available) == least_of(
            requested as int,
            available as int,
            entries as int,
        ),
{
}

/// The plan of a batch with entries and threads: with `threads` the least
/// of the threads asked for, the threads available and the entries, and
/// `chunk` the entries over `threads` rounded up, thread `t` generates the
/// entries from `t * chunk` up to `min((t + 1) * chunk, entries)`, and there
/// are as many ranges as chunks needed to cover the batch (the entries over
/// `chunk`, rounded up), never more than `threads`.
pub proof fn lemma_plan_shape(
    ranges: Seq<(usize, usize)>,
    entries: usize,
    requested: usize,
    available: usize,
)
    requires
        entries > 0,
        requested > 0,
        available > 0,
        is_thread_plan(
            ranges,
            entries,
            effective_threads(entries, requested, available),
            entries_per_thread(entries, effective_threads(entries, requested, available)),
        ),
    ensures
        ({
            let threads = least_of(requested as int, available as int, entries as int);
            let chunk = (entries + threads - 1) / threads;
            &&& ranges.len() == (entries + chunk - 1) / chunk
            &&& ranges.len() <= threads
            &&& forall|t: int|
                0 <= t < ranges.len() ==> #[trigger] ranges[t].0 == t * chunk && ranges[t].1 == if (t
                    + 1) * chunk <= entries {
                    (t + 1) * chunk
                } else {
                    entries as int
                }
        }),
{
    let threads = least_of(requested as int, available as int, entries as int);
    let chunk = (entries + threads - 1) / threads;
    let n = entries as int;
    lemma_effective_threads_least(entries, requested, available);
    assert(threads >= 1);
    assert(chunk * threads >= n) by (nonlinear_arith)
        requires
            chunk == (n + threads - 1) / threads,
            threads > 0,
    ;
    assert(chunk >= 1) by (nonlinear_arith)
        requires
            chunk == (n + threads - 1) / threads,
            threads > 0,
            n > 0,
    ;
    let len = ranges.len() as int;
    assert(len * chunk >= n) by {
        if len == threads {
            assert(len * chunk >= n) by (nonlinear_arith)
                requires
                    len == threads,
                    chunk * threads >= n,
            ;
        }
    }
    if len == 0 {
        assert(len * chunk == 0) by (nonlinear_arith)
            requires
                len == 0,
        ;
    }
    let last = len - 1;
    assert(ranges[last].0 == last * chunk);
    assert(len == (n + chunk - 1) / chunk) by (nonlinear_arith)
        requires
            len >= 1,
            chunk >= 1,
            last == len - 1,
            last * chunk < n,
            len * chunk >= n,
    ;
    assert forall|t: int| 0 <= t < ranges.len() implies #[trigger] ranges[t].0 == t * chunk
        && ranges[t].1 == if (t + 1) * chunk <= entries {
        (t + 1) * chunk
    } else {
        entries as int
    } by {
        assert((t + 1) * chunk == t * chunk + chunk) by (nonlinear_arith);
    }
}

/// Whether the count of generated entries is the count asked for; the
/// error of an incomplete batch tells both numbers.
pub fn check_generated_count(completed_count: usize, number_of_entries: usize) -> (r: Result<(), String>)
    ensures
        r is Ok <==> completed_count == number_of_entries,
        r matches Err(msg) ==> msg@ == incomplete_batch_text(completed_count, number_of_entries),
{
    if completed_count == number_of_entries {
        Ok(())
    } else {
        proof {
            reveal_strlit("Generated ");
            reveal_strlit(" entries but expected ");
        }
        let mut msg = String::from_str("Generated ");
        crate::text::push_decimal(&mut msg, completed_count);
        msg.append(" entries but expected ");
        crate::text::push_decimal(&mut msg, number_of_entries);
        assert(msg@ =~= incomplete_batch_text(completed_count, number_of_entries));
        Err(msg)
    }
}

/// `Generated {completed} entries but expected {expected}`.
pub open spec fn incomplete_batch_text(completed: usize, expected: usize) -> Seq<char> {
    seq!['G', 'e', 'n', 'e', 'r', 'a', 't', 'e', 'd', ' '] + crate::text::decimal_text(
        completed as nat,
    ) + seq![
        ' ',
        'e',
        'n',
        't',
        'r',
        'i',
        'e',
        's',
        ' ',
        'b',
        'u',
        't',
        ' ',
        'e',
        'x',
        'p',
        'e',
        'c',
        't',
        'e',
        'd',
        ' ',
    ] + crate::text::decimal_text(expected as nat)
}

} // verus!
