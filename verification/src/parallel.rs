use vstd::prelude::*;
use rayon::iter::IntoParallelRefIterator;
use rayon::iter::ParallelIterator;
use crate::error::TspError;

verus! {

/// The thread pool of the `rayon` crate.
#[verifier::external_type_specification]
#[verifier::external_body]
pub struct ExThreadPool(rayon::ThreadPool);

/// The error with which `rayon` refuses to build a thread pool.
#[verifier::external_type_specification]
#[verifier::external_body]
pub struct ExThreadPoolBuildError(rayon::ThreadPoolBuildError);

/// A pool of worker threads that lives as long as a run.
pub struct WorkerPool {
    pool: rayon::ThreadPool,
}

/// The number of workers of a thread pool: what
/// `ThreadPool::current_num_threads` returns for it. A pool keeps the
/// workers that it was built with.
pub uninterp spec fn pool_workers(pool: rayon::ThreadPool) -> nat;

/// `workers` is the number of workers of a pool that was built for
/// `threads` threads: as many as were asked for, but no more than the limit
/// of the pool, which is at least 255 on every machine.
pub open spec fn sized_for(workers: nat, threads: usize) -> bool {
    if threads <= 255 {
        workers == threads
    } else {
        255 <= workers <= threads
    }
}

/// `ThreadPoolBuilder::build` for a pool of `threads` threads. Whether the
/// threads can be started is up to the system, so nothing is claimed of
/// that. A pool that was built has the smaller of `threads` and the limit
/// of the pool as its number of workers. Zero threads, for which the number
/// is taken from the environment, are left out.
#[verifier::external_body]
fn build_pool(threads: usize) -> (pool: Result<rayon::ThreadPool, rayon::ThreadPoolBuildError>)
    requires
        threads >= 1,
    ensures
        pool matches Ok(built) ==> sized_for(pool_workers(built), threads),
{
    rayon::ThreadPoolBuilder::new().num_threads(threads).build()
}

/// `ThreadPool::current_num_threads`: the number of workers of the pool.
#[verifier::external_body]
fn count_workers(pool: &rayon::ThreadPool) -> (workers: usize)
    ensures
        workers == pool_workers(*pool),
{
    pool.current_num_threads()
}

/// `ThreadPool::install` around a parallel `map` and `collect` over
/// `items`: `f` is applied to each item, and the results stand in the order
/// of the items. So each result is one that `f` can return for the item at
/// its place.
#[verifier::external_body]
pub(crate) fn parallel_map<T: Sync, U: Send, F: Fn(&T) -> U + Sync + Send>(
    pool: &rayon::ThreadPool,
    items: &Vec<T>,
    f: F,
) -> (out: Vec<U>)
    requires
        forall|i: int| 0 <= i < items.len() ==> call_requires(f, (&#[trigger] items[i],)),
    ensures
        out.len() == items.len(),
        forall|i: int| 0 <= i < items.len() ==> call_ensures(f, (&items[i],), #[trigger] out[i]),
{
    pool.install(|| items.par_iter().map(|item| f(item)).collect())
}

impl WorkerPool {
    /// A pool of `threads` worker threads, or the error that says that the
    /// system could not start them. Whether it can is up to the system: see
    /// [`WorkerPool::from_build`] for what each outcome comes to.
    pub fn new(threads: usize) -> (r: Result<WorkerPool, TspError>)
        requires
            threads >= 1,
        ensures
            r is Err ==> r->Err_0 == TspError::WorkerPool,
            r matches Ok(pool) ==> pool.serves(threads),
    {
        WorkerPool::from_build(build_pool(threads))
    }

    /// The results of `f` on each of `items`, in their order, computed by
    /// the workers of the pool.
    pub(crate) fn map<T: Sync, U: Send, F: Fn(&T) -> U + Sync + Send>(
        &self,
        items: &Vec<T>,
        f: F,
    ) -> (out: Vec<U>)
        requires
            forall|i: int| 0 <= i < items.len() ==> call_requires(f, (&#[trigger] items[i],)),
        ensures
            out.len() == items.len(),
            forall|i: int|
                0 <= i < items.len() ==> call_ensures(f, (&items[i],), #[trigger] out[i]),
    {
        parallel_map(&self.pool, items, f)
    }

    /// The thread pool that does the work.
    pub closed spec fn pool(&self) -> rayon::ThreadPool {
        self.pool
    }

    /// The number of workers of the pool.
    pub open spec fn workers(&self) -> nat {
        pool_workers(self.pool())
    }

    /// The pool has the number of workers of a pool built for `threads`
    /// threads.
    pub open spec fn serves(&self, threads: usize) -> bool {
        sized_for(self.workers(), threads)
    }

    /// The number of workers of the pool.
    pub fn worker_count(&self) -> (workers: usize)
        ensures
            workers == self.workers(),
    {
        count_workers(&self.pool)
    }

    /// What an attempt to build a thread pool comes to: the pool that was
    /// built goes to work as it is, and a failure of any kind is reported
    /// as [`TspError::WorkerPool`].
    pub fn from_build(built: Result<rayon::ThreadPool, rayon::ThreadPoolBuildError>) -> (r: Result<
        WorkerPool,
        TspError,
    >)
        ensures
            built matches Ok(pool) ==> r is Ok && r->Ok_0.pool() == pool,
            built is Err ==> r is Err && r->Err_0 == TspError::WorkerPool,
    {
        match built {
            Ok(pool) => Ok(WorkerPool { pool }),
            Err(_) => Err(TspError::WorkerPool),
        }
    }
}

} // verus!
