use vstd::prelude::*;

verus! {

#[verifier::external_type_specification]
#[verifier::external_body]
pub struct ExRuntime(tokio::runtime::Runtime);

/// The cooperative single-thread scheduler the dispatch contract assumes.
///
/// Relies on `tokio::runtime::Builder::new_current_thread` and
/// `Builder::build`: a runtime whose executor drives futures on the calling
/// thread, with I/O, timers and a blocking worker pool attached.
#[verifier::external_body]
pub fn create_basic_runtime() -> tokio::runtime::Runtime {
    tokio::runtime::Builder::new_current_thread()
        .enable_io()
        .enable_time()
        .build()
        .unwrap()
}

/// Relies on `tokio::runtime::Runtime::block_on`: blocks the calling thread
/// until `future` resolves and hands back its output. Nothing more can be
/// stated of an arbitrary future's output.
#[verifier::external_body]
fn block_on<F, R>(rt: &tokio::runtime::Runtime, future: F) -> R where F: std::future::Future<
    Output = R,
> {
    rt.block_on(future)
}

/// Drive one future to completion on the calling thread and return its
/// output: a fresh cooperative runtime is built and blocks until `future`
/// resolves.
pub fn run_basic<F, R>(future: F) -> R where F: std::future::Future<Output = R> + 'static {
    let rt = create_basic_runtime();
    block_on(&rt, future)
}

} // verus!
