use vstd::prelude::*;

verus! {

/// Supplies requests with a macaroon: the hex-encoded credential that an
/// LND node expects under the `macaroon` metadata key of every call.
#[derive(Clone, Debug)]
pub struct MacaroonInterceptor {
    pub macaroon: String,
}

impl MacaroonInterceptor {
    /// An interceptor that supplies `macaroon`.
    pub fn new(macaroon: String) -> (interceptor: Self)
        ensures
            interceptor.macaroon@ == macaroon@,
    {
        MacaroonInterceptor { macaroon }
    }
}

} // verus!
