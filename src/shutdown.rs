use vstd::prelude::*;

verus! {

#[verifier::external_type_specification]
#[verifier::external_body]
pub struct ExNotify(tokio::sync::Notify);

/// Relies on `tokio::sync::Notify::notify_one`: wakes one waiter, or leaves
/// a permit for the next one.
#[verifier::external_body]
fn wake_one(n: &tokio::sync::Notify) {
    n.notify_one()
}

/// Signals a running server to shut down gracefully; `notify` is the
/// server's shutdown signal, absent when no server was started. Tells
/// whether a signal was given.
pub fn stop_server(notify: Option<&tokio::sync::Notify>) -> (r: bool)
    ensures
        r == notify.is_some(),
{
    match notify {
        Some(n) => {
            wake_one(n);
            true
        },
        None => false,
    }
}

} // verus!
