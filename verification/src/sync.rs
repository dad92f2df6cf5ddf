//! The start of a sync pass: from the stored settings to a running engine.

use crate::config::{account_is, resolve_account, sync_account, Account, Config};
use crate::engine::{asks, initial_state, Request, SyncEngine};
use crate::error::KayaError;
use vstd::prelude::*;

verus! {

/// The number of seconds from the start of one periodic sync pass to the
/// start of the next.
pub const SYNC_INTERVAL_SECS: u64 = 60;

/// A pass that is about to run: the account to authenticate with, the engine,
/// and the engine's first request.
pub struct SyncStart {
    pub account: Account,
    pub engine: SyncEngine,
    pub request: Request,
}

/// Prepares a sync pass from the stored settings.
///
/// Settings that lack the server, the email, the sealed password or its key
/// are no error: there is then nothing to do, and the result is `Ok(None)`.
/// A stored password that does not open is an error. Otherwise the pass starts
/// with the listing of `anga`.
pub fn sync_with_server(config: &Config) -> (r: Result<Option<SyncStart>, KayaError>)
    ensures
        match sync_account(config) {
            Ok(None) => r matches Ok(None),
            Ok(Some(texts)) => {
                &&& r matches Ok(Some(start))
                &&& account_is(&start.account, texts)
                &&& start.engine.wf()
                &&& start.engine@ == initial_state(texts.0, texts.1)
                &&& asks(start.engine@, &start.request, Seq::<u8>::empty())
            },
            Err(e) => r matches Err(f) && f == e,
        },
{
    match resolve_account(config) {
        Ok(Some(account)) => {
            let (engine, request) = SyncEngine::new(
                account.server.as_str(),
                account.email.as_str(),
            );
            Ok(Some(SyncStart { account, engine, request }))
        },
        Ok(None) => Ok(None),
        Err(e) => Err(e),
    }
}

} // verus!
