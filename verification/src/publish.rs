//! The sequential publish stage: pacing under the registry's rate
//! limit, token resolution, and idempotent owner addition.

use vstd::prelude::*;
use crate::errors::Error;
use crate::strutil::{spec_ends_with, str_ends_with};

verus! {

/// The per-package delay in seconds: with more than 29 packages the
/// publishes are spaced 21 seconds apart, which stays under a budget
/// of 30 publishes per 10 minutes; below that they burst out.
pub open spec fn spec_publish_delay(total: int) -> int {
    if total > 29 {
        21
    } else {
        0
    }
}

/// How long to wait before publishing the package at this position.
/// The first package never waits.
pub open spec fn spec_delay_before(idx: int, total: int) -> int {
    if idx > 0 {
        spec_publish_delay(total)
    } else {
        0
    }
}

pub fn publish_delay(total: usize) -> (r: u64)
    ensures
        r as int == spec_publish_delay(total as int),
{
    if total > 29 {
        21
    } else {
        0
    }
}

pub fn delay_before(idx: usize, total: usize) -> (r: u64)
    ensures
        r as int == spec_delay_before(idx as int, total as int),
{
    if idx > 0 {
        publish_delay(total)
    } else {
        0
    }
}

/// Publish pacing: when the plan holds more than 29 packages, at
/// least 21 seconds pass between any two consecutive publishes; with
/// 29 or fewer, no delay is enforced.
pub proof fn lemma_publish_pacing(idx: int, total: int)
    requires
        0 < idx < total,
    ensures
        total > 29 ==> spec_delay_before(idx, total) == 21,
        total <= 29 ==> spec_delay_before(idx, total) == 0,
{
}

/// The token used for the registry: the explicit argument wins, then
/// the environment, then the credentials on file.
pub open spec fn spec_resolved_token(
    cli: Option<String>,
    env: Option<String>,
    credentials: Option<String>,
) -> Option<String> {
    if cli is Some {
        cli
    } else if env is Some {
        env
    } else {
        credentials
    }
}

pub fn resolve_token(cli: Option<String>, env: Option<String>, credentials: Option<String>) -> (r:
    Option<String>)
    ensures
        r == spec_resolved_token(cli, env, credentials),
{
    if cli.is_some() {
        cli
    } else if env.is_some() {
        env
    } else {
        credentials
    }
}

/// How an owner-addition attempt ended: freshly added, or already in
/// place.
#[derive(Debug, PartialEq, Eq, Structural)]
pub enum OwnerOutcome {
    Added,
    AlreadyOwner,
}

/// Decides what an owner-addition result means.  `error` carries the
/// registry's message when the call failed; a message ending in
/// `is already an owner` is success, so adding an owner twice is not
/// an error.
pub fn owner_add_outcome(error: Option<&String>) -> (r: Result<OwnerOutcome, Error>)
    ensures
        error is None ==> r == Ok::<OwnerOutcome, Error>(OwnerOutcome::Added),
        error matches Some(msg) && spec_ends_with(msg@, "is already an owner"@) ==> r == Ok::<
            OwnerOutcome,
            Error,
        >(OwnerOutcome::AlreadyOwner),
        error matches Some(msg) && !spec_ends_with(msg@, "is already an owner"@) ==> r is Err,
{
    match error {
        None => Ok(OwnerOutcome::Added),
        Some(msg) => {
            if str_ends_with(msg.as_str(), "is already an owner") {
                Ok(OwnerOutcome::AlreadyOwner)
            } else {
                Err(Error::Publish(msg.clone()))
            }
        },
    }
}

/// An in-memory byte sink for captured output.
#[derive(Debug)]
pub struct VecWrite(pub Vec<u8>);

impl VecWrite {
    pub fn new() -> (r: VecWrite)
        ensures
            r.0@.len() == 0,
    {
        VecWrite(Vec::new())
    }

    /// The bytes written so far.
    pub fn read(&self) -> (r: &Vec<u8>)
        ensures
            r@ == self.0@,
    {
        &self.0
    }

    /// Appends bytes to the sink.
    #[verifier::loop_isolation(false)]
    pub fn write(&mut self, data: &Vec<u8>)
        ensures
            final(self).0@ == old(self).0@ + data@,
    {
        let n = data.len();
        for i in 0..n
            invariant
                self.0@ == old(self).0@ + data@.subrange(0, i as int),
            decreases n - i,
        {
            self.0.push(data[i]);
            proof {
                assert(old(self).0@ + data@.subrange(0, i as int) + seq![data@[i as int]]
                    =~= old(self).0@ + data@.subrange(0, i + 1));
            }
        }
        proof {
            assert(old(self).0@ + data@.subrange(0, n as int) =~= old(self).0@ + data@);
        }
    }
}

} // verus!
