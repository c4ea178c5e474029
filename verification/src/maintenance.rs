//! Work on the cache database, one piece at a time.

use crate::error::{CoreError, ErrorKind};
use crate::text::concat2;
use vstd::prelude::*;

verus! {

/// Whether work is running, and what the last integrity check found.
#[derive(Debug)]
pub struct Maintenance {
    pub running: bool,
    pub integrity: Option<Vec<String>>,
}

/// Begin to compact the database, unless work is running.
pub fn start_vacuum(m: &mut Maintenance) -> (r: Result<(), CoreError>)
    ensures
        final(m).running,
        final(m).integrity == old(m).integrity,
        !old(m).running ==> r is Ok,
        old(m).running ==> (r matches Err(e) && e.reads(
            ErrorKind::Conflict,
            "database maintenance is already running"@,
        )),
{
    if m.running {
        return Err(CoreError::conflict("database maintenance is already running".to_owned()));
    }
    m.running = true;
    Ok(())
}

/// What a request for an integrity check is answered.
#[derive(Debug, Clone, Copy, PartialEq, Eq, Structural)]
pub struct CheckAnswer {
    /// Whether what the last check found is handed out.
    pub checked: bool,
    pub running: bool,
    /// Whether a check is to be started.
    pub start: bool,
}

/// Answer a request for an integrity check with what the last one found, and start
/// another, unless work is running. What that one finds is for a later request.
pub fn start_or_read_integrity_check(m: &mut Maintenance) -> (r: CheckAnswer)
    ensures
        final(m).integrity == old(m).integrity,
        r.checked == (old(m).integrity is Some),
        r.start == !old(m).running,
        r.running,
        final(m).running,
{
    let start = !m.running;
    m.running = true;
    CheckAnswer { checked: m.integrity.is_some(), running: true, start }
}

/// Note what a check found. A check that failed is itself what is wrong.
pub fn finish_integrity_check(m: &mut Maintenance, found: Result<Vec<String>, String>)
    ensures
        !final(m).running,
        final(m).integrity is Some,
        match found {
            Ok(v) => final(m).integrity == Some(v),
            Err(e) => (final(m).integrity->0)@.len() == 1 && (final(m).integrity->0)@[0]@
                == "integrity check failed: "@ + e@,
        },
{
    let problems = match found {
        Ok(v) => v,
        Err(e) => {
            let mut v: Vec<String> = Vec::new();
            v.push(concat2("integrity check failed: ", e.as_str()));
            v
        },
    };
    m.integrity = Some(problems);
    m.running = false;
}

/// Note that compacting is over.
pub fn finish_vacuum(m: &mut Maintenance)
    ensures
        !final(m).running,
        final(m).integrity == old(m).integrity,
{
    m.running = false;
}

} // verus!
