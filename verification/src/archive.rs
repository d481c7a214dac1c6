//! Where purged audit records go before they are deleted.
//!
//! An exporter that reports success must really have stored the records:
//! the purge deletes only what was exported, so one that loses records
//! silently loses audit history.
use vstd::prelude::*;
use crate::text::{concat3, owned, str_eq};

verus! {

/// Drops the records without archiving them. For development and tests
/// only, and only when chosen explicitly.
#[derive(Clone, Copy, Debug)]
pub struct Discard;

/// Always fails; nothing may be deleted after it.
#[derive(Clone, Copy, Debug)]
pub struct FailingExporter;

/// RFC 5424 syslog over TCP to a SIEM.
pub struct SyslogExporter {
    pub addr: String,
    pub tag: String,
}

pub open spec fn default_tag() -> Seq<char> {
    "ai-bridge"@
}

pub open spec fn syslog_line_spec(timestamp: Seq<char>, tag: Seq<char>, payload: Seq<char>) -> Seq<char> {
    "<134>1 "@ + timestamp + " - "@ + tag + " - - - "@ + payload + "\n"@
}

impl SyslogExporter {
    /// An exporter to `addr`; an empty tag is `ai-bridge`.
    pub fn new(addr: String, tag: String) -> (r: SyslogExporter)
        ensures
            r.addr == addr,
            r.tag@ == (if tag@.len() == 0 { default_tag() } else { tag@ }),
    {
        let none = String::new();
        let empty = str_eq(tag.as_str(), none.as_str());
        proof {
            if tag@.len() == 0 {
                assert(tag@ =~= none@);
            }
        }
        SyslogExporter { addr, tag: if empty { owned("ai-bridge") } else { tag } }
    }

    /// One record's line: priority 134 (facility local0, severity info),
    /// version 1, then the timestamp, the tag and the JSON payload.
    pub fn line(&self, timestamp: &str, payload: &str) -> (r: String)
        ensures
            r@ == syslog_line_spec(timestamp@, self.tag@, payload@),
    {
        let a = concat3("<134>1 ", timestamp, " - ");
        let b = concat3(a.as_str(), self.tag.as_str(), " - - - ");
        concat3(b.as_str(), payload, "\n")
    }
}

/// The archive target the operator chose.
#[derive(Clone, Copy, PartialEq, Eq, Debug, Structural)]
pub enum ArchiveTarget {
    Directory,
    Syslog,
    Discard,
}

pub open spec fn no_target_text() -> Seq<char> {
    "아카이브 대상을 지정해야 합니다: -archive-dir, -syslog, 또는 -discard"@
}

pub open spec fn many_targets_text() -> Seq<char> {
    "아카이브 대상은 하나만 지정하세요"@
}

pub open spec fn chosen_count(dir: bool, syslog: bool, discard: bool) -> int {
    (if dir { 1int } else { 0int }) + (if syslog { 1int } else { 0int }) + (if discard { 1int } else { 0int })
}

/// Exactly one archive target must be given: a directory, a syslog
/// address, or the explicit choice to discard.
pub fn choose_target(archive_dir: &str, syslog_addr: &str, discard: bool) -> (r: Result<ArchiveTarget, String>)
    ensures
        ({
            let n = chosen_count(archive_dir@.len() > 0, syslog_addr@.len() > 0, discard);
            &&& n == 0 ==> (r matches Err(e) && e@ == no_target_text())
            &&& n > 1 ==> (r matches Err(e) && e@ == many_targets_text())
            &&& n == 1 ==> r == (if archive_dir@.len() > 0 {
                Ok::<ArchiveTarget, String>(ArchiveTarget::Directory)
            } else if syslog_addr@.len() > 0 {
                Ok(ArchiveTarget::Syslog)
            } else {
                Ok(ArchiveTarget::Discard)
            })
        }),
{
    let none = String::new();
    let dir = !str_eq(archive_dir, none.as_str());
    let sys = !str_eq(syslog_addr, none.as_str());
    proof {
        if archive_dir@.len() == 0 {
            assert(archive_dir@ =~= none@);
        }
        if syslog_addr@.len() == 0 {
            assert(syslog_addr@ =~= none@);
        }
    }
    let n: u8 = (if dir { 1u8 } else { 0u8 }) + (if sys { 1u8 } else { 0u8 }) + (if discard { 1u8 } else { 0u8 });
    if n == 0 {
        Err(owned("아카이브 대상을 지정해야 합니다: -archive-dir, -syslog, 또는 -discard"))
    } else if n > 1 {
        Err(owned("아카이브 대상은 하나만 지정하세요"))
    } else if dir {
        Ok(ArchiveTarget::Directory)
    } else if sys {
        Ok(ArchiveTarget::Syslog)
    } else {
        Ok(ArchiveTarget::Discard)
    }
}

} // verus!
