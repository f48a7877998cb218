//! What one reconcile loop actually did, counted while it does it.
//!
//! A converged run's cost is that it does nothing, which a journal cannot show. So the loop
//! counts its own work, always; the counts are written only where a host asked for them.
use vstd::prelude::*;

use crate::json::Json;
use crate::record;

verus! {

/// The environment variable asking a driver to report what its loop did.
pub const STATS_ENV: &'static str = "ONEPIPELINE_LOOP_STATS";

/// Where in a run's directory those counts are written.
pub const STATS_FILE: &'static str = "loop-stats.json";

/// What one process's loop did. A count that passes the last number there is starts over.
#[derive(Debug, Clone, Copy, PartialEq, Eq, Structural)]
pub struct LoopStats {
    /// Scheduling passes: iterations of the reconcile body.
    pub passes: u64,
    /// Statuses derived.
    pub statuses: u64,
    /// Results published.
    pub publications: u64,
    /// Other runs read.
    pub upstream_reads: u64,
    /// Releases asked after.
    pub release_asks: u64,
    /// Bytes read out of a run store.
    pub store_bytes: u64,
}

/// A count with more added to it.
pub open spec fn counted(count: u64, more: u64) -> u64 {
    if count + more <= u64::MAX {
        (count + more) as u64
    } else {
        (count + more - u64::MAX - 1) as u64
    }
}

impl LoopStats {
    /// A loop that has done nothing.
    pub fn new() -> (r: LoopStats)
        ensures
            r == (LoopStats {
                passes: 0,
                statuses: 0,
                publications: 0,
                upstream_reads: 0,
                release_asks: 0,
                store_bytes: 0,
            }),
    {
        LoopStats {
            passes: 0,
            statuses: 0,
            publications: 0,
            upstream_reads: 0,
            release_asks: 0,
            store_bytes: 0,
        }
    }

    /// Count a scheduling pass.
    pub fn pass(&mut self)
        ensures
            *final(self) == (LoopStats { passes: counted(old(self).passes, 1), ..*old(self) }),
    {
        self.passes = self.passes.wrapping_add(1);
    }

    /// Count a derivation of the statuses.
    pub fn statuses_derived(&mut self)
        ensures
            *final(self) == (LoopStats { statuses: counted(old(self).statuses, 1), ..*old(self) }),
    {
        self.statuses = self.statuses.wrapping_add(1);
    }

    /// Count a publication of the result.
    pub fn published(&mut self)
        ensures
            *final(self) == (LoopStats {
                publications: counted(old(self).publications, 1),
                ..*old(self)
            }),
    {
        self.publications = self.publications.wrapping_add(1);
    }

    /// Count a read of another run.
    pub fn upstream_read(&mut self)
        ensures
            *final(self) == (LoopStats {
                upstream_reads: counted(old(self).upstream_reads, 1),
                ..*old(self)
            }),
    {
        self.upstream_reads = self.upstream_reads.wrapping_add(1);
    }

    /// Count a question after a release.
    pub fn release_asked(&mut self)
        ensures
            *final(self) == (LoopStats {
                release_asks: counted(old(self).release_asks, 1),
                ..*old(self)
            }),
    {
        self.release_asks = self.release_asks.wrapping_add(1);
    }

    /// Count bytes read out of a run store, whichever run's they came from.
    pub fn store_read(&mut self, bytes: u64)
        ensures
            *final(self) == (LoopStats {
                store_bytes: counted(old(self).store_bytes, bytes),
                ..*old(self)
            }),
    {
        self.store_bytes = self.store_bytes.wrapping_add(bytes);
    }

    /// The counts as they are written, each under its own name.
    pub fn document(&self) -> (r: Vec<(String, Json)>)
        ensures
            record::names(r@) == seq![
                "passes"@,
                "statuses"@,
                "publications"@,
                "upstream_reads"@,
                "release_asks"@,
                "store_bytes"@,
            ],
            r@.len() == 6,
            r@[0].1 == Json::Count(self.passes),
            r@[1].1 == Json::Count(self.statuses),
            r@[2].1 == Json::Count(self.publications),
            r@[3].1 == Json::Count(self.upstream_reads),
            r@[4].1 == Json::Count(self.release_asks),
            r@[5].1 == Json::Count(self.store_bytes),
    {
        let mut fields: Vec<(String, Json)> = Vec::new();
        fields.push(("passes".to_owned(), Json::Count(self.passes)));
        fields.push(("statuses".to_owned(), Json::Count(self.statuses)));
        fields.push(("publications".to_owned(), Json::Count(self.publications)));
        fields.push(("upstream_reads".to_owned(), Json::Count(self.upstream_reads)));
        fields.push(("release_asks".to_owned(), Json::Count(self.release_asks)));
        fields.push(("store_bytes".to_owned(), Json::Count(self.store_bytes)));
        assert(record::names(fields@) =~= seq![
            "passes"@,
            "statuses"@,
            "publications"@,
            "upstream_reads"@,
            "release_asks"@,
            "store_bytes"@,
        ]);
        fields
    }

    /// What is written into the run's own directory: the counts, where the setting asks for
    /// them, and nothing otherwise.
    pub fn flush(&self, setting: Option<&str>) -> (r: Option<Vec<(String, Json)>>)
        ensures
            r is Some <==> (setting matches Some(value) && value@.len() > 0),
            r matches Some(fields) ==> fields@.len() == 6 && fields@[0].1 == Json::Count(
                self.passes,
            ) && fields@[1].1 == Json::Count(self.statuses) && fields@[2].1 == Json::Count(
                self.publications,
            ) && fields@[3].1 == Json::Count(self.upstream_reads) && fields@[4].1 == Json::Count(
                self.release_asks,
            ) && fields@[5].1 == Json::Count(self.store_bytes) && record::names(fields@) == seq![
                "passes"@,
                "statuses"@,
                "publications"@,
                "upstream_reads"@,
                "release_asks"@,
                "store_bytes"@,
            ],
    {
        if asked(setting) {
            Some(self.document())
        } else {
            None
        }
    }
}

/// Whether a process was launched to report what its loop did: any setting that is not
/// empty asks for it.
pub fn asked(setting: Option<&str>) -> (r: bool)
    ensures
        r == (setting matches Some(value) && value@.len() > 0),
{
    match setting {
        Some(value) => value.unicode_len() > 0,
        None => false,
    }
}

/// A count goes up by what is counted, and starts over past the last number there is.
pub proof fn law_a_count_goes_up_by_what_is_counted(count: u64, more: u64)
    ensures
        counted(count, more) as int == (count + more) % 0x1_0000_0000_0000_0000,
        count + more <= u64::MAX ==> counted(count, more) == count + more,
{
}

} // verus!
