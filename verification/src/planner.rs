//! The replication planner: the single decision point per dataset.

use vstd::prelude::*;

use crate::text::str_eq;
use crate::Cantaloupe;

verus! {

/// The terminal outcome for one dataset. Every reconciliation ends in
/// exactly one of these; none is retried at this level.
pub enum Plan {
    /// No source snapshot carries the requested label; the dataset is
    /// skipped.
    NoSourceSnapshots,
    /// The latest labeled source snapshot already exists on the backup
    /// side; nothing to send.
    UpToDate,
    /// A common ancestor exists and is older than the latest snapshot:
    /// send the delta from `from` to `to`.
    Incremental { from: String, to: String },
    /// No common ancestor and the backup dataset holds no snapshots at
    /// all: send `to` whole (the destination hierarchy must be created
    /// first).
    FullSend { to: String },
    /// No common ancestor, but the backup dataset already holds
    /// `existing_count` snapshots under some other label; refuse to
    /// overwrite them.
    ConflictSkip { existing_count: usize },
}

/// The five planner outcomes cover every reconciliation state, and no
/// two of them apply at once.
pub proof fn lemma_plan_cases_exclusive_exhaustive(c: Cantaloupe)
    ensures
        ({
            let no_source = c.spec_source_labeled().len() == 0;
            let up_to_date = c.spec_source_labeled().len() > 0 && c.spec_common() == Some(
                c.spec_source_labeled().last(),
            );
            let incremental = c.spec_source_labeled().len() > 0 && c.spec_common() is Some
                && c.spec_common() != Some(c.spec_source_labeled().last());
            let conflict = c.spec_source_labeled().len() > 0 && c.spec_common() is None
                && c.spec_backup_any().len() > 0;
            let full_send = c.spec_source_labeled().len() > 0 && c.spec_common() is None
                && c.spec_backup_any().len() == 0;
            &&& no_source || up_to_date || incremental || conflict || full_send
            &&& !(no_source && up_to_date)
            &&& !(no_source && incremental)
            &&& !(no_source && conflict)
            &&& !(no_source && full_send)
            &&& !(up_to_date && incremental)
            &&& !(up_to_date && conflict)
            &&& !(up_to_date && full_send)
            &&& !(incremental && conflict)
            &&& !(incremental && full_send)
            &&& !(conflict && full_send)
        }),
{
}

impl Cantaloupe {
    /// Decides the replication action for this dataset: skip when no
    /// labeled source snapshot exists; nothing when the latest one is
    /// already backed up; an incremental transfer from a strictly older
    /// common ancestor; a conflict skip when the backup dataset holds
    /// snapshots but shares no ancestor; a full transfer otherwise.
    pub fn plan(&self) -> (p: Plan)
        requires
            self.wf(),
        ensures
            self.spec_source_labeled().len() == 0 <==> p == Plan::NoSourceSnapshots,
            self.spec_source_labeled().len() > 0 && self.spec_common() == Some(
                self.spec_source_labeled().last(),
            ) <==> p == Plan::UpToDate,
            self.spec_source_labeled().len() > 0 && self.spec_common() is Some
                && self.spec_common() != Some(self.spec_source_labeled().last()) ==> (p matches Plan::Incremental { from, to }
                && from@ == self.spec_common().unwrap() && to@
                == self.spec_source_labeled().last()),
            self.spec_source_labeled().len() > 0 && self.spec_common() is None
                && self.spec_backup_any().len() > 0 ==> (p matches Plan::ConflictSkip {
                existing_count,
            } && existing_count == self.spec_backup_any().len()),
            self.spec_source_labeled().len() > 0 && self.spec_common() is None
                && self.spec_backup_any().len() == 0 ==> (p matches Plan::FullSend { to } && to@
                == self.spec_source_labeled().last()),
    {
        if self.source_snapshots_labeled.len() == 0 {
            return Plan::NoSourceSnapshots;
        }
        let latest = self.get_latest_source_snapshot_name();
        match self.get_common_snapshot() {
            Some(ancestor) => {
                if str_eq(ancestor, latest) {
                    Plan::UpToDate
                } else {
                    Plan::Incremental { from: ancestor.to_owned(), to: latest.to_owned() }
                }
            },
            None => {
                let existing = self.get_backup_snapshots();
                if existing.len() != 0 {
                    Plan::ConflictSkip { existing_count: existing.len() }
                } else {
                    Plan::FullSend { to: latest.to_owned() }
                }
            },
        }
    }
}

} // verus!
