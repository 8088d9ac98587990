//! Reconciliation of filesystem-snapshot hierarchies between a source
//! storage pool and a backup pool.
//!
//! Given the unordered population of snapshot names reported by the
//! storage subsystem, the library parses and orders the names, filters
//! them per dataset and label, finds the most recent snapshot common to
//! source and backup, and decides which replication action is due:
//! nothing, an incremental transfer, a full transfer, or a skip because
//! the backup dataset already holds foreign snapshots.

pub mod helpers;
pub mod order;
pub mod planner;
pub mod select;
pub mod snapshot;
pub mod testing;
pub mod text;
pub mod traits;

use vstd::prelude::*;

use crate::order::{lemma_lex_lt_trichotomy, lex_le, sorted_names};
use crate::select::{lemma_select_names_push, lemma_select_names_sorted, matches_filter,
    select_names};
use crate::snapshot::{contains_name, names, sort_snapshots, Snapshot};
use crate::text::{has_prefix, has_suffix, str_concat};

verus! {

/// The backup-side name of a source snapshot: the backup pool name, a
/// `/`, and the source snapshot's full qualified name.
pub open spec fn backup_name(pool: Seq<char>, name: Seq<char>) -> Seq<char> {
    pool + seq!['/'] + name
}

/// The most recent name in `src` whose backup-side form appears in
/// `backup`, scanning `src` from its end.
pub open spec fn common_ancestor(
    src: Seq<Seq<char>>,
    backup: Seq<Seq<char>>,
    pool: Seq<char>,
) -> Option<Seq<char>>
    decreases src.len(),
{
    if src.len() == 0 {
        None
    } else if backup.contains(backup_name(pool, src.last())) {
        Some(src.last())
    } else {
        common_ancestor(src.drop_last(), backup, pool)
    }
}

/// What `common_ancestor` returns: nothing iff no name of `src` has a
/// backup-side match, and otherwise a matching name after which no later
/// name of `src` matches.
pub proof fn lemma_common_ancestor_characterization(
    src: Seq<Seq<char>>,
    backup: Seq<Seq<char>>,
    pool: Seq<char>,
)
    ensures
        (common_ancestor(src, backup, pool) is None) <==> (forall|i: int|
            0 <= i < src.len() ==> !backup.contains(backup_name(pool, #[trigger] src[i]))),
        common_ancestor(src, backup, pool) matches Some(n) ==> exists|i: int|
            {
                &&& 0 <= i < src.len()
                &&& #[trigger] src[i] == n
                &&& backup.contains(backup_name(pool, src[i]))
                &&& forall|j: int|
                    i < j < src.len() ==> !backup.contains(backup_name(pool, #[trigger] src[j]))
            },
    decreases src.len(),
{
    if src.len() > 0 {
        lemma_common_ancestor_characterization(src.drop_last(), backup, pool);
        assert(forall|i: int| 0 <= i < src.len() - 1 ==> #[trigger] src[i] == src.drop_last()[i]);
        if backup.contains(backup_name(pool, src.last())) {
            let i = src.len() - 1;
            assert(src[i] == src.last());
            assert(common_ancestor(src, backup, pool) matches Some(n) ==> {
                &&& src[i] == n
                &&& backup.contains(backup_name(pool, src[i]))
                &&& forall|j: int|
                    i < j < src.len() ==> !backup.contains(backup_name(pool, #[trigger] src[j]))
            });
        } else {
            if common_ancestor(src.drop_last(), backup, pool) is Some {
                let n = common_ancestor(src.drop_last(), backup, pool).unwrap();
                let i = choose|i: int|
                    {
                        &&& 0 <= i < src.drop_last().len()
                        &&& #[trigger] src.drop_last()[i] == n
                        &&& backup.contains(backup_name(pool, src.drop_last()[i]))
                        &&& forall|j: int|
                            i < j < src.drop_last().len() ==> !backup.contains(
                                backup_name(pool, #[trigger] src.drop_last()[j]),
                            )
                    };
                assert(src[i] == n);
                assert forall|j: int|
                    i < j < src.len() implies !backup.contains(
                    backup_name(pool, #[trigger] src[j]),
                ) by {
                    if j < src.len() - 1 {
                        assert(src.drop_last()[j] == src[j]);
                    } else {
                        assert(src[j] == src.last());
                    }
                }
            }
        }
    }
}

/// When `src` is sorted ascending, the common ancestor is the maximum
/// matching name, not merely some matching name.
pub proof fn lemma_common_ancestor_is_latest(
    src: Seq<Seq<char>>,
    backup: Seq<Seq<char>>,
    pool: Seq<char>,
)
    requires
        sorted_names(src),
        common_ancestor(src, backup, pool) is Some,
    ensures
        forall|i: int|
            0 <= i < src.len() && backup.contains(backup_name(pool, #[trigger] src[i])) ==> lex_le(
                src[i],
                common_ancestor(src, backup, pool).unwrap(),
            ),
{
    lemma_common_ancestor_characterization(src, backup, pool);
    let n = common_ancestor(src, backup, pool).unwrap();
    let w = choose|w: int|
        {
            &&& 0 <= w < src.len()
            &&& #[trigger] src[w] == n
            &&& backup.contains(backup_name(pool, src[w]))
            &&& forall|j: int|
                w < j < src.len() ==> !backup.contains(backup_name(pool, #[trigger] src[j]))
        };
    assert forall|i: int|
        0 <= i < src.len() && backup.contains(backup_name(pool, #[trigger] src[i])) implies lex_le(
        src[i],
        n,
    ) by {
        if i < w {
            assert(lex_le(src[i], src[w]));
        } else {
            assert(i == w);
            lemma_lex_lt_trichotomy(src[i], n);
        }
    }
}

/// Per-dataset reconciliation state: the sorted snapshot population, the
/// coordinates of one source dataset's backups, and the two labeled
/// selections derived from them.
pub struct Cantaloupe {
    pub snapshots: Vec<Snapshot>,
    pub backup_pool_name: String,
    pub backup_dataset_name: String,
    pub label: String,
    pub source_snapshots_labeled: Vec<Snapshot>,
    pub backup_snapshots_labeled: Vec<Snapshot>,
}

impl Cantaloupe {
    /// The names of the source-side labeled snapshots, ascending.
    pub open spec fn spec_source_labeled(self) -> Seq<Seq<char>> {
        names(self.source_snapshots_labeled@)
    }

    /// The names of the backup-side labeled snapshots, ascending.
    pub open spec fn spec_backup_labeled(self) -> Seq<Seq<char>> {
        names(self.backup_snapshots_labeled@)
    }

    /// The names of all snapshots under the backup dataset, labeled or
    /// not.
    pub open spec fn spec_backup_any(self) -> Seq<Seq<char>> {
        select_names(names(self.snapshots@), self.backup_dataset_name@, self.label@, false)
    }

    /// The common ancestor of the two labeled selections, if any.
    pub open spec fn spec_common(self) -> Option<Seq<char>> {
        common_ancestor(
            self.spec_source_labeled(),
            self.spec_backup_labeled(),
            self.backup_pool_name@,
        )
    }

    /// The population and both labeled selections are sorted ascending.
    pub open spec fn wf(self) -> bool {
        &&& sorted_names(names(self.snapshots@))
        &&& sorted_names(self.spec_source_labeled())
        &&& sorted_names(self.spec_backup_labeled())
    }

    /// Sorts the pending snapshots and derives both labeled selections
    /// for the dataset at the given coordinates.
    pub fn new(
        pending_snapshots: &Vec<Snapshot>,
        backup_pool_name: &str,
        source_dataset_name: &str,
        label: &str,
    ) -> (r: Cantaloupe)
        ensures
            r.wf(),
            r.backup_pool_name@ == backup_pool_name@,
            r.label@ == label@,
            r.backup_dataset_name@ == backup_pool_name@ + seq!['/'] + source_dataset_name@,
            names(r.snapshots@).to_multiset() == names(pending_snapshots@).to_multiset(),
            r.spec_source_labeled() == select_names(
                names(r.snapshots@),
                source_dataset_name@,
                label@,
                true,
            ),
            r.spec_backup_labeled() == select_names(
                names(r.snapshots@),
                r.backup_dataset_name@,
                label@,
                true,
            ),
    {
        let snapshots = sort_snapshots(pending_snapshots);
        let backup_dataset_name = helpers::get_backup_dataset(
            backup_pool_name,
            source_dataset_name,
        );
        let source_snapshots_labeled = Self::get_snapshots(
            &snapshots,
            source_dataset_name,
            label,
            true,
        );
        let backup_snapshots_labeled = Self::get_snapshots(
            &snapshots,
            backup_dataset_name.as_str(),
            label,
            true,
        );
        proof {
            lemma_select_names_sorted(names(snapshots@), source_dataset_name@, label@, true);
            lemma_select_names_sorted(names(snapshots@), backup_dataset_name@, label@, true);
        }
        Cantaloupe {
            snapshots,
            backup_pool_name: backup_pool_name.to_owned(),
            backup_dataset_name,
            label: label.to_owned(),
            source_snapshots_labeled,
            backup_snapshots_labeled,
        }
    }

    /// The source snapshots carrying the requested label.
    pub fn get_source_snapshots_labeled(&self) -> (r: &Vec<Snapshot>)
        ensures
            r == &self.source_snapshots_labeled,
    {
        &self.source_snapshots_labeled
    }

    /// The backup snapshots carrying the requested label.
    pub fn get_backup_snapshots_labeled(&self) -> (r: &Vec<Snapshot>)
        ensures
            r == &self.backup_snapshots_labeled,
    {
        &self.backup_snapshots_labeled
    }

    /// All snapshots under the backup dataset, whatever their label;
    /// used to detect pre-existing foreign backups.
    pub fn get_backup_snapshots(&self) -> (r: Vec<Snapshot>)
        ensures
            names(r@) == self.spec_backup_any(),
    {
        Self::get_snapshots(
            &self.snapshots,
            self.backup_dataset_name.as_str(),
            self.label.as_str(),
            false,
        )
    }

    /// The most recent source-labeled snapshot that also exists, under
    /// its backup-side name, among the backup-labeled snapshots.
    pub fn get_common_snapshot(&self) -> (r: Option<&str>)
        ensures
            match r {
                Some(n) => self.spec_common() == Some(n@),
                None => self.spec_common() is None,
            },
    {
        let ghost src = self.spec_source_labeled();
        let ghost backup = self.spec_backup_labeled();
        let ghost pool = self.backup_pool_name@;
        let mut i: usize = self.source_snapshots_labeled.len();
        proof {
            assert(src.subrange(0, i as int) =~= src);
        }
        while i > 0
            invariant
                i <= src.len(),
                src == self.spec_source_labeled(),
                backup == self.spec_backup_labeled(),
                pool == self.backup_pool_name@,
                common_ancestor(src, backup, pool) == common_ancestor(
                    src.subrange(0, i as int),
                    backup,
                    pool,
                ),
            decreases i,
        {
            i = i - 1;
            let candidate = str_concat(
                str_concat(self.backup_pool_name.as_str(), "/").as_str(),
                self.source_snapshots_labeled[i].name.as_str(),
            );
            proof {
                reveal_strlit("/");
                assert("/"@ =~= seq!['/']);
                assert(candidate@ =~= backup_name(pool, src[i as int]));
                assert(src.subrange(0, i + 1).drop_last() =~= src.subrange(0, i as int));
                assert(src.subrange(0, i + 1).last() == src[i as int]);
            }
            if contains_name(&self.backup_snapshots_labeled, candidate.as_str()) {
                return Some(self.source_snapshots_labeled[i].name.as_str());
            }
        }
        proof {
            assert(src.subrange(0, 0) =~= Seq::<Seq<char>>::empty());
        }
        None
    }

    /// The most recent source-labeled snapshot's name. The selection
    /// must be non-empty; callers check emptiness first.
    pub fn get_latest_source_snapshot_name(&self) -> (r: &str)
        requires
            self.source_snapshots_labeled@.len() > 0,
        ensures
            r@ == self.spec_source_labeled().last(),
            self.wf() ==> forall|i: int|
                0 <= i < self.spec_source_labeled().len() ==> lex_le(
                    #[trigger] self.spec_source_labeled()[i],
                    r@,
                ),
    {
        let n = self.source_snapshots_labeled.len();
        let r = self.source_snapshots_labeled[n - 1].name.as_str();
        proof {
            if self.wf() {
                let src = self.spec_source_labeled();
                assert forall|i: int| 0 <= i < src.len() implies lex_le(
                    #[trigger] src[i],
                    r@,
                ) by {
                    if i < src.len() - 1 {
                        assert(lex_le(src[i], src[src.len() - 1]));
                    } else {
                        assert(src[i] == r@);
                    }
                }
            }
        }
        r
    }

    /// Keeps, in order, the snapshots whose name starts with
    /// `dataset_name` followed by `@` — and, when `use_label` is set,
    /// ends with `-` followed by `label`.
    fn get_snapshots(
        snapshots: &Vec<Snapshot>,
        dataset_name: &str,
        label: &str,
        use_label: bool,
    ) -> (r: Vec<Snapshot>)
        ensures
            names(r@) == select_names(names(snapshots@), dataset_name@, label@, use_label),
    {
        let mut filtered_snapshots: Vec<Snapshot> = Vec::new();
        let prefix = str_concat(dataset_name, "@");
        let suffix = str_concat("-", label);
        proof {
            reveal_strlit("@");
            reveal_strlit("-");
            assert(prefix@ =~= dataset_name@ + seq!['@']);
            assert(suffix@ =~= seq!['-'] + label@);
            assert(names(filtered_snapshots@) =~= Seq::<Seq<char>>::empty());
            assert(names(snapshots@).subrange(0, 0) =~= Seq::<Seq<char>>::empty());
        }
        let mut i: usize = 0;
        while i < snapshots.len()
            invariant
                i <= snapshots@.len(),
                prefix@ == dataset_name@ + seq!['@'],
                suffix@ == seq!['-'] + label@,
                names(filtered_snapshots@) == select_names(
                    names(snapshots@).subrange(0, i as int),
                    dataset_name@,
                    label@,
                    use_label,
                ),
            decreases snapshots@.len() - i,
        {
            let ghost prev = names(filtered_snapshots@);
            let name = snapshots[i].name.as_str();
            if has_prefix(name, prefix.as_str()) {
                if use_label {
                    if has_suffix(name, suffix.as_str()) {
                        filtered_snapshots.push(snapshots[i].clone());
                    }
                } else {
                    filtered_snapshots.push(snapshots[i].clone());
                }
            }
            proof {
                let full = names(snapshots@);
                assert(full.subrange(0, i + 1).drop_last() =~= full.subrange(0, i as int));
                assert(full.subrange(0, i + 1).last() == full[i as int]);
                lemma_select_names_push(
                    full.subrange(0, i as int),
                    full[i as int],
                    dataset_name@,
                    label@,
                    use_label,
                );
                assert(full.subrange(0, i as int).push(full[i as int]) =~= full.subrange(
                    0,
                    i + 1,
                ));
                if matches_filter(full[i as int], dataset_name@, label@, use_label) {
                    assert(names(filtered_snapshots@) =~= prev.push(full[i as int]));
                }
            }
            i = i + 1;
        }
        proof {
            assert(names(snapshots@).subrange(0, snapshots@.len() as int) =~= names(snapshots@));
        }
        filtered_snapshots
    }
}

} // verus!
