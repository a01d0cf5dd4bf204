//! The running tally of a cleanup: bytes credited as freed, files and
//! directories removed, and the owners for which anything was removed.

use crate::policy::{AppliedOutcome, OutcomeModel};
use vstd::prelude::*;

verus! {

/// A program for which at least one removal succeeded.
#[derive(Debug, PartialEq, Eq)]
pub struct Cleared {
    pub program: String,
}

impl View for Cleared {
    type V = Seq<char>;

    open spec fn view(&self) -> Seq<char> {
        self.program@
    }
}

impl Cleared {
    /// Whether `other` holds an entry for the same program as this one.
    pub fn same_as(&self, other: &Option<Cleared>) -> (same: bool)
        ensures
            same == (other matches Some(c) && c@ == self@),
    {
        match other {
            Some(c) => c.program == self.program,
            None => false,
        }
    }
}

/// The program names of `cleared`, in order.
pub open spec fn programs_of(cleared: Seq<Cleared>) -> Seq<Seq<char>> {
    cleared.map_values(|c: Cleared| c@)
}

/// Mathematical model of a [`CleanupReport`].
pub struct ReportModel {
    pub bytes_freed: nat,
    pub files_removed: nat,
    pub directories_removed: nat,
    /// The cleared owners, each once, in the order in which they were first
    /// credited.
    pub cleared: Seq<Seq<char>>,
}

impl ReportModel {
    /// The report of a run in which nothing has happened yet.
    pub open spec fn empty() -> ReportModel {
        ReportModel {
            bytes_freed: 0,
            files_removed: 0,
            directories_removed: 0,
            cleared: Seq::<Seq<char>>::empty(),
        }
    }

    /// A report is valid when no owner is listed twice.
    pub open spec fn valid(self) -> bool {
        self.cleared.no_duplicates()
    }

    /// The set of owners for which at least one removal succeeded.
    pub open spec fn cleared_owners(self) -> Set<Seq<char>> {
        self.cleared.to_set()
    }

    /// Whether the three counts fit the machine's counters.
    pub open spec fn fits(self) -> bool {
        self.bytes_freed <= u64::MAX && self.files_removed <= u64::MAX && self.directories_removed
            <= u64::MAX
    }

    /// Whether the counts of `outcome` can be added to this report's without
    /// leaving the machine's counters.
    pub open spec fn has_room_for(self, outcome: OutcomeModel) -> bool {
        self.bytes_freed + outcome.bytes <= u64::MAX && self.files_removed + outcome.files
            <= u64::MAX && self.directories_removed + outcome.directories <= u64::MAX
    }
}

/// The report `report` after the outcome of one entry of a rule owned by
/// `owner` has been recorded: the outcome's counts are added, and the owner
/// joins the cleared owners if the entry was productive and the owner is not
/// among them yet.
pub open spec fn recorded(report: ReportModel, owner: Seq<char>, outcome: OutcomeModel)
    -> ReportModel {
    ReportModel {
        bytes_freed: report.bytes_freed + outcome.bytes,
        files_removed: report.files_removed + outcome.files,
        directories_removed: report.directories_removed + outcome.directories,
        cleared: if outcome.productive && !report.cleared.contains(owner) {
            report.cleared.push(owner)
        } else {
            report.cleared
        },
    }
}

/// Recording keeps a report valid, only ever adds to its counts, and never
/// drops an owner.
pub proof fn lemma_recorded_grows(report: ReportModel, owner: Seq<char>, outcome: OutcomeModel)
    requires
        report.valid(),
    ensures
        recorded(report, owner, outcome).valid(),
        recorded(report, owner, outcome).bytes_freed >= report.bytes_freed,
        recorded(report, owner, outcome).files_removed >= report.files_removed,
        recorded(report, owner, outcome).directories_removed >= report.directories_removed,
        report.cleared_owners().subset_of(recorded(report, owner, outcome).cleared_owners()),
        recorded(report, owner, outcome).cleared_owners() == if outcome.productive {
            report.cleared_owners().insert(owner)
        } else {
            report.cleared_owners()
        },
{
    let after = recorded(report, owner, outcome);
    if outcome.productive && !report.cleared.contains(owner) {
        assert forall|o: Seq<char>| after.cleared.contains(o) <==> (report.cleared.contains(o)
            || o == owner) by {
            if report.cleared.contains(o) {
                let i = choose|i: int| 0 <= i < report.cleared.len() && report.cleared[i] == o;
                assert(after.cleared[i] == o);
            }
            if o == owner {
                assert(after.cleared[report.cleared.len() as int] == o);
            }
        }
    }
}

/// The aggregate result of a run.
///
/// It starts empty and only grows while the run lasts.
#[derive(Debug, PartialEq, Eq)]
pub struct CleanupReport {
    bytes_freed: u64,
    files_removed: u64,
    directories_removed: u64,
    cleared: Vec<Cleared>,
}

impl View for CleanupReport {
    type V = ReportModel;

    closed spec fn view(&self) -> ReportModel {
        ReportModel {
            bytes_freed: self.bytes_freed as nat,
            files_removed: self.files_removed as nat,
            directories_removed: self.directories_removed as nat,
            cleared: programs_of(self.cleared@),
        }
    }
}

impl CleanupReport {
    #[verifier::type_invariant]
    spec fn well_formed(self) -> bool {
        self@.valid()
    }

    /// The report of a run in which nothing has happened yet.
    pub fn new() -> (report: CleanupReport)
        ensures
            report@ == ReportModel::empty(),
    {
        let report = CleanupReport {
            bytes_freed: 0,
            files_removed: 0,
            directories_removed: 0,
            cleared: Vec::new(),
        };
        assert(report@.cleared =~= Seq::<Seq<char>>::empty());
        report
    }

    /// The bytes credited as freed.
    pub fn bytes_freed(&self) -> (n: u64)
        ensures
            n == self@.bytes_freed,
    {
        self.bytes_freed
    }

    /// The number of files removed.
    pub fn files_removed(&self) -> (n: u64)
        ensures
            n == self@.files_removed,
    {
        self.files_removed
    }

    /// The number of directories removed.
    pub fn directories_removed(&self) -> (n: u64)
        ensures
            n == self@.directories_removed,
    {
        self.directories_removed
    }

    /// The cleared owners, each once, in the order in which they were first
    /// credited.
    pub fn cleared(&self) -> (list: &Vec<Cleared>)
        ensures
            programs_of(list@) == self@.cleared,
            self@.valid(),
    {
        proof {
            use_type_invariant(self);
        }
        &self.cleared
    }

    /// Whether `owner` is among the cleared owners.
    pub fn has_cleared(&self, owner: &String) -> (found: bool)
        ensures
            found == self@.cleared_owners().contains(owner@),
    {
        let mut i: usize = 0;
        while i < self.cleared.len()
            invariant
                i <= self.cleared.len(),
                forall|t: int| 0 <= t < i ==> (#[trigger] self.cleared[t])@ != owner@,
            decreases self.cleared.len() - i,
        {
            if self.cleared[i].program == *owner {
                assert(self@.cleared[i as int] == owner@);
                return true;
            }
            i += 1;
        }
        false
    }

    /// Whether `outcome` can be recorded without leaving the machine's
    /// counters.
    pub fn can_record(&self, outcome: &AppliedOutcome) -> (ok: bool)
        ensures
            ok == self@.has_room_for(outcome@),
    {
        outcome.bytes <= u64::MAX - self.bytes_freed && outcome.files <= u64::MAX
            - self.files_removed && outcome.directories <= u64::MAX - self.directories_removed
    }

    /// Records the outcome of one entry of a rule owned by `owner`.
    pub fn record(&mut self, owner: &String, outcome: &AppliedOutcome)
        requires
            old(self)@.has_room_for(outcome@),
        ensures
            final(self)@ == recorded(old(self)@, owner@, outcome@),
    {
        proof {
            use_type_invariant(&*self);
            lemma_recorded_grows(self@, owner@, outcome@);
        }
        let listed = !outcome.productive || self.has_cleared(owner);
        self.bytes_freed = self.bytes_freed + outcome.bytes;
        self.files_removed = self.files_removed + outcome.files;
        self.directories_removed = self.directories_removed + outcome.directories;
        if !listed {
            let mut cleared: Vec<Cleared> = Vec::new();
            std::mem::swap(&mut self.cleared, &mut cleared);
            cleared.push(Cleared { program: owner.clone() });
            assert(programs_of(cleared@) =~= programs_of(old(self).cleared@).push(owner@));
            std::mem::swap(&mut self.cleared, &mut cleared);
        }
    }
}

} // verus!
