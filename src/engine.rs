use vstd::prelude::*;
use crate::mask::{Mask, MAX_BRANCHES};
use crate::model::{Branch, Select, SelectError};

verus! {

/// What the engine asks its host to do next.
#[derive(Clone, Copy, Debug, PartialEq, Eq, Structural)]
pub enum Step {
    /// Poll this branch's operation once, then report `on_pending` or `on_ready`.
    Poll { branch: usize },
    /// Test the value that this branch completed with against this arm, then
    /// report `on_arm`.
    TestArm { branch: usize, arm: usize },
    /// Evaluate this arm's body of this branch: the activation is over.
    Run { branch: usize, arm: usize },
    /// Wait until an operation signals readiness, then call `resume`.
    Suspend,
    /// Evaluate the default body: the activation is over.
    RunDefault,
    /// The activation is over without a result.
    Failed(SelectError),
}

/// Where an activation stands between two calls.
#[derive(Clone, Copy, Debug, PartialEq, Eq, Structural)]
pub enum Phase {
    /// Ready to go on with the current sweep.
    Sweeping,
    /// Waiting for the result of one poll of this branch.
    Polling { branch: usize },
    /// Waiting for the result of testing this branch's value against this arm.
    Testing { branch: usize, arm: usize },
    /// Waiting for a wake-up after a sweep that left branches pending.
    Suspended,
    /// Finished: a body ran, the default ran, or the activation failed.
    Done,
}

/// The state of one run of a selection.
#[derive(Debug)]
pub struct Activation {
    pub branches: Vec<Branch>,
    pub has_default: bool,
    /// The scan position that each sweep starts from.
    pub start: usize,
    /// Branches that will not be polled again in this activation.
    pub disabled: Mask,
    /// How far the current sweep has come, counted from `start`.
    pub pos: usize,
    /// Whether the current sweep has seen an operation that is not complete.
    pub pending: bool,
    pub phase: Phase,
}

/// The branch that scan position `i` of a sweep visits: `(start + i) mod n`.
pub open spec fn scan(start: int, i: int, n: int) -> int {
    (start + i) % n
}

proof fn lemma_scan_range(start: int, i: int, n: int)
    requires
        0 <= start < n,
        0 <= i < n,
    ensures
        0 <= scan(start, i, n) < n,
        scan(start, i, n) == if start + i < n { start + i } else { start + i - n },
{
    if start + i < n {
        vstd::arithmetic::div_mod::lemma_small_mod((start + i) as nat, n as nat);
    } else {
        vstd::arithmetic::div_mod::lemma_mod_add_multiples_vanish(start + i - n, n);
        vstd::arithmetic::div_mod::lemma_small_mod((start + i - n) as nat, n as nat);
    }
}

/// Two positions of one sweep visit two different branches.
proof fn lemma_scan_distinct(start: int, i: int, j: int, n: int)
    requires
        0 <= start < n,
        0 <= i < n,
        0 <= j < n,
        i != j,
    ensures
        scan(start, i, n) != scan(start, j, n),
{
    lemma_scan_range(start, i, n);
    lemma_scan_range(start, j, n);
}

/// Every branch is visited at some position of a sweep.
proof fn lemma_scan_covers(start: int, b: int, n: int) -> (i: int)
    requires
        0 <= start < n,
        0 <= b < n,
    ensures
        0 <= i < n,
        scan(start, i, n) == b,
{
    let i = if b >= start { b - start } else { b + n - start };
    lemma_scan_range(start, i, n);
    i
}

fn scan_index(start: usize, i: usize, n: usize) -> (r: usize)
    requires
        start < n,
        i < n,
        n <= MAX_BRANCHES,
    ensures
        r == scan(start as int, i as int, n as int),
        r < n,
{
    proof {
        lemma_scan_range(start as int, i as int, n as int);
    }
    (start + i) % n
}

/// One call of the engine, from state `a` to state `b` giving `r`, disables no
/// branch back and asks for no poll of a disabled branch.
pub open spec fn keeps_disabled(a: Activation, b: Activation, r: Step) -> bool {
    &&& a.disabled@.subset_of(b.disabled@)
    &&& r is Poll ==> !b.disabled@.contains(r->Poll_branch as int)
}

impl Step {
    /// Whether this step ends the activation.
    pub open spec fn ends(self) -> bool {
        self is Run || self is RunDefault || self is Failed
    }
}

impl Activation {
    /// Whether the activation is not over yet.
    pub open spec fn live(&self) -> bool {
        !(self.phase is Done)
    }

    /// Whether some branch can still be polled.
    pub open spec fn any_enabled(&self) -> bool {
        exists|b: int| 0 <= b < self.branches@.len() && !self.disabled@.contains(b)
    }

    /// The activation's invariant: the scan start and position lie within the
    /// branches, `pending` says whether the sweep so far met an enabled branch,
    /// and the phase agrees with the position and the mask.
    pub open spec fn wf(&self) -> bool {
        &&& self.branches@.len() <= MAX_BRANCHES
        &&& (self.branches@.len() == 0 ==> self.start == 0)
        &&& (self.branches@.len() > 0 ==> self.start < self.branches@.len())
        &&& self.pos <= self.branches@.len()
        &&& forall|b: int| #[trigger] self.disabled@.contains(b) ==> 0 <= b < self.branches@.len()
        &&& self.pending == exists|j: int|
            0 <= j < self.pos && !#[trigger] self.disabled@.contains(
                scan(self.start as int, j, self.branches@.len() as int),
            )
        &&& match self.phase {
            Phase::Sweeping => true,
            Phase::Polling { branch } => {
                &&& self.pos < self.branches@.len()
                &&& branch == scan(self.start as int, self.pos as int, self.branches@.len() as int)
                &&& !self.disabled@.contains(branch as int)
            },
            Phase::Testing { branch, arm } => {
                &&& self.pos < self.branches@.len()
                &&& branch == scan(self.start as int, self.pos as int, self.branches@.len() as int)
                &&& self.disabled@.contains(branch as int)
                &&& arm < self.branches@[branch as int].arms
            },
            Phase::Suspended => self.pos == self.branches@.len() && self.any_enabled(),
            Phase::Done => true,
        }
    }

    /// What a sweep from `self.pos` does, `s` being the state after it.
    pub open spec fn swept(&self, s: &Activation, r: Step) -> bool {
        &&& s.branches == self.branches
        &&& s.has_default == self.has_default
        &&& s.start == self.start
        &&& s.disabled == self.disabled
        &&& s.pending == self.pending
        &&& self.pos <= s.pos
        &&& forall|j: int|
            self.pos <= j < s.pos ==> #[trigger] self.disabled@.contains(
                scan(self.start as int, j, self.branches@.len() as int),
            )
        &&& match r {
            Step::Poll { branch } => {
                &&& s.pos < s.branches@.len()
                &&& branch == scan(self.start as int, s.pos as int, self.branches@.len() as int)
                &&& !self.disabled@.contains(branch as int)
                &&& s.phase == Phase::Polling { branch }
            },
            Step::Suspend => self.any_enabled() && s.phase == Phase::Suspended,
            Step::RunDefault => !self.any_enabled() && self.has_default && s.phase == Phase::Done,
            Step::Failed(e) => {
                &&& !self.any_enabled()
                &&& !self.has_default
                &&& e == SelectError::AllBranchesExhausted
                &&& s.phase == Phase::Done
            },
            _ => false,
        }
        &&& !(r is Poll) ==> forall|j: int|
            self.pos <= j < self.branches@.len() ==> #[trigger] self.disabled@.contains(
                scan(self.start as int, j, self.branches@.len() as int),
            )
    }

    /// Whether this is the state in which an activation of `sel` begins, given
    /// each branch's guard value and the random scan start: branches whose guard
    /// gave `true` are disabled, and nothing else is.
    pub open spec fn started(&self, sel: &Select, guards: Seq<bool>, start: usize) -> bool {
        &&& self.branches@ == sel.branches@
        &&& self.has_default == sel.has_default
        &&& self.start == if sel.random && sel.branches@.len() > 0 { start } else { 0 }
        &&& self.pos == 0
        &&& !self.pending
        &&& self.phase == Phase::Sweeping
        &&& forall|b: int|
            0 <= b < self.branches@.len() ==> (#[trigger] self.disabled@.contains(b)
                <==> sel.branches@[b].guarded && guards[b])
    }

    /// This state with a fresh sweep begun: position 0, nothing pending seen.
    pub open spec fn restarted(&self) -> Activation {
        Activation { pos: 0, pending: false, phase: Phase::Sweeping, ..*self }
    }

    /// This state moved one position on in its sweep, with `pending` recorded.
    pub open spec fn moved_on(&self, pending: bool) -> Activation {
        Activation { pos: (self.pos + 1) as usize, pending, phase: Phase::Sweeping, ..*self }
    }

    /// Starts an activation of `sel`. `guards` holds, for each branch, the value its
    /// guard gave (ignored where it has none); `start` is the random scan start,
    /// ignored under the biased policy.
    pub fn new(sel: &Select, guards: &Vec<bool>, start: usize) -> (r: Activation)
        requires
            sel.wf(),
            guards@.len() == sel.branches@.len(),
            sel.random && sel.branches@.len() > 0 ==> start < sel.branches@.len(),
        ensures
            r.wf(),
            r.started(sel, guards@, start),
    {
        let n = sel.branches.len();
        let mut disabled = Mask::empty();
        let mut b: usize = 0;
        while b < n
            invariant
                n == sel.branches@.len(),
                n <= MAX_BRANCHES,
                guards@.len() == n,
                b <= n,
                forall|k: int| #[trigger] disabled@.contains(k) ==> 0 <= k < b,
                forall|k: int|
                    0 <= k < b ==> (disabled@.contains(k) <==> sel.branches@[k].guarded
                        && guards@[k]),
            decreases n - b,
        {
            if sel.branches[b].guarded && guards[b] {
                disabled.insert(b);
            }
            b = b + 1;
        }
        let start = if sel.random && n > 0 {
            start
        } else {
            0
        };
        let r = Activation {
            branches: sel.branches.clone(),
            has_default: sel.has_default,
            start,
            disabled,
            pos: 0,
            pending: false,
            phase: Phase::Sweeping,
        };
        proof {
            assert(r.branches@ =~= sel.branches@);
        }
        r
    }

    /// Goes on with the current sweep from `self.pos`, skipping disabled branches.
    fn sweep(&mut self) -> (r: Step)
        requires
            old(self).wf(),
            old(self).phase == Phase::Sweeping,
        ensures
            final(self).wf(),
            old(self).swept(final(self), r),
    {
        let n = self.branches.len();
        let mut pos = self.pos;
        while pos < n && self.disabled.contains(scan_index(self.start, pos, n))
            invariant
                self == old(self),
                self.wf(),
                n == self.branches@.len(),
                self.pos <= pos <= n,
                forall|j: int|
                    self.pos <= j < pos ==> #[trigger] self.disabled@.contains(
                        scan(self.start as int, j, n as int),
                    ),
            decreases n - pos,
        {
            pos = pos + 1;
        }
        let ghost before = *self;
        let ghost st = self.start as int;
        let ghost len = n as int;
        self.pos = pos;
        proof {
            if self.pending {
                let j = choose|j: int|
                    0 <= j < before.pos && !#[trigger] before.disabled@.contains(scan(st, j, len));
                assert(!self.disabled@.contains(scan(st, j, len)));
            }
            if exists|j: int|
                0 <= j < self.pos && !#[trigger] self.disabled@.contains(scan(st, j, len)) {
                let j = choose|j: int|
                    0 <= j < self.pos && !#[trigger] self.disabled@.contains(scan(st, j, len));
                if j >= before.pos {
                    assert(before.disabled@.contains(scan(st, j, len)));
                }
                assert(!before.disabled@.contains(scan(st, j, len)));
            }
            assert forall|b: int| #[trigger] self.disabled@.contains(b) implies 0 <= b < len by {
                assert(before.disabled@.contains(b));
            }
        }
        if pos < n {
            let branch = scan_index(self.start, pos, n);
            self.phase = Phase::Polling { branch };
            return Step::Poll { branch };
        }
        proof {
            assert(before.pending == before.any_enabled()) by {
                if before.pending {
                    let j = choose|j: int|
                        0 <= j < before.pos && !#[trigger] before.disabled@.contains(
                            scan(st, j, len),
                        );
                    lemma_scan_range(st, j, len);
                }
                if before.any_enabled() {
                    let b = choose|b: int| 0 <= b < len && !before.disabled@.contains(b);
                    let j = lemma_scan_covers(st, b, len);
                    assert(!before.disabled@.contains(scan(st, j, len)));
                }
            }
        }
        if self.pending {
            self.phase = Phase::Suspended;
            proof {
                let b = choose|b: int| 0 <= b < len && !before.disabled@.contains(b);
                let j = lemma_scan_covers(st, b, len);
                assert(!self.disabled@.contains(scan(st, j, len)));
            }
            Step::Suspend
        } else if self.has_default {
            self.phase = Phase::Done;
            Step::RunDefault
        } else {
            self.phase = Phase::Done;
            Step::Failed(SelectError::AllBranchesExhausted)
        }
    }

    /// Runs the activation: at its start, and again after each wake-up that
    /// follows a `Suspend`, which begins a fresh sweep from the same start.
    pub fn resume(&mut self) -> (r: Step)
        requires
            old(self).wf(),
            old(self).phase is Sweeping || old(self).phase is Suspended,
        ensures
            final(self).wf(),
            (if old(self).phase is Suspended {
                old(self).restarted()
            } else {
                *old(self)
            }).swept(final(self), r),
            old(self).phase is Suspended || old(self).pos == 0 ==> ((final(self).start == 0
                && r is Poll) ==> forall|k: int|
                0 <= k < r->Poll_branch ==> #[trigger] final(self).disabled@.contains(k)),
            r.ends() <==> final(self).phase is Done,
            keeps_disabled(*old(self), *final(self), r),
    {
        if let Phase::Suspended = self.phase {
            self.pos = 0;
            self.pending = false;
            self.phase = Phase::Sweeping;
        }
        let ghost before = *self;
        let r = self.sweep();
        proof {
            if self.start == 0 && before.pos == 0 && r is Poll {
                let n = self.branches@.len() as int;
                assert forall|k: int| 0 <= k < r->Poll_branch implies #[trigger] self.disabled@.contains(k) by {
                    lemma_scan_range(0, k, n);
                    lemma_scan_range(0, self.pos as int, n);
                    assert(before.disabled@.contains(scan(0, k, n)));
                }
            }
        }
        r
    }

    /// Reports that the operation just polled is not complete.
    pub fn on_pending(&mut self) -> (r: Step)
        requires
            old(self).wf(),
            old(self).phase is Polling,
        ensures
            final(self).wf(),
            old(self).moved_on(true).swept(final(self), r),
            r.ends() <==> final(self).phase is Done,
            keeps_disabled(*old(self), *final(self), r),
    {
        let ghost before = *self;
        self.pending = true;
        self.pos = self.pos + 1;
        self.phase = Phase::Sweeping;
        proof {
            let j = before.pos as int;
            assert(!self.disabled@.contains(scan(self.start as int, j, self.branches@.len() as int)));
            assert forall|b: int| #[trigger] self.disabled@.contains(b) implies 0 <= b
                < self.branches@.len() by {
                assert(before.disabled@.contains(b));
            }
            assert(*self == before.moved_on(true));
        }
        self.sweep()
    }

    /// Reports that the operation just polled completed. Its branch is disabled
    /// for good; a single body accepts the value at once, a block of arms has it
    /// tested from its first arm.
    pub fn on_ready(&mut self) -> (r: Step)
        requires
            old(self).wf(),
            old(self).phase is Polling,
        ensures
            final(self).wf(),
            ({
                let b = old(self).phase->Polling_branch;
                &&& final(self).disabled@ == old(self).disabled@.insert(b as int)
                &&& *final(self) == (Activation {
                    disabled: final(self).disabled,
                    phase: final(self).phase,
                    ..*old(self)
                })
                &&& if old(self).branches@[b as int].arms == 0 {
                    r == Step::Run { branch: b, arm: 0 } && final(self).phase == Phase::Done
                } else {
                    r == Step::TestArm { branch: b, arm: 0 } && final(self).phase
                        == Phase::Testing { branch: b, arm: 0 }
                }
            }),
            r.ends() <==> final(self).phase is Done,
            keeps_disabled(*old(self), *final(self), r),
    {
        let ghost before = *self;
        let b = match self.phase {
            Phase::Polling { branch } => branch,
            _ => 0,
        };
        self.disabled.insert(b);
        let arms = self.branches[b].arms;
        if arms == 0 {
            self.phase = Phase::Done;
        } else {
            self.phase = Phase::Testing { branch: b, arm: 0 };
        }
        proof {
            let n = self.branches@.len() as int;
            let st = self.start as int;
            assert forall|j: int| 0 <= j < self.pos implies #[trigger] self.disabled@.contains(
                scan(st, j, n)) == before.disabled@.contains(scan(st, j, n)) by {
                lemma_scan_distinct(st, j, self.pos as int, n);
            }
            if self.pending {
                let j = choose|j: int| 0 <= j < before.pos && !#[trigger] before.disabled@.contains(
                    scan(st, j, n));
                assert(!self.disabled@.contains(scan(st, j, n)));
            }
            if exists|j: int| 0 <= j < self.pos && !#[trigger] self.disabled@.contains(scan(st, j, n)) {
                let j = choose|j: int| 0 <= j < self.pos && !#[trigger] self.disabled@.contains(
                    scan(st, j, n));
                assert(!before.disabled@.contains(scan(st, j, n)));
            }
            assert forall|x: int| #[trigger] self.disabled@.contains(x) implies 0 <= x
                < self.branches@.len() by {
                if x != b {
                    assert(before.disabled@.contains(x));
                }
            }
        }
        if arms == 0 {
            Step::Run { branch: b, arm: 0 }
        } else {
            Step::TestArm { branch: b, arm: 0 }
        }
    }

    /// Reports whether the value under test matched the arm under test. The
    /// first arm that matches has its body run; a value that no arm matches is
    /// dropped and the sweep goes on, its branch staying disabled.
    pub fn on_arm(&mut self, matched: bool) -> (r: Step)
        requires
            old(self).wf(),
            old(self).phase is Testing,
        ensures
            final(self).wf(),
            ({
                let b = old(self).phase->Testing_branch;
                let k = old(self).phase->Testing_arm;
                if matched {
                    r == Step::Run { branch: b, arm: k } && *final(self) == (Activation {
                        phase: Phase::Done,
                        ..*old(self)
                    })
                } else if k + 1 < old(self).branches@[b as int].arms {
                    r == Step::TestArm { branch: b, arm: (k + 1) as usize } && *final(self) == (
                    Activation {
                        phase: Phase::Testing { branch: b, arm: (k + 1) as usize },
                        ..*old(self)
                    })
                } else {
                    old(self).moved_on(old(self).pending).swept(final(self), r)
                }
            }),
            r.ends() <==> final(self).phase is Done,
            keeps_disabled(*old(self), *final(self), r),
    {
        let ghost before = *self;
        let (b, k) = match self.phase {
            Phase::Testing { branch, arm } => (branch, arm),
            _ => (0, 0),
        };
        if matched {
            self.phase = Phase::Done;
            return Step::Run { branch: b, arm: k };
        }
        if k + 1 < self.branches[b].arms {
            self.phase = Phase::Testing { branch: b, arm: k + 1 };
            return Step::TestArm { branch: b, arm: k + 1 };
        }
        self.pos = self.pos + 1;
        self.phase = Phase::Sweeping;
        proof {
            let n = self.branches@.len() as int;
            let st = self.start as int;
            if exists|j: int| 0 <= j < self.pos && !#[trigger] self.disabled@.contains(scan(st, j, n)) {
                let j = choose|j: int| 0 <= j < self.pos && !#[trigger] self.disabled@.contains(
                    scan(st, j, n));
                assert(j != before.pos);
                assert(!before.disabled@.contains(scan(st, j, n)));
            }
            if self.pending {
                let j = choose|j: int| 0 <= j < before.pos && !#[trigger] before.disabled@.contains(
                    scan(st, j, n));
                assert(!self.disabled@.contains(scan(st, j, n)));
            }
            assert forall|x: int| #[trigger] self.disabled@.contains(x) implies 0 <= x
                < self.branches@.len() by {
                assert(before.disabled@.contains(x));
            }
            assert(*self == before.moved_on(before.pending));
        }
        self.sweep()
    }
}

} // verus!
