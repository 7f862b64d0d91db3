use vstd::prelude::*;
use crate::mask::{mask_width, mask_width_of, MAX_BRANCHES};

verus! {

/// Errors of building a selection, and the one fatal outcome of running it.
#[derive(Clone, Copy, Debug, PartialEq, Eq, Structural)]
pub enum SelectError {
    /// More than one default fallback was given.
    DuplicateDefault,
    /// More operations were given than the disabled mask has bits.
    TooManyBranches,
    /// One case gave both a bound pattern and a block of match arms.
    ConflictingArmForms,
    /// Every branch was disabled without a match and no default was given.
    AllBranchesExhausted,
}

/// One case as its author writes it down.
#[derive(Clone, Debug)]
pub enum CaseDesc {
    /// The fallback body, run when no branch is or can become eligible.
    Default,
    /// One or more operations that share a body or a block of arms.
    Branch {
        /// One entry per operation, in order: whether it carries a guard.
        guards: Vec<bool>,
        /// Whether the body binds the result through a pattern (`x = op => body`).
        bound: bool,
        /// The number of match arms of a block; 0 where the case has a single body.
        arms: usize,
    },
}

/// One operation of a built selection, with what the engine needs of its case.
#[derive(Clone, Copy, Debug, PartialEq, Eq, Structural)]
pub struct Branch {
    /// Index of the case that declared this operation.
    pub case_ix: usize,
    /// Whether a guard decides, once per activation, to disable this branch.
    pub guarded: bool,
    /// The number of match arms that a completed value is tested against; 0 where
    /// the single body accepts every value.
    pub arms: usize,
}

/// A validated selection: its branches in declaration order, whether a default
/// body exists, and the scan policy.
#[derive(Clone, Debug)]
pub struct Select {
    pub branches: Vec<Branch>,
    pub has_default: bool,
    /// `true` for the random-start policy, `false` for the biased one.
    pub random: bool,
}

/// The branches that one case contributes, the case standing at index `i`.
pub open spec fn branches_of_case(c: CaseDesc, i: int) -> Seq<Branch> {
    match c {
        CaseDesc::Default => Seq::empty(),
        CaseDesc::Branch { guards, bound, arms } => guards@.map_values(
            |g: bool| Branch { case_ix: i as usize, guarded: g, arms },
        ),
    }
}

/// The branches of a list of cases, in declaration order.
pub open spec fn branches_of(cs: Seq<CaseDesc>) -> Seq<Branch>
    decreases cs.len(),
{
    if cs.len() == 0 {
        Seq::empty()
    } else {
        branches_of(cs.drop_last()) + branches_of_case(cs.last(), cs.len() - 1)
    }
}

/// The error that the case at index `i` raises by itself or against those before it.
pub open spec fn case_error(cs: Seq<CaseDesc>, i: int) -> Option<SelectError> {
    match cs[i] {
        CaseDesc::Default => if exists|j: int| 0 <= j < i && cs[j] is Default {
            Some(SelectError::DuplicateDefault)
        } else {
            None
        },
        CaseDesc::Branch { guards, bound, arms } => if bound && arms > 0 {
            Some(SelectError::ConflictingArmForms)
        } else {
            None
        },
    }
}

/// Whether the cases below index `k` raise no error of their own.
pub open spec fn no_case_error_below(cs: Seq<CaseDesc>, k: int) -> bool {
    forall|j: int| 0 <= j < k ==> #[trigger] case_error(cs, j) is None
}

/// Whether some case is a default.
pub open spec fn has_default_case(cs: Seq<CaseDesc>) -> bool {
    exists|j: int| 0 <= j < cs.len() && cs[j] is Default
}

impl Select {
    /// Whether the selection has no more branches than the mask has bits.
    pub open spec fn wf(&self) -> bool {
        self.branches@.len() <= MAX_BRANCHES
    }

    /// The number of operations, over all cases.
    pub fn fut_count(&self) -> (r: usize)
        ensures
            r == self.branches@.len(),
    {
        self.branches.len()
    }

    /// The number of outcomes: one per operation, and one more for the default.
    pub fn case_count(&self) -> (r: usize)
        requires
            self.wf(),
        ensures
            r == self.branches@.len() + if self.has_default { 1int } else { 0int },
    {
        if self.has_default {
            self.branches.len() + 1
        } else {
            self.branches.len()
        }
    }

    /// Width in bits of the narrowest unsigned integer that holds the disabled mask.
    pub fn mask_width(&self) -> (r: u32)
        requires
            self.wf(),
        ensures
            mask_width_of(self.branches@.len() as int) == Some(r),
    {
        match mask_width(self.branches.len()) {
            Some(w) => w,
            None => 64,
        }
    }

    /// Builds a selection from its cases, in order, with the random-start policy
    /// where `biased` is `false`. The first case that repeats the default or
    /// gives both arm forms decides the error; with none, more than
    /// `MAX_BRANCHES` operations give `TooManyBranches`.
    pub fn build(cases: &Vec<CaseDesc>, biased: bool) -> (r: Result<Select, SelectError>)
        ensures
            match r {
                Ok(s) => {
                    &&& s.wf()
                    &&& no_case_error_below(cases@, cases@.len() as int)
                    &&& branches_of(cases@).len() <= MAX_BRANCHES
                    &&& s.branches@ == branches_of(cases@)
                    &&& s.has_default == has_default_case(cases@)
                    &&& s.random == !biased
                },
                Err(e) => {
                    ||| exists|i: int|
                        0 <= i < cases@.len() && no_case_error_below(cases@, i)
                            && #[trigger] case_error(cases@, i) == Some(e)
                    ||| no_case_error_below(cases@, cases@.len() as int)
                        && branches_of(cases@).len() > MAX_BRANCHES
                        && e == SelectError::TooManyBranches
                },
            },
    {
        let mut branches: Vec<Branch> = Vec::new();
        let mut too_many = false;
        let mut has_default = false;
        let mut i: usize = 0;
        while i < cases.len()
            invariant
                i <= cases@.len(),
                no_case_error_below(cases@, i as int),
                too_many ==> branches_of(cases@.take(i as int)).len() > MAX_BRANCHES,
                !too_many ==> branches@ == branches_of(cases@.take(i as int)),
                branches@.len() <= MAX_BRANCHES,
                has_default == has_default_case(cases@.take(i as int)),
            decreases cases@.len() - i,
        {
            proof {
                assert(cases@.take(i + 1).drop_last() =~= cases@.take(i as int));
                assert(cases@.take(i + 1).last() == cases@[i as int]);
            }
            let ghost full_before = branches_of(cases@.take(i as int));
            match &cases[i] {
                CaseDesc::Default => {
                    if has_default {
                        proof {
                            let j = choose|j: int| 0 <= j < i && cases@.take(i as int)[j] is Default;
                            assert(cases@[j] is Default);
                            assert(case_error(cases@, i as int) == Some(SelectError::DuplicateDefault));
                        }
                        return Err(SelectError::DuplicateDefault);
                    }
                    has_default = true;
                    proof {
                        assert(!exists|j: int| 0 <= j < i && cases@[j] is Default) by {
                            if exists|j: int| 0 <= j < i && cases@[j] is Default {
                                let j = choose|j: int| 0 <= j < i && cases@[j] is Default;
                                assert(cases@.take(i as int)[j] is Default);
                            }
                        }
                        assert(cases@.take(i + 1)[i as int] is Default);
                        assert(branches_of_case(cases@[i as int], i as int) =~= Seq::empty());
                        assert(branches_of(cases@.take(i + 1)) =~= full_before);
                    }
                },
                CaseDesc::Branch { guards, bound, arms } => {
                    if *bound && *arms > 0 {
                        return Err(SelectError::ConflictingArmForms);
                    }
                    let ghost mk = |g: bool| Branch { case_ix: i, guarded: g, arms: *arms };
                    let mut k: usize = 0;
                    while k < guards.len()
                        invariant
                            k <= guards@.len(),
                            i < cases@.len(),
                            mk == (|g: bool| Branch { case_ix: i, guarded: g, arms: *arms }),
                            too_many ==> (full_before + guards@.take(k as int).map_values(mk)).len()
                                > MAX_BRANCHES,
                            !too_many ==> branches@ == full_before + guards@.take(
                                k as int,
                            ).map_values(mk),
                            branches@.len() <= MAX_BRANCHES,
                        decreases guards@.len() - k,
                    {
                        proof {
                            assert(guards@.take(k + 1).drop_last() =~= guards@.take(k as int));
                            assert(guards@.take(k + 1).map_values(mk) =~= guards@.take(
                                k as int,
                            ).map_values(mk).push(mk(guards@[k as int])));
                        }
                        if !too_many {
                            if branches.len() < MAX_BRANCHES {
                                branches.push(Branch { case_ix: i, guarded: guards[k], arms: *arms });
                            } else {
                                too_many = true;
                            }
                        }
                        k = k + 1;
                    }
                    proof {
                        assert(guards@.take(k as int) =~= guards@);
                        assert(branches_of_case(cases@[i as int], i as int) =~= guards@.map_values(
                            mk,
                        ));
                        assert(has_default_case(cases@.take(i + 1)) == has_default_case(
                            cases@.take(i as int),
                        )) by {
                            if has_default_case(cases@.take(i + 1)) {
                                let j = choose|j: int|
                                    0 <= j < i + 1 && (#[trigger] cases@.take(i + 1)[j]) is Default;
                                assert(cases@.take(i as int)[j] is Default);
                            }
                            if has_default_case(cases@.take(i as int)) {
                                let j = choose|j: int|
                                    0 <= j < i && cases@.take(i as int)[j] is Default;
                                assert(cases@.take(i + 1)[j] is Default);
                            }
                        }
                    }
                },
            }
            proof {
                assert(case_error(cases@, i as int) is None);
            }
            i = i + 1;
        }
        proof {
            assert(cases@.take(i as int) =~= cases@);
        }
        if too_many {
            return Err(SelectError::TooManyBranches);
        }
        Ok(Select { branches, has_default, random: !biased })
    }
}

} // verus!
