//! Per-phase completion catalog (phases 151 to 400): which boot smoke stands
//! for each phase.
use vstd::prelude::*;

verus! {

/// Highest post-150 phase that has landed.
pub const COMPLETED_PHASE: u32 = 400;

pub const PHASE_151: u32 = 151;
pub const PHASE_350: u32 = 350;
pub const PHASE_351: u32 = 351;
pub const PHASE_400: u32 = 400;

/// The check that stands for a phase.
#[derive(Clone, Copy, Debug, PartialEq, Eq, Structural)]
pub enum PhaseCheck {
    /// Outside the catalog, or not landed yet: fails.
    Rejected,
    /// A milestone phase with a smoke of its own (175, 200, 250, 300, 350, 351, 375, 400).
    Milestone(u32),
    /// 151..=175 (non-milestone): an endpoint message has been sent.
    EndpointSends,
    /// 176..=200: unified admission of the service scheduler.
    UnifiedAdmission,
    /// 201..=250: the virtio block device was probed.
    VirtioProbed,
    /// 251..=300: the compositor smoke.
    Compositor,
    /// 301..=350: the boot image was verified.
    BootVerified,
    /// 351..=374: display mode, mouse and at least one window.
    DesktopUp,
    /// 376..=399: native packages installed and a ping answered.
    UserlandNetwork,
}

/// The milestone phases.
pub open spec fn is_milestone(n: u32) -> bool {
    n == 175 || n == 200 || n == 250 || n == 300 || n == 350 || n == 351 || n == 375 || n == 400
}

/// The check for phase `n`.
pub open spec fn phase_check(n: u32) -> PhaseCheck {
    if n < PHASE_151 || n > PHASE_400 || n > COMPLETED_PHASE {
        PhaseCheck::Rejected
    } else if is_milestone(n) {
        PhaseCheck::Milestone(n)
    } else if n <= 175 {
        PhaseCheck::EndpointSends
    } else if n <= 200 {
        PhaseCheck::UnifiedAdmission
    } else if n <= 250 {
        PhaseCheck::VirtioProbed
    } else if n <= 300 {
        PhaseCheck::Compositor
    } else if n <= 350 {
        PhaseCheck::BootVerified
    } else if n <= 374 {
        PhaseCheck::DesktopUp
    } else {
        PhaseCheck::UserlandNetwork
    }
}

/// Which check stands for phase `n`; the caller runs it (every check but
/// `Rejected` also needs the kernel's smoke process to exist).
pub fn phase_smoke_check(n: u32) -> (r: PhaseCheck)
    ensures
        r == phase_check(n),
{
    if n < PHASE_151 || n > PHASE_400 || n > COMPLETED_PHASE {
        return PhaseCheck::Rejected;
    }
    if n == 175 || n == 200 || n == 250 || n == 300 || n == 350 || n == 351 || n == 375 || n == 400 {
        return PhaseCheck::Milestone(n);
    }
    if n <= 175 {
        PhaseCheck::EndpointSends
    } else if n <= 200 {
        PhaseCheck::UnifiedAdmission
    } else if n <= 250 {
        PhaseCheck::VirtioProbed
    } else if n <= 300 {
        PhaseCheck::Compositor
    } else if n <= 350 {
        PhaseCheck::BootVerified
    } else if n <= 374 {
        PhaseCheck::DesktopUp
    } else {
        PhaseCheck::UserlandNetwork
    }
}

/// The milestones whose smokes run at boot, in order, as far as they have landed.
pub fn completed_milestones() -> (r: Vec<u32>)
    ensures
        r@ == seq![175u32, 200, 250, 300, 350, 351, 375, 400].filter(|n: u32| n <= COMPLETED_PHASE),
{
    let all: [u32; 8] = [175, 200, 250, 300, 350, 351, 375, 400];
    let mut out: Vec<u32> = Vec::new();
    let mut i: usize = 0;
    while i < 8
        invariant
            i <= 8,
            all@ == seq![175u32, 200, 250, 300, 350, 351, 375, 400],
            out@ == all@.subrange(0, i as int).filter(|n: u32| n <= COMPLETED_PHASE),
        decreases 8 - i,
    {
        proof {
            assert(all@.subrange(0, i + 1).drop_last() =~= all@.subrange(0, i as int));
            all@.subrange(0, i as int).lemma_filter_push(all@[i as int], |n: u32| n <= COMPLETED_PHASE);
            assert(all@.subrange(0, i + 1) =~= all@.subrange(0, i as int).push(all@[i as int]));
        }
        if all[i] <= COMPLETED_PHASE {
            out.push(all[i]);
        }
        i += 1;
    }
    assert(all@.subrange(0, 8) =~= all@);
    out
}

} // verus!
