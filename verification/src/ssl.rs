//! The certificate manager: when certificates are checked and renewed.
use vstd::prelude::*;

verus! {

/// What a look at a certificate showed.
#[derive(Debug, Clone, Copy, PartialEq, Eq, Structural)]
pub enum CertCheck {
    /// It is due for renewal.
    Due,
    /// It is not.
    Valid,
    /// It could not be read.
    Unreadable,
}

/// The check that the answer to "is it due?" comes to.
pub fn check_of<E>(due: &Result<bool, E>) -> (r: CertCheck)
    ensures
        r == match due {
            Ok(true) => CertCheck::Due,
            Ok(false) => CertCheck::Valid,
            Err(_) => CertCheck::Unreadable,
        },
{
    match due {
        Ok(b) => if *b {
            CertCheck::Due
        } else {
            CertCheck::Valid
        },
        Err(_) => CertCheck::Unreadable,
    }
}

/// Where the manager is in its round over the certificates.
#[derive(Debug, Clone, Copy, PartialEq, Eq, Structural)]
pub enum ManagerStage {
    /// The certificate at this position is being looked at.
    Checking(usize),
    /// The certificate at this position is being renewed.
    Renewing(usize),
    /// The round is over.
    Resting,
}

/// What came of the manager's last action.
#[derive(Debug, Clone, Copy, PartialEq, Eq, Structural)]
pub enum ManagerEvent {
    Checked(CertCheck),
    /// The renewal succeeded, or not.
    Renewed(bool),
    Rested,
}

/// What the manager does next.
#[derive(Debug, Clone, Copy, PartialEq, Eq, Structural)]
pub enum ManagerAction {
    /// Look at the certificate at this position.
    Check(usize),
    /// Renew the certificate at this position.
    Renew(usize),
    /// Wait for this many seconds.
    Rest(u64),
}

/// Seconds between two rounds: a day.
pub const ROUND_INTERVAL_SECS: u64 = 86400;

/// The round over `count` certificates from position `i` on.
pub open spec fn round_from(count: usize, i: int) -> (ManagerStage, ManagerAction) {
    if i < count {
        (ManagerStage::Checking(i as usize), ManagerAction::Check(i as usize))
    } else {
        (ManagerStage::Resting, ManagerAction::Rest(ROUND_INTERVAL_SECS))
    }
}

/// Whether an event is one that comes of the stage's own action.
pub open spec fn manager_expects(count: usize, stage: ManagerStage, event: ManagerEvent) -> bool {
    match stage {
        ManagerStage::Checking(i) => event is Checked && i < count,
        ManagerStage::Renewing(i) => event is Renewed && i < count,
        ManagerStage::Resting => event is Rested,
    }
}

/// How the manager goes on.
pub open spec fn manager_step_spec(count: usize, stage: ManagerStage, event: ManagerEvent) -> (
    ManagerStage,
    ManagerAction,
) {
    match (stage, event) {
        (ManagerStage::Checking(i), ManagerEvent::Checked(CertCheck::Valid)) => round_from(
            count,
            i + 1,
        ),
        (ManagerStage::Checking(i), _) => (ManagerStage::Renewing(i), ManagerAction::Renew(i)),
        (ManagerStage::Renewing(i), _) => round_from(count, i + 1),
        (ManagerStage::Resting, _) => round_from(count, 0),
    }
}

fn continue_round(count: usize, i: usize) -> (r: (ManagerStage, ManagerAction))
    ensures
        r == round_from(count, i as int),
{
    if i < count {
        (ManagerStage::Checking(i), ManagerAction::Check(i))
    } else {
        (ManagerStage::Resting, ManagerAction::Rest(ROUND_INTERVAL_SECS))
    }
}

/// Starts the manager on `count` certificates.
pub fn manager_start(count: usize) -> (r: (ManagerStage, ManagerAction))
    ensures
        r == round_from(count, 0),
{
    continue_round(count, 0)
}

/// Goes on after an event: a certificate that is due, or that cannot be read, is
/// renewed; whatever comes of it, the next one is looked at.
pub fn manager_step(count: usize, stage: ManagerStage, event: ManagerEvent) -> (r: (
    ManagerStage,
    ManagerAction,
))
    requires
        manager_expects(count, stage, event),
    ensures
        r == manager_step_spec(count, stage, event),
{
    match stage {
        ManagerStage::Checking(i) => match event {
            ManagerEvent::Checked(CertCheck::Valid) => continue_round(count, i + 1),
            _ => (ManagerStage::Renewing(i), ManagerAction::Renew(i)),
        },
        ManagerStage::Renewing(i) => continue_round(count, i + 1),
        ManagerStage::Resting => continue_round(count, 0),
    }
}

/// A certificate is renewed exactly if it is due or cannot be read.
pub proof fn due_or_unreadable_is_renewed(count: usize, i: usize, check: CertCheck)
    requires
        i < count,
    ensures
        manager_step_spec(count, ManagerStage::Checking(i), ManagerEvent::Checked(check)).1
            == ManagerAction::Renew(i) <==> check != CertCheck::Valid,
{
}

/// Where a round stands when the certificates at the first positions were looked at with
/// these outcomes: what each look showed, and whether a renewal that followed succeeded.
pub open spec fn round_after(count: usize, outcomes: Seq<(CertCheck, bool)>) -> (
    ManagerStage,
    ManagerAction,
)
    decreases outcomes.len(),
{
    if outcomes.len() == 0 {
        round_from(count, 0)
    } else {
        let (check, ok) = outcomes.last();
        let looked = manager_step_spec(
            count,
            round_after(count, outcomes.drop_last()).0,
            ManagerEvent::Checked(check),
        );
        if check == CertCheck::Valid {
            looked
        } else {
            manager_step_spec(count, looked.0, ManagerEvent::Renewed(ok))
        }
    }
}

/// No certificate is passed over, whatever was found or failed before it: after `n`
/// outcomes the one at position `n` is looked at, and after the last the manager rests
/// for a day, which a new round follows.
pub proof fn no_certificate_is_passed_over(count: usize, outcomes: Seq<(CertCheck, bool)>)
    requires
        outcomes.len() <= count,
    ensures
        round_after(count, outcomes) == round_from(count, outcomes.len() as int),
        outcomes.len() < count ==> round_after(count, outcomes).1 == ManagerAction::Check(
            outcomes.len() as usize,
        ),
        outcomes.len() == count ==> round_after(count, outcomes).1 == ManagerAction::Rest(86400),
        manager_step_spec(count, ManagerStage::Resting, ManagerEvent::Rested) == round_from(
            count,
            0,
        ),
    decreases outcomes.len(),
{
    if outcomes.len() > 0 {
        no_certificate_is_passed_over(count, outcomes.drop_last());
    }
}

/// A round starts at the first certificate and goes on to the next one, whatever came of the
/// one before, and after the last the manager rests for a day.
pub proof fn rounds_go_from_one_to_the_next(count: usize, i: usize, check: CertCheck, ok: bool)
    requires
        i < count,
    ensures
        round_from(count, 0) == (ManagerStage::Checking(0), ManagerAction::Check(0)),
        round_from(0, 0) == (ManagerStage::Resting, ManagerAction::Rest(86400)),
        manager_step_spec(
            count,
            ManagerStage::Checking(i),
            ManagerEvent::Checked(check),
        ) == if check != CertCheck::Valid {
            (ManagerStage::Renewing(i), ManagerAction::Renew(i))
        } else if i + 1 < count {
            (ManagerStage::Checking((i + 1) as usize), ManagerAction::Check((i + 1) as usize))
        } else {
            (ManagerStage::Resting, ManagerAction::Rest(86400))
        },
        manager_step_spec(
            count,
            ManagerStage::Renewing(i),
            ManagerEvent::Renewed(ok),
        ) == if i + 1 < count {
            (ManagerStage::Checking((i + 1) as usize), ManagerAction::Check((i + 1) as usize))
        } else {
            (ManagerStage::Resting, ManagerAction::Rest(86400))
        },
        manager_step_spec(count, ManagerStage::Resting, ManagerEvent::Rested) == (
            ManagerStage::Checking(0),
            ManagerAction::Check(0),
        ),
{
}

/// Every stage goes on with whatever comes of its own action.
pub proof fn every_manager_outcome_is_expected(count: usize, i: usize, check: CertCheck, ok: bool)
    requires
        i < count,
    ensures
        manager_expects(count, ManagerStage::Checking(i), ManagerEvent::Checked(check)),
        manager_expects(count, ManagerStage::Renewing(i), ManagerEvent::Renewed(ok)),
        manager_expects(count, ManagerStage::Resting, ManagerEvent::Rested),
{
}

} // verus!
