//! Emergency and rescue targets.

use vstd::prelude::*;

use crate::event::loop_::LoopResult;
use crate::job::{installed, JobKind, JobQueue, JobRegistry, JobView};

verus! {

/// The boot mode implied by the kernel command line or an internal fault.
#[derive(Debug, Clone, Copy, PartialEq, Eq, Structural)]
pub enum BootMode {
    /// Normal boot.
    Normal,
    /// Rescue mode.
    Rescue,
    /// Emergency mode, or escalated from a failed rescue.
    Emergency,
}

impl Default for BootMode {
    fn default() -> (r: Self)
        ensures
            r == BootMode::Normal,
    {
        BootMode::Normal
    }
}

impl BootMode {
    /// The name of the target of a mode.
    pub open spec fn target(self) -> Seq<char> {
        match self {
            BootMode::Normal => "default.target"@,
            BootMode::Rescue => "rescue.target"@,
            BootMode::Emergency => "emergency.target"@,
        }
    }

    /// The canonical target unit name for this mode.
    pub fn target_name(self) -> (r: &'static str)
        ensures
            r@ == self.target(),
    {
        match self {
            BootMode::Normal => "default.target",
            BootMode::Rescue => "rescue.target",
            BootMode::Emergency => "emergency.target",
        }
    }
}

/// What the manager should do after all emergency hooks have run.
#[derive(Debug, Clone, Copy, PartialEq, Eq, Structural)]
pub enum EmergencyAction {
    /// No automatic action: wait for the administrator.
    Nothing,
    /// Exit the manager.
    Exit,
    /// Reboot the machine.
    Reboot,
    /// Power off the machine.
    Poweroff,
    /// Halt the machine.
    Halt,
    /// Jump into a kexec kernel.
    Kexec,
}

impl Default for EmergencyAction {
    fn default() -> (r: Self)
        ensures
            r == EmergencyAction::Nothing,
    {
        EmergencyAction::Nothing
    }
}

impl EmergencyAction {
    /// What the event loop is asked to do, if anything. Where no kexec kernel
    /// is loaded, kexec is a reboot.
    pub fn to_loop_result(self) -> (r: Option<LoopResult>)
        ensures
            r == match self {
                EmergencyAction::Nothing => None,
                EmergencyAction::Exit => Some(LoopResult::Exit),
                EmergencyAction::Reboot | EmergencyAction::Kexec => Some(LoopResult::Reboot),
                EmergencyAction::Poweroff => Some(LoopResult::Poweroff),
                EmergencyAction::Halt => Some(LoopResult::Halt),
            },
    {
        match self {
            EmergencyAction::Nothing => None,
            EmergencyAction::Exit => Some(LoopResult::Exit),
            EmergencyAction::Reboot | EmergencyAction::Kexec => Some(LoopResult::Reboot),
            EmergencyAction::Poweroff => Some(LoopResult::Poweroff),
            EmergencyAction::Halt => Some(LoopResult::Halt),
        }
    }
}

/// Enqueue the target of `mode`, so that the manager activates the fallback on
/// the next loop iteration.
pub fn enqueue_fallback(mode: BootMode, queue: &mut JobQueue, registry: &mut JobRegistry)
    requires
        old(registry).wf(),
        old(registry)@.next_id < u32::MAX,
    ensures
        final(registry).wf(),
        final(registry)@ == installed(old(registry)@, JobKind::Start, mode.target(), None),
        final(queue)@ == old(queue)@.push(
            JobView { id: old(registry)@.next_id, kind: JobKind::Start, unit: mode.target() },
        ),
{
    queue.enqueue(registry, JobKind::Start, mode.target_name());
}

/// Each way to start up has its target.
pub proof fn law_each_way_to_start_has_its_target(mode: BootMode)
    ensures
        mode is Normal ==> mode.target() == "default.target"@,
        mode is Rescue ==> mode.target() == "rescue.target"@,
        mode is Emergency ==> mode.target() == "emergency.target"@,
{
}

} // verus!
