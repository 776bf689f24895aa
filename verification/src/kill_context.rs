//! Which processes of a service get which signals when it is stopped,
//! restarted, timed out, or misses its watchdog.

use vstd::prelude::*;

use crate::sys;
use crate::unit::{KillMode, ServiceSection};

verus! {

/// Signal operation selected by the service state machine.
#[derive(Debug, Clone, Copy, PartialEq, Eq, Structural)]
pub enum KillOperation {
    Terminate,
    Restart,
    Kill,
    Watchdog,
}

/// The settings of a service on signals, with defaults filled in.
#[derive(Debug, Clone, Copy, PartialEq, Eq, Structural)]
pub struct KillPolicy {
    pub mode: KillMode,
    pub kill_signal: i32,
    pub restart_kill_signal: i32,
    pub final_kill_signal: i32,
    pub watchdog_signal: i32,
    pub send_sigkill: bool,
    pub send_sighup: bool,
}

/// A setting, or its default.
pub open spec fn or_default<T>(setting: Option<T>, default: T) -> T {
    match setting {
        Some(value) => value,
        None => default,
    }
}

/// The policy that a service's settings make.
pub open spec fn policy_of(section: ServiceSection) -> KillPolicy {
    let kill_signal = or_default(section.kill_signal, sys::SIGTERM);
    KillPolicy {
        mode: section.kill_mode,
        kill_signal,
        restart_kill_signal: or_default(section.restart_kill_signal, kill_signal),
        final_kill_signal: or_default(section.final_kill_signal, sys::SIGKILL),
        watchdog_signal: or_default(section.watchdog_signal, sys::SIGABRT),
        send_sigkill: or_default(section.send_sigkill, true),
        send_sighup: section.send_sighup,
    }
}

impl KillPolicy {
    /// The signal of an operation, if one is sent.
    pub open spec fn signal_for(self, operation: KillOperation) -> Option<i32> {
        if self.mode == KillMode::Nothing {
            None
        } else {
            match operation {
                KillOperation::Terminate => Some(self.kill_signal),
                KillOperation::Restart => Some(self.restart_kill_signal),
                KillOperation::Kill => if self.send_sigkill {
                    Some(self.final_kill_signal)
                } else {
                    None
                },
                KillOperation::Watchdog => Some(self.watchdog_signal),
            }
        }
    }

    /// Whether a hangup follows the signal.
    pub open spec fn hangs_up(self, operation: KillOperation) -> bool {
        self.send_sighup && (operation == KillOperation::Terminate || operation == KillOperation::Restart)
    }

    /// Whether the other processes of the control group get the signal too.
    pub open spec fn reaches_group(self, operation: KillOperation) -> bool {
        self.mode == KillMode::ControlGroup || (self.mode == KillMode::Mixed && operation == KillOperation::Kill)
    }

    /// The policy that a service's settings make.
    pub fn from_service(section: &ServiceSection) -> (r: Self)
        ensures
            r == policy_of(*section),
    {
        let kill_signal: i32 = match section.kill_signal {
            Some(signal) => signal,
            None => sys::SIGTERM,
        };
        KillPolicy {
            mode: section.kill_mode,
            kill_signal,
            restart_kill_signal: match section.restart_kill_signal {
                Some(signal) => signal,
                None => kill_signal,
            },
            final_kill_signal: match section.final_kill_signal {
                Some(signal) => signal,
                None => sys::SIGKILL,
            },
            watchdog_signal: match section.watchdog_signal {
                Some(signal) => signal,
                None => sys::SIGABRT,
            },
            send_sigkill: match section.send_sigkill {
                Some(send) => send,
                None => true,
            },
            send_sighup: section.send_sighup,
        }
    }

    /// The signal of an operation, if one is sent.
    pub fn signal(self, operation: KillOperation) -> (r: Option<i32>)
        ensures
            r == self.signal_for(operation),
    {
        if self.mode == KillMode::Nothing {
            return None;
        }
        match operation {
            KillOperation::Terminate => Some(self.kill_signal),
            KillOperation::Restart => Some(self.restart_kill_signal),
            KillOperation::Kill => {
                if self.send_sigkill {
                    Some(self.final_kill_signal)
                } else {
                    None
                }
            },
            KillOperation::Watchdog => Some(self.watchdog_signal),
        }
    }

    /// Whether a hangup follows the signal.
    pub fn send_hup(self, operation: KillOperation) -> (r: bool)
        ensures
            r == self.hangs_up(operation),
    {
        self.send_sighup && (operation == KillOperation::Terminate || operation == KillOperation::Restart)
    }

    /// Whether the other processes of the control group get the signal too.
    pub fn signal_group(self, operation: KillOperation) -> (r: bool)
        ensures
            r == self.reaches_group(operation),
    {
        self.mode == KillMode::ControlGroup || (self.mode == KillMode::Mixed && operation == KillOperation::Kill)
    }
}

/// Signals to send: to each of these processes, this signal, and then a hangup
/// where that follows.
#[derive(Debug)]
pub struct SignalPlan {
    pub pids: Vec<i32>,
    pub signal: i32,
    pub hangup: bool,
}

/// The processes among a service's main and control process that can get a
/// signal, each once.
pub open spec fn primary_pids(main_pid: Option<i32>, control_pid: Option<i32>) -> Seq<i32> {
    let first = match main_pid {
        Some(pid) if pid > 0 => seq![pid],
        _ => Seq::empty(),
    };
    match control_pid {
        Some(pid) if pid > 0 && main_pid != Some(pid) => first.push(pid),
        _ => first,
    }
}

/// Which of the tracked processes get which signal. Nothing where the policy
/// sends none.
pub fn signal_primary(
    policy: KillPolicy,
    main_pid: Option<i32>,
    control_pid: Option<i32>,
    operation: KillOperation,
) -> (r: Option<SignalPlan>)
    ensures
        match r {
            Some(plan) => policy.signal_for(operation) == Some(plan.signal) && plan.pids@ == primary_pids(
                main_pid,
                control_pid,
            ) && plan.hangup == policy.hangs_up(operation),
            None => policy.signal_for(operation) is None,
        },
{
    let signal: i32 = match policy.signal(operation) {
        Some(signal) => signal,
        None => return None,
    };
    let mut pids: Vec<i32> = Vec::new();
    if let Some(pid) = main_pid {
        if pid > 0 {
            pids.push(pid);
        }
    }
    if let Some(pid) = control_pid {
        let same = match main_pid {
            Some(main) => main == pid,
            None => false,
        };
        if pid > 0 && !same {
            pids.push(pid);
        }
    }
    assert(pids@ =~= primary_pids(main_pid, control_pid));
    Some(SignalPlan { pids, signal, hangup: policy.send_hup(operation) })
}

/// The signals that the remaining members of the control group get, in order.
pub open spec fn group_signals(policy: KillPolicy, operation: KillOperation) -> Seq<i32> {
    match policy.signal_for(operation) {
        Some(signal) if policy.reaches_group(operation) => if policy.hangs_up(operation) {
            seq![signal, sys::SIGHUP]
        } else {
            seq![signal]
        },
        _ => Seq::empty(),
    }
}

/// The signals that the members of the control group other than the main and
/// the control process get, in order.
pub fn signal_cgroup_members(policy: KillPolicy, operation: KillOperation) -> (r: Vec<i32>)
    ensures
        r@ == group_signals(policy, operation),
{
    let mut signals: Vec<i32> = Vec::new();
    if let Some(signal) = policy.signal(operation) {
        if policy.signal_group(operation) {
            signals.push(signal);
            if policy.send_hup(operation) {
                signals.push(sys::SIGHUP);
            }
        }
    }
    assert(signals@ =~= group_signals(policy, operation));
    signals
}

/// A service that is not to be killed gets no signal from any operation.
pub proof fn law_no_mode_no_signal(policy: KillPolicy, operation: KillOperation)
    requires
        policy.mode == KillMode::Nothing,
    ensures
        policy.signal_for(operation) is None,
        group_signals(policy, operation) == Seq::<i32>::empty(),
{
}

/// In mixed mode the control group is reached by the final kill and by no
/// other operation.
pub proof fn law_mixed_reaches_group_only_at_the_end(policy: KillPolicy, operation: KillOperation)
    requires
        policy.mode == KillMode::Mixed,
    ensures
        policy.reaches_group(operation) <==> operation == KillOperation::Kill,
{
}

/// What a service says of its signals. Unless it says otherwise it is stopped
/// with `SIGTERM`, also for a restart, killed with `SIGKILL`, and ended with
/// `SIGABRT` where it hangs.
pub proof fn law_which_signals_a_service_gets(section: ServiceSection)
    ensures
        policy_of(section).mode == section.kill_mode,
        policy_of(section).send_sighup == section.send_sighup,
        section.kill_signal is Some ==> policy_of(section).kill_signal == section.kill_signal->0,
        section.kill_signal is None ==> policy_of(section).kill_signal == 15,
        section.restart_kill_signal is Some ==> policy_of(section).restart_kill_signal == section.restart_kill_signal->0,
        section.restart_kill_signal is None ==> policy_of(section).restart_kill_signal == policy_of(section).kill_signal,
        section.final_kill_signal is Some ==> policy_of(section).final_kill_signal == section.final_kill_signal->0,
        section.final_kill_signal is None ==> policy_of(section).final_kill_signal == 9,
        section.watchdog_signal is Some ==> policy_of(section).watchdog_signal == section.watchdog_signal->0,
        section.watchdog_signal is None ==> policy_of(section).watchdog_signal == 6,
        section.send_sigkill is Some ==> policy_of(section).send_sigkill == section.send_sigkill->0,
        section.send_sigkill is None ==> policy_of(section).send_sigkill,
{
}

/// What is sent, for what: nothing where nothing is to be killed; each
/// operation has its signal; killing may be switched off. A hangup follows only
/// when a service is stopped or restarted. The whole group is reached in the
/// mode for it, and in the mixed mode when it is killed.
pub proof fn law_what_is_sent_for_what(policy: KillPolicy, operation: KillOperation)
    ensures
        policy.mode is Nothing ==> policy.signal_for(operation) is None && group_signals(policy, operation).len() == 0,
        !(policy.mode is Nothing) ==> {
            &&& policy.signal_for(KillOperation::Terminate) == Some(policy.kill_signal)
            &&& policy.signal_for(KillOperation::Restart) == Some(policy.restart_kill_signal)
            &&& policy.signal_for(KillOperation::Watchdog) == Some(policy.watchdog_signal)
            &&& policy.send_sigkill ==> policy.signal_for(KillOperation::Kill) == Some(policy.final_kill_signal)
            &&& !policy.send_sigkill ==> policy.signal_for(KillOperation::Kill) is None
        },
        policy.hangs_up(operation) <==> policy.send_sighup && (operation is Terminate || operation is Restart),
        policy.mode is ControlGroup ==> policy.reaches_group(operation),
        policy.mode is Mixed ==> (policy.reaches_group(operation) <==> operation is Kill),
        !(policy.mode is ControlGroup) && !(policy.mode is Mixed) ==> !policy.reaches_group(operation),
        ({
            let sent = group_signals(policy, operation);
            let all = policy.mode is ControlGroup || (policy.mode is Mixed && operation is Kill);
            &&& !all || policy.signal_for(operation) is None ==> sent.len() == 0
            &&& all && policy.signal_for(operation) is Some ==> sent.len() > 0 && sent[0] == policy.signal_for(operation)->0
            &&& all && policy.signal_for(operation) is Some && policy.send_sighup && (operation is Terminate || operation is Restart) ==> sent.len() == 2
                && sent[1] == 1
            &&& all && policy.signal_for(operation) is Some && !(policy.send_sighup && (operation is Terminate || operation is Restart)) ==> sent.len() == 1
        }),
{
}

/// Signals go to the main process and the control process where there are such,
/// to the main process first, and to none twice.
pub proof fn law_which_processes_are_signalled(main_pid: Option<i32>, control_pid: Option<i32>, pid: i32)
    ensures
        ({
            let pids = primary_pids(main_pid, control_pid);
            let has_main = main_pid is Some && main_pid->0 > 0;
            let has_control = control_pid is Some && control_pid->0 > 0;
            &&& pids.contains(pid) <==> pid > 0 && (main_pid == Some(pid) || control_pid == Some(pid))
            &&& pids.len() <= 2
            &&& pids.len() == 2 ==> pids[0] == main_pid->0 && pids[1] == control_pid->0 && pids[0] != pids[1]
            &&& has_main && has_control && main_pid != control_pid ==> pids.len() == 2
            &&& has_main && main_pid == control_pid ==> pids.len() == 1
        }),
{
    let pids = primary_pids(main_pid, control_pid);
    if main_pid is Some && main_pid->0 > 0 {
        assert(pids[0] == main_pid->0);
        assert(pids.contains(pids[0]));
    }
    if control_pid is Some && control_pid->0 > 0 {
        assert(pids.contains(pids[pids.len() - 1]));
    }
}

} // verus!
