//! What the manager does at start and at its end: its arguments, the target to
//! start, the machine it runs on, and the transition it ends with.

use vstd::prelude::*;

use crate::emergency::BootMode;
use crate::event::loop_::LoopResult;
use crate::text;

verus! {

/// The option that asks for an introspection of a bus path.
pub const INTROSPECT: &'static str = "--bus-introspect";

/// The same option with its argument attached.
pub const INTROSPECT_JOINED: &'static str = "--bus-introspect=";

/// What is said where the option lacks its argument.
pub const INTROSPECT_ARGUMENT: &'static str = "rustd: option '--bus-introspect' requires an argument";

/// The bus path that arguments ask for: the first such option counts. Its
/// argument is attached, or the next one; the inner nothing says that it is
/// missing.
pub open spec fn introspection(args: Seq<Seq<char>>) -> Option<Option<Seq<char>>>
    decreases args.len(),
{
    if args.len() == 0 {
        None
    } else if INTROSPECT_JOINED@.is_prefix_of(args[0]) {
        Some(Some(args[0].skip(INTROSPECT_JOINED@.len() as int)))
    } else if args[0] == INTROSPECT@ {
        if args.len() > 1 {
            Some(Some(args[1]))
        } else {
            Some(None)
        }
    } else {
        introspection(args.drop_first())
    }
}

/// The bus path that arguments ask for, or what is wrong with the request.
pub fn bus_introspection_path(args: &Vec<String>) -> (r: Option<Result<String, &'static str>>)
    ensures
        match introspection(text::views(args@)) {
            None => r is None,
            Some(Some(path)) => r is Some && r->0 is Ok && r->0->Ok_0@ == path,
            Some(None) => r is Some && r->0 is Err && r->0->Err_0@ == INTROSPECT_ARGUMENT@,
        },
{
    let mut i: usize = 0;
    let ghost all = text::views(args@);
    assert(all.skip(0) =~= all);
    while i < args.len()
        invariant
            all == text::views(args@),
            i <= args@.len(),
            introspection(all) == introspection(all.skip(i as int)),
        decreases args@.len() - i,
    {
        let arg = args[i].as_str();
        let ghost left = all.skip(i as int);
        assert(left[0] == arg@);
        if text::starts_with(arg, INTROSPECT_JOINED) {
            let chars = text::chars_of(arg);
            let skip: usize = INTROSPECT_JOINED.unicode_len();
            let path = text::substring(&chars, skip, chars.len());
            assert(path@ =~= arg@.skip(skip as int));
            return Some(Ok(path));
        }
        if text::same(arg, INTROSPECT) {
            if i < args.len() - 1 {
                assert(left[1] == all[i + 1]);
                return Some(Ok(args[i + 1].clone()));
            }
            return Some(Err(INTROSPECT_ARGUMENT));
        }
        assert(left.drop_first() =~= all.skip(i + 1));
        i += 1;
    }
    None
}

/// Whether arguments ask for a manager of one user: the last word counts.
pub open spec fn asks_for_user(args: Seq<Seq<char>>) -> bool
    decreases args.len(),
{
    if args.len() == 0 {
        false
    } else if args.last() == "--user"@ {
        true
    } else if args.last() == "--system"@ {
        false
    } else {
        asks_for_user(args.drop_last())
    }
}

/// Whether an argument is an option.
pub open spec fn is_option(arg: Seq<char>) -> bool {
    arg.len() > 0 && arg[0] == '-'
}

/// The target that arguments name: the first that is not an option.
pub open spec fn named_target(args: Seq<Seq<char>>) -> Option<Seq<char>>
    decreases args.len(),
{
    if args.len() == 0 {
        None
    } else {
        match named_target(args.drop_last()) {
            Some(target) => Some(target),
            None => if is_option(args.last()) {
                None
            } else {
                Some(args.last())
            },
        }
    }
}

/// What the arguments ask for.
#[derive(Debug)]
pub struct Arguments {
    pub user_mode: bool,
    pub target: Option<String>,
}

/// Read the arguments.
pub fn parse_arguments(args: &Vec<String>) -> (r: Arguments)
    ensures
        r.user_mode == asks_for_user(text::views(args@)),
        text::opt_view(r.target) == named_target(text::views(args@)),
{
    let ghost all = text::views(args@);
    let mut user_mode = false;
    let mut target: Option<String> = None;
    let mut i: usize = 0;
    assert(all.take(0) =~= Seq::empty());
    proof {
        reveal_strlit("--user");
        reveal_strlit("--system");
        assert("--user"@[0] == '-' && "--system"@[0] == '-' && "--user"@.len() == 6 && "--system"@.len() == 8);
    }
    while i < args.len()
        invariant
            all == text::views(args@),
            "--user"@[0] == '-' && "--system"@[0] == '-' && "--user"@.len() == 6 && "--system"@.len() == 8,
            i <= args@.len(),
            user_mode == asks_for_user(all.take(i as int)),
            text::opt_view(target) == named_target(all.take(i as int)),
        decreases args@.len() - i,
    {
        let arg = args[i].as_str();
        proof {
            assert(all.take(i + 1).drop_last() =~= all.take(i as int));
            assert(all.take(i + 1).last() == arg@);
        }
        if text::same(arg, "--user") {
            user_mode = true;
        } else if text::same(arg, "--system") {
            user_mode = false;
        } else {
            let chars = text::chars_of(arg);
            let option = chars.len() > 0 && chars[0] == '-';
            if !option && target.is_none() {
                target = Some(args[i].clone());
            }
        }
        i += 1;
    }
    assert(all.take(i as int) =~= all);
    Arguments { user_mode, target }
}

/// What the kernel command line says to the manager.
#[derive(Debug)]
pub struct KernelCmdline {
    pub emergency: bool,
    pub rescue: bool,
    pub debug: bool,
    /// The unit to start.
    pub unit: Option<String>,
    pub default_timeout_start_sec: Option<u64>,
    pub log_level: Option<String>,
    pub log_target: Option<String>,
}

/// The boot mode that the kernel command line asks for.
pub open spec fn mode_of(cmdline: KernelCmdline) -> BootMode {
    if cmdline.emergency {
        BootMode::Emergency
    } else if cmdline.rescue {
        BootMode::Rescue
    } else {
        BootMode::Normal
    }
}

/// The boot mode that the kernel command line asks for.
pub fn boot_mode(cmdline: &KernelCmdline) -> (r: BootMode)
    ensures
        r == mode_of(*cmdline),
{
    if cmdline.emergency {
        BootMode::Emergency
    } else if cmdline.rescue {
        BootMode::Rescue
    } else {
        BootMode::Normal
    }
}

/// The target to start: the one named, else for a user the default one, else
/// the one of the kernel command line, else that of the boot mode.
pub fn initial_target(args: &Arguments, cmdline: &KernelCmdline) -> (r: String)
    ensures
        r@ == match args.target {
            Some(target) => target@,
            None => if args.user_mode {
                "default.target"@
            } else {
                match cmdline.unit {
                    Some(unit) => unit@,
                    None => mode_of(*cmdline).target(),
                }
            },
        },
{
    match &args.target {
        Some(target) => target.clone(),
        None => {
            if args.user_mode {
                "default.target".to_owned()
            } else {
                match &cmdline.unit {
                    Some(unit) => unit.clone(),
                    None => boot_mode(cmdline).target_name().to_owned(),
                }
            }
        },
    }
}

/// The settings that the kernel command line may override.
#[derive(Debug)]
pub struct Overridable {
    pub default_timeout_start_sec: u64,
    pub log_level: String,
    pub log_target: String,
}

/// Take over what the kernel command line says. It speaks to the system
/// manager only.
pub fn apply_cmdline(settings: &mut Overridable, user_mode: bool, cmdline: &KernelCmdline)
    ensures
        user_mode ==> *final(settings) == *old(settings),
        !user_mode ==> {
            &&& final(settings).default_timeout_start_sec == match cmdline.default_timeout_start_sec {
                Some(secs) => secs,
                None => old(settings).default_timeout_start_sec,
            }
            &&& final(settings).log_level@ == match cmdline.log_level {
                Some(level) => level@,
                None => if cmdline.debug {
                    "debug"@
                } else {
                    old(settings).log_level@
                },
            }
            &&& final(settings).log_target@ == match cmdline.log_target {
                Some(target) => target@,
                None => old(settings).log_target@,
            }
        },
{
    if user_mode {
        return;
    }
    if let Some(secs) = cmdline.default_timeout_start_sec {
        settings.default_timeout_start_sec = secs;
    }
    match &cmdline.log_level {
        Some(level) => {
            settings.log_level = level.clone();
        },
        None => {
            if cmdline.debug {
                settings.log_level = "debug".to_owned();
            }
        },
    }
    if let Some(target) = &cmdline.log_target {
        settings.log_target = target.clone();
    }
}

/// What has to be set up before the manager starts.
#[derive(Debug, Clone, Copy, PartialEq, Eq, Structural)]
pub enum Preparation {
    /// Nothing.
    Nothing,
    /// Mount the kernel file systems, and take over the control groups.
    BareMetal,
    /// Take over the control groups of the container.
    RootfulContainer,
    /// Take over the control groups given to the user.
    RootlessContainer,
    /// The user was given no control groups: refuse to start.
    Refuse,
}

/// What has to be set up before the manager starts. The first process of a
/// machine or a container needs control groups, and so does a user's manager
/// in a container.
pub fn preparation(user_mode: bool, first_process: bool, in_container: bool, cgroup_root_given: bool) -> (r: Preparation)
    ensures
        r == if !user_mode && first_process {
            if in_container {
                Preparation::RootfulContainer
            } else {
                Preparation::BareMetal
            }
        } else if user_mode && in_container {
            if cgroup_root_given {
                Preparation::RootlessContainer
            } else {
                Preparation::Refuse
            }
        } else {
            Preparation::Nothing
        },
{
    if !user_mode && first_process {
        if in_container {
            Preparation::RootfulContainer
        } else {
            Preparation::BareMetal
        }
    } else if user_mode && in_container {
        if cgroup_root_given {
            Preparation::RootlessContainer
        } else {
            Preparation::Refuse
        }
    } else {
        Preparation::Nothing
    }
}

/// What happens to the machine when the manager has ended.
#[derive(Debug, Clone, Copy, PartialEq, Eq, Structural)]
pub enum Transition {
    /// Nothing.
    Nothing,
    /// A user's manager may not do this to the machine.
    Suppressed(LoopResult),
    Reboot,
    Poweroff,
    Halt,
    Kexec,
    /// The manager replaces itself.
    Reexecute,
}

/// What happens to the machine when the manager has ended with a result.
pub open spec fn transition_of(result: LoopResult, user_mode: bool) -> Transition {
    match result {
        LoopResult::Exit | LoopResult::Continue => Transition::Nothing,
        LoopResult::Reexecute => Transition::Reexecute,
        _ => if user_mode {
            Transition::Suppressed(result)
        } else {
            match result {
                LoopResult::Reboot => Transition::Reboot,
                LoopResult::Poweroff => Transition::Poweroff,
                LoopResult::Halt => Transition::Halt,
                _ => Transition::Kexec,
            }
        },
    }
}

/// What happens to the machine when the manager has ended with a result.
pub fn transition(result: LoopResult, user_mode: bool) -> (r: Transition)
    ensures
        r == transition_of(result, user_mode),
{
    match result {
        LoopResult::Exit | LoopResult::Continue => Transition::Nothing,
        LoopResult::Reexecute => Transition::Reexecute,
        LoopResult::Reboot => {
            if user_mode {
                Transition::Suppressed(result)
            } else {
                Transition::Reboot
            }
        },
        LoopResult::Poweroff => {
            if user_mode {
                Transition::Suppressed(result)
            } else {
                Transition::Poweroff
            }
        },
        LoopResult::Halt => {
            if user_mode {
                Transition::Suppressed(result)
            } else {
                Transition::Halt
            }
        },
        LoopResult::Kexec => {
            if user_mode {
                Transition::Suppressed(result)
            } else {
                Transition::Kexec
            }
        },
    }
}

/// A user's manager never changes the state of the machine.
pub proof fn law_user_manager_leaves_the_machine_alone(result: LoopResult)
    ensures
        ({
            let t = transition_of(result, true);
            !(t is Reboot) && !(t is Poweroff) && !(t is Halt) && !(t is Kexec)
        }),
{
}

/// The first argument that asks for an introspection decides: joined with its
/// path, or followed by it; a path is missing where nothing follows.
pub proof fn law_the_first_introspection_counts(before: Seq<Seq<char>>, path: Seq<char>, after: Seq<Seq<char>>)
    requires
        forall|i: int|
            0 <= i < before.len() ==> #[trigger] before[i] != "--bus-introspect"@ && !"--bus-introspect="@.is_prefix_of(before[i]),
    ensures
        introspection(before) is None,
        introspection(before.push("--bus-introspect="@ + path) + after) == Some(Some(path)),
        introspection(before.push("--bus-introspect"@).push(path) + after) == Some(Some(path)),
        introspection(before.push("--bus-introspect"@)) == Some(None::<Seq<char>>),
    decreases before.len(),
{
    reveal_strlit("--bus-introspect");
    reveal_strlit("--bus-introspect=");
    let joined = before.push("--bus-introspect="@ + path) + after;
    let apart = before.push("--bus-introspect"@).push(path) + after;
    let last = before.push("--bus-introspect"@);
    if before.len() == 0 {
        let a = "--bus-introspect="@ + path;
        assert(joined[0] == a);
        assert("--bus-introspect="@ =~= a.subrange(0, "--bus-introspect="@.len() as int));
        assert(a.skip("--bus-introspect="@.len() as int) =~= path);
        assert(apart[0] == "--bus-introspect"@ && apart[1] == path);
        assert(last[0] == "--bus-introspect"@);
    } else {
        let rest = before.drop_first();
        assert forall|i: int| 0 <= i < rest.len() implies #[trigger] rest[i] != "--bus-introspect"@ && !"--bus-introspect="@.is_prefix_of(rest[i]) by {
            assert(rest[i] == before[i + 1]);
        }
        law_the_first_introspection_counts(rest, path, after);
        assert(joined.drop_first() =~= rest.push("--bus-introspect="@ + path) + after);
        assert(apart.drop_first() =~= rest.push("--bus-introspect"@).push(path) + after);
        assert(last.drop_first() =~= rest.push("--bus-introspect"@));
        assert(joined[0] == before[0] && apart[0] == before[0] && last[0] == before[0]);
    }
}

/// Of `--user` and `--system` the last one counts; without either the manager
/// is that of the system.
pub proof fn law_the_last_mode_counts(before: Seq<Seq<char>>, after: Seq<Seq<char>>)
    requires
        forall|i: int| 0 <= i < after.len() ==> #[trigger] after[i] != "--user"@ && after[i] != "--system"@,
    ensures
        !asks_for_user(after),
        asks_for_user(before.push("--user"@) + after),
        !asks_for_user(before.push("--system"@) + after),
    decreases after.len(),
{
    reveal_strlit("--user");
    reveal_strlit("--system");
    let user = before.push("--user"@) + after;
    let system = before.push("--system"@) + after;
    if after.len() == 0 {
        assert(user.last() == "--user"@);
        assert(system.last() == "--system"@);
        assert("--user"@.len() != "--system"@.len());
    } else {
        let rest = after.drop_last();
        assert forall|i: int| 0 <= i < rest.len() implies #[trigger] rest[i] != "--user"@ && rest[i] != "--system"@ by {
            assert(rest[i] == after[i]);
        }
        law_the_last_mode_counts(before, rest);
        assert(user.drop_last() =~= before.push("--user"@) + rest);
        assert(system.drop_last() =~= before.push("--system"@) + rest);
        assert(user.last() == after.last() && system.last() == after.last());
    }
}

/// The target is the first argument that is no option.
pub proof fn law_the_first_target_counts(before: Seq<Seq<char>>, target: Seq<char>, after: Seq<Seq<char>>)
    requires
        forall|i: int| 0 <= i < before.len() ==> (#[trigger] before[i]).len() > 0 && before[i][0] == '-',
        target.len() == 0 || target[0] != '-',
    ensures
        named_target(before) is None,
        named_target(before.push(target) + after) == Some(target),
    decreases before.len(), after.len(),
{
    if before.len() > 0 {
        let less = before.drop_last();
        assert forall|i: int| 0 <= i < less.len() implies (#[trigger] less[i]).len() > 0 && less[i][0] == '-' by {
            assert(less[i] == before[i]);
        }
        law_the_first_target_counts(less, target, Seq::empty());
        assert(is_option(before.last()));
    }
    let all = before.push(target) + after;
    if after.len() == 0 {
        assert(all =~= before.push(target));
        assert(all.drop_last() =~= before);
    } else {
        law_the_first_target_counts(before, target, after.drop_last());
        assert(all.drop_last() =~= before.push(target) + after.drop_last());
    }
}

/// What the kernel's command line asks for: the emergency before the rescue.
pub proof fn law_which_start_the_kernel_asks_for(cmdline: KernelCmdline)
    ensures
        cmdline.emergency <==> mode_of(cmdline) is Emergency,
        !cmdline.emergency && cmdline.rescue <==> mode_of(cmdline) is Rescue,
        !cmdline.emergency && !cmdline.rescue <==> mode_of(cmdline) is Normal,
{
}

/// What the process does at its end. Only the manager of the system brings the
/// machine down; either starts itself anew where it was asked to.
pub proof fn law_what_follows_the_loop(result: LoopResult, user_mode: bool)
    ensures
        result is Exit || result is Continue <==> transition_of(result, user_mode) is Nothing,
        result is Reexecute <==> transition_of(result, user_mode) is Reexecute,
        user_mode && (result is Reboot || result is Poweroff || result is Halt || result is Kexec) ==> transition_of(result, user_mode)
            == Transition::Suppressed(result),
        !user_mode ==> {
            &&& result is Reboot <==> transition_of(result, user_mode) is Reboot
            &&& result is Poweroff <==> transition_of(result, user_mode) is Poweroff
            &&& result is Halt <==> transition_of(result, user_mode) is Halt
            &&& result is Kexec <==> transition_of(result, user_mode) is Kexec
        },
{
}

} // verus!
