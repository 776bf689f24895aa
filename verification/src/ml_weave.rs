//! What the learned scheduling hints keep and decide without arithmetic on
//! reals: the table of units, the shaping of a decision, the file of weights
//! and rendered pictures.

use vstd::prelude::*;
use vstd::utf8::{decode_utf8, encode_utf8, valid_utf8};

use crate::text;

verus! {

/// Width of the feature vector that every head sees.
pub const FEAT_DIM: usize = 32;

/// Size of the reservoir's readout.
pub const RESERVOIR_DIM: usize = 12;

/// Number of scales that are probed.
pub const MANDEL_SCALES: usize = 4;

/// Most units that are remembered.
pub const MAX_UNIT_SLOTS: usize = 512;

pub const WEAVE_VERSION: &'static str = "ml-weave/1.0.0-lorenz-mandelbrot";

/// Where the manager asks for hints and reports what came of them.
pub const INTEGRATION_GUIDE: &'static str = "\nrustd ml-weave integration\n===============================\n1. Feature-gate: ml-weave\n2. Manager tick  -> weave_tick / observe_pressure\n3. Job dispatch  -> weave_job_score / weave_should_defer\n4. Service start -> weave_on_starting + cpu_weight\n5. READY=1       -> weave_on_ready\n6. Failure       -> weave_on_failed + restart_delay_ms\n7. Timers        -> weave_timer_slack_us\n8. IPC           -> weave_status / weave_explain\n9. Shutdown      -> weave_save_weights\n10. Boot         -> weave_load_weights\n";

/// Where the 64-bit FNV-1a hash begins.
pub const FNV_OFFSET: u64 = 0xcbf2_9ce4_8422_2325;

/// What it multiplies by.
pub const FNV_PRIME: u64 = 0x0100_0000_01b3;

/// The 64-bit FNV-1a hash of bytes.
pub open spec fn fnv(data: Seq<u8>) -> u64
    decreases data.len(),
{
    if data.len() == 0 {
        FNV_OFFSET
    } else {
        ((fnv(data.drop_last()) ^ (data.last() as u64)) * FNV_PRIME % 0x1_0000_0000_0000_0000) as u64
    }
}

/// The 64-bit FNV-1a hash of bytes.
pub fn fnv1a64(data: &[u8]) -> (r: u64)
    ensures
        r == fnv(data@),
{
    let mut h: u64 = FNV_OFFSET;
    let mut i: usize = 0;
    assert(data@.take(0) =~= Seq::<u8>::empty());
    while i < data.len()
        invariant
            i <= data@.len(),
            h == fnv(data@.take(i as int)),
        decreases data@.len() - i,
    {
        assert(data@.take(i + 1).drop_last() =~= data@.take(i as int));
        h = (h ^ data[i] as u64).wrapping_mul(FNV_PRIME);
        i += 1;
    }
    assert(data@.take(i as int) =~= data@);
    h
}

/// The hash of a unit's name.
pub open spec fn unit_hash(name: Seq<char>) -> u64 {
    fnv(encode_utf8(name))
}

/// The hash of a unit's name.
pub fn hash_unit(name: &str) -> (r: u64)
    ensures
        r == unit_hash(name@),
{
    let bytes = text::bytes_of(name);
    fnv1a64(bytes.as_slice())
}

/// What is remembered of one unit; `stats` is what is learned of it.
#[derive(Debug)]
pub struct UnitSlot<S> {
    pub hash: u64,
    /// When it was last used, by the table's count.
    pub epoch: u64,
    pub last_fail_ns: u64,
    pub last_start_ns: u64,
    pub last_ready_ns: u64,
    pub is_oneshot: bool,
    pub is_socket_act: bool,
    pub observations: u64,
    pub stats: S,
}

/// A slot for a unit that was not known.
pub open spec fn fresh_slot<S>(hash: u64, epoch: u64, stats: S) -> UnitSlot<S> {
    UnitSlot {
        hash,
        epoch,
        last_fail_ns: 0,
        last_start_ns: 0,
        last_ready_ns: 0,
        is_oneshot: false,
        is_socket_act: false,
        observations: 0,
        stats,
    }
}

impl<S> UnitSlot<S> {
    fn fresh(hash: u64, epoch: u64, stats: S) -> (r: Self)
        ensures
            r == fresh_slot(hash, epoch, stats),
    {
        UnitSlot {
            hash,
            epoch,
            last_fail_ns: 0,
            last_start_ns: 0,
            last_ready_ns: 0,
            is_oneshot: false,
            is_socket_act: false,
            observations: 0,
            stats,
        }
    }
}

/// The units that are remembered. When it is full, the unit that was not used
/// for the longest time makes room.
#[derive(Debug)]
pub struct UnitTable<S> {
    pub slots: Vec<UnitSlot<S>>,
    pub epoch: u64,
}

impl<S> Default for UnitTable<S> {
    fn default() -> (r: Self)
        ensures
            r.wf(),
            r.slots@.len() == 0,
            r.epoch == 0,
    {
        UnitTable { slots: Vec::new(), epoch: 0 }
    }
}

/// The first slot of a hash, or the number of slots.
pub open spec fn slot_of<S>(slots: Seq<UnitSlot<S>>, hash: u64) -> int
    decreases slots.len(),
{
    if slots.len() == 0 || slots[0].hash == hash {
        0
    } else {
        1 + slot_of(slots.drop_first(), hash)
    }
}

proof fn lemma_slot_of<S>(slots: Seq<UnitSlot<S>>, hash: u64, k: int)
    requires
        0 <= k <= slots.len(),
        forall|i: int| 0 <= i < k ==> (#[trigger] slots[i]).hash != hash,
        k < slots.len() ==> slots[k].hash == hash,
    ensures
        slot_of(slots, hash) == k,
    decreases slots.len(),
{
    if slots.len() > 0 && k > 0 {
        let rest = slots.drop_first();
        assert(slots[0].hash != hash);
        assert forall|i: int| 0 <= i < k - 1 implies (#[trigger] rest[i]).hash != hash by {
            assert(rest[i] == slots[i + 1]);
        }
        assert(k < slots.len() ==> rest[k - 1] == slots[k]);
        lemma_slot_of(rest, hash, k - 1);
    }
}

/// Whether `k` is the first of the slots that were used the longest ago.
pub open spec fn is_oldest<S>(slots: Seq<UnitSlot<S>>, k: int) -> bool {
    &&& 0 <= k < slots.len()
    &&& forall|i: int| 0 <= i < slots.len() ==> slots[k].epoch <= (#[trigger] slots[i]).epoch
    &&& forall|i: int| 0 <= i < k ==> slots[k].epoch < (#[trigger] slots[i]).epoch
}

/// One more, as far as the counter reaches.
pub open spec fn next_epoch(epoch: u64) -> u64 {
    if epoch == u64::MAX {
        epoch
    } else {
        (epoch + 1) as u64
    }
}

impl<S> UnitTable<S> {
    /// No hash occurs twice, and there are not too many slots.
    pub open spec fn wf(&self) -> bool {
        &&& self.slots@.len() <= MAX_UNIT_SLOTS
        &&& forall|i: int, j: int| 0 <= i < j < self.slots@.len() ==> (#[trigger] self.slots@[i]).hash != (#[trigger] self.slots@[j]).hash
    }

    /// Whether a unit is remembered.
    pub open spec fn knows(&self, name: Seq<char>) -> bool {
        slot_of(self.slots@, unit_hash(name)) < self.slots@.len()
    }

    /// An empty table, with room for `cap` units set aside.
    pub fn with_capacity(cap: usize) -> (r: Self)
        ensures
            r.wf(),
            r.slots@.len() == 0,
            r.epoch == 1,
    {
        let room: usize = if cap < MAX_UNIT_SLOTS {
            cap
        } else {
            MAX_UNIT_SLOTS
        };
        UnitTable { slots: Vec::with_capacity(room), epoch: 1 }
    }

    fn position(&self, hash: u64) -> (r: usize)
        ensures
            r == slot_of(self.slots@, hash),
            r <= self.slots@.len(),
            r < self.slots@.len() ==> self.slots@[r as int].hash == hash,
            forall|k: int| 0 <= k < r ==> (#[trigger] self.slots@[k]).hash != hash,
    {
        let mut i: usize = 0;
        while i < self.slots.len()
            invariant
                i <= self.slots@.len(),
                forall|k: int| 0 <= k < i ==> (#[trigger] self.slots@[k]).hash != hash,
            decreases self.slots@.len() - i,
        {
            if self.slots[i].hash == hash {
                proof {
                    lemma_slot_of(self.slots@, hash, i as int);
                }
                return i;
            }
            i += 1;
        }
        proof {
            lemma_slot_of(self.slots@, hash, i as int);
        }
        i
    }

    fn oldest(&self) -> (r: usize)
        requires
            self.slots@.len() > 0,
        ensures
            is_oldest(self.slots@, r as int),
    {
        let mut best: usize = 0;
        let mut i: usize = 1;
        while i < self.slots.len()
            invariant
                1 <= i <= self.slots@.len(),
                best < i,
                forall|k: int| 0 <= k < i ==> self.slots@[best as int].epoch <= (#[trigger] self.slots@[k]).epoch,
                forall|k: int| 0 <= k < best ==> self.slots@[best as int].epoch < (#[trigger] self.slots@[k]).epoch,
            decreases self.slots@.len() - i,
        {
            if self.slots[i].epoch < self.slots[best].epoch {
                best = i;
            }
            i += 1;
        }
        best
    }

    /// The slot of a unit, by its position. A known unit counts as used now; an
    /// unknown one gets a new slot with `stats`, in place of the one used the
    /// longest ago where there is no room.
    pub fn touch(&mut self, name: &str, stats: S) -> (r: usize)
        requires
            old(self).wf(),
        ensures
            is_touched(*old(self), *final(self), name@, stats, r as int),
    {
        let ghost before = self.slots@;
        let h = hash_unit(name);
        let at = self.position(h);
        if at < self.slots.len() {
            self.slots[at].epoch = self.epoch;
            proof {
                assert(self.slots@ =~= before.update(at as int, UnitSlot { epoch: old(self).epoch, ..before[at as int] }));
                assert forall|i: int, j: int| 0 <= i < j < self.slots@.len() implies (#[trigger] self.slots@[i]).hash != (
                #[trigger] self.slots@[j]).hash by {
                    assert(before[i].hash != before[j].hash);
                }
                assert forall|k: int| 0 <= k < at implies (#[trigger] self.slots@[k]).hash != h by {
                    assert(before[k].hash != h);
                }
                lemma_slot_of(self.slots@, h, at as int);
            }
            return at;
        }
        if self.epoch < u64::MAX {
            self.epoch = self.epoch + 1;
        }
        let slot = UnitSlot::fresh(h, self.epoch, stats);
        let r: usize = if self.slots.len() >= MAX_UNIT_SLOTS {
            let oldest = self.oldest();
            self.slots.set(oldest, slot);
            oldest
        } else {
            self.slots.push(slot);
            self.slots.len() - 1
        };
        proof {
            assert forall|i: int, j: int| 0 <= i < j < self.slots@.len() implies (#[trigger] self.slots@[i]).hash != (
            #[trigger] self.slots@[j]).hash by {
                if i != r && j != r {
                    assert(before[i].hash != before[j].hash);
                } else if i == r {
                    assert(before[j].hash != h);
                } else {
                    assert(before[i].hash != h);
                }
            }
            assert forall|k: int| 0 <= k < r implies (#[trigger] self.slots@[k]).hash != h by {
                assert(before[k].hash != h);
            }
            lemma_slot_of(self.slots@, h, r as int);
        }
        r
    }

    /// The slot of a unit, to be changed in place.
    pub fn get_mut(&mut self, name: &str, stats: S) -> (r: &mut UnitSlot<S>)
        requires
            old(self).wf(),
        ensures
            exists|touched: UnitTable<S>, at: int|
                #![trigger is_touched(*old(self), touched, name@, stats, at)]
                is_touched(*old(self), touched, name@, stats, at) && *r == touched.slots@[at] && final(self).epoch
                    == touched.epoch && final(self).slots@ == touched.slots@.update(at, *final(r)),
    {
        let ghost before = *self;
        let at = self.touch(name, stats);
        &mut self.slots[at]
    }

    /// The slot of a unit, if it is remembered.
    pub fn get(&self, name: &str) -> (r: Option<&UnitSlot<S>>)
        ensures
            match r {
                Some(slot) => self.knows(name@) && *slot == self.slots@[slot_of(self.slots@, unit_hash(name@))],
                None => !self.knows(name@),
            },
    {
        let at = self.position(hash_unit(name));
        if at < self.slots.len() {
            Some(&self.slots[at])
        } else {
            None
        }
    }
}

/// Whether `after` is `before` with a unit used, whose slot is at `at`.
pub open spec fn is_touched<S>(before: UnitTable<S>, after: UnitTable<S>, name: Seq<char>, stats: S, at: int) -> bool {
    let h = unit_hash(name);
    &&& after.wf()
    &&& 0 <= at < after.slots@.len()
    &&& at == slot_of(after.slots@, h)
    &&& if before.knows(name) {
        &&& after.epoch == before.epoch
        &&& after.slots@ == before.slots@.update(at, UnitSlot { epoch: before.epoch, ..before.slots@[at] })
        &&& at == slot_of(before.slots@, h)
    } else {
        &&& after.epoch == next_epoch(before.epoch)
        &&& if before.slots@.len() >= MAX_UNIT_SLOTS {
            is_oldest(before.slots@, at) && after.slots@ == before.slots@.update(at, fresh_slot(h, after.epoch, stats))
        } else {
            after.slots@ == before.slots@.push(fresh_slot(h, after.epoch, stats))
        }
    }
}

/// Using a unit forgets at most one other, and that is none of those that were
/// used more recently than another.
pub proof fn law_only_the_oldest_unit_is_forgotten<S>(
    before: UnitTable<S>,
    after: UnitTable<S>,
    name: Seq<char>,
    stats: S,
    at: int,
    i: int,
)
    requires
        before.wf(),
        is_touched(before, after, name, stats, at),
        0 <= i < before.slots@.len(),
    ensures
        after.slots@[i].hash == before.slots@[i].hash || (i == at && is_oldest(before.slots@, i) && before.slots@.len()
            == MAX_UNIT_SLOTS),
{
}

/// When a job is to run.
#[derive(Debug, Clone, Copy, PartialEq, Eq, Structural)]
pub enum JobPriorityHint {
    Immediate,
    Normal,
    Deferred,
    Hold,
}

impl JobPriorityHint {
    /// The word for a hint.
    pub open spec fn name(self) -> Seq<char> {
        match self {
            JobPriorityHint::Immediate => "immediate"@,
            JobPriorityHint::Normal => "normal"@,
            JobPriorityHint::Deferred => "deferred"@,
            JobPriorityHint::Hold => "hold"@,
        }
    }

    /// The word for a hint.
    pub fn as_str(self) -> (r: &'static str)
        ensures
            r@ == self.name(),
    {
        match self {
            JobPriorityHint::Immediate => "immediate",
            JobPriorityHint::Normal => "normal",
            JobPriorityHint::Deferred => "deferred",
            JobPriorityHint::Hold => "hold",
        }
    }

    /// Whether a job with this hint is put off.
    pub fn defers(self) -> (r: bool)
        ensures
            r == (self == JobPriorityHint::Deferred || self == JobPriorityHint::Hold),
    {
        match self {
            JobPriorityHint::Deferred | JobPriorityHint::Hold => true,
            JobPriorityHint::Immediate | JobPriorityHint::Normal => false,
        }
    }
}

/// When a job is to run. `vital` and `important` say how important its unit is;
/// `hold` that both the wish to defer and the disorder are high; `defer` that
/// one of them is above its threshold.
pub fn job_priority(vital: bool, hold: bool, defer: bool, important: bool) -> (r: JobPriorityHint)
    ensures
        r == if vital {
            JobPriorityHint::Immediate
        } else if hold {
            JobPriorityHint::Hold
        } else if defer {
            JobPriorityHint::Deferred
        } else if important {
            JobPriorityHint::Immediate
        } else {
            JobPriorityHint::Normal
        },
{
    if vital {
        JobPriorityHint::Immediate
    } else if hold {
        JobPriorityHint::Hold
    } else if defer {
        JobPriorityHint::Deferred
    } else if important {
        JobPriorityHint::Immediate
    } else {
        JobPriorityHint::Normal
    }
}

/// The wait before a restart, in milliseconds: a unit that flaps waits twice as
/// long and at least half a second; none waits less than ten.
pub fn shaped_restart_delay_ms(delay: u64, flapping: bool) -> (r: u64)
    ensures
        r == ({
            let doubled = if delay > u64::MAX / 2 {
                u64::MAX as int
            } else {
                delay * 2
            };
            if flapping {
                if doubled < 500 {
                    500
                } else {
                    doubled
                }
            } else if delay < 10 {
                10
            } else {
                delay as int
            }
        }),
{
    if flapping {
        let doubled: u64 = if delay > u64::MAX / 2 {
            u64::MAX
        } else {
            delay * 2
        };
        if doubled < 500 {
            500
        } else {
            doubled
        }
    } else if delay < 10 {
        10
    } else {
        delay
    }
}

/// The slack of a timer, in microseconds, with what disorder adds to it, as
/// far as the type reaches.
pub fn shaped_timer_slack_us(slack: u64, extra: u64) -> (r: u64)
    ensures
        r == if slack + extra > u64::MAX {
            u64::MAX as int
        } else {
            slack + extra
        },
{
    if slack > u64::MAX - extra {
        u64::MAX
    } else {
        slack + extra
    }
}

/// How often what happened. The counts begin again at zero when they are full.
#[derive(Debug, Clone, Copy, PartialEq, Eq, Structural)]
pub struct WeaveCounters {
    pub ticks: u64,
    pub decisions: u64,
    pub learns: u64,
    pub anomalies_raised: u64,
}

impl Default for WeaveCounters {
    fn default() -> (r: Self)
        ensures
            r == (WeaveCounters { ticks: 0, decisions: 0, learns: 0, anomalies_raised: 0 }),
    {
        WeaveCounters { ticks: 0, decisions: 0, learns: 0, anomalies_raised: 0 }
    }
}

/// One more, around the end of the type.
pub open spec fn bumped(n: u64) -> u64 {
    if n == u64::MAX {
        0
    } else {
        (n + 1) as u64
    }
}

impl WeaveCounters {
    /// Count a tick.
    pub fn ticked(&mut self)
        ensures
            *final(self) == (WeaveCounters { ticks: bumped(old(self).ticks), ..*old(self) }),
    {
        self.ticks = self.ticks.wrapping_add(1);
    }

    /// Count a decision, and an anomaly where one was raised.
    pub fn decided(&mut self, anomaly: bool)
        ensures
            *final(self) == (WeaveCounters {
                decisions: bumped(old(self).decisions),
                anomalies_raised: if anomaly {
                    bumped(old(self).anomalies_raised)
                } else {
                    old(self).anomalies_raised
                },
                ..*old(self)
            }),
    {
        self.decisions = self.decisions.wrapping_add(1);
        if anomaly {
            self.anomalies_raised = self.anomalies_raised.wrapping_add(1);
        }
    }

    /// Count a lesson.
    pub fn learned(&mut self)
        ensures
            *final(self) == (WeaveCounters { learns: bumped(old(self).learns), ..*old(self) }),
    {
        self.learns = self.learns.wrapping_add(1);
    }
}

/// What a change of a unit's state is to the learner.
#[derive(Debug, Clone, Copy, PartialEq, Eq, Structural)]
pub enum UnitTransition {
    Starting,
    Ready,
    Failed,
    /// It went down, well or not.
    Stopped(bool),
    /// Nothing to learn from.
    Ignored,
}

fn ends(chars: &Vec<char>, suffix: &str) -> (r: bool)
    ensures
        r == suffix@.is_suffix_of(chars@),
{
    let s = text::string_of(chars);
    text::ends_with(s.as_str(), suffix)
}

/// What a change of a unit's state is to the learner, by the lower-case names
/// of the states. Going down counts as well done unless the unit had failed.
pub open spec fn transition(from: Seq<char>, to: Seq<char>) -> UnitTransition {
    if to == "starting"@ || to == "activating"@ {
        UnitTransition::Starting
    } else if to == "running"@ || to == "active"@ {
        UnitTransition::Ready
    } else if to == "failed"@ {
        UnitTransition::Failed
    } else if to == "dead"@ || to == "inactive"@ || to == "stopped"@ {
        UnitTransition::Stopped(!text::holds(from, "fail"@))
    } else {
        UnitTransition::Ignored
    }
}

/// What a change of a unit's state is to the learner.
pub fn unit_transition(from: &str, to: &str) -> (r: UnitTransition)
    ensures
        r == transition(text::lower_case(from@), text::lower_case(to@)),
{
    let to_chars = text::lowered(to);
    let to = text::string_of(&to_chars);
    let to = to.as_str();
    if text::same(to, "starting") || text::same(to, "activating") {
        UnitTransition::Starting
    } else if text::same(to, "running") || text::same(to, "active") {
        UnitTransition::Ready
    } else if text::same(to, "failed") {
        UnitTransition::Failed
    } else if text::same(to, "dead") || text::same(to, "inactive") || text::same(to, "stopped") {
        let from = text::lowered(from);
        UnitTransition::Stopped(!text::mentions(&from, "fail"))
    } else {
        UnitTransition::Ignored
    }
}

/// How important a unit is by its lower-case name, in hundredths.
pub open spec fn importance(n: Seq<char>) -> u8 {
    if text::holds(n, "systemd-journal"@) || text::holds(n, "dbus"@) || "sysinit"@.is_prefix_of(n) {
        95
    } else if text::holds(n, "udev"@) || text::holds(n, "network"@) || ".target"@.is_suffix_of(n) {
        85
    } else if text::holds(n, "ssh"@) || text::holds(n, "login"@) || text::holds(n, "getty"@) {
        80
    } else if ".socket"@.is_suffix_of(n) {
        70
    } else if ".mount"@.is_suffix_of(n) || ".swap"@.is_suffix_of(n) {
        75
    } else if ".timer"@.is_suffix_of(n) {
        45
    } else if text::holds(n, "oneshot"@) || text::holds(n, "-shutdown"@) {
        30
    } else if ".service"@.is_suffix_of(n) {
        50
    } else {
        40
    }
}

/// How important a unit is by its name, in hundredths.
pub fn importance_from_name(name: &str) -> (r: u8)
    ensures
        r == importance(text::lower_case(name@)),
{
    let n = text::lowered(name);
    assert(n@.skip(0) =~= n@);
    if text::mentions(&n, "systemd-journal") || text::mentions(&n, "dbus") || text::prefix_at(&n, 0, "sysinit") {
        95
    } else if text::mentions(&n, "udev") || text::mentions(&n, "network") || ends(&n, ".target") {
        85
    } else if text::mentions(&n, "ssh") || text::mentions(&n, "login") || text::mentions(&n, "getty") {
        80
    } else if ends(&n, ".socket") {
        70
    } else if ends(&n, ".mount") || ends(&n, ".swap") {
        75
    } else if ends(&n, ".timer") {
        45
    } else if text::mentions(&n, "oneshot") || text::mentions(&n, "-shutdown") {
        30
    } else if ends(&n, ".service") {
        50
    } else {
        40
    }
}

/// The weights of one head in a file, its numbers as they are written.
#[derive(Debug)]
pub struct HeadText {
    pub name: String,
    pub bias: String,
    pub updates: u64,
    pub weights: Vec<String>,
}

/// A file of weights, its numbers as they are written.
#[derive(Debug)]
pub struct WeightsText {
    pub lorenz_x: String,
    pub lorenz_y: String,
    pub lorenz_z: String,
    pub reservoir_steps: u64,
    pub heads: Vec<HeadText>,
}

/// The weights of one head.
#[verifier::ext_equal]
pub struct HeadView {
    pub name: Seq<char>,
    pub bias: Seq<char>,
    pub updates: u64,
    pub weights: Seq<Seq<char>>,
}

/// A file of weights.
#[verifier::ext_equal]
pub struct WeightsView {
    pub x: Seq<char>,
    pub y: Seq<char>,
    pub z: Seq<char>,
    pub steps: u64,
    pub heads: Seq<HeadView>,
}

impl View for HeadText {
    type V = HeadView;

    open spec fn view(&self) -> HeadView {
        HeadView {
            name: self.name@,
            bias: self.bias@,
            updates: self.updates,
            weights: text::views(self.weights@),
        }
    }
}

/// Heads by their views.
pub open spec fn head_views(heads: Seq<HeadText>) -> Seq<HeadView> {
    heads.map_values(|h: HeadText| h@)
}

impl View for WeightsText {
    type V = WeightsView;

    open spec fn view(&self) -> WeightsView {
        WeightsView {
            x: self.lorenz_x@,
            y: self.lorenz_y@,
            z: self.lorenz_z@,
            steps: self.reservoir_steps,
            heads: head_views(self.heads@),
        }
    }
}

/// The words of a head's first line.
pub open spec fn head_words(h: HeadView) -> Seq<Seq<char>> {
    seq!["head"@, h.name, h.bias, text::decimal(h.updates as nat)]
}

/// The words of the file's second line.
pub open spec fn lorenz_words(w: WeightsView) -> Seq<Seq<char>> {
    seq!["lorenz"@, w.x, w.y, w.z, text::decimal(w.steps as nat)]
}

/// The words of a head's second line.
pub open spec fn weight_words(h: HeadView) -> Seq<Seq<char>> {
    seq!["w"@] + h.weights
}

/// Words as a line.
pub open spec fn line(words: Seq<Seq<char>>) -> Seq<char> {
    text::joined_by(words, " "@) + "\n"@
}

/// The lines of the heads.
pub open spec fn rendered_heads(heads: Seq<HeadView>) -> Seq<char>
    decreases heads.len(),
{
    if heads.len() == 0 {
        Seq::empty()
    } else {
        line(head_words(heads[0])) + line(weight_words(heads[0])) + rendered_heads(heads.drop_first())
    }
}

/// A file of weights.
pub open spec fn rendered(w: WeightsView) -> Seq<char> {
    "weave-weights-v1\n"@ + line(lorenz_words(w)) + rendered_heads(w.heads)
}

/// What the lines after the second say of heads. Lines that begin otherwise
/// are passed over; a head that is not complete spoils the file.
pub open spec fn parsed_heads(lines: Seq<Seq<char>>) -> Option<Seq<HeadView>>
    decreases lines.len(),
{
    if lines.len() == 0 {
        Some(Seq::empty())
    } else if !"head "@.is_prefix_of(lines[0]) {
        parsed_heads(lines.drop_first())
    } else if lines.len() < 2 {
        None
    } else {
        let p = text::words(lines[0]);
        let w = text::words(lines[1]);
        if p.len() < 4 || w.len() == 0 || w[0] != "w"@ {
            None
        } else {
            match (text::number_upto(p[3], u64::MAX as nat), parsed_heads(lines.skip(2))) {
                (Some(updates), Some(rest)) => Some(
                    seq![HeadView { name: p[1], bias: p[2], updates: updates as u64, weights: w.skip(1) }] + rest,
                ),
                _ => None,
            }
        }
    }
}

/// What a file of weights says, if it is one.
pub open spec fn parsed(content: Seq<char>) -> Option<WeightsView> {
    let lines = text::lines(content);
    if lines.len() < 2 || lines[0] != "weave-weights-v1"@ {
        None
    } else {
        let p = text::words(lines[1]);
        if p.len() < 5 || p[0] != "lorenz"@ {
            None
        } else {
            match (text::number_upto(p[4], u64::MAX as nat), parsed_heads(lines.skip(2))) {
                (Some(steps), Some(heads)) => Some(WeightsView { x: p[1], y: p[2], z: p[3], steps: steps as u64, heads }),
                _ => None,
            }
        }
    }
}

fn parse_heads(lines: &Vec<String>, from: usize) -> (r: Option<Vec<HeadText>>)
    requires
        from <= lines@.len(),
    ensures
        match r {
            Some(heads) => parsed_heads(text::views(lines@).skip(from as int)) == Some(head_views(heads@)),
            None => parsed_heads(text::views(lines@).skip(from as int)) is None,
        },
{
    let ghost all = text::views(lines@);
    let ghost whole = parsed_heads(all.skip(from as int));
    let mut heads: Vec<HeadText> = Vec::new();
    let mut at: usize = from;
    assert(head_views(heads@) =~= Seq::<HeadView>::empty());
    proof {
        if whole is Some {
            assert(head_views(heads@) + whole->0 =~= whole->0);
        }
    }
    while at < lines.len()
        invariant
            at <= lines@.len(),
            all == text::views(lines@),
            whole == parsed_heads(all.skip(from as int)),
            match parsed_heads(all.skip(at as int)) {
                Some(rest) => whole == Some(head_views(heads@) + rest),
                None => whole is None,
            },
        decreases lines@.len() - at,
    {
        let ghost rest = all.skip(at as int);
        let ghost done = head_views(heads@);
        assert(rest[0] == lines@[at as int]@);
        if !text::starts_with(lines[at].as_str(), "head ") {
            assert(rest.drop_first() =~= all.skip(at + 1));
            at += 1;
        } else {
            if lines.len() - at < 2 {
                return None;
            }
            assert(rest[1] == lines@[at + 1]@);
            let p = text::words_of(lines[at].as_str());
            let w = text::words_of(lines[at + 1].as_str());
            if p.len() < 4 || w.len() == 0 {
                return None;
            }
            assert(text::words(rest[1])[0] == w@[0]@);
            if !text::same(w[0].as_str(), "w") {
                return None;
            }
            assert(text::words(rest[0])[3] == p@[3]@);
            let updates = match text::parse_number(p[3].as_str(), u64::MAX) {
                Some(updates) => updates,
                None => return None,
            };
            let mut weights: Vec<String> = Vec::new();
            let mut k: usize = 1;
            while k < w.len()
                invariant
                    1 <= k <= w@.len(),
                    text::views(weights@) == text::views(w@).subrange(1, k as int),
                decreases w@.len() - k,
            {
                let ghost before = text::views(weights@);
                weights.push(w[k].clone());
                assert(text::views(weights@) =~= before.push(w@[k as int]@));
                assert(text::views(w@).subrange(1, k + 1) =~= text::views(w@).subrange(1, k as int).push(w@[k as int]@));
                k += 1;
            }
            let head = HeadText { name: p[1].clone(), bias: p[2].clone(), updates, weights };
            proof {
                assert(text::views(w@).subrange(1, w@.len() as int) =~= text::words(rest[1]).skip(1));
                assert(text::words(rest[0])[1] == p@[1]@ && text::words(rest[0])[2] == p@[2]@);
                assert(rest.skip(2) =~= all.skip(at + 2));
            }
            let ghost view = head@;
            let ghost earlier = heads@;
            heads.push(head);
            proof {
                assert(head_views(heads@) =~= done.push(view));
                match parsed_heads(rest.skip(2)) {
                    Some(tail) => {
                        assert(done + (seq![view] + tail) =~= head_views(heads@) + tail);
                    },
                    None => {},
                }
            }
            at += 2;
        }
    }
    proof {
        assert(all.skip(at as int) =~= Seq::<Seq<char>>::empty());
        assert(head_views(heads@) + Seq::<HeadView>::empty() =~= head_views(heads@));
    }
    Some(heads)
}

/// What the bytes of a file of weights say, if it is one. Bytes that are not
/// UTF-8 are none.
pub fn parse_weights_bytes(bytes: &[u8]) -> (r: Option<WeightsText>)
    ensures
        match r {
            Some(w) => valid_utf8(bytes@) && parsed(decode_utf8(bytes@)) == Some(w@),
            None => valid_utf8(bytes@) ==> parsed(decode_utf8(bytes@)) is None,
        },
{
    match text::from_utf8(bytes) {
        Some(content) => parse_weights(content),
        None => None,
    }
}

/// What a file of weights says, if it is one.
pub fn parse_weights(content: &str) -> (r: Option<WeightsText>)
    ensures
        match r {
            Some(w) => parsed(content@) == Some(w@),
            None => parsed(content@) is None,
        },
{
    let lines = text::lines_of(content);
    let ghost all = text::views(lines@);
    if lines.len() < 2 {
        return None;
    }
    assert(all[0] == lines@[0]@ && all[1] == lines@[1]@);
    if !text::same(lines[0].as_str(), "weave-weights-v1") {
        return None;
    }
    let p = text::words_of(lines[1].as_str());
    if p.len() < 5 {
        return None;
    }
    let ghost words = text::words(all[1]);
    assert(words[0] == p@[0]@ && words[1] == p@[1]@ && words[2] == p@[2]@ && words[3] == p@[3]@ && words[4] == p@[4]@);
    if !text::same(p[0].as_str(), "lorenz") {
        return None;
    }
    let steps = match text::parse_number(p[4].as_str(), u64::MAX) {
        Some(steps) => steps,
        None => return None,
    };
    let heads = match parse_heads(&lines, 2) {
        Some(heads) => heads,
        None => return None,
    };
    Some(
        WeightsText {
            lorenz_x: p[1].clone(),
            lorenz_y: p[2].clone(),
            lorenz_z: p[3].clone(),
            reservoir_steps: steps,
            heads,
        },
    )
}

fn write_line(out: &mut String, words: &Vec<String>)
    ensures
        final(out)@ == old(out)@ + line(text::views(words@)),
{
    let ghost before = out@;
    let joined = text::join_by(words, " ");
    out.push_str(joined.as_str());
    out.push_str("\n");
    assert(out@ =~= before + line(text::views(words@)));
}

/// A file of weights.
pub fn format_weights(w: &WeightsText) -> (r: String)
    ensures
        r@ == rendered(w@),
{
    let mut out = "weave-weights-v1\n".to_owned();
    let mut words: Vec<String> = Vec::new();
    words.push("lorenz".to_owned());
    words.push(w.lorenz_x.clone());
    words.push(w.lorenz_y.clone());
    words.push(w.lorenz_z.clone());
    words.push(text::decimal_of(w.reservoir_steps as u128));
    assert(text::views(words@) =~= lorenz_words(w@));
    write_line(&mut out, &words);
    let ghost head = out@;
    let ghost all = head_views(w.heads@);
    let mut i: usize = 0;
    assert(all.skip(0) =~= all);
    while i < w.heads.len()
        invariant
            i <= w.heads@.len(),
            all == head_views(w.heads@),
            out@ + rendered_heads(all.skip(i as int)) == head + rendered_heads(all),
        decreases w.heads@.len() - i,
    {
        let h = &w.heads[i];
        let ghost before = out@;
        let ghost rest = all.skip(i as int);
        assert(rest[0] == h@);
        let mut words: Vec<String> = Vec::new();
        words.push("head".to_owned());
        words.push(h.name.clone());
        words.push(h.bias.clone());
        words.push(text::decimal_of(h.updates as u128));
        assert(text::views(words@) =~= head_words(h@));
        write_line(&mut out, &words);
        let mut words: Vec<String> = Vec::new();
        words.push("w".to_owned());
        let mut k: usize = 0;
        assert(text::views(words@) =~= seq!["w"@] + text::views(h.weights@).take(0));
        while k < h.weights.len()
            invariant
                k <= h.weights@.len(),
                text::views(words@) == seq!["w"@] + text::views(h.weights@).take(k as int),
            decreases h.weights@.len() - k,
        {
            let ghost prior = text::views(words@);
            words.push(h.weights[k].clone());
            assert(text::views(words@) =~= prior.push(h.weights@[k as int]@));
            assert(text::views(words@) =~= seq!["w"@] + text::views(h.weights@).take(k + 1));
            k += 1;
        }
        assert(text::views(h.weights@).take(k as int) =~= text::views(h.weights@));
        write_line(&mut out, &words);
        proof {
            let tail = rendered_heads(rest.drop_first());
            assert(rest.drop_first() =~= all.skip(i + 1));
            assert(before + (line(head_words(h@)) + line(weight_words(h@)) + tail) =~= out@ + tail);
        }
        i += 1;
    }
    proof {
        assert(all.skip(i as int) =~= Seq::<HeadView>::empty());
        assert(out@ + Seq::<char>::empty() =~= out@);
        assert(out@ =~= rendered(w@));
    }
    out
}

/// The last head of a name in a file.
pub fn find_head<'a>(w: &'a WeightsText, name: &str) -> (r: Option<&'a HeadText>)
    ensures
        match r {
            Some(head) => exists|i: int|
                0 <= i < w.heads@.len() && #[trigger] w.heads@[i] == *head && head.name@ == name@ && forall|k: int|
                    i < k < w.heads@.len() ==> (#[trigger] w.heads@[k]).name@ != name@,
            None => forall|k: int| 0 <= k < w.heads@.len() ==> (#[trigger] w.heads@[k]).name@ != name@,
        },
{
    let mut i: usize = w.heads.len();
    while i > 0
        invariant
            i <= w.heads@.len(),
            forall|k: int| i <= k < w.heads@.len() ==> (#[trigger] w.heads@[k]).name@ != name@,
        decreases i,
    {
        i -= 1;
        if text::same(w.heads[i].name.as_str(), name) {
            return Some(&w.heads[i]);
        }
    }
    None
}

/// Whether every name and number of a file is one word.
pub open spec fn is_writable(w: WeightsView) -> bool {
    &&& text::is_word(w.x)
    &&& text::is_word(w.y)
    &&& text::is_word(w.z)
    &&& forall|i: int| 0 <= i < w.heads.len() ==> is_writable_head(#[trigger] w.heads[i])
}

/// Whether the name and the numbers of a head are one word each.
pub open spec fn is_writable_head(h: HeadView) -> bool {
    &&& text::is_word(h.name)
    &&& text::is_word(h.bias)
    &&& forall|i: int| 0 <= i < h.weights.len() ==> text::is_word(#[trigger] h.weights[i])
}

proof fn lemma_heads_read_back(heads: Seq<HeadView>)
    requires
        forall|i: int| 0 <= i < heads.len() ==> is_writable_head(#[trigger] heads[i]),
    ensures
        parsed_heads(text::lines(rendered_heads(heads))) == Some(heads),
    decreases heads.len(),
{
    if heads.len() == 0 {
        assert(text::lines(Seq::<char>::empty()) =~= Seq::<Seq<char>>::empty());
        assert(Seq::<HeadView>::empty() =~= heads);
    } else {
        let h = heads[0];
        let rest = heads.drop_first();
        assert forall|i: int| 0 <= i < rest.len() implies is_writable_head(#[trigger] rest[i]) by {
            assert(rest[i] == heads[i + 1]);
        }
        lemma_heads_read_back(rest);
        assert(is_writable_head(h));
        reveal_strlit("head");
        reveal_strlit("w");
        reveal_strlit("head ");
        reveal_strlit(" ");
        text::lemma_decimal_is_a_word(h.updates as nat);
        text::lemma_decimal_reads_back(h.updates as nat);
        let a = head_words(h);
        let b = weight_words(h);
        assert forall|i: int| 0 <= i < a.len() implies text::is_word(#[trigger] a[i]) by {}
        assert forall|i: int| 0 <= i < b.len() implies text::is_word(#[trigger] b[i]) by {
            if i > 0 {
                assert(b[i] == h.weights[i - 1]);
            }
        }
        text::lemma_words_read_back(a);
        text::lemma_words_read_back(b);
        text::lemma_joined_is_a_line(a);
        text::lemma_joined_is_a_line(b);
        let first = text::joined_by(a, " "@);
        let second = text::joined_by(b, " "@);
        let tail = rendered_heads(rest);
        assert(rendered_heads(heads) =~= first + "\n"@ + (second + "\n"@ + tail));
        text::lemma_first_line(first, second + "\n"@ + tail);
        text::lemma_first_line(second, tail);
        let lines = text::lines(rendered_heads(heads));
        assert(lines =~= seq![first] + (seq![second] + text::lines(tail)));
        assert(lines.skip(2) =~= text::lines(tail));
        assert(lines[0] == first && lines[1] == second);
        assert("head "@.is_prefix_of(first)) by {
            assert(a.drop_last().drop_last().drop_last() =~= seq!["head"@]);
            let one = a.drop_last();
            let two = one.drop_last();
            assert(text::joined_by(two, " "@) == text::joined_by(two.drop_last(), " "@) + " "@ + two.last());
            assert(text::joined_by(one, " "@) == text::joined_by(two, " "@) + " "@ + one.last());
            assert(text::joined_by(two.drop_last(), " "@) == "head"@);
            assert("head "@ =~= first.subrange(0, 5));
        }
        assert(b.skip(1) =~= h.weights);
        assert(seq![h] + rest =~= heads);
    }
}

/// A file of weights reads back as it was written, provided that every name and
/// number in it is one word.
pub proof fn law_weights_read_back(w: WeightsView)
    requires
        is_writable(w),
    ensures
        parsed(rendered(w)) == Some(w),
{
    reveal_strlit("weave-weights-v1\n");
    reveal_strlit("weave-weights-v1");
    reveal_strlit("\n");
    reveal_strlit("lorenz");
    text::lemma_decimal_is_a_word(w.steps as nat);
    text::lemma_decimal_reads_back(w.steps as nat);
    lemma_heads_read_back(w.heads);
    let p = lorenz_words(w);
    assert forall|i: int| 0 <= i < p.len() implies text::is_word(#[trigger] p[i]) by {}
    text::lemma_words_read_back(p);
    text::lemma_joined_is_a_line(p);
    let second = text::joined_by(p, " "@);
    let tail = rendered_heads(w.heads);
    assert("weave-weights-v1\n"@ =~= "weave-weights-v1"@ + "\n"@);
    assert(rendered(w) =~= "weave-weights-v1"@ + "\n"@ + (second + "\n"@ + tail));
    text::lemma_first_line("weave-weights-v1"@, second + "\n"@ + tail);
    text::lemma_first_line(second, tail);
    let lines = text::lines(rendered(w));
    assert(lines =~= seq!["weave-weights-v1"@] + (seq![second] + text::lines(tail)));
    assert(lines.skip(2) =~= text::lines(tail));
    assert(lines[0] == "weave-weights-v1"@ && lines[1] == second);
}

/// A picture of `width` by `height` pixels, four bytes each.
#[derive(Debug)]
pub struct Framebuffer {
    pub width: usize,
    pub height: usize,
    pub pixels: Vec<u8>,
}

/// Bytes of a picture.
pub open spec fn picture_bytes(w: int, h: int) -> int {
    w * h * 4
}

impl Framebuffer {
    /// There are four bytes for each pixel.
    pub open spec fn wf(&self) -> bool {
        self.pixels@.len() == picture_bytes(self.width as int, self.height as int)
    }

    /// A black, transparent picture.
    pub fn new(w: usize, h: usize) -> (r: Self)
        requires
            picture_bytes(w as int, h as int) <= isize::MAX,
        ensures
            r.wf(),
            r.width == w,
            r.height == h,
            forall|i: int| 0 <= i < r.pixels@.len() ==> #[trigger] r.pixels@[i] == 0,
    {
        assert(w * h <= w * h * 4) by (nonlinear_arith)
            requires
                0 <= w,
                0 <= h,
        ;
        Framebuffer { width: w, height: h, pixels: vec![0; w * h * 4] }
    }

    /// Give one pixel a colour, opaque.
    pub fn set_pixel(&mut self, x: usize, y: usize, red: u8, green: u8, blue: u8)
        requires
            old(self).wf(),
            x < old(self).width,
            y < old(self).height,
        ensures
            final(self).wf(),
            final(self).width == old(self).width,
            final(self).height == old(self).height,
            ({
                let at = (y * old(self).width + x) * 4;
                final(self).pixels@ == old(self).pixels@.update(at, red).update(at + 1, green).update(at + 2, blue).update(
                    at + 3,
                    255,
                )
            }),
    {
        let w = self.width;
        let h = self.height;
        let total: usize = self.pixels.len();
        assert(w * h * 4 == total);
        assert((y * w + x) * 4 + 3 < w * h * 4 && 0 <= y * w && y * w + x < w * h) by (nonlinear_arith)
            requires
                0 <= x < w,
                0 <= y < h,
        ;
        assert(w * h <= w * h * 4) by (nonlinear_arith)
            requires
                0 <= w,
                0 <= h,
        ;
        let at: usize = (y * w + x) * 4;
        self.pixels.set(at, red);
        self.pixels.set(at + 1, green);
        self.pixels.set(at + 2, blue);
        self.pixels.set(at + 3, 255);
    }

    /// The picture as a PPM file: a header, then three bytes a pixel. A pixel
    /// that is not whole is left out.
    pub fn ppm(&self) -> (r: Vec<u8>)
        ensures
            r@ == encode_utf8(
                "P6\n"@ + text::decimal(self.width as nat) + " "@ + text::decimal(self.height as nat) + "\n255\n"@,
            ) + colours(self.pixels@),
    {
        let mut header = "P6\n".to_owned();
        header.push_str(text::decimal_of(self.width as u128).as_str());
        header.push_str(" ");
        header.push_str(text::decimal_of(self.height as u128).as_str());
        header.push_str("\n255\n");
        let mut out = text::bytes_of(header.as_str());
        let ghost head = out@;
        let ghost all = self.pixels@;
        let mut at: usize = 0;
        proof {
            assert(all.skip(0) =~= all);
        }
        while self.pixels.len() - at >= 4
            invariant
                all == self.pixels@,
                at <= all.len(),
                out@ + colours(all.skip(at as int)) == head + colours(all),
            decreases all.len() - at,
        {
            let ghost rest = all.skip(at as int);
            let ghost before = out@;
            out.push(self.pixels[at]);
            out.push(self.pixels[at + 1]);
            out.push(self.pixels[at + 2]);
            proof {
                assert(rest.skip(4) =~= all.skip(at + 4));
                let tail = colours(all.skip(at + 4));
                assert(before + (seq![rest[0], rest[1], rest[2]] + tail) =~= out@ + tail);
            }
            at += 4;
        }
        proof {
            assert(out@ + Seq::<u8>::empty() =~= out@);
        }
        out
    }
}

/// The colour bytes of pixels.
pub open spec fn colours(pixels: Seq<u8>) -> Seq<u8>
    decreases pixels.len(),
{
    if pixels.len() < 4 {
        Seq::empty()
    } else {
        seq![pixels[0], pixels[1], pixels[2]] + colours(pixels.skip(4))
    }
}

/// What this is, and its sizes.
pub fn version_banner() -> (r: String)
    ensures
        r@ == WEAVE_VERSION@ + " feat_dim="@ + text::decimal(FEAT_DIM as nat) + " reservoir="@ + text::decimal(
            RESERVOIR_DIM as nat,
        ) + " mandel_scales="@ + text::decimal(MANDEL_SCALES as nat) + " max_units="@ + text::decimal(MAX_UNIT_SLOTS as nat),
{
    let mut r = WEAVE_VERSION.to_owned();
    r.push_str(" feat_dim=");
    r.push_str(text::decimal_of(FEAT_DIM as u128).as_str());
    r.push_str(" reservoir=");
    r.push_str(text::decimal_of(RESERVOIR_DIM as u128).as_str());
    r.push_str(" mandel_scales=");
    r.push_str(text::decimal_of(MANDEL_SCALES as u128).as_str());
    r.push_str(" max_units=");
    r.push_str(text::decimal_of(MAX_UNIT_SLOTS as u128).as_str());
    r
}

/// The hash starts from its offset; each byte is mixed in, and the result is
/// multiplied by the prime, in 64 bits.
pub proof fn law_each_byte_is_mixed_in(data: Seq<u8>, byte: u8, name: Seq<char>)
    ensures
        fnv(Seq::empty()) == 0xcbf2_9ce4_8422_2325,
        fnv(data.push(byte)) as int == ((fnv(data) ^ (byte as u64)) as int * 0x0100_0000_01b3) % 0x1_0000_0000_0000_0000,
        unit_hash(name) == fnv(encode_utf8(name)),
{
    assert(data.push(byte).drop_last() =~= data);
}

/// A new slot has seen nothing.
pub proof fn law_a_new_slot_has_seen_nothing<S>(hash: u64, epoch: u64, stats: S)
    ensures
        ({
            let slot = fresh_slot(hash, epoch, stats);
            &&& slot.hash == hash && slot.epoch == epoch && slot.stats == stats
            &&& slot.last_fail_ns == 0 && slot.last_start_ns == 0 && slot.last_ready_ns == 0 && slot.observations == 0
            &&& !slot.is_oneshot && !slot.is_socket_act
        }),
{
}

/// A unit is known where a slot has its hash; it is found at the first of them.
pub proof fn law_where_a_unit_stands<S>(table: UnitTable<S>, name: Seq<char>, k: int)
    ensures
        table.knows(name) <==> exists|i: int| 0 <= i < table.slots@.len() && (#[trigger] table.slots@[i]).hash == unit_hash(name),
        0 <= k < table.slots@.len() && table.slots@[k].hash == unit_hash(name) && (forall|i: int|
            0 <= i < k ==> (#[trigger] table.slots@[i]).hash != unit_hash(name)) ==> slot_of(table.slots@, unit_hash(name)) == k,
{
    lemma_where_slot_is(table.slots@, unit_hash(name));
}

proof fn lemma_where_slot_is<S>(slots: Seq<UnitSlot<S>>, hash: u64)
    ensures
        0 <= slot_of(slots, hash) <= slots.len(),
        slot_of(slots, hash) < slots.len() ==> slots[slot_of(slots, hash)].hash == hash,
        forall|i: int| 0 <= i < slot_of(slots, hash) ==> (#[trigger] slots[i]).hash != hash,
    decreases slots.len(),
{
    if slots.len() > 0 && slots[0].hash != hash {
        let rest = slots.drop_first();
        lemma_where_slot_is(rest, hash);
        assert forall|i: int| 0 <= i < slot_of(slots, hash) implies (#[trigger] slots[i]).hash != hash by {
            if i > 0 {
                assert(slots[i] == rest[i - 1]);
            }
        }
    }
}

/// Using a unit. A known one is marked with the present time, and nothing else
/// changes. A new one takes the next time, and a place of its own as long as
/// there are fewer than 512; after that, the first of the oldest.
pub proof fn law_what_using_a_unit_does<S>(before: UnitTable<S>, after: UnitTable<S>, name: Seq<char>, stats: S, at: int, i: int)
    requires
        before.wf(),
        is_touched(before, after, name, stats, at),
    ensures
        after.slots@.len() <= 512,
        0 <= at < after.slots@.len(),
        after.slots@[at].hash == unit_hash(name),
        after.knows(name),
        0 <= i < before.slots@.len() && i != at ==> after.slots@[i] == before.slots@[i],
        before.knows(name) ==> {
            &&& after.epoch == before.epoch
            &&& after.slots@.len() == before.slots@.len()
            &&& after.slots@[at].epoch == before.epoch
            &&& after.slots@[at].stats == before.slots@[at].stats
            &&& after.slots@[at].observations == before.slots@[at].observations
            &&& after.slots@[at].last_fail_ns == before.slots@[at].last_fail_ns
            &&& after.slots@[at].last_start_ns == before.slots@[at].last_start_ns
            &&& after.slots@[at].last_ready_ns == before.slots@[at].last_ready_ns
            &&& after.slots@[at].is_oneshot == before.slots@[at].is_oneshot
            &&& after.slots@[at].is_socket_act == before.slots@[at].is_socket_act
        },
        !before.knows(name) ==> {
            &&& before.epoch < u64::MAX ==> after.epoch == before.epoch + 1
            &&& before.epoch == u64::MAX ==> after.epoch == u64::MAX
            &&& after.slots@[at].epoch == after.epoch
            &&& after.slots@[at].stats == stats
            &&& after.slots@[at].observations == 0
            &&& before.slots@.len() < 512 ==> at == before.slots@.len() && after.slots@.len() == before.slots@.len() + 1
            &&& before.slots@.len() == 512 && 0 <= i < 512 ==> after.slots@.len() == 512 && before.slots@[at].epoch <= before.slots@[i].epoch && (i < at
                ==> before.slots@[at].epoch < before.slots@[i].epoch)
        },
{
    lemma_where_slot_is(after.slots@, unit_hash(name));
    lemma_where_slot_is(before.slots@, unit_hash(name));
    if !before.knows(name) && before.slots@.len() < 512 {
        assert(after.slots@.len() == before.slots@.len() + 1);
        if at < before.slots@.len() {
            assert(after.slots@[at] == before.slots@[at]);
        }
    }
}

/// The words for hints; counters start over behind the greatest number.
pub proof fn law_words_for_hints(hint: JobPriorityHint, n: u64)
    ensures
        hint is Immediate ==> hint.name() == "immediate"@,
        hint is Normal ==> hint.name() == "normal"@,
        hint is Deferred ==> hint.name() == "deferred"@,
        hint is Hold ==> hint.name() == "hold"@,
        n < u64::MAX ==> bumped(n) == n + 1,
        n == u64::MAX ==> bumped(n) == 0,
        FEAT_DIM == 32 && RESERVOIR_DIM == 12 && MANDEL_SCALES == 4 && MAX_UNIT_SLOTS == 512,
        WEAVE_VERSION@ == "ml-weave/1.0.0-lorenz-mandelbrot"@,
{
}

/// What a change of state means, by the state that is reached. A unit that
/// stopped did so well unless it came from a failure.
pub proof fn law_what_a_change_of_state_means(from: Seq<char>, to: Seq<char>)
    ensures
        to == "starting"@ || to == "activating"@ <==> transition(from, to) is Starting,
        to == "running"@ || to == "active"@ <==> transition(from, to) is Ready,
        to == "failed"@ <==> transition(from, to) is Failed,
        to == "dead"@ || to == "inactive"@ || to == "stopped"@ <==> transition(from, to) is Stopped,
        transition(from, to) matches UnitTransition::Stopped(well) ==> (well <==> !exists|i: int, j: int|
            0 <= i <= j <= from.len() && #[trigger] from.subrange(i, j) == seq!['f', 'a', 'i', 'l']),
{
    reveal_strlit("starting");
    reveal_strlit("activating");
    reveal_strlit("running");
    reveal_strlit("active");
    reveal_strlit("failed");
    reveal_strlit("dead");
    reveal_strlit("inactive");
    reveal_strlit("stopped");
    reveal_strlit("fail");
    assert("starting"@.len() == 8 && "activating"@.len() == 10 && "running"@.len() == 7 && "active"@.len() == 6 && "failed"@.len() == 6);
    assert("dead"@.len() == 4 && "inactive"@.len() == 8 && "stopped"@.len() == 7);
    assert("starting"@[0] == 's' && "inactive"@[0] == 'i');
    assert("running"@[0] == 'r' && "stopped"@[0] == 's');
    assert("active"@[0] == 'a' && "failed"@[0] == 'f');
    assert("fail"@ =~= seq!['f', 'a', 'i', 'l']);
    text::law_a_text_holds_its_parts(from, "fail"@);
}

/// How important a unit is, by its name. The first that applies counts: what
/// the rest of the system needs, devices, networks and targets, logins, sockets,
/// mounts, timers, what runs once, services.
pub proof fn law_how_important_units_are(n: Seq<char>)
    ensures
        ({
            let core = text::holds(n, "systemd-journal"@) || text::holds(n, "dbus"@) || "sysinit"@.is_prefix_of(n);
            let base = text::holds(n, "udev"@) || text::holds(n, "network"@) || ".target"@.is_suffix_of(n);
            let login = text::holds(n, "ssh"@) || text::holds(n, "login"@) || text::holds(n, "getty"@);
            let once = text::holds(n, "oneshot"@) || text::holds(n, "-shutdown"@);
            let common = !core && !base && !login;
            &&& core <==> importance(n) == 95
            &&& !core && base <==> importance(n) == 85
            &&& !core && !base && login <==> importance(n) == 80
            &&& common && ".socket"@.is_suffix_of(n) <==> importance(n) == 70
            &&& common && (".mount"@.is_suffix_of(n) || ".swap"@.is_suffix_of(n)) <==> importance(n) == 75
            &&& common && ".timer"@.is_suffix_of(n) <==> importance(n) == 45
            &&& common && once && !".socket"@.is_suffix_of(n) && !".mount"@.is_suffix_of(n) && !".swap"@.is_suffix_of(n) && !".timer"@.is_suffix_of(n) <==> importance(n) == 30
            &&& common && !once && ".service"@.is_suffix_of(n) <==> importance(n) == 50
        }),
{
    reveal_strlit(".socket");
    reveal_strlit(".mount");
    reveal_strlit(".swap");
    reveal_strlit(".timer");
    reveal_strlit(".service");
    lemma_last_of(n, ".socket"@);
    lemma_last_of(n, ".mount"@);
    lemma_last_of(n, ".swap"@);
    lemma_last_of(n, ".timer"@);
    lemma_last_of(n, ".service"@);
    assert(".socket"@[5] == 'e' && ".mount"@[4] == 'n' && ".socket"@[6] == 't' && ".mount"@[5] == 't');
    assert(".swap"@[4] == 'p' && ".timer"@[5] == 'r' && ".service"@[7] == 'e');
}

proof fn lemma_last_of(n: Seq<char>, suffix: Seq<char>)
    requires
        suffix.len() > 1,
    ensures
        suffix.is_suffix_of(n) ==> n.len() >= suffix.len() && n[n.len() - 1] == suffix[suffix.len() - 1] && n[n.len() - 2] == suffix[suffix.len() - 2],
{
    if suffix.is_suffix_of(n) {
        let tail = n.subrange((n.len() - suffix.len()) as int, n.len() as int);
        assert(tail[suffix.len() - 1] == n[n.len() - 1]);
        assert(tail[suffix.len() - 2] == n[n.len() - 2]);
    }
}

/// How weights are written: a first line, the state of the system, and two
/// lines for each head.
pub proof fn law_how_weights_are_written(w: WeightsView, h: HeadView)
    ensures
        ({
            let space = seq![' '];
            let end = seq!['\n'];
            let state = "lorenz"@ + space + w.x + space + w.y + space + w.z + space + text::decimal(w.steps as nat) + end;
            let head = "head"@ + space + h.name + space + h.bias + space + text::decimal(h.updates as nat) + end;
            &&& w.heads.len() == 0 ==> rendered(w) == "weave-weights-v1"@ + end + state
            &&& rendered_heads(seq![h] + w.heads) == head + text::joined_by(seq!["w"@] + h.weights, space) + end + rendered_heads(w.heads)
            &&& rendered(w) == "weave-weights-v1"@ + end + state + rendered_heads(w.heads)
        }),
{
    let space = seq![' '];
    let end = seq!['\n'];
    reveal_strlit("weave-weights-v1\n");
    reveal_strlit("weave-weights-v1");
    reveal_strlit(" ");
    reveal_strlit("\n");
    assert(" "@ =~= space && "\n"@ =~= end);
    assert("weave-weights-v1\n"@ =~= "weave-weights-v1"@ + end);
    lemma_joined_five("lorenz"@, w.x, w.y, w.z, text::decimal(w.steps as nat), space);
    lemma_joined_four("head"@, h.name, h.bias, text::decimal(h.updates as nat), space);
    let heads = seq![h] + w.heads;
    assert(heads.drop_first() =~= w.heads);
    let head = "head"@ + space + h.name + space + h.bias + space + text::decimal(h.updates as nat) + end;
    assert(line(head_words(h)) == head);
    assert(rendered_heads(heads) =~= head + text::joined_by(seq!["w"@] + h.weights, space) + end + rendered_heads(w.heads));
    let state = "lorenz"@ + space + w.x + space + w.y + space + w.z + space + text::decimal(w.steps as nat) + end;
    assert(line(lorenz_words(w)) == state);
    assert(rendered(w) =~= "weave-weights-v1"@ + end + state + rendered_heads(w.heads));
    if w.heads.len() == 0 {
        assert(rendered_heads(w.heads) =~= Seq::<char>::empty());
        assert(rendered(w) =~= "weave-weights-v1"@ + end + state);
    }
}

proof fn lemma_joined_four(a: Seq<char>, b: Seq<char>, c: Seq<char>, d: Seq<char>, s: Seq<char>)
    ensures
        text::joined_by(seq![a, b, c, d], s) == a + s + b + s + c + s + d,
{
    reveal_with_fuel(text::joined_by, 5);
    let w = seq![a, b, c, d];
    assert(w.drop_last() =~= seq![a, b, c]);
    assert(w.drop_first() =~= seq![b, c, d]);
    assert(seq![a, b, c].drop_last() =~= seq![a, b]);
    assert(seq![b, c, d].drop_first() =~= seq![c, d]);
    assert(seq![a, b].drop_last() =~= seq![a]);
    assert(seq![c, d].drop_first() =~= seq![d]);
    assert(seq![a].drop_last() =~= Seq::<Seq<char>>::empty());
    assert(seq![d].drop_first() =~= Seq::<Seq<char>>::empty());
    assert(text::joined_by(w, s) =~= a + s + b + s + c + s + d);
}

proof fn lemma_joined_five(a: Seq<char>, b: Seq<char>, c: Seq<char>, d: Seq<char>, e: Seq<char>, s: Seq<char>)
    ensures
        text::joined_by(seq![a, b, c, d, e], s) == a + s + b + s + c + s + d + s + e,
{
    lemma_joined_four(a, b, c, d, s);
    lemma_joined_four(b, c, d, e, s);
    let w = seq![a, b, c, d, e];
    assert(w.drop_last() =~= seq![a, b, c, d]);
    assert(w.drop_first() =~= seq![b, c, d, e]);
    assert(text::joined_by(w, s) =~= a + s + b + s + c + s + d + s + e);
}

/// What is needed to read weights: the first line as it is written, a second of
/// at least five words, and for each line that begins a head four words, a
/// number as the last, and a line of weights behind it. Other lines are passed
/// over.
pub proof fn law_which_weights_can_be_read(content: Seq<char>, lines: Seq<Seq<char>>)
    ensures
        ({
            let all = text::lines(content);
            let p = text::words(all[1]);
            &&& all.len() < 2 || all[0] != "weave-weights-v1"@ ==> parsed(content) is None
            &&& all.len() >= 2 && (p.len() < 5 || p[0] != "lorenz"@ || text::number_upto(p[4], u64::MAX as nat) is None) ==> parsed(content) is None
            &&& all.len() >= 2 && parsed_heads(all.skip(2)) is None ==> parsed(content) is None
            &&& parsed(content) matches Some(w) ==> {
                &&& w.x == p[1] && w.y == p[2] && w.z == p[3]
                &&& w.steps == text::number_upto(p[4], u64::MAX as nat)->0
                &&& Some(w.heads) == parsed_heads(all.skip(2))
            }
        }),
        parsed_heads(Seq::empty()) == Some(Seq::<HeadView>::empty()),
        lines.len() > 0 && !"head "@.is_prefix_of(lines[0]) ==> parsed_heads(lines) == parsed_heads(lines.drop_first()),
        lines.len() > 0 && "head "@.is_prefix_of(lines[0]) ==> {
            let p = text::words(lines[0]);
            let w = text::words(lines[1]);
            &&& lines.len() == 1 ==> parsed_heads(lines) is None
            &&& p.len() < 4 || w.len() == 0 || w[0] != "w"@ || text::number_upto(p[3], u64::MAX as nat) is None ==> parsed_heads(lines) is None
            &&& parsed_heads(lines) matches Some(heads) ==> {
                &&& heads.len() > 0
                &&& heads[0].name == p[1] && heads[0].bias == p[2]
                &&& heads[0].updates == text::number_upto(p[3], u64::MAX as nat)->0
                &&& heads[0].weights == w.drop_first()
                &&& Some(heads.drop_first()) == parsed_heads(lines.skip(2))
            }
        },
{
    let all = text::lines(content);
    if all.len() >= 2 {
        let p = text::words(all[1]);
        if p.len() >= 5 {
            lemma_fits(p[4]);
        }
    }
    if lines.len() > 1 && "head "@.is_prefix_of(lines[0]) {
        let p = text::words(lines[0]);
        let w = text::words(lines[1]);
        if p.len() >= 4 {
            lemma_fits(p[3]);
        }
        if w.len() > 0 {
            assert(w.skip(1) =~= w.drop_first());
        }
        if parsed_heads(lines) is Some {
            let rest = parsed_heads(lines.skip(2))->0;
            assert(parsed_heads(lines)->0.drop_first() =~= rest);
        }
    }
}

proof fn lemma_fits(word: Seq<char>)
    ensures
        text::number_upto(word, u64::MAX as nat) matches Some(n) ==> n <= u64::MAX,
{
}

/// A picture has four bytes for each point; three of them are its colours.
pub proof fn law_the_colours_of_a_picture(w: int, h: int, red: u8, green: u8, blue: u8, opacity: u8, rest: Seq<u8>)
    ensures
        picture_bytes(w, 0) == 0,
        picture_bytes(w, h + 1) == picture_bytes(w, h) + 4 * w,
        rest.len() < 4 ==> colours(rest).len() == 0,
        colours(seq![red, green, blue, opacity] + rest) == seq![red, green, blue] + colours(rest),
{
    let all = seq![red, green, blue, opacity] + rest;
    assert(all.skip(4) =~= rest);
    assert(w * (h + 1) * 4 == w * h * 4 + 4 * w) by (nonlinear_arith);
    assert(w * 0 * 4 == 0) by (nonlinear_arith);
}

} // verus!
