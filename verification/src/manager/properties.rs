//! Setting properties of units at run time.

use vstd::prelude::*;

use crate::manager::transactions::with_loaded;
use crate::manager::Manager;
use crate::text;
use crate::unit::LoadedUnit;

verus! {

/// A property that a client sets.
#[derive(Debug)]
pub enum SetUnitProperty {
    Description(String),
    IoAccounting(bool),
    MemoryAccounting(bool),
    TasksAccounting(bool),
    IpAccounting(bool),
    CpuWeight(Option<u64>),
    CpuQuota(Option<u64>),
    IoWeight(Option<u64>),
    MemoryMin(Option<u64>),
    MemoryLow(Option<u64>),
    MemoryHigh(Option<u64>),
    MemoryMax(Option<u64>),
    MemorySwapMax(Option<u64>),
    MemoryZSwapMax(Option<u64>),
    MemoryZSwapWriteback(bool),
    TasksMax(Option<u64>),
}

/// Why properties cannot be set.
#[derive(Debug)]
pub enum SetUnitPropertiesError {
    UnitMasked(String),
    NoSuchUnit(String),
    BadUnitSetting(String),
    PropertyReadOnly(String),
    Failed(String),
}

/// An error by its message.
pub enum PropertyErrorView {
    UnitMasked(Seq<char>),
    NoSuchUnit(Seq<char>),
    BadUnitSetting(Seq<char>),
    PropertyReadOnly(Seq<char>),
    Failed(Seq<char>),
}

impl View for SetUnitPropertiesError {
    type V = PropertyErrorView;

    open spec fn view(&self) -> PropertyErrorView {
        match self {
            SetUnitPropertiesError::UnitMasked(m) => PropertyErrorView::UnitMasked(m@),
            SetUnitPropertiesError::NoSuchUnit(m) => PropertyErrorView::NoSuchUnit(m@),
            SetUnitPropertiesError::BadUnitSetting(m) => PropertyErrorView::BadUnitSetting(m@),
            SetUnitPropertiesError::PropertyReadOnly(m) => PropertyErrorView::PropertyReadOnly(m@),
            SetUnitPropertiesError::Failed(m) => PropertyErrorView::Failed(m@),
        }
    }
}

impl SetUnitProperty {
    /// The name of a property.
    pub open spec fn name(self) -> Seq<char> {
        match self {
            SetUnitProperty::Description(_) => "Description"@,
            SetUnitProperty::IoAccounting(_) => "IOAccounting"@,
            SetUnitProperty::MemoryAccounting(_) => "MemoryAccounting"@,
            SetUnitProperty::TasksAccounting(_) => "TasksAccounting"@,
            SetUnitProperty::IpAccounting(_) => "IPAccounting"@,
            SetUnitProperty::CpuWeight(_) => "CPUWeight"@,
            SetUnitProperty::CpuQuota(_) => "CPUQuotaPerSecUSec"@,
            SetUnitProperty::IoWeight(_) => "IOWeight"@,
            SetUnitProperty::MemoryMin(_) => "MemoryMin"@,
            SetUnitProperty::MemoryLow(_) => "MemoryLow"@,
            SetUnitProperty::MemoryHigh(_) => "MemoryHigh"@,
            SetUnitProperty::MemoryMax(_) => "MemoryMax"@,
            SetUnitProperty::MemorySwapMax(_) => "MemorySwapMax"@,
            SetUnitProperty::MemoryZSwapMax(_) => "MemoryZSwapMax"@,
            SetUnitProperty::MemoryZSwapWriteback(_) => "MemoryZSwapWriteback"@,
            SetUnitProperty::TasksMax(_) => "TasksMax"@,
        }
    }

    /// The name of a property.
    pub fn as_str(&self) -> (r: &'static str)
        ensures
            r@ == self.name(),
    {
        match self {
            SetUnitProperty::Description(_) => "Description",
            SetUnitProperty::IoAccounting(_) => "IOAccounting",
            SetUnitProperty::MemoryAccounting(_) => "MemoryAccounting",
            SetUnitProperty::TasksAccounting(_) => "TasksAccounting",
            SetUnitProperty::IpAccounting(_) => "IPAccounting",
            SetUnitProperty::CpuWeight(_) => "CPUWeight",
            SetUnitProperty::CpuQuota(_) => "CPUQuotaPerSecUSec",
            SetUnitProperty::IoWeight(_) => "IOWeight",
            SetUnitProperty::MemoryMin(_) => "MemoryMin",
            SetUnitProperty::MemoryLow(_) => "MemoryLow",
            SetUnitProperty::MemoryHigh(_) => "MemoryHigh",
            SetUnitProperty::MemoryMax(_) => "MemoryMax",
            SetUnitProperty::MemorySwapMax(_) => "MemorySwapMax",
            SetUnitProperty::MemoryZSwapMax(_) => "MemoryZSwapMax",
            SetUnitProperty::MemoryZSwapWriteback(_) => "MemoryZSwapWriteback",
            SetUnitProperty::TasksMax(_) => "TasksMax",
        }
    }
}

/// Whether a property limits resources: all but the description do.
pub open spec fn is_resource(property: SetUnitProperty) -> bool {
    !(property is Description)
}

/// Whether a property limits resources.
pub fn set_unit_property_is_resource(property: &SetUnitProperty) -> (r: bool)
    ensures
        r == is_resource(*property),
{
    match property {
        SetUnitProperty::Description(_) => false,
        _ => true,
    }
}

/// Whether any of `properties` limits resources.
pub fn has_resource_control(properties: &Vec<SetUnitProperty>) -> (r: bool)
    ensures
        r == exists|i: int| 0 <= i < properties@.len() && is_resource(#[trigger] properties@[i]),
{
    let mut i: usize = 0;
    while i < properties.len()
        invariant
            i <= properties@.len(),
            forall|k: int| 0 <= k < i ==> !is_resource(#[trigger] properties@[k]),
        decreases properties@.len() - i,
    {
        if set_unit_property_is_resource(&properties[i]) {
            return true;
        }
        i += 1;
    }
    false
}

/// The message that a property cannot be set.
pub open spec fn read_only_message(name: Seq<char>) -> Seq<char> {
    "Cannot set property "@ + name + ", or unknown property."@
}

/// Check that a unit takes the properties. Only services have limits; the
/// error names the first limit.
pub fn validate_set_unit_properties(loaded: &LoadedUnit, properties: &Vec<SetUnitProperty>) -> (r: Result<
    (),
    SetUnitPropertiesError,
>)
    ensures
        match r {
            Ok(_) => *loaded is Service || forall|i: int|
                0 <= i < properties@.len() ==> !is_resource(#[trigger] properties@[i]),
            Err(error) => !(*loaded is Service) && exists|i: int|
                0 <= i < properties@.len() && is_resource(#[trigger] properties@[i]) && error@
                    == PropertyErrorView::PropertyReadOnly(read_only_message(properties@[i].name())) && forall|k: int|
                    0 <= k < i ==> !is_resource(#[trigger] properties@[k]),
        },
{
    match loaded {
        LoadedUnit::Service(_) => return Ok(()),
        _ => {},
    }
    let mut i: usize = 0;
    while i < properties.len()
        invariant
            i <= properties@.len(),
            !(*loaded is Service),
            forall|k: int| 0 <= k < i ==> !is_resource(#[trigger] properties@[k]),
        decreases properties@.len() - i,
    {
        if set_unit_property_is_resource(&properties[i]) {
            let mut message = "Cannot set property ".to_owned();
            message.push_str(properties[i].as_str());
            message.push_str(", or unknown property.");
            return Err(SetUnitPropertiesError::PropertyReadOnly(message));
        }
        i += 1;
    }
    Ok(())
}

/// The error for a unit that cannot be loaded: it is masked where the loader
/// says so, there is none, or it is bad.
pub open spec fn load_error(name: Seq<char>, error: Seq<char>, not_found: bool) -> PropertyErrorView {
    if text::holds(text::lower_case(error), "masked"@) {
        PropertyErrorView::UnitMasked("Unit "@ + name + " is masked."@)
    } else if not_found {
        PropertyErrorView::NoSuchUnit("Unit "@ + name + " not found."@)
    } else {
        PropertyErrorView::BadUnitSetting("Unit "@ + name + " has a bad unit file setting: "@ + error)
    }
}

fn sentence(head: &str, name: &str, middle: &str, tail: &str) -> (r: String)
    ensures
        r@ == head@ + name@ + middle@ + tail@,
{
    let mut r = head.to_owned();
    r.push_str(name);
    r.push_str(middle);
    r.push_str(tail);
    r
}

/// The error for a unit that cannot be loaded.
pub fn classify_load_error(name: &str, error: &str, not_found: bool) -> (r: SetUnitPropertiesError)
    ensures
        r@ == load_error(name@, error@, not_found),
{
    proof {
        reveal_strlit("");
    }
    if text::mentions(&text::lowered(error), "masked") {
        let message = sentence("Unit ", name, " is masked.", "");
        assert(message@ =~= "Unit "@ + name@ + " is masked."@);
        SetUnitPropertiesError::UnitMasked(message)
    } else if not_found {
        let message = sentence("Unit ", name, " not found.", "");
        assert(message@ =~= "Unit "@ + name@ + " not found."@);
        SetUnitPropertiesError::NoSuchUnit(message)
    } else {
        SetUnitPropertiesError::BadUnitSetting(sentence("Unit ", name, " has a bad unit file setting: ", error))
    }
}

/// A step of setting properties that failed.
#[derive(Debug, Clone, Copy, PartialEq, Eq, Structural)]
pub enum PropertyStep {
    /// Writing them to a file.
    Write,
    /// Loading the unit with them.
    Reload,
    /// Realizing the control group.
    Realize,
    /// Setting the limits of the control group.
    Control,
}

/// The error for a step that failed.
pub open spec fn step_error(step: PropertyStep, name: Seq<char>, error: Seq<char>) -> PropertyErrorView {
    match step {
        PropertyStep::Write => PropertyErrorView::Failed("failed to write unit properties: "@ + error),
        PropertyStep::Reload => PropertyErrorView::BadUnitSetting(
            "Unit "@ + name + " has a bad unit file setting: "@ + error,
        ),
        PropertyStep::Realize => PropertyErrorView::Failed("failed to realize cgroup for "@ + name + ": "@ + error),
        PropertyStep::Control => PropertyErrorView::Failed(
            "failed to apply cgroup properties for "@ + name + ": "@ + error,
        ),
    }
}

/// The error for a step that failed.
pub fn failed_step(step: PropertyStep, name: &str, error: &str) -> (r: SetUnitPropertiesError)
    ensures
        r@ == step_error(step, name@, error@),
{
    match step {
        PropertyStep::Write => {
            let mut message = "failed to write unit properties: ".to_owned();
            message.push_str(error);
            SetUnitPropertiesError::Failed(message)
        },
        PropertyStep::Reload => SetUnitPropertiesError::BadUnitSetting(
            sentence("Unit ", name, " has a bad unit file setting: ", error),
        ),
        PropertyStep::Realize => SetUnitPropertiesError::Failed(sentence("failed to realize cgroup for ", name, ": ", error)),
        PropertyStep::Control => SetUnitPropertiesError::Failed(
            sentence("failed to apply cgroup properties for ", name, ": ", error),
        ),
    }
}

/// Why a unit could not be loaded.
#[derive(Debug)]
pub struct LoadFailure {
    pub error: String,
    pub not_found: bool,
}

impl Manager {
    /// Begin to set properties of a unit, which is loaded where the registry
    /// lacks it. Whether any of them limits resources; or why they cannot be
    /// set.
    pub fn begin_set_unit_properties(
        &mut self,
        name: &str,
        loaded: Result<LoadedUnit, LoadFailure>,
        properties: &Vec<SetUnitProperty>,
    ) -> (r: Result<bool, SetUnitPropertiesError>)
        requires
            old(self).wf(),
        ensures
            final(self).wf(),
            *final(self) == (Manager { units: final(self).units, ..*old(self) }),
            final(self).records() == with_loaded(
                old(self).records(),
                name@,
                match loaded {
                    Ok(unit) => Some(unit),
                    Err(_) => None,
                },
            ),
            ({
                let units = final(self).records();
                let limits = exists|i: int| 0 <= i < properties@.len() && is_resource(#[trigger] properties@[i]);
                match r {
                    Ok(resource) => units.dom().contains(name@) && (units[name@].loaded is Service || !limits)
                        && resource == limits,
                    Err(error) => if !units.dom().contains(name@) {
                        loaded matches Err(failure) && error@ == load_error(name@, failure.error@, failure.not_found)
                    } else {
                        !(units[name@].loaded is Service) && exists|i: int|
                            0 <= i < properties@.len() && is_resource(#[trigger] properties@[i]) && error@
                                == PropertyErrorView::PropertyReadOnly(read_only_message(properties@[i].name()))
                                && forall|k: int| 0 <= k < i ==> !is_resource(#[trigger] properties@[k])
                    },
                }
            }),
    {
        match loaded {
            Ok(unit) => {
                self.load_unit(name, Some(unit));
            },
            Err(failure) => {
                if !self.units.contains(name) {
                    return Err(classify_load_error(name, failure.error.as_str(), failure.not_found));
                }
            },
        }
        match self.units.get(name) {
            Some(record) => match validate_set_unit_properties(&record.loaded, properties) {
                Ok(_) => Ok(has_resource_control(properties)),
                Err(error) => Err(error),
            },
            None => Err(classify_load_error(name, "", true)),
        }
    }
}

/// The names under which properties are set.
pub proof fn law_properties_have_their_names(p: SetUnitProperty)
    ensures
        p is Description ==> p.name() == "Description"@,
        p is IoAccounting ==> p.name() == "IOAccounting"@,
        p is MemoryAccounting ==> p.name() == "MemoryAccounting"@,
        p is TasksAccounting ==> p.name() == "TasksAccounting"@,
        p is IpAccounting ==> p.name() == "IPAccounting"@,
        p is CpuWeight ==> p.name() == "CPUWeight"@,
        p is CpuQuota ==> p.name() == "CPUQuotaPerSecUSec"@,
        p is IoWeight ==> p.name() == "IOWeight"@,
        p is MemoryMin ==> p.name() == "MemoryMin"@,
        p is MemoryLow ==> p.name() == "MemoryLow"@,
        p is MemoryHigh ==> p.name() == "MemoryHigh"@,
        p is MemoryMax ==> p.name() == "MemoryMax"@,
        p is MemorySwapMax ==> p.name() == "MemorySwapMax"@,
        p is MemoryZSwapMax ==> p.name() == "MemoryZSwapMax"@,
        p is MemoryZSwapWriteback ==> p.name() == "MemoryZSwapWriteback"@,
        p is TasksMax ==> p.name() == "TasksMax"@,
{
}

/// Every property but the description controls resources, and only a service
/// has those.
pub proof fn law_which_properties_control_resources(p: SetUnitProperty)
    ensures
        !is_resource(p) <==> p is Description,
{
}

/// What a unit that could not be loaded is reported as: masked where the error
/// says so in any case, else missing where it was not found, else badly
/// written, with the error. The report names the unit.
pub proof fn law_how_a_failed_load_is_reported(name: Seq<char>, error: Seq<char>, not_found: bool)
    ensures
        ({
            let masked = exists|from: int, to: int|
                0 <= from <= to <= error.len() && #[trigger] text::lower_case(error).subrange(from, to) == "masked"@;
            let r = load_error(name, error, not_found);
            &&& r is UnitMasked <==> masked
            &&& r is NoSuchUnit <==> !masked && not_found
            &&& r is BadUnitSetting <==> !masked && !not_found
            &&& r is UnitMasked ==> r->UnitMasked_0 == "Unit "@ + name + " is masked."@
            &&& r is NoSuchUnit ==> r->NoSuchUnit_0 == "Unit "@ + name + " not found."@
            &&& r is BadUnitSetting ==> r->BadUnitSetting_0 == "Unit "@ + name + " has a bad unit file setting: "@ + error
        }),
{
    text::law_a_text_holds_its_parts(text::lower_case(error), "masked"@);
    let low = text::lower_case(error);
    assert(low.len() == error.len());
    if exists|from: int, to: int| 0 <= from <= to <= error.len() && #[trigger] low.subrange(from, to) == "masked"@ {
        let (from, to) = choose|from: int, to: int| 0 <= from <= to <= error.len() && #[trigger] low.subrange(from, to) == "masked"@;
        assert(0 <= from <= to <= low.len() && low.subrange(from, to) == "masked"@);
    }
    if text::holds(low, "masked"@) {
        let (from, to) = choose|from: int, to: int| 0 <= from <= to <= low.len() && #[trigger] low.subrange(from, to) == "masked"@;
        assert(low.subrange(from, to) == "masked"@);
    }
}

/// A step that failed is reported with its error, a unit that could not be read
/// again as badly written.
pub proof fn law_how_a_failed_step_is_reported(step: PropertyStep, name: Seq<char>, error: Seq<char>)
    ensures
        step_error(step, name, error) is BadUnitSetting <==> step is Reload,
        step_error(step, name, error) is Failed <==> !(step is Reload),
        step is Write ==> step_error(step, name, error)->Failed_0 == "failed to write unit properties: "@ + error,
        step is Realize ==> step_error(step, name, error)->Failed_0 == "failed to realize cgroup for "@ + name + ": "@ + error,
        step is Control ==> step_error(step, name, error)->Failed_0 == "failed to apply cgroup properties for "@ + name + ": "@ + error,
        step is Reload ==> step_error(step, name, error)->BadUnitSetting_0 == "Unit "@ + name + " has a bad unit file setting: "@ + error,
{
}

/// What is said of a property that cannot be set.
pub proof fn law_what_is_said_of_a_property_that_cannot_be_set(name: Seq<char>)
    ensures
        read_only_message(name) == "Cannot set property "@ + name + ", or unknown property."@,
{
}

} // verus!
