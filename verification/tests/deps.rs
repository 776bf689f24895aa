use rustd::deps::{missing_dependencies, resolve_start_order, DepUnit};
use rustd::names::NameMap;
use rustd::unit::{LoadedUnit, ParsedUnit, UnitSection, UnitState};

fn owned(names: &[&str]) -> Vec<String> {
    names.iter().map(|s| (*s).to_owned()).collect()
}

fn make_target(name: &str, wants: &[&str], after: &[&str]) -> LoadedUnit {
    let unit = UnitSection {
        wants: owned(wants),
        after: owned(after),
        ..Default::default()
    };
    LoadedUnit::Target(ParsedUnit {
        name: name.to_owned(),
        unit,
        specific: (),
    })
}

fn requiring(name: &str, requires: &[&str]) -> LoadedUnit {
    LoadedUnit::Target(ParsedUnit {
        name: name.to_owned(),
        unit: UnitSection {
            requires: owned(requires),
            ..Default::default()
        },
        specific: (),
    })
}

fn dep_unit(u: &LoadedUnit) -> DepUnit<'_> {
    DepUnit {
        loaded: u,
        state: UnitState::Inactive,
    }
}

fn known<'a>(units: &[&'a LoadedUnit]) -> NameMap<DepUnit<'a>> {
    let mut map = NameMap::new();
    for unit in units {
        map.insert(unit.name().clone(), dep_unit(unit));
    }
    map
}

fn at(order: &[String], name: &str) -> usize {
    order.iter().position(|x| x == name).unwrap()
}

#[test]
fn single_unit_no_deps() {
    let a = make_target("a.target", &[], &[]);
    let order = resolve_start_order("a.target", &known(&[&a]), &NameMap::new()).unwrap();
    assert_eq!(order, vec!["a.target"]);
}

#[test]
fn linear_chain() {
    let a = make_target("a.target", &[], &[]);
    let b = make_target("b.target", &["a.target"], &["a.target"]);
    let order = resolve_start_order("b.target", &known(&[&a, &b]), &NameMap::new()).unwrap();
    assert_eq!(order, vec!["a.target", "b.target"]);
}

#[test]
fn diamond_resolves() {
    // b → a, c → a, d → b + c
    let a = make_target("a.target", &[], &[]);
    let b = make_target("b.target", &["a.target"], &[]);
    let c = make_target("c.target", &["a.target"], &[]);
    let d = make_target("d.target", &["b.target", "c.target"], &[]);
    let order = resolve_start_order("d.target", &known(&[&a, &b, &c, &d]), &NameMap::new()).unwrap();
    // a must come before b and c; b and c before d.
    let ai = at(&order, "a.target");
    let bi = at(&order, "b.target");
    let ci = at(&order, "c.target");
    let di = at(&order, "d.target");
    assert!(ai < bi);
    assert!(ai < ci);
    assert!(bi < di);
    assert!(ci < di);
}

#[test]
fn cycle_is_broken_instead_of_failing() {
    let a = make_target("a.target", &["b.target"], &[]);
    let b = make_target("b.target", &["a.target"], &[]);
    let order = resolve_start_order("a.target", &known(&[&a, &b]), &NameMap::new()).unwrap();
    assert_eq!(order, vec!["b.target", "a.target"]);
}

#[test]
fn self_referential_unit_resolves_once() {
    let a = make_target("a.target", &[], &["a.target"]);
    let order = resolve_start_order("a.target", &known(&[&a]), &NameMap::new()).unwrap();
    assert_eq!(order, vec!["a.target"]);
}

#[test]
fn missing_wants_skipped() {
    let a = make_target("a.target", &["missing.target"], &[]);
    // Should not error — missing Wants= is silently skipped.
    let order = resolve_start_order("a.target", &known(&[&a]), &NameMap::new()).unwrap();
    assert_eq!(order, vec!["a.target"]);
}

#[test]
fn missing_requires_errors() {
    let a = requiring("a.target", &["missing.target"]);
    assert!(resolve_start_order("a.target", &known(&[&a]), &NameMap::new()).is_err());
}

#[test]
fn missing_requirement_is_named() {
    let a = requiring("a.target", &["missing.target"]);
    let error = resolve_start_order("a.target", &known(&[&a]), &NameMap::new()).unwrap_err();
    assert_eq!(error.name, "missing.target");
}

#[test]
fn loaded_dependency_satisfies_a_requirement() {
    let a = requiring("a.target", &["b.target"]);
    let mut loaded = NameMap::new();
    loaded.insert("b.target".to_owned(), make_target("b.target", &[], &[]));
    let order = resolve_start_order("a.target", &known(&[&a]), &loaded).unwrap();
    assert_eq!(order, vec!["b.target", "a.target"]);
}

#[test]
fn every_needed_unit_comes_once_and_after_what_it_needs() {
    let a = requiring("a.target", &["c.target", "b.target"]);
    let b = make_target("b.target", &["c.target"], &["d.target"]);
    let c = make_target("c.target", &[], &["d.target"]);
    let d = make_target("d.target", &[], &[]);
    let order = resolve_start_order("a.target", &known(&[&a, &b, &c, &d]), &NameMap::new()).unwrap();
    assert_eq!(order, vec!["d.target", "c.target", "b.target", "a.target"]);
}

#[test]
fn dependencies_that_are_not_known_are_asked_for() {
    let a = make_target("a.target", &["b.target", "c.target"], &[]);
    let tried: Vec<String> = Vec::new();
    assert_eq!(
        missing_dependencies("a.target", &known(&[&a]), &NameMap::new(), &tried),
        vec!["b.target", "c.target"]
    );
    let tried = owned(&["b.target", "c.target"]);
    assert!(missing_dependencies("a.target", &known(&[&a]), &NameMap::new(), &tried).is_empty());
}
