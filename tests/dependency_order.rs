use ubuntu_setup_cli::installers::{
    AlacrittyInstaller, AptInstaller, BuiltinInstaller, Installer, NamedInstaller, RustInstaller,
};
use ubuntu_setup_cli::registry::InstallerRegistry;
use ubuntu_setup_cli::resolve::{resolve, DependencyError};

fn named(name: &str, deps: &[&str]) -> NamedInstaller {
    NamedInstaller::new(
        name.to_string(),
        format!("{} component", name),
        deps.iter().map(|d| d.to_string()).collect(),
    )
}

fn registry_of(items: Vec<NamedInstaller>) -> InstallerRegistry<NamedInstaller> {
    let mut r = InstallerRegistry::new();
    for i in items {
        assert!(r.register(i).is_ok());
    }
    r
}

fn names_in_order(r: &InstallerRegistry<NamedInstaller>, order: &[usize]) -> Vec<String> {
    let all = r.get_installers();
    order.iter().map(|&i| all[i].name().to_string()).collect()
}

#[test]
fn shared_dependency_goes_first_then_registration_order() {
    let r = registry_of(vec![named("B", &["A"]), named("A", &[]), named("C", &["A"])]);
    let order = r.resolve_order().unwrap();
    assert_eq!(order, vec![1, 0, 2]);
    assert_eq!(names_in_order(&r, &order), vec!["A", "B", "C"]);
}

#[test]
fn unknown_dependency_is_reported_by_name() {
    let r = registry_of(vec![named("X", &["Y"])]);
    match r.resolve_order() {
        Err(DependencyError::UnknownDependency(d)) => assert_eq!(d, "Y"),
        other => panic!("unexpected result: {:?}", other),
    }
}

#[test]
fn first_unknown_dependency_in_registration_order_wins() {
    let r = registry_of(vec![named("P", &["Q", "Z1"]), named("Q", &["Z2"])]);
    match r.resolve_order() {
        Err(DependencyError::UnknownDependency(d)) => assert_eq!(d, "Z1"),
        other => panic!("unexpected result: {:?}", other),
    }
}

#[test]
fn two_installer_cycle_is_reported() {
    let r = registry_of(vec![named("A", &["B"]), named("B", &["A"]), named("C", &[])]);
    match r.resolve_order() {
        Err(DependencyError::Cycle(names)) => assert_eq!(names, vec!["A", "B"]),
        other => panic!("unexpected result: {:?}", other),
    }
}

#[test]
fn self_dependency_is_a_cycle() {
    let r = registry_of(vec![named("A", &[]), named("S", &["S"])]);
    match r.resolve_order() {
        Err(DependencyError::Cycle(names)) => assert_eq!(names, vec!["S"]),
        other => panic!("unexpected result: {:?}", other),
    }
}

#[test]
fn dependent_outside_the_cycle_is_not_named() {
    let r = registry_of(vec![named("A", &["B"]), named("B", &["A"]), named("C", &["A"])]);
    match r.resolve_order() {
        Err(DependencyError::Cycle(names)) => assert_eq!(names, vec!["A", "B"]),
        other => panic!("unexpected result: {:?}", other),
    }
}

#[test]
fn three_installer_cycle_with_dependent_and_independent() {
    let r = registry_of(vec![
        named("D", &["C"]),
        named("A", &["B"]),
        named("E", &[]),
        named("B", &["C"]),
        named("C", &["A"]),
    ]);
    match r.resolve_order() {
        Err(DependencyError::Cycle(names)) => assert_eq!(names, vec!["A", "B", "C"]),
        other => panic!("unexpected result: {:?}", other),
    }
}

#[test]
fn two_separate_cycles_are_both_named() {
    let r = registry_of(vec![
        named("P", &["Q"]),
        named("X", &["X"]),
        named("Q", &["P"]),
        named("R", &["X", "P"]),
    ]);
    match r.resolve_order() {
        Err(DependencyError::Cycle(names)) => assert_eq!(names, vec!["P", "X", "Q"]),
        other => panic!("unexpected result: {:?}", other),
    }
}

#[test]
fn chain_is_ordered_against_registration() {
    let r = registry_of(vec![named("C", &["B"]), named("B", &["A"]), named("A", &[])]);
    let order = r.resolve_order().unwrap();
    assert_eq!(names_in_order(&r, &order), vec!["A", "B", "C"]);
}

#[test]
fn every_installer_follows_its_dependencies() {
    let r = registry_of(vec![
        named("E", &["D", "B"]),
        named("D", &["A"]),
        named("C", &[]),
        named("B", &["C", "A"]),
        named("A", &[]),
    ]);
    let order = r.resolve_order().unwrap();
    let names = names_in_order(&r, &order);
    assert_eq!(names, vec!["C", "A", "D", "B", "E"]);
    let all = r.get_installers();
    for (p, &i) in order.iter().enumerate() {
        for d in all[i].dependencies() {
            let q = names.iter().position(|n| n == d).unwrap();
            assert!(q < p);
        }
    }
}

#[test]
fn empty_registry_resolves_to_empty_order() {
    let r: InstallerRegistry<NamedInstaller> = InstallerRegistry::new();
    assert_eq!(r.resolve_order().unwrap(), Vec::<usize>::new());
}

#[test]
fn duplicate_name_is_rejected() {
    let mut r = InstallerRegistry::new();
    assert!(r.register(named("A", &[])).is_ok());
    let e = r.register(named("A", &["B"])).unwrap_err();
    assert_eq!(e.name, "A");
    assert_eq!(r.get_installers().len(), 1);
    assert_eq!(r.get_installers()[0].dependencies().len(), 0);
}

#[test]
fn builtin_components_resolve_in_dependency_order() {
    let mut r = InstallerRegistry::new();
    r.register_all();
    let names: Vec<&str> = r.get_installers().iter().map(|i| i.name()).collect();
    assert_eq!(names, vec!["APT Update & Upgrade", "Rust", "Alacritty"]);
    assert_eq!(r.resolve_order().unwrap(), vec![0, 1, 2]);
}

#[test]
fn builtin_descriptions_and_questions() {
    assert_eq!(AptInstaller::new().get_reinstall_msg(), "Hi");
    assert_eq!(
        RustInstaller::new().get_reinstall_msg(),
        "Are you sure reinstalling Rust?"
    );
    assert_eq!(
        AlacrittyInstaller::new().get_reinstall_msg(),
        "Are you sure reinstalling Alacritty?"
    );
    assert_eq!(
        AlacrittyInstaller::new().dependencies(),
        vec!["Rust", "APT Update & Upgrade"]
    );
    assert_eq!(RustInstaller::new().description(), "Installs Rust programming language");
    let b = BuiltinInstaller::Rust(RustInstaller::new());
    assert_eq!(b.dependencies(), vec!["APT Update & Upgrade"]);
    assert_eq!(named("Zed", &[]).get_reinstall_msg(), "Are you sure reinstalling Zed?");
}

#[test]
fn resolve_on_plain_lists() {
    let names = vec!["b".to_string(), "a".to_string()];
    let deps = vec![vec!["a".to_string()], vec![]];
    assert_eq!(resolve(&names, &deps).unwrap(), vec![1, 0]);
}
