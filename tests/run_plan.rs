use ubuntu_setup_cli::installers::{Installer, NamedInstaller};
use ubuntu_setup_cli::orchestrator::plan_run;
use ubuntu_setup_cli::registry::InstallerRegistry;
use ubuntu_setup_cli::resolve::DependencyError;

fn named(name: &str, deps: &[&str]) -> NamedInstaller {
    NamedInstaller::new(
        name.to_string(),
        String::new(),
        deps.iter().map(|d| d.to_string()).collect(),
    )
}

#[test]
fn plan_for_b_a_c_puts_a_first_then_b_then_c() {
    let mut r = InstallerRegistry::new();
    r.register(named("B", &["A"])).unwrap();
    r.register(named("A", &[])).unwrap();
    r.register(named("C", &["A"])).unwrap();
    let plan = plan_run(&r, &vec![true, true, true]).unwrap();
    let names: Vec<&str> = plan.iter().map(|&i| r.get_installers()[i].name()).collect();
    assert_eq!(names, vec!["A", "B", "C"]);
}

#[test]
fn plan_keeps_only_selected_installers() {
    let mut r = InstallerRegistry::new();
    r.register(named("B", &["A"])).unwrap();
    r.register(named("A", &[])).unwrap();
    r.register(named("C", &["A"])).unwrap();
    assert_eq!(plan_run(&r, &vec![false, true, true]).unwrap(), vec![1, 2]);
}

#[test]
fn unknown_dependency_plans_nothing() {
    let mut r = InstallerRegistry::new();
    r.register(named("X", &["Y"])).unwrap();
    match plan_run(&r, &vec![true]) {
        Err(DependencyError::UnknownDependency(d)) => assert_eq!(d, "Y"),
        other => panic!("unexpected result: {:?}", other),
    }
}

#[test]
fn cycle_plans_nothing() {
    let mut r = InstallerRegistry::new();
    r.register(named("A", &["B"])).unwrap();
    r.register(named("B", &["A"])).unwrap();
    assert!(matches!(plan_run(&r, &vec![true, true]), Err(DependencyError::Cycle(_))));
}
