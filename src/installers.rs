//! The capability every installable component offers to the registry and
//! the orchestrator, and the built-in components.

use vstd::prelude::*;

verus! {

/// The characters of each name in a list of names.
pub open spec fn strs_view(v: Seq<&str>) -> Seq<Seq<char>> {
    v.map_values(|s: &str| s@)
}

/// The confirmation asked before installing a component again.
pub open spec fn reinstall_question(name: Seq<char>) -> Seq<char> {
    "Are you sure reinstalling "@ + name + "?"@
}

/// An installable component: its identity, the components it depends on
/// (by name), and the question asked before installing it again.
pub trait Installer {
    spec fn name_spec(&self) -> Seq<char>;

    spec fn dependencies_spec(&self) -> Seq<Seq<char>>;

    spec fn reinstall_msg_spec(&self) -> Seq<char>;

    spec fn description_spec(&self) -> Seq<char>;

    fn name(&self) -> (r: &str)
        ensures
            r@ == self.name_spec(),
    ;

    fn description(&self) -> (r: &str)
        ensures
            r@ == self.description_spec(),
    ;

    fn dependencies(&self) -> (r: Vec<&str>)
        ensures
            strs_view(r@) == self.dependencies_spec(),
    ;

    fn get_reinstall_msg(&self) -> (r: String)
        ensures
            r@ == self.reinstall_msg_spec(),
    ;
}

/// Builds the reinstall question for `name`.
fn reinstall_message(name: &str) -> (r: String)
    ensures
        r@ == reinstall_question(name@),
{
    let mut m = String::from_str("Are you sure reinstalling ");
    m.append(name);
    m.append("?");
    m
}

/// System package refresh: updates the package index and upgrades packages.
pub struct AptInstaller {
    pub updated: bool,
}

impl AptInstaller {
    pub fn new() -> (r: Self)
        ensures
            !r.updated,
    {
        AptInstaller { updated: false }
    }
}

impl Installer for AptInstaller {
    open spec fn description_spec(&self) -> Seq<char> {
        "Updates and upgrades Ubuntu packages"@
    }

    open spec fn name_spec(&self) -> Seq<char> {
        "APT Update & Upgrade"@
    }

    open spec fn dependencies_spec(&self) -> Seq<Seq<char>> {
        seq![]
    }

    open spec fn reinstall_msg_spec(&self) -> Seq<char> {
        "Hi"@
    }

    fn name(&self) -> (r: &str) {
        "APT Update & Upgrade"
    }

    fn description(&self) -> (r: &str) {
        "Updates and upgrades Ubuntu packages"
    }

    fn dependencies(&self) -> (r: Vec<&str>) {
        let r: Vec<&str> = Vec::new();
        assert(strs_view(r@) =~= seq![]);
        r
    }

    fn get_reinstall_msg(&self) -> (r: String) {
        String::from_str("Hi")
    }
}

/// The Rust toolchain, installed through rustup.
pub struct RustInstaller {}

impl RustInstaller {
    pub fn new() -> (r: Self) {
        RustInstaller {  }
    }
}

impl Installer for RustInstaller {
    open spec fn description_spec(&self) -> Seq<char> {
        "Installs Rust programming language"@
    }

    open spec fn name_spec(&self) -> Seq<char> {
        "Rust"@
    }

    open spec fn dependencies_spec(&self) -> Seq<Seq<char>> {
        seq!["APT Update & Upgrade"@]
    }

    open spec fn reinstall_msg_spec(&self) -> Seq<char> {
        reinstall_question("Rust"@)
    }

    fn name(&self) -> (r: &str) {
        "Rust"
    }

    fn description(&self) -> (r: &str) {
        "Installs Rust programming language"
    }

    fn dependencies(&self) -> (r: Vec<&str>) {
        let mut r: Vec<&str> = Vec::new();
        r.push("APT Update & Upgrade");
        assert(strs_view(r@) =~= seq!["APT Update & Upgrade"@]);
        r
    }

    fn get_reinstall_msg(&self) -> (r: String) {
        reinstall_message(self.name())
    }
}

/// The Alacritty terminal emulator, built with cargo.
pub struct AlacrittyInstaller {}

impl AlacrittyInstaller {
    pub fn new() -> (r: Self) {
        AlacrittyInstaller {  }
    }
}

impl Installer for AlacrittyInstaller {
    open spec fn description_spec(&self) -> Seq<char> {
        "Fast GPU-accelerated terminal emulator"@
    }

    open spec fn name_spec(&self) -> Seq<char> {
        "Alacritty"@
    }

    open spec fn dependencies_spec(&self) -> Seq<Seq<char>> {
        seq!["Rust"@, "APT Update & Upgrade"@]
    }

    open spec fn reinstall_msg_spec(&self) -> Seq<char> {
        reinstall_question("Alacritty"@)
    }

    fn name(&self) -> (r: &str) {
        "Alacritty"
    }

    fn description(&self) -> (r: &str) {
        "Fast GPU-accelerated terminal emulator"
    }

    fn dependencies(&self) -> (r: Vec<&str>) {
        let mut r: Vec<&str> = Vec::new();
        r.push("Rust");
        r.push("APT Update & Upgrade");
        assert(strs_view(r@) =~= seq!["Rust"@, "APT Update & Upgrade"@]);
        r
    }

    fn get_reinstall_msg(&self) -> (r: String) {
        reinstall_message(self.name())
    }
}

} // verus!

verus! {

/// A component described entirely by data: name, description and the
/// names of the components it depends on.
pub struct NamedInstaller {
    pub name: String,
    pub description: String,
    pub dependencies: Vec<String>,
}

impl NamedInstaller {
    pub fn new(name: String, description: String, dependencies: Vec<String>) -> (r: Self)
        ensures
            r.name == name,
            r.description == description,
            r.dependencies == dependencies,
    {
        NamedInstaller { name, description, dependencies }
    }
}

impl Installer for NamedInstaller {
    open spec fn description_spec(&self) -> Seq<char> {
        self.description@
    }

    open spec fn name_spec(&self) -> Seq<char> {
        self.name@
    }

    open spec fn dependencies_spec(&self) -> Seq<Seq<char>> {
        self.dependencies@.map_values(|s: String| s@)
    }

    open spec fn reinstall_msg_spec(&self) -> Seq<char> {
        reinstall_question(self.name@)
    }

    fn name(&self) -> (r: &str) {
        self.name.as_str()
    }

    fn description(&self) -> (r: &str) {
        self.description.as_str()
    }

    fn dependencies(&self) -> (r: Vec<&str>) {
        let mut r: Vec<&str> = Vec::new();
        let mut i: usize = 0;
        while i < self.dependencies.len()
            invariant
                i <= self.dependencies.len(),
                strs_view(r@) =~= self.dependencies@.take(i as int).map_values(|s: String| s@),
            decreases self.dependencies.len() - i,
        {
            let ghost old_r = r@;
            let d = self.dependencies[i].as_str();
            r.push(d);
            proof {
                assert(self.dependencies@.take(i as int + 1) == self.dependencies@.take(i as int).push(
                    self.dependencies@[i as int],
                ));
                assert(strs_view(r@) =~= strs_view(old_r).push(d@));
            }
            i = i + 1;
        }
        proof {
            assert(self.dependencies@.take(i as int) == self.dependencies@);
        }
        r
    }

    fn get_reinstall_msg(&self) -> (r: String) {
        reinstall_message(self.name.as_str())
    }
}

/// One of the components this program knows how to install.
pub enum BuiltinInstaller {
    Apt(AptInstaller),
    Rust(RustInstaller),
    Alacritty(AlacrittyInstaller),
}

impl Installer for BuiltinInstaller {
    open spec fn description_spec(&self) -> Seq<char> {
        match self {
            BuiltinInstaller::Apt(i) => i.description_spec(),
            BuiltinInstaller::Rust(i) => i.description_spec(),
            BuiltinInstaller::Alacritty(i) => i.description_spec(),
        }
    }

    open spec fn name_spec(&self) -> Seq<char> {
        match self {
            BuiltinInstaller::Apt(i) => i.name_spec(),
            BuiltinInstaller::Rust(i) => i.name_spec(),
            BuiltinInstaller::Alacritty(i) => i.name_spec(),
        }
    }

    open spec fn dependencies_spec(&self) -> Seq<Seq<char>> {
        match self {
            BuiltinInstaller::Apt(i) => i.dependencies_spec(),
            BuiltinInstaller::Rust(i) => i.dependencies_spec(),
            BuiltinInstaller::Alacritty(i) => i.dependencies_spec(),
        }
    }

    open spec fn reinstall_msg_spec(&self) -> Seq<char> {
        match self {
            BuiltinInstaller::Apt(i) => i.reinstall_msg_spec(),
            BuiltinInstaller::Rust(i) => i.reinstall_msg_spec(),
            BuiltinInstaller::Alacritty(i) => i.reinstall_msg_spec(),
        }
    }

    fn name(&self) -> (r: &str) {
        match self {
            BuiltinInstaller::Apt(i) => i.name(),
            BuiltinInstaller::Rust(i) => i.name(),
            BuiltinInstaller::Alacritty(i) => i.name(),
        }
    }

    fn description(&self) -> (r: &str) {
        match self {
            BuiltinInstaller::Apt(i) => i.description(),
            BuiltinInstaller::Rust(i) => i.description(),
            BuiltinInstaller::Alacritty(i) => i.description(),
        }
    }

    fn dependencies(&self) -> (r: Vec<&str>) {
        match self {
            BuiltinInstaller::Apt(i) => i.dependencies(),
            BuiltinInstaller::Rust(i) => i.dependencies(),
            BuiltinInstaller::Alacritty(i) => i.dependencies(),
        }
    }

    fn get_reinstall_msg(&self) -> (r: String) {
        match self {
            BuiltinInstaller::Apt(i) => i.get_reinstall_msg(),
            BuiltinInstaller::Rust(i) => i.get_reinstall_msg(),
            BuiltinInstaller::Alacritty(i) => i.get_reinstall_msg(),
        }
    }
}

} // verus!
