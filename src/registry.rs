//! The set of registered installers: names are unique, registration order is
//! kept, and the execution order is resolved from declared dependencies.

use vstd::prelude::*;
use crate::installers::{
    AlacrittyInstaller, AptInstaller, BuiltinInstaller, Installer, RustInstaller, strs_view,
};
use crate::resolve::{DependencyError, deps_view, is_registered, is_resolve_result, names_unique, resolve};
use crate::system::strings_view;

verus! {

/// A second installer was offered under a name that is already registered.
#[derive(Debug)]
pub struct DuplicateNameError {
    pub name: String,
}

/// The names of a sequence of installers.
pub open spec fn names_of<I: Installer>(s: Seq<I>) -> Seq<Seq<char>> {
    s.map_values(|x: I| x.name_spec())
}

/// The dependency lists of a sequence of installers.
pub open spec fn deps_of<I: Installer>(s: Seq<I>) -> Seq<Seq<Seq<char>>> {
    s.map_values(|x: I| x.dependencies_spec())
}

pub struct InstallerRegistry<I: Installer> {
    installers: Vec<I>,
}

/// Whether two names are the same text.
fn same_text(a: &str, b: &str) -> (r: bool)
    ensures
        r == (a@ == b@),
{
    a.to_owned() == b.to_owned()
}

impl<I: Installer> InstallerRegistry<I> {
    /// The registered installers, in registration order.
    pub closed spec fn entries(&self) -> Seq<I> {
        self.installers@
    }

    #[verifier::type_invariant]
    spec fn unique_names(&self) -> bool {
        names_unique(names_of(self.installers@))
    }

    pub fn new() -> (r: Self)
        ensures
            r.entries() == Seq::<I>::empty(),
    {
        let r = InstallerRegistry { installers: Vec::new() };
        proof {
            assert(names_of(r.installers@) =~= Seq::<Seq<char>>::empty());
        }
        r
    }

    /// Adds `installer` after those registered so far, unless its name is taken.
    pub fn register(&mut self, installer: I) -> (r: Result<(), DuplicateNameError>)
        ensures
            r is Ok <==> !is_registered(names_of(old(self).entries()), installer.name_spec()),
            match r {
                Ok(()) => final(self).entries() == old(self).entries().push(installer),
                Err(e) => e.name@ == installer.name_spec() && final(self).entries() == old(
                    self,
                ).entries(),
            },
    {
        proof {
            use_type_invariant(&*self);
        }
        let name = installer.name();
        let mut j: usize = 0;
        while j < self.installers.len()
            invariant
                j <= self.installers.len(),
                name@ == installer.name_spec(),
                forall|m: int| 0 <= m < j ==> self.installers@[m].name_spec() != name@,
            decreases self.installers.len() - j,
        {
            if same_text(self.installers[j].name(), name) {
                proof {
                    assert(names_of(self.installers@)[j as int] == installer.name_spec());
                }
                return Err(DuplicateNameError { name: name.to_owned() });
            }
            j = j + 1;
        }
        let ghost old_entries = self.installers@;
        let mut v: Vec<I> = Vec::new();
        std::mem::swap(&mut v, &mut self.installers);
        v.push(installer);
        proof {
            assert(names_of(v@) =~= names_of(old_entries).push(installer.name_spec()));
            assert(!is_registered(names_of(old_entries), installer.name_spec()));
        }
        self.installers = v;
        Ok(())
    }

    /// The registered installers, in registration order.
    pub fn get_installers(&self) -> (r: &[I])
        ensures
            r@ == self.entries(),
    {
        self.installers.as_slice()
    }

    /// The order in which to run the registered installers, as positions in
    /// registration order: every installer after those it depends on, and
    /// among those that are ready the earliest registered first.
    pub fn resolve_order(&self) -> (r: Result<Vec<usize>, DependencyError>)
        ensures
            is_resolve_result(names_of(self.entries()), deps_of(self.entries()), r),
    {
        proof {
            use_type_invariant(self);
        }
        let mut names: Vec<String> = Vec::new();
        let mut deps: Vec<Vec<String>> = Vec::new();
        let mut i: usize = 0;
        while i < self.installers.len()
            invariant
                i <= self.installers.len(),
                names.len() == i,
                deps.len() == i,
                strings_view(names@) =~= names_of(self.installers@.take(i as int)),
                deps_view(deps@) =~= deps_of(self.installers@.take(i as int)),
            decreases self.installers.len() - i,
        {
            let inst = &self.installers[i];
            let ds = inst.dependencies();
            let mut row: Vec<String> = Vec::new();
            let mut k: usize = 0;
            while k < ds.len()
                invariant
                    k <= ds.len(),
                    strings_view(row@) =~= strs_view(ds@.take(k as int)),
                decreases ds.len() - k,
            {
                let ghost old_row = row@;
                let d = ds[k].to_owned();
                row.push(d);
                proof {
                    assert(ds@.take(k as int + 1) == ds@.take(k as int).push(ds@[k as int]));
                    assert(strings_view(row@) =~= strings_view(old_row).push(d@));
                }
                k = k + 1;
            }
            proof {
                assert(ds@.take(k as int) == ds@);
            }
            let ghost old_names = names@;
            let ghost old_deps = deps@;
            let n = inst.name().to_owned();
            names.push(n);
            deps.push(row);
            proof {
                assert(self.installers@.take(i as int + 1) == self.installers@.take(i as int).push(
                    self.installers@[i as int],
                ));
                assert(strings_view(names@) =~= strings_view(old_names).push(n@));
                assert(deps_view(deps@) =~= deps_view(old_deps).push(strings_view(row@)));
            }
            i = i + 1;
        }
        proof {
            assert(self.installers@.take(i as int) == self.installers@);
        }
        resolve(&names, &deps)
    }
}

impl InstallerRegistry<BuiltinInstaller> {
    /// Registers the built-in components: package refresh, Rust, Alacritty.
    pub fn register_all(&mut self)
        requires
            old(self).entries().len() == 0,
        ensures
            final(self).entries() == seq![
                BuiltinInstaller::Apt(AptInstaller { updated: false }),
                BuiltinInstaller::Rust(RustInstaller {  }),
                BuiltinInstaller::Alacritty(AlacrittyInstaller {  }),
            ],
    {
        proof {
            reveal_strlit("APT Update & Upgrade");
            reveal_strlit("Rust");
            reveal_strlit("Alacritty");
        }
        let a = BuiltinInstaller::Apt(AptInstaller::new());
        let r1 = self.register(a);
        assert(self.entries() =~= seq![a]);
        assert(names_of(self.entries()) =~= seq!["APT Update & Upgrade"@]);
        assert("Rust"@.len() == 4 && "APT Update & Upgrade"@.len() == 20);
        assert("Alacritty"@.len() == 9);
        let b = BuiltinInstaller::Rust(RustInstaller::new());
        let r2 = self.register(b);
        assert(self.entries() =~= seq![a, b]);
        assert(names_of(self.entries()) =~= seq!["APT Update & Upgrade"@, "Rust"@]);
        let c = BuiltinInstaller::Alacritty(AlacrittyInstaller::new());
        let r3 = self.register(c);
        assert(self.entries() =~= seq![a, b, c]);
    }
}

} // verus!
