//! The module registry: a compile-selected static list and a bounded late
//! registry, each module reporting metadata and whether its initialization
//! succeeded. A failing module never aborts the boot.
use vstd::prelude::*;
use crate::ffi::FFIStr;

verus! {

/// How many late modules the registry can hold.
pub const MODULE_CAPACITY: usize = 255;

/// Name and version of a module, as ABI string descriptors.
#[derive(Clone, Debug, PartialEq, Eq, Hash)]
pub struct ModuleMetadata {
    /// The module's name.
    pub name: FFIStr,
    /// The module's version string.
    pub version_string: FFIStr,
}

/// A kernel module, modeled by what its two entry points return: its
/// metadata, and whether its initialization reported success. Modules exist
/// so that parts of the kernel can fail without panicking.
#[derive(Clone, Debug, PartialEq, Eq, Hash)]
pub struct Module {
    /// What the module's metadata entry point returns.
    pub metadata: ModuleMetadata,
    /// What the module's initialization entry point returns.
    pub init_ok: bool,
}

/// How many of the modules initialized successfully.
pub open spec fn spec_successful(modules: Seq<Module>) -> int
    decreases modules.len(),
{
    if modules.len() == 0 {
        0
    } else {
        spec_successful(modules.drop_last()) + if modules.last().init_ok {
            1int
        } else {
            0int
        }
    }
}

/// Initializes the static module list: every module is tried, a failure is
/// only recorded, and the tally of successes over the total comes back.
pub fn init(modules: &Vec<Module>) -> (r: (usize, usize))
    ensures
        r.0 == spec_successful(modules@),
        r.1 == modules@.len(),
{
    let n = modules.len();
    let mut count: usize = 0;
    let mut i: usize = 0;
    while i < n
        invariant
            n == modules@.len(),
            i <= n,
            count == spec_successful(modules@.subrange(0, i as int)),
            count <= i,
        decreases n - i,
    {
        proof {
            assert(modules@.subrange(0, i as int + 1).drop_last() =~= modules@.subrange(
                0,
                i as int,
            ));
        }
        if modules[i].init_ok {
            count = count + 1;
        }
        i = i + 1;
    }
    proof {
        assert(modules@.subrange(0, n as int) =~= modules@);
    }
    (count, n)
}

/// The late module registry: a bounded list of modules registered after the
/// initial pass.
#[derive(Debug)]
pub struct LateRegistry {
    modules: Vec<Module>,
}

impl LateRegistry {
    /// The registered modules, in registration order.
    pub closed spec fn spec_modules(&self) -> Seq<Module> {
        self.modules@
    }

    /// Never more modules than the capacity.
    pub open spec fn wf(&self) -> bool {
        self.spec_modules().len() <= MODULE_CAPACITY
    }

    /// An empty registry.
    pub fn new() -> (r: Self)
        ensures
            r.wf(),
            r.spec_modules().len() == 0,
    {
        LateRegistry { modules: Vec::new() }
    }

    /// How many modules are registered.
    pub fn len(&self) -> (r: usize)
        ensures
            r == self.spec_modules().len(),
    {
        self.modules.len()
    }
}

/// Registers a late module: refused when no space is left; otherwise the
/// module is initialized at once and kept exactly when that succeeded.
pub fn register(registry: &mut LateRegistry, module: Module) -> (r: bool)
    requires
        old(registry).wf(),
    ensures
        final(registry).wf(),
        old(registry).spec_modules().len() >= MODULE_CAPACITY ==> !r && final(registry).spec_modules() == old(registry).spec_modules(),
        old(registry).spec_modules().len() < MODULE_CAPACITY && !module.init_ok ==> !r && final(registry).spec_modules() == old(registry).spec_modules(),
        old(registry).spec_modules().len() < MODULE_CAPACITY && module.init_ok ==> r && final(registry).spec_modules() == old(registry).spec_modules().push(module),
{
    if registry.modules.len() >= MODULE_CAPACITY {
        false
    } else if module.init_ok {
        registry.modules.push(module);
        true
    } else {
        false
    }
}

/// Module failures stay isolated: the tally counts exactly the successes,
/// so a list whose only module fails reports no successes over one total,
/// and initialization itself never fails.
pub proof fn lemma_failure_isolation(modules: Seq<Module>)
    requires
        forall|i: int| 0 <= i < modules.len() ==> !(#[trigger] modules[i]).init_ok,
    ensures
        spec_successful(modules) == 0,
    decreases modules.len(),
{
    if modules.len() > 0 {
        assert(forall|i: int|
            0 <= i < modules.drop_last().len() ==> !(#[trigger] modules.drop_last()[i]).init_ok);
        lemma_failure_isolation(modules.drop_last());
    }
}

} // verus!
