//! Plugin identity and the capability a plugin offers to its host.

use vstd::prelude::*;
use crate::schedule::HookView;
use crate::schedule::HostSchedule;

verus! {

/// A plugin's identity: its name and its version. Both are fixed when the
/// descriptor is made.
#[derive(Clone, Debug, PartialEq, Eq)]
pub struct PluginDescriptor {
    name: String,
    version: String,
}

/// Mathematical value of a [`PluginDescriptor`].
pub struct PluginDescriptorView {
    pub name: Seq<char>,
    pub version: Seq<char>,
}

impl View for PluginDescriptor {
    type V = PluginDescriptorView;

    closed spec fn view(&self) -> PluginDescriptorView {
        PluginDescriptorView { name: self.name@, version: self.version@ }
    }
}

impl PluginDescriptor {
    /// The descriptor of the plugin called `name`, in version `version`.
    pub fn new(name: &str, version: &str) -> (descriptor: PluginDescriptor)
        ensures
            descriptor@.name == name@,
            descriptor@.version == version@,
    {
        PluginDescriptor { name: name.to_owned(), version: version.to_owned() }
    }

    /// The plugin's name.
    pub fn name(&self) -> (r: &str)
        ensures
            r@ == self@.name,
    {
        self.name.as_str()
    }

    /// The plugin's version.
    pub fn version(&self) -> (r: &str)
        ensures
            r@ == self@.version,
    {
        self.version.as_str()
    }
}

/// The capability every plugin offers to the host.
///
/// The host may hold a plugin as a type-erased value, so everything it can
/// rely on is stated here, over the plugin's `spec` functions.
pub trait GamePlugin {
    /// The plugin's name.
    spec fn name_spec(&self) -> Seq<char>;

    /// The plugin's version.
    spec fn version_spec(&self) -> Seq<char>;

    /// The hooks that `build` registers, in order.
    spec fn hooks_spec(&self) -> Seq<HookView>;

    /// Plugin name, for identification and debugging.
    fn name(&self) -> (r: &'static str)
        ensures
            r@ == self.name_spec(),
    ;

    /// Plugin version.
    fn version(&self) -> (r: &'static str)
        ensures
            r@ == self.version_spec(),
    ;

    /// The plugin's identity as a record.
    fn descriptor(&self) -> (descriptor: PluginDescriptor)
        ensures
            descriptor@.name == self.name_spec(),
            descriptor@.version == self.version_spec(),
    {
        PluginDescriptor::new(self.name(), self.version())
    }

    /// Registers the plugin's behaviour with the host. Nothing that was
    /// registered before is removed or reordered.
    fn build(&self, host: &mut HostSchedule)
        ensures
            final(host)@ == old(host)@ + self.hooks_spec(),
    ;

    /// Whatever `clone` makes of a plugin has the plugin's identity and
    /// asks for the plugin's hooks.
    proof fn clone_keeps_identity(&self, copy: &Self) where Self: Sized + Clone
        requires
            cloned::<Self>(*self, *copy),
        ensures
            copy.name_spec() == self.name_spec(),
            copy.version_spec() == self.version_spec(),
            copy.hooks_spec() == self.hooks_spec(),
    ;

    /// An independent copy with the same identity and the same behaviour.
    /// Making the copy runs none of the plugin's hooks.
    fn clone_plugin(&self) -> (copy: Box<Self>) where Self: Sized + Clone
        ensures
            copy.name_spec() == self.name_spec(),
            copy.version_spec() == self.version_spec(),
            copy.hooks_spec() == self.hooks_spec(),
    {
        let copy = boxed_clone(self);
        proof {
            self.clone_keeps_identity(&*copy);
        }
        copy
    }
}

/// Copies `value` into a box of its own with `dyn_clone::clone_box`.
///
/// The contract is taken from the source of `dyn_clone` and is not proved
/// here: for a type with `Clone`, `DynClone` is implemented by boxing
/// `self.clone()`, and `clone_box` hands out that box, so what the box holds
/// is what `value.clone()` returned.
#[verifier::external_body]
pub(crate) fn boxed_clone<T: Clone>(value: &T) -> (copy: Box<T>)
    ensures
        cloned::<T>(*value, *copy),
{
    dyn_clone::clone_box(value)
}

} // verus!
