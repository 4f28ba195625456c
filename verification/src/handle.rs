//! The handle that carries a plugin across the host boundary.
//!
//! A handle owns exactly one capability. Ownership moves: whoever holds the
//! handle holds the plugin, and a handle that has been destroyed or taken
//! apart cannot be used again.

use vstd::prelude::*;
use crate::plugin::GamePlugin;
use crate::template::TemplatePlugin;

verus! {

/// Owner of one plugin capability. `P` is the capability's type; the host
/// uses the type-erased `dyn GamePlugin`.
pub struct PluginHandle<P: GamePlugin + ?Sized = dyn GamePlugin> {
    plugin: Box<P>,
}

impl<P: GamePlugin + ?Sized> PluginHandle<P> {
    /// The capability that the handle owns.
    pub closed spec fn plugin(&self) -> &P {
        &*self.plugin
    }

    /// Wraps `plugin` in a handle that owns it.
    pub fn new(plugin: Box<P>) -> (handle: Self)
        ensures
            handle.plugin() == &*plugin,
    {
        PluginHandle { plugin }
    }

    /// The plugin, for reading.
    pub fn get_plugin(&self) -> (plugin: &P)
        ensures
            plugin == self.plugin(),
    {
        &*self.plugin
    }

    /// The plugin, for changing it in place: what the caller leaves behind
    /// the reference is what the handle owns afterwards.
    pub fn get_plugin_mut(&mut self) -> (plugin: &mut P)
        ensures
            &*plugin == old(self).plugin(),
            final(self).plugin() == &*final(plugin),
    {
        &mut *self.plugin
    }

    /// Gives up the handle and returns the plugin it owned.
    pub fn into_plugin(self) -> (plugin: Box<P>)
        ensures
            &*plugin == self.plugin(),
    {
        self.plugin
    }
}

/// Creates the default plugin and returns the handle that owns it.
pub fn create_plugin() -> (handle: Box<PluginHandle>)
    ensures
        handle.plugin().name_spec() == "TemplatePlugin"@,
        handle.plugin().version_spec() == "0.1.0"@,
        handle.plugin().hooks_spec() == TemplatePlugin.hooks_spec(),
{
    let plugin = Box::new(TemplatePlugin::default());
    Box::new(PluginHandle::new(plugin))
}

/// Takes the handle back from the host and releases the plugin it owns.
/// `None`, the null handle, is accepted and nothing happens.
pub fn destroy_plugin<P: GamePlugin + ?Sized>(handle: Option<Box<PluginHandle<P>>>) {
    match handle {
        Some(owned) => {
            let _plugin = (*owned).into_plugin();
        },
        None => {},
    }
}

} // verus!
