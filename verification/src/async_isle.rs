//! Settings of an asynchronous isle.

use crate::runtime::Config;
use vstd::prelude::*;

verus! {

/// Default capacity for the request channel.
pub const DEFAULT_CHANNEL_CAPACITY: usize = 256;

/// Default name of the VM thread.
pub const DEFAULT_THREAD_NAME: &'static str = "mlua-isle-async";

/// Builder for an asynchronous isle with configurable parameters.
pub struct AsyncIsleBuilder {
    channel_capacity: usize,
    thread_name: String,
    config: Option<Config>,
}

/// A builder as the contracts see it.
pub struct BuilderView {
    pub channel_capacity: usize,
    pub thread_name: Seq<char>,
    pub config: Option<Config>,
}

impl View for AsyncIsleBuilder {
    type V = BuilderView;

    closed spec fn view(&self) -> BuilderView {
        BuilderView {
            channel_capacity: self.channel_capacity,
            thread_name: self.thread_name@,
            config: self.config,
        }
    }
}

impl Default for AsyncIsleBuilder {
    fn default() -> (r: Self)
        ensures
            r@ == (BuilderView {
                channel_capacity: DEFAULT_CHANNEL_CAPACITY,
                thread_name: DEFAULT_THREAD_NAME@,
                config: None,
            }),
    {
        AsyncIsleBuilder {
            channel_capacity: DEFAULT_CHANNEL_CAPACITY,
            thread_name: DEFAULT_THREAD_NAME.to_owned(),
            config: None,
        }
    }
}

impl AsyncIsleBuilder {
    /// Set the bounded channel capacity (backpressure limit).
    ///
    /// Default: 256.
    pub fn channel_capacity(self, capacity: usize) -> (r: Self)
        ensures
            r@ == (BuilderView { channel_capacity: capacity, ..self@ }),
    {
        AsyncIsleBuilder { channel_capacity: capacity, ..self }
    }

    /// Set the OS thread name.
    ///
    /// Default: `"mlua-isle-async"`.
    pub fn thread_name(self, name: &str) -> (r: Self)
        ensures
            r@ == (BuilderView { thread_name: name@, ..self@ }),
    {
        AsyncIsleBuilder { thread_name: name.to_owned(), ..self }
    }

    /// Set the VM's settings.  They replace what the init closure stores.
    ///
    /// Default: what the init closure stores.
    pub fn config(self, config: Config) -> (r: Self)
        ensures
            r@ == (BuilderView { config: Some(config), ..self@ }),
    {
        AsyncIsleBuilder { config: Some(config), ..self }
    }

    /// The capacity, the thread name and the settings.
    pub fn build(self) -> (r: (usize, String, Option<Config>))
        ensures
            r.0 == self@.channel_capacity,
            r.1@ == self@.thread_name,
            r.2 == self@.config,
    {
        (self.channel_capacity, self.thread_name, self.config)
    }
}

/// A builder begins with a channel of this capacity, the library's name for
/// the thread and no settings; each setter changes its own setting and no
/// other, so that the last one given of each counts; and what is built is
/// what was set.
pub proof fn law_a_builder_builds_what_was_set(capacity: usize, name: &str, settings: Config)
    ensures
        forall|r: AsyncIsleBuilder| #[trigger]
            call_ensures(<AsyncIsleBuilder as Default>::default, (), r) ==> {
                &&& r@.channel_capacity == 256
                &&& r@.thread_name == "mlua-isle-async"@
                &&& r@.config is None
            },
        forall|b: AsyncIsleBuilder, r: AsyncIsleBuilder| #[trigger]
            call_ensures(AsyncIsleBuilder::channel_capacity, (b, capacity), r) ==> {
                &&& r@.channel_capacity == capacity
                &&& r@.thread_name == b@.thread_name
                &&& r@.config == b@.config
            },
        forall|b: AsyncIsleBuilder, r: AsyncIsleBuilder| #[trigger]
            call_ensures(AsyncIsleBuilder::thread_name, (b, name), r) ==> {
                &&& r@.channel_capacity == b@.channel_capacity
                &&& r@.thread_name == name@
                &&& r@.config == b@.config
            },
        forall|b: AsyncIsleBuilder, r: AsyncIsleBuilder| #[trigger]
            call_ensures(AsyncIsleBuilder::config, (b, settings), r) ==> {
                &&& r@.channel_capacity == b@.channel_capacity
                &&& r@.thread_name == b@.thread_name
                &&& r@.config == Some(settings)
            },
        forall|b: AsyncIsleBuilder, r: (usize, String, Option<Config>)| #[trigger]
            call_ensures(AsyncIsleBuilder::build, (b,), r) ==> {
                &&& r.0 == b@.channel_capacity
                &&& r.1@ == b@.thread_name
                &&& r.2 == b@.config
            },
{
}

} // verus!
