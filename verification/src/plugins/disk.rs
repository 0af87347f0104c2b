//! Disk usage. The instance has nothing to report yet.

use vstd::prelude::*;
use crate::errors::Error;
use crate::plugin::Input;
use crate::plugin::InputInstance;
use crate::plugin::PluginContext;
use crate::plugin::Samples;
use crate::scheduler::Interval;

verus! {

#[derive(Debug)]
pub struct DiskInput {}

impl DiskInput {
    pub fn new() -> DiskInput {
        DiskInput {  }
    }
}

impl Input for DiskInput {
    fn setup(&self, _ctx: &PluginContext) -> (r: Result<Box<dyn InputInstance>, Error>)
        ensures
            r is Ok,
    {
        Ok(Box::new(DiskInputInstance::new()))
    }
}

#[derive(Debug)]
pub struct DiskInputInstance {}

impl DiskInputInstance {
    pub fn new() -> DiskInputInstance {
        DiskInputInstance {  }
    }
}

impl InputInstance for DiskInputInstance {
    fn poll(&self) -> (r: Result<Samples, Error>)
        ensures
            r matches Ok(samples) && samples@.len() == 0,
    {
        Ok(Vec::new())
    }

    fn update(&self) -> (r: Result<(), Error>)
        ensures
            r is Ok,
    {
        Ok(())
    }

    fn next_update(&self) -> (r: Interval)
        ensures
            r == (Interval { secs: 0, nanos: 0 }),
    {
        Interval::zero()
    }

    open spec fn idle(&self) -> bool {
        true
    }
}

pub fn input() -> (r: Result<Box<dyn Input>, Error>)
    ensures
        r is Ok,
{
    Ok(Box::new(DiskInput::new()))
}

} // verus!
