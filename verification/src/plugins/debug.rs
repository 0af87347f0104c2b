//! An output that accepts every sample and keeps none.

use vstd::prelude::*;
use crate::errors::Error;
use crate::plugin::Output;
use crate::plugin::OutputInstance;
use crate::plugin::PluginContext;
use crate::plugin::Sample;

verus! {

#[derive(Debug)]
pub struct DebugOutput {}

impl Output for DebugOutput {
    fn setup(&self, ctx: &PluginContext) -> (r: Result<Box<dyn OutputInstance>, Error>)
        ensures
            r is Ok,
    {
        Ok(Box::new(DebugOutputInstance::new(ctx.id.clone())))
    }
}

#[derive(Debug)]
pub struct DebugOutputInstance {
    id: String,
}

impl DebugOutputInstance {
    /// The identifier that the configuration gave the instance.
    pub closed spec fn spec_id(&self) -> Seq<char> {
        self.id@
    }

    pub fn new(id: String) -> (instance: DebugOutputInstance)
        ensures
            instance.spec_id() == id@,
    {
        DebugOutputInstance { id: id }
    }

    pub fn id(&self) -> (id: &String)
        ensures
            id@ == self.spec_id(),
    {
        &self.id
    }
}

impl OutputInstance for DebugOutputInstance {
    fn feed(&self, _sample: &Sample) -> (r: Result<(), Error>)
        ensures
            r is Ok,
    {
        Ok(())
    }
}

pub fn output() -> (r: Result<Box<dyn Output>, Error>)
    ensures
        r is Ok,
{
    Ok(Box::new(DebugOutput {  }))
}

} // verus!
