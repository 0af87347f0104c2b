//! Polling of an HTTP target. The instance has nothing to report yet; what
//! is settled is its configuration.

use vstd::prelude::*;
use crate::errors::Error;
use crate::errors::ErrorKind;
use crate::plugin::fields_view;
use crate::plugin::spec_text_field;
use crate::plugin::Input;
use crate::plugin::InputInstance;
use crate::plugin::PluginContext;
use crate::plugin::Samples;
use crate::scheduler::Interval;

verus! {

#[derive(Debug)]
pub struct HttpInputConfig {
    pub target: String,
}

/// Reads the plugin's configuration from the fields of its section: the
/// `target` has to be there, as a string.
pub fn decode_config(ctx: &PluginContext) -> (r: Result<HttpInputConfig, Error>)
    ensures
        match r {
            Ok(config) => spec_text_field(fields_view(ctx.fields@), "target"@) == Some(config.target@),
            Err(err) => spec_text_field(fields_view(ctx.fields@), "target"@) is None && err.causes@.len() == 0
                && (err.kind matches ErrorKind::ConfigField(field, reason) && field@ == "target"@
                && reason@ == "expected a string"@),
        },
{
    match ctx.text_field("target") {
        Some(target) => Ok(HttpInputConfig { target: target.clone() }),
        None => Err(
            Error::new(ErrorKind::ConfigField("target".to_owned(), "expected a string".to_owned())),
        ),
    }
}

#[derive(Debug)]
pub struct HttpInput {}

impl Input for HttpInput {
    fn setup(&self, ctx: &PluginContext) -> (r: Result<Box<dyn InputInstance>, Error>)
        ensures
            r is Ok <==> spec_text_field(fields_view(ctx.fields@), "target"@) is Some,
    {
        match decode_config(ctx) {
            Ok(_config) => Ok(Box::new(HttpInputInstance::new())),
            Err(err) => Err(err),
        }
    }
}

#[derive(Debug)]
pub struct HttpInputInstance {}

impl HttpInputInstance {
    pub fn new() -> HttpInputInstance {
        return HttpInputInstance {  };
    }
}

impl InputInstance for HttpInputInstance {
    fn poll(&self) -> (r: Result<Samples, Error>)
        ensures
            r matches Ok(samples) && samples@.len() == 0,
    {
        Ok(Vec::new())
    }

    fn update(&self) -> (r: Result<(), Error>)
        ensures
            r is Ok,
    {
        Ok(())
    }

    fn next_update(&self) -> (r: Interval)
        ensures
            r == (Interval { secs: 0, nanos: 0 }),
    {
        Interval::zero()
    }

    open spec fn idle(&self) -> bool {
        true
    }
}

pub fn input() -> (r: Result<Box<dyn Input>, Error>)
    ensures
        r is Ok,
{
    Ok(Box::new(HttpInput {  }))
}

} // verus!
