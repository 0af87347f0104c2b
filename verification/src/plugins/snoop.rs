//! What the snoop output sends to the clients that listen in: one line of
//! text for each sample.

use vstd::prelude::*;
use vstd::string::StringSliceAdditionalSpecFns;
use std::sync::Arc;
use crate::plugin::fields_view;
use crate::plugin::spec_text_field;
use crate::plugin::PluginContext;

verus! {

/// One message, shared by every connection that it is sent to.
#[derive(Clone)]
pub struct Message(Arc<Vec<u8>>);

impl View for Message {
    type V = Seq<u8>;

    closed spec fn view(&self) -> Seq<u8> {
        self.0@
    }
}

impl Message {
    pub fn new(bytes: Vec<u8>) -> (m: Message)
        ensures
            m@ == bytes@,
    {
        Message(Arc::new(bytes))
    }

    pub fn as_ref(&self) -> (bytes: &[u8])
        ensures
            bytes@ == self@,
    {
        self.0.as_slice()
    }
}

/// The message for one sample: the sample's serialised text, and a line
/// feed behind it.
pub fn frame(text: &str) -> (m: Message)
    ensures
        m@ == text.spec_bytes().push(10u8),
{
    let mut bytes = text.as_bytes_vec();
    bytes.push(10u8);
    Message::new(bytes)
}

/// The address that the output listens on: the `bind` of its section, or
/// `127.0.0.1:8080` where the section gives none.
pub fn bind_address<'a>(ctx: &PluginContext<'a>) -> (address: &'a str)
    ensures
        address@ == match spec_text_field(fields_view(ctx.fields@), "bind"@) {
            Some(bind) => bind,
            None => "127.0.0.1:8080"@,
        },
{
    match ctx.text_field("bind") {
        Some(bind) => bind.as_str(),
        None => "127.0.0.1:8080",
    }
}

} // verus!
