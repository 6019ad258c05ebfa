//! Attribute-based access control.
//!
//! A gate is a required attribute name/value pair, evaluated over the
//! credential presented on the channel a message arrived on. It wraps any
//! handler: the predicate runs before dispatch, independent of the
//! handler's own logic, and is re-evaluated on every message, so losing
//! the attribute takes effect on the next message.

use vstd::prelude::*;

use crate::authority::member_attr;
use crate::credential::{has_attribute, spec_has_attribute, Credential};

verus! {

/// The attribute a channel's credential must assert.
#[derive(Clone, Debug)]
pub struct AttributeGate {
    pub name: Vec<u8>,
    pub value: Vec<u8>,
}

impl AttributeGate {
    /// The credential presented on the channel carries the required
    /// attribute.
    pub open spec fn spec_permits(self, cred: Option<Credential>) -> bool {
        cred matches Some(c) && spec_has_attribute(c.model().1, self.name@, self.value@)
    }

    /// Guards member-only endpoints: requires the one
    /// attribute the authority asserts when it issues.
    pub fn member_gate() -> (g: AttributeGate)
        ensures
            g.name@ == member_attr().0,
            g.value@ == member_attr().1,
    {
        AttributeGate {
            name: vstd::slice::slice_to_vec("is_sonos".as_bytes()),
            value: vstd::slice::slice_to_vec("true".as_bytes()),
        }
    }

    /// Evaluates the required pair over the channel's presented credential, if
    /// any: a channel without one, or without the attribute, is refused.
    pub fn permits(&self, cred: &Option<Credential>) -> (r: bool)
        ensures
            r == self.spec_permits(*cred),
    {
        match cred {
            None => false,
            Some(c) => has_attribute(c, self.name.as_slice(), self.value.as_slice()),
        }
    }
}

} // verus!
