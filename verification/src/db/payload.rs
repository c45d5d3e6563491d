//! JSON objects stored next to vectors.

use crate::json::{pairs, set_member, with_member, JsonValue, JsonView};
use crate::text::owned;
use vstd::prelude::*;
use vstd::string::*;

verus! {

/// Why a value that isn't an object can't be a payload.
pub const NOT_AN_OBJECT_MESSAGE: &'static str = "JSON cannot be converted to payload, only JSON objects are supported";

/// The data stored next to a vector: a JSON object.
#[derive(Debug)]
pub struct Payload {
    /// The members of the object.
    pub members: Vec<(String, JsonValue)>,
}

impl View for Payload {
    type V = Seq<(Seq<char>, JsonView)>;

    open spec fn view(&self) -> Seq<(Seq<char>, JsonView)> {
        pairs(self.members@)
    }
}

impl Payload {
    /// The payload made of a JSON value, which must be an object.
    pub fn from_value(value: JsonValue) -> (r: Result<Payload, String>)
        ensures
            match value@ {
                JsonView::Object(members) => r matches Ok(payload) && payload@ == members,
                _ => r matches Err(message) && message@ == NOT_AN_OBJECT_MESSAGE@,
            },
    {
        match value {
            JsonValue::Object(members) => {
                proof {
                    assert(pairs(members@) =~= JsonValue::Object(members)@->Object_0);
                }
                Ok(Payload { members })
            },
            _ => Err(owned(NOT_AN_OBJECT_MESSAGE)),
        }
    }

    /// The payload as a JSON value.
    pub fn to_value(&self) -> (r: JsonValue)
        ensures
            r@ == JsonView::Object(self@),
    {
        let mut members: Vec<(String, JsonValue)> = Vec::new();
        let mut i: usize = 0;
        while i < self.members.len()
            invariant
                i <= self.members@.len(),
                members@.len() == i,
                forall|j: int|
                    0 <= j < i ==> (#[trigger] members@[j]).0@ == self.members@[j].0@
                        && members@[j].1@ == self.members@[j].1@,
            decreases self.members@.len() - i,
        {
            members.push((self.members[i].0.clone(), self.members[i].1.copy()));
            i += 1;
        }
        let r = JsonValue::Object(members);
        proof {
            assert(r@->Object_0 =~= self@);
        }
        r
    }

    /// Sets a member.
    pub fn insert(&mut self, name: &str, value: JsonValue)
        ensures
            final(self)@ == with_member(old(self)@, name@, value@),
    {
        set_member(&mut self.members, name, value);
    }
}

} // verus!
