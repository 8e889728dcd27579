//! A single `key: value` metadata line, the quoted form older pages carry.

use crate::content::{spec_parse_prop_line, ContentError, PropModel};
use crate::text::push_char;
use vstd::prelude::*;

verus! {

/// One metadata pair; renders with its value in double quotes.
#[derive(Debug, Clone)]
pub struct Metadata {
    pub key: String,
    pub value: String,
}

impl View for Metadata {
    type V = PropModel;

    open spec fn view(&self) -> PropModel {
        PropModel { key: self.key@, value: self.value@ }
    }
}

impl PartialEq for Metadata {
    fn eq(&self, other: &Metadata) -> (r: bool) {
        self.key == other.key && self.value == other.value
    }
}

impl vstd::std_specs::cmp::PartialEqSpecImpl for Metadata {
    open spec fn obeys_eq_spec() -> bool {
        true
    }

    open spec fn eq_spec(&self, other: &Metadata) -> bool {
        self@ == other@
    }
}

impl Metadata {
    /// Read a metadata pair from a `key: value` line; the value may be
    /// double-quoted. Fails without a colon.
    pub fn parse(s: &str) -> (r: Result<Metadata, ContentError>)
        ensures
            match spec_parse_prop_line(s@) {
                Some(p) => r matches Ok(q) && q@ == p,
                None => r is Err,
            },
    {
        match crate::content::Property::parse(s) {
            Ok(p) => Ok(Metadata { key: p.key, value: p.value }),
            Err(e) => Err(e),
        }
    }

    /// The pair as a `key: "value"` line.
    pub fn render(&self) -> (r: String)
        ensures
            r@ == self@.key + seq![':', ' ', '"'] + self@.value + seq!['"'],
    {
        let mut out = String::new();
        out.append(self.key.as_str());
        push_char(&mut out, ':');
        push_char(&mut out, ' ');
        push_char(&mut out, '"');
        out.append(self.value.as_str());
        push_char(&mut out, '"');
        proof {
            assert(out@ =~= self@.key + seq![':', ' ', '"'] + self@.value + seq!['"']);
        }
        out
    }

    /// Take the other pair's value when the keys agree.
    pub fn update(&mut self, rhs: Metadata)
        ensures
            old(self)@.key == rhs@.key ==> final(self)@ == (PropModel {
                key: old(self)@.key,
                value: rhs@.value,
            }),
            old(self)@.key != rhs@.key ==> final(self)@ == old(self)@,
    {
        if self.key == rhs.key {
            self.value = rhs.value;
        }
    }
}

} // verus!
