//! Message layouts and the registry that finds one by its type id.

use crate::keys::type_id_of_key;
use crate::text::decimal;
use std::collections::HashMap;
use vstd::prelude::*;

verus! {

/// One named, typed slot of a message layout.
#[derive(Debug)]
pub struct FieldDef {
    pub name: String,
    /// The type code: see [`crate::typecode::resolve`].
    pub type_code: String,
}

/// A field definition as plain text.
pub struct FieldSpec {
    pub name: Seq<char>,
    pub type_code: Seq<char>,
}

impl View for FieldDef {
    type V = FieldSpec;

    open spec fn view(&self) -> FieldSpec {
        FieldSpec { name: self.name@, type_code: self.type_code@ }
    }
}

/// The fields as plain text, in the same order.
pub open spec fn schema_view(fields: Seq<FieldDef>) -> Seq<FieldSpec> {
    Seq::new(fields.len(), |i: int| fields[i]@)
}

/// The layout of one type of message: its name and its fields in the order
/// in which they lie in the payload.
#[derive(Debug)]
pub struct MessageDef {
    pub name: String,
    pub fields: Vec<FieldDef>,
}

/// A message layout as plain text.
pub struct MessageSpec {
    pub name: Seq<char>,
    pub fields: Seq<FieldSpec>,
}

impl View for MessageDef {
    type V = MessageSpec;

    open spec fn view(&self) -> MessageSpec {
        MessageSpec { name: self.name@, fields: schema_view(self.fields@) }
    }
}

/// The layouts of all known message types, by type id.
pub struct MessageRegistry {
    defs: HashMap<u16, MessageDef>,
}

impl MessageRegistry {
    /// The layouts by type id.
    pub closed spec fn defs(&self) -> Map<u16, MessageDef> {
        self.defs@
    }

    /// Whether a layout is known for the type id.
    pub open spec fn knows(&self, log_type: u16) -> bool {
        self.defs().contains_key(log_type)
    }

    /// The layouts as plain text, by type id.
    pub open spec fn view(&self) -> Map<u16, MessageSpec> {
        Map::new(|k: u16| self.defs().contains_key(k), |k: u16| self.defs()[k]@)
    }

    /// An empty registry.
    pub fn new() -> (r: MessageRegistry)
        ensures
            r.defs() == Map::<u16, MessageDef>::empty(),
    {
        MessageRegistry { defs: HashMap::new() }
    }

    /// Sets the layout of a type id, in place of any earlier one.
    pub fn insert(&mut self, log_type: u16, def: MessageDef)
        ensures
            final(self).defs() == old(self).defs().insert(log_type, def),
    {
        broadcast use vstd::std_specs::hash::group_hash_axioms;

        self.defs.insert(log_type, def);
    }

    /// Sets the layout for a key in text, if the key stands for a type id:
    /// if it is the decimal text of one. Any other key could never be looked
    /// up, and the registry stays as it is. Tells whether the layout was set.
    pub fn insert_keyed(&mut self, key: &str, def: MessageDef) -> (set: bool)
        ensures
            set == (exists|id: u16| key@ == decimal(id as nat)),
            set ==> exists|id: u16|
                key@ == decimal(id as nat) && final(self).defs() == old(self).defs().insert(
                    id,
                    def,
                ),
            !set ==> final(self).defs() == old(self).defs(),
    {
        match type_id_of_key(key) {
            Some(id) => {
                self.insert(id, def);
                true
            },
            None => false,
        }
    }

    /// The layout of a type id, if one is known.
    pub fn get(&self, log_type: u16) -> (r: Option<&MessageDef>)
        ensures
            match r {
                Some(def) => self.knows(log_type) && *def == self.defs()[log_type] && def@
                    == self@[log_type],
                None => !self.knows(log_type),
            },
    {
        broadcast use vstd::std_specs::hash::group_hash_axioms;

        self.defs.get(&log_type)
    }

    /// The number of type ids with a layout.
    pub fn len(&self) -> (n: usize)
        ensures
            n == self.defs().len(),
    {
        broadcast use vstd::std_specs::hash::group_hash_axioms;

        self.defs.len()
    }
}

} // verus!
