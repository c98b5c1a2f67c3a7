//! Plugin identifiers, names and versions.

use vstd::prelude::*;

use crate::text::{decimal, decimal_chars, string_from_chars};




verus! {

/// Identifier of a loaded plugin.
#[derive(Debug, Default, PartialEq, Eq, Structural, Clone, Copy, Hash)]
pub struct PluginId(pub u64);

/// Identifier of a loaded wasm component.
#[derive(Debug, Default, PartialEq, Eq, Structural, Clone, Copy, Hash)]
pub struct PluginWasmId(pub u64);

/// Name of a plugin.
#[derive(Debug, Hash)]
pub struct PluginName(pub String);

/// A plugin, named by its identifier or by its name.
#[derive(Debug)]
pub enum PluginIdentifer {
    Id(PluginId),
    Name(PluginName),
}

/// Name of a wasm component (its file name).
#[derive(Debug, Hash)]
pub struct PluginWasmName(pub String);

impl PluginId {
    pub fn new(id: u64) -> (r: Self)
        ensures
            r.0 == id,
    {
        PluginId(id)
    }
}

/// How `PluginId(n)` is displayed: `PluginId(` and `n` in decimal, then `)`.
pub open spec fn plugin_id_text(n: nat) -> Seq<char> {
    seq!['P', 'l', 'u', 'g', 'i', 'n', 'I', 'd', '('] + decimal(n) + seq![')']
}

impl PluginId {
    /// The id as `Display` shows it.
    pub fn to_string(&self) -> (r: String)
        ensures
            r@ == plugin_id_text(self.0 as nat),
    {
        let mut v: Vec<char> = Vec::new();
        v.push('P');
        v.push('l');
        v.push('u');
        v.push('g');
        v.push('i');
        v.push('n');
        v.push('I');
        v.push('d');
        v.push('(');
        let digits = decimal_chars(self.0);
        let mut i: usize = 0;
        while i < digits.len()
            invariant
                0 <= i <= digits@.len(),
                v@ == seq!['P', 'l', 'u', 'g', 'i', 'n', 'I', 'd', '('] + digits@.take(i as int),
            decreases digits.len() - i,
        {
            v.push(digits[i]);
            assert(digits@.take(i + 1) =~= digits@.take(i as int).push(digits@[i as int]));
            i = i + 1;
        }
        v.push(')');
        assert(digits@.take(digits@.len() as int) =~= digits@);
        assert(v@ =~= plugin_id_text(self.0 as nat));
        string_from_chars(&v)
    }
}

impl PluginWasmId {
    pub fn new(id: u64) -> (r: Self)
        ensures
            r.0 == id,
    {
        PluginWasmId(id)
    }
}

impl View for PluginName {
    type V = Seq<char>;

    open spec fn view(&self) -> Seq<char> {
        self.0@
    }
}

impl View for PluginWasmName {
    type V = Seq<char>;

    open spec fn view(&self) -> Seq<char> {
        self.0@
    }
}

impl PluginName {
    pub fn new(name: &str) -> (r: Self)
        ensures
            r@ == name@,
    {
        PluginName(name.to_owned())
    }

    /// The name as text (what `Display` shows).
    pub fn to_string(&self) -> (r: String)
        ensures
            r@ == self@,
    {
        self.0.clone()
    }

    pub fn as_str(&self) -> (r: &str)
        ensures
            r@ == self@,
    {
        self.0.as_str()
    }
}

impl PluginWasmName {
    pub fn new(name: &str) -> (r: Self)
        ensures
            r@ == name@,
    {
        PluginWasmName(name.to_owned())
    }

    /// The name as text (what `Display` shows).
    pub fn to_string(&self) -> (r: String)
        ensures
            r@ == self@,
    {
        self.0.clone()
    }
}

impl Clone for PluginName {
    fn clone(&self) -> (r: Self)
        ensures
            r@ == self@,
    {
        PluginName(self.0.clone())
    }
}

impl Clone for PluginWasmName {
    fn clone(&self) -> (r: Self)
        ensures
            r@ == self@,
    {
        PluginWasmName(self.0.clone())
    }
}

impl PartialEq for PluginName {
    fn eq(&self, other: &Self) -> (r: bool) {
        self.0 == other.0
    }
}

impl Eq for PluginName {

}

impl vstd::std_specs::cmp::PartialEqSpecImpl for PluginName {
    open spec fn obeys_eq_spec() -> bool {
        true
    }

    open spec fn eq_spec(&self, other: &PluginName) -> bool {
        self@ == other@
    }
}

impl PartialEq for PluginWasmName {
    fn eq(&self, other: &Self) -> (r: bool) {
        self.0 == other.0
    }
}

impl Eq for PluginWasmName {

}

impl vstd::std_specs::cmp::PartialEqSpecImpl for PluginWasmName {
    open spec fn obeys_eq_spec() -> bool {
        true
    }

    open spec fn eq_spec(&self, other: &PluginWasmName) -> bool {
        self@ == other@
    }
}

} // verus!
