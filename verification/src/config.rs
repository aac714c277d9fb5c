//! The daemon's configuration: its API token, listen address and interfaces.

use vstd::prelude::*;
use vstd::string::*;
use crate::dto::{InterfaceCfg, InterfaceModel};

verus! {

/// Where the daemon keeps its configuration unless told otherwise.
pub const DEFAULT_CONFIG_PATH: &'static str = "/etc/wirepf.json";

/// Where the API listens unless the configuration says otherwise.
pub const DEFAULT_BIND_ADDR: &'static str = "0.0.0.0:1204";

/// The daemon's configuration.
#[derive(Debug)]
pub struct Config {
    pub auth_token: Option<String>,
    pub bind_addr: Option<String>,
    pub interfaces: Vec<InterfaceCfg>,
}

/// Mathematical value of a [`Config`].
pub struct ConfigModel {
    pub auth_token: Option<Seq<char>>,
    pub bind_addr: Option<Seq<char>>,
    pub interfaces: Seq<InterfaceModel>,
}

/// The view of an optional string.
pub open spec fn opt_view(o: Option<String>) -> Option<Seq<char>> {
    match o {
        Some(s) => Some(s@),
        None => None,
    }
}

/// The views of a list of interfaces.
pub open spec fn ifaces_view(v: Seq<InterfaceCfg>) -> Seq<InterfaceModel> {
    v.map_values(|c: InterfaceCfg| c@)
}

impl View for Config {
    type V = ConfigModel;

    open spec fn view(&self) -> ConfigModel {
        ConfigModel {
            auth_token: opt_view(self.auth_token),
            bind_addr: opt_view(self.bind_addr),
            interfaces: ifaces_view(self.interfaces@),
        }
    }
}

impl Default for Config {
    fn default() -> (c: Self)
        ensures
            c.auth_token.is_none(),
            c.bind_addr.is_none(),
            c.interfaces@.len() == 0,
    {
        Config { auth_token: None, bind_addr: None, interfaces: Vec::new() }
    }
}

/// Whether some interface of `s` is called `name`.
pub open spec fn has_iface(s: Seq<InterfaceModel>, name: Seq<char>) -> bool {
    exists|i: int| 0 <= i < s.len() && #[trigger] s[i].name == name
}

/// Whether `i` is the position of the first interface of `s` called `name`.
pub open spec fn is_first_named(s: Seq<InterfaceModel>, name: Seq<char>, i: int) -> bool {
    &&& 0 <= i < s.len()
    &&& s[i].name == name
    &&& forall|j: int| 0 <= j < i ==> #[trigger] s[j].name != name
}

/// The position of the first interface of `s` called `name`, where there is one.
pub open spec fn first_named(s: Seq<InterfaceModel>, name: Seq<char>) -> int {
    choose|i: int| is_first_named(s, name, i)
}

/// The first of several positions is unique, and it exists when a name occurs.
pub proof fn lemma_first_named(s: Seq<InterfaceModel>, name: Seq<char>, i: int)
    requires
        is_first_named(s, name, i),
    ensures
        first_named(s, name) == i,
{
    let c = first_named(s, name);
    assert(is_first_named(s, name, c));
    if c < i {
        assert(s[c].name != name);
    }
    if i < c {
        assert(s[i].name != name);
    }
}

impl Config {
    /// The address the API listens on: the configured one, or [`DEFAULT_BIND_ADDR`].
    pub fn bind_addr(&self) -> (r: &str)
        ensures
            r@ == match self.bind_addr {
                Some(a) => a@,
                None => DEFAULT_BIND_ADDR@,
            },
    {
        match &self.bind_addr {
            Some(a) => a.as_str(),
            None => DEFAULT_BIND_ADDR,
        }
    }

    /// The position of the first interface called `name`, or `None` where none is.
    pub fn find_iface_index(&self, name: &str) -> (r: Option<usize>)
        ensures
            match r {
                Some(i) => is_first_named(self@.interfaces, name@, i as int),
                None => !has_iface(self@.interfaces, name@),
            },
    {
        let key: String = name.to_owned();
        let mut i: usize = 0;
        while i < self.interfaces.len()
            invariant
                i <= self.interfaces@.len(),
                key@ == name@,
                forall|j: int| 0 <= j < i ==> #[trigger] self@.interfaces[j].name != name@,
            decreases self.interfaces@.len() - i,
        {
            if self.interfaces[i].name == key {
                return Some(i);
            }
            i = i + 1;
        }
        None
    }

    /// The first interface called `name`, or `None` where none is.
    pub fn find_iface(&self, name: &str) -> (r: Option<&InterfaceCfg>)
        ensures
            match r {
                Some(c) => is_first_named(self@.interfaces, name@, first_named(self@.interfaces, name@))
                    && c@ == self@.interfaces[first_named(self@.interfaces, name@)],
                None => !has_iface(self@.interfaces, name@),
            },
    {
        match self.find_iface_index(name) {
            Some(i) => {
                proof {
                    lemma_first_named(self@.interfaces, name@, i as int);
                }
                Some(&self.interfaces[i])
            },
            None => None,
        }
    }

    /// The first interface called `name`, to change in place, or `None` where none is.
    pub fn find_iface_mut(&mut self, name: &str) -> (r: Option<&mut InterfaceCfg>)
        ensures
            match r {
                Some(c) => {
                    let i = first_named(old(self)@.interfaces, name@);
                    &&& is_first_named(old(self)@.interfaces, name@, i)
                    &&& *c == old(self).interfaces@[i]
                    &&& final(self).interfaces@ == old(self).interfaces@.update(i, *final(c))
                    &&& final(self).auth_token == old(self).auth_token
                    &&& final(self).bind_addr == old(self).bind_addr
                },
                None => !has_iface(old(self)@.interfaces, name@) && *final(self) == *old(self),
            },
    {
        match self.find_iface_index(name) {
            Some(i) => {
                proof {
                    lemma_first_named(self@.interfaces, name@, i as int);
                }
                Some(&mut self.interfaces[i])
            },
            None => None,
        }
    }
}

} // verus!
