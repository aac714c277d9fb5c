//! The values that the daemon stores and that its API exchanges.

use vstd::prelude::*;

verus! {

/// A destination rewrite `orig -> new` on an interface; its reply path is rewritten back.
#[derive(Clone, Copy, Debug, PartialEq, Eq, Structural)]
pub struct DnatMapping {
    pub orig: u32,
    pub new: u32,
}

/// A one-to-one source rewrite `orig -> new` on an interface.
#[derive(Clone, Copy, Debug, PartialEq, Eq, Structural)]
pub struct SnatMapping {
    pub orig: u32,
    pub new: u32,
}

/// An IPv4 CIDR block `addr/prefix_len`.
#[derive(Clone, Copy, Debug, PartialEq, Eq, Structural)]
pub struct Cidr {
    pub addr: u32,
    pub prefix_len: u8,
}

/// Masquerading of the listed source blocks behind the interface's own address.
#[derive(Debug)]
pub struct MasqueradeCfg {
    pub enabled: bool,
    pub src_cidrs: Vec<Cidr>,
}

/// Mathematical value of a [`MasqueradeCfg`].
pub struct MasqueradeModel {
    pub enabled: bool,
    pub src_cidrs: Seq<Cidr>,
}

impl View for MasqueradeCfg {
    type V = MasqueradeModel;

    open spec fn view(&self) -> MasqueradeModel {
        MasqueradeModel { enabled: self.enabled, src_cidrs: self.src_cidrs@ }
    }
}

impl Clone for MasqueradeCfg {
    fn clone(&self) -> (r: Self)
        ensures
            r@ == self@,
    {
        let r = MasqueradeCfg { enabled: self.enabled, src_cidrs: self.src_cidrs.clone() };
        assert(r.src_cidrs@ =~= self.src_cidrs@);
        r
    }
}

impl Default for MasqueradeCfg {
    fn default() -> (r: Self)
        ensures
            !r.enabled,
            r.src_cidrs@ == Seq::<Cidr>::empty(),
    {
        MasqueradeCfg { enabled: false, src_cidrs: Vec::new() }
    }
}

/// The configuration of one interface.
#[derive(Debug)]
pub struct InterfaceCfg {
    pub name: String,
    pub dnat: Vec<DnatMapping>,
    pub snat: Vec<SnatMapping>,
    pub masquerade: MasqueradeCfg,
}

/// Mathematical value of an [`InterfaceCfg`].
pub struct InterfaceModel {
    pub name: Seq<char>,
    pub dnat: Seq<DnatMapping>,
    pub snat: Seq<SnatMapping>,
    pub masquerade: MasqueradeModel,
}

impl View for InterfaceCfg {
    type V = InterfaceModel;

    open spec fn view(&self) -> InterfaceModel {
        InterfaceModel {
            name: self.name@,
            dnat: self.dnat@,
            snat: self.snat@,
            masquerade: self.masquerade@,
        }
    }
}

impl Clone for InterfaceCfg {
    fn clone(&self) -> (r: Self)
        ensures
            r@ == self@,
    {
        let r = InterfaceCfg {
            name: self.name.clone(),
            dnat: self.dnat.clone(),
            snat: self.snat.clone(),
            masquerade: self.masquerade.clone(),
        };
        assert(r.dnat@ =~= self.dnat@);
        assert(r.snat@ =~= self.snat@);
        r
    }
}

/// What the API shows of an interface.
#[derive(Debug)]
pub struct IfaceView {
    pub name: String,
    pub dnat: Vec<DnatMapping>,
    pub snat: Vec<SnatMapping>,
    pub masquerade: MasqueradeCfg,
    pub iface_ip: Option<u32>,
}

/// Body of a request that creates an interface.
#[derive(Debug)]
pub struct CreateIfaceBody {
    pub name: String,
}

/// Answer of the health endpoint.
#[derive(Clone, Copy, Debug, PartialEq, Eq, Structural)]
pub struct Health {
    pub ok: bool,
}

/// Body of an error answer.
#[derive(Debug)]
pub struct ErrorResponse {
    pub error: String,
}

} // verus!
