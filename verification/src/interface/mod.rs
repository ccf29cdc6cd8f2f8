//! Interfaces: their configuration and the decisions that their state machine takes.
use vstd::prelude::*;

pub mod event;
pub mod handle;
pub mod status;

verus! {

pub const DEFAULT_HELLO_INTERVAL: u16 = 10;
pub const DEFAULT_OUTPUT_COST: u32 = 1;
pub const DEFAULT_RXMT_INTERVAL: u32 = 5;
pub const DEFAULT_INF_TRANS_DELAY: u32 = 1;
pub const DEFAULT_ROUTER_PRIORITY: u8 = 1;
pub const DEFAULT_ROUTER_DEAD_INTERVAL: u32 = 40;
pub const DEFAULT_AUTH_TYPE: u16 = 0;
pub const DEFAULT_AUTH_KEY: u64 = 0;
pub const DEFAULT_AREA_ID: u32 = 0;
pub const DEFAULT_OPTIONS: u8 = 0;

/// The kind of network an interface attaches to.
#[derive(Clone, Copy, PartialEq, Eq, PartialOrd, Ord, Debug, Structural)]
pub enum NetworkType {
    Broadcast,
    PointToPoint,
    NBMA,
    PointToMultipoint,
    VirtualLink,
}

/// The configuration of one OSPF interface. Addresses are host-order integers.
#[derive(Clone, Copy, Debug)]
pub struct Interface {
    pub ip: u32,
    pub mask: u32,
    pub area_id: u32,
    pub output_cost: u32,
    pub rxmt_interval: u32,
    pub inf_trans_delay: u32,
    pub hello_interval: u16,
    pub router_dead_interval: u32,
    pub network_type: NetworkType,
    pub auth_type: u16,
    pub auth_key: u64,
    pub options: u8,
    pub router_priority: u8,
}

/// The area id that an operator's number `n` names: its low byte becomes the first octet of
/// the dotted form, its high byte the last.
pub open spec fn spec_area_id_of(n: u32) -> u32 {
    ((n % 0x100) * 0x100_0000 + (n / 0x100 % 0x100) * 0x1_0000 + (n / 0x1_0000 % 0x100) * 0x100 + n
        / 0x100_0000) as u32
}

/// The network type that an operator's answer names; anything unknown is a broadcast network.
pub open spec fn spec_network_type_named(name: Seq<char>) -> NetworkType {
    if name == "PointToPoint"@ {
        NetworkType::PointToPoint
    } else if name == "NBMA"@ {
        NetworkType::NBMA
    } else if name == "PointToMultipoint"@ {
        NetworkType::PointToMultipoint
    } else if name == "VirtualLink"@ {
        NetworkType::VirtualLink
    } else {
        NetworkType::Broadcast
    }
}

/// What an interface's configuration is once the operator's answers have been read, each
/// answer that did not read as a number already replaced by its default.
pub open spec fn spec_configured(
    ip: u32,
    mask: u32,
    area_number: u32,
    output_cost: u32,
    rxmt_interval: u32,
    inf_trans_delay: u32,
    hello_interval: u16,
    router_dead_interval: u32,
    network_type_name: Seq<char>,
    auth_type: u16,
    auth_key: u64,
    router_priority: u8,
) -> Interface {
    Interface {
        ip,
        mask,
        area_id: spec_area_id_of(area_number),
        output_cost,
        rxmt_interval,
        inf_trans_delay,
        hello_interval,
        router_dead_interval,
        network_type: spec_network_type_named(network_type_name),
        auth_type,
        auth_key,
        options: DEFAULT_OPTIONS,
        router_priority,
    }
}

impl Interface {
    /// Builds an interface's configuration from the operator's answers.
    pub fn configured(
        ip: u32,
        mask: u32,
        area_number: u32,
        output_cost: u32,
        rxmt_interval: u32,
        inf_trans_delay: u32,
        hello_interval: u16,
        router_dead_interval: u32,
        network_type_name: &String,
        auth_type: u16,
        auth_key: u64,
        router_priority: u8,
    ) -> (r: Interface)
        ensures
            r == spec_configured(
                ip,
                mask,
                area_number,
                output_cost,
                rxmt_interval,
                inf_trans_delay,
                hello_interval,
                router_dead_interval,
                network_type_name@,
                auth_type,
                auth_key,
                router_priority,
            ),
    {
        let area_id = (area_number % 0x100) * 0x100_0000 + (area_number / 0x100 % 0x100) * 0x1_0000
            + (area_number / 0x1_0000 % 0x100) * 0x100 + area_number / 0x100_0000;
        let network_type = network_type_named(network_type_name);
        Interface {
            ip,
            mask,
            area_id,
            output_cost,
            rxmt_interval,
            inf_trans_delay,
            hello_interval,
            router_dead_interval,
            network_type,
            auth_type,
            auth_key,
            options: DEFAULT_OPTIONS,
            router_priority,
        }
    }
}

/// The network type that an operator's answer names; anything unknown is a broadcast network.
pub fn network_type_named(name: &String) -> (r: NetworkType)
    ensures
        r == spec_network_type_named(name@),
{
    if *name == "PointToPoint".to_owned() {
        NetworkType::PointToPoint
    } else if *name == "NBMA".to_owned() {
        NetworkType::NBMA
    } else if *name == "PointToMultipoint".to_owned() {
        NetworkType::PointToMultipoint
    } else if *name == "VirtualLink".to_owned() {
        NetworkType::VirtualLink
    } else {
        NetworkType::Broadcast
    }
}

} // verus!
