//! Networks, as the API shows and takes them.

use vstd::prelude::*;

use crate::api::container::EndpointSettings;
use crate::ipam::Subnet;
use crate::table::Table;

verus! {

/// GET /networks
#[derive(Debug, Clone, Default)]
pub struct NetworkSummary {
    pub Name: String,
    pub Id: String,
    pub Created: String,
    pub Scope: String,
    pub Driver: String,
    pub EnableIPv6: bool,
    pub Internal: bool,
    pub Attachable: bool,
    pub Ingress: bool,
    pub IPAM: Ipam,
    pub Options: Table<String>,
    pub Labels: Table<String>,
}

/// GET /networks/{id}
#[derive(Debug, Clone, Default)]
pub struct NetworkInspect {
    pub Name: String,
    pub Id: String,
    pub Created: String,
    pub Scope: String,
    pub Driver: String,
    pub EnableIPv6: bool,
    pub IPAM: Ipam,
    pub Internal: bool,
    pub Attachable: bool,
    pub Ingress: bool,
    pub ConfigFrom: ConfigFrom,
    pub ConfigOnly: bool,
    pub Containers: Table<EndpointContainer>,
    pub Options: Table<String>,
    pub Labels: Table<String>,
}

#[derive(Debug, Clone, Default)]
pub struct ConfigFrom {
    pub Network: String,
}

#[derive(Debug, Clone, Default)]
pub struct Ipam {
    pub Driver: String,
    pub Config: Option<Vec<IpamConfig>>,
    pub Options: Option<Table<String>>,
}

#[derive(Debug, Clone, Default)]
pub struct IpamConfig {
    pub Subnet: String,
    pub IPRange: Option<String>,
    pub Gateway: String,
    pub AuxAddress: Option<Table<String>>,
}

#[derive(Debug, Clone, Default)]
pub struct EndpointContainer {
    pub Name: String,
    pub EndpointID: String,
    pub MacAddress: String,
    pub IPv4Address: String,
    pub IPv6Address: String,
}

/// POST /networks/create
#[derive(Debug, Clone, Default)]
pub struct NetworkCreateBody {
    pub Name: String,
    pub Driver: String,
    pub CheckDuplicate: Option<bool>,
    pub Internal: bool,
    pub Attachable: bool,
    pub Ingress: bool,
    pub IPAM: Ipam,
    pub EnableIPv6: bool,
    pub Options: Table<String>,
    pub Labels: Table<String>,
}

#[derive(Debug, Clone, Default)]
pub struct NetworkCreateResponse {
    pub Id: String,
    pub Warning: String,
}

/// POST /networks/{id}/connect | /disconnect
#[derive(Debug, Clone, Default)]
pub struct NetworkConnectBody {
    pub Container: String,
    pub EndpointConfig: Option<EndpointSettings>,
    pub Force: bool,
}

/// GET /networks/prune response
#[derive(Debug, Clone, Default)]
pub struct NetworkPruneResponse {
    pub NetworksDeleted: Vec<String>,
}

} // verus!
