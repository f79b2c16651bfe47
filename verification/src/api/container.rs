//! Containers, as the API shows and takes them. Free-form JSON is kept as its text.

use vstd::prelude::*;

use crate::manager::Command;
use crate::registry::Platform;
use crate::table::Table;

verus! {

/// GET /containers/json
#[derive(Debug, Clone, Default)]
pub struct ContainerSummary {
    pub Id: String,
    pub Names: Vec<String>,
    pub Image: String,
    pub ImageID: String,
    pub Command: String,
    pub Created: i64,
    pub Ports: Vec<Port>,
    pub Labels: Table<String>,
    pub State: String,
    pub Status: String,
    pub HostConfig: Option<SummaryHostConfig>,
    pub NetworkSettings: Option<SummaryNetworkSettings>,
    pub Mounts: Option<Vec<MountPoint>>,
}

#[derive(Debug, Clone, Default)]
pub struct SummaryHostConfig {
    pub NetworkMode: String,
}

#[derive(Debug, Clone, Default)]
pub struct SummaryNetworkSettings {
    pub Networks: Table<EndpointSettings>,
}

#[derive(Debug, Clone, Default)]
pub struct Port {
    pub IP: String,
    pub PrivatePort: u16,
    pub PublicPort: Option<u16>,
    pub Type: String,
}

#[derive(Debug, Clone, Default)]
pub struct PortBinding {
    pub HostIp: String,
    pub HostPort: String,
}

/// The `Config` block of a container / image (OCI-ish container runtime config).
#[derive(Debug, Clone, Default)]
pub struct ContainerConfig {
    pub Hostname: String,
    pub Domainname: String,
    pub User: String,
    pub AttachStdin: bool,
    pub AttachStdout: bool,
    pub AttachStderr: bool,
    pub ExposedPorts: Option<Table<String>>,
    pub Tty: bool,
    pub OpenStdin: bool,
    pub StdinOnce: bool,
    pub Env: Vec<String>,
    pub Cmd: Vec<String>,
    pub Healthcheck: Option<HealthConfig>,
    pub ArgsEscaped: bool,
    pub Image: String,
    pub Volumes: Option<Table<String>>,
    pub WorkingDir: String,
    pub Entrypoint: Option<Vec<String>>,
    pub OnBuild: Option<Vec<String>>,
    pub Labels: Table<String>,
    pub StopSignal: String,
    pub StopTimeout: Option<i64>,
    pub Shell: Option<Vec<String>>,
}

#[derive(Debug, Clone, Default)]
pub struct HealthConfig {
    pub Test: Vec<String>,
    pub Interval: Option<i64>,
    pub Timeout: Option<i64>,
    pub Retries: Option<i64>,
    pub StartPeriod: Option<i64>,
    pub StartInterval: Option<i64>,
}

/// Full HostConfig — we accept everything, act on the fields marked used.
#[derive(Debug, Clone, Default)]
pub struct HostConfig {
    pub Binds: Vec<String>,
    pub ContainerIDFile: String,
    pub LogConfig: LogConfig,
    pub NetworkMode: String,
    pub PortBindings: Table<Vec<PortBinding>>,
    pub RestartPolicy: RestartPolicy,
    pub AutoRemove: bool,
    pub VolumeDriver: String,
    pub VolumesFrom: Vec<String>,
    pub CapAdd: Vec<String>,
    pub CapDrop: Vec<String>,
    pub Dns: Vec<String>,
    pub DnsOptions: Vec<String>,
    pub DnsSearch: Vec<String>,
    pub ExtraHosts: Vec<String>,
    pub GroupAdd: Vec<String>,
    pub IpcMode: String,
    pub Cgroup: String,
    pub Links: Vec<String>,
    pub OomScoreAdj: i64,
    pub Privileged: bool,
    pub PublishAllPorts: bool,
    pub ReadonlyRootfs: bool,
    pub SecurityOpt: Vec<String>,
    pub UTSMode: String,
    pub UsernsMode: String,
    pub ShmSize: i64,
    pub Runtime: String,
    pub Isolation: String,
    pub CpuShares: i64,
    pub Memory: i64,
    pub NanoCpus: i64,
    pub CgroupParent: String,
    pub BlkioWeight: u16,
    pub CpuPeriod: i64,
    pub CpuQuota: i64,
    pub CpusetCpus: String,
    pub CpusetMems: String,
    pub Devices: Vec<String>,
    pub PidsLimit: i64,
    pub Ulimits: Vec<String>,
    pub Tmpfs: Table<String>,
    pub Mounts: Vec<MountRequest>,
    pub Init: Option<bool>,
    pub Sysctls: Table<String>,
}

#[derive(Debug, Clone, Default)]
pub struct LogConfig {
    pub typ: String,
    pub config: Table<String>,
}

#[derive(Debug, Clone)]
pub struct RestartPolicy {
    pub Name: String,
    pub MaximumRetryCount: i64,
}

#[derive(Debug, Clone, Default)]
pub struct MountRequest {
    pub typ: String,
    pub Source: String,
    pub Target: String,
    pub read_only: bool,
    pub bind: Option<String>,
    pub volume_options: Option<String>,
    pub tmpfs_options: Option<String>,
}

#[derive(Debug, Clone, Default)]
pub struct MountPoint {
    pub typ: String,
    pub Name: String,
    pub Source: String,
    pub Destination: String,
    pub Driver: String,
    pub Mode: String,
    pub RW: bool,
    pub Propagation: String,
}

/// POST /containers/create request body.
#[derive(Debug, Clone, Default)]
pub struct ContainerCreateBody {
    pub Hostname: String,
    pub Domainname: String,
    pub User: String,
    pub AttachStdin: bool,
    pub AttachStdout: bool,
    pub AttachStderr: bool,
    pub ExposedPorts: Option<Table<String>>,
    pub Tty: bool,
    pub OpenStdin: bool,
    pub StdinOnce: bool,
    pub Env: Vec<String>,
    pub Cmd: Vec<String>,
    pub Healthcheck: Option<HealthConfig>,
    pub ArgsEscaped: bool,
    pub Image: String,
    pub Volumes: Option<Table<String>>,
    pub WorkingDir: String,
    pub Entrypoint: Option<Vec<String>>,
    pub OnBuild: Option<Vec<String>>,
    pub Labels: Table<String>,
    pub StopSignal: String,
    pub StopTimeout: Option<i64>,
    pub Shell: Option<Vec<String>>,
    pub HostConfig: HostConfig,
    pub NetworkingConfig: Option<NetworkingConfig>,
}

#[derive(Debug, Clone, Default)]
pub struct NetworkingConfig {
    pub EndpointsConfig: Table<EndpointSettings>,
}

#[derive(Debug, Clone, Default)]
pub struct EndpointSettings {
    pub IPAMConfig: Option<EndpointIpamConfig>,
    pub Links: Vec<String>,
    pub Aliases: Vec<String>,
    pub NetworkID: String,
    pub EndpointID: String,
    pub Gateway: String,
    pub IPAddress: String,
    pub IPPrefixLen: Option<i64>,
    pub MacAddress: String,
    pub DriverOpts: Option<Table<String>>,
}

#[derive(Debug, Clone, Default)]
pub struct EndpointIpamConfig {
    pub IPv4Address: String,
}

#[derive(Debug, Clone, Default)]
pub struct ContainerState {
    pub Status: String,
    pub Running: bool,
    pub Paused: bool,
    pub Restarting: bool,
    pub OOMKilled: bool,
    pub Dead: bool,
    pub Pid: i64,
    pub ExitCode: i64,
    pub Error: String,
    pub StartedAt: String,
    pub FinishedAt: String,
    pub Health: Option<HealthState>,
}

#[derive(Debug, Clone, Default)]
pub struct HealthState {
    pub Status: String,
    pub FailingStreak: i64,
    pub Log: Vec<HealthLogEntry>,
}

#[derive(Debug, Clone, Default)]
pub struct HealthLogEntry {
    pub Start: String,
    pub End: String,
    pub ExitCode: i64,
    pub Output: String,
}

#[derive(Debug, Clone, Default)]
pub struct GraphDriverData {
    pub Name: String,
    pub Data: Table<String>,
}

/// GET /containers/{id}/json
#[derive(Debug, Clone, Default)]
pub struct ContainerInspect {
    pub Id: String,
    pub Created: String,
    pub Path: String,
    pub Args: Vec<String>,
    pub State: ContainerState,
    pub Image: String,
    pub ResolvConfPath: String,
    pub HostnamePath: String,
    pub HostsPath: String,
    pub LogPath: String,
    pub Name: String,
    pub RestartCount: i64,
    pub Driver: String,
    pub Platform: String,
    pub MountLabel: String,
    pub ProcessLabel: String,
    pub AppArmorProfile: String,
    pub ExecIDs: Option<Vec<String>>,
    pub HostConfig: HostConfig,
    pub GraphDriver: GraphDriverData,
    pub Mounts: Vec<MountPoint>,
    pub Config: ContainerConfig,
    pub NetworkSettings: NetworkSettingsInspect,
}

#[derive(Debug, Clone, Default)]
pub struct NetworkSettingsInspect {
    pub Bridge: String,
    pub SandboxID: String,
    pub HairpinMode: bool,
    pub LinkLocalIPv6Address: String,
    pub LinkLocalIPv6PrefixLen: i64,
    pub Ports: Table<Option<Vec<PortMapping>>>,
    pub SandboxKey: String,
    pub SecondaryIPAddresses: Option<Vec<String>>,
    pub EndpointID: String,
    pub Gateway: String,
    pub GlobalIPv6Address: String,
    pub GlobalIPv6PrefixLen: i64,
    pub IPAddress: String,
    pub IPPrefixLen: i64,
    pub IPv6Gateway: String,
    pub MacAddress: String,
    pub Networks: Table<EndpointSettings>,
}

#[derive(Debug, Clone, Default)]
pub struct PortMapping {
    pub HostIp: String,
    pub HostPort: String,
}

/// GET /containers/{id}/wait
#[derive(Debug, Clone, Default)]
pub struct WaitResponse {
    pub StatusCode: i64,
    pub Error: Option<WaitError>,
}

#[derive(Debug, Clone, Default)]
pub struct WaitError {
    pub Message: String,
}

/// POST /containers/{id}/exec create body.
#[derive(Debug, Clone, Default)]
pub struct ExecCreateBody {
    pub Detach: bool,
    pub Tty: bool,
    pub Env: Vec<String>,
    pub Cmd: Vec<String>,
    pub AttachStdin: bool,
    pub AttachStdout: bool,
    pub AttachStderr: bool,
    pub Privileged: bool,
    pub User: String,
    pub WorkingDir: String,
}

/// GET /exec/{id}/json
#[derive(Debug, Clone, Default)]
pub struct ExecInspect {
    pub CanRemove: bool,
    pub ContainerID: String,
    pub DetachKeys: String,
    pub ExitCode: i64,
    pub ID: String,
    pub OpenStderr: bool,
    pub OpenStdin: bool,
    pub OpenStdout: bool,
    pub ProcessConfig: ExecProcessConfig,
    pub Running: bool,
    pub Pid: i64,
}

#[derive(Debug, Clone, Default)]
pub struct ExecProcessConfig {
    pub arguments: Vec<String>,
    pub entrypoint: String,
    pub privileged: bool,
    pub tty: bool,
    pub user: String,
}

/// GET /containers/{id}/top
#[derive(Debug, Clone, Default)]
pub struct ContainerTop {
    pub Titles: Vec<String>,
    pub Processes: Vec<Vec<String>>,
}

/// GET /containers/{id}/stats one-shot (stream=0)
#[derive(Debug, Clone, Default)]
pub struct ContainerStats {
    pub id: String,
    pub name: String,
    pub read: String,
    pub preread: String,
    pub pids_stats: PidsStats,
    pub networks: Table<NetworkStats>,
    pub memory_stats: MemoryStats,
    pub cpu_stats: CpuStats,
    pub precpu_stats: CpuStats,
}

#[derive(Debug, Clone, Default)]
pub struct PidsStats {
    pub current: u64,
    pub limit: u64,
}

#[derive(Debug, Clone, Default)]
pub struct NetworkStats {
    pub rx_bytes: u64,
    pub rx_packets: u64,
    pub rx_errors: u64,
    pub rx_dropped: u64,
    pub tx_bytes: u64,
    pub tx_packets: u64,
    pub tx_errors: u64,
    pub tx_dropped: u64,
}

#[derive(Debug, Clone, Default)]
pub struct MemoryStats {
    pub usage: u64,
    pub max_usage: u64,
    pub limit: u64,
    pub stats: String,
}

#[derive(Debug, Clone, Default)]
pub struct CpuStats {
    pub cpu_usage: CpuUsage,
    pub system_cpu_usage: u64,
    pub online_cpus: u64,
    pub throttling_data: ThrottlingData,
}

#[derive(Debug, Clone, Default)]
pub struct CpuUsage {
    pub total_usage: u64,
    pub percpu_usage: Vec<u64>,
    pub usage_in_kernelmode: u64,
    pub usage_in_usermode: u64,
}

#[derive(Debug, Clone, Default)]
pub struct ThrottlingData {
    pub periods: u64,
    pub throttled_periods: u64,
    pub throttled_time: u64,
}

/// POST /containers/{id}/update
#[derive(Debug, Clone, Default)]
pub struct ContainerUpdateBody {
    pub Memory: i64,
    pub NanoCpus: i64,
    pub CpuShares: i64,
    pub PidsLimit: i64,
    pub CpusetCpus: String,
    pub RestartPolicy: Option<RestartPolicy>,
}

#[derive(Debug, Clone, Default)]
pub struct ContainerUpdateOKBody {
    pub Warnings: Vec<String>,
}

/// POST /containers/prune
#[derive(Debug, Clone, Default)]
pub struct ContainersPruneReport {
    pub ContainersDeleted: Option<Vec<String>>,
    pub SpaceReclaimed: u64,
}

/// GET/HEAD /containers/{id}/archive stat header
#[derive(Debug, Clone, Default)]
pub struct ContainerPathStat {
    pub name: String,
    pub size: i64,
    pub mode: u32,
    pub mtime: String,
    pub link_target: String,
}

impl Default for RestartPolicy {
    fn default() -> (r: RestartPolicy)
        ensures
            r.Name@.len() == 0,
            r.MaximumRetryCount == 0,
    {
        RestartPolicy { Name: String::new(), MaximumRetryCount: 0 }
    }
}

impl ContainerCreateBody {
    /// The part of the request that the container's configuration is made of.
    pub fn into_container_config(self) -> (r: ContainerConfig)
        ensures
            r.Hostname == self.Hostname,
            r.Domainname == self.Domainname,
            r.User == self.User,
            r.AttachStdin == self.AttachStdin,
            r.AttachStdout == self.AttachStdout,
            r.AttachStderr == self.AttachStderr,
            r.ExposedPorts == self.ExposedPorts,
            r.Tty == self.Tty,
            r.OpenStdin == self.OpenStdin,
            r.StdinOnce == self.StdinOnce,
            r.Env == self.Env,
            r.Cmd == self.Cmd,
            r.Healthcheck == self.Healthcheck,
            r.ArgsEscaped == self.ArgsEscaped,
            r.Image == self.Image,
            r.Volumes == self.Volumes,
            r.WorkingDir == self.WorkingDir,
            r.Entrypoint == self.Entrypoint,
            r.OnBuild == self.OnBuild,
            r.Labels == self.Labels,
            r.StopSignal == self.StopSignal,
            r.StopTimeout == self.StopTimeout,
            r.Shell == self.Shell,
    {
        ContainerConfig {
            Hostname: self.Hostname,
            Domainname: self.Domainname,
            User: self.User,
            AttachStdin: self.AttachStdin,
            AttachStdout: self.AttachStdout,
            AttachStderr: self.AttachStderr,
            ExposedPorts: self.ExposedPorts,
            Tty: self.Tty,
            OpenStdin: self.OpenStdin,
            StdinOnce: self.StdinOnce,
            Env: self.Env,
            Cmd: self.Cmd,
            Healthcheck: self.Healthcheck,
            ArgsEscaped: self.ArgsEscaped,
            Image: self.Image,
            Volumes: self.Volumes,
            WorkingDir: self.WorkingDir,
            Entrypoint: self.Entrypoint,
            OnBuild: self.OnBuild,
            Labels: self.Labels,
            StopSignal: self.StopSignal,
            StopTimeout: self.StopTimeout,
            Shell: self.Shell,
        }
    }
}

} // verus!
