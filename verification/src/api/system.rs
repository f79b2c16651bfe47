//! The engine itself, as the API shows it. Free-form JSON is kept as its text.

use vstd::prelude::*;

use crate::dns;
use crate::registry::Platform;
use crate::table::Table;

verus! {

/// GET /version
#[derive(Debug, Clone, Default)]
pub struct Version {
    pub Platform: VersionPlatform,
    pub Version: String,
    pub ApiVersion: String,
    pub MinAPIVersion: String,
    pub GitCommit: String,
    pub GoVersion: String,
    pub Os: String,
    pub Arch: String,
    pub KernelVersion: String,
    pub BuildTime: String,
    pub Components: Option<Vec<VersionComponent>>,
}

#[derive(Debug, Clone, Default)]
pub struct VersionPlatform {
    pub Name: String,
}

#[derive(Debug, Clone)]
pub struct VersionComponent {
    pub Name: String,
    pub Version: String,
    pub Details: Option<Table<String>>,
}

/// GET /info — the fields `docker info` renders, plus a few the CLI probes.
#[derive(Debug, Clone, Default)]
pub struct Info {
    pub ID: String,
    pub Containers: i64,
    pub ContainersRunning: i64,
    pub ContainersPaused: i64,
    pub ContainersStopped: i64,
    pub Images: i64,
    pub Driver: String,
    pub DriverStatus: Vec<Vec<String>>,
    pub DockerRootDir: String,
    pub MemoryLimit: bool,
    pub SwapLimit: bool,
    pub KernelMemoryTCP: bool,
    pub CpuCfsPeriod: bool,
    pub CpuCfsQuota: bool,
    pub CPUShares: bool,
    pub CPUSet: bool,
    pub PidsLimit: bool,
    pub OomKillDisable: bool,
    pub IPv4Forwarding: bool,
    pub BridgeNfIptables: bool,
    pub BridgeNfIp6tables: bool,
    pub Debug: bool,
    pub NFd: i64,
    pub NGoroutines: i64,
    pub LoggingDriver: String,
    pub CgroupDriver: String,
    pub CgroupVersion: String,
    pub NEventsListener: i64,
    pub KernelVersion: String,
    pub OperatingSystem: String,
    pub OSVersion: String,
    pub OSType: String,
    pub Architecture: String,
    pub NCPU: i64,
    pub MemTotal: i64,
    pub IndexServerAddress: String,
    pub Name: String,
    pub ServerVersion: String,
    pub Labels: Vec<String>,
    pub ExperimentalBuild: bool,
    pub RuntimesMap: String,
    pub DefaultRuntime: String,
    pub SecurityOptions: Vec<String>,
    pub CDISpecDirs: Vec<String>,
    pub Warnings: Vec<String>,
}

/// GET /events — modern event schema the docker CLI understands.
#[derive(Debug, Clone)]
pub struct EventMessage {
    pub Type: String,
    pub Action: String,
    pub Actor: EventActor,
    pub scope: String,
    pub time: i64,
    pub timeNano: i64,
    /// legacy fields, still read by some tooling
    pub status: String,
    pub id: String,
    pub from: String,
}

#[derive(Debug, Clone, Default)]
pub struct EventActor {
    pub ID: String,
    pub Attributes: Table<String>,
}

/// GET /system/df
#[derive(Debug, Clone, Default)]
pub struct SystemDFResponse {
    pub LayersSize: Option<i64>,
    pub Images: Option<Vec<String>>,
    pub Containers: Option<Vec<String>>,
    pub Volumes: Option<Vec<String>>,
    pub BuildCache: Option<Vec<String>>,
}

/// The credentials for a registry.
#[derive(Debug, Clone, Default)]
pub struct AuthConfig {
    pub username: String,
    pub password: String,
    pub server_address: String,
    pub auth: String,
    pub identity_token: String,
}

impl Default for EventMessage {
    fn default() -> (r: EventMessage)
        ensures
            r.scope@ == "local"@,
            r.Type@.len() == 0,
            r.Action@.len() == 0,
            r.Actor.ID@.len() == 0,
            r.Actor.Attributes.entries@.len() == 0,
            r.time == 0,
            r.timeNano == 0,
            r.status@.len() == 0,
            r.id@.len() == 0,
            r.from@.len() == 0,
    {
        EventMessage {
            Type: String::new(),
            Action: String::new(),
            Actor: EventActor { ID: String::new(), Attributes: Table::new() },
            scope: "local".to_owned(),
            time: 0,
            timeNano: 0,
            status: String::new(),
            id: String::new(),
            from: String::new(),
        }
    }
}

/// The image that an event's attributes name.
pub open spec fn image_named(attrs: Table<String>) -> Seq<char> {
    match dns::entry(attrs, "image"@) {
        Some(s) => s,
        None => Seq::empty(),
    }
}

impl EventMessage {
    /// An event that happened at the time, in seconds and in nanoseconds.
    pub fn new(
        typ: &str,
        action: &str,
        id: &str,
        attrs: Table<String>,
        time: i64,
        time_nano: i64,
    ) -> (r: EventMessage)
        ensures
            r.Type@ == typ@,
            r.Action@ == action@,
            r.Actor.ID@ == id@,
            r.Actor.Attributes == attrs,
            r.scope@ == "local"@,
            r.time == time,
            r.timeNano == time_nano,
            r.status@ == action@,
            r.id@ == id@,
            r.from@ == image_named(attrs),
    {
        let from: String = match attrs.get("image") {
            Some(s) => s.clone(),
            None => String::new(),
        };
        EventMessage {
            Type: typ.to_owned(),
            Action: action.to_owned(),
            Actor: EventActor { ID: id.to_owned(), Attributes: attrs },
            scope: "local".to_owned(),
            time,
            timeNano: time_nano,
            status: action.to_owned(),
            id: id.to_owned(),
            from,
        }
    }
}

} // verus!
