//! Volumes, as the API shows and takes them. Free-form JSON is kept as its text.

use vstd::prelude::*;

use crate::table::Table;

verus! {

#[derive(Debug, Clone, Default)]
pub struct Volume {
    pub CreatedAt: String,
    pub Driver: String,
    pub Labels: Table<String>,
    pub Mountpoint: String,
    pub Name: String,
    pub Options: Table<String>,
    pub Scope: String,
}

#[derive(Debug, Clone, Default)]
pub struct VolumeCreateBody {
    pub Name: String,
    pub Driver: String,
    pub Labels: Table<String>,
    pub DriverOpts: Table<String>,
    pub cluster_volume: Option<String>,
}

#[derive(Debug, Clone, Default)]
pub struct VolumeListInfo {
    pub Volumes: Vec<Volume>,
    pub Warnings: Vec<String>,
}

#[derive(Debug, Clone, Default)]
pub struct VolumePruneResponse {
    pub VolumesDeleted: Vec<String>,
    pub Reclaimable: Option<u64>,
}

} // verus!
