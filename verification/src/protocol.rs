//! The request/response protocol carried between peers.
//!
//! Requests and responses are tagged unions; every inbound request is
//! answered by exactly one response, and an implementation answers a tag it
//! does not serve with an error naming it.

use vstd::prelude::*;

use crate::access::Permission;
use crate::fsops::{FileChunk, FileWriteAck};
use crate::listing::DirEntry;

verus! {

/// How a requester identifies itself to the optional authentication layer.
#[derive(Clone, Debug)]
pub enum AuthMethod {
    Token { token: String },
    Credentials { username: String, password: String },
}

/// What a user or token is allowed to do.
#[derive(Clone, Debug)]
pub enum PermissionGrant {
    Owner,
    Viewer,
    Files { path: String, access: FileAccess },
    SystemInfo,
    DiskInfo,
    NetworkInfo,
}

/// How far a file grant reaches.
#[derive(Clone, Copy, Debug, PartialEq, Eq, Structural)]
pub enum FileAccess {
    Read,
    ReadWrite,
}

/// An authenticated session, as reported to its owner.
#[derive(Clone, Debug)]
pub struct SessionInfo {
    pub session_id: String,
    pub username: String,
    pub roles: Vec<String>,
    pub permissions: Vec<PermissionGrant>,
    pub expires_at: Option<u64>,
}

/// One user, as reported by a user listing.
#[derive(Clone, Debug)]
pub struct UserSummary {
    pub username: String,
    pub roles: Vec<String>,
    pub permissions: Vec<PermissionGrant>,
}

/// One issued token, as reported by a token listing.
#[derive(Clone, Debug)]
pub struct TokenInfo {
    pub id: String,
    pub username: String,
    pub label: Option<String>,
    pub permissions: Vec<PermissionGrant>,
    pub expires_at: Option<u64>,
    pub revoked: bool,
    pub issued_at: u64,
    pub issued_by: String,
}

/// One processor, as reported by a CPU listing.  The usage is carried in
/// hundredths of a percent.
#[derive(Clone, Debug)]
pub struct CpuInfo {
    pub name: String,
    pub usage_centi_percent: u32,
    pub frequency_hz: u64,
}

/// One disk, as reported by a disk listing.  The usage is carried in
/// hundredths of a percent.
#[derive(Clone, Debug)]
pub struct DiskInfo {
    pub name: String,
    pub mount_path: String,
    pub filesystem: String,
    pub total_space: u64,
    pub available_space: u64,
    pub usage_centi_percent: u32,
    pub total_read_bytes: u64,
    pub total_written_bytes: u64,
    pub read_only: bool,
    pub removable: bool,
    pub kind: String,
}

/// One network interface, as reported by an interface listing.
#[derive(Clone, Debug)]
pub struct InterfaceInfo {
    pub name: String,
    pub mac: String,
    pub ips: Vec<String>,
    pub total_received: u64,
    pub total_transmitted: u64,
    pub packets_received: u64,
    pub packets_transmitted: u64,
    pub errors_on_received: u64,
    pub errors_on_transmitted: u64,
    pub mtu: u64,
}

/// A request one peer sends another.
#[derive(Clone, Debug)]
pub enum PeerReq {
    ListDir { path: String },
    StatFile { path: String },
    ReadFile { path: String, offset: u64, length: Option<u64> },
    WriteFile { path: String, offset: u64, data: Vec<u8> },
    ListCpus,
    ListDisks,
    ListInterfaces,
    Authenticate { method: AuthMethod },
    CreateUser {
        username: String,
        password: String,
        roles: Vec<String>,
        permissions: Vec<PermissionGrant>,
    },
    CreateToken {
        username: String,
        label: Option<String>,
        expires_in: Option<u64>,
        permissions: Vec<PermissionGrant>,
    },
    GrantAccess { username: String, permissions: Vec<PermissionGrant>, merge: bool },
    ListUsers,
    ListTokens { username: Option<String> },
    RevokeToken { token_id: String },
    RevokeUser { username: String },
    ListPermissions,
}

/// The response a request is answered with.
#[derive(Debug)]
pub enum PeerRes {
    DirEntries(Vec<DirEntry>),
    FileStat(DirEntry),
    FileChunk(FileChunk),
    WriteAck(FileWriteAck),
    Cpus(Vec<CpuInfo>),
    Disks(Vec<DiskInfo>),
    Interfaces(Vec<InterfaceInfo>),
    AuthSuccess { session: SessionInfo },
    AuthFailure { reason: String },
    UserCreated { username: String },
    UserRemoved { username: String },
    TokenIssued {
        token: String,
        token_id: String,
        username: String,
        permissions: Vec<PermissionGrant>,
        expires_at: Option<u64>,
    },
    TokenRevoked { token_id: String },
    AccessGranted { username: String, permissions: Vec<PermissionGrant> },
    Users(Vec<UserSummary>),
    Tokens(Vec<TokenInfo>),
    Error(String),
    Permissions(Vec<Permission>),
}

} // verus!
