//! Server configuration: what `config.toml` can say, and what holds when it
//! does not say it.

use vstd::prelude::*;

use crate::text::texts;

verus! {

/// Top-level zenith server configuration loaded from `config.toml`.
#[derive(Debug, Clone)]
pub struct ServerConfig {
    pub server: ServerSection,
    pub auth: AuthSection,
    pub storage: StorageSection,
    pub targets: Vec<TargetSection>,
}

/// HTTP listener configuration.
#[derive(Debug, Clone)]
pub struct ServerSection {
    pub host: String,
    pub port: u16,
    /// Ceiling for file/library upload payloads, megabytes (decoded).
    pub upload_max_mb: u32,
    /// Origins allowed to call the API cross-origin. Empty (the default) means
    /// same-origin only: zenith serves its own frontend, so cross-origin
    /// access is opt-in.
    pub cors_allowed_origins: Vec<String>,
}

/// Authentication and rate-limiting configuration. Disabled by default for
/// development; when enabled, JWT bearer tokens are required on all `/api/*`
/// routes (except `/api/auth/login` and `/api/health`).
#[derive(Debug, Clone)]
pub struct AuthSection {
    pub enabled: bool,
    /// JWT signing key ONLY, never a login credential. Startup refuses to boot
    /// with the default value while auth is enabled.
    pub secret: String,
    /// Login username (single-operator scheme).
    pub username: String,
    /// argon2 PHC hash of the login password. Required when auth is enabled.
    pub password_hash: String,
}

/// Storage layer configuration: SQLite path, retention, FIFO trigger.
#[derive(Debug, Clone)]
pub struct StorageSection {
    pub path: String,
    pub retention_hours: u32,
    /// Audit rows older than this many days are pruned by the maintenance
    /// loop. 0 keeps the log forever.
    pub audit_retention_days: u32,
    /// Max DB size in MB before FIFO kicks in.
    pub max_db_size_mb: Option<u32>,
    /// How the size-cap FIFO distributes evictions across targets.
    pub fifo_strategy: FifoStrategy,
    /// Age-based multi-resolution retention ladder (off by default).
    pub tiers: TiersSection,
    pub structs_dir: Option<String>,
}

/// The retention ladder: full resolution for the newest window, then envelope
/// buckets (mean + min/max + count) at two coarser tiers. Age-triggered, not
/// fill-triggered: deterministic and free of feedback loops with the size-cap
/// FIFO, which stays the final backstop.
#[derive(Debug, Clone, Copy, PartialEq, Eq, Structural)]
pub struct TiersSection {
    pub enabled: bool,
    /// Newest window kept at full resolution.
    pub full_resolution_minutes: u32,
    /// Bucket width for the mid tier (seconds).
    pub mid_bucket_seconds: u32,
    /// Age at which mid-tier buckets re-tier to coarse.
    pub mid_horizon_hours: u32,
    /// Bucket width for the coarse tier (seconds).
    pub coarse_bucket_seconds: u32,
}

/// Eviction distribution for the size-cap FIFO.
#[derive(Debug, Clone, Copy, PartialEq, Eq, Structural)]
pub enum FifoStrategy {
    /// Waterline the largest holders down to a common level so one chatty
    /// target cannot evict a quiet target's history.
    Fair,
    /// Oldest rows go first regardless of owner.
    Global,
}

/// One target's connection details and per-target config artifact paths. One
/// `[[targets]]` array entry in `config.toml` produces one of these.
#[derive(Debug, Clone)]
pub struct TargetSection {
    pub name: String,
    pub host: String,
    pub port: u16,
    /// Wire protocol this target speaks. Validated at boot; a typo refuses to
    /// boot rather than silently defaulting.
    pub protocol: String,
    /// Display policy: telemetry field names (lowercased, underscores
    /// stripped) flagged as bad when nonzero on the dashboard health cards.
    pub health_nonzero_bad: Vec<String>,
    pub manifest: Option<String>,
    pub structs_dir: Option<String>,
    pub telemetry_config: Option<String>,
    pub commands_config: Option<String>,
    pub auto_connect: bool,
}

pub fn default_upload_max_mb() -> (r: u32)
    ensures
        r == 50,
{
    50
}

pub fn default_username() -> (r: String)
    ensures
        r@ == "admin"@,
{
    "admin".to_owned()
}

pub fn default_full_res_minutes() -> (r: u32)
    ensures
        r == 60,
{
    60
}

pub fn default_mid_bucket_seconds() -> (r: u32)
    ensures
        r == 1,
{
    1
}

pub fn default_mid_horizon_hours() -> (r: u32)
    ensures
        r == 24,
{
    24
}

pub fn default_coarse_bucket_seconds() -> (r: u32)
    ensures
        r == 60,
{
    60
}

pub fn default_host() -> (r: String)
    ensures
        r@ == "0.0.0.0"@,
{
    "0.0.0.0".to_owned()
}

pub fn default_port() -> (r: u16)
    ensures
        r == 8080,
{
    8080
}

pub fn default_secret() -> (r: String)
    ensures
        r@ == "change-me-in-production"@,
{
    "change-me-in-production".to_owned()
}

pub fn default_db_path() -> (r: String)
    ensures
        r@ == "./data/zenith.db"@,
{
    "./data/zenith.db".to_owned()
}

pub fn default_audit_retention_days() -> (r: u32)
    ensures
        r == 90,
{
    90
}

pub fn default_retention() -> (r: u32)
    ensures
        r == 24,
{
    24
}

pub fn default_target_port() -> (r: u16)
    ensures
        r == 9000,
{
    9000
}

pub fn default_protocol() -> (r: String)
    ensures
        r@ == "aproto-slip"@,
{
    "aproto-slip".to_owned()
}

/// The field names that are bad when nonzero, unless a target says otherwise.
pub open spec fn nonzero_bad_names() -> Seq<Seq<char>> {
    seq![
        "overruns"@,
        "frameoverruns"@,
        "watchdogwarnings"@,
        "watchdogwarns"@,
        "totalperiodviolations"@,
        "violationsthistick"@,
        "totalskipcount"@,
        "packetsinvalid"@,
        "framingerrors"@,
        "cmdqueueoverflows"@,
        "tlmqueueoverflows"@,
        "internalcommandsfailed"@,
        "warncount"@,
        "critcount"@,
    ]
}

/// The default display policy, callable from target-add paths that build a
/// target section themselves.
pub fn default_health_nonzero_bad_public() -> (out: Vec<String>)
    ensures
        texts(out@) == nonzero_bad_names(),
{
    default_health_nonzero_bad()
}

pub fn default_health_nonzero_bad() -> (out: Vec<String>)
    ensures
        texts(out@) == nonzero_bad_names(),
{
    let mut out: Vec<String> = Vec::new();
    out.push("overruns".to_owned());
    out.push("frameoverruns".to_owned());
    out.push("watchdogwarnings".to_owned());
    out.push("watchdogwarns".to_owned());
    out.push("totalperiodviolations".to_owned());
    out.push("violationsthistick".to_owned());
    out.push("totalskipcount".to_owned());
    out.push("packetsinvalid".to_owned());
    out.push("framingerrors".to_owned());
    out.push("cmdqueueoverflows".to_owned());
    out.push("tlmqueueoverflows".to_owned());
    out.push("internalcommandsfailed".to_owned());
    out.push("warncount".to_owned());
    out.push("critcount".to_owned());
    assert(texts(out@) =~= nonzero_bad_names());
    out
}

impl TiersSection {
    /// The ladder's defaults: off; an hour at full resolution, a day at one
    /// second, older at one minute.
    pub open spec fn preset(self) -> bool {
        self == (TiersSection {
            enabled: false,
            full_resolution_minutes: 60,
            mid_bucket_seconds: 1,
            mid_horizon_hours: 24,
            coarse_bucket_seconds: 60,
        })
    }
}

impl ServerSection {
    /// The listener's defaults.
    pub open spec fn preset(self) -> bool {
        &&& self.host@ == "0.0.0.0"@
        &&& self.port == 8080
        &&& self.upload_max_mb == 50
        &&& self.cors_allowed_origins@.len() == 0
    }
}

impl AuthSection {
    /// The defaults: off, and unusable until a secret and a hash are given.
    pub open spec fn preset(self) -> bool {
        &&& !self.enabled
        &&& self.secret@ == "change-me-in-production"@
        &&& self.username@ == "admin"@
        &&& self.password_hash@.len() == 0
    }
}

impl StorageSection {
    /// The storage defaults.
    pub open spec fn preset(self) -> bool {
        &&& self.path@ == "./data/zenith.db"@
        &&& self.retention_hours == 24
        &&& self.audit_retention_days == 90
        &&& self.max_db_size_mb is None
        &&& self.fifo_strategy == FifoStrategy::Fair
        &&& self.tiers.preset()
        &&& self.structs_dir is None
    }
}

impl Default for FifoStrategy {
    fn default() -> (r: Self)
        ensures
            r == FifoStrategy::Fair,
    {
        FifoStrategy::Fair
    }
}

impl Default for TiersSection {
    fn default() -> (r: Self)
        ensures
            r.preset(),
    {
        TiersSection {
            enabled: false,
            full_resolution_minutes: default_full_res_minutes(),
            mid_bucket_seconds: default_mid_bucket_seconds(),
            mid_horizon_hours: default_mid_horizon_hours(),
            coarse_bucket_seconds: default_coarse_bucket_seconds(),
        }
    }
}

impl Default for ServerSection {
    fn default() -> (r: Self)
        ensures
            r.preset(),
    {
        ServerSection {
            host: default_host(),
            port: default_port(),
            upload_max_mb: default_upload_max_mb(),
            cors_allowed_origins: Vec::new(),
        }
    }
}

impl Default for AuthSection {
    fn default() -> (r: Self)
        ensures
            r.preset(),
    {
        AuthSection {
            enabled: false,
            secret: default_secret(),
            username: default_username(),
            password_hash: String::new(),
        }
    }
}

impl Default for StorageSection {
    fn default() -> (r: Self)
        ensures
            r.preset(),
    {
        StorageSection {
            path: default_db_path(),
            retention_hours: default_retention(),
            audit_retention_days: default_audit_retention_days(),
            max_db_size_mb: None,
            fifo_strategy: FifoStrategy::Fair,
            tiers: TiersSection::default(),
            structs_dir: None,
        }
    }
}

impl Default for ServerConfig {
    fn default() -> (r: Self)
        ensures
            r.server.preset(),
            r.auth.preset(),
            r.storage.preset(),
            r.targets@.len() == 0,
    {
        ServerConfig {
            server: ServerSection::default(),
            auth: AuthSection::default(),
            storage: StorageSection::default(),
            targets: Vec::new(),
        }
    }
}

/// What holds when the config file does not say: auth off with a placeholder secret, the
/// listener on port 8080 with uploads of up to 50 megabytes and no cross-origin callers, a
/// day of samples and ninety days of audit, evicted fairly, and no ladder; where the ladder
/// is switched on, an hour at full resolution, a day at one second, older at one minute.
pub proof fn defaults_are_safe(
    server: ServerSection,
    auth: AuthSection,
    storage: StorageSection,
    tiers: TiersSection,
)
    ensures
        server.preset() ==> server.port == 8080 && server.upload_max_mb == 50
            && server.cors_allowed_origins@.len() == 0,
        auth.preset() ==> !auth.enabled && auth.password_hash@.len() == 0,
        storage.preset() ==> storage.retention_hours == 24 && storage.audit_retention_days == 90
            && storage.fifo_strategy is Fair && storage.max_db_size_mb is None
            && !storage.tiers.enabled,
        tiers.preset() ==> !tiers.enabled && tiers.full_resolution_minutes == 60
            && tiers.mid_horizon_hours * 60 > tiers.full_resolution_minutes
            && tiers.mid_bucket_seconds == 1 && tiers.mid_horizon_hours == 24
            && tiers.coarse_bucket_seconds == 60,
{
}

} // verus!
