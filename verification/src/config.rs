//! Configuration data: file-content references, connection parameters
//! (the concrete TLS profile of a probe), scheduler intervals, per-target
//! configuration, and the pre-resolution module profiles.
//!
//! Everything here is plain data created at configuration load and never
//! mutated afterwards; reading files and deserializing them happens
//! outside, which hands in these values.

use vstd::prelude::*;

verus! {

/// The default per-probe timeout, in milliseconds.
pub fn default_timeout() -> (r: u64)
    ensures
        r == 3000,
{
    3000
}

/// The default scheduler interval, in milliseconds.
pub fn default_interval() -> (r: u64)
    ensures
        r == 600000,
{
    600000
}

/// The fixed backoff re-schedule delay after a failed probe, in
/// milliseconds.
pub fn backoff_interval() -> (r: u64)
    ensures
        r == 20000,
{
    20000
}

/// A reference to file bytes: either inline content supplied by the
/// configuration, or a filesystem path.
#[derive(Clone, Debug, PartialEq, Eq, Hash)]
pub enum FileContent {
    Inline { content: Vec<u8> },
    Path { path: String },
}

/// The spec-level shape of a file-content reference.
pub enum FileContentV {
    Inline { content: Seq<u8> },
    Path { path: Seq<char> },
}

impl View for FileContent {
    type V = FileContentV;

    open spec fn view(&self) -> FileContentV {
        match self {
            FileContent::Inline { content } => FileContentV::Inline { content: content@ },
            FileContent::Path { path } => FileContentV::Path { path: path@ },
        }
    }
}

impl FileContent {
    /// A copy with the same contents.
    pub fn duplicate(&self) -> (r: FileContent)
        ensures
            r@ == self@,
    {
        match self {
            FileContent::Inline { content } => FileContent::Inline { content: content.clone() },
            FileContent::Path { path } => FileContent::Path { path: path.clone() },
        }
    }
}

/// A reference to file bytes used by module profiles; same shape as
/// `FileContent`.
#[derive(Clone, Debug, PartialEq, Eq, Hash)]
pub enum FileSource {
    Inline { content: Vec<u8> },
    Path { path: String },
}

/// The spec-level shape of a file-source reference.
pub enum FileSourceV {
    Inline { content: Seq<u8> },
    Path { path: Seq<char> },
}

impl View for FileSource {
    type V = FileSourceV;

    open spec fn view(&self) -> FileSourceV {
        match self {
            FileSource::Inline { content } => FileSourceV::Inline { content: content@ },
            FileSource::Path { path } => FileSourceV::Path { path: path@ },
        }
    }
}

impl FileSource {
    /// A copy with the same contents.
    pub fn duplicate(&self) -> (r: FileSource)
        ensures
            r@ == self@,
    {
        match self {
            FileSource::Inline { content } => FileSource::Inline { content: content.clone() },
            FileSource::Path { path } => FileSource::Path { path: path.clone() },
        }
    }
}

/// Copies an optional string.
pub fn clone_opt_string(s: &Option<String>) -> (r: Option<String>)
    ensures
        match (s, &r) {
            (Some(a), Some(b)) => a@ == b@,
            (None, None) => true,
            _ => false,
        },
{
    match s {
        Some(v) => Some(v.clone()),
        None => None,
    }
}

/// Copies an optional file source.
pub fn clone_opt_file_source(s: &Option<FileSource>) -> (r: Option<FileSource>)
    ensures
        match (s, &r) {
            (Some(a), Some(b)) => a@ == b@,
            (None, None) => true,
            _ => false,
        },
{
    match s {
        Some(v) => Some(v.duplicate()),
        None => None,
    }
}

/// Copies a list of byte strings.
pub fn clone_bytes_list(v: &Vec<Vec<u8>>) -> (r: Vec<Vec<u8>>)
    ensures
        r.deep_view() == v.deep_view(),
{
    let mut out: Vec<Vec<u8>> = Vec::new();
    let n: usize = v.len();
    for i in 0..n
        invariant
            n == v@.len(),
            out@.len() == i,
            forall|j: int| 0 <= j < i ==> out.deep_view()[j] == v.deep_view()[j],
    {
        out.push(v[i].clone());
    }
    proof {
        assert(out.deep_view() =~~= v.deep_view());
    }
    out
}

/// A STARTTLS dialect: the protocol-specific upgrade performed before the
/// TLS handshake.
#[derive(Clone, Copy, Debug, PartialEq, Eq, Structural)]
pub enum Starttls {
    Ldap,
    Smtp,
    Imap,
    Pop3,
    Ftp,
    Xmpp,
    Nntp,
    Postgres,
}

/// How file-backed material is cached.
#[derive(Clone, Copy, Debug, PartialEq, Eq, Structural, Default)]
pub enum FileCaching {
    #[default]
    Preload,
    Lazy,
    Uncached,
}

/// A private key as plain values: its PEM kind and DER bytes.
#[derive(Clone, Debug, PartialEq, Eq)]
pub struct PrivateKey {
    pub kind: PrivateKeyKind,
    pub der: Vec<u8>,
}

/// The encoding a private key was found in.
#[derive(Clone, Copy, Debug, PartialEq, Eq, Structural)]
pub enum PrivateKeyKind {
    Pkcs1,
    Pkcs8,
    Sec1,
}

impl PrivateKey {
    /// A copy with the same contents.
    pub fn duplicate(&self) -> (r: PrivateKey)
        ensures
            r.kind == self.kind,
            r.der@ == self.der@,
    {
        PrivateKey { kind: self.kind, der: self.der.clone() }
    }
}

/// The concrete TLS profile used for a probe. Default trust anchors are
/// empty; the system store and the platform web-PKI roots can be added.
#[derive(Clone, Debug)]
pub struct ConnectionParameters {
    /// Per-probe timeout in milliseconds, if overridden.
    pub timeout_ms: Option<u64>,
    /// Trust anchors as DER certificates.
    pub trusted_anchors: Vec<Vec<u8>>,
    /// Whether the platform web-PKI roots augment the anchors.
    pub use_webpki_roots: bool,
    /// Client certificate chain, DER, leaf first.
    pub certs: Vec<Vec<u8>>,
    /// Client private key.
    pub key: Option<PrivateKey>,
    /// Server-name override.
    pub server_name: Option<String>,
    /// Return success without consulting the trust-path verifier.
    pub insecure_skip_verify: bool,
}

impl ConnectionParameters {
    /// Whether no trust anchors are configured at all.
    pub open spec fn spec_anchors_empty(&self) -> bool {
        self.trusted_anchors@.len() == 0 && !self.use_webpki_roots
    }

    /// The empty profile: no timeout override, no anchors, no client auth.
    pub fn empty() -> (r: ConnectionParameters)
        ensures
            r.timeout_ms is None,
            r.trusted_anchors@.len() == 0,
            !r.use_webpki_roots,
            r.certs@.len() == 0,
            r.key is None,
            r.server_name is None,
            !r.insecure_skip_verify,
    {
        ConnectionParameters {
            timeout_ms: None,
            trusted_anchors: Vec::new(),
            use_webpki_roots: false,
            certs: Vec::new(),
            key: None,
            server_name: None,
            insecure_skip_verify: false,
        }
    }

    /// A copy with the same contents.
    pub fn duplicate(&self) -> (r: ConnectionParameters)
        ensures
            r.timeout_ms == self.timeout_ms,
            r.trusted_anchors.deep_view() == self.trusted_anchors.deep_view(),
            r.use_webpki_roots == self.use_webpki_roots,
            r.certs.deep_view() == self.certs.deep_view(),
            match (&self.key, &r.key) {
                (Some(a), Some(b)) => a.kind == b.kind && a.der@ == b.der@,
                (None, None) => true,
                _ => false,
            },
            match (&self.server_name, &r.server_name) {
                (Some(a), Some(b)) => a@ == b@,
                (None, None) => true,
                _ => false,
            },
            r.insecure_skip_verify == self.insecure_skip_verify,
    {
        ConnectionParameters {
            timeout_ms: self.timeout_ms,
            trusted_anchors: clone_bytes_list(&self.trusted_anchors),
            use_webpki_roots: self.use_webpki_roots,
            certs: clone_bytes_list(&self.certs),
            key: match &self.key {
                Some(k) => Some(k.duplicate()),
                None => None,
            },
            server_name: clone_opt_string(&self.server_name),
            insecure_skip_verify: self.insecure_skip_verify,
        }
    }

    /// Fills the gaps of this profile from a default one: the timeout when
    /// none is set, the trust anchors when none are configured. All other
    /// fields keep their values.
    pub fn merge(&self, default_params: &ConnectionParameters) -> (p: ConnectionParameters)
        ensures
            p.timeout_ms == if self.timeout_ms is Some { self.timeout_ms } else { default_params.timeout_ms },
            self.spec_anchors_empty() ==> p.trusted_anchors.deep_view() == default_params.trusted_anchors.deep_view()
                && p.use_webpki_roots == default_params.use_webpki_roots,
            !self.spec_anchors_empty() ==> p.trusted_anchors.deep_view() == self.trusted_anchors.deep_view()
                && p.use_webpki_roots == self.use_webpki_roots,
            p.certs.deep_view() == self.certs.deep_view(),
            match (&self.key, &p.key) {
                (Some(a), Some(b)) => a.kind == b.kind && a.der@ == b.der@,
                (None, None) => true,
                _ => false,
            },
            match (&self.server_name, &p.server_name) {
                (Some(a), Some(b)) => a@ == b@,
                (None, None) => true,
                _ => false,
            },
            p.insecure_skip_verify == self.insecure_skip_verify,
    {
        let mut p = self.duplicate();
        if p.trusted_anchors.len() == 0 && !p.use_webpki_roots {
            p.trusted_anchors = clone_bytes_list(&default_params.trusted_anchors);
            p.use_webpki_roots = default_params.use_webpki_roots;
        }
        if p.timeout_ms.is_none() {
            p.timeout_ms = default_params.timeout_ms;
        }
        p
    }

    /// Adds one DER certificate to the trust anchors.
    pub fn load_certificate(&mut self, der: &[u8])
        ensures
            final(self).trusted_anchors.deep_view() == old(self).trusted_anchors.deep_view().push(der@),
            final(self).timeout_ms == old(self).timeout_ms,
            final(self).use_webpki_roots == old(self).use_webpki_roots,
            final(self).certs == old(self).certs,
            final(self).key == old(self).key,
            final(self).server_name == old(self).server_name,
            final(self).insecure_skip_verify == old(self).insecure_skip_verify,
    {
        self.trusted_anchors.push(crate::text::bytes_to_vec(der));
        proof {
            assert(self.trusted_anchors.deep_view() =~~= old(self).trusted_anchors.deep_view().push(der@));
        }
    }

    /// Marks the platform web-PKI roots as part of the trust anchors.
    pub fn load_webpki_roots(&mut self)
        ensures
            final(self).use_webpki_roots,
            final(self).trusted_anchors == old(self).trusted_anchors,
            final(self).timeout_ms == old(self).timeout_ms,
            final(self).certs == old(self).certs,
            final(self).key == old(self).key,
            final(self).server_name == old(self).server_name,
            final(self).insecure_skip_verify == old(self).insecure_skip_verify,
    {
        self.use_webpki_roots = true;
    }

    /// The client-auth material to wire into a TLS client configuration:
    /// `None` when no client certificates are configured, the chain and key
    /// when both are, and `MissingPrivateKey` when certificates are
    /// configured without a key.
    pub fn client_auth_plan(&self) -> (r: Result<Option<(Vec<Vec<u8>>, PrivateKey)>, crate::error::ErrorReason>)
        ensures
            self.certs@.len() == 0 <==> (r matches Ok(o) && o is None),
            self.certs@.len() > 0 && self.key is Some <==> (r matches Ok(o) && (o matches Some(p)
                && p.0.deep_view() == self.certs.deep_view()
                && (self.key matches Some(k) && p.1.kind == k.kind && p.1.der@ == k.der@))),
            self.certs@.len() > 0 && self.key is None <==> (r matches Err(e) && e matches crate::error::ErrorReason::MissingPrivateKey),
    {
        if self.certs.len() == 0 {
            Ok(None)
        } else {
            match &self.key {
                Some(k) => Ok(Some((clone_bytes_list(&self.certs), k.duplicate()))),
                None => Err(crate::error::ErrorReason::MissingPrivateKey),
            }
        }
    }
}

/// The global scheduler configuration.
#[derive(Clone, Copy, Debug, PartialEq, Eq, Structural)]
pub struct SchedulerConfig {
    /// The interval between probes of one target, in milliseconds.
    pub interval_ms: u64,
}

/// Per-target overrides of the scheduler configuration.
#[derive(Clone, Copy, Debug, PartialEq, Eq, Structural, Default)]
pub struct SchedulerOverrideConfig {
    /// Overriding interval, in milliseconds, if set.
    pub interval_ms: Option<u64>,
}

impl SchedulerOverrideConfig {
    /// The effective configuration: the override where set, the global
    /// value elsewhere.
    pub fn combine(&self, global: &SchedulerConfig) -> (r: SchedulerConfig)
        ensures
            r.interval_ms == match self.interval_ms {
                Some(v) => v,
                None => global.interval_ms,
            },
    {
        match self.interval_ms {
            Some(v) => SchedulerConfig { interval_ms: v },
            None => SchedulerConfig { interval_ms: global.interval_ms },
        }
    }
}

/// The TLS portion of one target's configuration.
#[derive(Clone, Debug, Default)]
pub struct TargetTlsConfig {
    pub ca: Option<FileContent>,
    pub cert: Option<FileContent>,
    pub key: Option<FileContent>,
    pub server_name: Option<String>,
    pub insecure_skip_verify: bool,
}

/// One target entry of the configuration file.
#[derive(Clone, Debug)]
pub struct TargetConfig {
    /// The `host:port` spelling of the target.
    pub target: String,
    /// Per-probe timeout override, milliseconds.
    pub timeout_ms: Option<u64>,
    /// Per-target scheduling overrides.
    pub schedule_config: SchedulerOverrideConfig,
    /// TLS material for this target.
    pub tls_config: TargetTlsConfig,
}

/// The top-level configuration: worker count, probing defaults, trust
/// anchors, targets, and named module profiles.
#[derive(Clone, Debug)]
pub struct GlobalConfig {
    pub workers: Option<usize>,
    /// Default per-probe timeout, milliseconds.
    pub default_timeout_ms: u64,
    /// Default scheduler interval, milliseconds.
    pub default_interval_ms: u64,
    pub targets: Vec<TargetConfig>,
    pub trusted_anchors: Vec<FileContent>,
}

impl Default for GlobalConfig {
    fn default() -> (r: GlobalConfig)
        ensures
            r.workers is None,
            r.default_timeout_ms == 3000,
            r.default_interval_ms == 600000,
            r.targets@.len() == 0,
            r.trusted_anchors@.len() == 0,
    {
        GlobalConfig {
            workers: None,
            default_timeout_ms: 3000,
            default_interval_ms: 600000,
            targets: Vec::new(),
            trusted_anchors: Vec::new(),
        }
    }
}

/// A named TLS-profile template before resolution: the fields it sets and
/// the module names it extends.
#[derive(Clone, Debug, Default)]
pub struct ModuleConfig {
    pub extends: Vec<String>,
    pub timeout_ms: Option<u64>,
    pub trustedanchors: Option<FileSource>,
    pub certs: Option<FileSource>,
    pub key: Option<FileSource>,
    pub server_name: Option<String>,
    pub starttls: Option<Starttls>,
    pub insecure_skip_verify: Option<bool>,
}

/// The spec-level shape of a module profile.
#[verifier::ext_equal]
pub struct ModuleConfigV {
    pub extends: Seq<Seq<char>>,
    pub timeout_ms: Option<u64>,
    pub trustedanchors: Option<FileSourceV>,
    pub certs: Option<FileSourceV>,
    pub key: Option<FileSourceV>,
    pub server_name: Option<Seq<char>>,
    pub starttls: Option<Starttls>,
    pub insecure_skip_verify: Option<bool>,
}

impl View for ModuleConfig {
    type V = ModuleConfigV;

    open spec fn view(&self) -> ModuleConfigV {
        ModuleConfigV {
            extends: Seq::new(self.extends@.len(), |i: int| self.extends@[i]@),
            timeout_ms: self.timeout_ms,
            trustedanchors: match &self.trustedanchors { Some(v) => Some(v@), None => None },
            certs: match &self.certs { Some(v) => Some(v@), None => None },
            key: match &self.key { Some(v) => Some(v@), None => None },
            server_name: match &self.server_name { Some(v) => Some(v@), None => None },
            starttls: self.starttls,
            insecure_skip_verify: self.insecure_skip_verify,
        }
    }
}

/// The application-level configuration holding the module profiles.
#[derive(Clone, Debug, Default)]
pub struct ApplicationConfig {
    pub workers: Option<usize>,
    pub filecaching: FileCaching,
    /// Named module profiles.
    pub modules: Vec<(String, ModuleConfig)>,
}

} // verus!
