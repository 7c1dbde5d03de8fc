//! Assembly of runtime state from loaded material: per-target connection
//! parameters, the runtime configuration, the application context of
//! resolved module profiles, and the client-TLS plan a module implies.
//! File reads happen outside; this module decides and assembles.

use vstd::prelude::*;

use crate::config::{ApplicationConfig, ConnectionParameters, PrivateKey, SchedulerOverrideConfig};
use crate::error::ErrorReason;
use crate::filestore::{FileData, FileDataV};
use crate::modules::{resolve_module_config, spec_extends_closed, spec_mod_cycle, spec_mods_view,
    spec_resolved_value, spec_unique_names, ResolvedModuleConfig};
use crate::target::Target;

verus! {

/// One target with its assembled connection parameters.
#[derive(Debug)]
pub struct TargetParameter {
    pub target: Target,
    pub conn_params: ConnectionParameters,
}

impl TargetParameter {
    /// Pairs a target with its parameters.
    pub fn new(target: Target, conn_params: ConnectionParameters) -> (r: TargetParameter)
        ensures
            r.target@ == target@,
            r.conn_params == conn_params,
    {
        TargetParameter { target, conn_params }
    }

    /// Assembles a target's parameters from its configured fields and the
    /// material loaded for it.
    pub fn from_parts(
        target: Target,
        timeout_ms: Option<u64>,
        ca: Vec<Vec<u8>>,
        client_certs: Vec<Vec<u8>>,
        key: Option<PrivateKey>,
        server_name: Option<String>,
        insecure_skip_verify: bool,
    ) -> (r: TargetParameter)
        ensures
            r.target@ == target@,
            r.conn_params.timeout_ms == timeout_ms,
            r.conn_params.trusted_anchors == ca,
            !r.conn_params.use_webpki_roots,
            r.conn_params.certs == client_certs,
            r.conn_params.key == key,
            r.conn_params.server_name == server_name,
            r.conn_params.insecure_skip_verify == insecure_skip_verify,
    {
        TargetParameter {
            target,
            conn_params: ConnectionParameters {
                timeout_ms,
                trusted_anchors: ca,
                use_webpki_roots: false,
                certs: client_certs,
                key,
                server_name,
                insecure_skip_verify,
            },
        }
    }
}

/// The assembled runtime configuration: the default parameters every
/// probe falls back to, and the configured targets.
#[derive(Debug)]
pub struct RuntimeConfig {
    pub default_parameters: ConnectionParameters,
    pub targets: Vec<TargetParameter>,
}

impl RuntimeConfig {
    /// Assembles the runtime configuration from the global defaults and
    /// the loaded trust anchors.
    pub fn assemble(
        default_timeout_ms: u64,
        trusted_anchors: Vec<Vec<u8>>,
        use_webpki_roots: bool,
        targets: Vec<TargetParameter>,
    ) -> (r: RuntimeConfig)
        ensures
            r.default_parameters.timeout_ms == Some(default_timeout_ms),
            r.default_parameters.trusted_anchors == trusted_anchors,
            r.default_parameters.use_webpki_roots == use_webpki_roots,
            r.default_parameters.certs@.len() == 0,
            r.default_parameters.key is None,
            r.default_parameters.server_name is None,
            !r.default_parameters.insecure_skip_verify,
            r.targets == targets,
    {
        RuntimeConfig {
            default_parameters: ConnectionParameters {
                timeout_ms: Some(default_timeout_ms),
                trusted_anchors,
                use_webpki_roots,
                certs: Vec::new(),
                key: None,
                server_name: None,
                insecure_skip_verify: false,
            },
            targets,
        }
    }

    /// The per-target schedule override carried by a configured interval.
    pub fn schedule_override(interval_ms: Option<u64>) -> (r: SchedulerOverrideConfig)
        ensures
            r.interval_ms == interval_ms,
    {
        SchedulerOverrideConfig { interval_ms }
    }
}

/// The application context: every module profile, resolved.
#[derive(Debug)]
pub struct ApplicationContext {
    pub modules: Vec<(String, ResolvedModuleConfig)>,
}

impl ApplicationContext {
    /// Resolves the configured module profiles; fails exactly on a cyclic
    /// `extends` graph.
    pub fn load_from_config(config: &ApplicationConfig) -> (r: Result<ApplicationContext, ErrorReason>)
        requires
            spec_unique_names(spec_mods_view(config.modules@)),
            spec_extends_closed(spec_mods_view(config.modules@)),
        ensures
            r is Err <==> spec_mod_cycle(spec_mods_view(config.modules@)),
            r matches Err(e) ==> e matches ErrorReason::CyclicExtends,
            r matches Ok(ctx) ==> ctx.modules@.len() == config.modules@.len(),
            r matches Ok(ctx) ==> forall|i: int| 0 <= i < ctx.modules@.len()
                ==> (#[trigger] ctx.modules@[i].0)@ == config.modules@[i].0@,
            r matches Ok(ctx) ==> forall|i: int| 0 <= i < ctx.modules@.len()
                ==> (#[trigger] ctx.modules@[i].1)@ == spec_resolved_value(
                    spec_mods_view(config.modules@),
                    Seq::new(ctx.modules@.len(), |j: int| ctx.modules@[j].1@),
                    i,
                ),
    {
        let modules = resolve_module_config(&config.modules)?;
        Ok(ApplicationContext { modules })
    }

    /// The resolved profile of a module name, if the name is known.
    pub fn get_module(&self, name: &String) -> (r: Option<&ResolvedModuleConfig>)
        ensures
            match r {
                Some(m) => exists|i: int| 0 <= i < self.modules@.len()
                    && (#[trigger] self.modules@[i].0)@ == name@ && m == &self.modules@[i].1,
                None => forall|i: int| 0 <= i < self.modules@.len()
                    ==> (#[trigger] self.modules@[i].0)@ != name@,
            },
    {
        let n: usize = self.modules.len();
        for i in 0..n
            invariant
                n == self.modules@.len(),
                forall|j: int| 0 <= j < i ==> (#[trigger] self.modules@[j].0)@ != name@,
        {
            if self.modules[i].0 == *name {
                return Some(&self.modules[i].1);
            }
        }
        None
    }
}

/// What a module's TLS client configuration is built from: the trust
/// anchors, the skip-verify flag, and the optional client-auth material.
#[derive(Debug)]
pub struct TlsPlan {
    pub trusted_anchors: Vec<Vec<u8>>,
    pub insecure_skip_verify: bool,
    pub client_auth: Option<(Vec<Vec<u8>>, PrivateKey)>,
}

/// Decides a module's TLS client plan from its resolved profile and the
/// material loaded for it: the trust-anchor material must be of
/// trust-anchor kind; when the profile configures client certificates,
/// the certificate material must be of certificate kind and key material
/// of key kind must be supplied, else the private key is missing.
pub fn build_tls_plan(
    module: &ResolvedModuleConfig,
    anchors: &FileData,
    certs: Option<&FileData>,
    key: Option<&FileData>,
) -> (r: Result<TlsPlan, ErrorReason>)
    ensures
        r matches Ok(p) ==> (anchors@ matches FileDataV::TrustAnchors(a)
            && p.trusted_anchors.deep_view() == a
            && p.insecure_skip_verify == module.insecure_skip_verify),
        !(anchors@ is TrustAnchors) ==> r == Err::<TlsPlan, ErrorReason>(ErrorReason::InvalidPemTag),
        module.certs is None ==> match r {
            Ok(p) => p.client_auth is None,
            Err(e) => true,
        },
        module.certs is Some ==> match r {
            Ok(p) => p.client_auth matches Some(ck)
                && (certs matches Some(cd) && cd@ matches FileDataV::Certificates(cc)
                    && ck.0.deep_view() == cc)
                && (key matches Some(kd) && kd@ matches FileDataV::PrivateKey(kk, kdd)
                    && ck.1.kind == kk && ck.1.der@ == kdd),
            Err(e) => true,
        },
        anchors@ is TrustAnchors && module.certs is Some && module.key is None
            ==> r == Err::<TlsPlan, ErrorReason>(ErrorReason::MissingPrivateKey),
        r matches Err(e) ==> (e matches ErrorReason::InvalidPemTag
            || e matches ErrorReason::MissingPrivateKey),
        anchors@ is TrustAnchors && module.certs is None ==> r is Ok,
        anchors@ is TrustAnchors && module.certs is Some && module.key is Some
            && (certs matches Some(cd) && cd@ is Certificates)
            && (key matches Some(kd) && kd@ is PrivateKey)
            ==> r is Ok,
{
    let trusted_anchors = match anchors.clone_trust_anchors() {
        Some(a) => a,
        None => {
            return Err(ErrorReason::InvalidPemTag);
        },
    };
    let client_auth: Option<(Vec<Vec<u8>>, PrivateKey)> = if module.certs.is_some() {
        if module.key.is_none() {
            return Err(ErrorReason::MissingPrivateKey);
        }
        let chain = match certs {
            Some(cd) => match cd.clone_certificates() {
                Some(c) => c,
                None => {
                    return Err(ErrorReason::InvalidPemTag);
                },
            },
            None => {
                return Err(ErrorReason::MissingPrivateKey);
            },
        };
        let k = match key {
            Some(kd) => match kd.clone_private_key() {
                Some(k) => k,
                None => {
                    return Err(ErrorReason::InvalidPemTag);
                },
            },
            None => {
                return Err(ErrorReason::MissingPrivateKey);
            },
        };
        Some((chain, k))
    } else {
        None
    };
    Ok(TlsPlan {
        trusted_anchors,
        insecure_skip_verify: module.insecure_skip_verify,
        client_auth,
    })
}

} // verus!
