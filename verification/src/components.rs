//! The component model: what the compiler knows of a source, transform or
//! sink. Concrete component implementations live outside this crate; here
//! each wrapper carries the capability record the compiler queries —
//! output streams and their event types, declared resources,
//! acknowledgement support — plus the common attributes.

use vstd::prelude::*;
use crate::id::OutputId;
use crate::resource::Resource;

verus! {

/// The event classes a stream can carry.
#[derive(Clone, Copy, Debug, PartialEq, Eq, Structural)]
pub struct DataTypeSet {
    pub log: bool,
    pub metric: bool,
    pub trace: bool,
}

impl DataTypeSet {
    /// A set carrying every class.
    pub fn all() -> (r: Self)
        ensures
            r == (DataTypeSet { log: true, metric: true, trace: true }),
    {
        DataTypeSet { log: true, metric: true, trace: true }
    }

    /// Whether the two sets share a class.
    pub open spec fn spec_intersects(&self, other: &DataTypeSet) -> bool {
        (self.log && other.log) || (self.metric && other.metric) || (self.trace && other.trace)
    }

    pub fn intersects(&self, other: &DataTypeSet) -> (r: bool)
        ensures
            r == self.spec_intersects(other),
    {
        (self.log && other.log) || (self.metric && other.metric) || (self.trace && other.trace)
    }
}

/// One output stream a component declares: the default stream (`port` is
/// `None`) or a named port, with the event classes it emits.
pub struct Output {
    pub port: Option<String>,
    pub ty: DataTypeSet,
}

impl Output {
    pub fn new_default(ty: DataTypeSet) -> (r: Self)
        ensures
            r.port is None,
            r.ty == ty,
    {
        Output { port: None, ty }
    }

    pub fn new_port(port: String, ty: DataTypeSet) -> (r: Self)
        ensures
            r.port == Some(port),
            r.ty == ty,
    {
        Output { port: Some(port), ty }
    }
}

/// An HTTP proxy configuration. `no_proxy` lists hosts excluded from
/// proxying, matched by exact entry.
pub struct ProxyConfig {
    pub enabled: bool,
    pub http: Option<String>,
    pub https: Option<String>,
    pub no_proxy: Vec<String>,
}

impl ProxyConfig {
    /// Whether `host` is excluded from proxying: it equals one of the
    /// `no_proxy` entries.
    pub fn matches(&self, host: &String) -> (r: bool)
        ensures
            r == exists|i: int| 0 <= i < self.no_proxy@.len() && self.no_proxy@[i]@ == host@,
    {
        let n = self.no_proxy.len();
        let mut i: usize = 0;
        while i < n
            invariant
                0 <= i <= n,
                n == self.no_proxy@.len(),
                forall|j: int| 0 <= j < i ==> self.no_proxy@[j]@ != host@,
            decreases n - i,
        {
            if self.no_proxy[i] == *host {
                return true;
            }
            i += 1;
        }
        false
    }
}

impl Default for ProxyConfig {
    fn default() -> (r: Self)
        ensures
            r.enabled == true,
            r.http is None,
            r.https is None,
            r.no_proxy@.len() == 0,
    {
        ProxyConfig { enabled: true, http: None, https: None, no_proxy: Vec::new() }
    }
}

/// End-to-end acknowledgement policy: unset means "use the default".
#[derive(Clone, Copy, Debug, PartialEq, Eq, Structural)]
pub struct AcknowledgementsConfig {
    pub enabled: Option<bool>,
}

impl AcknowledgementsConfig {
    /// The policy with `other` as fallback where this one is unset.
    pub fn merge_default(&self, other: &AcknowledgementsConfig) -> (r: AcknowledgementsConfig)
        ensures
            r.enabled == if self.enabled is Some {
                self.enabled
            } else {
                other.enabled
            },
    {
        match self.enabled {
            Some(b) => AcknowledgementsConfig { enabled: Some(b) },
            None => AcknowledgementsConfig { enabled: other.enabled },
        }
    }

    /// Whether acknowledgements are on; unset counts as off.
    pub fn enabled(&self) -> (r: bool)
        ensures
            r == (self.enabled == Some(true)),
    {
        match self.enabled {
            Some(b) => b,
            None => false,
        }
    }
}

impl Default for AcknowledgementsConfig {
    fn default() -> (r: Self)
        ensures
            r.enabled is None,
    {
        AcknowledgementsConfig { enabled: None }
    }
}

/// The event-field names a pipeline writes its standard fields under.
pub struct LogSchema {
    pub host_key: String,
    pub message_key: String,
    pub timestamp_key: String,
}

impl LogSchema {
    pub fn new(host_key: String, message_key: String, timestamp_key: String) -> (r: Self)
        ensures
            r.host_key@ == host_key@,
            r.message_key@ == message_key@,
            r.timestamp_key@ == timestamp_key@,
    {
        LogSchema { host_key, message_key, timestamp_key }
    }

    pub fn host_key(&self) -> (r: &String)
        ensures
            r@ == self.host_key@,
    {
        &self.host_key
    }

    pub fn message_key(&self) -> (r: &String)
        ensures
            r@ == self.message_key@,
    {
        &self.message_key
    }

    pub fn timestamp_key(&self) -> (r: &String)
        ensures
            r@ == self.timestamp_key@,
    {
        &self.timestamp_key
    }
}

impl Default for LogSchema {
    fn default() -> (r: Self)
        ensures
            r.host_key@ == "host"@,
            r.message_key@ == "message"@,
            r.timestamp_key@ == "timestamp"@,
    {
        LogSchema {
            host_key: "host".to_owned(),
            message_key: "message".to_owned(),
            timestamp_key: "timestamp".to_owned(),
        }
    }
}

/// Settings that apply to the whole pipeline unless a component overrides
/// them.
pub struct GlobalOptions {
    pub data_dir: Option<String>,
    pub log_schema: LogSchema,
    pub acknowledgements: AcknowledgementsConfig,
    pub proxy: ProxyConfig,
    pub timezone: Option<String>,
}

impl Default for GlobalOptions {
    fn default() -> (r: Self)
        ensures
            r.data_dir matches Some(d) && d@ == "/var/lib/vector"@,
            r.log_schema.host_key@ == "host"@,
            r.log_schema.message_key@ == "message"@,
            r.log_schema.timestamp_key@ == "timestamp"@,
            r.acknowledgements.enabled is None,
            r.timezone is None,
    {
        GlobalOptions {
            data_dir: Some("/var/lib/vector".to_owned()),
            log_schema: Default::default(),
            acknowledgements: Default::default(),
            proxy: Default::default(),
            timezone: None,
        }
    }
}

/// The capability record of a source implementation.
pub struct SourceInner {
    pub kind_name: String,
    pub outputs: Vec<Output>,
    pub resources: Vec<Resource>,
    pub can_acknowledge: bool,
}

/// A configured source: its capability record plus common attributes.
/// `sink_acknowledgements` is false until the acknowledgement propagator
/// marks the source.
pub struct SourceOuter {
    pub inner: SourceInner,
    pub proxy: ProxyConfig,
    pub sink_acknowledgements: bool,
}

impl SourceOuter {
    pub fn new(inner: SourceInner) -> (r: Self)
        ensures
            r.inner == inner,
            r.sink_acknowledgements == false,
    {
        SourceOuter { inner, proxy: Default::default(), sink_acknowledgements: false }
    }
}

/// What a transform expands to, when it is a macro component: an ordered
/// sub-topology of inner transforms. The first inner transform is the
/// entry (it receives the logical transform's inputs and test insertions);
/// the last is the exit (references to the logical name resolve to it).
pub struct InnerTopology {
    pub inner: Vec<(String, InnerTransform)>,
}

/// One inner transform of an expansion. `expandable` marks an inner
/// transform that is itself a macro, which the expansion phase rejects.
pub struct InnerTransform {
    pub inputs: Vec<OutputId>,
    pub input_type: DataTypeSet,
    pub outputs: Vec<Output>,
    pub expandable: bool,
}

/// The capability record of a transform implementation. `expansion` is
/// set when the transform is a macro that expands into a sub-topology.
pub struct TransformInner {
    pub kind_name: String,
    pub input_type: DataTypeSet,
    pub outputs: Vec<Output>,
    pub expansion: Option<InnerTopology>,
}

/// A configured transform: its capability record plus its inputs.
pub struct TransformOuter {
    pub inner: TransformInner,
    pub inputs: Vec<OutputId>,
}

/// Per-sink healthcheck settings.
#[derive(Clone, Copy, Debug, PartialEq, Eq, Structural)]
pub struct SinkHealthcheckOptions {
    pub enabled: bool,
}

impl Default for SinkHealthcheckOptions {
    fn default() -> (r: Self)
        ensures
            r.enabled == true,
    {
        SinkHealthcheckOptions { enabled: true }
    }
}

/// The capability record of a sink implementation.
pub struct SinkInner {
    pub kind_name: String,
    pub input_type: DataTypeSet,
    pub resources: Vec<Resource>,
}

/// A configured sink: its capability record plus common attributes.
pub struct SinkOuter {
    pub inner: SinkInner,
    pub inputs: Vec<OutputId>,
    pub healthcheck: SinkHealthcheckOptions,
    pub buffer: Option<String>,
    pub acknowledgements: AcknowledgementsConfig,
    pub proxy: ProxyConfig,
}

impl SinkOuter {
    pub fn new(inner: SinkInner, inputs: Vec<OutputId>) -> (r: Self)
        ensures
            r.inner == inner,
            r.inputs == inputs,
            r.acknowledgements.enabled is None,
    {
        SinkOuter {
            inner,
            inputs,
            healthcheck: Default::default(),
            buffer: None,
            acknowledgements: Default::default(),
            proxy: Default::default(),
        }
    }
}

/// The capability record of an enrichment table implementation.
pub struct EnrichmentTableOuter {
    pub kind_name: String,
    pub resources: Vec<Resource>,
}

/// A secret backend declaration; resolution happens outside the compiler.
pub struct SecretBackend {
    pub kind_name: String,
}

/// The wire formats a fragment can be written in, recognized by file
/// extension.
#[derive(Clone, Copy, Debug, PartialEq, Eq, Structural)]
pub enum Format {
    Toml,
    Yaml,
    Json,
}

/// The position right after the last `.` of `s`, if any.
pub open spec fn after_last_dot(s: Seq<char>, i: int) -> Option<int>
    decreases i,
{
    if i <= 0 {
        None
    } else if s[i - 1] == '.' {
        Some(i)
    } else {
        after_last_dot(s, i - 1)
    }
}

/// The format a file extension names.
pub open spec fn spec_format_of_ext(ext: Seq<char>) -> Option<Format> {
    if ext == "toml"@ {
        Some(Format::Toml)
    } else if ext == "yaml"@ || ext == "yml"@ {
        Some(Format::Yaml)
    } else if ext == "json"@ {
        Some(Format::Json)
    } else {
        None
    }
}

/// The format a path's extension names, if recognized.
pub open spec fn spec_format_of_path(path: Seq<char>) -> Option<Format> {
    match after_last_dot(path, path.len() as int) {
        None => None,
        Some(p) => spec_format_of_ext(path.skip(p)),
    }
}

impl Format {
    /// Recognize a fragment's format from its path's extension.
    pub fn from_path(path: &str) -> (r: Option<Format>)
        ensures
            r == spec_format_of_path(path@),
    {
        let n = path.unicode_len();
        let mut i: usize = n;
        while i > 0
            invariant
                0 <= i <= n,
                n == path@.len(),
                after_last_dot(path@, n as int) == after_last_dot(path@, i as int),
            decreases i,
        {
            if path.get_char(i - 1) == '.' {
                let ext = path.substring_char(i, n);
                let r = if crate::graph::str_eq(ext, "toml") {
                    Some(Format::Toml)
                } else if crate::graph::str_eq(ext, "yaml") || crate::graph::str_eq(ext, "yml") {
                    Some(Format::Yaml)
                } else if crate::graph::str_eq(ext, "json") {
                    Some(Format::Json)
                } else {
                    None
                };
                proof {
                    assert(ext@ =~= path@.skip(i as int));
                }
                return r;
            }
            i -= 1;
        }
        None
    }
}

/// Where one unit of configuration comes from: a file, with an optional
/// explicit format hint, or a directory whose readable files are
/// enumerated. Paths are carried as plain text; reading them is the
/// caller's concern.
pub enum ConfigPath {
    File(String, Option<Format>),
    Dir(String),
}

impl ConfigPath {
    /// The path, whichever variant holds it.
    pub fn path(&self) -> (r: &String)
        ensures
            match self {
                ConfigPath::File(p, _) => r@ == p@,
                ConfigPath::Dir(p) => r@ == p@,
            },
    {
        match self {
            ConfigPath::File(p, _) => p,
            ConfigPath::Dir(p) => p,
        }
    }

    /// The path when this names a directory, and nothing otherwise.
    pub fn as_dir(&self) -> (r: Option<&String>)
        ensures
            match self {
                ConfigPath::Dir(p) => r matches Some(q) && q@ == p@,
                _ => r is None,
            },
    {
        match self {
            ConfigPath::Dir(path) => Some(path),
            _ => None,
        }
    }
}

/// The decision of an init-once handle, such as the process-wide log
/// schema: the first initialization proceeds; a later one is refused
/// exactly when the caller asked to deny re-initialization.
pub fn init_once_decision(already_set: bool, deny_if_set: bool) -> (r: Result<bool, ()>)
    ensures
        r matches Ok(do_init) ==> do_init == !already_set,
        r is Err <==> already_set && deny_if_set,
{
    if already_set {
        if deny_if_set {
            Err(())
        } else {
            Ok(false)
        }
    } else {
        Ok(true)
    }
}

/// Healthcheck options that apply to every sink unless overridden.
#[derive(Clone, Copy, Debug, PartialEq, Eq, Structural)]
pub struct HealthcheckOptions {
    pub enabled: bool,
    pub require_healthy: bool,
}

impl HealthcheckOptions {
    /// Apply a command-line override: `Some` replaces `require_healthy`,
    /// `None` leaves it as configured.
    pub fn set_require_healthy(&mut self, require_healthy: Option<bool>)
        ensures
            final(self).enabled == old(self).enabled,
            final(self).require_healthy == match require_healthy {
                Some(b) => b,
                None => old(self).require_healthy,
            },
    {
        if let Some(require_healthy) = require_healthy {
            self.require_healthy = require_healthy;
        }
    }

    /// Fold another fragment's options in: enabling requires every
    /// fragment to enable, requiring health holds if any fragment asks.
    pub fn merge(&mut self, other: Self)
        ensures
            final(self).enabled == (old(self).enabled && other.enabled),
            final(self).require_healthy == (old(self).require_healthy || other.require_healthy),
    {
        self.enabled = self.enabled && other.enabled;
        self.require_healthy = self.require_healthy || other.require_healthy;
    }
}

impl Default for HealthcheckOptions {
    fn default() -> (r: Self)
        ensures
            r.enabled == true,
            r.require_healthy == false,
    {
        HealthcheckOptions { enabled: true, require_healthy: false }
    }
}

} // verus!
