//! Detection of Cloudflare reverse-proxy endpoints: the decisions, the parsers
//! and the bookkeeping, without the input and output around them.

pub mod bench;
pub mod cache;
pub mod cidr;
pub mod config;
pub mod connector;
pub mod detection;
pub mod detector;
pub mod error;
pub mod export;
pub mod governor;
pub mod headers;
pub mod input;
pub mod location;
pub mod masscan;
pub mod masscan_pipeline;
pub mod model;
pub mod net;
pub mod numeral;
pub mod prefixes;
pub mod probe;
pub mod ratio;
pub mod speedtest;
pub mod text;
pub mod time;

pub use cache::{CacheConfig, FileCache};
pub use cidr::{CidrSource, CloudflareCidrs, CloudflareRanges};
pub use connector::{
    ConnectorConfig, HandshakeType, PinnedClientConfig, PinnedDownload, PinnedHttpResponse, Timing,
};
pub use detector::{AdaptiveConfig, BatchProgress, DetectorConfig, GovernorFeedback};
pub use error::{is_retryable_error, DetectorError, RetryConfig};
pub use governor::{
    classify_resource_error, FdCounter, GovernorSnapshot, MockFdCounter, ResourceGovernor,
    ResourceGovernorConfig, ResourceKind,
};
pub use location::{CfLocation, LocationSource, LocationStore};
pub use masscan::{
    parse_masscan_output, AsnTask, MasscanConfig, MasscanScanner, NetworkInterface, OpenPort,
    ScanMode, ScanPipelineConfig,
};
pub use masscan_pipeline::{
    guess_tls_by_port, MasscanPipeline, PipelineAsnTask, PipelineOptions, PipelineOutput,
    PipelineResult,
};
pub use model::{
    parse_target, BatchResult, BatchTarget, Confidence, DetectionResult, EdgeInfo, Protocol, Target,
};
pub use net::{IpAddr, Ipv4Addr, Ipv6Addr};
pub use probe::ProbeConfig;
pub use speedtest::{SpeedTestConfig, SpeedTestResult};
pub use time::Duration;
