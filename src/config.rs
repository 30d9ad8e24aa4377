use vstd::prelude::*;
use crate::error::ConfigError;

verus! {

/// Probabilities are written in millionths: this value stands for one.
pub const PROBABILITY_ONE: u32 = 1_000_000;

/// How a link conditioner degrades traffic.
///
/// `loss_probability` and `jitter_probability` are in millionths;
/// `latency` and `jitter` are in milliseconds.
#[derive(Clone, Copy, Debug, PartialEq, Eq, Structural)]
pub struct LinkConditionerConfig {
    pub loss_probability: u32,
    pub latency: u32,
    pub jitter: u32,
    pub jitter_probability: u32,
}

impl LinkConditionerConfig {
    /// Both probabilities lie in `[0, 1]`.
    pub open spec fn valid(&self) -> bool {
        &&& self.loss_probability <= PROBABILITY_ONE
        &&& self.jitter_probability <= PROBABILITY_ONE
    }

    /// The error that refuses this configuration, when it is not valid.
    pub open spec fn error(&self) -> ConfigError {
        if self.loss_probability > PROBABILITY_ONE {
            ConfigError::LossProbabilityOutOfRange
        } else {
            ConfigError::JitterProbabilityOutOfRange
        }
    }

    /// Whether both probabilities lie in `[0, 1]`.
    pub fn is_valid(&self) -> (r: bool)
        ensures
            r == self.valid(),
    {
        self.loss_probability <= PROBABILITY_ONE && self.jitter_probability <= PROBABILITY_ONE
    }

    /// `Ok` for a valid configuration, else the error that refuses it.
    pub fn check(&self) -> (r: Result<(), ConfigError>)
        ensures
            r is Ok <==> self.valid(),
            r matches Err(e) ==> e == self.error(),
    {
        if self.loss_probability > PROBABILITY_ONE {
            Err(ConfigError::LossProbabilityOutOfRange)
        } else if self.jitter_probability > PROBABILITY_ONE {
            Err(ConfigError::JitterProbabilityOutOfRange)
        } else {
            Ok(())
        }
    }

    /// Builds a configuration, refusing a probability above one.
    pub fn new(loss_probability: u32, latency: u32, jitter: u32, jitter_probability: u32) -> (r:
        Result<LinkConditionerConfig, ConfigError>)
        ensures
            loss_probability > PROBABILITY_ONE ==> r == Err::<LinkConditionerConfig, ConfigError>(
                ConfigError::LossProbabilityOutOfRange,
            ),
            loss_probability <= PROBABILITY_ONE && jitter_probability > PROBABILITY_ONE ==> r
                == Err::<LinkConditionerConfig, ConfigError>(
                ConfigError::JitterProbabilityOutOfRange,
            ),
            loss_probability <= PROBABILITY_ONE && jitter_probability <= PROBABILITY_ONE ==> r
                == Ok::<LinkConditionerConfig, ConfigError>(
                (LinkConditionerConfig { loss_probability, latency, jitter, jitter_probability }),
            ),
    {
        if loss_probability > PROBABILITY_ONE {
            Err(ConfigError::LossProbabilityOutOfRange)
        } else if jitter_probability > PROBABILITY_ONE {
            Err(ConfigError::JitterProbabilityOutOfRange)
        } else {
            Ok(LinkConditionerConfig { loss_probability, latency, jitter, jitter_probability })
        }
    }
}

/// The URL path at which new sessions are requested, unless configured.
pub const DEFAULT_RTC_PATH: &'static str = "new_rtc_session";

/// The path that a configuration holds when none is given.
pub open spec fn default_rtc_path() -> Seq<char> {
    DEFAULT_RTC_PATH@
}

/// Configuration shared by server and client sockets.
#[derive(Clone, Debug)]
pub struct SocketSharedConfig {
    /// Configuration used to simulate network conditions
    pub link_condition_config: Option<LinkConditionerConfig>,
    /// The endpoint URL path to use for initiating new sessions
    pub rtc_endpoint_path: String,
}

impl SocketSharedConfig {
    /// Creates a new SocketSharedConfig; without a path, the default one. A
    /// link configuration with a probability above one is refused.
    pub fn new(link_condition_config: Option<LinkConditionerConfig>, rtc_endpoint_path: Option<
        String,
    >) -> (r: Result<SocketSharedConfig, ConfigError>)
        ensures
            link_condition_config matches Some(c) ==> (r is Err <==> !c.valid()),
            link_condition_config matches Some(c) ==> (r matches Err(e) ==> e == c.error()),
            link_condition_config is None ==> r is Ok,
            r matches Ok(v) ==> v.link_condition_config == link_condition_config,
            r matches Ok(v) ==> (rtc_endpoint_path matches Some(p) ==> v.rtc_endpoint_path@ == p@),
            r matches Ok(v) ==> (rtc_endpoint_path is None ==> v.rtc_endpoint_path@
                == default_rtc_path()),
    {
        if let Some(c) = link_condition_config {
            c.check()?;
        }
        let endpoint_path = match rtc_endpoint_path {
            Some(path) => path,
            None => DEFAULT_RTC_PATH.to_owned(),
        };
        Ok(SocketSharedConfig { link_condition_config, rtc_endpoint_path: endpoint_path })
    }
}

impl Default for SocketSharedConfig {
    /// No link conditioning, and the default path.
    fn default() -> (r: SocketSharedConfig)
        ensures
            r.link_condition_config is None,
            r.rtc_endpoint_path@ == default_rtc_path(),
    {
        SocketSharedConfig { link_condition_config: None, rtc_endpoint_path: DEFAULT_RTC_PATH.to_owned() }
    }
}

/// An IPv4 socket address: the address as a number, first octet highest,
/// and a port.
#[derive(Clone, Copy, Debug, PartialEq, Eq, Structural)]
pub struct SocketAddress {
    pub ip: u32,
    pub port: u16,
}

/// The number of the IPv4 address `a.b.c.d`.
pub open spec fn ipv4(a: u8, b: u8, c: u8, d: u8) -> int {
    a * 0x100_0000 + b * 0x1_0000 + c * 0x100 + d
}

impl SocketAddress {
    /// The address `a.b.c.d:port`.
    pub fn new(a: u8, b: u8, c: u8, d: u8, port: u16) -> (r: SocketAddress)
        ensures
            r.ip == ipv4(a, b, c, d),
            r.port == port,
    {
        let ip: u32 = (a as u32) * 0x100_0000 + (b as u32) * 0x1_0000 + (c as u32) * 0x100 + d as u32;
        SocketAddress { ip, port }
    }

    /// The four octets of the address, first octet first.
    pub fn octets(&self) -> (r: (u8, u8, u8, u8))
        ensures
            ipv4(r.0, r.1, r.2, r.3) == self.ip,
    {
        let a = (self.ip / 0x100_0000) as u8;
        let b = ((self.ip / 0x1_0000) % 0x100) as u8;
        let c = ((self.ip / 0x100) % 0x100) as u8;
        let d = (self.ip % 0x100) as u8;
        proof {
            lemma_octets_recombine(self.ip);
        }
        (a, b, c, d)
    }
}

proof fn lemma_octets_recombine(ip: u32)
    ensures
        ipv4(
            (ip / 0x100_0000) as u8,
            ((ip / 0x1_0000) % 0x100) as u8,
            ((ip / 0x100) % 0x100) as u8,
            (ip % 0x100) as u8,
        ) == ip,
{
}

/// Config used to initialize a server socket.
#[derive(Clone, Debug)]
pub struct ServerSocketConfig {
    /// Address to listen on for the signaling part of session setup
    pub session_listen_addr: SocketAddress,
    /// Address to listen on for data channels
    pub webrtc_listen_addr: SocketAddress,
    /// The public data address to advertise
    pub public_webrtc_addr: SocketAddress,
    /// Config which is shared between client and server
    pub shared: SocketSharedConfig,
}

/// The port on which a server listens for session requests by default.
pub const DEFAULT_SESSION_PORT: u16 = 14191;

/// The port on which a server carries data by default.
pub const DEFAULT_DATA_PORT: u16 = 14192;

impl ServerSocketConfig {
    /// Create a new config which will be used to initialize a server socket.
    pub fn new(
        session_listen_addr: SocketAddress,
        webrtc_listen_addr: SocketAddress,
        public_webrtc_addr: SocketAddress,
        shared: SocketSharedConfig,
    ) -> (r: ServerSocketConfig)
        ensures
            r.session_listen_addr == session_listen_addr,
            r.webrtc_listen_addr == webrtc_listen_addr,
            r.public_webrtc_addr == public_webrtc_addr,
            r.shared == shared,
    {
        ServerSocketConfig { session_listen_addr, webrtc_listen_addr, public_webrtc_addr, shared }
    }
}

impl Default for ServerSocketConfig {
    /// Session requests on 127.0.0.1:14191, data on 127.0.0.1:14192, which is
    /// also the advertised address; default shared settings.
    fn default() -> (r: ServerSocketConfig)
        ensures
            r.session_listen_addr.ip == ipv4(127, 0, 0, 1),
            r.session_listen_addr.port == DEFAULT_SESSION_PORT,
            r.webrtc_listen_addr.ip == ipv4(127, 0, 0, 1),
            r.webrtc_listen_addr.port == DEFAULT_DATA_PORT,
            r.public_webrtc_addr == r.webrtc_listen_addr,
            r.shared.link_condition_config is None,
            r.shared.rtc_endpoint_path@ == default_rtc_path(),
    {
        let data = SocketAddress::new(127, 0, 0, 1, DEFAULT_DATA_PORT);
        ServerSocketConfig::new(
            SocketAddress::new(127, 0, 0, 1, DEFAULT_SESSION_PORT),
            data,
            data,
            SocketSharedConfig::default(),
        )
    }
}

} // verus!
