//! Configuration: one filter section per event category plus the logging
//! settings. It is built once at startup and only read afterwards.
use vstd::prelude::*;

verus! {

pub struct LoggingConfig {
    pub level: String,
    pub encoding: String,
    pub format: String,
    pub datefmt: String,
}

/// Geolocation enrichment settings of one category.
pub struct GeoIP {
    pub enabled: bool,
    pub filepath: String,
    pub keys: Vec<String>,
}

/// The filter configuration of one event category.
pub struct Event {
    pub ignore_fields: Vec<String>,
    pub ignore_risks: Vec<String>,
    pub flow_event_name: Vec<String>,
    pub geoip: Option<GeoIP>,
    pub filename: String,
}

pub struct Config {
    pub logging: LoggingConfig,
    pub flow_event: Event,
    pub daemon_event: Event,
    pub packet_event: Event,
    pub error_event: Event,
}

/// The key texts of a list of configured names.
pub open spec fn key_texts(names: Seq<String>) -> Seq<Seq<char>> {
    names.map_values(|s: String| s@)
}

impl Event {
    /// Whether geolocation enrichment is switched on for this category.
    pub open spec fn geo_enabled(&self) -> bool {
        match self.geoip {
            Some(g) => g.enabled,
            None => false,
        }
    }

    /// A section that strips nothing, has enrichment off and writes to `filename`.
    pub fn plain(filename: String) -> (r: Event)
        ensures
            r.ignore_fields@.len() == 0,
            r.ignore_risks@.len() == 0,
            r.flow_event_name@.len() == 0,
            r.geoip is None,
            r.filename == filename,
    {
        Event {
            ignore_fields: Vec::new(),
            ignore_risks: Vec::new(),
            flow_event_name: Vec::new(),
            geoip: None,
            filename,
        }
    }

    /// Whether enrichment is switched on for this category.
    pub fn geo_enrichment(&self) -> (r: bool)
        ensures
            r == self.geo_enabled(),
    {
        match &self.geoip {
            Some(g) => g.enabled,
            None => false,
        }
    }
}

impl Config {
    pub fn new(
        logging: LoggingConfig,
        flow_event: Event,
        daemon_event: Event,
        packet_event: Event,
        error_event: Event,
    ) -> (r: Config)
        ensures
            r.logging == logging,
            r.flow_event == flow_event,
            r.daemon_event == daemon_event,
            r.packet_event == packet_event,
            r.error_event == error_event,
    {
        Config { logging, flow_event, daemon_event, packet_event, error_event }
    }

    /// The configuration used when no file is given: plain-text info logging,
    /// nothing stripped, enrichment off, and a fixed log file per category.
    pub fn defaults() -> (r: Config)
        ensures
            r.logging.level@ == "info"@,
            r.logging.encoding@ == "utf-8"@,
            r.logging.format@ == "plain"@,
            r.logging.datefmt@ == "%Y-%m-%d %H:%M:%S"@,
            r.flow_event.filename@ == "flow.log"@,
            r.daemon_event.filename@ == "daemon.log"@,
            r.packet_event.filename@ == "packet.log"@,
            r.error_event.filename@ == "error.log"@,
            r.flow_event.ignore_fields@.len() == 0 && r.flow_event.ignore_risks@.len() == 0
                && r.flow_event.flow_event_name@.len() == 0 && r.flow_event.geoip is None,
            r.daemon_event.ignore_fields@.len() == 0 && r.daemon_event.ignore_risks@.len() == 0
                && r.daemon_event.flow_event_name@.len() == 0 && r.daemon_event.geoip is None,
            r.packet_event.ignore_fields@.len() == 0 && r.packet_event.ignore_risks@.len() == 0
                && r.packet_event.flow_event_name@.len() == 0 && r.packet_event.geoip is None,
            r.error_event.ignore_fields@.len() == 0 && r.error_event.ignore_risks@.len() == 0
                && r.error_event.flow_event_name@.len() == 0 && r.error_event.geoip is None,
    {
        let logging = LoggingConfig {
            level: String::from_str("info"),
            encoding: String::from_str("utf-8"),
            format: String::from_str("plain"),
            datefmt: String::from_str("%Y-%m-%d %H:%M:%S"),
        };
        Config::new(
            logging,
            Event::plain(String::from_str("flow.log")),
            Event::plain(String::from_str("daemon.log")),
            Event::plain(String::from_str("packet.log")),
            Event::plain(String::from_str("error.log")),
        )
    }
}

} // verus!
