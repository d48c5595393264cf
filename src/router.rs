//! Classification of decoded records by their `event_type` field, and the
//! selection of the filter configuration that applies to each category.
use crate::config::{Config, Event};
use crate::filter::{filtered, process};
use crate::json::{object_fields, string_field, text_field};
use serde_json::Value;
use vstd::prelude::*;

verus! {

/// The category of an event record.
#[derive(Debug, Clone, Copy, PartialEq, Eq, Structural)]
pub enum HeiDPIEventType {
    PACKET,
    FLOW,
    DAEMON,
    ERROR,
}

/// A decoded record together with its category.
pub struct HeiDPITcpstream {
    pub event_type: HeiDPIEventType,
    pub data: Value,
}

/// The key of the field that names a record's category.
pub open spec fn event_type_key() -> Seq<char> {
    "event_type"@
}

/// The category a name stands for; any other name is unknown.
pub open spec fn category_named(name: Seq<char>) -> Option<HeiDPIEventType> {
    if name == "flow"@ {
        Some(HeiDPIEventType::FLOW)
    } else if name == "daemon"@ {
        Some(HeiDPIEventType::DAEMON)
    } else if name == "packet"@ {
        Some(HeiDPIEventType::PACKET)
    } else if name == "error"@ {
        Some(HeiDPIEventType::ERROR)
    } else {
        None
    }
}

/// The category of a record: the one its `event_type` string names, if any.
pub open spec fn category_of(record: Value) -> Option<HeiDPIEventType> {
    match text_field(record, event_type_key()) {
        Some(name) => category_named(name),
        None => None,
    }
}

/// The configuration section that applies to a category.
pub open spec fn section(config: Config, t: HeiDPIEventType) -> Event {
    match t {
        HeiDPIEventType::FLOW => config.flow_event,
        HeiDPIEventType::DAEMON => config.daemon_event,
        HeiDPIEventType::PACKET => config.packet_event,
        HeiDPIEventType::ERROR => config.error_event,
    }
}

impl HeiDPIEventType {
    /// The category named `name`, or `None` for a name that is not one.
    pub fn from_name(name: &String) -> (r: Option<HeiDPIEventType>)
        ensures
            r == category_named(name@),
    {
        if *name == String::from_str("flow") {
            Some(HeiDPIEventType::FLOW)
        } else if *name == String::from_str("daemon") {
            Some(HeiDPIEventType::DAEMON)
        } else if *name == String::from_str("packet") {
            Some(HeiDPIEventType::PACKET)
        } else if *name == String::from_str("error") {
            Some(HeiDPIEventType::ERROR)
        } else {
            None
        }
    }
}

/// The category of a record; `None` when its `event_type` is absent, not a
/// string, or names no category.
pub fn classify(record: &Value) -> (r: Option<HeiDPIEventType>)
    ensures
        r == category_of(*record),
{
    match string_field(record, "event_type") {
        Some(name) => HeiDPIEventType::from_name(&name),
        None => None,
    }
}

/// Pairs a record with its category; a record of no known category is dropped.
pub fn route(record: Value) -> (r: Option<HeiDPITcpstream>)
    ensures
        r is None <==> category_of(record) is None,
        r matches Some(e) ==> category_of(record) == Some(e.event_type) && e.data == record,
{
    match classify(&record) {
        Some(t) => Some(HeiDPITcpstream { event_type: t, data: record }),
        None => None,
    }
}

/// The categories that are to be written.
pub struct CategorySet {
    pub flow: bool,
    pub daemon: bool,
    pub packet: bool,
    pub error: bool,
}

impl CategorySet {
    pub open spec fn has(&self, t: HeiDPIEventType) -> bool {
        match t {
            HeiDPIEventType::FLOW => self.flow,
            HeiDPIEventType::DAEMON => self.daemon,
            HeiDPIEventType::PACKET => self.packet,
            HeiDPIEventType::ERROR => self.error,
        }
    }

    pub fn allows(&self, t: HeiDPIEventType) -> (r: bool)
        ensures
            r == self.has(t),
    {
        match t {
            HeiDPIEventType::FLOW => self.flow,
            HeiDPIEventType::DAEMON => self.daemon,
            HeiDPIEventType::PACKET => self.packet,
            HeiDPIEventType::ERROR => self.error,
        }
    }
}

/// Routes a record and keeps it only when its category is one to be written.
pub fn route_enabled(record: Value, enabled: &CategorySet) -> (r: Option<HeiDPITcpstream>)
    ensures
        r is Some <==> (category_of(record) matches Some(t) && enabled.has(t)),
        r matches Some(e) ==> category_of(record) == Some(e.event_type) && e.data == record,
{
    match route(record) {
        Some(e) => if enabled.allows(e.event_type) {
            Some(e)
        } else {
            None
        },
        None => None,
    }
}

impl Config {
    /// The configuration section of a category.
    pub fn event_for(&self, t: HeiDPIEventType) -> (r: &Event)
        ensures
            *r == section(*self, t),
    {
        match t {
            HeiDPIEventType::FLOW => &self.flow_event,
            HeiDPIEventType::DAEMON => &self.daemon_event,
            HeiDPIEventType::PACKET => &self.packet_event,
            HeiDPIEventType::ERROR => &self.error_event,
        }
    }
}

/// Filters a routed record with the section of its category. `geo` is the
/// location found for the record's address; it is used only where that
/// section has enrichment switched on.
pub fn dispatch(event: HeiDPITcpstream, config: &Config, geo: Option<Value>) -> (r: Value)
    ensures
        ({
            let cfg = section(*config, event.event_type);
            let g = if cfg.geo_enabled() {
                geo
            } else {
                None
            };
            match object_fields(event.data) {
                Some(m) => object_fields(r) == Some(filtered(m, cfg, g)),
                None => r == event.data,
            }
        }),
{
    let cfg = config.event_for(event.event_type);
    let g = if cfg.geo_enrichment() {
        geo
    } else {
        None
    };
    process(event.data, g, cfg)
}

} // verus!
