//! The record filter: strips configured keys from a record's top level, then
//! adds the geolocation of its address when one was found.
use crate::config::{key_texts, Event};
use crate::json::{insert_field, object_fields, remove_field, string_field, text_in};
use serde_json::Value;
use vstd::prelude::*;

verus! {

/// The key of the field that holds a record's address.
pub open spec fn ip_key() -> Seq<char> {
    "ip"@
}

/// The key of the field that enrichment adds.
pub open spec fn geoip_key() -> Seq<char> {
    "geoip"@
}

/// `fields` without the keys listed in `keys`.
pub open spec fn without(fields: Map<Seq<char>, Value>, keys: Seq<Seq<char>>) -> Map<
    Seq<char>,
    Value,
> {
    Map::new(|k: Seq<char>| fields.contains_key(k) && !keys.contains(k), |k: Seq<char>| fields[k])
}

/// `fields` with the geolocation `geo` added, when there is one and the record
/// has a string address field; `fields` unchanged otherwise.
pub open spec fn enriched(fields: Map<Seq<char>, Value>, geo: Option<Value>) -> Map<
    Seq<char>,
    Value,
> {
    match geo {
        Some(g) => if text_in(fields, ip_key()) is Some {
            fields.insert(geoip_key(), g)
        } else {
            fields
        },
        None => fields,
    }
}

/// The fields of a record with risks, then fields, then flow event names removed.
pub open spec fn stripped(fields: Map<Seq<char>, Value>, config: Event) -> Map<Seq<char>, Value> {
    without(
        without(
            without(fields, key_texts(config.ignore_risks@)),
            key_texts(config.ignore_fields@),
        ),
        key_texts(config.flow_event_name@),
    )
}

/// The fields of a filtered record: the configured keys removed, then the
/// geolocation added.
pub open spec fn filtered(fields: Map<Seq<char>, Value>, config: Event, geo: Option<Value>) -> Map<
    Seq<char>,
    Value,
> {
    enriched(stripped(fields, config), geo)
}

/// The address whose location enrichment needs for `json`: the string `ip` field
/// that is left after the configured keys are removed, where the section has
/// enrichment switched on; none otherwise.
pub open spec fn address_to_look_up(json: Value, config: Event) -> Option<Seq<char>> {
    if config.geo_enabled() {
        match object_fields(json) {
            Some(m) => text_in(stripped(m, config), ip_key()),
            None => None,
        }
    } else {
        None
    }
}

/// Removes each key of `keys` from the top level of `json`.
fn remove_keys(json: &mut Value, keys: &[String])
    ensures
        match object_fields(*old(json)) {
            Some(m) => object_fields(*final(json)) == Some(without(m, key_texts(keys@))),
            None => *final(json) == *old(json),
        },
{
    let ghost start = *json;
    let mut i: usize = 0;
    while i < keys.len()
        invariant
            i <= keys@.len(),
            match object_fields(start) {
                Some(m) => object_fields(*json) == Some(
                    without(m, key_texts(keys@.subrange(0, i as int))),
                ),
                None => *json == start,
            },
        decreases keys@.len() - i,
    {
        remove_field(json, keys[i].as_str());
        proof {
            let done = key_texts(keys@.subrange(0, i as int));
            let next = key_texts(keys@.subrange(0, i + 1));
            assert(next =~= done.push(keys@[i as int]@));
            if let Some(m) = object_fields(start) {
                assert forall|k: Seq<char>| next.contains(k) <==> (done.contains(k) || k
                    == keys@[i as int]@) by {
                    if k == keys@[i as int]@ {
                        assert(next[i as int] == k);
                    }
                    if done.contains(k) {
                        let j = choose|j: int| 0 <= j < done.len() && done[j] == k;
                        assert(next[j] == k);
                    }
                    if next.contains(k) {
                        let j = choose|j: int| 0 <= j < next.len() && next[j] == k;
                        if j < i {
                            assert(done[j] == k);
                        }
                    }
                }
                assert(without(m, done).remove(keys@[i as int]@) =~= without(m, next));
            }
        }
        i = i + 1;
    }
    assert(keys@.subrange(0, keys@.len() as int) =~= keys@);
}

/// Removes the configured risk keys from the record's top level.
pub fn remove_risks(json: Value, ignore_risks: &[String]) -> (r: Value)
    ensures
        match object_fields(json) {
            Some(m) => object_fields(r) == Some(without(m, key_texts(ignore_risks@))),
            None => r == json,
        },
{
    let mut json = json;
    remove_keys(&mut json, ignore_risks);
    json
}

/// Removes the configured field names from the record's top level.
pub fn remove_attributes(json: Value, ignore_fields: &[String]) -> (r: Value)
    ensures
        match object_fields(json) {
            Some(m) => object_fields(r) == Some(without(m, key_texts(ignore_fields@))),
            None => r == json,
        },
{
    let mut json = json;
    remove_keys(&mut json, ignore_fields);
    json
}

/// Removes the configured flow event names, as keys, from the record's top level.
pub fn remove_event_types(json: Value, ignore_event_types: &[String]) -> (r: Value)
    ensures
        match object_fields(json) {
            Some(m) => object_fields(r) == Some(without(m, key_texts(ignore_event_types@))),
            None => r == json,
        },
{
    let mut json = json;
    remove_keys(&mut json, ignore_event_types);
    json
}

/// The address to look up for enrichment: the record's string `ip` field.
pub fn geoip_address(json: &Value) -> (r: Option<String>)
    ensures
        match r {
            Some(s) => crate::json::text_field(*json, ip_key()) == Some(s@),
            None => crate::json::text_field(*json, ip_key()) is None,
        },
{
    string_field(json, "ip")
}

/// Whether `key` is one of `keys`.
fn lists_key(keys: &[String], key: &String) -> (r: bool)
    ensures
        r == key_texts(keys@).contains(key@),
{
    let mut i: usize = 0;
    while i < keys.len()
        invariant
            i <= keys@.len(),
            forall|j: int| 0 <= j < i ==> keys@[j]@ != key@,
        decreases keys@.len() - i,
    {
        if keys[i] == *key {
            assert(key_texts(keys@)[i as int] == key@);
            return true;
        }
        i = i + 1;
    }
    proof {
        if key_texts(keys@).contains(key@) {
            let j = choose|j: int| 0 <= j < key_texts(keys@).len() && key_texts(keys@)[j] == key@;
            assert(keys@[j]@ == key@);
        }
    }
    false
}

/// The address to look up for a record of a section: its `ip` string, unless
/// enrichment is off for the section or the filter removes that field.
pub fn lookup_address(json: &Value, event_config: &Event) -> (r: Option<String>)
    ensures
        match r {
            Some(s) => address_to_look_up(*json, *event_config) == Some(s@),
            None => address_to_look_up(*json, *event_config) is None,
        },
{
    if !event_config.geo_enrichment() {
        return None;
    }
    let ip = String::from_str("ip");
    if lists_key(event_config.ignore_risks.as_slice(), &ip) || lists_key(
        event_config.ignore_fields.as_slice(),
        &ip,
    ) || lists_key(event_config.flow_event_name.as_slice(), &ip) {
        proof {
            if let Some(m) = object_fields(*json) {
                assert(!stripped(m, *event_config).contains_key(ip_key()));
            }
        }
        return None;
    }
    string_field(json, "ip")
}

/// Whether enrichment is still on. A database that fails is reported once and
/// switches enrichment off for the rest of the run.
pub struct Enrichment {
    pub active: bool,
}

impl Enrichment {
    pub fn new(active: bool) -> (r: Enrichment)
        ensures
            r.active == active,
    {
        Enrichment { active }
    }

    /// Records a database failure; returns whether it is the first one, which
    /// is the one to report.
    pub fn database_failed(&mut self) -> (first: bool)
        ensures
            first == old(self).active,
            !final(self).active,
    {
        let first = self.active;
        self.active = false;
        first
    }
}

/// Adds `geo`, the geolocation found for the record's address, as its `geoip`
/// field. Nothing is added when no location was found or the record has no
/// string address field.
pub fn add_geoip_info(json: Value, geo: Option<Value>) -> (r: Value)
    ensures
        match object_fields(json) {
            Some(m) => object_fields(r) == Some(enriched(m, geo)),
            None => r == json,
        },
{
    let mut json = json;
    match geo {
        Some(g) => {
            let has_ip = string_field(&json, "ip");
            if has_ip.is_some() {
                insert_field(&mut json, String::from_str("geoip"), g);
            }
        },
        None => {},
    }
    json
}

/// Filters a record with the configuration of its category: risk keys, field
/// names and flow event names are removed in that order, then `geoip`, the
/// location found for the record's address (if enrichment looked one up), is
/// added. A record that is not an object is returned as it is.
pub fn process(json: Value, geoip: Option<Value>, event_config: &Event) -> (r: Value)
    ensures
        match object_fields(json) {
            Some(m) => object_fields(r) == Some(filtered(m, *event_config, geoip)),
            None => r == json,
        },
{
    let json = remove_risks(json, event_config.ignore_risks.as_slice());
    let json = remove_attributes(json, event_config.ignore_fields.as_slice());
    let json = remove_event_types(json, event_config.flow_event_name.as_slice());
    add_geoip_info(json, geoip)
}

/// Removing keys that a record does not have leaves it as it is.
pub proof fn lemma_remove_absent(fields: Map<Seq<char>, Value>, keys: Seq<Seq<char>>)
    requires
        forall|i: int| 0 <= i < keys.len() ==> !fields.contains_key(#[trigger] keys[i]),
    ensures
        without(fields, keys) == fields,
{
    assert forall|k: Seq<char>| fields.contains_key(k) implies !keys.contains(k) by {
        if keys.contains(k) {
            let i = choose|i: int| 0 <= i < keys.len() && keys[i] == k;
            assert(!fields.contains_key(keys[i]));
        }
    }
    assert(without(fields, keys) =~= fields);
}

/// Keys absent from a record do not matter: two configurations whose lists
/// agree on the record's own keys filter it alike.
pub proof fn lemma_absent_keys_irrelevant(
    fields: Map<Seq<char>, Value>,
    c1: Event,
    c2: Event,
    geo: Option<Value>,
)
    requires
        forall|k: Seq<char>|
            #![auto]
            fields.contains_key(k) ==> (key_texts(c1.ignore_risks@).contains(k) <==> key_texts(
                c2.ignore_risks@,
            ).contains(k)) && (key_texts(c1.ignore_fields@).contains(k) <==> key_texts(
                c2.ignore_fields@,
            ).contains(k)) && (key_texts(c1.flow_event_name@).contains(k) <==> key_texts(
                c2.flow_event_name@,
            ).contains(k)),
    ensures
        filtered(fields, c1, geo) == filtered(fields, c2, geo),
{
    assert(stripped(fields, c1) =~= stripped(fields, c2));
}

/// Removing a set of keys twice removes nothing more the second time.
pub proof fn lemma_without_twice(fields: Map<Seq<char>, Value>, keys: Seq<Seq<char>>)
    ensures
        without(without(fields, keys), keys) == without(fields, keys),
{
    assert(without(without(fields, keys), keys) =~= without(fields, keys));
}

/// Filtering is idempotent: filtering an already filtered record with the same
/// configuration and the same location gives the same fields.
pub proof fn lemma_filter_idempotent(
    fields: Map<Seq<char>, Value>,
    config: Event,
    geo: Option<Value>,
)
    ensures
        filtered(filtered(fields, config, geo), config, geo) == filtered(fields, config, geo),
{
    reveal_strlit("ip");
    reveal_strlit("geoip");
    let risks = key_texts(config.ignore_risks@);
    let names = key_texts(config.ignore_fields@);
    let events = key_texts(config.flow_event_name@);
    let base = without(without(without(fields, risks), names), events);
    let once = enriched(base, geo);
    let again = without(without(without(once, risks), names), events);
    assert(ip_key().len() == 2 && geoip_key().len() == 5);
    match geo {
        Some(g) => {
            if text_in(base, ip_key()) is Some {
                assert(again =~= base.insert(geoip_key(), g) || again =~= base);
                assert(again.contains_key(ip_key()) && again[ip_key()] == base[ip_key()]);
                assert(enriched(again, geo) =~= once);
            } else {
                assert(again =~= base);
            }
        },
        None => {
            assert(again =~= base);
        },
    }
}

} // verus!
