//! Home Assistant MQTT discovery: config topics and payload documents.

use vstd::prelude::*;

use crate::json::{
    merge_members, JsonLeaf, JsonObject, JsonValue, LeafView, Members, ValueView, json_text,
};
use crate::model::{Area, AreaView, Zone, ZoneView};
use crate::text::{decimal, from_chars, push_chars, push_decimal, push_str, to_chars, uppercase, views};

verus! {

/// Panel identity, passed through to all discovery payloads.
pub struct Ctx<'a> {
    pub name: &'a str,
    pub serial: &'a str,
    pub topic_prefix: &'a str,
    pub discovery_prefix: &'a str,
}

/// The texts of a `Ctx`.
pub struct CtxView {
    pub name: Seq<char>,
    pub serial: Seq<char>,
    pub topic_prefix: Seq<char>,
    pub discovery_prefix: Seq<char>,
}

impl<'a> View for Ctx<'a> {
    type V = CtxView;

    open spec fn view(&self) -> CtxView {
        CtxView {
            name: self.name@,
            serial: self.serial@,
            topic_prefix: self.topic_prefix@,
            discovery_prefix: self.discovery_prefix@,
        }
    }
}

// ---------------------------------------------------------------------------
// Specifications
// ---------------------------------------------------------------------------

/// A string member value.
pub open spec fn str_v(s: Seq<char>) -> ValueView {
    ValueView::Leaf(LeafView::Str(s))
}

/// The object that a list of members denotes (what `json!({..})` builds): each member
/// set in turn, a later member of the same name replacing an earlier one.
pub open spec fn object_of(pairs: Members) -> Members {
    merge_members(Seq::empty(), pairs)
}

/// The node id of the panel in discovery topics: `spc_<serial>`.
pub open spec fn node_id_spec(ctx: CtxView) -> Seq<char> {
    "spc_"@ + ctx.serial
}

/// The `device` member shared by all entities of the panel.
pub open spec fn device_info_spec(ctx: CtxView) -> ValueView {
    ValueView::Object(
        seq![
            ("identifiers"@, LeafView::StrList(seq![node_id_spec(ctx)])),
            ("name"@, LeafView::Str(ctx.name)),
            ("manufacturer"@, LeafView::Str("Vanderbilt"@)),
            ("model"@, LeafView::Str(ctx.name)),
            ("serial_number"@, LeafView::Str(ctx.serial)),
        ],
    )
}

/// The availability members shared by all entities of the panel.
pub open spec fn availability_spec(ctx: CtxView) -> Members {
    object_of(
        seq![
            ("availability_topic"@, str_v(ctx.topic_prefix + "/status"@)),
            ("payload_available"@, str_v("online"@)),
            ("payload_not_available"@, str_v("offline"@)),
        ],
    )
}

/// `s` with its first character upper-cased (`char::to_uppercase`).
pub open spec fn capitalize_spec(s: Seq<char>) -> Seq<char> {
    if s.len() == 0 {
        s
    } else {
        uppercase(s[0]) + s.drop_first()
    }
}

pub open spec fn zone_discovery_topic_spec(zone: ZoneView, ctx: CtxView) -> Seq<char> {
    ctx.discovery_prefix + "/binary_sensor/"@ + node_id_spec(ctx) + "/zone_"@ + decimal(
        zone.id as nat,
    ) + "/config"@
}

pub open spec fn area_discovery_topic_spec(area: AreaView, ctx: CtxView) -> Seq<char> {
    ctx.discovery_prefix + "/select/"@ + node_id_spec(ctx) + "/area_"@ + decimal(area.id as nat)
        + "/config"@
}

pub open spec fn system_sensor_discovery_topic_spec(sensor_id: Seq<char>, ctx: CtxView) -> Seq<char> {
    ctx.discovery_prefix + "/binary_sensor/"@ + node_id_spec(ctx) + "/"@ + sensor_id + "/config"@
}

pub open spec fn event_sensor_discovery_topic_spec(ctx: CtxView) -> Seq<char> {
    ctx.discovery_prefix + "/sensor/"@ + node_id_spec(ctx) + "/last_event/config"@
}

pub open spec fn zone_button_discovery_topic_spec(zone: ZoneView, action: Seq<char>, ctx: CtxView) -> Seq<
    char,
> {
    ctx.discovery_prefix + "/button/"@ + node_id_spec(ctx) + "/zone_"@ + decimal(zone.id as nat)
        + "_"@ + action + "/config"@
}

pub open spec fn alert_button_discovery_topic_spec(
    sensor_id: Seq<char>,
    action: Seq<char>,
    ctx: CtxView,
) -> Seq<char> {
    ctx.discovery_prefix + "/button/"@ + node_id_spec(ctx) + "/"@ + sensor_id + "_"@ + action
        + "/config"@
}

/// The display name of a zone entity: its name, or `Zone <id>` when it has none.
pub open spec fn zone_title(zone: ZoneView) -> Seq<char> {
    if zone.name.len() == 0 {
        "Zone "@ + decimal(zone.id as nat)
    } else {
        zone.name
    }
}

/// The display name of an area entity: its name, or `Area <id>` when it has none.
pub open spec fn area_title(area: AreaView) -> Seq<char> {
    if area.name.len() == 0 {
        "Area "@ + decimal(area.id as nat)
    } else {
        area.name
    }
}

pub open spec fn zone_discovery_document(zone: ZoneView, ctx: CtxView) -> Members {
    let id = decimal(zone.id as nat);
    let base = merge_members(
        object_of(
            seq![
                ("name"@, str_v(zone_title(zone))),
                ("unique_id"@, str_v("spc_"@ + ctx.serial + "_zone_"@ + id)),
                ("state_topic"@, str_v(ctx.topic_prefix + "/zone/"@ + id + "/state"@)),
                ("payload_on"@, str_v("ON"@)),
                ("payload_off"@, str_v("OFF"@)),
                ("json_attributes_topic"@, str_v(ctx.topic_prefix + "/zone/"@ + id + "/attributes"@)),
                ("device"@, device_info_spec(ctx)),
            ],
        ),
        availability_spec(ctx),
    );
    if zone.device_class.len() == 0 {
        base
    } else {
        merge_members(base, seq![("device_class"@, str_v(zone.device_class))])
    }
}

pub open spec fn area_discovery_document(area: AreaView, ctx: CtxView) -> Members {
    let id = decimal(area.id as nat);
    merge_members(
        object_of(
            seq![
                ("name"@, str_v(area_title(area))),
                ("unique_id"@, str_v("spc_"@ + ctx.serial + "_area_"@ + id)),
                ("state_topic"@, str_v(ctx.topic_prefix + "/area/"@ + id + "/state"@)),
                ("command_topic"@, str_v(ctx.topic_prefix + "/area/"@ + id + "/set"@)),
                ("options"@, ValueView::Leaf(LeafView::StrList(area.all_options))),
                ("icon"@, str_v("mdi:shield-home"@)),
                ("device"@, device_info_spec(ctx)),
            ],
        ),
        availability_spec(ctx),
    )
}

pub open spec fn system_sensor_discovery_document(
    sensor_id: Seq<char>,
    name: Seq<char>,
    state_topic: Seq<char>,
    ctx: CtxView,
) -> Members {
    merge_members(
        object_of(
            seq![
                ("name"@, str_v(name)),
                ("unique_id"@, str_v("spc_"@ + ctx.serial + "_"@ + sensor_id)),
                ("state_topic"@, str_v(state_topic)),
                ("payload_on"@, str_v("ON"@)),
                ("payload_off"@, str_v("OFF"@)),
                ("device_class"@, str_v("problem"@)),
                ("entity_category"@, str_v("diagnostic"@)),
                ("device"@, device_info_spec(ctx)),
            ],
        ),
        availability_spec(ctx),
    )
}

pub open spec fn event_sensor_discovery_document(ctx: CtxView) -> Members {
    merge_members(
        object_of(
            seq![
                ("name"@, str_v("Last Event"@)),
                ("unique_id"@, str_v("spc_"@ + ctx.serial + "_last_event"@)),
                ("state_topic"@, str_v(ctx.topic_prefix + "/event"@)),
                ("value_template"@, str_v("{{ value_json.text[:255] }}"@)),
                ("json_attributes_topic"@, str_v(ctx.topic_prefix + "/event"@)),
                ("icon"@, str_v("mdi:shield-alert"@)),
                ("device"@, device_info_spec(ctx)),
            ],
        ),
        availability_spec(ctx),
    )
}

/// The display name of a zone button: the zone's title and the capitalized action.
pub open spec fn zone_button_title(zone: ZoneView, action: Seq<char>) -> Seq<char> {
    zone_title(zone) + " "@ + capitalize_spec(action)
}

pub open spec fn zone_button_discovery_document(zone: ZoneView, action: Seq<char>, ctx: CtxView) -> Members {
    let id = decimal(zone.id as nat);
    merge_members(
        object_of(
            seq![
                ("name"@, str_v(zone_button_title(zone, action))),
                ("unique_id"@, str_v("spc_"@ + ctx.serial + "_zone_"@ + id + "_"@ + action)),
                ("command_topic"@, str_v(ctx.topic_prefix + "/zone/"@ + id + "/action"@)),
                ("payload_press"@, str_v(action)),
                ("entity_category"@, str_v("config"@)),
                ("device"@, device_info_spec(ctx)),
            ],
        ),
        availability_spec(ctx),
    )
}

pub open spec fn alert_button_discovery_document(
    sensor_id: Seq<char>,
    alert_name: Seq<char>,
    action: Seq<char>,
    ctx: CtxView,
) -> Members {
    merge_members(
        object_of(
            seq![
                ("name"@, str_v(alert_name + " "@ + capitalize_spec(action))),
                ("unique_id"@, str_v("spc_"@ + ctx.serial + "_"@ + sensor_id + "_"@ + action)),
                ("command_topic"@, str_v(ctx.topic_prefix + "/alert/"@ + sensor_id + "/action"@)),
                ("payload_press"@, str_v(action)),
                ("entity_category"@, str_v("config"@)),
                ("device"@, device_info_spec(ctx)),
            ],
        ),
        availability_spec(ctx),
    )
}

// ---------------------------------------------------------------------------
// Implementation
// ---------------------------------------------------------------------------

/// The view of a list of members under construction.
pub open spec fn pairs_view(v: Seq<(String, JsonValue)>) -> Members {
    v.map_values(|p: (String, JsonValue)| (p.0@, p.1@))
}

fn push_member(v: &mut Vec<(String, JsonValue)>, k: &str, val: JsonValue)
    ensures
        pairs_view(final(v)@) == pairs_view(old(v)@).push((k@, val@)),
{
    let ks = String::from_str(k);
    let ghost vv = val@;
    v.push((ks, val));
    assert(pairs_view(v@) =~= pairs_view(old(v)@).push((k@, vv)));
}

fn str_value(s: String) -> (v: JsonValue)
    ensures
        v@ == str_v(s@),
{
    JsonValue::Leaf(JsonLeaf::Str(s))
}

/// The object holding these members, set in turn.
fn object_from(pairs: Vec<(String, JsonValue)>) -> (o: JsonObject)
    ensures
        o@ == object_of(pairs_view(pairs@)),
{
    let extra = JsonObject { entries: pairs };
    assert(extra@ =~= pairs_view(pairs@));
    let mut o = JsonObject::new();
    o.merge(&extra);
    o
}

fn chars_string(v: Vec<char>) -> (s: String)
    ensures
        s@ == v@,
{
    from_chars(v.as_slice())
}

pub fn node_id(ctx: &Ctx) -> (s: String)
    ensures
        s@ == node_id_spec(ctx@),
{
    let mut t: Vec<char> = Vec::new();
    push_str(&mut t, "spc_");
    push_str(&mut t, ctx.serial);
    chars_string(t)
}

fn device_info(ctx: &Ctx) -> (v: JsonValue)
    ensures
        v@ == device_info_spec(ctx@),
{
    let mut ids: Vec<String> = Vec::new();
    ids.push(node_id(ctx));
    assert(views(ids@) =~= seq![node_id_spec(ctx@)]);
    let mut f: Vec<(String, JsonLeaf)> = Vec::new();
    f.push((String::from_str("identifiers"), JsonLeaf::StrList(ids)));
    f.push((String::from_str("name"), JsonLeaf::Str(String::from_str(ctx.name))));
    f.push((String::from_str("manufacturer"), JsonLeaf::Str(String::from_str("Vanderbilt"))));
    f.push((String::from_str("model"), JsonLeaf::Str(String::from_str(ctx.name))));
    f.push((String::from_str("serial_number"), JsonLeaf::Str(String::from_str(ctx.serial))));
    let v = JsonValue::Object(f);
    assert(v@ == device_info_spec(ctx@)) by {
        if let ValueView::Object(m) = v@ {
            assert(m =~= seq![
                ("identifiers"@, LeafView::StrList(seq![node_id_spec(ctx@)])),
                ("name"@, LeafView::Str(ctx.name@)),
                ("manufacturer"@, LeafView::Str("Vanderbilt"@)),
                ("model"@, LeafView::Str(ctx.name@)),
                ("serial_number"@, LeafView::Str(ctx.serial@)),
            ]);
        }
    }
    v
}

fn availability(ctx: &Ctx) -> (o: JsonObject)
    ensures
        o@ == availability_spec(ctx@),
{
    let mut t: Vec<char> = Vec::new();
    push_str(&mut t, ctx.topic_prefix);
    push_str(&mut t, "/status");
    let mut p: Vec<(String, JsonValue)> = Vec::new();
    push_member(&mut p, "availability_topic", str_value(chars_string(t)));
    push_member(&mut p, "payload_available", str_value(String::from_str("online")));
    push_member(&mut p, "payload_not_available", str_value(String::from_str("offline")));
    assert(pairs_view(p@) =~= seq![
        ("availability_topic"@, str_v(ctx.topic_prefix@ + "/status"@)),
        ("payload_available"@, str_v("online"@)),
        ("payload_not_available"@, str_v("offline"@)),
    ]);
    object_from(p)
}

/// `s` with its first character upper-cased.
pub fn capitalize(s: &str) -> (r: String)
    ensures
        r@ == capitalize_spec(s@),
{
    let v = to_chars(s);
    if v.len() == 0 {
        return String::new();
    }
    let first = crate::text::char_to_uppercase(v[0]);
    let mut t = to_chars(first.as_str());
    push_chars(&mut t, &v.as_slice()[1..v.len()]);
    assert(v@.subrange(1, v@.len() as int) =~= s@.drop_first());
    chars_string(t)
}

// --- Zones (binary_sensor) ---

pub fn zone_discovery_topic(zone: &Zone, ctx: &Ctx) -> (s: String)
    ensures
        s@ == zone_discovery_topic_spec(zone@, ctx@),
{
    let mut t: Vec<char> = Vec::new();
    push_str(&mut t, ctx.discovery_prefix);
    push_str(&mut t, "/binary_sensor/");
    push_str(&mut t, "spc_");
    push_str(&mut t, ctx.serial);
    push_str(&mut t, "/zone_");
    push_decimal(&mut t, zone.id);
    push_str(&mut t, "/config");
    assert(t@ =~= zone_discovery_topic_spec(zone@, ctx@));
    chars_string(t)
}

fn zone_title_string(zone: &Zone) -> (s: String)
    ensures
        s@ == zone_title(zone@),
{
    if zone.name.as_str().unicode_len() == 0 {
        let mut t: Vec<char> = Vec::new();
        push_str(&mut t, "Zone ");
        push_decimal(&mut t, zone.id);
        chars_string(t)
    } else {
        zone.name.clone()
    }
}

/// The discovery document of a zone's binary sensor.
pub fn zone_discovery_object(zone: &Zone, ctx: &Ctx) -> (o: JsonObject)
    ensures
        o@ == zone_discovery_document(zone@, ctx@),
{
    let ghost id = decimal(zone.id as nat);
    let mut uid: Vec<char> = Vec::new();
    push_str(&mut uid, "spc_");
    push_str(&mut uid, ctx.serial);
    push_str(&mut uid, "_zone_");
    push_decimal(&mut uid, zone.id);
    let mut st: Vec<char> = Vec::new();
    push_str(&mut st, ctx.topic_prefix);
    push_str(&mut st, "/zone/");
    push_decimal(&mut st, zone.id);
    push_str(&mut st, "/state");
    let mut at: Vec<char> = Vec::new();
    push_str(&mut at, ctx.topic_prefix);
    push_str(&mut at, "/zone/");
    push_decimal(&mut at, zone.id);
    push_str(&mut at, "/attributes");
    let mut p: Vec<(String, JsonValue)> = Vec::new();
    push_member(&mut p, "name", str_value(zone_title_string(zone)));
    push_member(&mut p, "unique_id", str_value(chars_string(uid)));
    push_member(&mut p, "state_topic", str_value(chars_string(st)));
    push_member(&mut p, "payload_on", str_value(String::from_str("ON")));
    push_member(&mut p, "payload_off", str_value(String::from_str("OFF")));
    push_member(&mut p, "json_attributes_topic", str_value(chars_string(at)));
    push_member(&mut p, "device", device_info(ctx));
    assert(pairs_view(p@) =~= seq![
        ("name"@, str_v(zone_title(zone@))),
        ("unique_id"@, str_v("spc_"@ + ctx.serial@ + "_zone_"@ + id)),
        ("state_topic"@, str_v(ctx.topic_prefix@ + "/zone/"@ + id + "/state"@)),
        ("payload_on"@, str_v("ON"@)),
        ("payload_off"@, str_v("OFF"@)),
        ("json_attributes_topic"@, str_v(ctx.topic_prefix@ + "/zone/"@ + id + "/attributes"@)),
        ("device"@, device_info_spec(ctx@)),
    ]);
    let mut o = object_from(p);
    o.merge(&availability(ctx));
    if zone.device_class.as_str().unicode_len() != 0 {
        let mut dc: Vec<(String, JsonValue)> = Vec::new();
        push_member(&mut dc, "device_class", str_value(zone.device_class.clone()));
        let extra = JsonObject { entries: dc };
        assert(extra@ =~= seq![("device_class"@, str_v(zone.device_class@))]);
        o.merge(&extra);
    }
    o
}

pub fn zone_discovery_payload(zone: &Zone, ctx: &Ctx) -> (s: String)
    ensures
        s@ == json_text(zone_discovery_document(zone@, ctx@)),
{
    zone_discovery_object(zone, ctx).to_json_string()
}

// --- Areas (select) ---

pub fn area_discovery_topic(area: &Area, ctx: &Ctx) -> (s: String)
    ensures
        s@ == area_discovery_topic_spec(area@, ctx@),
{
    let mut t: Vec<char> = Vec::new();
    push_str(&mut t, ctx.discovery_prefix);
    push_str(&mut t, "/select/");
    push_str(&mut t, "spc_");
    push_str(&mut t, ctx.serial);
    push_str(&mut t, "/area_");
    push_decimal(&mut t, area.id);
    push_str(&mut t, "/config");
    assert(t@ =~= area_discovery_topic_spec(area@, ctx@));
    chars_string(t)
}

fn area_title_string(area: &Area) -> (s: String)
    ensures
        s@ == area_title(area@),
{
    if area.name.as_str().unicode_len() == 0 {
        let mut t: Vec<char> = Vec::new();
        push_str(&mut t, "Area ");
        push_decimal(&mut t, area.id);
        chars_string(t)
    } else {
        area.name.clone()
    }
}

/// The discovery document of an area's select entity.
pub fn area_discovery_object(area: &Area, ctx: &Ctx) -> (o: JsonObject)
    ensures
        o@ == area_discovery_document(area@, ctx@),
{
    let ghost id = decimal(area.id as nat);
    let mut uid: Vec<char> = Vec::new();
    push_str(&mut uid, "spc_");
    push_str(&mut uid, ctx.serial);
    push_str(&mut uid, "_area_");
    push_decimal(&mut uid, area.id);
    let mut st: Vec<char> = Vec::new();
    push_str(&mut st, ctx.topic_prefix);
    push_str(&mut st, "/area/");
    push_decimal(&mut st, area.id);
    push_str(&mut st, "/state");
    let mut ct: Vec<char> = Vec::new();
    push_str(&mut ct, ctx.topic_prefix);
    push_str(&mut ct, "/area/");
    push_decimal(&mut ct, area.id);
    push_str(&mut ct, "/set");
    let options = crate::json::clone_strings(&area.all_options);
    let mut p: Vec<(String, JsonValue)> = Vec::new();
    push_member(&mut p, "name", str_value(area_title_string(area)));
    push_member(&mut p, "unique_id", str_value(chars_string(uid)));
    push_member(&mut p, "state_topic", str_value(chars_string(st)));
    push_member(&mut p, "command_topic", str_value(chars_string(ct)));
    push_member(&mut p, "options", JsonValue::Leaf(JsonLeaf::StrList(options)));
    push_member(&mut p, "icon", str_value(String::from_str("mdi:shield-home")));
    push_member(&mut p, "device", device_info(ctx));
    assert(pairs_view(p@) =~= seq![
        ("name"@, str_v(area_title(area@))),
        ("unique_id"@, str_v("spc_"@ + ctx.serial@ + "_area_"@ + id)),
        ("state_topic"@, str_v(ctx.topic_prefix@ + "/area/"@ + id + "/state"@)),
        ("command_topic"@, str_v(ctx.topic_prefix@ + "/area/"@ + id + "/set"@)),
        ("options"@, ValueView::Leaf(LeafView::StrList(views(area.all_options@)))),
        ("icon"@, str_v("mdi:shield-home"@)),
        ("device"@, device_info_spec(ctx@)),
    ]);
    let mut o = object_from(p);
    o.merge(&availability(ctx));
    o
}

pub fn area_discovery_payload(area: &Area, ctx: &Ctx) -> (s: String)
    ensures
        s@ == json_text(area_discovery_document(area@, ctx@)),
{
    area_discovery_object(area, ctx).to_json_string()
}

// --- System sensors (binary_sensor with problem class) ---

pub fn system_sensor_discovery_topic(sensor_id: &str, ctx: &Ctx) -> (s: String)
    ensures
        s@ == system_sensor_discovery_topic_spec(sensor_id@, ctx@),
{
    let mut t: Vec<char> = Vec::new();
    push_str(&mut t, ctx.discovery_prefix);
    push_str(&mut t, "/binary_sensor/");
    push_str(&mut t, "spc_");
    push_str(&mut t, ctx.serial);
    push_str(&mut t, "/");
    push_str(&mut t, sensor_id);
    push_str(&mut t, "/config");
    assert(t@ =~= system_sensor_discovery_topic_spec(sensor_id@, ctx@));
    chars_string(t)
}

/// The discovery document of a system alert's binary sensor.
pub fn system_sensor_discovery_object(
    sensor_id: &str,
    name: &str,
    state_topic: &str,
    ctx: &Ctx,
) -> (o: JsonObject)
    ensures
        o@ == system_sensor_discovery_document(sensor_id@, name@, state_topic@, ctx@),
{
    let mut uid: Vec<char> = Vec::new();
    push_str(&mut uid, "spc_");
    push_str(&mut uid, ctx.serial);
    push_str(&mut uid, "_");
    push_str(&mut uid, sensor_id);
    let mut p: Vec<(String, JsonValue)> = Vec::new();
    push_member(&mut p, "name", str_value(String::from_str(name)));
    push_member(&mut p, "unique_id", str_value(chars_string(uid)));
    push_member(&mut p, "state_topic", str_value(String::from_str(state_topic)));
    push_member(&mut p, "payload_on", str_value(String::from_str("ON")));
    push_member(&mut p, "payload_off", str_value(String::from_str("OFF")));
    push_member(&mut p, "device_class", str_value(String::from_str("problem")));
    push_member(&mut p, "entity_category", str_value(String::from_str("diagnostic")));
    push_member(&mut p, "device", device_info(ctx));
    assert(pairs_view(p@) =~= seq![
        ("name"@, str_v(name@)),
        ("unique_id"@, str_v("spc_"@ + ctx.serial@ + "_"@ + sensor_id@)),
        ("state_topic"@, str_v(state_topic@)),
        ("payload_on"@, str_v("ON"@)),
        ("payload_off"@, str_v("OFF"@)),
        ("device_class"@, str_v("problem"@)),
        ("entity_category"@, str_v("diagnostic"@)),
        ("device"@, device_info_spec(ctx@)),
    ]);
    let mut o = object_from(p);
    o.merge(&availability(ctx));
    o
}

pub fn system_sensor_discovery_payload(
    sensor_id: &str,
    name: &str,
    state_topic: &str,
    ctx: &Ctx,
) -> (s: String)
    ensures
        s@ == json_text(system_sensor_discovery_document(sensor_id@, name@, state_topic@, ctx@)),
{
    system_sensor_discovery_object(sensor_id, name, state_topic, ctx).to_json_string()
}

// --- Event log sensor ---

pub fn event_sensor_discovery_topic(ctx: &Ctx) -> (s: String)
    ensures
        s@ == event_sensor_discovery_topic_spec(ctx@),
{
    let mut t: Vec<char> = Vec::new();
    push_str(&mut t, ctx.discovery_prefix);
    push_str(&mut t, "/sensor/");
    push_str(&mut t, "spc_");
    push_str(&mut t, ctx.serial);
    push_str(&mut t, "/last_event/config");
    assert(t@ =~= event_sensor_discovery_topic_spec(ctx@));
    chars_string(t)
}

/// The discovery document of the last-event sensor.
pub fn event_sensor_discovery_object(ctx: &Ctx) -> (o: JsonObject)
    ensures
        o@ == event_sensor_discovery_document(ctx@),
{
    let mut uid: Vec<char> = Vec::new();
    push_str(&mut uid, "spc_");
    push_str(&mut uid, ctx.serial);
    push_str(&mut uid, "_last_event");
    let mut st: Vec<char> = Vec::new();
    push_str(&mut st, ctx.topic_prefix);
    push_str(&mut st, "/event");
    let mut at: Vec<char> = Vec::new();
    push_str(&mut at, ctx.topic_prefix);
    push_str(&mut at, "/event");
    let mut p: Vec<(String, JsonValue)> = Vec::new();
    push_member(&mut p, "name", str_value(String::from_str("Last Event")));
    push_member(&mut p, "unique_id", str_value(chars_string(uid)));
    push_member(&mut p, "state_topic", str_value(chars_string(st)));
    push_member(
        &mut p,
        "value_template",
        str_value(String::from_str("{{ value_json.text[:255] }}")),
    );
    push_member(&mut p, "json_attributes_topic", str_value(chars_string(at)));
    push_member(&mut p, "icon", str_value(String::from_str("mdi:shield-alert")));
    push_member(&mut p, "device", device_info(ctx));
    assert(pairs_view(p@) =~= seq![
        ("name"@, str_v("Last Event"@)),
        ("unique_id"@, str_v("spc_"@ + ctx.serial@ + "_last_event"@)),
        ("state_topic"@, str_v(ctx.topic_prefix@ + "/event"@)),
        ("value_template"@, str_v("{{ value_json.text[:255] }}"@)),
        ("json_attributes_topic"@, str_v(ctx.topic_prefix@ + "/event"@)),
        ("icon"@, str_v("mdi:shield-alert"@)),
        ("device"@, device_info_spec(ctx@)),
    ]);
    let mut o = object_from(p);
    o.merge(&availability(ctx));
    o
}

pub fn event_sensor_discovery_payload(ctx: &Ctx) -> (s: String)
    ensures
        s@ == json_text(event_sensor_discovery_document(ctx@)),
{
    event_sensor_discovery_object(ctx).to_json_string()
}

// --- Zone action buttons (inhibit/isolate) ---

pub fn zone_button_discovery_topic(zone: &Zone, action: &str, ctx: &Ctx) -> (s: String)
    ensures
        s@ == zone_button_discovery_topic_spec(zone@, action@, ctx@),
{
    let mut t: Vec<char> = Vec::new();
    push_str(&mut t, ctx.discovery_prefix);
    push_str(&mut t, "/button/");
    push_str(&mut t, "spc_");
    push_str(&mut t, ctx.serial);
    push_str(&mut t, "/zone_");
    push_decimal(&mut t, zone.id);
    push_str(&mut t, "_");
    push_str(&mut t, action);
    push_str(&mut t, "/config");
    assert(t@ =~= zone_button_discovery_topic_spec(zone@, action@, ctx@));
    chars_string(t)
}

/// The discovery document of a zone's inhibit or isolate button.
pub fn zone_button_discovery_object(zone: &Zone, action: &str, ctx: &Ctx) -> (o: JsonObject)
    ensures
        o@ == zone_button_discovery_document(zone@, action@, ctx@),
{
    let ghost id = decimal(zone.id as nat);
    let mut title = to_chars(zone_title_string(zone).as_str());
    push_str(&mut title, " ");
    let cap = capitalize(action);
    push_str(&mut title, cap.as_str());
    let mut uid: Vec<char> = Vec::new();
    push_str(&mut uid, "spc_");
    push_str(&mut uid, ctx.serial);
    push_str(&mut uid, "_zone_");
    push_decimal(&mut uid, zone.id);
    push_str(&mut uid, "_");
    push_str(&mut uid, action);
    let mut ct: Vec<char> = Vec::new();
    push_str(&mut ct, ctx.topic_prefix);
    push_str(&mut ct, "/zone/");
    push_decimal(&mut ct, zone.id);
    push_str(&mut ct, "/action");
    let mut p: Vec<(String, JsonValue)> = Vec::new();
    push_member(&mut p, "name", str_value(chars_string(title)));
    push_member(&mut p, "unique_id", str_value(chars_string(uid)));
    push_member(&mut p, "command_topic", str_value(chars_string(ct)));
    push_member(&mut p, "payload_press", str_value(String::from_str(action)));
    push_member(&mut p, "entity_category", str_value(String::from_str("config")));
    push_member(&mut p, "device", device_info(ctx));
    assert(pairs_view(p@) =~= seq![
        ("name"@, str_v(zone_button_title(zone@, action@))),
        ("unique_id"@, str_v("spc_"@ + ctx.serial@ + "_zone_"@ + id + "_"@ + action@)),
        ("command_topic"@, str_v(ctx.topic_prefix@ + "/zone/"@ + id + "/action"@)),
        ("payload_press"@, str_v(action@)),
        ("entity_category"@, str_v("config"@)),
        ("device"@, device_info_spec(ctx@)),
    ]);
    let mut o = object_from(p);
    o.merge(&availability(ctx));
    o
}

pub fn zone_button_discovery_payload(zone: &Zone, action: &str, ctx: &Ctx) -> (s: String)
    ensures
        s@ == json_text(zone_button_discovery_document(zone@, action@, ctx@)),
{
    zone_button_discovery_object(zone, action, ctx).to_json_string()
}

// --- Alert action buttons (inhibit/isolate) ---

pub fn alert_button_discovery_topic(sensor_id: &str, action: &str, ctx: &Ctx) -> (s: String)
    ensures
        s@ == alert_button_discovery_topic_spec(sensor_id@, action@, ctx@),
{
    let mut t: Vec<char> = Vec::new();
    push_str(&mut t, ctx.discovery_prefix);
    push_str(&mut t, "/button/");
    push_str(&mut t, "spc_");
    push_str(&mut t, ctx.serial);
    push_str(&mut t, "/");
    push_str(&mut t, sensor_id);
    push_str(&mut t, "_");
    push_str(&mut t, action);
    push_str(&mut t, "/config");
    assert(t@ =~= alert_button_discovery_topic_spec(sensor_id@, action@, ctx@));
    chars_string(t)
}

/// The discovery document of a system alert's inhibit or isolate button.
pub fn alert_button_discovery_object(
    sensor_id: &str,
    alert_name: &str,
    action: &str,
    ctx: &Ctx,
) -> (o: JsonObject)
    ensures
        o@ == alert_button_discovery_document(sensor_id@, alert_name@, action@, ctx@),
{
    let mut title = to_chars(alert_name);
    push_str(&mut title, " ");
    let cap = capitalize(action);
    push_str(&mut title, cap.as_str());
    let mut uid: Vec<char> = Vec::new();
    push_str(&mut uid, "spc_");
    push_str(&mut uid, ctx.serial);
    push_str(&mut uid, "_");
    push_str(&mut uid, sensor_id);
    push_str(&mut uid, "_");
    push_str(&mut uid, action);
    let mut ct: Vec<char> = Vec::new();
    push_str(&mut ct, ctx.topic_prefix);
    push_str(&mut ct, "/alert/");
    push_str(&mut ct, sensor_id);
    push_str(&mut ct, "/action");
    let mut p: Vec<(String, JsonValue)> = Vec::new();
    push_member(&mut p, "name", str_value(chars_string(title)));
    push_member(&mut p, "unique_id", str_value(chars_string(uid)));
    push_member(&mut p, "command_topic", str_value(chars_string(ct)));
    push_member(&mut p, "payload_press", str_value(String::from_str(action)));
    push_member(&mut p, "entity_category", str_value(String::from_str("config")));
    push_member(&mut p, "device", device_info(ctx));
    assert(pairs_view(p@) =~= seq![
        ("name"@, str_v(alert_name@ + " "@ + capitalize_spec(action@))),
        ("unique_id"@, str_v("spc_"@ + ctx.serial@ + "_"@ + sensor_id@ + "_"@ + action@)),
        ("command_topic"@, str_v(ctx.topic_prefix@ + "/alert/"@ + sensor_id@ + "/action"@)),
        ("payload_press"@, str_v(action@)),
        ("entity_category"@, str_v("config"@)),
        ("device"@, device_info_spec(ctx@)),
    ]);
    let mut o = object_from(p);
    o.merge(&availability(ctx));
    o
}

pub fn alert_button_discovery_payload(
    sensor_id: &str,
    alert_name: &str,
    action: &str,
    ctx: &Ctx,
) -> (s: String)
    ensures
        s@ == json_text(alert_button_discovery_document(sensor_id@, alert_name@, action@, ctx@)),
{
    alert_button_discovery_object(sensor_id, alert_name, action, ctx).to_json_string()
}

// ---------------------------------------------------------------------------
// Reading members back out of the documents
// ---------------------------------------------------------------------------

/// A member of a document made of `pairs` and then the availability members: the last
/// pair named `k`, when no later pair and no availability member is named `k`.
pub(crate) proof fn lemma_document_member(pairs: Members, avail: Members, k: Seq<char>, i: int)
    requires
        0 <= i < pairs.len(),
        pairs[i].0 == k,
        forall|j: int| i < j < pairs.len() ==> (#[trigger] pairs[j]).0 != k,
        forall|j: int| 0 <= j < avail.len() ==> (#[trigger] avail[j]).0 != k,
    ensures
        crate::json::member(merge_members(object_of(pairs), object_of(avail)), k) == Some(
            pairs[i].1,
        ),
        crate::json::distinct_keys(merge_members(object_of(pairs), object_of(avail))),
{
    let empty = Seq::<(Seq<char>, ValueView)>::empty();
    crate::json::lemma_merge_member(empty, pairs, k);
    crate::json::lemma_last_value_at(pairs, k, i);
    crate::json::lemma_merge_keys_absent(empty, avail, k);
    crate::json::lemma_last_value_absent(object_of(avail), k);
    crate::json::lemma_merge_member(object_of(pairs), object_of(avail), k);
}

/// The area's select entity is commanded on `<prefix>/area/<id>/set`.
pub proof fn lemma_area_document_command_topic(area: AreaView, ctx: CtxView)
    ensures
        crate::json::member(area_discovery_document(area, ctx), "command_topic"@) == Some(
            str_v(ctx.topic_prefix + "/area/"@ + decimal(area.id as nat) + "/set"@),
        ),
{
    reveal_strlit("command_topic");
    reveal_strlit("options");
    reveal_strlit("icon");
    reveal_strlit("device");
    reveal_strlit("availability_topic");
    reveal_strlit("payload_available");
    reveal_strlit("payload_not_available");
    let id = decimal(area.id as nat);
    let pairs = seq![
        ("name"@, str_v(area_title(area))),
        ("unique_id"@, str_v("spc_"@ + ctx.serial + "_area_"@ + id)),
        ("state_topic"@, str_v(ctx.topic_prefix + "/area/"@ + id + "/state"@)),
        ("command_topic"@, str_v(ctx.topic_prefix + "/area/"@ + id + "/set"@)),
        ("options"@, ValueView::Leaf(LeafView::StrList(area.all_options))),
        ("icon"@, str_v("mdi:shield-home"@)),
        ("device"@, device_info_spec(ctx)),
    ];
    let avail = seq![
        ("availability_topic"@, str_v(ctx.topic_prefix + "/status"@)),
        ("payload_available"@, str_v("online"@)),
        ("payload_not_available"@, str_v("offline"@)),
    ];
    assert(pairs[4].0 == "options"@ && pairs[5].0 == "icon"@ && pairs[6].0 == "device"@);
    assert("options"@.len() != "command_topic"@.len() && "icon"@.len() != "command_topic"@.len()
        && "device"@.len() != "command_topic"@.len());
    assert forall|j: int| 3 < j < pairs.len() implies (#[trigger] pairs[j]).0 != "command_topic"@ by {
        assert(j == 4 || j == 5 || j == 6);
    }
    assert(avail[0].0 == "availability_topic"@ && avail[1].0 == "payload_available"@
        && avail[2].0 == "payload_not_available"@);
    assert(avail[0].0.len() != 13 && avail[1].0.len() != 13 && avail[2].0.len() != 13);
    assert forall|j: int| 0 <= j < avail.len() implies (#[trigger] avail[j]).0 != "command_topic"@ by {
        assert(j == 0 || j == 1 || j == 2);
    }
    lemma_document_member(pairs, avail, "command_topic"@, 3);
}

/// A zone's button for `action` is commanded on `<prefix>/zone/<id>/action` and
/// presses with the action itself as payload.
pub proof fn lemma_zone_button_document_command(zone: ZoneView, action: Seq<char>, ctx: CtxView)
    ensures
        crate::json::member(zone_button_discovery_document(zone, action, ctx), "command_topic"@)
            == Some(str_v(ctx.topic_prefix + "/zone/"@ + decimal(zone.id as nat) + "/action"@)),
        crate::json::member(zone_button_discovery_document(zone, action, ctx), "payload_press"@)
            == Some(str_v(action)),
{
    reveal_strlit("command_topic");
    reveal_strlit("payload_press");
    reveal_strlit("entity_category");
    reveal_strlit("device");
    reveal_strlit("availability_topic");
    reveal_strlit("payload_available");
    reveal_strlit("payload_not_available");
    let id = decimal(zone.id as nat);
    let pairs = seq![
        ("name"@, str_v(zone_button_title(zone, action))),
        ("unique_id"@, str_v("spc_"@ + ctx.serial + "_zone_"@ + id + "_"@ + action)),
        ("command_topic"@, str_v(ctx.topic_prefix + "/zone/"@ + id + "/action"@)),
        ("payload_press"@, str_v(action)),
        ("entity_category"@, str_v("config"@)),
        ("device"@, device_info_spec(ctx)),
    ];
    let avail = seq![
        ("availability_topic"@, str_v(ctx.topic_prefix + "/status"@)),
        ("payload_available"@, str_v("online"@)),
        ("payload_not_available"@, str_v("offline"@)),
    ];
    assert("payload_press"@[0] != "command_topic"@[0]);
    assert forall|j: int| 2 < j < pairs.len() implies (#[trigger] pairs[j]).0 != "command_topic"@ by {
        assert(j == 3 || j == 4 || j == 5);
    }
    assert forall|j: int| 3 < j < pairs.len() implies (#[trigger] pairs[j]).0 != "payload_press"@ by {
        assert(j == 4 || j == 5);
    }
    assert(avail[0].0 == "availability_topic"@ && avail[1].0 == "payload_available"@
        && avail[2].0 == "payload_not_available"@);
    assert(avail[0].0.len() != 13 && avail[1].0.len() != 13 && avail[2].0.len() != 13);
    assert forall|j: int| 0 <= j < avail.len() implies (#[trigger] avail[j]).0 != "command_topic"@
        && avail[j].0 != "payload_press"@ by {
        assert(j == 0 || j == 1 || j == 2);
    }
    lemma_document_member(pairs, avail, "command_topic"@, 2);
    lemma_document_member(pairs, avail, "payload_press"@, 3);
}

/// An alert's button for `action` is commanded on `<prefix>/alert/<sensor>/action` and
/// presses with the action itself as payload.
pub proof fn lemma_alert_button_document_command(
    sensor_id: Seq<char>,
    alert_name: Seq<char>,
    action: Seq<char>,
    ctx: CtxView,
)
    ensures
        crate::json::member(
            alert_button_discovery_document(sensor_id, alert_name, action, ctx),
            "command_topic"@,
        ) == Some(str_v(ctx.topic_prefix + "/alert/"@ + sensor_id + "/action"@)),
        crate::json::member(
            alert_button_discovery_document(sensor_id, alert_name, action, ctx),
            "payload_press"@,
        ) == Some(str_v(action)),
{
    reveal_strlit("command_topic");
    reveal_strlit("payload_press");
    reveal_strlit("entity_category");
    reveal_strlit("device");
    reveal_strlit("availability_topic");
    reveal_strlit("payload_available");
    reveal_strlit("payload_not_available");
    let pairs = seq![
        ("name"@, str_v(alert_name + " "@ + capitalize_spec(action))),
        ("unique_id"@, str_v("spc_"@ + ctx.serial + "_"@ + sensor_id + "_"@ + action)),
        ("command_topic"@, str_v(ctx.topic_prefix + "/alert/"@ + sensor_id + "/action"@)),
        ("payload_press"@, str_v(action)),
        ("entity_category"@, str_v("config"@)),
        ("device"@, device_info_spec(ctx)),
    ];
    let avail = seq![
        ("availability_topic"@, str_v(ctx.topic_prefix + "/status"@)),
        ("payload_available"@, str_v("online"@)),
        ("payload_not_available"@, str_v("offline"@)),
    ];
    assert("payload_press"@[0] != "command_topic"@[0]);
    assert forall|j: int| 2 < j < pairs.len() implies (#[trigger] pairs[j]).0 != "command_topic"@ by {
        assert(j == 3 || j == 4 || j == 5);
    }
    assert forall|j: int| 3 < j < pairs.len() implies (#[trigger] pairs[j]).0 != "payload_press"@ by {
        assert(j == 4 || j == 5);
    }
    assert(avail[0].0 == "availability_topic"@ && avail[1].0 == "payload_available"@
        && avail[2].0 == "payload_not_available"@);
    assert(avail[0].0.len() != 13 && avail[1].0.len() != 13 && avail[2].0.len() != 13);
    assert forall|j: int| 0 <= j < avail.len() implies (#[trigger] avail[j]).0 != "command_topic"@
        && avail[j].0 != "payload_press"@ by {
        assert(j == 0 || j == 1 || j == 2);
    }
    lemma_document_member(pairs, avail, "command_topic"@, 2);
    lemma_document_member(pairs, avail, "payload_press"@, 3);
}

/// An area's entity is named by the area's name, or "Area <id>" when the area has none.
pub proof fn lemma_area_document_name(area: AreaView, ctx: CtxView)
    ensures
        area.name.len() > 0 ==> crate::json::member(area_discovery_document(area, ctx), "name"@)
            == Some(str_v(area.name)),
        area.name.len() == 0 ==> crate::json::member(area_discovery_document(area, ctx), "name"@)
            == Some(str_v("Area "@ + decimal(area.id as nat))),
{
    reveal_strlit("name");
    reveal_strlit("unique_id");
    reveal_strlit("state_topic");
    reveal_strlit("command_topic");
    reveal_strlit("options");
    reveal_strlit("icon");
    reveal_strlit("device");
    reveal_strlit("availability_topic");
    reveal_strlit("payload_available");
    reveal_strlit("payload_not_available");
    let id = decimal(area.id as nat);
    let pairs = seq![
        ("name"@, str_v(area_title(area))),
        ("unique_id"@, str_v("spc_"@ + ctx.serial + "_area_"@ + id)),
        ("state_topic"@, str_v(ctx.topic_prefix + "/area/"@ + id + "/state"@)),
        ("command_topic"@, str_v(ctx.topic_prefix + "/area/"@ + id + "/set"@)),
        ("options"@, ValueView::Leaf(LeafView::StrList(area.all_options))),
        ("icon"@, str_v("mdi:shield-home"@)),
        ("device"@, device_info_spec(ctx)),
    ];
    let avail = seq![
        ("availability_topic"@, str_v(ctx.topic_prefix + "/status"@)),
        ("payload_available"@, str_v("online"@)),
        ("payload_not_available"@, str_v("offline"@)),
    ];
    assert(pairs[1].0 == "unique_id"@ && pairs[2].0 == "state_topic"@ && pairs[3].0
        == "command_topic"@ && pairs[4].0 == "options"@ && pairs[5].0 == "icon"@ && pairs[6].0
        == "device"@);
    assert("icon"@[0] != "name"@[0]);
    assert(pairs[1].0.len() != 4 && pairs[2].0.len() != 4 && pairs[3].0.len() != 4
        && pairs[4].0.len() != 4 && pairs[6].0.len() != 4);
    assert forall|j: int| 0 < j < pairs.len() implies (#[trigger] pairs[j]).0 != "name"@ by {
        assert(1 <= j <= 6);
    }
    assert(avail[0].0 == "availability_topic"@ && avail[1].0 == "payload_available"@
        && avail[2].0 == "payload_not_available"@);
    assert(avail[0].0.len() != 4 && avail[1].0.len() != 4 && avail[2].0.len() != 4);
    assert forall|j: int| 0 <= j < avail.len() implies (#[trigger] avail[j]).0 != "name"@ by {
        assert(j == 0 || j == 1 || j == 2);
    }
    lemma_document_member(pairs, avail, "name"@, 0);
}


/// A member named `k` is in no document made of `pairs` and the availability members
/// when neither names one `k`.
proof fn lemma_document_member_absent(pairs: Members, avail: Members, k: Seq<char>)
    requires
        forall|j: int| 0 <= j < pairs.len() ==> (#[trigger] pairs[j]).0 != k,
        forall|j: int| 0 <= j < avail.len() ==> (#[trigger] avail[j]).0 != k,
    ensures
        crate::json::member(merge_members(object_of(pairs), object_of(avail)), k) is None,
{
    let empty = Seq::<(Seq<char>, ValueView)>::empty();
    crate::json::lemma_merge_member(empty, pairs, k);
    crate::json::lemma_last_value_absent(pairs, k);
    crate::json::lemma_merge_keys_absent(empty, avail, k);
    crate::json::lemma_last_value_absent(object_of(avail), k);
    crate::json::lemma_merge_member(object_of(pairs), object_of(avail), k);
}

/// A zone's binary sensor reads its state on `<prefix>/zone/<id>/state` as "ON" or
/// "OFF", and carries the zone's device class exactly when the zone has one.
pub proof fn lemma_zone_document_members(zone: ZoneView, ctx: CtxView)
    ensures
        crate::json::member(zone_discovery_document(zone, ctx), "state_topic"@) == Some(
            str_v(ctx.topic_prefix + "/zone/"@ + decimal(zone.id as nat) + "/state"@),
        ),
        crate::json::member(zone_discovery_document(zone, ctx), "payload_on"@) == Some(
            str_v("ON"@),
        ),
        crate::json::member(zone_discovery_document(zone, ctx), "payload_off"@) == Some(
            str_v("OFF"@),
        ),
        zone.device_class.len() > 0 ==> crate::json::member(
            zone_discovery_document(zone, ctx),
            "device_class"@,
        ) == Some(str_v(zone.device_class)),
        zone.device_class.len() == 0 ==> crate::json::member(
            zone_discovery_document(zone, ctx),
            "device_class"@,
        ) is None,
{
    reveal_strlit("name");
    reveal_strlit("unique_id");
    reveal_strlit("state_topic");
    reveal_strlit("payload_on");
    reveal_strlit("payload_off");
    reveal_strlit("json_attributes_topic");
    reveal_strlit("device");
    reveal_strlit("device_class");
    reveal_strlit("availability_topic");
    reveal_strlit("payload_available");
    reveal_strlit("payload_not_available");
    let id = decimal(zone.id as nat);
    let pairs = seq![
        ("name"@, str_v(zone_title(zone))),
        ("unique_id"@, str_v("spc_"@ + ctx.serial + "_zone_"@ + id)),
        ("state_topic"@, str_v(ctx.topic_prefix + "/zone/"@ + id + "/state"@)),
        ("payload_on"@, str_v("ON"@)),
        ("payload_off"@, str_v("OFF"@)),
        ("json_attributes_topic"@, str_v(ctx.topic_prefix + "/zone/"@ + id + "/attributes"@)),
        ("device"@, device_info_spec(ctx)),
    ];
    let avail = seq![
        ("availability_topic"@, str_v(ctx.topic_prefix + "/status"@)),
        ("payload_available"@, str_v("online"@)),
        ("payload_not_available"@, str_v("offline"@)),
    ];
    let base = merge_members(object_of(pairs), object_of(avail));
    assert(pairs[0].0 == "name"@ && pairs[1].0 == "unique_id"@ && pairs[2].0 == "state_topic"@
        && pairs[3].0 == "payload_on"@ && pairs[4].0 == "payload_off"@ && pairs[5].0
        == "json_attributes_topic"@ && pairs[6].0 == "device"@);
    assert(avail[0].0 == "availability_topic"@ && avail[1].0 == "payload_available"@
        && avail[2].0 == "payload_not_available"@);
    assert("state_topic"@[0] != "payload_off"@[0]);
    assert forall|j: int| 2 < j < pairs.len() implies (#[trigger] pairs[j]).0 != "state_topic"@ by {
        assert(j == 3 || j == 4 || j == 5 || j == 6);
    }
    assert forall|j: int| 3 < j < pairs.len() implies (#[trigger] pairs[j]).0 != "payload_on"@ by {
        assert(j == 4 || j == 5 || j == 6);
    }
    assert forall|j: int| 4 < j < pairs.len() implies (#[trigger] pairs[j]).0 != "payload_off"@ by {
        assert(j == 5 || j == 6);
    }
    assert forall|j: int| 0 <= j < pairs.len() implies (#[trigger] pairs[j]).0 != "device_class"@ by {
        assert(0 <= j <= 6);
    }
    assert forall|j: int| 0 <= j < avail.len() implies (#[trigger] avail[j]).0 != "state_topic"@
        && avail[j].0 != "payload_on"@ && avail[j].0 != "payload_off"@ && avail[j].0
        != "device_class"@ by {
        assert(j == 0 || j == 1 || j == 2);
    }
    lemma_document_member(pairs, avail, "state_topic"@, 2);
    lemma_document_member(pairs, avail, "payload_on"@, 3);
    lemma_document_member(pairs, avail, "payload_off"@, 4);
    lemma_document_member_absent(pairs, avail, "device_class"@);
    assert(base == merge_members(object_of(pairs), availability_spec(ctx)));
    if zone.device_class.len() > 0 {
        let extra = seq![("device_class"@, str_v(zone.device_class))];
        assert(extra.drop_last() =~= Seq::<(Seq<char>, ValueView)>::empty());
        assert(extra.last().0 == "device_class"@);
        assert(crate::json::last_value(extra.drop_last(), "state_topic"@) is None);
        assert(crate::json::last_value(extra, "state_topic"@) is None);
        assert(crate::json::last_value(extra.drop_last(), "payload_on"@) is None);
        assert(crate::json::last_value(extra, "payload_on"@) is None);
        assert(crate::json::last_value(extra.drop_last(), "payload_off"@) is None);
        assert(crate::json::last_value(extra, "payload_off"@) is None);
        crate::json::lemma_merge_member(base, extra, "state_topic"@);
        crate::json::lemma_merge_member(base, extra, "payload_on"@);
        crate::json::lemma_merge_member(base, extra, "payload_off"@);
        crate::json::lemma_merge_member(base, extra, "device_class"@);
        assert(zone_discovery_document(zone, ctx) == merge_members(base, extra));
    } else {
        assert(zone_discovery_document(zone, ctx) == base);
    }
}

/// An area's select entity reads its state on `<prefix>/area/<id>/state` and offers
/// exactly the area's options, in order.
pub proof fn lemma_area_document_members(area: AreaView, ctx: CtxView)
    ensures
        crate::json::member(area_discovery_document(area, ctx), "state_topic"@) == Some(
            str_v(ctx.topic_prefix + "/area/"@ + decimal(area.id as nat) + "/state"@),
        ),
        crate::json::member(area_discovery_document(area, ctx), "options"@) == Some(
            ValueView::Leaf(LeafView::StrList(area.all_options)),
        ),
{
    reveal_strlit("name");
    reveal_strlit("unique_id");
    reveal_strlit("state_topic");
    reveal_strlit("command_topic");
    reveal_strlit("options");
    reveal_strlit("icon");
    reveal_strlit("device");
    reveal_strlit("availability_topic");
    reveal_strlit("payload_available");
    reveal_strlit("payload_not_available");
    let id = decimal(area.id as nat);
    let pairs = seq![
        ("name"@, str_v(area_title(area))),
        ("unique_id"@, str_v("spc_"@ + ctx.serial + "_area_"@ + id)),
        ("state_topic"@, str_v(ctx.topic_prefix + "/area/"@ + id + "/state"@)),
        ("command_topic"@, str_v(ctx.topic_prefix + "/area/"@ + id + "/set"@)),
        ("options"@, ValueView::Leaf(LeafView::StrList(area.all_options))),
        ("icon"@, str_v("mdi:shield-home"@)),
        ("device"@, device_info_spec(ctx)),
    ];
    let avail = seq![
        ("availability_topic"@, str_v(ctx.topic_prefix + "/status"@)),
        ("payload_available"@, str_v("online"@)),
        ("payload_not_available"@, str_v("offline"@)),
    ];
    assert(pairs[3].0 == "command_topic"@ && pairs[4].0 == "options"@ && pairs[5].0 == "icon"@
        && pairs[6].0 == "device"@);
    assert(pairs[3].0.len() == 13 && pairs[4].0.len() == 7 && pairs[5].0.len() == 4
        && pairs[6].0.len() == 6 && "state_topic"@.len() == 11);
    assert(avail[0].0 == "availability_topic"@ && avail[1].0 == "payload_available"@
        && avail[2].0 == "payload_not_available"@);
    assert(avail[0].0.len() == 18 && avail[1].0.len() == 17 && avail[2].0.len() == 21);
    assert forall|j: int| 2 < j < pairs.len() implies (#[trigger] pairs[j]).0 != "state_topic"@ by {
        assert(j == 3 || j == 4 || j == 5 || j == 6);
    }
    assert forall|j: int| 4 < j < pairs.len() implies (#[trigger] pairs[j]).0 != "options"@ by {
        assert(j == 5 || j == 6);
    }
    assert forall|j: int| 0 <= j < avail.len() implies (#[trigger] avail[j]).0 != "state_topic"@
        && avail[j].0 != "options"@ by {
        assert(j == 0 || j == 1 || j == 2);
    }
    lemma_document_member(pairs, avail, "state_topic"@, 2);
    lemma_document_member(pairs, avail, "options"@, 4);
}

/// A system alert's binary sensor reads its state on the topic it is given, as "ON"
/// (a problem) or "OFF".
pub proof fn lemma_system_sensor_document_members(
    sensor_id: Seq<char>,
    name: Seq<char>,
    state_topic: Seq<char>,
    ctx: CtxView,
)
    ensures
        crate::json::member(
            system_sensor_discovery_document(sensor_id, name, state_topic, ctx),
            "state_topic"@,
        ) == Some(str_v(state_topic)),
        crate::json::member(
            system_sensor_discovery_document(sensor_id, name, state_topic, ctx),
            "payload_on"@,
        ) == Some(str_v("ON"@)),
        crate::json::member(
            system_sensor_discovery_document(sensor_id, name, state_topic, ctx),
            "payload_off"@,
        ) == Some(str_v("OFF"@)),
        crate::json::member(
            system_sensor_discovery_document(sensor_id, name, state_topic, ctx),
            "name"@,
        ) == Some(str_v(name)),
        crate::json::member(
            system_sensor_discovery_document(sensor_id, name, state_topic, ctx),
            "device_class"@,
        ) == Some(str_v("problem"@)),
{
    reveal_strlit("name");
    reveal_strlit("unique_id");
    reveal_strlit("state_topic");
    reveal_strlit("payload_on");
    reveal_strlit("payload_off");
    reveal_strlit("device_class");
    reveal_strlit("entity_category");
    reveal_strlit("device");
    reveal_strlit("availability_topic");
    reveal_strlit("payload_available");
    reveal_strlit("payload_not_available");
    let pairs = seq![
        ("name"@, str_v(name)),
        ("unique_id"@, str_v("spc_"@ + ctx.serial + "_"@ + sensor_id)),
        ("state_topic"@, str_v(state_topic)),
        ("payload_on"@, str_v("ON"@)),
        ("payload_off"@, str_v("OFF"@)),
        ("device_class"@, str_v("problem"@)),
        ("entity_category"@, str_v("diagnostic"@)),
        ("device"@, device_info_spec(ctx)),
    ];
    let avail = seq![
        ("availability_topic"@, str_v(ctx.topic_prefix + "/status"@)),
        ("payload_available"@, str_v("online"@)),
        ("payload_not_available"@, str_v("offline"@)),
    ];
    assert(pairs[3].0 == "payload_on"@ && pairs[4].0 == "payload_off"@ && pairs[5].0
        == "device_class"@ && pairs[6].0 == "entity_category"@ && pairs[7].0 == "device"@);
    assert(pairs[3].0.len() == 10 && pairs[4].0.len() == 11 && pairs[5].0.len() == 12
        && pairs[6].0.len() == 15 && pairs[7].0.len() == 6);
    assert(avail[0].0 == "availability_topic"@ && avail[1].0 == "payload_available"@
        && avail[2].0 == "payload_not_available"@);
    assert("state_topic"@[0] != "payload_off"@[0]);
    assert forall|j: int| 2 < j < pairs.len() implies (#[trigger] pairs[j]).0 != "state_topic"@ by {
        if j == 4 {
            assert(pairs[4].0[0] == 'p');
            assert("state_topic"@[0] == 's');
            assert(pairs[4].0 != "state_topic"@);
        } else {
            assert("state_topic"@.len() == 11);
            assert(j == 3 || j == 5 || j == 6 || j == 7);
            assert(pairs[j].0.len() != 11);
            assert(pairs[j].0 != "state_topic"@);
        }
    }
    assert forall|j: int| 3 < j < pairs.len() implies (#[trigger] pairs[j]).0 != "payload_on"@ by {
        assert(j == 4 || j == 5 || j == 6 || j == 7);
    }
    assert forall|j: int| 4 < j < pairs.len() implies (#[trigger] pairs[j]).0 != "payload_off"@ by {
        assert(j == 5 || j == 6 || j == 7);
    }
    assert forall|j: int| 0 <= j < avail.len() implies (#[trigger] avail[j]).0 != "state_topic"@
        && avail[j].0 != "payload_on"@ && avail[j].0 != "payload_off"@ by {
        assert(j == 0 || j == 1 || j == 2);
    }
    lemma_document_member(pairs, avail, "state_topic"@, 2);
    lemma_document_member(pairs, avail, "payload_on"@, 3);
    lemma_document_member(pairs, avail, "payload_off"@, 4);
    assert(pairs[1].0 == "unique_id"@ && pairs[2].0 == "state_topic"@);
    assert(pairs[1].0.len() == 9 && pairs[2].0.len() == 11 && "name"@.len() == 4);
    assert forall|j: int| 0 < j < pairs.len() implies (#[trigger] pairs[j]).0 != "name"@ by {
        assert(j == 1 || j == 2 || j == 3 || j == 4 || j == 5 || j == 6 || j == 7);
    }
    assert forall|j: int| 5 < j < pairs.len() implies (#[trigger] pairs[j]).0 != "device_class"@ by {
        assert(j == 6 || j == 7);
    }
    assert forall|j: int| 0 <= j < avail.len() implies (#[trigger] avail[j]).0 != "name"@
        && avail[j].0 != "device_class"@ by {
        assert(j == 0 || j == 1 || j == 2);
    }
    lemma_document_member(pairs, avail, "name"@, 0);
    lemma_document_member(pairs, avail, "device_class"@, 5);
}


/// A zone's entity is named by the zone's name, or "Zone <id>" when the zone has none.
pub proof fn lemma_zone_document_name(zone: ZoneView, ctx: CtxView)
    ensures
        zone.name.len() > 0 ==> crate::json::member(zone_discovery_document(zone, ctx), "name"@)
            == Some(str_v(zone.name)),
        zone.name.len() == 0 ==> crate::json::member(zone_discovery_document(zone, ctx), "name"@)
            == Some(str_v("Zone "@ + decimal(zone.id as nat))),
{
    reveal_strlit("name");
    reveal_strlit("unique_id");
    reveal_strlit("state_topic");
    reveal_strlit("payload_on");
    reveal_strlit("payload_off");
    reveal_strlit("json_attributes_topic");
    reveal_strlit("device");
    reveal_strlit("device_class");
    reveal_strlit("availability_topic");
    reveal_strlit("payload_available");
    reveal_strlit("payload_not_available");
    let id = decimal(zone.id as nat);
    let pairs = seq![
        ("name"@, str_v(zone_title(zone))),
        ("unique_id"@, str_v("spc_"@ + ctx.serial + "_zone_"@ + id)),
        ("state_topic"@, str_v(ctx.topic_prefix + "/zone/"@ + id + "/state"@)),
        ("payload_on"@, str_v("ON"@)),
        ("payload_off"@, str_v("OFF"@)),
        ("json_attributes_topic"@, str_v(ctx.topic_prefix + "/zone/"@ + id + "/attributes"@)),
        ("device"@, device_info_spec(ctx)),
    ];
    let avail = seq![
        ("availability_topic"@, str_v(ctx.topic_prefix + "/status"@)),
        ("payload_available"@, str_v("online"@)),
        ("payload_not_available"@, str_v("offline"@)),
    ];
    let base = merge_members(object_of(pairs), object_of(avail));
    assert(pairs[1].0 == "unique_id"@ && pairs[2].0 == "state_topic"@ && pairs[3].0
        == "payload_on"@ && pairs[4].0 == "payload_off"@ && pairs[5].0
        == "json_attributes_topic"@ && pairs[6].0 == "device"@);
    assert(pairs[1].0.len() == 9 && pairs[2].0.len() == 11 && pairs[3].0.len() == 10
        && pairs[4].0.len() == 11 && pairs[5].0.len() == 21 && pairs[6].0.len() == 6
        && "name"@.len() == 4);
    assert(avail[0].0 == "availability_topic"@ && avail[1].0 == "payload_available"@
        && avail[2].0 == "payload_not_available"@);
    assert(avail[0].0.len() == 18 && avail[1].0.len() == 17 && avail[2].0.len() == 21);
    assert forall|j: int| 0 < j < pairs.len() implies (#[trigger] pairs[j]).0 != "name"@ by {
        assert(j == 1 || j == 2 || j == 3 || j == 4 || j == 5 || j == 6);
    }
    assert forall|j: int| 0 <= j < avail.len() implies (#[trigger] avail[j]).0 != "name"@ by {
        assert(j == 0 || j == 1 || j == 2);
    }
    lemma_document_member(pairs, avail, "name"@, 0);
    assert(base == merge_members(object_of(pairs), availability_spec(ctx)));
    if zone.device_class.len() > 0 {
        let extra = seq![("device_class"@, str_v(zone.device_class))];
        assert(extra.drop_last() =~= Seq::<(Seq<char>, ValueView)>::empty());
        assert(extra.last().0 == "device_class"@);
        assert(crate::json::last_value(extra.drop_last(), "name"@) is None);
        assert(crate::json::last_value(extra, "name"@) is None);
        crate::json::lemma_merge_member(base, extra, "name"@);
        assert(zone_discovery_document(zone, ctx) == merge_members(base, extra));
    } else {
        assert(zone_discovery_document(zone, ctx) == base);
    }
}

/// The discovery topics: `<discovery prefix>/<component>/spc_<serial>/<object>/config`,
/// with the zone's binary sensor as `zone_<id>`, the area's select as `area_<id>`, a
/// system sensor by its sensor id, the event sensor as `last_event`, and the buttons as
/// `zone_<id>_<action>` and `<sensor id>_<action>`.
pub proof fn lemma_discovery_topics(
    zone: ZoneView,
    area: AreaView,
    sensor_id: Seq<char>,
    action: Seq<char>,
    ctx: CtxView,
)
    ensures
        zone_discovery_topic_spec(zone, ctx) == ctx.discovery_prefix + "/binary_sensor/spc_"@
            + ctx.serial + "/zone_"@ + decimal(zone.id as nat) + "/config"@,
        area_discovery_topic_spec(area, ctx) == ctx.discovery_prefix + "/select/spc_"@
            + ctx.serial + "/area_"@ + decimal(area.id as nat) + "/config"@,
        system_sensor_discovery_topic_spec(sensor_id, ctx) == ctx.discovery_prefix
            + "/binary_sensor/spc_"@ + ctx.serial + "/"@ + sensor_id + "/config"@,
        event_sensor_discovery_topic_spec(ctx) == ctx.discovery_prefix + "/sensor/spc_"@
            + ctx.serial + "/last_event/config"@,
        zone_button_discovery_topic_spec(zone, action, ctx) == ctx.discovery_prefix
            + "/button/spc_"@ + ctx.serial + "/zone_"@ + decimal(zone.id as nat) + "_"@ + action
            + "/config"@,
        alert_button_discovery_topic_spec(sensor_id, action, ctx) == ctx.discovery_prefix
            + "/button/spc_"@ + ctx.serial + "/"@ + sensor_id + "_"@ + action + "/config"@,
{
    reveal_strlit("/binary_sensor/");
    reveal_strlit("/binary_sensor/spc_");
    reveal_strlit("/select/");
    reveal_strlit("/select/spc_");
    reveal_strlit("/sensor/");
    reveal_strlit("/sensor/spc_");
    reveal_strlit("/button/");
    reveal_strlit("/button/spc_");
    reveal_strlit("spc_");
    let dp = ctx.discovery_prefix;
    let nid = "spc_"@ + ctx.serial;
    assert(dp + "/binary_sensor/"@ + nid =~= dp + "/binary_sensor/spc_"@ + ctx.serial);
    assert(dp + "/select/"@ + nid =~= dp + "/select/spc_"@ + ctx.serial);
    assert(dp + "/sensor/"@ + nid =~= dp + "/sensor/spc_"@ + ctx.serial);
    assert(dp + "/button/"@ + nid =~= dp + "/button/spc_"@ + ctx.serial);
}


/// An availability member of a document made of `pairs` and then the availability
/// members `avail`: the last of `avail` named `k`.
proof fn lemma_document_avail_member(pairs: Members, avail: Members, k: Seq<char>, i: int)
    requires
        0 <= i < avail.len(),
        avail[i].0 == k,
        forall|j: int| i < j < avail.len() ==> (#[trigger] avail[j]).0 != k,
    ensures
        crate::json::member(merge_members(object_of(pairs), object_of(avail)), k) == Some(
            avail[i].1,
        ),
        crate::json::distinct_keys(merge_members(object_of(pairs), object_of(avail))),
{
    let empty = Seq::<(Seq<char>, ValueView)>::empty();
    crate::json::lemma_merge_member(empty, pairs, k);
    crate::json::lemma_merge_member(empty, avail, k);
    crate::json::lemma_last_value_at(avail, k, i);
    crate::json::lemma_last_value_distinct(object_of(avail), k);
    crate::json::lemma_merge_member(object_of(pairs), object_of(avail), k);
}

/// The device every entity belongs to: the panel, identified by `spc_<serial>`, made by
/// Vanderbilt, named and modelled by the panel's name, with its serial number.
pub open spec fn panel_device(ctx: CtxView) -> ValueView {
    ValueView::Object(
        seq![
            ("identifiers"@, LeafView::StrList(seq!["spc_"@ + ctx.serial])),
            ("name"@, LeafView::Str(ctx.name)),
            ("manufacturer"@, LeafView::Str("Vanderbilt"@)),
            ("model"@, LeafView::Str(ctx.name)),
            ("serial_number"@, LeafView::Str(ctx.serial)),
        ],
    )
}

/// A zone's and an area's entity are available on `<prefix>/status` ("online" /
/// "offline"), belong to the panel's device, and have the unique ids
/// `spc_<serial>_zone_<id>` and `spc_<serial>_area_<id>`.
pub proof fn lemma_documents_identity(zone: ZoneView, area: AreaView, ctx: CtxView)
    ensures
        ({
            let z = zone_discovery_document(zone, ctx);
            let a = area_discovery_document(area, ctx);
            &&& crate::json::member(z, "availability_topic"@) == Some(
                str_v(ctx.topic_prefix + "/status"@),
            )
            &&& crate::json::member(z, "payload_available"@) == Some(str_v("online"@))
            &&& crate::json::member(z, "payload_not_available"@) == Some(str_v("offline"@))
            &&& crate::json::member(z, "device"@) == Some(panel_device(ctx))
            &&& crate::json::member(z, "unique_id"@) == Some(
                str_v("spc_"@ + ctx.serial + "_zone_"@ + decimal(zone.id as nat)),
            )
            &&& crate::json::member(a, "availability_topic"@) == Some(
                str_v(ctx.topic_prefix + "/status"@),
            )
            &&& crate::json::member(a, "payload_available"@) == Some(str_v("online"@))
            &&& crate::json::member(a, "payload_not_available"@) == Some(str_v("offline"@))
            &&& crate::json::member(a, "device"@) == Some(panel_device(ctx))
            &&& crate::json::member(a, "unique_id"@) == Some(
                str_v("spc_"@ + ctx.serial + "_area_"@ + decimal(area.id as nat)),
            )
        }),
{
    reveal_strlit("name");
    reveal_strlit("unique_id");
    reveal_strlit("state_topic");
    reveal_strlit("command_topic");
    reveal_strlit("options");
    reveal_strlit("icon");
    reveal_strlit("payload_on");
    reveal_strlit("payload_off");
    reveal_strlit("json_attributes_topic");
    reveal_strlit("device");
    reveal_strlit("device_class");
    reveal_strlit("availability_topic");
    reveal_strlit("payload_available");
    reveal_strlit("payload_not_available");
    let avail = seq![
        ("availability_topic"@, str_v(ctx.topic_prefix + "/status"@)),
        ("payload_available"@, str_v("online"@)),
        ("payload_not_available"@, str_v("offline"@)),
    ];
    assert(avail[0].0 == "availability_topic"@ && avail[1].0 == "payload_available"@
        && avail[2].0 == "payload_not_available"@);
    assert(avail[0].0.len() == 18 && avail[1].0.len() == 17 && avail[2].0.len() == 21);
    assert forall|j: int| 0 < j < avail.len() implies (#[trigger] avail[j]).0
        != "availability_topic"@ by {
        assert(j == 1 || j == 2);
    }
    assert forall|j: int| 1 < j < avail.len() implies (#[trigger] avail[j]).0
        != "payload_available"@ by {
        assert(j == 2);
    }
    assert forall|j: int| 0 <= j < avail.len() implies (#[trigger] avail[j]).0 != "device"@
        && avail[j].0 != "unique_id"@ by {
        assert(j == 0 || j == 1 || j == 2);
    }
    assert(device_info_spec(ctx) == panel_device(ctx));
    // the zone
    let zid = decimal(zone.id as nat);
    let zp = seq![
        ("name"@, str_v(zone_title(zone))),
        ("unique_id"@, str_v("spc_"@ + ctx.serial + "_zone_"@ + zid)),
        ("state_topic"@, str_v(ctx.topic_prefix + "/zone/"@ + zid + "/state"@)),
        ("payload_on"@, str_v("ON"@)),
        ("payload_off"@, str_v("OFF"@)),
        ("json_attributes_topic"@, str_v(ctx.topic_prefix + "/zone/"@ + zid + "/attributes"@)),
        ("device"@, device_info_spec(ctx)),
    ];
    assert(zp[2].0 == "state_topic"@ && zp[3].0 == "payload_on"@ && zp[4].0 == "payload_off"@
        && zp[5].0 == "json_attributes_topic"@ && zp[6].0 == "device"@);
    assert(zp[2].0.len() == 11 && zp[3].0.len() == 10 && zp[4].0.len() == 11 && zp[5].0.len()
        == 21 && zp[6].0.len() == 6 && "unique_id"@.len() == 9);
    assert forall|j: int| 1 < j < zp.len() implies (#[trigger] zp[j]).0 != "unique_id"@ by {
        assert(j == 2 || j == 3 || j == 4 || j == 5 || j == 6);
    }
    lemma_document_member(zp, avail, "unique_id"@, 1);
    lemma_document_member(zp, avail, "device"@, 6);
    lemma_document_avail_member(zp, avail, "availability_topic"@, 0);
    lemma_document_avail_member(zp, avail, "payload_available"@, 1);
    lemma_document_avail_member(zp, avail, "payload_not_available"@, 2);
    let zbase = merge_members(object_of(zp), object_of(avail));
    assert(zbase == merge_members(object_of(zp), availability_spec(ctx)));
    if zone.device_class.len() > 0 {
        let extra = seq![("device_class"@, str_v(zone.device_class))];
        let e0 = extra.drop_last();
        assert(e0 =~= Seq::<(Seq<char>, ValueView)>::empty());
        assert(extra.last().0 == "device_class"@);
        assert(crate::json::last_value(e0, "availability_topic"@) is None);
        assert(crate::json::last_value(e0, "payload_available"@) is None);
        assert(crate::json::last_value(e0, "payload_not_available"@) is None);
        assert(crate::json::last_value(e0, "device"@) is None);
        assert(crate::json::last_value(e0, "unique_id"@) is None);
        crate::json::lemma_merge_member(zbase, extra, "availability_topic"@);
        crate::json::lemma_merge_member(zbase, extra, "payload_available"@);
        crate::json::lemma_merge_member(zbase, extra, "payload_not_available"@);
        crate::json::lemma_merge_member(zbase, extra, "device"@);
        crate::json::lemma_merge_member(zbase, extra, "unique_id"@);
        assert(zone_discovery_document(zone, ctx) == merge_members(zbase, extra));
    } else {
        assert(zone_discovery_document(zone, ctx) == zbase);
    }
    // the area
    let aid = decimal(area.id as nat);
    let ap = seq![
        ("name"@, str_v(area_title(area))),
        ("unique_id"@, str_v("spc_"@ + ctx.serial + "_area_"@ + aid)),
        ("state_topic"@, str_v(ctx.topic_prefix + "/area/"@ + aid + "/state"@)),
        ("command_topic"@, str_v(ctx.topic_prefix + "/area/"@ + aid + "/set"@)),
        ("options"@, ValueView::Leaf(LeafView::StrList(area.all_options))),
        ("icon"@, str_v("mdi:shield-home"@)),
        ("device"@, device_info_spec(ctx)),
    ];
    assert(ap[2].0 == "state_topic"@ && ap[3].0 == "command_topic"@ && ap[4].0 == "options"@
        && ap[5].0 == "icon"@ && ap[6].0 == "device"@);
    assert(ap[2].0.len() == 11 && ap[3].0.len() == 13 && ap[4].0.len() == 7 && ap[5].0.len()
        == 4 && ap[6].0.len() == 6);
    assert forall|j: int| 1 < j < ap.len() implies (#[trigger] ap[j]).0 != "unique_id"@ by {
        assert(j == 2 || j == 3 || j == 4 || j == 5 || j == 6);
    }
    lemma_document_member(ap, avail, "unique_id"@, 1);
    lemma_document_member(ap, avail, "device"@, 6);
    lemma_document_avail_member(ap, avail, "availability_topic"@, 0);
    lemma_document_avail_member(ap, avail, "payload_available"@, 1);
    lemma_document_avail_member(ap, avail, "payload_not_available"@, 2);
}

} // verus!
