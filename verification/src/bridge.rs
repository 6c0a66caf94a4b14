//! The bridge's decisions: commands from MQTT, what to send to the panel for them,
//! and what to publish after each poll of the panel.

use std::collections::HashMap;
use vstd::prelude::*;

use crate::config::Config;
use crate::discovery::{Ctx, CtxView};
use crate::model::{Area, AreaView, PanelState, SystemAlert, Zone, ZoneView};
use crate::text::{
    chars_eq, chars_eq_str, contains, contains_str, decimal, from_chars, lowercase, parse_u32,
    parse_u32_chars, push_chars, push_decimal, push_str, replace_all, replace_chars, strip_prefix,
    strip_prefix_chars, strip_prefix_str, strip_suffix, strip_suffix_str, to_chars, to_lowercase,
};

verus! {

broadcast use vstd::std_specs::hash::group_hash_axioms;

// ---------------------------------------------------------------------------
// Commands received over MQTT
// ---------------------------------------------------------------------------

/// A command published by Home Assistant.
#[derive(Debug, Clone)]
pub enum Command {
    Area { area_id: u32, label: String },
    Zone { zone_id: u32, action: String },
    Alert { sensor_id: String, action: String },
}

pub enum CommandView {
    Area(u32, Seq<char>),
    Zone(u32, Seq<char>),
    Alert(Seq<char>, Seq<char>),
}

impl View for Command {
    type V = CommandView;

    open spec fn view(&self) -> CommandView {
        match self {
            Command::Area { area_id, label } => CommandView::Area(*area_id, label@),
            Command::Zone { zone_id, action } => CommandView::Zone(*zone_id, action@),
            Command::Alert { sensor_id, action } => CommandView::Alert(sensor_id@, action@),
        }
    }
}

/// The command a message carries: `<prefix>/area/<id>/set` selects an area option,
/// `<prefix>/zone/<id>/action` and `<prefix>/alert/<sensor>/action` press a button;
/// the payload is the option or the action.
pub open spec fn command_of(prefix: Seq<char>, topic: Seq<char>, payload: Seq<char>) -> Option<
    CommandView,
> {
    match strip_prefix(topic, prefix + "/area/"@) {
        Some(rest) => match strip_suffix(rest, "/set"@) {
            Some(id) => match parse_u32(id) {
                Ok(n) => Some(CommandView::Area(n, payload)),
                Err(_) => None,
            },
            None => None,
        },
        None => match strip_prefix(topic, prefix + "/zone/"@) {
            Some(rest) => match strip_suffix(rest, "/action"@) {
                Some(id) => match parse_u32(id) {
                    Ok(n) => Some(CommandView::Zone(n, payload)),
                    Err(_) => None,
                },
                None => None,
            },
            None => match strip_prefix(topic, prefix + "/alert/"@) {
                Some(rest) => match strip_suffix(rest, "/action"@) {
                    Some(sensor) => Some(CommandView::Alert(sensor, payload)),
                    None => None,
                },
                None => None,
            },
        },
    }
}

fn prefixed(prefix: &str, tail: &str) -> (v: Vec<char>)
    ensures
        v@ == prefix@ + tail@,
{
    let mut v = to_chars(prefix);
    push_str(&mut v, tail);
    v
}

/// The command of an incoming message (the topic dispatch of the MQTT event loop).
pub fn parse_command(prefix: &str, topic: &str, payload: &str) -> (r: Option<Command>)
    ensures
        match r {
            Some(c) => command_of(prefix@, topic@, payload@) == Some(c@),
            None => command_of(prefix@, topic@, payload@) is None,
        },
{
    let t = to_chars(topic);
    let area_prefix = prefixed(prefix, "/area/");
    let zone_prefix = prefixed(prefix, "/zone/");
    let alert_prefix = prefixed(prefix, "/alert/");
    match strip_prefix_chars(t.as_slice(), area_prefix.as_slice()) {
        Some(rest) => match strip_suffix_str(rest.as_slice(), "/set") {
            Some(id) => match parse_u32_chars(id.as_slice()) {
                Ok(n) => Some(Command::Area { area_id: n, label: String::from_str(payload) }),
                Err(_) => None,
            },
            None => None,
        },
        None => match strip_prefix_chars(t.as_slice(), zone_prefix.as_slice()) {
            Some(rest) => match strip_suffix_str(rest.as_slice(), "/action") {
                Some(id) => match parse_u32_chars(id.as_slice()) {
                    Ok(n) => Some(Command::Zone { zone_id: n, action: String::from_str(payload) }),
                    Err(_) => None,
                },
                None => None,
            },
            None => match strip_prefix_chars(t.as_slice(), alert_prefix.as_slice()) {
                Some(rest) => match strip_suffix_str(rest.as_slice(), "/action") {
                    Some(sensor) => Some(
                        Command::Alert {
                            sensor_id: from_chars(sensor.as_slice()),
                            action: String::from_str(payload),
                        },
                    ),
                    None => None,
                },
                None => None,
            },
        },
    }
}

// ---------------------------------------------------------------------------
// Naming
// ---------------------------------------------------------------------------

/// The device class a zone gets from its type when none is configured.
pub open spec fn default_device_class_spec(zone_type: Seq<char>) -> Seq<char> {
    if contains(zone_type, "Entry"@) || contains(zone_type, "Exit"@) {
        "door"@
    } else if contains(zone_type, "Fire"@) {
        "smoke"@
    } else if contains(zone_type, "Alarm"@) {
        "motion"@
    } else {
        "opening"@
    }
}

pub fn default_device_class(zone_type: &str) -> (s: String)
    ensures
        s@ == default_device_class_spec(zone_type@),
{
    let t = to_chars(zone_type);
    if contains_str(t.as_slice(), "Entry") || contains_str(t.as_slice(), "Exit") {
        String::from_str("door")
    } else if contains_str(t.as_slice(), "Fire") {
        String::from_str("smoke")
    } else if contains_str(t.as_slice(), "Alarm") {
        String::from_str("motion")
    } else {
        String::from_str("opening")
    }
}

/// The sensor id of a system alert: its name lower-cased, spaces made `_`, dots
/// dropped, and `controller_` dropped.
pub open spec fn alert_sensor_id_spec(name: Seq<char>) -> Seq<char> {
    replace_all(
        replace_all(replace_all(lowercase(name), " "@, "_"@), "."@, ""@),
        "controller_"@,
        ""@,
    )
}

pub fn alert_sensor_id(name: &str) -> (s: String)
    ensures
        s@ == alert_sensor_id_spec(name@),
{
    proof {
        reveal_strlit(" ");
        reveal_strlit(".");
        reveal_strlit("controller_");
    }
    let lower = to_lowercase(name);
    let l = to_chars(lower.as_str());
    let a = replace_chars(l.as_slice(), " ", "_");
    let b = replace_chars(a.as_slice(), ".", "");
    let c = replace_chars(b.as_slice(), "controller_", "");
    from_chars(c.as_slice())
}

/// The discovery context of the panel under a configuration.
pub fn make_ctx<'a>(name: &'a str, serial: &'a str, config: &'a Config) -> (c: Ctx<'a>)
    ensures
        c@ == (CtxView {
            name: name@,
            serial: serial@,
            topic_prefix: config.topic_prefix@,
            discovery_prefix: config.discovery_prefix@,
        }),
{
    Ctx {
        name,
        serial,
        topic_prefix: config.topic_prefix.as_str(),
        discovery_prefix: config.discovery_prefix.as_str(),
    }
}

// ---------------------------------------------------------------------------
// What a command asks of the panel
// ---------------------------------------------------------------------------

/// The views of the known areas.
pub open spec fn areas_view(m: Map<u32, Area>) -> Map<u32, AreaView> {
    m.map_values(|a: Area| a@)
}

/// The views of the known zones.
pub open spec fn zones_view(m: Map<u32, Zone>) -> Map<u32, ZoneView> {
    m.map_values(|z: Zone| z@)
}

/// The form name of the first action at or after `i` that has the label.
pub open spec fn action_with_label(actions: Seq<(Seq<char>, Seq<char>)>, label: Seq<char>, i: nat) -> Option<
    Seq<char>,
>
    decreases actions.len() - i,
{
    if i >= actions.len() {
        None
    } else if actions[i as int].0 == label {
        Some(actions[i as int].1)
    } else {
        action_with_label(actions, label, i + 1)
    }
}

/// The area part of a form name that starts `fullset_`, `partset_a_` or `partset_b_`.
pub open spec fn set_suffix(form: Seq<char>) -> Option<Seq<char>> {
    match strip_prefix(form, "fullset_"@) {
        Some(x) => Some(x),
        None => match strip_prefix(form, "partset_a_"@) {
            Some(x) => Some(x),
            None => strip_prefix(form, "partset_b_"@),
        },
    }
}

/// The button to press to bring an area to `label`: none when it is already there;
/// the action with that label; for "Unset" without such an action, `unset_` with the
/// area part of the first action's form name, or `unset_area<id>`.
pub open spec fn area_button(area: AreaView, area_id: u32, label: Seq<char>) -> Option<Seq<char>> {
    if area.state == label {
        None
    } else {
        match action_with_label(area.actions, label, 0) {
            Some(f) => Some(f),
            None => if label == "Unset"@ {
                if area.actions.len() > 0 && set_suffix(area.actions[0].1) is Some {
                    Some("unset_"@ + set_suffix(area.actions[0].1).unwrap())
                } else {
                    Some("unset_area"@ + decimal(area_id as nat))
                }
            } else {
                None
            },
        }
    }
}

/// The index of the first alert at or after `i` whose sensor id is `sensor`.
pub open spec fn alert_position(alerts: Seq<(Seq<char>, bool, u32)>, sensor: Seq<char>, i: nat) -> Option<
    nat,
>
    decreases alerts.len() - i,
{
    if i >= alerts.len() {
        None
    } else if alert_sensor_id_spec(alerts[i as int].0) == sensor {
        Some(i)
    } else {
        alert_position(alerts, sensor, i + 1)
    }
}

/// The button to press and the page it is on, for a command in a panel state;
/// `None` when the command asks for nothing.
pub open spec fn command_target(
    areas: Map<u32, AreaView>,
    alerts: Seq<(Seq<char>, bool, u32)>,
    cmd: CommandView,
) -> Option<(Seq<char>, Seq<char>)> {
    match cmd {
        CommandView::Area(id, label) => if areas.contains_key(id) {
            match area_button(areas[id], id, label) {
                Some(b) => Some((b, "system_summary"@)),
                None => None,
            }
        } else {
            None
        },
        CommandView::Zone(id, action) => Some((action + decimal(id as nat), "status_zones"@)),
        CommandView::Alert(sensor, action) => match alert_position(alerts, sensor, 0) {
            Some(i) => Some((action + decimal(alerts[i as int].2 as nat), "status_sysalert"@)),
            None => None,
        },
    }
}

proof fn lemma_alert_position(alerts: Seq<(Seq<char>, bool, u32)>, sensor: Seq<char>, i: nat)
    ensures
        alert_position(alerts, sensor, i) matches Some(k) ==> i <= k < alerts.len(),
    decreases alerts.len() - i,
{
    if i < alerts.len() && alert_sensor_id_spec(alerts[i as int].0) != sensor {
        lemma_alert_position(alerts, sensor, i + 1);
    }
}

fn area_button_of(area: &Area, area_id: u32, label: &String) -> (r: Option<String>)
    ensures
        match r {
            Some(b) => area_button(area@, area_id, label@) == Some(b@),
            None => area_button(area@, area_id, label@) is None,
        },
{
    if area.state == *label {
        return None;
    }
    let n = area.actions.len();
    let mut i: usize = 0;
    while i < n
        invariant
            n == area@.actions.len(),
            i <= n,
            area@.state != label@,
            action_with_label(area@.actions, label@, 0) == action_with_label(
                area@.actions,
                label@,
                i as nat,
            ),
        decreases n - i,
    {
        if area.actions[i].label == *label {
            return Some(area.actions[i].form_name.clone());
        }
        i = i + 1;
    }
    let l = to_chars(label.as_str());
    if !chars_eq_str(l.as_slice(), "Unset") {
        return None;
    }
    if n > 0 {
        let f = to_chars(area.actions[0].form_name.as_str());
        let suffix = match strip_prefix_str(f.as_slice(), "fullset_") {
            Some(x) => Some(x),
            None => match strip_prefix_str(f.as_slice(), "partset_a_") {
                Some(x) => Some(x),
                None => strip_prefix_str(f.as_slice(), "partset_b_"),
            },
        };
        match suffix {
            Some(sfx) => {
                let mut b = to_chars("unset_");
                push_chars(&mut b, sfx.as_slice());
                return Some(from_chars(b.as_slice()));
            },
            None => {},
        }
    }
    let mut b = to_chars("unset_area");
    push_decimal(&mut b, area_id);
    Some(from_chars(b.as_slice()))
}

/// The views of the alerts.
pub open spec fn alert_views(a: Seq<SystemAlert>) -> Seq<(Seq<char>, bool, u32)> {
    a.map_values(|x: SystemAlert| x@)
}

/// The button to press and the page it is on, for a command (the decision of the
/// command handler); `None` when the command asks for nothing.
pub fn resolve_command(state: &PanelState, cmd: &Command) -> (r: Option<(String, &'static str)>)
    ensures
        match r {
            Some((b, page)) => command_target(areas_view(state.areas@), alert_views(state.alerts@), cmd@)
                == Some((b@, page@)),
            None => command_target(areas_view(state.areas@), alert_views(state.alerts@), cmd@) is None,
        },
{
    match cmd {
        Command::Area { area_id, label } => match state.areas.get(area_id) {
            Some(area) => match area_button_of(area, *area_id, label) {
                Some(b) => Some((b, "system_summary")),
                None => None,
            },
            None => None,
        },
        Command::Zone { zone_id, action } => {
            let mut b = to_chars(action.as_str());
            push_decimal(&mut b, *zone_id);
            Some((from_chars(b.as_slice()), "status_zones"))
        },
        Command::Alert { sensor_id, action } => {
            let n = state.alerts.len();
            let mut i: usize = 0;
            let ghost av = alert_views(state.alerts@);
            while i < n
                invariant
                    n == state.alerts@.len(),
                    av == alert_views(state.alerts@),
                    cmd@ == CommandView::Alert(sensor_id@, action@),
                    i <= n,
                    alert_position(av, sensor_id@, 0) == alert_position(av, sensor_id@, i as nat),
                decreases n - i,
            {
                let sid = alert_sensor_id(state.alerts[i].name.as_str());
                assert(av[i as int] == state.alerts@[i as int]@);
                if sid == *sensor_id {
                    let mut b = to_chars(action.as_str());
                    push_decimal(&mut b, state.alerts[i].button_index);
                    return Some((from_chars(b.as_slice()), "status_sysalert"));
                }
                i = i + 1;
            }
            None
        },
    }
}

// ---------------------------------------------------------------------------
// Discovery bookkeeping
// ---------------------------------------------------------------------------

/// The discovery messages already published in this MQTT session, by key.
#[derive(Debug)]
pub struct Discovered {
    keys: Vec<String>,
}

impl View for Discovered {
    type V = Set<Seq<char>>;

    closed spec fn view(&self) -> Set<Seq<char>> {
        Set::new(|k: Seq<char>| exists|i: int| 0 <= i < self.keys@.len() && self.keys@[i]@ == k)
    }
}

impl Discovered {
    /// Nothing published yet.
    pub fn new() -> (d: Discovered)
        ensures
            d@ == Set::<Seq<char>>::empty(),
    {
        let d = Discovered { keys: Vec::new() };
        assert(d@ =~= Set::<Seq<char>>::empty());
        d
    }

    /// Whether the key is recorded.
    pub fn contains(&self, k: &[char]) -> (b: bool)
        ensures
            b == self@.contains(k@),
    {
        let n = self.keys.len();
        let mut i: usize = 0;
        while i < n
            invariant
                n == self.keys@.len(),
                i <= n,
                forall|j: int| 0 <= j < i ==> self.keys@[j]@ != k@,
            decreases n - i,
        {
            let key = to_chars(self.keys[i].as_str());
            if chars_eq(key.as_slice(), k) {
                return true;
            }
            i = i + 1;
        }
        false
    }

    /// Records a key.
    pub fn insert(&mut self, k: &[char])
        ensures
            final(self)@ == old(self)@.insert(k@),
    {
        if !self.contains(k) {
            let s = from_chars(k);
            self.keys.push(s);
            assert forall|x: Seq<char>| #[trigger] self@.contains(x) <==> old(self)@.insert(
                k@,
            ).contains(x) by {
                if x == k@ {
                    assert(self.keys@[self.keys@.len() - 1]@ == x);
                }
                if old(self)@.contains(x) {
                    let i = choose|i: int| 0 <= i < old(self).keys@.len() && old(self).keys@[i]@ == x;
                    assert(self.keys@[i] == old(self).keys@[i]);
                }
            }
            assert(self@ =~= old(self)@.insert(k@));
        } else {
            assert(self@ =~= old(self)@.insert(k@));
        }
    }
}

// ---------------------------------------------------------------------------
// Polling: the panel state and the messages after reading the pages
// ---------------------------------------------------------------------------

/// A message to publish (at least once, retained).
#[derive(Debug, Clone)]
pub struct Publish {
    pub topic: String,
    pub payload: String,
}

impl View for Publish {
    type V = (Seq<char>, Seq<char>);

    open spec fn view(&self) -> (Seq<char>, Seq<char>) {
        (self.topic@, self.payload@)
    }
}

pub open spec fn publishes_view(v: Seq<Publish>) -> Seq<(Seq<char>, Seq<char>)> {
    v.map_values(|p: Publish| p@)
}

/// What a poll reads and changes: the known areas, zones and alerts, the discovery
/// keys published, and the messages to publish so far.
pub struct PollWorld {
    pub areas: Map<u32, AreaView>,
    pub zones: Map<u32, ZoneView>,
    pub alerts: Seq<(Seq<char>, bool, u32)>,
    pub discovered: Set<Seq<char>>,
    pub messages: Seq<(Seq<char>, Seq<char>)>,
}

/// An area not seen before.
pub open spec fn new_area_view(id: u32) -> AreaView {
    AreaView { id, name: seq![], state: "Unset"@, actions: seq![], all_options: seq![] }
}

/// A zone not seen before.
pub open spec fn new_zone_view(id: u32) -> ZoneView {
    ZoneView {
        id,
        name: seq![],
        area_id: 0,
        zone_type: seq![],
        input: crate::model::ZoneInput::Unknown,
        status: seq![],
        state: crate::model::ZoneState::Unknown,
        device_class: seq![],
    }
}

/// The labels of actions.
pub open spec fn labels_of(actions: Seq<(Seq<char>, Seq<char>)>) -> Seq<Seq<char>> {
    actions.map_values(|x: (Seq<char>, Seq<char>)| x.0)
}

/// An area after a poll: a non-empty parsed name replaces the name, the state and
/// actions are the parsed ones, and the state and action labels join the options.
pub open spec fn polled_area(before: Option<AreaView>, pa: crate::parser::ParsedAreaView) -> AreaView {
    let a = match before {
        Some(a) => a,
        None => new_area_view(pa.id),
    };
    AreaView {
        id: a.id,
        name: if pa.name.len() > 0 {
            pa.name
        } else {
            a.name
        },
        state: pa.state,
        actions: pa.actions,
        all_options: crate::model::accumulate(a.all_options, seq![pa.state] + labels_of(pa.actions)),
    }
}

pub open spec fn area_key(a: AreaView) -> Seq<char> {
    "area_"@ + decimal(a.id as nat)
}

pub open spec fn area_options_key(a: AreaView) -> Seq<char> {
    "area_"@ + decimal(a.id as nat) + "_opts_"@ + crate::text::join(a.all_options, ","@)
}

/// A poll step for one parsed area: update the area; publish its discovery when its key
/// or its set of options is new; publish its state.
pub open spec fn area_step(
    w: PollWorld,
    ctx: CtxView,
    pa: crate::parser::ParsedAreaView,
) -> PollWorld {
    let before = if w.areas.contains_key(pa.id) {
        Some(w.areas[pa.id])
    } else {
        None
    };
    let a = polled_area(before, pa);
    let disc = !w.discovered.contains(area_key(a)) || !w.discovered.contains(area_options_key(a));
    PollWorld {
        areas: w.areas.insert(pa.id, a),
        discovered: if disc {
            w.discovered.insert(area_key(a)).insert(area_options_key(a))
        } else {
            w.discovered
        },
        messages: w.messages + (if disc {
            seq![
                (
                    crate::discovery::area_discovery_topic_spec(a, ctx),
                    crate::json::json_text(crate::discovery::area_discovery_document(a, ctx)),
                ),
            ]
        } else {
            seq![]
        }) + seq![(ctx.topic_prefix + "/area/"@ + decimal(a.id as nat) + "/state"@, a.state)],
        ..w
    }
}

pub open spec fn areas_fold(w: PollWorld, ctx: CtxView, pas: Seq<crate::parser::ParsedAreaView>) -> PollWorld
    decreases pas.len(),
{
    if pas.len() == 0 {
        w
    } else {
        area_step(areas_fold(w, ctx, pas.drop_last()), ctx, pas.last())
    }
}

fn area_key_chars(id: u32) -> (v: Vec<char>)
    ensures
        v@ == "area_"@ + decimal(id as nat),
{
    let mut v = to_chars("area_");
    push_decimal(&mut v, id);
    v
}

/// One poll step for a parsed area.
fn poll_area(
    ctx: &Ctx,
    areas: &mut HashMap<u32, Area>,
    discovered: &mut Discovered,
    messages: &mut Vec<Publish>,
    pa: &crate::parser::ParsedArea,
)
    ensures
        ({
            let w = PollWorld {
                areas: areas_view(old(areas)@),
                zones: Map::empty(),
                alerts: seq![],
                discovered: old(discovered)@,
                messages: publishes_view(old(messages)@),
            };
            let w2 = area_step(w, ctx@, pa@);
            &&& areas_view(final(areas)@) == w2.areas
            &&& final(discovered)@ == w2.discovered
            &&& publishes_view(final(messages)@) == w2.messages
        }),
{
    let ghost before = if areas@.contains_key(pa.id) {
        Some(areas@[pa.id]@)
    } else {
        None
    };
    let mut area = match areas.remove(&pa.id) {
        Some(a) => a,
        None => Area::new(pa.id),
    };
    assert(area@ == (match before {
        Some(a) => a,
        None => new_area_view(pa.id),
    })) by {
        if before is None {
            assert(area@.actions =~= Seq::<(Seq<char>, Seq<char>)>::empty());
            assert(area@.all_options =~= Seq::<Seq<char>>::empty());
        }
    }
    let pname = to_chars(pa.name.as_str());
    if pname.len() > 0 {
        area.name = pa.name.clone();
    }
    area.state = pa.state.clone();
    area.actions = crate::model::duplicate_actions(&pa.actions);
    area.update_options();
    let ghost a = polled_area(before, pa@);
    assert(crate::model::action_labels(area.actions@) =~= labels_of(
        crate::model::actions_view(area.actions@),
    ));
    assert(area@ == a);
    let key = area_key_chars(area.id);
    let mut okey = area_key_chars(area.id);
    push_str(&mut okey, "_opts_");
    let joined = crate::text::join_strings(area.select_options(), ",");
    push_chars(&mut okey, joined.as_slice());
    if !discovered.contains(key.as_slice()) || !discovered.contains(okey.as_slice()) {
        discovered.insert(key.as_slice());
        discovered.insert(okey.as_slice());
        let p = Publish {
            topic: crate::discovery::area_discovery_topic(&area, ctx),
            payload: crate::discovery::area_discovery_payload(&area, ctx),
        };
        let ghost m0 = messages@;
        messages.push(p);
        assert(publishes_view(messages@) =~= publishes_view(m0).push(p@));
    }
    let mut st = to_chars(ctx.topic_prefix);
    push_str(&mut st, "/area/");
    push_decimal(&mut st, area.id);
    push_str(&mut st, "/state");
    let p = Publish { topic: from_chars(st.as_slice()), payload: area.state.clone() };
    let ghost m1 = messages@;
    messages.push(p);
    assert(publishes_view(messages@) =~= publishes_view(m1).push(p@));
    let ghost av = area@;
    areas.insert(pa.id, area);
    assert(areas_view(areas@) =~= areas_view(old(areas)@).insert(pa.id, av));
}

/// A zone after a poll: the parsed columns replace the old ones, the state follows
/// from status and input, and a zone without a device class gets the configured one
/// or the one its type suggests.
pub open spec fn polled_zone(
    before: Option<ZoneView>,
    pz: crate::parser::ParsedZoneView,
    classes: Map<u32, Seq<char>>,
) -> ZoneView {
    let z = match before {
        Some(z) => z,
        None => new_zone_view(pz.id),
    };
    ZoneView {
        id: z.id,
        name: pz.name,
        area_id: pz.area_id,
        zone_type: pz.zone_type,
        input: pz.input,
        status: pz.status,
        state: crate::parser::zone_state_of(pz.status, pz.input),
        device_class: if z.device_class.len() == 0 {
            if classes.contains_key(z.id) {
                classes[z.id]
            } else {
                default_device_class_spec(pz.zone_type)
            }
        } else {
            z.device_class
        },
    }
}

/// The attributes document of a zone.
pub open spec fn zone_attributes(z: ZoneView) -> crate::json::Members {
    crate::discovery::object_of(
        seq![
            ("zone_name"@, crate::discovery::str_v(z.name)),
            ("zone_type"@, crate::discovery::str_v(z.zone_type)),
            ("area_id"@, crate::json::ValueView::Leaf(crate::json::LeafView::Int(z.area_id))),
            ("input"@, crate::discovery::str_v(z.input.display_text())),
            ("status"@, crate::discovery::str_v(z.status)),
            ("state_detail"@, crate::discovery::str_v(z.state.display_text())),
        ],
    )
}

pub open spec fn zone_key(z: ZoneView) -> Seq<char> {
    "zone_"@ + decimal(z.id as nat)
}

/// The discovery messages of a zone: its binary sensor and its two buttons.
pub open spec fn zone_discovery_messages(z: ZoneView, ctx: CtxView) -> Seq<(Seq<char>, Seq<char>)> {
    seq![
        (
            crate::discovery::zone_discovery_topic_spec(z, ctx),
            crate::json::json_text(crate::discovery::zone_discovery_document(z, ctx)),
        ),
        (
            crate::discovery::zone_button_discovery_topic_spec(z, "inhibit"@, ctx),
            crate::json::json_text(
                crate::discovery::zone_button_discovery_document(z, "inhibit"@, ctx),
            ),
        ),
        (
            crate::discovery::zone_button_discovery_topic_spec(z, "isolate"@, ctx),
            crate::json::json_text(
                crate::discovery::zone_button_discovery_document(z, "isolate"@, ctx),
            ),
        ),
    ]
}

/// A poll step for one parsed zone: update the zone; publish its discovery once per
/// session; publish its ON/OFF state and its attributes.
pub open spec fn zone_step(
    w: PollWorld,
    ctx: CtxView,
    classes: Map<u32, Seq<char>>,
    pz: crate::parser::ParsedZoneView,
) -> PollWorld {
    let before = if w.zones.contains_key(pz.id) {
        Some(w.zones[pz.id])
    } else {
        None
    };
    let z = polled_zone(before, pz, classes);
    let disc = !w.discovered.contains(zone_key(z));
    let id = decimal(z.id as nat);
    PollWorld {
        zones: w.zones.insert(pz.id, z),
        discovered: if disc {
            w.discovered.insert(zone_key(z))
        } else {
            w.discovered
        },
        messages: w.messages + (if disc {
            zone_discovery_messages(z, ctx)
        } else {
            seq![]
        }) + seq![
            (
                ctx.topic_prefix + "/zone/"@ + id + "/state"@,
                if z.state.spec_is_on() {
                    "ON"@
                } else {
                    "OFF"@
                },
            ),
            (
                ctx.topic_prefix + "/zone/"@ + id + "/attributes"@,
                crate::json::json_text(zone_attributes(z)),
            ),
        ],
        ..w
    }
}

pub open spec fn zones_fold(
    w: PollWorld,
    ctx: CtxView,
    classes: Map<u32, Seq<char>>,
    pzs: Seq<crate::parser::ParsedZoneView>,
) -> PollWorld
    decreases pzs.len(),
{
    if pzs.len() == 0 {
        w
    } else {
        zone_step(zones_fold(w, ctx, classes, pzs.drop_last()), ctx, classes, pzs.last())
    }
}

fn zone_attributes_text(z: &Zone) -> (s: String)
    ensures
        s@ == crate::json::json_text(zone_attributes(z@)),
{
    let mut o = crate::json::JsonObject::new();
    let mut p: Vec<(String, crate::json::JsonValue)> = Vec::new();
    let ghost v0 = crate::discovery::pairs_view(p@);
    p.push((String::from_str("zone_name"), str_val(z.name.clone())));
    p.push((String::from_str("zone_type"), str_val(z.zone_type.clone())));
    p.push(
        (
            String::from_str("area_id"),
            crate::json::JsonValue::Leaf(crate::json::JsonLeaf::Int(z.area_id)),
        ),
    );
    p.push((String::from_str("input"), str_val(z.input.display())));
    p.push((String::from_str("status"), str_val(z.status.clone())));
    p.push((String::from_str("state_detail"), str_val(z.state.display())));
    let extra = crate::json::JsonObject { entries: p };
    assert(extra@ =~= seq![
        ("zone_name"@, crate::discovery::str_v(z@.name)),
        ("zone_type"@, crate::discovery::str_v(z@.zone_type)),
        ("area_id"@, crate::json::ValueView::Leaf(crate::json::LeafView::Int(z@.area_id))),
        ("input"@, crate::discovery::str_v(z@.input.display_text())),
        ("status"@, crate::discovery::str_v(z@.status)),
        ("state_detail"@, crate::discovery::str_v(z@.state.display_text())),
    ]);
    o.merge(&extra);
    o.to_json_string()
}

fn str_val(s: String) -> (v: crate::json::JsonValue)
    ensures
        v@ == crate::discovery::str_v(s@),
{
    crate::json::JsonValue::Leaf(crate::json::JsonLeaf::Str(s))
}

fn push_publish(messages: &mut Vec<Publish>, topic: String, payload: String)
    ensures
        publishes_view(final(messages)@) == publishes_view(old(messages)@).push((topic@, payload@)),
{
    let p = Publish { topic, payload };
    let ghost pv = p@;
    messages.push(p);
    assert(publishes_view(messages@) =~= publishes_view(old(messages)@).push(pv));
}

/// Publishes the discovery of a zone (its binary sensor and its two buttons) unless it
/// was published before in this session.
pub fn ensure_zone_discovery(
    ctx: &Ctx,
    discovered: &mut Discovered,
    messages: &mut Vec<Publish>,
    zone: &Zone,
)
    ensures
        old(discovered)@.contains(zone_key(zone@)) ==> final(discovered)@ == old(discovered)@
            && publishes_view(final(messages)@) == publishes_view(old(messages)@),
        !old(discovered)@.contains(zone_key(zone@)) ==> final(discovered)@ == old(
            discovered,
        )@.insert(zone_key(zone@)) && publishes_view(final(messages)@) == publishes_view(
            old(messages)@,
        ) + zone_discovery_messages(zone@, ctx@),
{
    let mut key = to_chars("zone_");
    push_decimal(&mut key, zone.id);
    if !discovered.contains(key.as_slice()) {
        discovered.insert(key.as_slice());
        push_publish(
            messages,
            crate::discovery::zone_discovery_topic(zone, ctx),
            crate::discovery::zone_discovery_payload(zone, ctx),
        );
        push_publish(
            messages,
            crate::discovery::zone_button_discovery_topic(zone, "inhibit", ctx),
            crate::discovery::zone_button_discovery_payload(zone, "inhibit", ctx),
        );
        push_publish(
            messages,
            crate::discovery::zone_button_discovery_topic(zone, "isolate", ctx),
            crate::discovery::zone_button_discovery_payload(zone, "isolate", ctx),
        );
        assert(publishes_view(messages@) =~= publishes_view(old(messages)@)
            + zone_discovery_messages(zone@, ctx@));
    }
}

/// One poll step for a parsed zone.
fn poll_zone(
    config: &Config,
    ctx: &Ctx,
    zones: &mut HashMap<u32, Zone>,
    discovered: &mut Discovered,
    messages: &mut Vec<Publish>,
    pz: &crate::parser::ParsedZone,
)
    ensures
        ({
            let w = PollWorld {
                areas: Map::empty(),
                zones: zones_view(old(zones)@),
                alerts: seq![],
                discovered: old(discovered)@,
                messages: publishes_view(old(messages)@),
            };
            let w2 = zone_step(
                w,
                ctx@,
                crate::config::string_map_view(config.zone_device_class@),
                pz@,
            );
            &&& zones_view(final(zones)@) == w2.zones
            &&& final(discovered)@ == w2.discovered
            &&& publishes_view(final(messages)@) == w2.messages
        }),
{
    let ghost classes = crate::config::string_map_view(config.zone_device_class@);
    let ghost before = if zones@.contains_key(pz.id) {
        Some(zones@[pz.id]@)
    } else {
        None
    };
    let mut zone = match zones.remove(&pz.id) {
        Some(z) => z,
        None => Zone::new(pz.id),
    };
    zone.name = pz.name.clone();
    zone.area_id = pz.area_id;
    zone.zone_type = pz.zone_type.clone();
    zone.input = pz.input;
    zone.status = pz.status.clone();
    let dc = to_chars(zone.device_class.as_str());
    if dc.len() == 0 {
        match config.zone_device_class.get(&zone.id) {
            Some(c) => {
                zone.device_class = c.clone();
            },
            None => {
                zone.device_class = default_device_class(zone.zone_type.as_str());
            },
        }
    }
    zone.state = pz.zone_state();
    assert(zone@ == polled_zone(before, pz@, classes));
    ensure_zone_discovery(ctx, discovered, messages, &zone);
    let mut st = to_chars(ctx.topic_prefix);
    push_str(&mut st, "/zone/");
    push_decimal(&mut st, zone.id);
    push_str(&mut st, "/state");
    let on = if zone.state.is_on() {
        String::from_str("ON")
    } else {
        String::from_str("OFF")
    };
    push_publish(messages, from_chars(st.as_slice()), on);
    let mut at = to_chars(ctx.topic_prefix);
    push_str(&mut at, "/zone/");
    push_decimal(&mut at, zone.id);
    push_str(&mut at, "/attributes");
    push_publish(messages, from_chars(at.as_slice()), zone_attributes_text(&zone));
    let ghost zv = zone@;
    zones.insert(pz.id, zone);
    assert(zones_view(zones@) =~= zones_view(old(zones)@).insert(pz.id, zv));
}

/// The messages for one system alert: its binary sensor's discovery and state, and,
/// for alerts with a button index or a "Fault"/"Tamper" name, its two buttons.
pub open spec fn alert_messages(a: (Seq<char>, bool, u32), ctx: CtxView) -> Seq<(Seq<char>, Seq<char>)> {
    let sid = alert_sensor_id_spec(a.0);
    let st = ctx.topic_prefix + "/system/"@ + sid;
    seq![
        (
            crate::discovery::system_sensor_discovery_topic_spec(sid, ctx),
            crate::json::json_text(crate::discovery::system_sensor_discovery_document(sid, a.0, st, ctx)),
        ),
        (
            st,
            if a.1 {
                "OFF"@
            } else {
                "ON"@
            },
        ),
    ] + if a.2 > 0 || contains(a.0, "Fault"@) || contains(a.0, "Tamper"@) {
        seq![
            (
                crate::discovery::alert_button_discovery_topic_spec(sid, "inhibit"@, ctx),
                crate::json::json_text(
                    crate::discovery::alert_button_discovery_document(sid, a.0, "inhibit"@, ctx),
                ),
            ),
            (
                crate::discovery::alert_button_discovery_topic_spec(sid, "isolate"@, ctx),
                crate::json::json_text(
                    crate::discovery::alert_button_discovery_document(sid, a.0, "isolate"@, ctx),
                ),
            ),
        ]
    } else {
        seq![]
    }
}

pub open spec fn alerts_messages(alerts: Seq<(Seq<char>, bool, u32)>, ctx: CtxView) -> Seq<
    (Seq<char>, Seq<char>),
>
    decreases alerts.len(),
{
    if alerts.len() == 0 {
        seq![]
    } else {
        alerts_messages(alerts.drop_last(), ctx) + alert_messages(alerts.last(), ctx)
    }
}

/// The poll step for the system alerts: when they differ from the known ones, or none
/// were published in this session, publish them all and remember them.
pub open spec fn alerts_step(w: PollWorld, ctx: CtxView, alerts: Seq<(Seq<char>, bool, u32)>) -> PollWorld {
    if alerts != w.alerts || !w.discovered.contains("system_sensors"@) {
        PollWorld {
            alerts,
            discovered: w.discovered.insert("system_sensors"@),
            messages: w.messages + alerts_messages(alerts, ctx),
            ..w
        }
    } else {
        w
    }
}

/// A whole poll: the areas, then the zones, then the alerts of the pages.
pub open spec fn poll_result(
    w: PollWorld,
    ctx: CtxView,
    classes: Map<u32, Seq<char>>,
    areas: Seq<crate::parser::ParsedAreaView>,
    zones: Seq<crate::parser::ParsedZoneView>,
    alerts: Seq<(Seq<char>, bool, u32)>,
) -> PollWorld {
    alerts_step(zones_fold(areas_fold(w, ctx, areas), ctx, classes, zones), ctx, alerts)
}

fn alerts_equal(a: &[SystemAlert], b: &[SystemAlert]) -> (r: bool)
    ensures
        r == (alert_views(a@) == alert_views(b@)),
{
    if a.len() != b.len() {
        assert(alert_views(a@).len() != alert_views(b@).len());
        return false;
    }
    let n = a.len();
    let mut i: usize = 0;
    while i < n
        invariant
            n == a@.len(),
            n == b@.len(),
            i <= n,
            forall|k: int| 0 <= k < i ==> a@[k]@ == b@[k]@,
        decreases n - i,
    {
        if !(a[i].name == b[i].name && a[i].ok == b[i].ok && a[i].button_index
            == b[i].button_index) {
            assert(alert_views(a@)[i as int] != alert_views(b@)[i as int]);
            return false;
        }
        i = i + 1;
    }
    assert(alert_views(a@) =~= alert_views(b@));
    true
}

fn push_alert_messages(ctx: &Ctx, messages: &mut Vec<Publish>, alert: &SystemAlert)
    ensures
        publishes_view(final(messages)@) == publishes_view(old(messages)@) + alert_messages(
            alert@,
            ctx@,
        ),
{
    let sensor_id = alert_sensor_id(alert.name.as_str());
    let mut st = to_chars(ctx.topic_prefix);
    push_str(&mut st, "/system/");
    push_chars(&mut st, to_chars(sensor_id.as_str()).as_slice());
    let state_topic = from_chars(st.as_slice());
    push_publish(
        messages,
        crate::discovery::system_sensor_discovery_topic(sensor_id.as_str(), ctx),
        crate::discovery::system_sensor_discovery_payload(
            sensor_id.as_str(),
            alert.name.as_str(),
            state_topic.as_str(),
            ctx,
        ),
    );
    let flag = if alert.ok {
        String::from_str("OFF")
    } else {
        String::from_str("ON")
    };
    push_publish(messages, state_topic, flag);
    let nm = to_chars(alert.name.as_str());
    if alert.button_index > 0 || contains_str(nm.as_slice(), "Fault") || contains_str(
        nm.as_slice(),
        "Tamper",
    ) {
        push_publish(
            messages,
            crate::discovery::alert_button_discovery_topic(sensor_id.as_str(), "inhibit", ctx),
            crate::discovery::alert_button_discovery_payload(
                sensor_id.as_str(),
                alert.name.as_str(),
                "inhibit",
                ctx,
            ),
        );
        push_publish(
            messages,
            crate::discovery::alert_button_discovery_topic(sensor_id.as_str(), "isolate", ctx),
            crate::discovery::alert_button_discovery_payload(
                sensor_id.as_str(),
                alert.name.as_str(),
                "isolate",
                ctx,
            ),
        );
    }
    assert(publishes_view(messages@) =~= publishes_view(old(messages)@) + alert_messages(
        alert@,
        ctx@,
    ));
}

/// The known panel state and discovery keys, seen as a poll world without messages.
pub open spec fn world_of(state: PanelState, discovered: Set<Seq<char>>) -> PollWorld {
    PollWorld {
        areas: areas_view(state.areas@),
        zones: zones_view(state.zones@),
        alerts: alert_views(state.alerts@),
        discovered,
        messages: seq![],
    }
}

/// The discovery context of a panel state under a configuration.
pub open spec fn ctx_of(state: PanelState, config: Config) -> CtxView {
    CtxView {
        name: state.name@,
        serial: state.serial@,
        topic_prefix: config.topic_prefix@,
        discovery_prefix: config.discovery_prefix@,
    }
}

/// Takes in the pages read by a poll: updates the panel state and the discovery keys,
/// and returns the messages to publish, in order.
pub fn poll_update(
    config: &Config,
    state: &mut PanelState,
    discovered: &mut Discovered,
    areas: &[crate::parser::ParsedArea],
    zones: &[crate::parser::ParsedZone],
    alerts: &[crate::parser::ParsedAlert],
) -> (messages: Vec<Publish>)
    ensures
        ({
            let w = poll_result(
                world_of(*old(state), old(discovered)@),
                ctx_of(*old(state), *config),
                crate::config::string_map_view(config.zone_device_class@),
                crate::parser::parsed_areas_view(areas@),
                crate::parser::parsed_zones_view(zones@),
                crate::parser::parsed_alerts_view(alerts@),
            );
            &&& areas_view(final(state).areas@) == w.areas
            &&& zones_view(final(state).zones@) == w.zones
            &&& alert_views(final(state).alerts@) == w.alerts
            &&& final(discovered)@ == w.discovered
            &&& publishes_view(messages@) == w.messages
            &&& final(state).name == old(state).name
            &&& final(state).serial == old(state).serial
        }),
{
    let ghost w0 = world_of(*state, discovered@);
    let ghost cv = ctx_of(*state, *config);
    let ghost classes = crate::config::string_map_view(config.zone_device_class@);
    let ghost pav = crate::parser::parsed_areas_view(areas@);
    let ghost pzv = crate::parser::parsed_zones_view(zones@);
    let ghost palv = crate::parser::parsed_alerts_view(alerts@);
    let name = state.name.clone();
    let serial = state.serial.clone();
    let ctx = make_ctx(name.as_str(), serial.as_str(), config);
    let mut messages: Vec<Publish> = Vec::new();
    assert(publishes_view(messages@) =~= Seq::<(Seq<char>, Seq<char>)>::empty());
    // Areas
    let na = areas.len();
    let mut i: usize = 0;
    assert(pav.take(0) =~= Seq::<crate::parser::ParsedAreaView>::empty());
    while i < na
        invariant
            na == areas@.len(),
            pav == crate::parser::parsed_areas_view(areas@),
            ctx@ == cv,
            i <= na,
            areas_view(state.areas@) == areas_fold(w0, cv, pav.take(i as int)).areas,
            zones_view(state.zones@) == w0.zones,
            alert_views(state.alerts@) == w0.alerts,
            areas_fold(w0, cv, pav.take(i as int)).zones == w0.zones,
            areas_fold(w0, cv, pav.take(i as int)).alerts == w0.alerts,
            discovered@ == areas_fold(w0, cv, pav.take(i as int)).discovered,
            publishes_view(messages@) == areas_fold(w0, cv, pav.take(i as int)).messages,
            state.name == old(state).name,
            state.serial == old(state).serial,
        decreases na - i,
    {
        assert(pav.take(i + 1).drop_last() =~= pav.take(i as int));
        poll_area(&ctx, &mut state.areas, discovered, &mut messages, &areas[i]);
        i = i + 1;
    }
    assert(pav.take(na as int) =~= pav);
    let ghost w1 = areas_fold(w0, cv, pav);
    // Zones
    let nz = zones.len();
    let mut j: usize = 0;
    assert(pzv.take(0) =~= Seq::<crate::parser::ParsedZoneView>::empty());
    while j < nz
        invariant
            nz == zones@.len(),
            pzv == crate::parser::parsed_zones_view(zones@),
            classes == crate::config::string_map_view(config.zone_device_class@),
            ctx@ == cv,
            j <= nz,
            areas_view(state.areas@) == w1.areas,
            zones_view(state.zones@) == zones_fold(w1, cv, classes, pzv.take(j as int)).zones,
            alert_views(state.alerts@) == w1.alerts,
            zones_fold(w1, cv, classes, pzv.take(j as int)).areas == w1.areas,
            zones_fold(w1, cv, classes, pzv.take(j as int)).alerts == w1.alerts,
            discovered@ == zones_fold(w1, cv, classes, pzv.take(j as int)).discovered,
            publishes_view(messages@) == zones_fold(w1, cv, classes, pzv.take(j as int)).messages,
            state.name == old(state).name,
            state.serial == old(state).serial,
        decreases nz - j,
    {
        assert(pzv.take(j + 1).drop_last() =~= pzv.take(j as int));
        poll_zone(config, &ctx, &mut state.zones, discovered, &mut messages, &zones[j]);
        j = j + 1;
    }
    assert(pzv.take(nz as int) =~= pzv);
    let ghost w2 = zones_fold(w1, cv, classes, pzv);
    // Alerts
    let nl = alerts.len();
    let mut new_alerts: Vec<SystemAlert> = Vec::new();
    let mut k: usize = 0;
    while k < nl
        invariant
            nl == alerts@.len(),
            palv == crate::parser::parsed_alerts_view(alerts@),
            k <= nl,
            alert_views(new_alerts@) == palv.take(k as int),
        decreases nl - k,
    {
        let a = SystemAlert {
            name: alerts[k].name.clone(),
            ok: alerts[k].ok,
            button_index: alerts[k].button_index,
        };
        let ghost before = new_alerts@;
        let ghost av = a@;
        new_alerts.push(a);
        assert(alert_views(new_alerts@) =~= alert_views(before).push(av));
        assert(alert_views(new_alerts@) =~= palv.take(k + 1));
        k = k + 1;
    }
    assert(palv.take(nl as int) =~= palv);
    let sys_key = to_chars("system_sensors");
    if !alerts_equal(new_alerts.as_slice(), state.alerts.as_slice()) || !discovered.contains(
        sys_key.as_slice(),
    ) {
        discovered.insert(sys_key.as_slice());
        let n = new_alerts.len();
        let mut m: usize = 0;
        let ghost base = messages@;
        let ghost nav = alert_views(new_alerts@);
        assert(nav.take(0) =~= Seq::<(Seq<char>, bool, u32)>::empty());
        assert(publishes_view(messages@) =~= publishes_view(base) + alerts_messages(
            nav.take(0),
            cv,
        ));
        while m < n
            invariant
                n == new_alerts@.len(),
                nav == alert_views(new_alerts@),
                ctx@ == cv,
                m <= n,
                publishes_view(messages@) == publishes_view(base) + alerts_messages(
                    nav.take(m as int),
                    cv,
                ),
            decreases n - m,
        {
            assert(nav.take(m + 1).drop_last() =~= nav.take(m as int));
            assert(nav.take(m + 1).last() == new_alerts@[m as int]@);
            push_alert_messages(&ctx, &mut messages, &new_alerts[m]);
            assert(publishes_view(messages@) =~= publishes_view(base) + alerts_messages(
                nav.take(m + 1),
                cv,
            ));
            m = m + 1;
        }
        assert(nav.take(n as int) =~= nav);
        state.alerts = new_alerts;
    }
    messages
}

// ---------------------------------------------------------------------------
// Laws: the command topics that discovery announces are read back
// ---------------------------------------------------------------------------

proof fn lemma_strip_concat(a: Seq<char>, b: Seq<char>)
    ensures
        strip_prefix(a + b, a) == Some(b),
        strip_suffix(a + b, b) == Some(a),
{
    assert((a + b).take(a.len() as int) =~= a);
    assert((a + b).skip(a.len() as int) =~= b);
    assert((a + b).skip((a + b).len() - b.len()) =~= b);
    assert((a + b).take((a + b).len() - b.len()) =~= a);
}

/// `t` does not start with `p + x` when it starts with `p + y` and `x`, `y` differ at a
/// position inside both.
proof fn lemma_not_prefix(p: Seq<char>, x: Seq<char>, y: Seq<char>, rest: Seq<char>, k: int)
    requires
        0 <= k < x.len(),
        k < y.len(),
        x[k] != y[k],
    ensures
        strip_prefix(p + y + rest, p + x) is None,
{
    let t = p + y + rest;
    if crate::text::starts_with(t, p + x) {
        assert(t.take((p + x).len() as int)[p.len() + k] == (p + x)[p.len() + k]);
        assert(t[p.len() + k] == y[k]);
    }
}

/// An area option selected in Home Assistant arrives on the area's command topic
/// (`<prefix>/area/<id>/set`) and is read as a command for that area with that option.
pub proof fn lemma_area_command_topic(prefix: Seq<char>, id: u32, payload: Seq<char>)
    ensures
        command_of(prefix, prefix + "/area/"@ + decimal(id as nat) + "/set"@, payload) == Some(
            CommandView::Area(id, payload),
        ),
{
    let d = decimal(id as nat);
    let topic = prefix + "/area/"@ + d + "/set"@;
    assert(topic =~= (prefix + "/area/"@) + (d + "/set"@));
    lemma_strip_concat(prefix + "/area/"@, d + "/set"@);
    lemma_strip_concat(d, "/set"@);
    crate::text::lemma_parse_decimal_roundtrip(id);
}

/// A zone button pressed in Home Assistant arrives on the zone's command topic
/// (`<prefix>/zone/<id>/action`) and is read as that action for that zone.
pub proof fn lemma_zone_command_topic(prefix: Seq<char>, id: u32, action: Seq<char>)
    ensures
        command_of(prefix, prefix + "/zone/"@ + decimal(id as nat) + "/action"@, action) == Some(
            CommandView::Zone(id, action),
        ),
{
    reveal_strlit("/zone/");
    reveal_strlit("/area/");
    let d = decimal(id as nat);
    let topic = prefix + "/zone/"@ + d + "/action"@;
    assert(topic =~= prefix + "/zone/"@ + (d + "/action"@));
    lemma_not_prefix(prefix, "/area/"@, "/zone/"@, d + "/action"@, 1);
    assert(topic =~= (prefix + "/zone/"@) + (d + "/action"@));
    lemma_strip_concat(prefix + "/zone/"@, d + "/action"@);
    lemma_strip_concat(d, "/action"@);
    crate::text::lemma_parse_decimal_roundtrip(id);
}

/// An alert button pressed in Home Assistant arrives on the alert's command topic
/// (`<prefix>/alert/<sensor>/action`) and is read as that action for that sensor.
pub proof fn lemma_alert_command_topic(prefix: Seq<char>, sensor: Seq<char>, action: Seq<char>)
    ensures
        command_of(prefix, prefix + "/alert/"@ + sensor + "/action"@, action) == Some(
            CommandView::Alert(sensor, action),
        ),
{
    reveal_strlit("/alert/");
    reveal_strlit("/area/");
    reveal_strlit("/zone/");
    let topic = prefix + "/alert/"@ + sensor + "/action"@;
    assert(topic =~= prefix + "/alert/"@ + (sensor + "/action"@));
    lemma_not_prefix(prefix, "/area/"@, "/alert/"@, sensor + "/action"@, 2);
    lemma_not_prefix(prefix, "/zone/"@, "/alert/"@, sensor + "/action"@, 1);
    assert(topic =~= (prefix + "/alert/"@) + (sensor + "/action"@));
    lemma_strip_concat(prefix + "/alert/"@, sensor + "/action"@);
    lemma_strip_concat(sensor, "/action"@);
}

/// The command topic that an area's discovery document announces is read back as a
/// command for that area, with the option that Home Assistant sends.
pub proof fn lemma_area_discovery_routes_back(area: AreaView, ctx: CtxView, option: Seq<char>)
    ensures
        match crate::json::member(
            crate::discovery::area_discovery_document(area, ctx),
            "command_topic"@,
        ) {
            Some(crate::json::ValueView::Leaf(crate::json::LeafView::Str(t))) => command_of(
                ctx.topic_prefix,
                t,
                option,
            ) == Some(CommandView::Area(area.id, option)),
            _ => false,
        },
{
    crate::discovery::lemma_area_document_command_topic(area, ctx);
    lemma_area_command_topic(ctx.topic_prefix, area.id, option);
}

/// Pressing a zone button that discovery announced sends its `payload_press` on its
/// `command_topic`, and that message is read back as the button's action for that zone.
pub proof fn lemma_zone_button_discovery_routes_back(zone: ZoneView, action: Seq<char>, ctx: CtxView)
    ensures
        ({
            let d = crate::discovery::zone_button_discovery_document(zone, action, ctx);
            match (crate::json::member(d, "command_topic"@), crate::json::member(d, "payload_press"@)) {
                (
                    Some(crate::json::ValueView::Leaf(crate::json::LeafView::Str(t))),
                    Some(crate::json::ValueView::Leaf(crate::json::LeafView::Str(p))),
                ) => command_of(ctx.topic_prefix, t, p) == Some(CommandView::Zone(zone.id, action)),
                _ => false,
            }
        }),
{
    crate::discovery::lemma_zone_button_document_command(zone, action, ctx);
    lemma_zone_command_topic(ctx.topic_prefix, zone.id, action);
}

/// Pressing an alert button that discovery announced sends its `payload_press` on its
/// `command_topic`, and that message is read back as the button's action for that
/// sensor.
pub proof fn lemma_alert_button_discovery_routes_back(
    sensor_id: Seq<char>,
    alert_name: Seq<char>,
    action: Seq<char>,
    ctx: CtxView,
)
    ensures
        ({
            let d = crate::discovery::alert_button_discovery_document(sensor_id, alert_name, action, ctx);
            match (crate::json::member(d, "command_topic"@), crate::json::member(d, "payload_press"@)) {
                (
                    Some(crate::json::ValueView::Leaf(crate::json::LeafView::Str(t))),
                    Some(crate::json::ValueView::Leaf(crate::json::LeafView::Str(p))),
                ) => command_of(ctx.topic_prefix, t, p) == Some(CommandView::Alert(sensor_id, action)),
                _ => false,
            }
        }),
{
    crate::discovery::lemma_alert_button_document_command(sensor_id, alert_name, action, ctx);
    lemma_alert_command_topic(ctx.topic_prefix, sensor_id, action);
}

// ---------------------------------------------------------------------------
// Laws: what a poll keeps
// ---------------------------------------------------------------------------

proof fn lemma_areas_fold_grows(w: PollWorld, ctx: CtxView, pas: Seq<crate::parser::ParsedAreaView>)
    ensures
        w.discovered.subset_of(areas_fold(w, ctx, pas).discovered),
        w.messages.len() <= areas_fold(w, ctx, pas).messages.len(),
        areas_fold(w, ctx, pas).messages.take(w.messages.len() as int) == w.messages,
    decreases pas.len(),
{
    if pas.len() > 0 {
        lemma_areas_fold_grows(w, ctx, pas.drop_last());
        let p = areas_fold(w, ctx, pas.drop_last());
        let r = areas_fold(w, ctx, pas);
        assert(r.messages.take(p.messages.len() as int) =~= p.messages);
        assert(r.messages.take(w.messages.len() as int) =~= p.messages.take(
            w.messages.len() as int,
        ));
    }
}

proof fn lemma_zones_fold_grows(
    w: PollWorld,
    ctx: CtxView,
    classes: Map<u32, Seq<char>>,
    pzs: Seq<crate::parser::ParsedZoneView>,
)
    ensures
        w.discovered.subset_of(zones_fold(w, ctx, classes, pzs).discovered),
        w.messages.len() <= zones_fold(w, ctx, classes, pzs).messages.len(),
        zones_fold(w, ctx, classes, pzs).messages.take(w.messages.len() as int) == w.messages,
    decreases pzs.len(),
{
    if pzs.len() > 0 {
        lemma_zones_fold_grows(w, ctx, classes, pzs.drop_last());
        let p = zones_fold(w, ctx, classes, pzs.drop_last());
        let r = zones_fold(w, ctx, classes, pzs);
        assert(r.messages.take(p.messages.len() as int) =~= p.messages);
        assert(r.messages.take(w.messages.len() as int) =~= p.messages.take(
            w.messages.len() as int,
        ));
    }
}

/// A poll never forgets a published discovery key, only adds messages after those
/// already queued, and leaves the system alert sensors recorded as published.
pub proof fn lemma_poll_discovery_grows(
    w: PollWorld,
    ctx: CtxView,
    classes: Map<u32, Seq<char>>,
    areas: Seq<crate::parser::ParsedAreaView>,
    zones: Seq<crate::parser::ParsedZoneView>,
    alerts: Seq<(Seq<char>, bool, u32)>,
)
    ensures
        w.discovered.subset_of(poll_result(w, ctx, classes, areas, zones, alerts).discovered),
        poll_result(w, ctx, classes, areas, zones, alerts).discovered.contains("system_sensors"@),
        poll_result(w, ctx, classes, areas, zones, alerts).messages.take(w.messages.len() as int)
            == w.messages,
        poll_result(w, ctx, classes, areas, zones, alerts).alerts == alerts,
{
    let w1 = areas_fold(w, ctx, areas);
    let w2 = zones_fold(w1, ctx, classes, zones);
    lemma_areas_fold_grows(w, ctx, areas);
    lemma_zones_fold_grows(w1, ctx, classes, zones);
    let r = poll_result(w, ctx, classes, areas, zones, alerts);
    assert(r.messages.take(w2.messages.len() as int) =~= w2.messages);
    assert(w2.messages.take(w.messages.len() as int) =~= w1.messages.take(w.messages.len() as int));
    assert(r.messages.take(w.messages.len() as int) =~= w2.messages.take(w.messages.len() as int));
}

/// The options of an area's select entity only grow from poll to poll: the options
/// known before keep their places, and the polled state and action labels are among
/// the options after.
pub proof fn lemma_area_options_grow(w: PollWorld, ctx: CtxView, pa: crate::parser::ParsedAreaView)
    requires
        w.areas.contains_key(pa.id),
    ensures
        ({
            let before = w.areas[pa.id].all_options;
            let after = area_step(w, ctx, pa).areas[pa.id].all_options;
            &&& before.len() <= after.len()
            &&& after.take(before.len() as int) == before
            &&& after.contains(pa.state)
            &&& forall|k: int| 0 <= k < pa.actions.len() ==> after.contains(#[trigger] pa.actions[k].0)
            &&& crate::model::no_duplicates(before) ==> crate::model::no_duplicates(after)
        }),
{
    let labels = seq![pa.state] + labels_of(pa.actions);
    crate::model::lemma_accumulate(w.areas[pa.id].all_options, labels);
    assert(labels[0] == pa.state);
    assert forall|k: int| 0 <= k < pa.actions.len() implies area_step(w, ctx, pa).areas[pa.id].all_options.contains(
        #[trigger] pa.actions[k].0,
    ) by {
        assert(labels[k + 1] == pa.actions[k].0);
    }
}

/// The pages that one poll takes in: parsed areas, parsed zones, system alerts.
pub type PolledPages = (
    Seq<crate::parser::ParsedAreaView>,
    Seq<crate::parser::ParsedZoneView>,
    Seq<(Seq<char>, bool, u32)>,
);

/// A run of polls, each as `poll_update` makes it: the panel state and the discovery
/// keys carry over from one poll to the next, the messages of each are handed out.
pub open spec fn polls_fold(
    w: PollWorld,
    ctx: CtxView,
    classes: Map<u32, Seq<char>>,
    polls: Seq<PolledPages>,
) -> PollWorld
    decreases polls.len(),
{
    if polls.len() == 0 {
        w
    } else {
        let p = polls.last();
        let r = poll_result(polls_fold(w, ctx, classes, polls.drop_last()), ctx, classes, p.0, p.1, p.2);
        PollWorld { messages: seq![], ..r }
    }
}

proof fn lemma_areas_fold_zones(w: PollWorld, ctx: CtxView, pas: Seq<crate::parser::ParsedAreaView>)
    ensures
        areas_fold(w, ctx, pas).zones == w.zones,
    decreases pas.len(),
{
    if pas.len() > 0 {
        lemma_areas_fold_zones(w, ctx, pas.drop_last());
    }
}

proof fn lemma_zones_fold_keeps_class(
    w: PollWorld,
    ctx: CtxView,
    classes: Map<u32, Seq<char>>,
    pzs: Seq<crate::parser::ParsedZoneView>,
    id: u32,
)
    requires
        w.zones.contains_key(id),
        w.zones[id].device_class.len() > 0,
    ensures
        zones_fold(w, ctx, classes, pzs).zones.contains_key(id),
        zones_fold(w, ctx, classes, pzs).zones[id].device_class == w.zones[id].device_class,
    decreases pzs.len(),
{
    if pzs.len() > 0 {
        lemma_zones_fold_keeps_class(w, ctx, classes, pzs.drop_last(), id);
    }
}

/// A zone's device class, once set, stays as it is over a poll and over any run of
/// polls after it, whatever the pages and the configuration say.
pub proof fn lemma_device_class_stays(
    w: PollWorld,
    ctx: CtxView,
    classes: Map<u32, Seq<char>>,
    polls: Seq<PolledPages>,
    id: u32,
)
    requires
        w.zones.contains_key(id),
        w.zones[id].device_class.len() > 0,
    ensures
        polls_fold(w, ctx, classes, polls).zones.contains_key(id),
        polls_fold(w, ctx, classes, polls).zones[id].device_class == w.zones[id].device_class,
    decreases polls.len(),
{
    if polls.len() > 0 {
        let p = polls.last();
        let w0 = polls_fold(w, ctx, classes, polls.drop_last());
        lemma_device_class_stays(w, ctx, classes, polls.drop_last(), id);
        lemma_areas_fold_zones(w0, ctx, p.0);
        lemma_zones_fold_keeps_class(areas_fold(w0, ctx, p.0), ctx, classes, p.1, id);
    }
}

/// Every zone is filed under its own id.
pub open spec fn zones_keyed(zones: Map<u32, ZoneView>) -> bool {
    forall|id: u32| #[trigger] zones.contains_key(id) ==> zones[id].id == id
}

proof fn lemma_zones_fold_untouched(
    w: PollWorld,
    ctx: CtxView,
    classes: Map<u32, Seq<char>>,
    pzs: Seq<crate::parser::ParsedZoneView>,
    id: u32,
)
    requires
        forall|k: int| 0 <= k < pzs.len() ==> (#[trigger] pzs[k]).id != id,
    ensures
        zones_fold(w, ctx, classes, pzs).zones.contains_key(id) == w.zones.contains_key(id),
        w.zones.contains_key(id) ==> zones_fold(w, ctx, classes, pzs).zones[id] == w.zones[id],
    decreases pzs.len(),
{
    if pzs.len() > 0 {
        let p0 = pzs.drop_last();
        assert forall|k: int| 0 <= k < p0.len() implies (#[trigger] p0[k]).id != id by {
            assert(p0[k] == pzs[k]);
        }
        assert(pzs.last() == pzs[pzs.len() - 1]);
        lemma_zones_fold_untouched(w, ctx, classes, p0, id);
    }
}

proof fn lemma_zones_fold_keyed(
    w: PollWorld,
    ctx: CtxView,
    classes: Map<u32, Seq<char>>,
    pzs: Seq<crate::parser::ParsedZoneView>,
)
    requires
        zones_keyed(w.zones),
    ensures
        zones_keyed(zones_fold(w, ctx, classes, pzs).zones),
    decreases pzs.len(),
{
    if pzs.len() > 0 {
        lemma_zones_fold_keyed(w, ctx, classes, pzs.drop_last());
    }
}

/// After the zones of a page are polled, each of them (their ids all differ) has as
/// device class its old one where that was set, else the one configured for its id,
/// else the one its zone type suggests; and every zone is still filed under its id.
pub proof fn lemma_zones_fold_device_class(
    w: PollWorld,
    ctx: CtxView,
    classes: Map<u32, Seq<char>>,
    pzs: Seq<crate::parser::ParsedZoneView>,
)
    requires
        zones_keyed(w.zones),
        forall|i: int, j: int| 0 <= i < j < pzs.len() ==> pzs[i].id != pzs[j].id,
    ensures
        zones_keyed(zones_fold(w, ctx, classes, pzs).zones),
        forall|k: int|
            0 <= k < pzs.len() ==> {
                let id = (#[trigger] pzs[k]).id;
                let r = zones_fold(w, ctx, classes, pzs).zones;
                &&& r.contains_key(id)
                &&& r[id].device_class == if w.zones.contains_key(id)
                    && w.zones[id].device_class.len() > 0 {
                    w.zones[id].device_class
                } else if classes.contains_key(id) {
                    classes[id]
                } else {
                    default_device_class_spec(pzs[k].zone_type)
                }
            },
    decreases pzs.len(),
{
    lemma_zones_fold_keyed(w, ctx, classes, pzs);
    if pzs.len() > 0 {
        let p0 = pzs.drop_last();
        let last = pzs.last();
        assert(last == pzs[pzs.len() - 1]);
        assert forall|i: int, j: int| 0 <= i < j < p0.len() implies p0[i].id != p0[j].id by {
            assert(p0[i] == pzs[i] && p0[j] == pzs[j]);
        }
        lemma_zones_fold_device_class(w, ctx, classes, p0);
        assert forall|k: int| 0 <= k < p0.len() implies (#[trigger] p0[k]).id != last.id by {
            assert(p0[k] == pzs[k]);
        }
        lemma_zones_fold_untouched(w, ctx, classes, p0, last.id);
        let r = zones_fold(w, ctx, classes, pzs).zones;
        assert forall|k: int| 0 <= k < pzs.len() implies {
            let id = (#[trigger] pzs[k]).id;
            &&& r.contains_key(id)
            &&& r[id].device_class == if w.zones.contains_key(id) && w.zones[id].device_class.len()
                > 0 {
                w.zones[id].device_class
            } else if classes.contains_key(id) {
                classes[id]
            } else {
                default_device_class_spec(pzs[k].zone_type)
            }
        } by {
            if k < pzs.len() - 1 {
                assert(p0[k] == pzs[k]);
            }
        }
    }
}

/// Over a whole poll, each polled zone (their ids all differ) has as device class its
/// old one where that was set, else the one configured for its id, else the one its
/// zone type suggests; and every zone is still filed under its id.
pub proof fn lemma_poll_device_class(
    w: PollWorld,
    ctx: CtxView,
    classes: Map<u32, Seq<char>>,
    areas: Seq<crate::parser::ParsedAreaView>,
    zones: Seq<crate::parser::ParsedZoneView>,
    alerts: Seq<(Seq<char>, bool, u32)>,
)
    requires
        zones_keyed(w.zones),
        forall|i: int, j: int| 0 <= i < j < zones.len() ==> zones[i].id != zones[j].id,
    ensures
        zones_keyed(poll_result(w, ctx, classes, areas, zones, alerts).zones),
        forall|k: int|
            0 <= k < zones.len() ==> {
                let id = (#[trigger] zones[k]).id;
                let r = poll_result(w, ctx, classes, areas, zones, alerts).zones;
                &&& r.contains_key(id)
                &&& r[id].device_class == if w.zones.contains_key(id)
                    && w.zones[id].device_class.len() > 0 {
                    w.zones[id].device_class
                } else if classes.contains_key(id) {
                    classes[id]
                } else {
                    default_device_class_spec(zones[k].zone_type)
                }
            },
{
    let w1 = areas_fold(w, ctx, areas);
    lemma_areas_fold_zones(w, ctx, areas);
    lemma_zones_fold_device_class(w1, ctx, classes, zones);
}

// ---------------------------------------------------------------------------
// Laws: which button a command presses, and what an alert's state reads
// ---------------------------------------------------------------------------

proof fn lemma_action_with_label_first(
    actions: Seq<(Seq<char>, Seq<char>)>,
    label: Seq<char>,
    i: int,
    j: nat,
)
    requires
        j <= i < actions.len(),
        actions[i].0 == label,
        forall|m: int| 0 <= m < i ==> (#[trigger] actions[m]).0 != label,
    ensures
        action_with_label(actions, label, j) == Some(actions[i].1),
    decreases i - j,
{
    if j < i {
        lemma_action_with_label_first(actions, label, i, j + 1);
    }
}

proof fn lemma_action_with_label_none(actions: Seq<(Seq<char>, Seq<char>)>, label: Seq<char>, j: nat)
    requires
        forall|m: int| 0 <= m < actions.len() ==> (#[trigger] actions[m]).0 != label,
    ensures
        action_with_label(actions, label, j) is None,
    decreases actions.len() - j,
{
    if j < actions.len() {
        lemma_action_with_label_none(actions, label, j + 1);
    }
}

/// Selecting an option for an area presses, on the system summary page, the first of
/// the area's actions labelled with that option, unless the area is already in it.
pub proof fn lemma_area_command_presses_labelled_action(
    areas: Map<u32, AreaView>,
    alerts: Seq<(Seq<char>, bool, u32)>,
    id: u32,
    label: Seq<char>,
    i: int,
)
    requires
        areas.contains_key(id),
        areas[id].state != label,
        0 <= i < areas[id].actions.len(),
        areas[id].actions[i].0 == label,
        forall|m: int| 0 <= m < i ==> (#[trigger] areas[id].actions[m]).0 != label,
    ensures
        command_target(areas, alerts, CommandView::Area(id, label)) == Some(
            (areas[id].actions[i].1, "system_summary"@),
        ),
{
    lemma_action_with_label_first(areas[id].actions, label, i, 0);
}

/// Selecting the option an area is already in presses nothing; selecting an option
/// that none of its actions carries presses nothing unless the option is "Unset".
pub proof fn lemma_area_command_presses_nothing(
    areas: Map<u32, AreaView>,
    alerts: Seq<(Seq<char>, bool, u32)>,
    id: u32,
    label: Seq<char>,
)
    requires
        areas.contains_key(id),
    ensures
        areas[id].state == label ==> command_target(areas, alerts, CommandView::Area(id, label))
            is None,
        (label != "Unset"@ && forall|m: int|
            0 <= m < areas[id].actions.len() ==> (#[trigger] areas[id].actions[m]).0 != label)
            ==> command_target(areas, alerts, CommandView::Area(id, label)) is None,
{
    if forall|m: int|
        0 <= m < areas[id].actions.len() ==> (#[trigger] areas[id].actions[m]).0 != label {
        lemma_action_with_label_none(areas[id].actions, label, 0);
    }
}

/// Among the messages of an alert, its state topic `<prefix>/system/<sensor id>` carries
/// "OFF" when the alert is OK and "ON" (a problem) when it is not.
pub proof fn lemma_alert_state_payload(a: (Seq<char>, bool, u32), ctx: CtxView)
    ensures
        alert_messages(a, ctx).len() >= 2,
        alert_messages(a, ctx)[1].0 == ctx.topic_prefix + "/system/"@ + alert_sensor_id_spec(a.0),
        alert_messages(a, ctx)[1].1 == "OFF"@ <==> a.1,
        alert_messages(a, ctx)[1].1 == "ON"@ <==> !a.1,
{
    reveal_strlit("ON");
    reveal_strlit("OFF");
    assert("ON"@.len() != "OFF"@.len());
}

/// The k-th alert's state message is among the messages of the alerts, at index `j`:
/// "OFF" on its state topic when it is OK, "ON" when it is not.
pub proof fn lemma_alerts_state_message(alerts: Seq<(Seq<char>, bool, u32)>, ctx: CtxView, k: int) -> (j: int)
    requires
        0 <= k < alerts.len(),
    ensures
        0 <= j < alerts_messages(alerts, ctx).len(),
        alerts_messages(alerts, ctx)[j] == (
            ctx.topic_prefix + "/system/"@ + alert_sensor_id_spec(alerts[k].0),
            if alerts[k].1 {
                "OFF"@
            } else {
                "ON"@
            },
        ),
    decreases alerts.len(),
{
    let a0 = alerts.drop_last();
    let prev = alerts_messages(a0, ctx);
    let all = alerts_messages(alerts, ctx);
    assert(alerts.last() == alerts[alerts.len() - 1]);
    lemma_alert_state_payload(alerts.last(), ctx);
    if k < a0.len() {
        let j = lemma_alerts_state_message(a0, ctx, k);
        assert(a0[k] == alerts[k]);
        assert(all[j] == prev[j]);
        j
    } else {
        let j: int = prev.len() as int + 1;
        assert(all[j] == alert_messages(alerts.last(), ctx)[1]);
        j
    }
}

/// When a poll publishes the alerts, the k-th alert's state goes out at index `j` of
/// the poll's messages: "OFF" on `<prefix>/system/<sensor id>` when it is OK, "ON"
/// when it is not.
pub proof fn lemma_poll_alert_state(
    w: PollWorld,
    ctx: CtxView,
    alerts: Seq<(Seq<char>, bool, u32)>,
    k: int,
) -> (j: int)
    requires
        alerts != w.alerts || !w.discovered.contains("system_sensors"@),
        0 <= k < alerts.len(),
    ensures
        0 <= j < alerts_step(w, ctx, alerts).messages.len(),
        alerts_step(w, ctx, alerts).messages[j] == (
            ctx.topic_prefix + "/system/"@ + alert_sensor_id_spec(alerts[k].0),
            if alerts[k].1 {
                "OFF"@
            } else {
                "ON"@
            },
        ),
{
    let i = lemma_alerts_state_message(alerts, ctx, k);
    w.messages.len() + i
}

// ---------------------------------------------------------------------------
// Laws: what one polled zone or area publishes
// ---------------------------------------------------------------------------

/// Whether a zone with this status and input shows as ON: an alarm, tamper or trouble
/// status, or, for a status that is none of the alarm conditions, an open input.
pub open spec fn zone_reads_on(status: Seq<char>, input: crate::model::ZoneInput) -> bool {
    ||| status == "Alarm"@
    ||| status == "Tamper"@
    ||| status == "Trouble"@
    ||| (status != "Inhibited"@ && status != "Isolated"@ && input == crate::model::ZoneInput::Open)
}

/// A polled zone ends its messages with its ON/OFF state on `<prefix>/zone/<id>/state`
/// (ON exactly for an alarm, tamper or trouble status, or an open input under no
/// alarm condition) and then its attributes; before them come its three discovery
/// messages exactly when its discovery key is new.
pub proof fn lemma_zone_step_messages(
    w: PollWorld,
    ctx: CtxView,
    classes: Map<u32, Seq<char>>,
    pz: crate::parser::ParsedZoneView,
)
    requires
        zones_keyed(w.zones),
    ensures
        ({
            let m = zone_step(w, ctx, classes, pz).messages;
            let id = decimal(pz.id as nat);
            let fresh = !w.discovered.contains("zone_"@ + id);
            &&& m.len() == w.messages.len() + (if fresh {
                3int
            } else {
                0int
            }) + 2
            &&& m.take(w.messages.len() as int) == w.messages
            &&& m[m.len() - 2] == (
                ctx.topic_prefix + "/zone/"@ + id + "/state"@,
                if zone_reads_on(pz.status, pz.input) {
                    "ON"@
                } else {
                    "OFF"@
                },
            )
            &&& m[m.len() - 1].0 == ctx.topic_prefix + "/zone/"@ + id + "/attributes"@
            &&& zone_step(w, ctx, classes, pz).zones[pz.id].state == crate::parser::zone_state_of(
                pz.status,
                pz.input,
            )
            &&& zone_step(w, ctx, classes, pz).zones[pz.id].id == pz.id
            &&& zone_step(w, ctx, classes, pz).zones[pz.id].name == pz.name
            &&& zone_step(w, ctx, classes, pz).zones[pz.id].area_id == pz.area_id
            &&& zone_step(w, ctx, classes, pz).zones[pz.id].zone_type == pz.zone_type
            &&& zone_step(w, ctx, classes, pz).zones[pz.id].input == pz.input
            &&& zone_step(w, ctx, classes, pz).zones[pz.id].status == pz.status
            &&& zone_step(w, ctx, classes, pz).discovered.contains("zone_"@ + id)
        }),
{
    reveal_strlit("Alarm");
    reveal_strlit("Tamper");
    reveal_strlit("Trouble");
    reveal_strlit("Inhibited");
    reveal_strlit("Isolated");
    assert("Alarm"@.len() == 5 && "Tamper"@.len() == 6 && "Trouble"@.len() == 7
        && "Inhibited"@.len() == 9 && "Isolated"@.len() == 8);
    let r = zone_step(w, ctx, classes, pz);
    let m = r.messages;
    let id = decimal(pz.id as nat);
    let fresh = !w.discovered.contains("zone_"@ + id);
    let before = if w.zones.contains_key(pz.id) {
        Some(w.zones[pz.id])
    } else {
        None
    };
    let z = polled_zone(before, pz, classes);
    assert(z.id == pz.id);
    let mid = if fresh {
        zone_discovery_messages(z, ctx)
    } else {
        seq![]
    };
    let tail = seq![
        (
            ctx.topic_prefix + "/zone/"@ + id + "/state"@,
            if z.state.spec_is_on() {
                "ON"@
            } else {
                "OFF"@
            },
        ),
        (
            ctx.topic_prefix + "/zone/"@ + id + "/attributes"@,
            crate::json::json_text(zone_attributes(z)),
        ),
    ];
    assert(m == w.messages + mid + tail);
    assert(m.take(w.messages.len() as int) =~= w.messages);
    assert(m[m.len() - 2] == tail[0]);
    assert(m[m.len() - 1] == tail[1]);
    assert(z.state.spec_is_on() == zone_reads_on(pz.status, pz.input));
}

/// Every area is filed under its own id.
pub open spec fn areas_keyed(areas: Map<u32, AreaView>) -> bool {
    forall|id: u32| #[trigger] areas.contains_key(id) ==> areas[id].id == id
}

/// A polled area takes the parsed state, keeps its name when the parsed one is empty,
/// and ends its messages with its state on `<prefix>/area/<id>/state`; before it comes
/// its discovery message exactly when its key or its set of options is new.
pub proof fn lemma_area_step_messages(w: PollWorld, ctx: CtxView, pa: crate::parser::ParsedAreaView)
    requires
        areas_keyed(w.areas),
    ensures
        ({
            let r = area_step(w, ctx, pa);
            let m = r.messages;
            let a = r.areas[pa.id];
            let id = decimal(pa.id as nat);
            let fresh = !w.discovered.contains("area_"@ + id) || !w.discovered.contains(
                "area_"@ + id + "_opts_"@ + crate::text::join(a.all_options, ","@),
            );
            &&& areas_keyed(r.areas)
            &&& a.state == pa.state
            &&& a.actions == pa.actions
            &&& a.name == (if pa.name.len() > 0 {
                pa.name
            } else if w.areas.contains_key(pa.id) {
                w.areas[pa.id].name
            } else {
                Seq::<char>::empty()
            })
            &&& m.len() == w.messages.len() + (if fresh {
                1int
            } else {
                0int
            }) + 1
            &&& m.take(w.messages.len() as int) == w.messages
            &&& m[m.len() - 1] == (ctx.topic_prefix + "/area/"@ + id + "/state"@, pa.state)
            &&& r.discovered.contains("area_"@ + id)
        }),
{
    let r = area_step(w, ctx, pa);
    assert(r.messages.take(w.messages.len() as int) =~= w.messages);
}

// ---------------------------------------------------------------------------
// Laws: zone and alert buttons, and a zone's default class
// ---------------------------------------------------------------------------

/// A zone button command presses `<action><zone id>` on the zone status page.
pub proof fn lemma_zone_command_button(
    areas: Map<u32, AreaView>,
    alerts: Seq<(Seq<char>, bool, u32)>,
    id: u32,
    action: Seq<char>,
)
    ensures
        command_target(areas, alerts, CommandView::Zone(id, action)) == Some(
            (action + decimal(id as nat), "status_zones"@),
        ),
{
}

/// An alert button command presses `<action><button index>` of the first alert with
/// that sensor id, on the system alert page; without such an alert it presses nothing.
pub proof fn lemma_alert_command_button(
    areas: Map<u32, AreaView>,
    alerts: Seq<(Seq<char>, bool, u32)>,
    sensor: Seq<char>,
    action: Seq<char>,
    i: int,
)
    requires
        0 <= i < alerts.len(),
        alert_sensor_id_spec(alerts[i].0) == sensor,
        forall|m: int| 0 <= m < i ==> alert_sensor_id_spec((#[trigger] alerts[m]).0) != sensor,
    ensures
        command_target(areas, alerts, CommandView::Alert(sensor, action)) == Some(
            (action + decimal(alerts[i].2 as nat), "status_sysalert"@),
        ),
{
    lemma_alert_position_first(alerts, sensor, i, 0);
}

proof fn lemma_alert_position_first(
    alerts: Seq<(Seq<char>, bool, u32)>,
    sensor: Seq<char>,
    i: int,
    j: nat,
)
    requires
        j <= i < alerts.len(),
        alert_sensor_id_spec(alerts[i].0) == sensor,
        forall|m: int| 0 <= m < i ==> alert_sensor_id_spec((#[trigger] alerts[m]).0) != sensor,
    ensures
        alert_position(alerts, sensor, j) == Some(i as nat),
    decreases i - j,
{
    if j < i {
        lemma_alert_position_first(alerts, sensor, i, j + 1);
    }
}

proof fn lemma_alert_position_none(alerts: Seq<(Seq<char>, bool, u32)>, sensor: Seq<char>, j: nat)
    requires
        forall|m: int| 0 <= m < alerts.len() ==> alert_sensor_id_spec((#[trigger] alerts[m]).0)
            != sensor,
    ensures
        alert_position(alerts, sensor, j) is None,
    decreases alerts.len() - j,
{
    if j < alerts.len() {
        lemma_alert_position_none(alerts, sensor, j + 1);
    }
}

/// An alert button command for a sensor id that no known alert has presses nothing.
pub proof fn lemma_alert_command_unknown(
    areas: Map<u32, AreaView>,
    alerts: Seq<(Seq<char>, bool, u32)>,
    sensor: Seq<char>,
    action: Seq<char>,
)
    requires
        forall|m: int| 0 <= m < alerts.len() ==> alert_sensor_id_spec((#[trigger] alerts[m]).0)
            != sensor,
    ensures
        command_target(areas, alerts, CommandView::Alert(sensor, action)) is None,
{
    lemma_alert_position_none(alerts, sensor, 0);
}

/// A zone's default device class: a door for entry or exit zones, smoke for fire zones,
/// motion for alarm zones, and an opening otherwise.
pub proof fn lemma_default_device_class(zone_type: Seq<char>)
    ensures
        contains(zone_type, "Entry"@) ==> default_device_class_spec(zone_type) == "door"@,
        contains(zone_type, "Exit"@) ==> default_device_class_spec(zone_type) == "door"@,
        !contains(zone_type, "Entry"@) && !contains(zone_type, "Exit"@) && contains(
            zone_type,
            "Fire"@,
        ) ==> default_device_class_spec(zone_type) == "smoke"@,
        !contains(zone_type, "Entry"@) && !contains(zone_type, "Exit"@) && !contains(
            zone_type,
            "Fire"@,
        ) && contains(zone_type, "Alarm"@) ==> default_device_class_spec(zone_type) == "motion"@,
        !contains(zone_type, "Entry"@) && !contains(zone_type, "Exit"@) && !contains(
            zone_type,
            "Fire"@,
        ) && !contains(zone_type, "Alarm"@) ==> default_device_class_spec(zone_type)
            == "opening"@,
{
}

// ---------------------------------------------------------------------------
// Laws: states go where discovery says, in the payloads it names
// ---------------------------------------------------------------------------

/// A polled zone's ON/OFF message goes to the state topic that the zone's discovery
/// document announces, with the document's `payload_on` exactly when the zone reads ON
/// and its `payload_off` otherwise.
pub proof fn lemma_zone_state_follows_discovery(
    w: PollWorld,
    ctx: CtxView,
    classes: Map<u32, Seq<char>>,
    pz: crate::parser::ParsedZoneView,
)
    requires
        zones_keyed(w.zones),
    ensures
        ({
            let r = zone_step(w, ctx, classes, pz);
            let m = r.messages;
            let d = crate::discovery::zone_discovery_document(r.zones[pz.id], ctx);
            match (
                crate::json::member(d, "state_topic"@),
                crate::json::member(d, "payload_on"@),
                crate::json::member(d, "payload_off"@),
            ) {
                (
                    Some(crate::json::ValueView::Leaf(crate::json::LeafView::Str(t))),
                    Some(crate::json::ValueView::Leaf(crate::json::LeafView::Str(on))),
                    Some(crate::json::ValueView::Leaf(crate::json::LeafView::Str(off))),
                ) => m[m.len() - 2] == (
                    t,
                    if zone_reads_on(pz.status, pz.input) {
                        on
                    } else {
                        off
                    },
                ),
                _ => false,
            }
        }),
{
    lemma_zone_step_messages(w, ctx, classes, pz);
    let z = zone_step(w, ctx, classes, pz).zones[pz.id];
    assert(z.id == pz.id);
    crate::discovery::lemma_zone_document_members(z, ctx);
}

/// A polled area's state message goes to the state topic that the area's discovery
/// document announces, and the state it carries is one of the options the document
/// offers.
pub proof fn lemma_area_state_follows_discovery(w: PollWorld, ctx: CtxView, pa: crate::parser::ParsedAreaView)
    requires
        areas_keyed(w.areas),
    ensures
        ({
            let r = area_step(w, ctx, pa);
            let m = r.messages;
            let d = crate::discovery::area_discovery_document(r.areas[pa.id], ctx);
            match (crate::json::member(d, "state_topic"@), crate::json::member(d, "options"@)) {
                (
                    Some(crate::json::ValueView::Leaf(crate::json::LeafView::Str(t))),
                    Some(crate::json::ValueView::Leaf(crate::json::LeafView::StrList(opts))),
                ) => m[m.len() - 1].0 == t && m[m.len() - 1].1 == pa.state && opts.contains(
                    pa.state,
                ),
                _ => false,
            }
        }),
{
    lemma_area_step_messages(w, ctx, pa);
    let a = area_step(w, ctx, pa).areas[pa.id];
    assert(a.id == pa.id);
    crate::discovery::lemma_area_document_members(a, ctx);
    let before = if w.areas.contains_key(pa.id) {
        w.areas[pa.id]
    } else {
        new_area_view(pa.id)
    };
    let labels = seq![pa.state] + labels_of(pa.actions);
    crate::model::lemma_accumulate(before.all_options, labels);
    assert(labels[0] == pa.state);
}

/// An alert's state message goes to the state topic that its sensor's discovery
/// document announces, with the document's `payload_on` (a problem) exactly when the
/// alert is not OK and its `payload_off` when it is.
pub proof fn lemma_alert_state_follows_discovery(a: (Seq<char>, bool, u32), ctx: CtxView)
    ensures
        ({
            let sid = alert_sensor_id_spec(a.0);
            let st = ctx.topic_prefix + "/system/"@ + sid;
            let d = crate::discovery::system_sensor_discovery_document(sid, a.0, st, ctx);
            let m = alert_messages(a, ctx);
            match (
                crate::json::member(d, "state_topic"@),
                crate::json::member(d, "payload_on"@),
                crate::json::member(d, "payload_off"@),
            ) {
                (
                    Some(crate::json::ValueView::Leaf(crate::json::LeafView::Str(t))),
                    Some(crate::json::ValueView::Leaf(crate::json::LeafView::Str(on))),
                    Some(crate::json::ValueView::Leaf(crate::json::LeafView::Str(off))),
                ) => m[1] == (
                    t,
                    if a.1 {
                        off
                    } else {
                        on
                    },
                ),
                _ => false,
            }
        }),
{
    let sid = alert_sensor_id_spec(a.0);
    let st = ctx.topic_prefix + "/system/"@ + sid;
    crate::discovery::lemma_system_sensor_document_members(sid, a.0, st, ctx);
    lemma_alert_state_payload(a, ctx);
}

/// A system alert's sensor id has no spaces (they become `_`) and no dots.
pub proof fn lemma_alert_sensor_id_charset(name: Seq<char>)
    ensures
        !alert_sensor_id_spec(name).contains(' '),
        !alert_sensor_id_spec(name).contains('.'),
{
    reveal_strlit(" ");
    reveal_strlit("_");
    reveal_strlit(".");
    reveal_strlit("");
    reveal_strlit("controller_");
    let s1 = replace_all(lowercase(name), " "@, "_"@);
    let s2 = replace_all(s1, "."@, ""@);
    let s3 = replace_all(s2, "controller_"@, ""@);
    assert(" "@ =~= seq![' ']);
    assert("."@ =~= seq!['.']);
    assert(!"_"@.contains(' ')) by {
        if "_"@.contains(' ') {
            let i = choose|i: int| 0 <= i < "_"@.len() && "_"@[i] == ' ';
            assert("_"@[0] == '_');
        }
    }
    assert(!""@.contains('.'));
    assert(!""@.contains(' '));
    crate::text::lemma_replace_all_removes(lowercase(name), ' ', "_"@);
    crate::text::lemma_replace_all_removes(s1, '.', ""@);
    crate::text::lemma_replace_all_chars(s1, "."@, ""@);
    crate::text::lemma_replace_all_chars(s2, "controller_"@, ""@);
    assert(!s2.contains(' ')) by {
        if s2.contains(' ') {
            let i = choose|i: int| 0 <= i < s2.len() && s2[i] == ' ';
            assert(s1.contains(s2[i]) || ""@.contains(s2[i]));
        }
    }
    if s3.contains(' ') {
        let i = choose|i: int| 0 <= i < s3.len() && s3[i] == ' ';
        assert(s2.contains(s3[i]) || ""@.contains(s3[i]));
    }
    if s3.contains('.') {
        let i = choose|i: int| 0 <= i < s3.len() && s3[i] == '.';
        assert(s2.contains(s3[i]) || ""@.contains(s3[i]));
    }
}


/// The alerts of a poll are published, all of them in order and then remembered, when
/// they differ from the known ones or none were published in this session; otherwise
/// the poll publishes nothing for them.
pub proof fn lemma_alerts_step_publishes(w: PollWorld, ctx: CtxView, alerts: Seq<(Seq<char>, bool, u32)>)
    ensures
        (alerts != w.alerts || !w.discovered.contains("system_sensors"@)) ==> {
            let r = alerts_step(w, ctx, alerts);
            &&& r.messages == w.messages + alerts_messages(alerts, ctx)
            &&& r.alerts == alerts
            &&& r.discovered.contains("system_sensors"@)
        },
        (alerts == w.alerts && w.discovered.contains("system_sensors"@)) ==> alerts_step(
            w,
            ctx,
            alerts,
        ) == w,
        alerts_messages(alerts, ctx).len() >= 2 * alerts.len(),
    decreases alerts.len(),
{
    if alerts.len() > 0 {
        lemma_alerts_step_publishes(w, ctx, alerts.drop_last());
        lemma_alert_state_payload(alerts.last(), ctx);
    }
}


/// An alert publishes its sensor's discovery and its state, and then the discovery of
/// its inhibit and isolate buttons exactly when it has a button index or its name tells
/// of a fault or a tamper.
pub proof fn lemma_alert_messages_buttons(a: (Seq<char>, bool, u32), ctx: CtxView)
    ensures
        ({
            let sid = alert_sensor_id_spec(a.0);
            let m = alert_messages(a, ctx);
            let buttons = a.2 > 0 || contains(a.0, "Fault"@) || contains(a.0, "Tamper"@);
            &&& m.len() == (if buttons {
                4int
            } else {
                2int
            })
            &&& m[0].0 == crate::discovery::system_sensor_discovery_topic_spec(sid, ctx)
            &&& m[0].1 == crate::json::json_text(
                crate::discovery::system_sensor_discovery_document(
                    sid,
                    a.0,
                    ctx.topic_prefix + "/system/"@ + sid,
                    ctx,
                ),
            )
            &&& buttons ==> m[2].0 == crate::discovery::alert_button_discovery_topic_spec(
                sid,
                "inhibit"@,
                ctx,
            ) && m[3].0 == crate::discovery::alert_button_discovery_topic_spec(
                sid,
                "isolate"@,
                ctx,
            ) && m[2].1 == crate::json::json_text(
                crate::discovery::alert_button_discovery_document(sid, a.0, "inhibit"@, ctx),
            ) && m[3].1 == crate::json::json_text(
                crate::discovery::alert_button_discovery_document(sid, a.0, "isolate"@, ctx),
            )
        }),
{
}

/// A zone's attributes document holds its name, type, area, input, status and state,
/// the last two spelled as the bridge shows them.
pub proof fn lemma_zone_attributes_members(z: ZoneView)
    ensures
        crate::json::member(zone_attributes(z), "zone_name"@) == Some(
            crate::discovery::str_v(z.name),
        ),
        crate::json::member(zone_attributes(z), "zone_type"@) == Some(
            crate::discovery::str_v(z.zone_type),
        ),
        crate::json::member(zone_attributes(z), "area_id"@) == Some(
            crate::json::ValueView::Leaf(crate::json::LeafView::Int(z.area_id)),
        ),
        crate::json::member(zone_attributes(z), "input"@) == Some(
            crate::discovery::str_v(z.input.display_text()),
        ),
        crate::json::member(zone_attributes(z), "status"@) == Some(
            crate::discovery::str_v(z.status),
        ),
        crate::json::member(zone_attributes(z), "state_detail"@) == Some(
            crate::discovery::str_v(z.state.display_text()),
        ),
{
    reveal_strlit("zone_name");
    reveal_strlit("zone_type");
    reveal_strlit("area_id");
    reveal_strlit("input");
    reveal_strlit("status");
    reveal_strlit("state_detail");
    let pairs = seq![
        ("zone_name"@, crate::discovery::str_v(z.name)),
        ("zone_type"@, crate::discovery::str_v(z.zone_type)),
        ("area_id"@, crate::json::ValueView::Leaf(crate::json::LeafView::Int(z.area_id))),
        ("input"@, crate::discovery::str_v(z.input.display_text())),
        ("status"@, crate::discovery::str_v(z.status)),
        ("state_detail"@, crate::discovery::str_v(z.state.display_text())),
    ];
    let none = Seq::<(Seq<char>, crate::json::ValueView)>::empty();
    assert(crate::discovery::object_of(none) =~= none);
    assert(crate::json::merge_members(crate::discovery::object_of(pairs), none)
        == crate::discovery::object_of(pairs));
    assert(pairs[0].0 == "zone_name"@ && pairs[1].0 == "zone_type"@ && pairs[2].0 == "area_id"@
        && pairs[3].0 == "input"@ && pairs[4].0 == "status"@ && pairs[5].0 == "state_detail"@);
    assert("zone_name"@.len() == 9 && "zone_type"@.len() == 9 && "area_id"@.len() == 7
        && "input"@.len() == 5 && "status"@.len() == 6 && "state_detail"@.len() == 12);
    assert("zone_name"@[5] != "zone_type"@[5]);
    assert forall|j: int| 0 < j < pairs.len() implies (#[trigger] pairs[j]).0 != "zone_name"@ by {
        assert(j == 1 || j == 2 || j == 3 || j == 4 || j == 5);
    }
    assert forall|j: int| 1 < j < pairs.len() implies (#[trigger] pairs[j]).0 != "zone_type"@ by {
        assert(j == 2 || j == 3 || j == 4 || j == 5);
    }
    assert forall|j: int| 2 < j < pairs.len() implies (#[trigger] pairs[j]).0 != "area_id"@ by {
        assert(j == 3 || j == 4 || j == 5);
    }
    assert forall|j: int| 3 < j < pairs.len() implies (#[trigger] pairs[j]).0 != "input"@ by {
        assert(j == 4 || j == 5);
    }
    assert forall|j: int| 4 < j < pairs.len() implies (#[trigger] pairs[j]).0 != "status"@ by {
        assert(j == 5);
    }
    crate::discovery::lemma_document_member(pairs, none, "zone_name"@, 0);
    crate::discovery::lemma_document_member(pairs, none, "zone_type"@, 1);
    crate::discovery::lemma_document_member(pairs, none, "area_id"@, 2);
    crate::discovery::lemma_document_member(pairs, none, "input"@, 3);
    crate::discovery::lemma_document_member(pairs, none, "status"@, 4);
    crate::discovery::lemma_document_member(pairs, none, "state_detail"@, 5);
}

/// Selecting "Unset" for an area that is not unset and has no action labelled "Unset"
/// presses `unset_<rest>` when its first action's form name is `fullset_<rest>`,
/// `partset_a_<rest>` or `partset_b_<rest>`, and `unset_area<id>` when it has no action.
pub proof fn lemma_area_unset_fallback(
    areas: Map<u32, AreaView>,
    alerts: Seq<(Seq<char>, bool, u32)>,
    id: u32,
    kind: Seq<char>,
    rest: Seq<char>,
)
    requires
        areas.contains_key(id),
        areas[id].state != "Unset"@,
        forall|m: int| 0 <= m < areas[id].actions.len() ==> (#[trigger] areas[id].actions[m]).0
            != "Unset"@,
        kind == "fullset_"@ || kind == "partset_a_"@ || kind == "partset_b_"@,
    ensures
        areas[id].actions.len() > 0 && areas[id].actions[0].1 == kind + rest ==> command_target(
            areas,
            alerts,
            CommandView::Area(id, "Unset"@),
        ) == Some(("unset_"@ + rest, "system_summary"@)),
        areas[id].actions.len() == 0 ==> command_target(areas, alerts, CommandView::Area(id, "Unset"@))
            == Some(("unset_area"@ + decimal(id as nat), "system_summary"@)),
{
    reveal_strlit("fullset_");
    reveal_strlit("partset_a_");
    reveal_strlit("partset_b_");
    lemma_action_with_label_none(areas[id].actions, "Unset"@, 0);
    if areas[id].actions.len() > 0 && areas[id].actions[0].1 == kind + rest {
        let form = kind + rest;
        lemma_strip_concat(kind, rest);
        if kind == "partset_a_"@ {
            assert(form[0] == 'p');
            assert(!crate::text::starts_with(form, "fullset_"@)) by {
                if crate::text::starts_with(form, "fullset_"@) {
                    assert(form.take(8)[0] == form[0]);
                }
            }
        }
        if kind == "partset_b_"@ {
            assert(!crate::text::starts_with(form, "fullset_"@)) by {
                if crate::text::starts_with(form, "fullset_"@) {
                    assert(form.take(8)[0] == form[0]);
                }
            }
            assert(!crate::text::starts_with(form, "partset_a_"@)) by {
                if crate::text::starts_with(form, "partset_a_"@) {
                    assert(form.take(10)[8] == form[8]);
                }
            }
        }
    }
}

} // verus!
