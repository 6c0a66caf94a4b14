//! Command-line options and the bridge configuration derived from them.

use std::collections::HashMap;
use vstd::prelude::*;

use crate::text::{decimal, debug_quoted, debug_str, parse_u32, split_once, split_once_chars, to_chars, IntErrorKind};

verus! {

broadcast use vstd::std_specs::hash::group_hash_axioms;

/// The options of the bridge, as given on the command line.
#[derive(Debug, Clone)]
pub struct Args {
    /// SPC panel base URL
    pub spc_url: String,
    /// Path to SPC credentials JSON ({"login": "...", "password": "..."})
    pub spc_creds: String,
    /// MQTT broker host
    pub mqtt_host: String,
    /// MQTT broker port
    pub mqtt_port: u16,
    /// Path to MQTT credentials JSON ({"login": "...", "password": "..."})
    pub mqtt_creds: String,
    /// MQTT topic prefix
    pub topic_prefix: String,
    /// Home Assistant discovery prefix
    pub discovery_prefix: String,
    /// Poll interval in seconds
    pub poll_interval: u64,
    /// Zone device class overrides (e.g. 1=door 2=motion)
    pub zone_classes: Vec<(u32, String)>,
}

/// A login and password.
#[derive(Debug, Clone)]
pub struct Credentials {
    pub login: String,
    pub password: String,
}

/// The bridge configuration.
#[derive(Debug)]
pub struct Config {
    pub spc_url: String,
    pub poll_interval_secs: u64,
    pub mqtt_host: String,
    pub mqtt_port: u16,
    pub mqtt_creds: Option<Credentials>,
    pub topic_prefix: String,
    pub discovery_prefix: String,
    pub zone_device_class: HashMap<u32, String>,
}

/// The device classes given on the command line, by zone: a later entry for a zone
/// replaces an earlier one.
pub open spec fn class_map(pairs: Seq<(u32, Seq<char>)>) -> Map<u32, Seq<char>>
    decreases pairs.len(),
{
    if pairs.len() == 0 {
        Map::empty()
    } else {
        class_map(pairs.drop_last()).insert(pairs.last().0, pairs.last().1)
    }
}

/// The views of the (zone, class) pairs.
pub open spec fn pairs_view(v: Seq<(u32, String)>) -> Seq<(u32, Seq<char>)> {
    v.map_values(|p: (u32, String)| (p.0, p.1@))
}

/// The view of a map from zones to strings.
pub open spec fn string_map_view(m: Map<u32, String>) -> Map<u32, Seq<char>> {
    m.map_values(|s: String| s@)
}

impl Config {
    /// The configuration for the given options. `mqtt_creds` holds the MQTT credentials
    /// read from the file that `args.mqtt_creds` names, if that file exists.
    pub fn from_args(args: Args, mqtt_creds: Option<Credentials>) -> (c: Config)
        ensures
            c.spc_url == args.spc_url,
            c.poll_interval_secs == args.poll_interval,
            c.mqtt_host == args.mqtt_host,
            c.mqtt_port == args.mqtt_port,
            c.mqtt_creds == mqtt_creds,
            c.topic_prefix == args.topic_prefix,
            c.discovery_prefix == args.discovery_prefix,
            string_map_view(c.zone_device_class@) =~= class_map(pairs_view(args.zone_classes@)),
    {
        let ghost pv = pairs_view(args.zone_classes@);
        let classes = args.zone_classes;
        let n = classes.len();
        let mut map: HashMap<u32, String> = HashMap::new();
        let mut i: usize = 0;
        assert(pv.take(0) =~= Seq::<(u32, Seq<char>)>::empty());
        assert(string_map_view(map@) =~= Map::<u32, Seq<char>>::empty());
        while i < n
            invariant
                n == classes@.len(),
                pv == pairs_view(classes@),
                i <= n,
                string_map_view(map@) =~= class_map(pv.take(i as int)),
            decreases n - i,
        {
            let id = classes[i].0;
            let class = classes[i].1.clone();
            let ghost before = map@;
            map.insert(id, class);
            assert(pv.take(i + 1).drop_last() =~= pv.take(i as int));
            assert(string_map_view(map@) =~= string_map_view(before).insert(id, class@));
            i = i + 1;
        }
        assert(pv.take(n as int) =~= pv);
        Config {
            spc_url: args.spc_url,
            poll_interval_secs: args.poll_interval,
            mqtt_host: args.mqtt_host,
            mqtt_port: args.mqtt_port,
            mqtt_creds,
            topic_prefix: args.topic_prefix,
            discovery_prefix: args.discovery_prefix,
            zone_device_class: map,
        }
    }
}

/// The message `ParseIntError` displays for each kind.
pub open spec fn int_error_text(k: IntErrorKind) -> Seq<char> {
    match k {
        IntErrorKind::Empty => "cannot parse integer from empty string"@,
        IntErrorKind::InvalidDigit => "invalid digit found in string"@,
        IntErrorKind::PosOverflow => "number too large to fit in target type"@,
    }
}

/// What `parse_zone_class` gives for an option value: `ID=CLASS` split at the first `=`.
pub open spec fn zone_class_spec(s: Seq<char>) -> Result<(u32, Seq<char>), Seq<char>> {
    match split_once(s, '=') {
        None => Err("expected ID=CLASS, got "@ + debug_quoted(s)),
        Some((id, class)) => match parse_u32(id) {
            Ok(n) => Ok((n, class)),
            Err(k) => Err("invalid zone ID: "@ + int_error_text(k)),
        },
    }
}

fn int_error_message(k: IntErrorKind) -> (s: &'static str)
    ensures
        s@ == int_error_text(k),
{
    match k {
        IntErrorKind::Empty => "cannot parse integer from empty string",
        IntErrorKind::InvalidDigit => "invalid digit found in string",
        IntErrorKind::PosOverflow => "number too large to fit in target type",
    }
}

/// Parses a `--zone-class` value `ID=CLASS` (e.g. `1=door`).
pub fn parse_zone_class(s: &str) -> (r: Result<(u32, String), String>)
    ensures
        match r {
            Ok((id, class)) => zone_class_spec(s@) == Ok::<(u32, Seq<char>), Seq<char>>(
                (id, class@),
            ),
            Err(e) => zone_class_spec(s@) == Err::<(u32, Seq<char>), Seq<char>>(e@),
        },
{
    let v = to_chars(s);
    match split_once_chars(v.as_slice(), '=') {
        None => {
            let mut m = String::from_str("expected ID=CLASS, got ");
            let q = debug_str(s);
            m.append(q.as_str());
            Err(m)
        },
        Some((id, class)) => match crate::text::parse_u32_chars(id.as_slice()) {
            Ok(n) => Ok((n, crate::text::from_chars(class.as_slice()))),
            Err(k) => {
                let mut m = String::from_str("invalid zone ID: ");
                m.append(int_error_message(k));
                Err(m)
            },
        },
    }
}

/// A `--zone-class` value written `<id>=<class>` reads back as that id and class (the
/// class may itself hold `=`).
pub proof fn lemma_zone_class_roundtrip(id: u32, class: Seq<char>)
    ensures
        zone_class_spec(decimal(id as nat) + seq!['='] + class) == Ok::<(u32, Seq<char>), Seq<char>>(
            (id, class),
        ),
{
    let d = decimal(id as nat);
    let s = d + seq!['='] + class;
    crate::text::lemma_decimal_digits(id as nat);
    crate::text::lemma_parse_decimal_roundtrip(id);
    assert forall|k: int| 0 <= k < d.len() implies crate::text::is_digit(#[trigger] s[k]) by {
        assert(s[k] == d[k]);
    }
    assert(s[d.len() as int] == '=');
    crate::text::lemma_find_char_after_digits(s, '=', d.len(), 0);
    assert(s.take(d.len() as int) =~= d);
    assert(s.skip(d.len() + 1 as int) =~= class);
}

/// A `--zone-class` value without `=` is refused, quoting the value.
pub proof fn lemma_zone_class_needs_equals(s: Seq<char>)
    requires
        !s.contains('='),
    ensures
        zone_class_spec(s) == Err::<(u32, Seq<char>), Seq<char>>(
            "expected ID=CLASS, got "@ + debug_quoted(s),
        ),
{
    crate::text::lemma_find_from(s, seq!['='], 0);
    if let Some(k) = crate::text::find(s, seq!['=']) {
        assert(s.subrange(k as int, k + 1 as int)[0] == s[k as int]);
        assert(s.contains('='));
    }
}

/// The class configured for a zone is that of the last entry for it.
pub proof fn lemma_class_map_last(pairs: Seq<(u32, Seq<char>)>, i: int)
    requires
        0 <= i < pairs.len(),
        forall|j: int| i < j < pairs.len() ==> (#[trigger] pairs[j]).0 != pairs[i].0,
    ensures
        class_map(pairs).contains_key(pairs[i].0),
        class_map(pairs)[pairs[i].0] == pairs[i].1,
    decreases pairs.len(),
{
    if i < pairs.len() - 1 {
        let p0 = pairs.drop_last();
        assert(pairs.last() == pairs[pairs.len() - 1]);
        assert forall|j: int| i < j < p0.len() implies (#[trigger] p0[j]).0 != p0[i].0 by {
            assert(p0[j] == pairs[j]);
        }
        lemma_class_map_last(p0, i);
    }
}

/// A zone without an entry has no configured class.
pub proof fn lemma_class_map_absent(pairs: Seq<(u32, Seq<char>)>, id: u32)
    requires
        forall|j: int| 0 <= j < pairs.len() ==> (#[trigger] pairs[j]).0 != id,
    ensures
        !class_map(pairs).contains_key(id),
    decreases pairs.len(),
{
    if pairs.len() > 0 {
        let p0 = pairs.drop_last();
        assert(pairs.last() == pairs[pairs.len() - 1]);
        assert forall|j: int| 0 <= j < p0.len() implies (#[trigger] p0[j]).0 != id by {
            assert(p0[j] == pairs[j]);
        }
        lemma_class_map_absent(p0, id);
    }
}

} // verus!
