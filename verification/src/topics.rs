//! The MQTT names of a bridge session: its client id, its status topic, the topic
//! filters it subscribes to, and how a filter matches a topic.

use vstd::prelude::*;

use crate::bridge::{command_of, CommandView};
use crate::text::{decimal, from_chars, parse_u32, push_decimal, push_str, scan_digits, to_chars, views};

verus! {

// ---------------------------------------------------------------------------
// Names of the session
// ---------------------------------------------------------------------------

/// The MQTT client id of a session: `spc_mqtt_<serial>_<process id>`.
pub fn client_id(serial: &str, pid: u32) -> (s: String)
    ensures
        s@ == "spc_mqtt_"@ + serial@ + "_"@ + decimal(pid as nat),
{
    let mut v = to_chars("spc_mqtt_");
    push_str(&mut v, serial);
    push_str(&mut v, "_");
    push_decimal(&mut v, pid);
    from_chars(v.as_slice())
}

/// The bridge's availability topic, `<prefix>/status`: "online" is published there
/// when a session starts, and "offline" is its last will.
pub fn status_topic(prefix: &str) -> (s: String)
    ensures
        s@ == prefix@ + "/status"@,
{
    let mut v = to_chars(prefix);
    push_str(&mut v, "/status");
    from_chars(v.as_slice())
}

/// The topic filters a session subscribes to, in order.
pub open spec fn command_filters_spec(prefix: Seq<char>) -> Seq<Seq<char>> {
    seq![prefix + "/area/+/set"@, prefix + "/zone/+/action"@, prefix + "/alert/+/action"@]
}

/// The topic filters a session subscribes to: area options, zone buttons, alert buttons.
pub fn command_filters(prefix: &str) -> (v: Vec<String>)
    ensures
        views(v@) == command_filters_spec(prefix@),
{
    let mut a = to_chars(prefix);
    push_str(&mut a, "/area/+/set");
    let mut z = to_chars(prefix);
    push_str(&mut z, "/zone/+/action");
    let mut l = to_chars(prefix);
    push_str(&mut l, "/alert/+/action");
    let mut v: Vec<String> = Vec::new();
    v.push(from_chars(a.as_slice()));
    v.push(from_chars(z.as_slice()));
    v.push(from_chars(l.as_slice()));
    assert(views(v@) =~= command_filters_spec(prefix@));
    v
}

// ---------------------------------------------------------------------------
// Topic levels and filters
// ---------------------------------------------------------------------------

/// The levels of a topic name or filter: the texts between its `/` separators.
pub open spec fn topic_levels(s: Seq<char>) -> Seq<Seq<char>>
    decreases s.len(),
{
    if s.len() == 0 {
        seq![Seq::<char>::empty()]
    } else {
        let l = topic_levels(s.drop_last());
        if s.last() == '/' {
            l.push(Seq::<char>::empty())
        } else {
            l.update(l.len() - 1, l.last().push(s.last()))
        }
    }
}

/// Whether filter levels match topic levels: `#` matches whatever remains, `+` matches
/// any one level, every other level matches only itself.
pub open spec fn levels_match(f: Seq<Seq<char>>, t: Seq<Seq<char>>) -> bool
    decreases f.len(),
{
    if f.len() == 0 {
        t.len() == 0
    } else if f[0] == "#"@ {
        true
    } else if t.len() == 0 {
        false
    } else if f[0] == "+"@ {
        levels_match(f.drop_first(), t.drop_first())
    } else {
        f[0] == t[0] && levels_match(f.drop_first(), t.drop_first())
    }
}

/// Whether a subscription to `filter` receives messages published on `topic`.
pub open spec fn topic_matches(filter: Seq<char>, topic: Seq<char>) -> bool {
    levels_match(topic_levels(filter), topic_levels(topic))
}

proof fn lemma_levels_nonempty(s: Seq<char>)
    ensures
        topic_levels(s).len() >= 1,
    decreases s.len(),
{
    if s.len() > 0 {
        lemma_levels_nonempty(s.drop_last());
    }
}

/// A text without `/` is a single level.
proof fn lemma_levels_single(s: Seq<char>)
    requires
        !s.contains('/'),
    ensures
        topic_levels(s) == seq![s],
    decreases s.len(),
{
    if s.len() > 0 {
        let s0 = s.drop_last();
        assert(!s0.contains('/')) by {
            if s0.contains('/') {
                let i = choose|i: int| 0 <= i < s0.len() && s0[i] == '/';
                assert(s[i] == '/');
            }
        }
        lemma_levels_single(s0);
        assert(s.last() == s[s.len() - 1]);
        assert(s.last() != '/');
        assert(s0.push(s.last()) =~= s);
        assert(seq![s0].update(0, s0.push(s.last())) =~= seq![s]);
    } else {
        assert(s =~= Seq::<char>::empty());
    }
}

/// The levels of `a/b` are those of `a`, then those of `b`.
proof fn lemma_levels_join(a: Seq<char>, b: Seq<char>)
    ensures
        topic_levels(a + seq!['/'] + b) == topic_levels(a) + topic_levels(b),
    decreases b.len(),
{
    let ab = a + seq!['/'] + b;
    if b.len() == 0 {
        assert(ab.drop_last() =~= a);
        assert(ab =~= a + seq!['/']);
        assert(topic_levels(ab) =~= topic_levels(a) + topic_levels(b));
    } else {
        let b0 = b.drop_last();
        lemma_levels_join(a, b0);
        lemma_levels_nonempty(b0);
        assert(ab.drop_last() =~= a + seq!['/'] + b0);
        assert(ab.last() == b.last());
        let la = topic_levels(a);
        let lb0 = topic_levels(b0);
        if b.last() == '/' {
            assert(topic_levels(ab) =~= la + topic_levels(b));
        } else {
            let l = la + lb0;
            assert(l.last() == lb0.last());
            assert(l.update(l.len() - 1, l.last().push(b.last())) =~= la + lb0.update(
                lb0.len() - 1,
                lb0.last().push(b.last()),
            ));
        }
    }
}

/// A filter that begins with the topic's own leading levels matches when the rest of it
/// matches the rest of the topic.
proof fn lemma_match_common_head(p: Seq<Seq<char>>, f: Seq<Seq<char>>, t: Seq<Seq<char>>)
    requires
        levels_match(f, t),
    ensures
        levels_match(p + f, p + t),
    decreases p.len(),
{
    if p.len() > 0 {
        lemma_match_common_head(p.drop_first(), f, t);
        assert((p + f).drop_first() =~= p.drop_first() + f);
        assert((p + t).drop_first() =~= p.drop_first() + t);
        assert((p + f)[0] == p[0] && (p + t)[0] == p[0]);
    }
}

/// Every character of a number that `str::parse::<u32>` accepts is a digit or a
/// leading `+`; in particular none is a `/`.
proof fn lemma_parsed_number_no_slash(s: Seq<char>)
    requires
        parse_u32(s) is Ok,
    ensures
        !s.contains('/'),
{
    let d = if s[0] == '+' {
        s.drop_first()
    } else {
        s
    };
    lemma_scan_digits_ok(d);
    if s.contains('/') {
        let i = choose|i: int| 0 <= i < s.len() && s[i] == '/';
        if s[0] == '+' {
            assert(d[i - 1] == s[i]);
        } else {
            assert(d[i] == s[i]);
        }
    }
}

proof fn lemma_scan_digits_ok(d: Seq<char>)
    requires
        scan_digits(d) is Ok,
    ensures
        forall|i: int| 0 <= i < d.len() ==> crate::text::is_digit(#[trigger] d[i]),
{
    crate::text::lemma_scan_ok_digits(d);
}

/// The topic `<prefix>/<kind>/<x>/<verb>`, for `x` without `/`, is matched by the
/// filter `<prefix>/<kind>/+/<verb>`.
proof fn lemma_wildcard_match(prefix: Seq<char>, kind: Seq<char>, x: Seq<char>, verb: Seq<char>)
    requires
        !kind.contains('/'),
        !x.contains('/'),
        !verb.contains('/'),
        kind != "#"@,
        kind != "+"@,
        verb != "#"@,
        verb != "+"@,
    ensures
        topic_matches(
            prefix + seq!['/'] + kind + seq!['/'] + "+"@ + seq!['/'] + verb,
            prefix + seq!['/'] + kind + seq!['/'] + x + seq!['/'] + verb,
        ),
{
    reveal_strlit("+");
    reveal_strlit("#");
    let plus = "+"@;
    assert(!plus.contains('/')) by {
        if plus.contains('/') {
            let i = choose|i: int| 0 <= i < plus.len() && plus[i] == '/';
            assert(plus[0] == '+');
        }
    }
    lemma_levels_single(kind);
    lemma_levels_single(x);
    lemma_levels_single(verb);
    lemma_levels_single(plus);
    lemma_levels_join(x, verb);
    lemma_levels_join(plus, verb);
    lemma_levels_join(kind, x + seq!['/'] + verb);
    lemma_levels_join(kind, plus + seq!['/'] + verb);
    lemma_levels_join(prefix, kind + seq!['/'] + (x + seq!['/'] + verb));
    lemma_levels_join(prefix, kind + seq!['/'] + (plus + seq!['/'] + verb));
    let f = seq![kind, plus, verb];
    let t = seq![kind, x, verb];
    assert(topic_levels(kind + seq!['/'] + (plus + seq!['/'] + verb)) =~= f);
    assert(topic_levels(kind + seq!['/'] + (x + seq!['/'] + verb)) =~= t);
    assert(f.drop_first() =~= seq![plus, verb]);
    assert(t.drop_first() =~= seq![x, verb]);
    assert(f.drop_first().drop_first() =~= seq![verb]);
    assert(t.drop_first().drop_first() =~= seq![verb]);
    let e = Seq::<Seq<char>>::empty();
    assert(levels_match(e, e));
    assert(seq![verb].drop_first() =~= e);
    assert(seq![verb][0] == verb);
    assert(levels_match(seq![verb], seq![verb]));
    assert(levels_match(seq![plus, verb], seq![x, verb]));
    assert(levels_match(f, t));
    lemma_match_common_head(topic_levels(prefix), f, t);
    assert(prefix + seq!['/'] + kind + seq!['/'] + plus + seq!['/'] + verb =~= prefix + seq!['/']
        + (kind + seq!['/'] + (plus + seq!['/'] + verb)));
    assert(prefix + seq!['/'] + kind + seq!['/'] + x + seq!['/'] + verb =~= prefix + seq!['/'] + (
    kind + seq!['/'] + (x + seq!['/'] + verb)));
}

/// A topic of the shape `<prefix>/<kind>/<x>/<verb>` with `x` free of `/` is matched by
/// `<prefix>/<kind>/+/<verb>`.
proof fn lemma_shape_matches(prefix: Seq<char>, topic: Seq<char>, kind: Seq<char>, verb: Seq<char>)
    requires
        !kind.contains('/'),
        !verb.contains('/'),
        kind != "#"@,
        kind != "+"@,
        verb != "#"@,
        verb != "+"@,
        ({
            match crate::text::strip_prefix(topic, prefix + seq!['/'] + kind + seq!['/']) {
                Some(rest) => match crate::text::strip_suffix(rest, seq!['/'] + verb) {
                    Some(x) => !x.contains('/'),
                    None => false,
                },
                None => false,
            }
        }),
    ensures
        topic_matches(prefix + seq!['/'] + kind + seq!['/'] + "+"@ + seq!['/'] + verb, topic),
{
    let head = prefix + seq!['/'] + kind + seq!['/'];
    let rest = crate::text::strip_prefix(topic, head)->Some_0;
    let tail = seq!['/'] + verb;
    let x = crate::text::strip_suffix(rest, tail)->Some_0;
    assert(topic =~= head + rest);
    assert(rest =~= x + tail);
    assert(topic =~= prefix + seq!['/'] + kind + seq!['/'] + x + seq!['/'] + verb);
    lemma_wildcard_match(prefix, kind, x, verb);
}

proof fn lemma_literal_no_slash(s: Seq<char>)
    requires
        forall|i: int| 0 <= i < s.len() ==> s[i] != '/',
    ensures
        !s.contains('/'),
{
}

/// Every message that `command_of` reads as a command arrives through one of the
/// session's subscriptions: area options through `<prefix>/area/+/set`, zone buttons
/// through `<prefix>/zone/+/action`, alert buttons through `<prefix>/alert/+/action`
/// (for an alert sensor id without `/`, as the bridge's own sensor ids are).
pub proof fn lemma_filters_cover_commands(prefix: Seq<char>, topic: Seq<char>, payload: Seq<char>)
    requires
        command_of(prefix, topic, payload) is Some,
        command_of(prefix, topic, payload) matches Some(CommandView::Alert(s, _)) ==> !s.contains(
            '/',
        ),
    ensures
        match command_of(prefix, topic, payload) {
            Some(CommandView::Area(_, _)) => topic_matches(command_filters_spec(prefix)[0], topic),
            Some(CommandView::Zone(_, _)) => topic_matches(command_filters_spec(prefix)[1], topic),
            Some(CommandView::Alert(_, _)) => topic_matches(command_filters_spec(prefix)[2], topic),
            None => false,
        },
{
    reveal_strlit("/area/");
    reveal_strlit("/zone/");
    reveal_strlit("/alert/");
    reveal_strlit("/set");
    reveal_strlit("/action");
    reveal_strlit("/area/+/set");
    reveal_strlit("/zone/+/action");
    reveal_strlit("/alert/+/action");
    reveal_strlit("area");
    reveal_strlit("zone");
    reveal_strlit("alert");
    reveal_strlit("set");
    reveal_strlit("action");
    reveal_strlit("+");
    reveal_strlit("#");
    let area = "area"@;
    let zone = "zone"@;
    let alert = "alert"@;
    let set = "set"@;
    let action = "action"@;
    assert forall|i: int| 0 <= i < area.len() implies area[i] != '/' by {
        assert(i == 0 || i == 1 || i == 2 || i == 3);
    }
    assert forall|i: int| 0 <= i < zone.len() implies zone[i] != '/' by {
        assert(i == 0 || i == 1 || i == 2 || i == 3);
    }
    assert forall|i: int| 0 <= i < alert.len() implies alert[i] != '/' by {
        assert(i == 0 || i == 1 || i == 2 || i == 3 || i == 4);
    }
    assert forall|i: int| 0 <= i < set.len() implies set[i] != '/' by {
        assert(i == 0 || i == 1 || i == 2);
    }
    assert forall|i: int| 0 <= i < action.len() implies action[i] != '/' by {
        assert(i == 0 || i == 1 || i == 2 || i == 3 || i == 4 || i == 5);
    }
    lemma_literal_no_slash(area);
    lemma_literal_no_slash(zone);
    lemma_literal_no_slash(alert);
    lemma_literal_no_slash(set);
    lemma_literal_no_slash(action);
    assert("/area/"@ =~= seq!['/'] + area + seq!['/']);
    assert("/zone/"@ =~= seq!['/'] + zone + seq!['/']);
    assert("/alert/"@ =~= seq!['/'] + alert + seq!['/']);
    assert("/set"@ =~= seq!['/'] + set);
    assert("/action"@ =~= seq!['/'] + action);
    assert(prefix + "/area/"@ =~= prefix + seq!['/'] + area + seq!['/']);
    assert(prefix + "/zone/"@ =~= prefix + seq!['/'] + zone + seq!['/']);
    assert(prefix + "/alert/"@ =~= prefix + seq!['/'] + alert + seq!['/']);
    assert(prefix + "/area/+/set"@ =~= prefix + seq!['/'] + area + seq!['/'] + "+"@ + seq!['/']
        + set);
    assert(prefix + "/zone/+/action"@ =~= prefix + seq!['/'] + zone + seq!['/'] + "+"@ + seq![
        '/',
    ] + action);
    assert(prefix + "/alert/+/action"@ =~= prefix + seq!['/'] + alert + seq!['/'] + "+"@ + seq![
        '/',
    ] + action);
    match crate::text::strip_prefix(topic, prefix + "/area/"@) {
        Some(rest) => {
            let id = crate::text::strip_suffix(rest, "/set"@)->Some_0;
            lemma_parsed_number_no_slash(id);
            lemma_shape_matches(prefix, topic, area, set);
        },
        None => match crate::text::strip_prefix(topic, prefix + "/zone/"@) {
            Some(rest) => {
                let id = crate::text::strip_suffix(rest, "/action"@)->Some_0;
                lemma_parsed_number_no_slash(id);
                lemma_shape_matches(prefix, topic, zone, action);
            },
            None => {
                lemma_shape_matches(prefix, topic, alert, action);
            },
        },
    }
}

} // verus!
