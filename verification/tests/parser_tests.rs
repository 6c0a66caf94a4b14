use spc_mqtt::html::{TableCell, TableRow, SubmitInput};
use spc_mqtt::model::{ZoneInput, ZoneState};
use spc_mqtt::parser::{
    extract_commented_inputs, extract_font_text, parse_alert_rows, parse_alerts, parse_area_rows,
    parse_areas, parse_id_name, parse_panel_info, parse_zone_rows, parse_zones, ParsedZone,
};
use spc_mqtt::text::to_chars;

fn from_chars(v: &[char]) -> String {
    v.iter().collect()
}

const SUMMARY: &str = r#"<html><head><title>SPC4300</title></head><body>
<div>SPC4300&nbsp;&nbsp;|&nbsp;&nbsp;Ver 3.9.0&nbsp;&nbsp;|&nbsp;&nbsp;R.32412&nbsp;&nbsp;|&nbsp;&nbsp;S/N: 643069802</div>
<table id="maintable">
<tr><td class="subhead">All Areas</td><td style="color:blue;font-weight:bold">Unset</td><td><input type="submit" name="fullset_all_areas" value="Fullset"><input type="submit" name="unset_all_areas" value="Unset"></td></tr>
<tr><td class="subhead">Area 1: Ground floor</td><td style="color:blue;font-weight:bold"> Fullset </td><td><input type="submit" name="unset_area1" value="Unset"><input type="submit" name="partset_a_area1" value=" Night "><input type="submit" name="fullset_area2" value="Other"><input type="submit" name="" value="Empty"></td></tr>
<tr><td class="subhead">Area 2: Garage</td><td>no state</td><td></td></tr>
<tr><td>x</td><td>y</td></tr>
</table></body></html>"#;

#[test]
fn areas_from_summary_page() {
    let areas = parse_areas(SUMMARY);
    assert_eq!(areas.len(), 3);
    assert_eq!(areas[0].id, 0);
    assert_eq!(areas[0].name, "All Areas");
    assert_eq!(areas[0].state, "Unset");
    let labels: Vec<(&str, &str)> =
        areas[0].actions.iter().map(|a| (a.label.as_str(), a.form_name.as_str())).collect();
    assert_eq!(labels, vec![("Fullset", "fullset_all_areas"), ("Unset", "unset_all_areas")]);
    assert_eq!(areas[1].id, 1);
    assert_eq!(areas[1].name, "Ground floor");
    assert_eq!(areas[1].state, "Fullset");
    let labels: Vec<(&str, &str)> =
        areas[1].actions.iter().map(|a| (a.label.as_str(), a.form_name.as_str())).collect();
    assert_eq!(labels, vec![("Unset", "unset_area1"), ("Night", "partset_a_area1")]);
    // no bold blue cell: the state defaults to Unset
    assert_eq!(areas[2].id, 2);
    assert_eq!(areas[2].name, "Garage");
    assert_eq!(areas[2].state, "Unset");
    assert!(areas[2].actions.is_empty());
}

#[test]
fn areas_without_table() {
    assert!(parse_areas("<html><body>nothing</body></html>").is_empty());
}

fn cell(text: &str) -> TableCell {
    TableCell { text: text.to_string(), style: None }
}

#[test]
fn area_rows_later_cell_overrides_and_all_flag_sticks() {
    let row = TableRow {
        cells: vec![cell("All Areas"), cell("Area 5: Five"), cell("z")],
        submits: vec![
            SubmitInput { name: Some("fullset_all_areas".into()), value: Some("Fullset".into()) },
            SubmitInput { name: Some("fullset_area5".into()), value: Some("F5".into()) },
        ],
    };
    let areas = parse_area_rows(&[row]);
    assert_eq!(areas.len(), 1);
    assert_eq!(areas[0].id, 5);
    assert_eq!(areas[0].name, "Five");
    assert_eq!(areas[0].actions.len(), 1);
    assert_eq!(areas[0].actions[0].form_name, "fullset_all_areas");
}

const ZONES: &str = r#"<html><body><table class="gridtable">
<tr><th>Zone</th><th>Area</th><th>Zone Type</th><th>Status</th></tr>
<tr><td>1 Front door</td><td>1 Ground floor</td><td>Entry/Exit</td><td>Normal</td><td></td><td></td>
<!--  <TD>x</TD><TD><font color="green">Closed</font></TD>  --></tr>
<tr><td>2 Hall PIR</td><td>1 Ground floor</td><td>Alarm</td><td>Alarm</td>
<!--  <TD>x</TD><TD><font color="red"> Open </font></TD>  --></tr>
<tr><td>Total</td><td>a</td><td>b</td><td>c</td></tr>
<tr><td>3 Smoke</td><td>-</td><td>Fire</td><td>Normal</td></tr>
</table></body></html>"#;

#[test]
fn zones_from_status_page() {
    let zones = parse_zones(ZONES);
    assert_eq!(zones.len(), 3);
    assert_eq!(zones[0].id, 1);
    assert_eq!(zones[0].name, "Front door");
    assert_eq!(zones[0].area_id, 1);
    assert_eq!(zones[0].zone_type, "Entry/Exit");
    assert_eq!(zones[0].status, "Normal");
    assert_eq!(zones[0].input, ZoneInput::Closed);
    assert_eq!(zones[0].zone_state(), ZoneState::Closed);
    assert_eq!(zones[1].id, 2);
    assert_eq!(zones[1].input, ZoneInput::Open);
    assert_eq!(zones[1].zone_state(), ZoneState::Alarm);
    // a third zone without a commented input, and an area cell that is not "N Name"
    assert_eq!(zones[2].id, 3);
    assert_eq!(zones[2].area_id, 0);
    assert_eq!(zones[2].input, ZoneInput::Unknown);
    assert_eq!(zones[2].zone_state(), ZoneState::Closed);
}

fn zone(status: &str, input: ZoneInput) -> ParsedZone {
    ParsedZone {
        id: 1,
        name: String::new(),
        area_id: 0,
        zone_type: String::new(),
        input,
        status: status.to_string(),
    }
}

#[test]
fn zone_state_priority() {
    assert_eq!(zone("Alarm", ZoneInput::Closed).zone_state(), ZoneState::Alarm);
    assert_eq!(zone("Tamper", ZoneInput::Open).zone_state(), ZoneState::Tamper);
    assert_eq!(zone("Trouble", ZoneInput::Open).zone_state(), ZoneState::Trouble);
    assert_eq!(zone("Inhibited", ZoneInput::Open).zone_state(), ZoneState::Inhibited);
    assert_eq!(zone("Isolated", ZoneInput::Open).zone_state(), ZoneState::Isolated);
    assert_eq!(zone("Normal", ZoneInput::Open).zone_state(), ZoneState::Open);
    assert_eq!(zone("Normal", ZoneInput::Closed).zone_state(), ZoneState::Closed);
    assert_eq!(zone("Normal", ZoneInput::Unknown).zone_state(), ZoneState::Closed);
}

#[test]
fn commented_inputs_in_order() {
    let html = to_chars(
        "<!-- <font color=\"g\">Closed</font> --> x <!-- no font --> <!--<font>Open</font>--> <!--<font>Other</font>--> <!-- <font>Open</font>",
    );
    assert_eq!(extract_commented_inputs(&html), vec![ZoneInput::Closed, ZoneInput::Open]);
}

#[test]
fn font_text_cases() {
    let t = extract_font_text(&to_chars("<!-- <font color=\"red\"> Open </font> -->")).unwrap();
    assert_eq!(from_chars(&t), "Open");
    assert!(extract_font_text(&to_chars("<font>   </font>")).is_none());
    assert!(extract_font_text(&to_chars("no tag")).is_none());
}

#[test]
fn id_name_cells() {
    let (id, name) = parse_id_name(&to_chars(" 12  Back door ")).unwrap();
    assert_eq!(id, 12);
    assert_eq!(from_chars(&name), "Back door");
    assert!(parse_id_name(&to_chars("Total")).is_none());
    assert!(parse_id_name(&to_chars("x door")).is_none());
}

const ALERTS: &str = r#"<html><body><table class="gridtable">
<tr><td>Mains Fault</td><td>OK</td><td>ok</td><td><input type="submit" name="inhibit3" value="Inhibit"><input type="submit" name="isolate3" value="Isolate"></td></tr>
<tr><td>Battery</td><td>Fault</td><td>OK</td><td></td></tr>
<tr><td></td><td>OK</td><td>OK</td></tr>
<tr><td>Aux</td><td>OK</td></tr>
</table></body></html>"#;

#[test]
fn alerts_from_status_page() {
    let alerts = parse_alerts(ALERTS);
    assert_eq!(alerts.len(), 2);
    assert_eq!(alerts[0].name, "Mains Fault");
    assert!(alerts[0].ok);
    assert_eq!(alerts[0].button_index, 3);
    assert_eq!(alerts[1].name, "Battery");
    assert!(!alerts[1].ok);
    assert_eq!(alerts[1].button_index, 0);
}

#[test]
fn alert_button_index_first_parsable() {
    let row = TableRow {
        cells: vec![cell("A"), cell("OK"), cell("OK")],
        submits: vec![
            SubmitInput { name: Some("inhibitX".into()), value: None },
            SubmitInput { name: None, value: None },
            SubmitInput { name: Some("isolate7".into()), value: None },
        ],
    };
    let alerts = parse_alert_rows(&[row]);
    assert_eq!(alerts[0].button_index, 7);
}

#[test]
fn panel_info_from_header() {
    let info = parse_panel_info(SUMMARY).unwrap();
    assert_eq!(info.name, "SPC4300");
    assert_eq!(info.serial, "643069802");
    let info = parse_panel_info("S/N:   123 only").unwrap();
    assert_eq!(info.name, "");
    assert_eq!(info.serial, "123");
    assert!(parse_panel_info("SPC4300 without serial").is_none());
    assert!(parse_panel_info("S/N: abc").is_none());
}

#[test]
fn id_name_written_then_read() {
    for (id, name) in [(0u32, "A"), (17, "Front door"), (4294967295, "x y")] {
        let cell = format!("{id} {name}");
        let (i, n) = parse_id_name(&to_chars(&cell)).unwrap();
        assert_eq!(i, id);
        assert_eq!(from_chars(&n), name);
    }
}

#[test]
fn id_name_written_with_padding_reads_back_trimmed() {
    for (id, name, trimmed) in [(3u32, "  Hall ", "Hall"), (42, "\tGarage door\n", "Garage door"), (9, " a  b ", "a  b")] {
        let cell = format!("{id} {name}");
        let (i, n) = parse_id_name(&to_chars(&cell)).unwrap();
        assert_eq!(i, id);
        assert_eq!(from_chars(&n), trimmed);
    }
    assert!(parse_id_name(&to_chars("5    ")).is_none());
}

#[test]
fn zone_rows_take_commented_inputs_in_order() {
    let zrow = |zone: &str| TableRow {
        cells: vec![cell(zone), cell("1 Ground"), cell("Alarm"), cell("Normal")],
        submits: vec![],
    };
    let other = TableRow { cells: vec![cell("Zone"), cell("Area")], submits: vec![] };
    let rows = vec![other.clone(), zrow("1 Hall"), zrow("no number"), zrow("2 Door"), other, zrow("3 Back")];
    let inputs = vec![ZoneInput::Closed, ZoneInput::Open];
    let zones = parse_zone_rows(&rows, &inputs);
    let got: Vec<(u32, ZoneInput)> = zones.iter().map(|z| (z.id, z.input)).collect();
    assert_eq!(got, vec![(1, ZoneInput::Closed), (2, ZoneInput::Open), (3, ZoneInput::Unknown)]);
}
