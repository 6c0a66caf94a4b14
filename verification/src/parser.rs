//! Parsers for the panel's web pages: areas, zones, system alerts, panel identity.

use vstd::prelude::*;

use crate::html::{rows_view, scrape_table, scraped_rows, CellView, RowView, SubmitView, TableRow};
use crate::model::{actions_view, AreaAction, ZoneInput, ZoneState};
use crate::text::{
    chars_eq_str, contains, contains_chars, contains_str, decimal, digit_run, digit_run_index,
    eq_ignore_ascii_case, eq_ignore_ascii_case_str, find, find_chars, find_chars_from, find_from,
    from_chars, lemma_find_from, occurs_at, parse_u32, parse_u32_chars, push_decimal,
    split_once, split_once_chars, strip_prefix, strip_prefix_str, to_chars, trim, trim_chars,
    trim_start, trim_start_index, trim_start_matches, trim_start_matches_index,
};

verus! {

// ---------------------------------------------------------------------------
// Parsed records
// ---------------------------------------------------------------------------

#[derive(Debug, Clone)]
pub struct ParsedArea {
    pub id: u32,
    pub name: String,
    pub state: String,
    pub actions: Vec<AreaAction>,
}

pub struct ParsedAreaView {
    pub id: u32,
    pub name: Seq<char>,
    pub state: Seq<char>,
    pub actions: Seq<(Seq<char>, Seq<char>)>,
}

impl View for ParsedArea {
    type V = ParsedAreaView;

    open spec fn view(&self) -> ParsedAreaView {
        ParsedAreaView {
            id: self.id,
            name: self.name@,
            state: self.state@,
            actions: actions_view(self.actions@),
        }
    }
}

#[derive(Debug, Clone)]
pub struct ParsedZone {
    pub id: u32,
    pub name: String,
    pub area_id: u32,
    pub zone_type: String,
    pub input: ZoneInput,
    pub status: String,
}

pub struct ParsedZoneView {
    pub id: u32,
    pub name: Seq<char>,
    pub area_id: u32,
    pub zone_type: Seq<char>,
    pub input: ZoneInput,
    pub status: Seq<char>,
}

impl View for ParsedZone {
    type V = ParsedZoneView;

    open spec fn view(&self) -> ParsedZoneView {
        ParsedZoneView {
            id: self.id,
            name: self.name@,
            area_id: self.area_id,
            zone_type: self.zone_type@,
            input: self.input,
            status: self.status@,
        }
    }
}

/// The state of a zone: an alarm condition in the status column wins; otherwise the
/// input decides, an unknown input counting as closed.
pub open spec fn zone_state_of(status: Seq<char>, input: ZoneInput) -> ZoneState {
    if status == "Alarm"@ {
        ZoneState::Alarm
    } else if status == "Tamper"@ {
        ZoneState::Tamper
    } else if status == "Trouble"@ {
        ZoneState::Trouble
    } else if status == "Inhibited"@ {
        ZoneState::Inhibited
    } else if status == "Isolated"@ {
        ZoneState::Isolated
    } else {
        match input {
            ZoneInput::Open => ZoneState::Open,
            ZoneInput::Closed => ZoneState::Closed,
            ZoneInput::Unknown => ZoneState::Closed,
        }
    }
}

impl ParsedZone {
    pub fn zone_state(&self) -> (s: ZoneState)
        ensures
            s == zone_state_of(self.status@, self.input),
    {
        let st = to_chars(self.status.as_str());
        if chars_eq_str(st.as_slice(), "Alarm") {
            ZoneState::Alarm
        } else if chars_eq_str(st.as_slice(), "Tamper") {
            ZoneState::Tamper
        } else if chars_eq_str(st.as_slice(), "Trouble") {
            ZoneState::Trouble
        } else if chars_eq_str(st.as_slice(), "Inhibited") {
            ZoneState::Inhibited
        } else if chars_eq_str(st.as_slice(), "Isolated") {
            ZoneState::Isolated
        } else {
            match self.input {
                ZoneInput::Open => ZoneState::Open,
                ZoneInput::Closed => ZoneState::Closed,
                ZoneInput::Unknown => ZoneState::Closed,
            }
        }
    }
}

#[derive(Debug, Clone)]
pub struct ParsedAlert {
    pub name: String,
    pub ok: bool,
    /// Button index from inhibitN/isolateN form names.
    pub button_index: u32,
}

impl View for ParsedAlert {
    type V = (Seq<char>, bool, u32);

    open spec fn view(&self) -> (Seq<char>, bool, u32) {
        (self.name@, self.ok, self.button_index)
    }
}

/// Panel model name and serial number.
#[derive(Debug, Clone)]
pub struct PanelInfo {
    pub name: String,
    pub serial: String,
}

fn string_of(v: &Vec<char>) -> (s: String)
    ensures
        s@ == v@,
{
    from_chars(v.as_slice())
}

fn slice_of(v: &[char], i: usize, j: usize) -> (r: Vec<char>)
    requires
        i <= j <= v@.len(),
    ensures
        r@ == v@.subrange(i as int, j as int),
{
    vstd::slice::slice_to_vec(&v[i..j])
}

// ---------------------------------------------------------------------------
// "N Name" cells
// ---------------------------------------------------------------------------

/// Parse "N Name" into (id, name): the number before the first space, and the
/// trimmed rest.
pub open spec fn parse_id_name_spec(text: Seq<char>) -> Option<(u32, Seq<char>)> {
    let t = trim(text);
    match find(t, seq![' ']) {
        None => None,
        Some(sp) => match parse_u32(t.take(sp as int)) {
            Ok(id) => Some((id, trim(t.skip(sp + 1 as int)))),
            Err(_) => None,
        },
    }
}

pub fn parse_id_name(text: &[char]) -> (r: Option<(u32, Vec<char>)>)
    ensures
        match r {
            Some((id, name)) => parse_id_name_spec(text@) == Some((id, name@)),
            None => parse_id_name_spec(text@) is None,
        },
{
    let t = trim_chars(text);
    let tn = t.len();
    let mut sp_pat: Vec<char> = Vec::new();
    sp_pat.push(' ');
    assert(sp_pat@ =~= seq![' ']);
    match find_chars(t.as_slice(), sp_pat.as_slice()) {
        None => None,
        Some(sp) => {
            proof {
                lemma_find_from(t@, seq![' '], 0);
            }
            let head = slice_of(t.as_slice(), 0, sp);
            assert(head@ =~= t@.take(sp as int));
            match parse_u32_chars(head.as_slice()) {
                Ok(id) => {
                    let rest = slice_of(t.as_slice(), sp + 1, t.len());
                    assert(rest@ =~= t@.skip(sp + 1));
                    Some((id, trim_chars(rest.as_slice())))
                },
                Err(_) => None,
            }
        },
    }
}

// ---------------------------------------------------------------------------
// Zone inputs from HTML comments
// ---------------------------------------------------------------------------

/// The trimmed text after the first `<font ...>` tag of a comment, up to the next `<`;
/// `None` when there is none or it is empty.
pub open spec fn font_text(comment: Seq<char>) -> Option<Seq<char>> {
    match find(comment, "<font"@) {
        None => None,
        Some(pos) => {
            let after_tag = comment.skip(pos as int);
            match find(after_tag, ">"@) {
                None => None,
                Some(gt) => {
                    let text_start = after_tag.skip(gt + 1 as int);
                    match find(text_start, "<"@) {
                        None => None,
                        Some(end) => {
                            let text = trim(text_start.take(end as int));
                            if text.len() == 0 {
                                None
                            } else {
                                Some(text)
                            }
                        },
                    }
                },
            }
        },
    }
}

pub fn extract_font_text(comment: &[char]) -> (r: Option<Vec<char>>)
    ensures
        match r {
            Some(t) => font_text(comment@) == Some(t@),
            None => font_text(comment@) is None,
        },
{
    let font = to_chars("<font");
    let pos = match find_chars(comment, font.as_slice()) {
        Some(p) => p,
        None => return None,
    };
    proof {
        lemma_find_from(comment@, "<font"@, 0);
    }
    let after_tag = slice_of(comment, pos, comment.len());
    assert(after_tag@ =~= comment@.skip(pos as int));
    let gt_pat = to_chars(">");
    let gt = match find_chars(after_tag.as_slice(), gt_pat.as_slice()) {
        Some(g) => g,
        None => return None,
    };
    let an = after_tag.len();
    proof {
        reveal_strlit(">");
        lemma_find_from(after_tag@, ">"@, 0);
    }
    let text_start = slice_of(after_tag.as_slice(), gt + 1, after_tag.len());
    assert(text_start@ =~= after_tag@.skip(gt + 1));
    let lt_pat = to_chars("<");
    let end = match find_chars(text_start.as_slice(), lt_pat.as_slice()) {
        Some(e) => e,
        None => return None,
    };
    proof {
        lemma_find_from(text_start@, "<"@, 0);
    }
    let raw = slice_of(text_start.as_slice(), 0, end);
    assert(raw@ =~= text_start@.take(end as int));
    let text = trim_chars(raw.as_slice());
    if text.len() == 0 {
        None
    } else {
        Some(text)
    }
}

/// The input that a comment reports, if it reports one.
pub open spec fn comment_input(comment: Seq<char>) -> Seq<ZoneInput> {
    match font_text(comment) {
        Some(t) => if t == "Open"@ {
            seq![ZoneInput::Open]
        } else if t == "Closed"@ {
            seq![ZoneInput::Closed]
        } else {
            seq![]
        },
        None => seq![],
    }
}

/// The Open/Closed values reported by the HTML comments of `s` from index `from` on,
/// in document order: each comment runs from `<!--` to the next `-->`.
pub open spec fn commented_inputs_from(s: Seq<char>, from: nat) -> Seq<ZoneInput>
    decreases s.len() - from,
{
    match find_from(s, "<!--"@, from) {
        None => seq![],
        Some(start) => match find_from(s, "-->"@, start) {
            None => seq![],
            Some(e) => {
                proof {
                    reveal_strlit("-->");
                    lemma_find_from(s, "<!--"@, from);
                    lemma_find_from(s, "-->"@, start);
                }
                comment_input(s.subrange(start as int, e + 3 as int)) + commented_inputs_from(s, e + 3)
            },
        },
    }
}

/// The Open/Closed values reported by the HTML comments of a page.
pub open spec fn commented_inputs(s: Seq<char>) -> Seq<ZoneInput> {
    commented_inputs_from(s, 0)
}

/// Extract Open/Closed values from HTML comments in zone table rows.
pub fn extract_commented_inputs(html: &[char]) -> (r: Vec<ZoneInput>)
    ensures
        r@ == commented_inputs(html@),
{
    let open_pat = to_chars("<!--");
    let close_pat = to_chars("-->");
    let n = html.len();
    let mut inputs: Vec<ZoneInput> = Vec::new();
    let mut search_from: usize = 0;
    while search_from <= n
        invariant
            n == html@.len(),
            open_pat@ == "<!--"@,
            close_pat@ == "-->"@,
            commented_inputs(html@) == inputs@ + commented_inputs_from(
                html@,
                search_from as nat,
            ),
        decreases n + 1 - search_from,
    {
        let start = match find_chars_from(html, open_pat.as_slice(), search_from) {
            Some(s) => s,
            None => {
                assert(inputs@ + Seq::<ZoneInput>::empty() =~= inputs@);
                return inputs;
            },
        };
        proof {
            lemma_find_from(html@, "<!--"@, search_from as nat);
        }
        let e = match find_chars_from(html, close_pat.as_slice(), start) {
            Some(e) => e,
            None => {
                assert(inputs@ + Seq::<ZoneInput>::empty() =~= inputs@);
                return inputs;
            },
        };
        proof {
            reveal_strlit("-->");
            lemma_find_from(html@, "-->"@, start as nat);
        }
        let end = e + 3;
        let comment = slice_of(html, start, end);
        let ghost before = inputs@;
        match extract_font_text(comment.as_slice()) {
            Some(t) => {
                if chars_eq_str(t.as_slice(), "Open") {
                    inputs.push(ZoneInput::Open);
                } else if chars_eq_str(t.as_slice(), "Closed") {
                    inputs.push(ZoneInput::Closed);
                }
            },
            None => {},
        }
        assert(inputs@ =~= before + comment_input(comment@));
        search_from = end;
    }
    assert(commented_inputs_from(html@, search_from as nat) =~= Seq::<ZoneInput>::empty());
    assert(inputs@ + Seq::<ZoneInput>::empty() =~= inputs@);
    inputs
}

// ---------------------------------------------------------------------------
// Panel identity
// ---------------------------------------------------------------------------

/// The serial number: the digits after `S/N:`, past whitespace and `&nbsp;`.
pub open spec fn panel_serial(html: Seq<char>) -> Option<Seq<char>> {
    match find(html, "S/N:"@) {
        None => None,
        Some(p) => {
            let a = trim_start_matches(trim_start(html.skip(p + 4 as int)), "&nbsp;"@);
            Some(a.take(digit_run(a, 0) as int))
        },
    }
}

/// The model name: `SPC` and the digits after its first occurrence, when that is
/// 4 to 10 characters long; empty otherwise.
pub open spec fn panel_name(html: Seq<char>) -> Seq<char> {
    match find(html, "SPC"@) {
        None => seq![],
        Some(p) => {
            let rest = html.skip(p as int);
            let name = trim(rest.take(digit_run(rest, 3) as int));
            if 4 <= name.len() <= 10 {
                name
            } else {
                seq![]
            }
        },
    }
}

/// Model name and serial of a panel page; `None` when no serial is found.
pub open spec fn panel_info_spec(html: Seq<char>) -> Option<(Seq<char>, Seq<char>)> {
    match panel_serial(html) {
        None => None,
        Some(serial) => if serial.len() == 0 {
            None
        } else {
            Some((panel_name(html), serial))
        },
    }
}

fn panel_name_chars(h: &[char]) -> (r: Vec<char>)
    ensures
        r@ == panel_name(h@),
{
    let spc = to_chars("SPC");
    match find_chars(h, spc.as_slice()) {
        None => Vec::new(),
        Some(p) => {
            proof {
                reveal_strlit("SPC");
                lemma_find_from(h@, "SPC"@, 0);
            }
            let rest = slice_of(h, p, h.len());
            assert(rest@ =~= h@.skip(p as int));
            let end = digit_run_index(rest.as_slice(), 3);
            let raw = slice_of(rest.as_slice(), 0, end);
            assert(raw@ =~= rest@.take(end as int));
            let name = trim_chars(raw.as_slice());
            if 4 <= name.len() && name.len() <= 10 {
                name
            } else {
                Vec::new()
            }
        },
    }
}

/// Parse panel model name and serial from any panel HTML page.
pub fn parse_panel_info(html: &str) -> (r: Option<PanelInfo>)
    ensures
        match r {
            Some(info) => panel_info_spec(html@) == Some((info.name@, info.serial@)),
            None => panel_info_spec(html@) is None,
        },
{
    let h = to_chars(html);
    let marker = to_chars("S/N:");
    let p = match find_chars(h.as_slice(), marker.as_slice()) {
        Some(p) => p,
        None => return None,
    };
    let hn = h.len();
    proof {
        reveal_strlit("S/N:");
        lemma_find_from(h@, "S/N:"@, 0);
    }
    let after = slice_of(h.as_slice(), p + 4, h.len());
    assert(after@ =~= h@.skip(p + 4));
    let ws = trim_start_index(after.as_slice());
    let k = trim_start_matches_index(after.as_slice(), ws, "&nbsp;");
    let a = slice_of(after.as_slice(), k, after.len());
    assert(a@ =~= after@.skip(k as int));
    let serial_end = digit_run_index(a.as_slice(), 0);
    let serial = slice_of(a.as_slice(), 0, serial_end);
    assert(serial@ =~= a@.take(serial_end as int));
    let name = panel_name_chars(h.as_slice());
    if serial.len() == 0 {
        return None;
    }
    Some(PanelInfo { name: string_of(&name), serial: string_of(&serial) })
}

// ---------------------------------------------------------------------------
// Table rows: shared helpers
// ---------------------------------------------------------------------------

/// The text of an optional attribute, empty when absent (`unwrap_or("")`).
pub open spec fn or_empty(o: Option<Seq<char>>) -> Seq<char> {
    match o {
        Some(s) => s,
        None => seq![],
    }
}

fn opt_chars(o: &Option<String>) -> (v: Vec<char>)
    ensures
        v@ == or_empty(crate::html::opt_view(*o)),
{
    match o {
        Some(s) => to_chars(s.as_str()),
        None => Vec::new(),
    }
}

/// The trimmed texts of the cells of a row.
pub open spec fn cell_texts(cells: Seq<CellView>) -> Seq<Seq<char>> {
    cells.map_values(|c: CellView| trim(c.text))
}

fn trimmed_cell(row: &TableRow, i: usize) -> (t: Vec<char>)
    requires
        i < row@.cells.len(),
    ensures
        t@ == cell_texts(row@.cells)[i as int],
{
    let c = to_chars(row.cells[i].text.as_str());
    trim_chars(c.as_slice())
}

// ---------------------------------------------------------------------------
// Areas (page=system_summary)
// ---------------------------------------------------------------------------

/// What the cells of an area row say about the area: its id, its name, and whether
/// the row is the "All Areas" row.
pub struct AreaHead {
    pub id: Option<u32>,
    pub name: Seq<char>,
    pub all: bool,
}

/// Reading one more cell: "All Areas", or "Area N: Name".
pub open spec fn area_head_step(h: AreaHead, text: Seq<char>) -> AreaHead {
    let t = trim(text);
    if t == "All Areas"@ {
        AreaHead { id: Some(0u32), name: "All Areas"@, all: true }
    } else {
        match strip_prefix(t, "Area "@) {
            Some(rest) => match split_once(rest, ':') {
                Some((id_str, name)) => match parse_u32(trim(id_str)) {
                    Ok(id) => AreaHead { id: Some(id), name: trim(name), all: h.all },
                    Err(_) => h,
                },
                None => h,
            },
            None => h,
        }
    }
}

/// The cells of a row read in order; a later match overrides an earlier one.
pub open spec fn area_head(cells: Seq<CellView>) -> AreaHead
    decreases cells.len(),
{
    if cells.len() == 0 {
        AreaHead { id: None, name: seq![], all: false }
    } else {
        area_head_step(area_head(cells.drop_last()), cells.last().text)
    }
}

/// A cell in bold blue with some text holds the area state.
pub open spec fn is_state_cell(c: CellView) -> bool {
    let style = or_empty(c.style);
    contains(style, "color:blue"@) && contains(style, "font-weight:bold"@) && trim(c.text).len()
        > 0
}

/// The trimmed text of the first state cell at or after `i`, empty if none.
pub open spec fn state_text_from(cells: Seq<CellView>, i: nat) -> Seq<char>
    decreases cells.len() - i,
{
    if i >= cells.len() {
        seq![]
    } else if is_state_cell(cells[i as int]) {
        trim(cells[i as int].text)
    } else {
        state_text_from(cells, i + 1)
    }
}

/// The state of an area row: the first state cell's text, "Unset" if none.
pub open spec fn area_state_text(cells: Seq<CellView>) -> Seq<char> {
    let s = state_text_from(cells, 0);
    if s.len() == 0 {
        "Unset"@
    } else {
        s
    }
}

/// Whether a button named `name` acts on area `id` (or on all areas).
pub open spec fn action_matches(name: Seq<char>, id: u32, all: bool) -> bool {
    if all {
        contains(name, "all_areas"@)
    } else {
        (contains(name, "set"@) || contains(name, "unset"@)) && contains(
            name,
            "area"@ + decimal(id as nat),
        )
    }
}

/// The action (label, form name) a button gives, if it is one for the area.
pub open spec fn submit_action(s: SubmitView, id: u32, all: bool) -> Option<
    (Seq<char>, Seq<char>),
> {
    let name = or_empty(s.name);
    let value = trim(or_empty(s.value));
    if name.len() == 0 || value.len() == 0 {
        None
    } else if action_matches(name, id, all) {
        Some((value, name))
    } else {
        None
    }
}

/// The actions of the buttons of a row, in order.
pub open spec fn area_actions(subs: Seq<SubmitView>, id: u32, all: bool) -> Seq<
    (Seq<char>, Seq<char>),
>
    decreases subs.len(),
{
    if subs.len() == 0 {
        seq![]
    } else {
        let prev = area_actions(subs.drop_last(), id, all);
        match submit_action(subs.last(), id, all) {
            Some(a) => prev.push(a),
            None => prev,
        }
    }
}

/// The area a row describes: rows with fewer than 3 cells or without an area cell describe none.
pub open spec fn area_of_row(r: RowView) -> Option<ParsedAreaView> {
    if r.cells.len() < 3 {
        None
    } else {
        let h = area_head(r.cells);
        match h.id {
            None => None,
            Some(id) => Some(
                ParsedAreaView {
                    id,
                    name: h.name,
                    state: area_state_text(r.cells),
                    actions: area_actions(r.submits, id, h.all),
                },
            ),
        }
    }
}

/// The areas of the rows, in order.
pub open spec fn areas_of_rows(rows: Seq<RowView>) -> Seq<ParsedAreaView>
    decreases rows.len(),
{
    if rows.len() == 0 {
        seq![]
    } else {
        let prev = areas_of_rows(rows.drop_last());
        match area_of_row(rows.last()) {
            Some(a) => prev.push(a),
            None => prev,
        }
    }
}

pub open spec fn parsed_areas_view(v: Seq<ParsedArea>) -> Seq<ParsedAreaView> {
    v.map_values(|a: ParsedArea| a@)
}

fn area_head_of(row: &TableRow) -> (r: (Option<u32>, Vec<char>, bool))
    ensures
        area_head(row@.cells) == (AreaHead { id: r.0, name: r.1@, all: r.2 }),
{
    let n = row.cells.len();
    let mut id: Option<u32> = None;
    let mut name: Vec<char> = Vec::new();
    let mut all = false;
    let ghost cells = row@.cells;
    assert(cells.take(0) =~= Seq::<CellView>::empty());
    let mut i: usize = 0;
    while i < n
        invariant
            n == cells.len(),
            cells == row@.cells,
            i <= n,
            area_head(cells.take(i as int)) == (AreaHead { id, name: name@, all }),
        decreases n - i,
    {
        assert(cells.take(i + 1).drop_last() =~= cells.take(i as int));
        let raw = to_chars(row.cells[i].text.as_str());
        let t = trim_chars(raw.as_slice());
        if chars_eq_str(t.as_slice(), "All Areas") {
            id = Some(0);
            name = to_chars("All Areas");
            all = true;
        } else {
            match strip_prefix_str(t.as_slice(), "Area ") {
                Some(rest) => match split_once_chars(rest.as_slice(), ':') {
                    Some((id_str, nm)) => {
                        let id_t = trim_chars(id_str.as_slice());
                        match parse_u32_chars(id_t.as_slice()) {
                            Ok(v) => {
                                id = Some(v);
                                name = trim_chars(nm.as_slice());
                            },
                            Err(_) => {},
                        }
                    },
                    None => {},
                },
                None => {},
            }
        }
        i = i + 1;
    }
    assert(cells.take(n as int) =~= cells);
    (id, name, all)
}

fn area_state_of(row: &TableRow) -> (s: Vec<char>)
    ensures
        s@ == area_state_text(row@.cells),
{
    let n = row.cells.len();
    let ghost cells = row@.cells;
    let mut i: usize = 0;
    let mut found: Vec<char> = Vec::new();
    let mut done = false;
    while i < n && !done
        invariant
            n == cells.len(),
            cells == row@.cells,
            i <= n,
            !done ==> state_text_from(cells, 0) == state_text_from(cells, i as nat),
            !done ==> found@.len() == 0,
            done ==> found@ == state_text_from(cells, 0) && found@.len() > 0,
        decreases n - i + (if done { 0int } else { 1int }),
    {
        let style = opt_chars(&row.cells[i].style);
        if contains_str(style.as_slice(), "color:blue") && contains_str(
            style.as_slice(),
            "font-weight:bold",
        ) {
            let raw = to_chars(row.cells[i].text.as_str());
            let t = trim_chars(raw.as_slice());
            if t.len() > 0 {
                found = t;
                done = true;
            }
        }
        if !done {
            i = i + 1;
        }
    }
    if found.len() == 0 {
        to_chars("Unset")
    } else {
        found
    }
}

fn area_actions_of(row: &TableRow, id: u32, all: bool) -> (r: Vec<AreaAction>)
    ensures
        actions_view(r@) == area_actions(row@.submits, id, all),
{
    let mut area_key = to_chars("area");
    push_decimal(&mut area_key, id);
    let n = row.submits.len();
    let ghost subs = row@.submits;
    let mut actions: Vec<AreaAction> = Vec::new();
    let mut i: usize = 0;
    assert(subs.take(0) =~= Seq::<SubmitView>::empty());
    while i < n
        invariant
            n == subs.len(),
            subs == row@.submits,
            i <= n,
            area_key@ == "area"@ + decimal(id as nat),
            actions_view(actions@) == area_actions(subs.take(i as int), id, all),
        decreases n - i,
    {
        assert(subs.take(i + 1).drop_last() =~= subs.take(i as int));
        let name = opt_chars(&row.submits[i].name);
        let raw_value = opt_chars(&row.submits[i].value);
        let value = trim_chars(raw_value.as_slice());
        if name.len() > 0 && value.len() > 0 {
            let matches = if all {
                contains_str(name.as_slice(), "all_areas")
            } else {
                (contains_str(name.as_slice(), "set") || contains_str(name.as_slice(), "unset"))
                    && contains_chars(name.as_slice(), area_key.as_slice())
            };
            if matches {
                let a = AreaAction { label: string_of(&value), form_name: string_of(&name) };
                let ghost before = actions@;
                actions.push(a);
                assert(actions_view(actions@) =~= actions_view(before).push((value@, name@)));
            }
        }
        i = i + 1;
    }
    assert(subs.take(n as int) =~= subs);
    actions
}

/// The areas described by the rows of the system summary table.
pub fn parse_area_rows(rows: &[TableRow]) -> (r: Vec<ParsedArea>)
    ensures
        parsed_areas_view(r@) == areas_of_rows(rows_view(rows@)),
{
    let n = rows.len();
    let ghost rv = rows_view(rows@);
    let mut areas: Vec<ParsedArea> = Vec::new();
    let mut i: usize = 0;
    assert(rv.take(0) =~= Seq::<RowView>::empty());
    while i < n
        invariant
            n == rv.len(),
            rv == rows_view(rows@),
            i <= n,
            parsed_areas_view(areas@) == areas_of_rows(rv.take(i as int)),
        decreases n - i,
    {
        assert(rv.take(i + 1).drop_last() =~= rv.take(i as int));
        let row = &rows[i];
        if row.cells.len() >= 3 {
            let (id_opt, name, all) = area_head_of(row);
            match id_opt {
                Some(id) => {
                    let state = area_state_of(row);
                    let actions = area_actions_of(row, id, all);
                    let a = ParsedArea {
                        id,
                        name: string_of(&name),
                        state: string_of(&state),
                        actions,
                    };
                    let ghost before = areas@;
                    let ghost av = a@;
                    areas.push(a);
                    assert(parsed_areas_view(areas@) =~= parsed_areas_view(before).push(av));
                },
                None => {},
            }
        }
        i = i + 1;
    }
    assert(rv.take(n as int) =~= rv);
    areas
}

/// The areas of a system summary page.
pub open spec fn areas_of_page(html: Seq<char>) -> Seq<ParsedAreaView> {
    match scraped_rows(html, "table#maintable"@, "tr"@, "td"@, "input[type='submit']"@) {
        Some(rows) => areas_of_rows(rows),
        None => seq![],
    }
}

/// Parse area states and action buttons from `page=system_summary`.
///
/// Each area row contains:
///   - "Area N: Name" in a subhead td
///   - State text (e.g. "Unset", "Fullset") in bold blue
///   - Submit buttons with VALUE=label and NAME=form_name
pub fn parse_areas(html: &str) -> (r: Vec<ParsedArea>)
    ensures
        parsed_areas_view(r@) == areas_of_page(html@),
{
    match scrape_table(html, "table#maintable", "tr", "td", "input[type='submit']") {
        Some(rows) => parse_area_rows(rows.as_slice()),
        None => {
            let r: Vec<ParsedArea> = Vec::new();
            assert(parsed_areas_view(r@) =~= Seq::<ParsedAreaView>::empty());
            r
        },
    }
}

// ---------------------------------------------------------------------------
// Zones (page=status_zones)
// ---------------------------------------------------------------------------

/// The zone a row describes, given the commented inputs of the page and the number
/// of zones found in earlier rows: at least 4 cells (Zone, Area, Zone Type, Status),
/// and a zone cell of the form "N Name".
pub open spec fn zone_of_row(r: RowView, inputs: Seq<ZoneInput>, idx: nat) -> Option<
    ParsedZoneView,
> {
    let c = cell_texts(r.cells);
    if c.len() < 4 {
        None
    } else {
        match parse_id_name_spec(c[0]) {
            None => None,
            Some((zid, zname)) => Some(
                ParsedZoneView {
                    id: zid,
                    name: zname,
                    area_id: match parse_id_name_spec(c[1]) {
                        Some((a, _)) => a,
                        None => 0,
                    },
                    zone_type: c[2],
                    input: if idx < inputs.len() {
                        inputs[idx as int]
                    } else {
                        ZoneInput::Unknown
                    },
                    status: c[3],
                },
            ),
        }
    }
}

/// The zones of the rows, in order; the n-th zone takes the n-th commented input.
pub open spec fn zones_of_rows(rows: Seq<RowView>, inputs: Seq<ZoneInput>) -> Seq<ParsedZoneView>
    decreases rows.len(),
{
    if rows.len() == 0 {
        seq![]
    } else {
        let prev = zones_of_rows(rows.drop_last(), inputs);
        match zone_of_row(rows.last(), inputs, prev.len()) {
            Some(z) => prev.push(z),
            None => prev,
        }
    }
}

pub open spec fn parsed_zones_view(v: Seq<ParsedZone>) -> Seq<ParsedZoneView> {
    v.map_values(|z: ParsedZone| z@)
}

/// The zones described by the rows of the zone table, with the page's commented inputs.
pub fn parse_zone_rows(rows: &[TableRow], inputs: &[ZoneInput]) -> (r: Vec<ParsedZone>)
    ensures
        parsed_zones_view(r@) == zones_of_rows(rows_view(rows@), inputs@),
{
    let n = rows.len();
    let ghost rv = rows_view(rows@);
    let mut zones: Vec<ParsedZone> = Vec::new();
    let mut zone_idx: usize = 0;
    let mut i: usize = 0;
    assert(rv.take(0) =~= Seq::<RowView>::empty());
    while i < n
        invariant
            n == rv.len(),
            rv == rows_view(rows@),
            i <= n,
            zone_idx == zones@.len(),
            zone_idx <= i,
            parsed_zones_view(zones@) == zones_of_rows(rv.take(i as int), inputs@),
        decreases n - i,
    {
        assert(rv.take(i + 1).drop_last() =~= rv.take(i as int));
        let row = &rows[i];
        if row.cells.len() >= 4 {
            let c0 = trimmed_cell(row, 0);
            match parse_id_name(c0.as_slice()) {
                Some((zone_id, zone_name)) => {
                    let c1 = trimmed_cell(row, 1);
                    let area_id = match parse_id_name(c1.as_slice()) {
                        Some((a, _)) => a,
                        None => 0,
                    };
                    let zone_type = trimmed_cell(row, 2);
                    let status = trimmed_cell(row, 3);
                    let input = if zone_idx < inputs.len() {
                        inputs[zone_idx]
                    } else {
                        ZoneInput::Unknown
                    };
                    let z = ParsedZone {
                        id: zone_id,
                        name: string_of(&zone_name),
                        area_id,
                        zone_type: string_of(&zone_type),
                        input,
                        status: string_of(&status),
                    };
                    let ghost before = zones@;
                    let ghost zv = z@;
                    zones.push(z);
                    assert(parsed_zones_view(zones@) =~= parsed_zones_view(before).push(zv));
                    zone_idx = zone_idx + 1;
                },
                None => {},
            }
        }
        i = i + 1;
    }
    assert(rv.take(n as int) =~= rv);
    zones
}

/// The zones of a zone status page.
pub open spec fn zones_of_page(html: Seq<char>) -> Seq<ParsedZoneView> {
    match scraped_rows(html, "table.gridtable"@, "tr"@, "td"@, "input[type='submit']"@) {
        Some(rows) => zones_of_rows(rows, commented_inputs(html)),
        None => seq![],
    }
}

/// Parse zone table from `page=status_zones`.
///
/// DOM columns: Zone | Area | Zone Type | Status | Log | Action
/// Input state (Open/Closed) is in HTML comments within each TR row.
pub fn parse_zones(html: &str) -> (r: Vec<ParsedZone>)
    ensures
        parsed_zones_view(r@) == zones_of_page(html@),
{
    let h = to_chars(html);
    let inputs = extract_commented_inputs(h.as_slice());
    match scrape_table(html, "table.gridtable", "tr", "td", "input[type='submit']") {
        Some(rows) => parse_zone_rows(rows.as_slice(), inputs.as_slice()),
        None => {
            let r: Vec<ParsedZone> = Vec::new();
            assert(parsed_zones_view(r@) =~= Seq::<ParsedZoneView>::empty());
            r
        },
    }
}

// ---------------------------------------------------------------------------
// System alerts (page=status_sysalert)
// ---------------------------------------------------------------------------

/// The index in a button name `inhibitN` or `isolateN`.
pub open spec fn button_index_of(name: Seq<char>) -> Option<u32> {
    let rest = match strip_prefix(name, "inhibit"@) {
        Some(r) => Some(r),
        None => strip_prefix(name, "isolate"@),
    };
    match rest {
        Some(r) => match parse_u32(r) {
            Ok(n) => Some(n),
            Err(_) => None,
        },
        None => None,
    }
}

/// The index of the first button at or after `i` that has one, 0 if none.
pub open spec fn first_button_index(subs: Seq<SubmitView>, i: nat) -> u32
    decreases subs.len() - i,
{
    if i >= subs.len() {
        0
    } else {
        match button_index_of(or_empty(subs[i as int].name)) {
            Some(n) => n,
            None => first_button_index(subs, i + 1),
        }
    }
}

/// The alert a row describes: at least 3 cells (Alert, Input, Status) and a name;
/// it is OK when both Input and Status read "OK" (in any case).
pub open spec fn alert_of_row(r: RowView) -> Option<(Seq<char>, bool, u32)> {
    let c = cell_texts(r.cells);
    if c.len() >= 3 && c[0].len() > 0 {
        Some(
            (
                c[0],
                eq_ignore_ascii_case(c[1], "OK"@) && eq_ignore_ascii_case(c[2], "OK"@),
                first_button_index(r.submits, 0),
            ),
        )
    } else {
        None
    }
}

/// The alerts of the rows, in order.
pub open spec fn alerts_of_rows(rows: Seq<RowView>) -> Seq<(Seq<char>, bool, u32)>
    decreases rows.len(),
{
    if rows.len() == 0 {
        seq![]
    } else {
        let prev = alerts_of_rows(rows.drop_last());
        match alert_of_row(rows.last()) {
            Some(a) => prev.push(a),
            None => prev,
        }
    }
}

pub open spec fn parsed_alerts_view(v: Seq<ParsedAlert>) -> Seq<(Seq<char>, bool, u32)> {
    v.map_values(|a: ParsedAlert| a@)
}

fn button_index_of_name(name: &[char]) -> (r: Option<u32>)
    ensures
        r == button_index_of(name@),
{
    let rest = match strip_prefix_str(name, "inhibit") {
        Some(r) => Some(r),
        None => strip_prefix_str(name, "isolate"),
    };
    match rest {
        Some(r) => match parse_u32_chars(r.as_slice()) {
            Ok(n) => Some(n),
            Err(_) => None,
        },
        None => None,
    }
}

fn first_button_index_of(row: &TableRow) -> (r: u32)
    ensures
        r == first_button_index(row@.submits, 0),
{
    let n = row.submits.len();
    let ghost subs = row@.submits;
    let mut i: usize = 0;
    while i < n
        invariant
            n == subs.len(),
            subs == row@.submits,
            i <= n,
            first_button_index(subs, 0) == first_button_index(subs, i as nat),
        decreases n - i,
    {
        let name = opt_chars(&row.submits[i].name);
        match button_index_of_name(name.as_slice()) {
            Some(k) => {
                return k;
            },
            None => {},
        }
        i = i + 1;
    }
    0
}

/// The alerts described by the rows of the system alert table.
pub fn parse_alert_rows(rows: &[TableRow]) -> (r: Vec<ParsedAlert>)
    ensures
        parsed_alerts_view(r@) == alerts_of_rows(rows_view(rows@)),
{
    let n = rows.len();
    let ghost rv = rows_view(rows@);
    let mut alerts: Vec<ParsedAlert> = Vec::new();
    let mut i: usize = 0;
    assert(rv.take(0) =~= Seq::<RowView>::empty());
    while i < n
        invariant
            n == rv.len(),
            rv == rows_view(rows@),
            i <= n,
            parsed_alerts_view(alerts@) == alerts_of_rows(rv.take(i as int)),
        decreases n - i,
    {
        assert(rv.take(i + 1).drop_last() =~= rv.take(i as int));
        let row = &rows[i];
        if row.cells.len() >= 3 {
            let c0 = trimmed_cell(row, 0);
            if c0.len() > 0 {
                let c1 = trimmed_cell(row, 1);
                let c2 = trimmed_cell(row, 2);
                let ok = eq_ignore_ascii_case_str(c1.as_slice(), "OK")
                    && eq_ignore_ascii_case_str(c2.as_slice(), "OK");
                let button_index = first_button_index_of(row);
                let a = ParsedAlert { name: string_of(&c0), ok, button_index };
                let ghost before = alerts@;
                let ghost av = a@;
                alerts.push(a);
                assert(parsed_alerts_view(alerts@) =~= parsed_alerts_view(before).push(av));
            }
        }
        i = i + 1;
    }
    assert(rv.take(n as int) =~= rv);
    alerts
}

/// The alerts of a system alert page.
pub open spec fn alerts_of_page(html: Seq<char>) -> Seq<(Seq<char>, bool, u32)> {
    match scraped_rows(html, "table.gridtable"@, "tr"@, "td"@, "input[type='submit']"@) {
        Some(rows) => alerts_of_rows(rows),
        None => seq![],
    }
}

/// Parse system alerts from `page=status_sysalert`.
///
/// Table structure: `<TABLE CLASS="gridtable">` with columns:
///   Alert | Input | Status | Action
/// Both Input and Status show "OK" (green) or fault text.
pub fn parse_alerts(html: &str) -> (r: Vec<ParsedAlert>)
    ensures
        parsed_alerts_view(r@) == alerts_of_page(html@),
{
    match scrape_table(html, "table.gridtable", "tr", "td", "input[type='submit']") {
        Some(rows) => parse_alert_rows(rows.as_slice()),
        None => {
            let r: Vec<ParsedAlert> = Vec::new();
            assert(parsed_alerts_view(r@) =~= Seq::<(Seq<char>, bool, u32)>::empty());
            r
        },
    }
}

proof fn lemma_find_space_after_digits(t: Seq<char>, d: nat, i: nat)
    requires
        i <= d < t.len(),
        t[d as int] == ' ',
        forall|k: int| 0 <= k < d ==> crate::text::is_digit(#[trigger] t[k]),
    ensures
        find_from(t, seq![' '], i) == Some(d),
{
    crate::text::lemma_find_char_after_digits(t, ' ', d, i);
}

/// A cell that the panel writes as "N Name" reads back as (N, trimmed Name), for any
/// name whose trim is not empty.
pub proof fn lemma_id_name_roundtrip(id: u32, name: Seq<char>)
    requires
        trim(name).len() > 0,
    ensures
        parse_id_name_spec(decimal(id as nat) + seq![' '] + name) == Some((id, trim(name))),
{
    let d = decimal(id as nat);
    let m = d.len() as int;
    let text = d + seq![' '] + name;
    crate::text::lemma_decimal_digits(id as nat);
    crate::text::lemma_parse_decimal_roundtrip(id);
    assert(d.len() >= 1) by {
        reveal_with_fuel(decimal, 2);
    }
    // where the name's trim begins and ends
    let k = crate::text::lemma_trim_start_skip(name);
    if k == name.len() {
        assert(trim_start(name) =~= Seq::<char>::empty());
        assert(crate::text::trim_end(Seq::<char>::empty()) == Seq::<char>::empty());
    }
    assert(k < name.len());
    let y0 = name.skip(k);
    let j0 = crate::text::lemma_trim_end_take(y0);
    assert(trim(name) == y0.take(j0));
    let j = k + j0;
    assert(j0 > 0);
    assert(y0[j0 - 1] == name[j - 1]);
    assert forall|i: int| j <= i < name.len() implies crate::text::is_ws(#[trigger] name[i]) by {
        assert(name[i] == y0[i - k]);
    }
    // the whole text trims to the digits, the space and the trimmed-at-the-end name
    assert(crate::text::is_digit(d[0]));
    assert(text[0] == d[0]);
    assert(text[m + 1 + j - 1] == name[j - 1]);
    assert forall|i: int| m + 1 + j <= i < text.len() implies crate::text::is_ws(
        #[trigger] text[i],
    ) by {
        assert(text[i] == name[i - m - 1]);
    }
    crate::text::lemma_trim_subrange(text, 0, m + 1 + j);
    let t = trim(text);
    assert(t =~= d + seq![' '] + name.take(j));
    assert forall|i: int| 0 <= i < m implies crate::text::is_digit(#[trigger] t[i]) by {
        assert(t[i] == d[i]);
    }
    assert(t[m] == ' ');
    lemma_find_space_after_digits(t, d.len(), 0);
    assert(t.take(m) =~= d);
    let rest = t.skip(m + 1);
    assert(rest =~= name.take(j));
    // and the rest trims to the name's trim
    assert forall|i: int| 0 <= i < k implies crate::text::is_ws(#[trigger] rest[i]) by {
        assert(rest[i] == name[i]);
    }
    assert(rest[k] == name[k]);
    assert(rest[j - 1] == name[j - 1]);
    crate::text::lemma_trim_subrange(rest, k, j);
    assert(rest.subrange(k, j) =~= y0.take(j0));
}

/// Row `i` is the row that gives zone `z` as the k-th zone: exactly k zones come
/// from the rows before it.
pub open spec fn kth_zone_row(
    rows: Seq<RowView>,
    inputs: Seq<ZoneInput>,
    k: int,
    i: int,
    z: ParsedZoneView,
) -> bool {
    &&& 0 <= i < rows.len()
    &&& zones_of_rows(rows.take(i), inputs).len() == k
    &&& zone_of_row(rows[i], inputs, k as nat) == Some(z)
}

/// The k-th zone found in the rows takes the k-th commented input of the page, or
/// `Unknown` past the last one.
pub proof fn lemma_zones_pair_inputs(rows: Seq<RowView>, inputs: Seq<ZoneInput>)
    ensures
        forall|k: int|
            0 <= k < zones_of_rows(rows, inputs).len() ==> (#[trigger] zones_of_rows(
                rows,
                inputs,
            )[k]).input == if k < inputs.len() {
                inputs[k]
            } else {
                ZoneInput::Unknown
            },
    decreases rows.len(),
{
    if rows.len() > 0 {
        let r0 = rows.drop_last();
        let prev = zones_of_rows(r0, inputs);
        let r = zones_of_rows(rows, inputs);
        lemma_zones_pair_inputs(r0, inputs);
        assert forall|k: int| 0 <= k < r.len() implies (#[trigger] r[k]).input == if k
            < inputs.len() {
            inputs[k]
        } else {
            ZoneInput::Unknown
        } by {
            if k < prev.len() {
                assert(r[k] == prev[k]);
            }
        }
    }
}

/// The k-th zone found in the rows comes from row `i`, the row before which exactly k
/// zones were found, and is the zone that row describes as the k-th one.
pub proof fn lemma_kth_zone_row(rows: Seq<RowView>, inputs: Seq<ZoneInput>, k: int) -> (i: int)
    requires
        0 <= k < zones_of_rows(rows, inputs).len(),
    ensures
        kth_zone_row(rows, inputs, k, i, zones_of_rows(rows, inputs)[k]),
    decreases rows.len(),
{
    let r0 = rows.drop_last();
    let prev = zones_of_rows(r0, inputs);
    let r = zones_of_rows(rows, inputs);
    assert(rows.last() == rows[rows.len() - 1]);
    assert(rows.take(rows.len() - 1) =~= r0);
    if k < prev.len() {
        assert(r[k] == prev[k]);
        let i = lemma_kth_zone_row(r0, inputs, k);
        assert(r0.take(i) =~= rows.take(i));
        assert(r0[i] == rows[i]);
        i
    } else {
        rows.len() - 1
    }
}

/// The k-th zone of a zone status page has the k-th input commented in the page, or
/// `Unknown` past the last one.
pub proof fn lemma_page_zone_inputs(html: Seq<char>)
    ensures
        forall|k: int|
            0 <= k < zones_of_page(html).len() ==> (#[trigger] zones_of_page(html)[k]).input
                == if k < commented_inputs(html).len() {
                commented_inputs(html)[k]
            } else {
                ZoneInput::Unknown
            },
{
    match scraped_rows(html, "table.gridtable"@, "tr"@, "td"@, "input[type='submit']"@) {
        Some(rows) => lemma_zones_pair_inputs(rows, commented_inputs(html)),
        None => {},
    }
}

// ---------------------------------------------------------------------------
// Laws: what a zone's state and an alert's flag are
// ---------------------------------------------------------------------------

/// A cell that reads "OK" in any letter case.
pub open spec fn reads_ok(s: Seq<char>) -> bool {
    &&& s.len() == 2
    &&& s[0] == 'O' || s[0] == 'o'
    &&& s[1] == 'K' || s[1] == 'k'
}

/// Comparing with "OK" ignoring ASCII case accepts exactly "OK", "Ok", "oK" and "ok".
pub proof fn lemma_eq_ok_ignoring_case(s: Seq<char>)
    ensures
        eq_ignore_ascii_case(s, "OK"@) <==> reads_ok(s),
{
    reveal_strlit("OK");
    let ok = "OK"@;
    assert(ok[0] == 'O' && ok[1] == 'K');
    assert(crate::text::ascii_lower('O') == 'o');
    assert(crate::text::ascii_lower('K') == 'k');
    if s.len() == 2 {
        let c0 = s[0];
        let c1 = s[1];
        if eq_ignore_ascii_case(s, ok) {
            assert(crate::text::ascii_lower(c0) == 'o');
            assert(crate::text::ascii_lower(c1) == 'k');
            if 65 <= c0 as u32 <= 90 {
                assert((c0 as u32 + 32) as char == 'o');
                assert(c0 as u32 + 32 == 111);
                assert('O' as u32 == 79);
                assert(c0 as u32 == 'O' as u32);
                vstd::utf8::char_u32_cast(c0, c0 as u32);
                vstd::utf8::char_u32_cast('O', 'O' as u32);
                assert(c0 == 'O');
            }
            if 65 <= c1 as u32 <= 90 {
                assert((c1 as u32 + 32) as char == 'k');
                assert(c1 as u32 + 32 == 107);
                assert('K' as u32 == 75);
                assert(c1 as u32 == 'K' as u32);
                vstd::utf8::char_u32_cast(c1, c1 as u32);
                vstd::utf8::char_u32_cast('K', 'K' as u32);
                assert(c1 == 'K');
            }
        }
        if reads_ok(s) {
            assert(crate::text::ascii_lower('o') == 'o');
            assert(crate::text::ascii_lower('k') == 'k');
            assert forall|i: int| 0 <= i < s.len() implies crate::text::ascii_lower(s[i])
                == crate::text::ascii_lower(ok[i]) by {
                assert(i == 0 || i == 1);
            }
        }
    }
}

/// An alert row (at least three cells, a name in the first) gives an alert named by
/// its first cell that is OK exactly when both its Input cell and its Status cell read
/// "OK" in any case: a fault in either column makes it not OK.
pub proof fn lemma_alert_ok_needs_input_and_status(r: RowView)
    requires
        cell_texts(r.cells).len() >= 3,
        cell_texts(r.cells)[0].len() > 0,
    ensures
        match alert_of_row(r) {
            Some(a) => a.0 == cell_texts(r.cells)[0] && (a.1 <==> reads_ok(cell_texts(r.cells)[1])
                && reads_ok(cell_texts(r.cells)[2])),
            None => false,
        },
{
    lemma_eq_ok_ignoring_case(cell_texts(r.cells)[1]);
    lemma_eq_ok_ignoring_case(cell_texts(r.cells)[2]);
}

/// Every alert parsed from the rows comes from one row `i` of at least three cells: its
/// name is the row's first cell and it is OK exactly when both the Input and the Status
/// cell read "OK" in any case.
pub proof fn lemma_parsed_alert_from_row(rows: Seq<RowView>, k: int) -> (i: int)
    requires
        0 <= k < alerts_of_rows(rows).len(),
    ensures
        0 <= i < rows.len(),
        cell_texts(rows[i].cells).len() >= 3,
        alerts_of_rows(rows)[k].0 == cell_texts(rows[i].cells)[0],
        alerts_of_rows(rows)[k].1 <==> reads_ok(cell_texts(rows[i].cells)[1]) && reads_ok(
            cell_texts(rows[i].cells)[2],
        ),
    decreases rows.len(),
{
    let r0 = rows.drop_last();
    let prev = alerts_of_rows(r0);
    assert(rows.last() == rows[rows.len() - 1]);
    if k < prev.len() {
        assert(alerts_of_rows(rows)[k] == prev[k]);
        let i = lemma_parsed_alert_from_row(r0, k);
        assert(r0[i] == rows[i]);
        i
    } else {
        let i = rows.len() - 1;
        lemma_alert_ok_needs_input_and_status(rows[i]);
        i
    }
}

/// An alarm condition in the status column decides a zone's state whatever its input
/// reads: "Alarm", "Tamper", "Trouble", "Inhibited" and "Isolated" give that state (and
/// all but the last two show the zone as ON). Only for any other status does the input
/// decide: Open gives Open, Closed or unknown gives Closed.
pub proof fn lemma_zone_state_status_first(status: Seq<char>, input: ZoneInput, other: ZoneInput)
    ensures
        status == "Alarm"@ ==> zone_state_of(status, input) == ZoneState::Alarm,
        status == "Tamper"@ ==> zone_state_of(status, input) == ZoneState::Tamper,
        status == "Trouble"@ ==> zone_state_of(status, input) == ZoneState::Trouble,
        status == "Inhibited"@ ==> zone_state_of(status, input) == ZoneState::Inhibited,
        status == "Isolated"@ ==> zone_state_of(status, input) == ZoneState::Isolated,
        (status == "Alarm"@ || status == "Tamper"@ || status == "Trouble"@ || status
            == "Inhibited"@ || status == "Isolated"@) ==> zone_state_of(status, input)
            == zone_state_of(status, other),
        !(status == "Alarm"@ || status == "Tamper"@ || status == "Trouble"@ || status
            == "Inhibited"@ || status == "Isolated"@) ==> zone_state_of(status, input) == (
        if input == ZoneInput::Open {
            ZoneState::Open
        } else {
            ZoneState::Closed
        }),
        (status == "Alarm"@ || status == "Tamper"@ || status == "Trouble"@) ==> zone_state_of(
            status,
            input,
        ).spec_is_on(),
{
    reveal_strlit("Alarm");
    reveal_strlit("Tamper");
    reveal_strlit("Trouble");
    reveal_strlit("Inhibited");
    reveal_strlit("Isolated");
    assert("Alarm"@.len() == 5 && "Tamper"@.len() == 6 && "Trouble"@.len() == 7
        && "Inhibited"@.len() == 9 && "Isolated"@.len() == 8);
}

// ---------------------------------------------------------------------------
// Laws: what the rows of the area and zone tables say
// ---------------------------------------------------------------------------

/// A cell reading "All Areas" makes the row the all-areas row, id 0.
pub proof fn lemma_area_head_all_areas(h: AreaHead, text: Seq<char>)
    requires
        trim(text) == "All Areas"@,
    ensures
        area_head_step(h, text) == (AreaHead { id: Some(0u32), name: "All Areas"@, all: true }),
{
}

/// A cell written `Area <n>:<name>` gives area `n` with the trimmed name (for a name
/// that is empty or does not end in whitespace).
pub proof fn lemma_area_head_numbered(h: AreaHead, n: u32, name: Seq<char>)
    requires
        name.len() == 0 || !crate::text::is_ws(name.last()),
    ensures
        area_head_step(h, "Area "@ + decimal(n as nat) + ":"@ + name) == (AreaHead {
            id: Some(n),
            name: trim(name),
            all: h.all,
        }),
{
    reveal_strlit("Area ");
    reveal_strlit(":");
    reveal_strlit("All Areas");
    let d = decimal(n as nat);
    let head = "Area "@;
    let t = head + d + ":"@ + name;
    crate::text::lemma_decimal_digits(n as nat);
    crate::text::lemma_parse_decimal_roundtrip(n);
    assert(d.len() >= 1) by {
        reveal_with_fuel(decimal, 2);
    }
    assert(t[0] == 'A');
    assert(!crate::text::is_ws('A'));
    if name.len() == 0 {
        assert(t.last() == ':');
        assert(!crate::text::is_ws(':'));
    } else {
        assert(t.last() == name.last());
    }
    assert(t[t.len() - 1] == t.last());
    crate::text::lemma_trim_subrange(t, 0, t.len() as int);
    assert(trim(t) =~= t);
    assert(t.len() != "All Areas"@.len() || t[5] != "All Areas"@[5]) by {
        assert(t[5] == d[0]);
        assert(crate::text::is_digit(d[0]));
    }
    assert(t.take(5) =~= head);
    let rest = t.skip(5);
    assert(rest =~= d + ":"@ + name);
    assert forall|k: int| 0 <= k < d.len() implies crate::text::is_digit(#[trigger] rest[k]) by {
        assert(rest[k] == d[k]);
    }
    assert(rest[d.len() as int] == ':');
    crate::text::lemma_find_char_after_digits(rest, ':', d.len(), 0);
    assert(rest.take(d.len() as int) =~= d);
    assert(rest.skip(d.len() + 1 as int) =~= name);
    assert(!crate::text::is_ws(d[0])) by {
        assert(crate::text::is_digit(d[0]));
    }
    assert(!crate::text::is_ws(d[d.len() - 1])) by {
        assert(crate::text::is_digit(d[d.len() - 1]));
    }
    crate::text::lemma_trim_subrange(d, 0, d.len() as int);
    assert(d.subrange(0, d.len() as int) =~= d);
}

/// An area's state is the trimmed text of its first cell styled bold and blue that has
/// any text, and "Unset" when it has none.
pub proof fn lemma_area_state_text(cells: Seq<CellView>, i: int)
    requires
        0 <= i < cells.len(),
        contains(or_empty(cells[i].style), "color:blue"@),
        contains(or_empty(cells[i].style), "font-weight:bold"@),
        trim(cells[i].text).len() > 0,
        forall|j: int|
            0 <= j < i ==> !(contains(or_empty((#[trigger] cells[j]).style), "color:blue"@)
                && contains(or_empty(cells[j].style), "font-weight:bold"@) && trim(
                cells[j].text,
            ).len() > 0),
    ensures
        area_state_text(cells) == trim(cells[i].text),
{
    lemma_state_text_from(cells, i, 0);
}

proof fn lemma_state_text_from(cells: Seq<CellView>, i: int, j: nat)
    requires
        j <= i < cells.len(),
        is_state_cell(cells[i]),
        forall|m: int| 0 <= m < i ==> !is_state_cell(#[trigger] cells[m]),
    ensures
        state_text_from(cells, j) == trim(cells[i].text),
    decreases i - j,
{
    if j < i {
        lemma_state_text_from(cells, i, j + 1);
    }
}

proof fn lemma_state_text_none(cells: Seq<CellView>, j: nat)
    requires
        forall|m: int| 0 <= m < cells.len() ==> !is_state_cell(#[trigger] cells[m]),
    ensures
        state_text_from(cells, j).len() == 0,
    decreases cells.len() - j,
{
    if j < cells.len() {
        lemma_state_text_none(cells, j + 1);
    }
}

/// An area row without any bold blue cell that has text is in state "Unset".
pub proof fn lemma_area_state_unset(cells: Seq<CellView>)
    requires
        forall|j: int|
            0 <= j < cells.len() ==> !(contains(or_empty((#[trigger] cells[j]).style), "color:blue"@)
                && contains(or_empty(cells[j].style), "font-weight:bold"@) && trim(
                cells[j].text,
            ).len() > 0),
    ensures
        area_state_text(cells) == "Unset"@,
{
    lemma_state_text_none(cells, 0);
}

/// A zone row whose first cell reads `<id> <name>` (the name not blank) gives zone `id`
/// with the trimmed name, the third cell as its type, the fourth as its status, and the
/// `idx`-th commented input (or `Unknown` past the last one).
pub proof fn lemma_zone_row(r: RowView, inputs: Seq<ZoneInput>, idx: nat, id: u32, name: Seq<char>)
    requires
        cell_texts(r.cells).len() >= 4,
        cell_texts(r.cells)[0] == decimal(id as nat) + seq![' '] + name,
        trim(name).len() > 0,
    ensures
        match zone_of_row(r, inputs, idx) {
            Some(z) => z.id == id && z.name == trim(name) && z.zone_type == cell_texts(r.cells)[2]
                && z.status == cell_texts(r.cells)[3] && z.input == (if idx < inputs.len() {
                inputs[idx as int]
            } else {
                ZoneInput::Unknown
            }),
            None => false,
        },
{
    lemma_id_name_roundtrip(id, name);
}

/// `find` gives the first place where the pattern occurs.
proof fn lemma_find_first(s: Seq<char>, p: Seq<char>, k: int)
    requires
        occurs_at(s, p, k),
        forall|j: int| 0 <= j < k ==> !occurs_at(s, p, j),
    ensures
        find(s, p) == Some(k as nat),
{
    lemma_find_from(s, p, 0);
}

/// A text without `c` has no occurrence of a pattern starting with `c` inside it.
proof fn lemma_no_char_no_occurrence(s: Seq<char>, p: Seq<char>, c: char, m: int)
    requires
        p.len() > 0,
        p[0] == c,
        0 <= m <= s.len(),
        forall|i: int| 0 <= i < m ==> s[i] != c,
    ensures
        forall|j: int| 0 <= j < m ==> !occurs_at(s, p, j),
{
    assert forall|j: int| 0 <= j < m implies !occurs_at(s, p, j) by {
        if occurs_at(s, p, j) {
            assert(s.subrange(j, j + p.len())[0] == s[j]);
        }
    }
}

/// A comment written `<pre><font<attrs>><text><<post>` (no `<` before the tag, no `>`
/// inside it, no `<` in the text) reports the trimmed text, when it is not blank.
pub proof fn lemma_font_text_of(
    pre: Seq<char>,
    attrs: Seq<char>,
    text: Seq<char>,
    post: Seq<char>,
)
    requires
        !pre.contains('<'),
        !attrs.contains('>'),
        !text.contains('<'),
    ensures
        font_text(pre + "<font"@ + attrs + ">"@ + text + "<"@ + post) == (if trim(text).len()
            == 0 {
            None
        } else {
            Some(trim(text))
        }),
{
    reveal_strlit("<font");
    reveal_strlit(">");
    reveal_strlit("<");
    let font = "<font"@;
    let s = pre + font + attrs + ">"@ + text + "<"@ + post;
    let np: int = pre.len() as int;
    let na: int = attrs.len() as int + 5;
    let nt: int = text.len() as int;
    // the tag
    assert forall|i: int| 0 <= i < pre.len() implies s[i] != '<' by {
        assert(s[i] == pre[i]);
        if pre[i] == '<' {
            assert(pre.contains('<'));
        }
    }
    lemma_no_char_no_occurrence(s, font, '<', pre.len() as int);
    assert(s.subrange(np, np + 5) =~= font);
    lemma_find_first(s, font, pre.len() as int);
    let after_tag = s.skip(pre.len() as int);
    assert(after_tag =~= font + attrs + ">"@ + text + "<"@ + post);
    // the end of the tag
    assert forall|i: int| 0 <= i < 5 + attrs.len() implies after_tag[i] != '>' by {
        if i < 5 {
            assert(after_tag[i] == font[i]);
            assert(i == 0 || i == 1 || i == 2 || i == 3 || i == 4);
        } else {
            assert(after_tag[i] == attrs[i - 5]);
            if attrs[i - 5] == '>' {
                assert(attrs.contains('>'));
            }
        }
    }
    lemma_no_char_no_occurrence(after_tag, ">"@, '>', na);
    assert(after_tag.subrange(na, na + 1) =~= ">"@);
    lemma_find_first(after_tag, ">"@, na);
    let text_start = after_tag.skip(na + 1);
    assert(text_start =~= text + "<"@ + post);
    // the end of the text
    assert forall|i: int| 0 <= i < text.len() implies text_start[i] != '<' by {
        assert(text_start[i] == text[i]);
        if text[i] == '<' {
            assert(text.contains('<'));
        }
    }
    lemma_no_char_no_occurrence(text_start, "<"@, '<', text.len() as int);
    assert(text_start.subrange(nt, nt + 1) =~= "<"@);
    lemma_find_first(text_start, "<"@, text.len() as int);
    assert(text_start.take(text.len() as int) =~= text);
}

/// A comment whose font text reads "Open" reports an open input, "Closed" a closed one,
/// and any other text nothing.
pub proof fn lemma_comment_reports_input(
    pre: Seq<char>,
    attrs: Seq<char>,
    text: Seq<char>,
    post: Seq<char>,
)
    requires
        !pre.contains('<'),
        !attrs.contains('>'),
        !text.contains('<'),
    ensures
        comment_input(pre + "<font"@ + attrs + ">"@ + text + "<"@ + post) == (if trim(text)
            == "Open"@ {
            seq![ZoneInput::Open]
        } else if trim(text) == "Closed"@ {
            seq![ZoneInput::Closed]
        } else {
            Seq::<ZoneInput>::empty()
        }),
{
    reveal_strlit("Open");
    reveal_strlit("Closed");
    lemma_font_text_of(pre, attrs, text, post);
}

// ---------------------------------------------------------------------------
// Laws: the panel's identity
// ---------------------------------------------------------------------------

proof fn lemma_digit_run_bounds(s: Seq<char>, i: nat)
    requires
        i <= s.len(),
    ensures
        i <= digit_run(s, i) <= s.len(),
        forall|j: int| i <= j < digit_run(s, i) ==> crate::text::is_digit(#[trigger] s[j]),
        digit_run(s, i) < s.len() ==> !crate::text::is_digit(s[digit_run(s, i) as int]),
    decreases s.len() - i,
{
    if i < s.len() && crate::text::is_digit(s[i as int]) {
        lemma_digit_run_bounds(s, i + 1);
    }
}

/// The serial number found on a page is made of decimal digits only.
pub proof fn lemma_panel_serial_digits(html: Seq<char>)
    ensures
        match panel_serial(html) {
            Some(t) => forall|i: int| 0 <= i < t.len() ==> 48 <= (#[trigger] t[i]) as u32 <= 57,
            None => true,
        },
{
    if let Some(p) = find(html, "S/N:"@) {
        let a = trim_start_matches(trim_start(html.skip(p + 4 as int)), "&nbsp;"@);
        lemma_digit_run_bounds(a, 0);
        let t = a.take(digit_run(a, 0) as int);
        assert forall|i: int| 0 <= i < t.len() implies 48 <= (#[trigger] t[i]) as u32 <= 57 by {
            assert(t[i] == a[i]);
        }
    }
}

/// A page that writes `S/N:`, then a space or `&nbsp;`, then a number, has that number
/// as its serial (when no `S` comes before and no digit right after).
pub proof fn lemma_panel_serial_written(pre: Seq<char>, gap: Seq<char>, n: u32, post: Seq<char>)
    requires
        !pre.contains('S'),
        gap == " "@ || gap == "&nbsp;"@,
        post.len() == 0 || !crate::text::is_digit(post[0]),
    ensures
        panel_serial(pre + "S/N:"@ + gap + decimal(n as nat) + post) == Some(decimal(n as nat)),
{
    reveal_strlit("S/N:");
    reveal_strlit(" ");
    reveal_strlit("&nbsp;");
    let d = decimal(n as nat);
    let marker = "S/N:"@;
    let html = pre + marker + gap + d + post;
    let np: int = pre.len() as int;
    crate::text::lemma_decimal_digits(n as nat);
    assert(d.len() >= 1) by {
        reveal_with_fuel(decimal, 2);
    }
    assert forall|i: int| 0 <= i < np implies html[i] != 'S' by {
        assert(html[i] == pre[i]);
        if pre[i] == 'S' {
            assert(pre.contains('S'));
        }
    }
    lemma_no_char_no_occurrence(html, marker, 'S', np);
    assert(html.subrange(np, np + 4) =~= marker);
    lemma_find_first(html, marker, np);
    let x = html.skip(np + 4);
    assert(x =~= gap + d + post);
    let dp = d + post;
    assert(crate::text::is_digit(dp[0])) by {
        assert(dp[0] == d[0]);
    }
    assert(!crate::text::is_ws(dp[0]));
    let k = crate::text::lemma_trim_start_skip(x);
    if gap == " "@ {
        assert(x[0] == ' ');
        assert(crate::text::is_ws(x[0]));
        if k == 0 {
            assert(!crate::text::is_ws(x[0]));
        }
        if k > 1 {
            assert(x[1] == dp[0]);
            assert(crate::text::is_ws(x[1]));
        }
        assert(k == 1);
        assert(x.skip(1) =~= dp);
        assert(!crate::text::starts_with(dp, "&nbsp;"@)) by {
            if crate::text::starts_with(dp, "&nbsp;"@) {
                assert(dp.take(6)[0] == dp[0]);
            }
        }
    } else {
        assert(x[0] == '&');
        assert(!crate::text::is_ws(x[0]));
        assert(k == 0);
        assert(x.skip(0) =~= x);
        assert(x.take(6) =~= "&nbsp;"@);
        assert(x.skip(6) =~= dp);
        assert(!crate::text::starts_with(dp, "&nbsp;"@)) by {
            if crate::text::starts_with(dp, "&nbsp;"@) {
                assert(dp.take(6)[0] == dp[0]);
            }
        }
        assert(trim_start_matches(x, "&nbsp;"@) == trim_start_matches(dp, "&nbsp;"@));
    }
    assert(trim_start_matches(dp, "&nbsp;"@) == dp);
    lemma_digit_run_bounds(dp, 0);
    let r = digit_run(dp, 0);
    assert forall|j: int| 0 <= j < d.len() implies crate::text::is_digit(#[trigger] dp[j]) by {
        assert(dp[j] == d[j]);
    }
    if r < d.len() {
        assert(dp[r as int] == d[r as int]);
    }
    if r > d.len() {
        assert(dp[d.len() as int] == post[0]);
    }
    assert(r == d.len());
    assert(dp.take(d.len() as int) =~= d);
}

/// The model name found on a page is empty, or 4 to 10 characters: `SPC` and then
/// decimal digits.
pub proof fn lemma_panel_name_shape(html: Seq<char>)
    ensures
        panel_name(html).len() == 0 || (4 <= panel_name(html).len() <= 10 && panel_name(html).take(
            3,
        ) == "SPC"@ && forall|i: int|
            3 <= i < panel_name(html).len() ==> 48 <= (#[trigger] panel_name(html)[i]) as u32
                <= 57),
{
    reveal_strlit("SPC");
    lemma_find_from(html, "SPC"@, 0);
    if let Some(p) = find(html, "SPC"@) {
        let rest = html.skip(p as int);
        assert(rest.take(3) =~= "SPC"@) by {
            assert(html.subrange(p as int, p + 3 as int) == "SPC"@);
        }
        lemma_digit_run_bounds(rest, 3);
        let r = digit_run(rest, 3);
        let raw = rest.take(r as int);
        assert(raw[0] == 'S');
        assert(!crate::text::is_ws('S'));
        assert forall|i: int| 3 <= i < raw.len() implies crate::text::is_digit(#[trigger] raw[i]) by {
            assert(raw[i] == rest[i]);
        }
        let last = raw[raw.len() - 1];
        if raw.len() > 3 {
            assert(crate::text::is_digit(last));
        } else {
            assert(last == 'C');
        }
        assert(!crate::text::is_ws(last));
        crate::text::lemma_trim_subrange(raw, 0, raw.len() as int);
        assert(raw.subrange(0, raw.len() as int) =~= raw);
        let name = trim(raw);
        if 4 <= name.len() <= 10 {
            assert(name.take(3) =~= "SPC"@);
        }
    }
}

/// A button of an area row gives an action, labelled by its trimmed value and named by
/// its form name, exactly when both are present and not blank and the name is one for
/// the area: for the all-areas row one with `all_areas` in it, for area `id` one with
/// `set` (or `unset`) and `area<id>` in it.
pub proof fn lemma_submit_action(s: SubmitView, id: u32, all: bool)
    ensures
        ({
            let name = or_empty(s.name);
            let value = trim(or_empty(s.value));
            let for_area = if all {
                contains(name, "all_areas"@)
            } else {
                (contains(name, "set"@) || contains(name, "unset"@)) && contains(
                    name,
                    "area"@ + decimal(id as nat),
                )
            };
            &&& (name.len() > 0 && value.len() > 0 && for_area) ==> submit_action(s, id, all)
                == Some((value, name))
            &&& !(name.len() > 0 && value.len() > 0 && for_area) ==> submit_action(s, id, all)
                is None
        }),
{
}

/// Every row that describes an area gives one, in row order: its area is found at the
/// position of the number of areas given by the rows before it.
pub proof fn lemma_area_row_kept(rows: Seq<RowView>, i: int)
    requires
        0 <= i < rows.len(),
        area_of_row(rows[i]) is Some,
    ensures
        areas_of_rows(rows.take(i)).len() < areas_of_rows(rows).len(),
        areas_of_rows(rows)[areas_of_rows(rows.take(i)).len() as int] == area_of_row(
            rows[i],
        )->Some_0,
    decreases rows.len(),
{
    let r0 = rows.drop_last();
    assert(rows.last() == rows[rows.len() - 1]);
    if i < rows.len() - 1 {
        lemma_area_row_kept(r0, i);
        assert(r0.take(i) =~= rows.take(i));
        assert(r0[i] == rows[i]);
    } else {
        assert(rows.take(i) =~= r0);
    }
}

/// Every row that describes a zone gives one, in row order, at the position of the
/// number of zones given by the rows before it.
pub proof fn lemma_zone_row_kept(rows: Seq<RowView>, inputs: Seq<ZoneInput>, i: int)
    requires
        0 <= i < rows.len(),
        zone_of_row(rows[i], inputs, zones_of_rows(rows.take(i), inputs).len()) is Some,
    ensures
        zones_of_rows(rows.take(i), inputs).len() < zones_of_rows(rows, inputs).len(),
        zones_of_rows(rows, inputs)[zones_of_rows(rows.take(i), inputs).len() as int]
            == zone_of_row(rows[i], inputs, zones_of_rows(rows.take(i), inputs).len())->Some_0,
    decreases rows.len(),
{
    let r0 = rows.drop_last();
    assert(rows.last() == rows[rows.len() - 1]);
    if i < rows.len() - 1 {
        assert(r0.take(i) =~= rows.take(i));
        assert(r0[i] == rows[i]);
        lemma_zone_row_kept(r0, inputs, i);
    } else {
        assert(rows.take(i) =~= r0);
    }
}

/// Every row that describes an alert gives one, in row order, at the position of the
/// number of alerts given by the rows before it.
pub proof fn lemma_alert_row_kept(rows: Seq<RowView>, i: int)
    requires
        0 <= i < rows.len(),
        alert_of_row(rows[i]) is Some,
    ensures
        alerts_of_rows(rows.take(i)).len() < alerts_of_rows(rows).len(),
        alerts_of_rows(rows)[alerts_of_rows(rows.take(i)).len() as int] == alert_of_row(
            rows[i],
        )->Some_0,
    decreases rows.len(),
{
    let r0 = rows.drop_last();
    assert(rows.last() == rows[rows.len() - 1]);
    if i < rows.len() - 1 {
        lemma_alert_row_kept(r0, i);
        assert(r0.take(i) =~= rows.take(i));
        assert(r0[i] == rows[i]);
    } else {
        assert(rows.take(i) =~= r0);
    }
}

/// The button index of an alert row is the number in the name of its first button named
/// `inhibit<N>` or `isolate<N>` (when no earlier button's name starts with either word).
pub proof fn lemma_first_button_index(subs: Seq<SubmitView>, i: int, word: Seq<char>, n: u32)
    requires
        0 <= i < subs.len(),
        word == "inhibit"@ || word == "isolate"@,
        or_empty(subs[i].name) == word + decimal(n as nat),
        forall|j: int|
            0 <= j < i ==> !crate::text::starts_with(or_empty((#[trigger] subs[j]).name), "inhibit"@)
                && !crate::text::starts_with(or_empty(subs[j].name), "isolate"@),
    ensures
        first_button_index(subs, 0) == n,
{
    reveal_strlit("inhibit");
    reveal_strlit("isolate");
    crate::text::lemma_parse_decimal_roundtrip(n);
    let name = word + decimal(n as nat);
    assert(name.take(7) =~= word);
    assert(name.skip(7) =~= decimal(n as nat));
    if word == "isolate"@ {
        assert(!crate::text::starts_with(name, "inhibit"@)) by {
            assert(name.take(7)[1] == 's');
            assert("inhibit"@[1] == 'n');
        }
    }
    assert(button_index_of(name) == Some(n));
    lemma_first_button_index_from(subs, i, n, 0);
}

proof fn lemma_first_button_index_from(subs: Seq<SubmitView>, i: int, n: u32, j: nat)
    requires
        j <= i < subs.len(),
        button_index_of(or_empty(subs[i].name)) == Some(n),
        forall|m: int|
            0 <= m < i ==> !crate::text::starts_with(or_empty((#[trigger] subs[m]).name), "inhibit"@)
                && !crate::text::starts_with(or_empty(subs[m].name), "isolate"@),
    ensures
        first_button_index(subs, j) == n,
    decreases i - j,
{
    if j < i {
        let nm = or_empty(subs[j as int].name);
        assert(!crate::text::starts_with(nm, "inhibit"@) && !crate::text::starts_with(nm, "isolate"@));
        assert(button_index_of(nm) is None);
        lemma_first_button_index_from(subs, i, n, j + 1);
    }
}

/// An alert row without any button named `inhibit…` or `isolate…` has button index 0.
pub proof fn lemma_no_button_index(subs: Seq<SubmitView>, j: nat)
    requires
        forall|m: int|
            0 <= m < subs.len() ==> !crate::text::starts_with(
                or_empty((#[trigger] subs[m]).name),
                "inhibit"@,
            ) && !crate::text::starts_with(or_empty(subs[m].name), "isolate"@),
    ensures
        first_button_index(subs, j) == 0,
    decreases subs.len() - j,
{
    if j < subs.len() {
        let nm = or_empty(subs[j as int].name);
        assert(!crate::text::starts_with(nm, "inhibit"@) && !crate::text::starts_with(nm, "isolate"@));
        lemma_no_button_index(subs, j + 1);
    }
}

proof fn lemma_find_from_shift(a: Seq<char>, b: Seq<char>, p: Seq<char>, i: nat)
    ensures
        find_from(a + b, p, a.len() + i) == match find_from(b, p, i) {
            Some(k) => Some(k + a.len()),
            None => None,
        },
    decreases b.len() - i,
{
    let s = a + b;
    let ai: int = a.len() as int + i;
    let pl: int = p.len() as int;
    if i + p.len() <= b.len() {
        assert(occurs_at(s, p, ai) == occurs_at(b, p, i as int)) by {
            assert(s.subrange(ai, ai + pl) =~= b.subrange(i as int, i + pl));
        }
        if p.len() == 0 {
            assert(b.subrange(i as int, i as int) =~= p);
        }
        if !occurs_at(b, p, i as int) {
            lemma_find_from_shift(a, b, p, i + 1);
            assert(a.len() + i + 1 == a.len() + (i + 1));
        }
    }
}

proof fn lemma_commented_inputs_shift(a: Seq<char>, b: Seq<char>, i: nat)
    ensures
        commented_inputs_from(a + b, a.len() + i) == commented_inputs_from(b, i),
    decreases b.len() - i,
{
    reveal_strlit("-->");
    reveal_strlit("<!--");
    let s = a + b;
    lemma_find_from_shift(a, b, "<!--"@, i);
    match find_from(b, "<!--"@, i) {
        None => {},
        Some(k) => {
            lemma_find_from(b, "<!--"@, i);
            lemma_find_from_shift(a, b, "-->"@, k);
            match find_from(b, "-->"@, k) {
                None => {},
                Some(e) => {
                    lemma_find_from(b, "-->"@, k);
                    let ak: int = a.len() as int + k;
                    let ae: int = a.len() as int + e;
                    assert(s.subrange(ak, ae + 3) =~= b.subrange(k as int, e + 3 as int));
                    lemma_commented_inputs_shift(a, b, e + 3);
                    assert(a.len() + e + 3 == a.len() + (e + 3));
                },
            }
        },
    }
}

/// The inputs reported by a page whose first comment is `<!--<body>-->` (no `<` before
/// it, no `-` inside it, and not starting with `>`) are that comment's input, then those
/// of the rest of the page, in order.
pub proof fn lemma_commented_inputs_first(pre: Seq<char>, body: Seq<char>, post: Seq<char>)
    requires
        !pre.contains('<'),
        !body.contains('-'),
        body.len() == 0 || body[0] != '>',
    ensures
        commented_inputs(pre + "<!--"@ + body + "-->"@ + post) == comment_input(
            "<!--"@ + body + "-->"@,
        ) + commented_inputs(post),
{
    reveal_strlit("<!--");
    reveal_strlit("-->");
    let open = "<!--"@;
    let close = "-->"@;
    let s = pre + open + body + close + post;
    let np: int = pre.len() as int;
    let nb: int = body.len() as int;
    assert forall|i: int| 0 <= i < np implies s[i] != '<' by {
        assert(s[i] == pre[i]);
        if pre[i] == '<' {
            assert(pre.contains('<'));
        }
    }
    lemma_no_char_no_occurrence(s, open, '<', np);
    assert(s.subrange(np, np + 4) =~= open);
    lemma_find_first(s, open, np);
    assert(find_from(s, open, 0) == Some(np as nat));
    // the comment's end
    let e: int = np + 4 + nb;
    assert(s.subrange(e, e + 3) =~= close);
    assert forall|j: int| np <= j < e implies !occurs_at(s, close, j) by {
        if occurs_at(s, close, j) {
            assert(s.subrange(j, j + 3)[0] == s[j]);
            assert(s.subrange(j, j + 3)[2] == s[j + 2]);
            if j < np + 2 {
                assert(s[j] == open[j - np]);
                assert(j == np || j == np + 1);
            } else if j == np + 2 {
                assert(s[j + 2] == body[0]);
            } else if j == np + 3 {
                if nb == 0 {
                    assert(s[j + 2] == close[1]);
                } else {
                    assert(s.subrange(j, j + 3)[1] == s[j + 1]);
                    assert(close[1] == '-');
                    assert(s[j + 1] == body[0]);
                    assert(body.contains('-'));
                }
            } else {
                assert(s[j] == body[j - np - 4]);
                assert(body.contains('-'));
            }
        }
    }
    lemma_find_from(s, close, np as nat);
    assert(occurs_at(s, close, e));
    assert(find_from(s, close, np as nat) == Some(e as nat));
    assert(s.subrange(np, e + 3) =~= open + body + close);
    let head = pre + open + body + close;
    assert(s =~= head + post);
    lemma_commented_inputs_shift(head, post, 0);
    assert(head.len() + 0 == e + 3);
}

/// A zone row whose second cell reads `<area id> <area name>` (the name not blank) puts
/// the zone in that area; a second cell that is not of that form puts it in area 0.
pub proof fn lemma_zone_row_area(r: RowView, inputs: Seq<ZoneInput>, idx: nat, area: u32, aname: Seq<char>)
    requires
        cell_texts(r.cells).len() >= 4,
        parse_id_name_spec(cell_texts(r.cells)[0]) is Some,
    ensures
        (cell_texts(r.cells)[1] == decimal(area as nat) + seq![' '] + aname && trim(aname).len()
            > 0) ==> zone_of_row(r, inputs, idx)->Some_0.area_id == area,
        parse_id_name_spec(cell_texts(r.cells)[1]) is None ==> zone_of_row(r, inputs, idx)->Some_0.area_id
            == 0,
        zone_of_row(r, inputs, idx) is Some,
{
    if cell_texts(r.cells)[1] == decimal(area as nat) + seq![' '] + aname && trim(aname).len() > 0 {
        lemma_id_name_roundtrip(area, aname);
    }
}

} // verus!
