use vstd::prelude::*;

use crate::text::{
    chars_of, find, find_chars, occurs_at, upper_char, has_prefix, lines_of, push_all, raw_lines, split_chars, split_on,
    starts_with, string_of, sub_chars, trim, trim_chars, upper, upper_chars, views,
};

verus! {

// ─── The .pcprep point-cloud text format ─────────────────────────────────────
//
// Lines are trimmed; empty lines and lines starting with `$` or `#` are
// comments. A line starting with `*` is a section header; other lines are
// comma-separated data rows of the current section:
//
//   *PCB_POINT_CLOUD, LAYER_NAME="..."              x,y,z,metal_fraction,face_tag
//   *POINT_CLOUD, BODY="comp_...", MATERIAL="..."    x,y,z,face_tag
//
// The readers here hand out the text of each numeric column; turning it into
// a number (and dropping rows whose columns are not numbers) is left to the
// caller.

/// A comment or blank line, once trimmed.
pub open spec fn is_comment(t: Seq<char>) -> bool {
    t.len() == 0 || t[0] == '$' || t[0] == '#'
}

/// A section header line, once trimmed.
pub open spec fn is_header(t: Seq<char>) -> bool {
    t.len() > 0 && t[0] == '*'
}

/// Item `i` of the columns, trimmed, or `"V"` when the row has no such column.
pub open spec fn column_or_v(p: Seq<Seq<char>>, i: int) -> Seq<char> {
    if 0 <= i < p.len() {
        trim(p[i])
    } else {
        "V"@
    }
}

fn is_comment_exec(t: &Vec<char>) -> (b: bool)
    ensures
        b == is_comment(t@),
{
    t.len() == 0 || t[0] == '$' || t[0] == '#'
}

fn is_header_exec(t: &Vec<char>) -> (b: bool)
    ensures
        b == is_header(t@),
{
    t.len() > 0 && t[0] == '*'
}

fn column_or_v_exec(p: &Vec<Vec<char>>, i: usize) -> (r: Vec<char>)
    ensures
        r@ == column_or_v(views(p@), i as int),
{
    if i < p.len() {
        trim_chars(&p[i])
    } else {
        chars_of("V")
    }
}

// ─── PCB copper-layer rows (*PCB_POINT_CLOUD sections) ───────────────────────

/// One data row of a `*PCB_POINT_CLOUD` section: the trimmed text of its columns.
pub struct TraceRow {
    pub x: String,
    pub y: String,
    pub z: String,
    pub metal_fraction: String,
    pub face_tag: String,
}

/// The mathematical form of a [`TraceRow`].
pub struct TraceRowView {
    pub x: Seq<char>,
    pub y: Seq<char>,
    pub z: Seq<char>,
    pub metal_fraction: Seq<char>,
    pub face_tag: Seq<char>,
}

impl View for TraceRow {
    type V = TraceRowView;

    open spec fn view(&self) -> TraceRowView {
        TraceRowView {
            x: self.x@,
            y: self.y@,
            z: self.z@,
            metal_fraction: self.metal_fraction@,
            face_tag: self.face_tag@,
        }
    }
}

/// The views of a sequence of trace rows.
pub open spec fn trace_views(s: Seq<TraceRow>) -> Seq<TraceRowView> {
    s.map_values(|r: TraceRow| r@)
}

/// One line of the trace reader: whether the following lines are in a PCB
/// section, and the row this line gives, if any.
pub open spec fn trace_step(in_pcb: bool, line: Seq<char>) -> (bool, Option<TraceRowView>) {
    let t = trim(line);
    if is_comment(t) {
        (in_pcb, None)
    } else if is_header(t) {
        (has_prefix(upper(t), "*PCB_POINT_CLOUD"@), None)
    } else if !in_pcb {
        (in_pcb, None)
    } else {
        let p = split_on(t, ',');
        if p.len() >= 4 {
            (
                in_pcb,
                Some(
                    TraceRowView {
                        x: trim(p[0]),
                        y: trim(p[1]),
                        z: trim(p[2]),
                        metal_fraction: trim(p[3]),
                        face_tag: column_or_v(p, 4),
                    },
                ),
            )
        } else {
            (in_pcb, None)
        }
    }
}

/// The trace reader over a sequence of lines: the final section state and the rows.
pub open spec fn trace_fold(lines: Seq<Seq<char>>) -> (bool, Seq<TraceRowView>)
    decreases lines.len(),
{
    if lines.len() == 0 {
        (false, Seq::empty())
    } else {
        let (st, rows) = trace_fold(lines.drop_last());
        let (st2, o) = trace_step(st, lines.last());
        (
            st2,
            match o {
                Some(r) => rows.push(r),
                None => rows,
            },
        )
    }
}

/// The rows of all `*PCB_POINT_CLOUD` sections of a `.pcprep` text.
pub open spec fn trace_rows(content: Seq<char>) -> Seq<TraceRowView> {
    trace_fold(raw_lines(content)).1
}

/// Parse all `*PCB_POINT_CLOUD` sections of a `.pcprep` text.
///
/// The file has one section per copper layer (TOP, BOTTOM, INT1…INTn); the
/// section is re-evaluated at every header line. A data row needs at least
/// four columns; its face tag is the fifth column, or `V` when absent.
pub fn parse_trace_map(content: &str) -> (r: Vec<TraceRow>)
    ensures
        trace_views(r@) == trace_rows(content@),
{
    let text = chars_of(content);
    let lines = lines_of(&text);
    let ghost ls = views(lines@);
    let pcb_tag = chars_of("*PCB_POINT_CLOUD");
    let mut rows: Vec<TraceRow> = Vec::new();
    let mut in_pcb = false;
    let n = lines.len();
    proof {
        assert(ls.take(0) =~= Seq::<Seq<char>>::empty());
        assert(trace_views(rows@) =~= Seq::<TraceRowView>::empty());
    }
    for i in 0..n
        invariant
            n == lines@.len(),
            ls == views(lines@),
            pcb_tag@ == "*PCB_POINT_CLOUD"@,
            trace_fold(ls.take(i as int)) == (in_pcb, trace_views(rows@)),
    {
        proof {
            assert(ls.take(i + 1).drop_last() =~= ls.take(i as int));
            assert(ls.take(i + 1).last() == lines@[i as int]@);
        }
        let t = trim_chars(&lines[i]);
        if is_comment_exec(&t) {
        } else if is_header_exec(&t) {
            let up = upper_chars(&t);
            in_pcb = starts_with(&up, &pcb_tag);
        } else if in_pcb {
            let p = split_chars(&t, ',');
            if p.len() >= 4 {
                let x = trim_chars(&p[0]);
                let y = trim_chars(&p[1]);
                let z = trim_chars(&p[2]);
                let mf = trim_chars(&p[3]);
                let tag = column_or_v_exec(&p, 4);
                let row = TraceRow {
                    x: string_of(&x),
                    y: string_of(&y),
                    z: string_of(&z),
                    metal_fraction: string_of(&mf),
                    face_tag: string_of(&tag),
                };
                let ghost old_rows = trace_views(rows@);
                let ghost rv = row@;
                rows.push(row);
                proof {
                    assert(trace_views(rows@) =~= old_rows.push(rv));
                }
            }
        }
    }
    proof {
        assert(ls.take(n as int) =~= ls);
    }
    rows
}

// ─── All body rows (*PCB_POINT_CLOUD and *POINT_CLOUD sections) ──────────────

/// Extract the `BODY="..."` attribute from a `*POINT_CLOUD` header line:
/// the text after the first `BODY="` (matched without regard to ASCII case)
/// up to the next `"`, or `unknown`.
pub open spec fn body_attr(header: Seq<char>) -> Seq<char> {
    match find(upper(header), "BODY=\""@) {
        Some(pos) => {
            let rest = header.subrange(pos + 6, header.len() as int);
            match find(rest, seq!['"']) {
                Some(end) => rest.subrange(0, end),
                None => "unknown"@,
            }
        },
        None => "unknown"@,
    }
}

/// Find lemma: a found pattern lies inside the text.
proof fn lemma_find_bounds(s: Seq<char>, p: Seq<char>, k: int)
    requires
        find_from(s, p, k) is Some,
    ensures
        k <= find_from(s, p, k)->0,
        find_from(s, p, k)->0 + p.len() <= s.len(),
    decreases s.len() + 1 - k,
{
    if !(k < 0 || k + p.len() > s.len()) && !crate::text::occurs_at(s, p, k) {
        lemma_find_bounds(s, p, k + 1);
    }
}

use crate::text::{find_from, lemma_find_first};

/// Extract the `BODY="..."` attribute from a `*POINT_CLOUD` header line.
pub fn extract_body_attr(header: &str) -> (r: String)
    ensures
        r@ == body_attr(header@),
{
    let h = chars_of(header);
    let up = upper_chars(&h);
    let key = chars_of("BODY=\"");
    let mut quote: Vec<char> = Vec::new();
    quote.push('"');
    match find_chars(&up, &key) {
        Some(pos) => {
            proof {
                lemma_find_bounds(up@, key@, 0);
                reveal_strlit("BODY=\"");
                assert(key@.len() == 6);
                assert(up@.len() == h@.len());
            }
            let hl = h.len();
            let rest = sub_chars(&h, pos + 6, hl);
            match find_chars(&rest, &quote) {
                Some(end) => {
                    proof {
                        lemma_find_bounds(rest@, quote@, 0);
                        assert(quote@ =~= seq!['"']);
                    }
                    let name = sub_chars(&rest, 0, end);
                    string_of(&name)
                },
                None => {
                    proof {
                        assert(quote@ =~= seq!['"']);
                    }
                    String::from_str("unknown")
                },
            }
        },
        None => String::from_str("unknown"),
    }
}

/// The body name a `*PCB_POINT_CLOUD` header gives: `PCB_` and the
/// `LAYER_NAME="..."` value, or `PCB_substrate` without one.
pub open spec fn pcb_body_name(t: Seq<char>) -> Seq<char> {
    match find(upper(t), "LAYER_NAME=\""@) {
        Some(pos) => {
            let rest = t.subrange(pos + 12, t.len() as int);
            let end = match find(rest, seq!['"']) {
                Some(e) => e,
                None => rest.len() as int,
            };
            "PCB_"@ + rest.subrange(0, end)
        },
        None => "PCB_substrate"@,
    }
}

/// Section state of the body reader.
pub struct BodyState {
    pub body_name: Seq<char>,
    pub is_pcb: bool,
    pub in_section: bool,
}

/// One data row of any body section: the trimmed text of its columns, the
/// section's body name and the row's face tag.
pub struct BodyRow {
    pub x: String,
    pub y: String,
    pub z: String,
    pub body_name: String,
    pub face_tag: String,
}

/// The mathematical form of a [`BodyRow`].
pub struct BodyRowView {
    pub x: Seq<char>,
    pub y: Seq<char>,
    pub z: Seq<char>,
    pub body_name: Seq<char>,
    pub face_tag: Seq<char>,
}

impl View for BodyRow {
    type V = BodyRowView;

    open spec fn view(&self) -> BodyRowView {
        BodyRowView {
            x: self.x@,
            y: self.y@,
            z: self.z@,
            body_name: self.body_name@,
            face_tag: self.face_tag@,
        }
    }
}

/// The views of a sequence of body rows.
pub open spec fn body_views(s: Seq<BodyRow>) -> Seq<BodyRowView> {
    s.map_values(|r: BodyRow| r@)
}

/// One line of the body reader: the next section state and the row this line
/// gives, if any.
pub open spec fn body_step(st: BodyState, line: Seq<char>) -> (BodyState, Option<BodyRowView>) {
    let t = trim(line);
    if is_comment(t) {
        (st, None)
    } else if is_header(t) {
        let up = upper(t);
        if has_prefix(up, "*PCB_POINT_CLOUD"@) {
            (BodyState { body_name: pcb_body_name(t), is_pcb: true, in_section: true }, None)
        } else if has_prefix(up, "*POINT_CLOUD"@) && find(up, "BODY="@) is Some {
            (BodyState { body_name: body_attr(t), is_pcb: false, in_section: true }, None)
        } else {
            (BodyState { in_section: false, ..st }, None)
        }
    } else if !st.in_section || st.body_name.len() == 0 {
        (st, None)
    } else {
        let p = split_on(t, ',');
        if p.len() < 3 {
            (st, None)
        } else {
            (
                st,
                Some(
                    BodyRowView {
                        x: trim(p[0]),
                        y: trim(p[1]),
                        z: trim(p[2]),
                        body_name: st.body_name,
                        face_tag: if st.is_pcb {
                            column_or_v(p, 4)
                        } else {
                            column_or_v(p, 3)
                        },
                    },
                ),
            )
        }
    }
}

/// The body reader over a sequence of lines: the final state and the rows.
pub open spec fn body_fold(lines: Seq<Seq<char>>) -> (BodyState, Seq<BodyRowView>)
    decreases lines.len(),
{
    if lines.len() == 0 {
        (BodyState { body_name: Seq::empty(), is_pcb: false, in_section: false }, Seq::empty())
    } else {
        let (st, rows) = body_fold(lines.drop_last());
        let (st2, o) = body_step(st, lines.last());
        (
            st2,
            match o {
                Some(r) => rows.push(r),
                None => rows,
            },
        )
    }
}

/// The rows of all point-cloud body sections of a `.pcprep` text.
pub open spec fn body_rows(content: Seq<char>) -> Seq<BodyRowView> {
    body_fold(raw_lines(content)).1
}

/// The body name of a `*PCB_POINT_CLOUD` header.
fn pcb_body_name_exec(t: &Vec<char>, up: &Vec<char>) -> (r: Vec<char>)
    requires
        up@ == upper(t@),
    ensures
        r@ == pcb_body_name(t@),
{
    let key = chars_of("LAYER_NAME=\"");
    match find_chars(up, &key) {
        Some(pos) => {
            proof {
                lemma_find_bounds(up@, key@, 0);
                reveal_strlit("LAYER_NAME=\"");
                assert(key@.len() == 12);
                assert(up@.len() == t@.len());
            }
            let tl = t.len();
            let rest = sub_chars(t, pos + 12, tl);
            let mut quote: Vec<char> = Vec::new();
            quote.push('"');
            proof {
                assert(quote@ =~= seq!['"']);
            }
            let end = match find_chars(&rest, &quote) {
                Some(e) => {
                    proof {
                        lemma_find_bounds(rest@, quote@, 0);
                    }
                    e
                },
                None => rest.len(),
            };
            let mut name = chars_of("PCB_");
            let part = sub_chars(&rest, 0, end);
            push_all(&mut name, &part);
            name
        },
        None => chars_of("PCB_substrate"),
    }
}

/// Parse all point-cloud body sections of a `.pcprep` text.
///
/// `*PCB_POINT_CLOUD` sections name their rows `PCB_<layer>` and carry a
/// metal-fraction column before the face tag; `*POINT_CLOUD` sections with a
/// `BODY=` attribute name their rows by it. A data row needs three columns;
/// its face tag defaults to `V`.
pub fn parse_pcprep_all_nodes(content: &str) -> (r: Vec<BodyRow>)
    ensures
        body_views(r@) == body_rows(content@),
{
    let text = chars_of(content);
    let lines = lines_of(&text);
    let ghost ls = views(lines@);
    let pcb_tag = chars_of("*PCB_POINT_CLOUD");
    let pc_tag = chars_of("*POINT_CLOUD");
    let body_key = chars_of("BODY=");
    let mut rows: Vec<BodyRow> = Vec::new();
    let mut body_name: Vec<char> = Vec::new();
    let mut is_pcb = false;
    let mut in_section = false;
    let n = lines.len();
    proof {
        assert(ls.take(0) =~= Seq::<Seq<char>>::empty());
        assert(body_views(rows@) =~= Seq::<BodyRowView>::empty());
        assert(body_name@ =~= Seq::<char>::empty());
    }
    for i in 0..n
        invariant
            n == lines@.len(),
            ls == views(lines@),
            pcb_tag@ == "*PCB_POINT_CLOUD"@,
            pc_tag@ == "*POINT_CLOUD"@,
            body_key@ == "BODY="@,
            body_fold(ls.take(i as int)) == (
                BodyState { body_name: body_name@, is_pcb, in_section },
                body_views(rows@),
            ),
    {
        proof {
            assert(ls.take(i + 1).drop_last() =~= ls.take(i as int));
            assert(ls.take(i + 1).last() == lines@[i as int]@);
        }
        let t = trim_chars(&lines[i]);
        if is_comment_exec(&t) {
        } else if is_header_exec(&t) {
            let up = upper_chars(&t);
            if starts_with(&up, &pcb_tag) {
                body_name = pcb_body_name_exec(&t, &up);
                is_pcb = true;
                in_section = true;
            } else if starts_with(&up, &pc_tag) && find_chars(&up, &body_key).is_some() {
                let h = string_of(&t);
                let b = extract_body_attr(h.as_str());
                body_name = chars_of(b.as_str());
                is_pcb = false;
                in_section = true;
            } else {
                in_section = false;
            }
        } else if in_section && body_name.len() > 0 {
            let p = split_chars(&t, ',');
            if p.len() >= 3 {
                let x = trim_chars(&p[0]);
                let y = trim_chars(&p[1]);
                let z = trim_chars(&p[2]);
                let tag = if is_pcb {
                    column_or_v_exec(&p, 4)
                } else {
                    column_or_v_exec(&p, 3)
                };
                let row = BodyRow {
                    x: string_of(&x),
                    y: string_of(&y),
                    z: string_of(&z),
                    body_name: string_of(&body_name),
                    face_tag: string_of(&tag),
                };
                let ghost old_rows = body_views(rows@);
                let ghost rv = row@;
                rows.push(row);
                proof {
                    assert(body_views(rows@) =~= old_rows.push(rv));
                }
            }
        }
    }
    proof {
        assert(ls.take(n as int) =~= ls);
    }
    rows
}

// ─── Laws ────────────────────────────────────────────────────────────────────

/// Comment and blank lines change nothing: inserting one anywhere into the
/// lines of a `.pcprep` text leaves the PCB rows as they were.
pub proof fn lemma_trace_comments_ignored(lines: Seq<Seq<char>>, k: int, c: Seq<char>)
    requires
        0 <= k <= lines.len(),
        is_comment(trim(c)),
    ensures
        trace_fold(lines.insert(k, c)) == trace_fold(lines),
    decreases lines.len(),
{
    let l2 = lines.insert(k, c);
    if k == lines.len() {
        assert(l2.drop_last() =~= lines);
    } else {
        assert(l2.drop_last() =~= lines.drop_last().insert(k, c));
        assert(l2.last() == lines.last());
        lemma_trace_comments_ignored(lines.drop_last(), k, c);
    }
}

/// Comment and blank lines change nothing: inserting one anywhere into the
/// lines of a `.pcprep` text leaves the body rows as they were.
pub proof fn lemma_body_comments_ignored(lines: Seq<Seq<char>>, k: int, c: Seq<char>)
    requires
        0 <= k <= lines.len(),
        is_comment(trim(c)),
    ensures
        body_fold(lines.insert(k, c)) == body_fold(lines),
    decreases lines.len(),
{
    let l2 = lines.insert(k, c);
    if k == lines.len() {
        assert(l2.drop_last() =~= lines);
    } else {
        assert(l2.drop_last() =~= lines.drop_last().insert(k, c));
        assert(l2.last() == lines.last());
        lemma_body_comments_ignored(lines.drop_last(), k, c);
    }
}

/// An upper-cased character is a quote exactly when the character is.
proof fn lemma_upper_quote(c: char)
    ensures
        (upper_char(c) == '"') == (c == '"'),
{
}

/// The body attribute of a header is recovered: for a header holding
/// `BODY="name"` after a text without quotes, the attribute is `name`
/// whenever `name` holds no quote itself.
pub proof fn lemma_body_attr_recovers_name(pre: Seq<char>, name: Seq<char>, post: Seq<char>)
    requires
        forall|i: int| 0 <= i < pre.len() ==> pre[i] != '"',
        forall|i: int| 0 <= i < name.len() ==> name[i] != '"',
    ensures
        body_attr(pre + "BODY=\""@ + name + seq!['"'] + post) == name,
{
    reveal_strlit("BODY=\"");
    let key = "BODY=\""@;
    let h = pre + key + name + seq!['"'] + post;
    let uh = upper(h);
    let m = pre.len() as int;
    assert(key.len() == 6);
    assert(uh.subrange(m, m + 6) =~= key) by {
        assert forall|j: int| 0 <= j < 6 implies uh.subrange(m, m + 6)[j] == key[j] by {
            assert(h[m + j] == key[j]);
        }
    }
    assert forall|i: int| 0 <= i < m implies !occurs_at(uh, key, i) by {
        if occurs_at(uh, key, i) {
            assert(uh.subrange(i, i + 6)[5] == key[5]);
            assert(uh[i + 5] == '"');
            lemma_upper_quote(h[i + 5]);
            if i + 5 < m {
                assert(h[i + 5] == pre[i + 5]);
            } else {
                assert(h[i + 5] == key[i + 5 - m]);
            }
        }
    }
    lemma_find_first(uh, key, 0, m);
    let rest = h.subrange(m + 6, h.len() as int);
    let q = seq!['"'];
    let e = name.len() as int;
    assert(rest.subrange(e, e + 1) =~= q) by {
        assert(rest[e] == h[m + 6 + e]);
    }
    assert forall|i: int| 0 <= i < e implies !occurs_at(rest, q, i) by {
        if occurs_at(rest, q, i) {
            assert(rest.subrange(i, i + 1)[0] == q[0]);
            assert(rest[i] == h[m + 6 + i]);
            assert(h[m + 6 + i] == name[i]);
        }
    }
    lemma_find_first(rest, q, 0, e);
    assert(rest.subrange(0, e) =~= name) by {
        assert forall|j: int| 0 <= j < e implies rest.subrange(0, e)[j] == name[j] by {
            assert(rest[j] == h[m + 6 + j]);
        }
    }
}

/// Rows come only from PCB sections: a text with no `*PCB_POINT_CLOUD`
/// header line gives no PCB rows.
pub proof fn lemma_trace_needs_pcb_header(lines: Seq<Seq<char>>)
    requires
        forall|i: int|
            0 <= i < lines.len() && is_header(trim(#[trigger] lines[i])) ==> !has_prefix(
                upper(trim(lines[i])),
                "*PCB_POINT_CLOUD"@,
            ),
    ensures
        trace_fold(lines) == (false, Seq::<TraceRowView>::empty()),
    decreases lines.len(),
{
    if lines.len() > 0 {
        let init = lines.drop_last();
        assert forall|i: int|
            0 <= i < init.len() && is_header(trim(#[trigger] init[i])) implies !has_prefix(
            upper(trim(init[i])),
            "*PCB_POINT_CLOUD"@,
        ) by {
            assert(init[i] == lines[i]);
        }
        lemma_trace_needs_pcb_header(init);
        assert(lines[lines.len() - 1] == lines.last());
    }
}

// ─── Where the rows come from ────────────────────────────────────────────────

/// The columns of a data line: its trimmed text split at the commas.
pub open spec fn line_columns(line: Seq<char>) -> Seq<Seq<char>> {
    split_on(trim(line), ',')
}

/// A data line (neither comment nor header) with at least `n` columns.
pub open spec fn is_data_line(line: Seq<char>, n: nat) -> bool {
    !is_comment(trim(line)) && !is_header(trim(line)) && line_columns(line).len() >= n
}

/// Body row `r` holds the columns of data line `line`: x, y and z are its
/// first, second and third columns, trimmed, and the face tag is its fourth
/// or fifth column (the fifth in PCB sections, after the metal fraction),
/// trimmed, or `V` when the line has no such column.
pub open spec fn body_row_from(r: BodyRowView, line: Seq<char>) -> bool {
    let p = line_columns(line);
    &&& is_data_line(line, 3)
    &&& r.x == trim(p[0])
    &&& r.y == trim(p[1])
    &&& r.z == trim(p[2])
    &&& (r.face_tag == column_or_v(p, 3) || r.face_tag == column_or_v(p, 4))
    &&& r.body_name.len() > 0
}

/// Trace row `r` holds the columns of data line `line`: x, y, z and the metal
/// fraction are its first four columns, trimmed, and the face tag its fifth,
/// trimmed, or `V` when the line has only four.
pub open spec fn trace_row_from(r: TraceRowView, line: Seq<char>) -> bool {
    let p = line_columns(line);
    &&& is_data_line(line, 4)
    &&& r.x == trim(p[0])
    &&& r.y == trim(p[1])
    &&& r.z == trim(p[2])
    &&& r.metal_fraction == trim(p[3])
    &&& r.face_tag == column_or_v(p, 4)
}

/// The lines the body rows come from, one per row, in order.
proof fn body_row_lines(lines: Seq<Seq<char>>) -> (idx: Seq<int>)
    ensures
        idx.len() == body_fold(lines).1.len(),
        forall|k: int|
            0 <= k < idx.len() ==> 0 <= #[trigger] idx[k] < lines.len() && body_row_from(
                body_fold(lines).1[k],
                lines[idx[k]],
            ),
        forall|k1: int, k2: int| 0 <= k1 < k2 < idx.len() ==> #[trigger] idx[k1] < #[trigger] idx[k2],
    decreases lines.len(),
{
    if lines.len() == 0 {
        Seq::empty()
    } else {
        let init = lines.drop_last();
        let prev = body_row_lines(init);
        let (st, rows) = body_fold(init);
        let (st2, o) = body_step(st, lines.last());
        let last = lines.len() - 1;
        assert(lines[last] == lines.last());
        assert forall|k: int| 0 <= k < prev.len() implies lines[#[trigger] prev[k]] == init[prev[k]] by {}
        match o {
            Some(r) => {
                let idx = prev.push(last);
                assert(body_fold(lines).1 == rows.push(r));
                assert(body_row_from(r, lines.last()));
                assert forall|k: int| 0 <= k < idx.len() implies 0 <= #[trigger] idx[k] < lines.len()
                    && body_row_from(body_fold(lines).1[k], lines[idx[k]]) by {
                    if k < prev.len() {
                        assert(idx[k] == prev[k]);
                        assert(body_fold(lines).1[k] == rows[k]);
                    }
                }
                idx
            },
            None => {
                assert(body_fold(lines).1 == rows);
                prev
            },
        }
    }
}

/// The lines the trace rows come from, one per row, in order.
proof fn trace_row_lines(lines: Seq<Seq<char>>) -> (idx: Seq<int>)
    ensures
        idx.len() == trace_fold(lines).1.len(),
        forall|k: int|
            0 <= k < idx.len() ==> 0 <= #[trigger] idx[k] < lines.len() && trace_row_from(
                trace_fold(lines).1[k],
                lines[idx[k]],
            ),
        forall|k1: int, k2: int| 0 <= k1 < k2 < idx.len() ==> #[trigger] idx[k1] < #[trigger] idx[k2],
    decreases lines.len(),
{
    if lines.len() == 0 {
        Seq::empty()
    } else {
        let init = lines.drop_last();
        let prev = trace_row_lines(init);
        let (st, rows) = trace_fold(init);
        let (st2, o) = trace_step(st, lines.last());
        let last = lines.len() - 1;
        assert(lines[last] == lines.last());
        assert forall|k: int| 0 <= k < prev.len() implies lines[#[trigger] prev[k]] == init[prev[k]] by {}
        match o {
            Some(r) => {
                let idx = prev.push(last);
                assert(trace_fold(lines).1 == rows.push(r));
                assert(trace_row_from(r, lines.last()));
                assert forall|k: int| 0 <= k < idx.len() implies 0 <= #[trigger] idx[k] < lines.len()
                    && trace_row_from(trace_fold(lines).1[k], lines[idx[k]]) by {
                    if k < prev.len() {
                        assert(idx[k] == prev[k]);
                        assert(trace_fold(lines).1[k] == rows[k]);
                    }
                }
                idx
            },
            None => {
                assert(trace_fold(lines).1 == rows);
                prev
            },
        }
    }
}

/// `idx` gives, for each body row, the line it comes from, in increasing
/// order, and each row holds that line's columns ([`body_row_from`]).
pub open spec fn body_rows_located(rows: Seq<BodyRowView>, lines: Seq<Seq<char>>, idx: Seq<int>) -> bool {
    &&& idx.len() == rows.len()
    &&& forall|k: int|
        0 <= k < idx.len() ==> 0 <= #[trigger] idx[k] < lines.len() && body_row_from(rows[k], lines[idx[k]])
    &&& forall|k1: int, k2: int| 0 <= k1 < k2 < idx.len() ==> #[trigger] idx[k1] < #[trigger] idx[k2]
}

/// `idx` gives, for each PCB row, the line it comes from, in increasing
/// order, and each row holds that line's columns ([`trace_row_from`]).
pub open spec fn trace_rows_located(rows: Seq<TraceRowView>, lines: Seq<Seq<char>>, idx: Seq<int>) -> bool {
    &&& idx.len() == rows.len()
    &&& forall|k: int|
        0 <= k < idx.len() ==> 0 <= #[trigger] idx[k] < lines.len() && trace_row_from(rows[k], lines[idx[k]])
    &&& forall|k1: int, k2: int| 0 <= k1 < k2 < idx.len() ==> #[trigger] idx[k1] < #[trigger] idx[k2]
}

/// Every body row of a `.pcprep` text holds the columns of its own data line,
/// the rows following the lines' order: x, y and z are that line's first,
/// second and third comma-separated columns, trimmed.
pub proof fn lemma_body_rows_hold_line_columns(content: Seq<char>)
    ensures
        exists|idx: Seq<int>| #[trigger] body_rows_located(body_rows(content), raw_lines(content), idx),
{
    let idx = body_row_lines(raw_lines(content));
    assert(body_rows_located(body_rows(content), raw_lines(content), idx));
}

/// Every PCB row of a `.pcprep` text holds the columns of its own data line,
/// the rows following the lines' order: x, y, z and the metal fraction are
/// that line's first four comma-separated columns, trimmed.
pub proof fn lemma_trace_rows_hold_line_columns(content: Seq<char>)
    ensures
        exists|idx: Seq<int>| #[trigger] trace_rows_located(trace_rows(content), raw_lines(content), idx),
{
    let idx = trace_row_lines(raw_lines(content));
    assert(trace_rows_located(trace_rows(content), raw_lines(content), idx));
}

} // verus!
