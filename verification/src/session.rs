use vstd::prelude::*;

use crate::paths::{extension, file_stem, join, parent, path_extension_spec, path_file_stem_spec, path_join_spec, path_parent_spec};
use crate::text::{
    chars_eq, chars_of, ends_with, has_suffix, hex_char, hex_digits, hex_u64, push_all, replace_all,
    replace_chars, string_of, string_views, sub_chars, trim, trim_chars, is_ws, lemma_trim_padded,
};

verus! {

// ─── Session folders ─────────────────────────────────────────────────────────
//
// Session layout (<app data>/ElectroniX/<session id>/):
//   models/          <board>.glb
//   point_cloud/     <board>.pcprep and the point-cloud log
//   simulation/      <SimName>/ with the load deck, solver outputs and log

/// Paths for one session.
pub struct SessionDirs {
    pub session_id: String,
    pub root: String,
    pub models_dir: String,
    pub pc_dir: String,
    pub sim_base_dir: String,
}

impl SessionDirs {
    /// The folders of session `session_id` whose root folder is `root`.
    pub fn from_root(session_id: &str, root: &str) -> (r: SessionDirs)
        ensures
            r.session_id@ == session_id@,
            r.root@ == root@,
            r.models_dir@ == path_join_spec(root@, "models"@),
            r.pc_dir@ == path_join_spec(root@, "point_cloud"@),
            r.sim_base_dir@ == path_join_spec(root@, "simulation"@),
    {
        let rv = chars_of(root);
        let models = join(&rv, &chars_of("models"));
        let pc = join(&rv, &chars_of("point_cloud"));
        let sim = join(&rv, &chars_of("simulation"));
        SessionDirs {
            session_id: String::from_str(session_id),
            root: String::from_str(root),
            models_dir: string_of(&models),
            pc_dir: string_of(&pc),
            sim_base_dir: string_of(&sim),
        }
    }
}

/// Root folder of all sessions: `$APPDATA/ElectroniX` where `APPDATA` is set;
/// otherwise under the home folder (`.` without one), in
/// `Library/Application Support` on macOS and `.local/share` elsewhere.
pub open spec fn appdata_root_spec(appdata: Option<Seq<char>>, home: Option<Seq<char>>, macos: bool) -> Seq<char> {
    let base = match appdata {
        Some(a) => a,
        None => {
            let h = match home {
                Some(h) => h,
                None => "."@,
            };
            if macos {
                path_join_spec(path_join_spec(h, "Library"@), "Application Support"@)
            } else {
                path_join_spec(path_join_spec(h, ".local"@), "share"@)
            }
        },
    };
    path_join_spec(base, "ElectroniX"@)
}

/// Root directory for all ElectroniX session data, from the `APPDATA` and
/// `HOME` environment values (`None` where unset) and whether the target is macOS.
pub fn appdata_root(appdata: Option<&str>, home: Option<&str>, macos: bool) -> (r: String)
    ensures
        r@ == appdata_root_spec(
            match appdata {
                Some(a) => Some(a@),
                None => None,
            },
            match home {
                Some(h) => Some(h@),
                None => None,
            },
            macos,
        ),
{
    let base = match appdata {
        Some(a) => chars_of(a),
        None => {
            let h = match home {
                Some(h) => chars_of(h),
                None => chars_of("."),
            };
            if macos {
                join(&join(&h, &chars_of("Library")), &chars_of("Application Support"))
            } else {
                join(&join(&h, &chars_of(".local")), &chars_of("share"))
            }
        },
    };
    let r = join(&base, &chars_of("ElectroniX"));
    string_of(&r)
}

/// The root folder of session `session_id` under the app-data root.
pub fn session_root(appdata_root: &str, session_id: &str) -> (r: String)
    ensures
        r@ == path_join_spec(appdata_root@, session_id@),
{
    string_of(&join(&chars_of(appdata_root), &chars_of(session_id)))
}

/// The session id recorded in the last-session file: its contents, trimmed.
pub fn last_session_id(contents: &str) -> (r: String)
    ensures
        r@ == trim(contents@),
{
    string_of(&trim_chars(&chars_of(contents)))
}

/// The message for a session id without a folder, when resolving its folders.
pub fn missing_session_message(session_id: &str) -> (r: String)
    ensures
        r@ == "Session '"@ + session_id@ + "' not found"@,
{
    let mut m = chars_of("Session '");
    push_all(&mut m, &chars_of(session_id));
    push_all(&mut m, &chars_of("' not found"));
    string_of(&m)
}

/// The message for a session id without a folder, when scanning its files.
pub fn missing_status_message(session_id: &str) -> (r: String)
    ensures
        r@ == "Session "@ + session_id@ + " not found"@,
{
    let mut m = chars_of("Session ");
    push_all(&mut m, &chars_of(session_id));
    push_all(&mut m, &chars_of(" not found"));
    string_of(&m)
}

// ─── Session ids ─────────────────────────────────────────────────────────────

/// The low half of a session id: a splitmix64 mix of the timestamp's low
/// 64 bits and the counter.
pub open spec fn id_low(ts: u128, cnt: u64) -> u64 {
    let h0 = (ts as u64) ^ 0x9e3779b97f4a7c15u64;
    let h1 = h0.wrapping_add(cnt).wrapping_mul(0x6c62272e07bb0142u64);
    let h2 = h1 ^ (h1 >> 30u64);
    let h3 = h2.wrapping_mul(0xbf58476d1ce4e5b9u64);
    let h4 = h3 ^ (h3 >> 27u64);
    let h5 = h4.wrapping_mul(0x94d049bb133111ebu64);
    h5 ^ (h5 >> 31u64)
}

/// The high half of a session id: the timestamp's high 64 bits mixed with the counter.
pub open spec fn id_high(ts: u128, cnt: u64) -> u64 {
    ((ts >> 64u128) as u64) ^ cnt.wrapping_mul(0x517cc1b727220a95u64)
}

/// The variant digit of a session id: `8`, `9`, `a` or `b`, from the low
/// half's last two bits.
pub open spec fn variant_char(lo: u64) -> char {
    hex_char((8 + lo % 4) as nat)
}

/// The 32 hex digits of a session id: the high half's 16 digits with the
/// version digit `4` put in at position 12 and the variant digit at position
/// 16, followed by the low half's last 14 digits.
pub open spec fn id_digits(ts: u128, cnt: u64) -> Seq<char> {
    let h = hex_digits(id_high(ts, cnt) as nat, 16);
    let l = hex_digits(id_low(ts, cnt) as nat, 16);
    h.subrange(0, 12) + seq!['4'] + h.subrange(12, 15) + seq![variant_char(id_low(ts, cnt))]
        + h.subrange(15, 16) + l.subrange(2, 16)
}

/// 32 hex digits in the UUID grouping 8-4-4-4-12.
pub open spec fn uuid_groups(d: Seq<char>) -> Seq<char> {
    d.subrange(0, 8) + seq!['-'] + d.subrange(8, 12) + seq!['-'] + d.subrange(12, 16) + seq!['-']
        + d.subrange(16, 20) + seq!['-'] + d.subrange(20, 32)
}

/// The session id for a timestamp (nanoseconds since the Unix epoch) and a
/// counter value: a version-4 UUID text made of [`id_digits`].
pub open spec fn session_id_spec(ts: u128, cnt: u64) -> Seq<char> {
    uuid_groups(id_digits(ts, cnt))
}

/// A lower-case hexadecimal digit.
pub open spec fn is_hex_digit(c: char) -> bool {
    ('0' <= c <= '9') || ('a' <= c <= 'f')
}

/// Where the hyphens of a UUID text stand.
pub open spec fn is_uuid_hyphen_pos(i: int) -> bool {
    i == 8 || i == 13 || i == 18 || i == 23
}

/// The shape of a version-4 UUID text: 36 characters in groups 8-4-4-4-12 of
/// lower-case hex digits joined by `-`, version digit `4`, variant digit
/// `8`, `9`, `a` or `b`.
pub open spec fn is_session_id(s: Seq<char>) -> bool {
    &&& s.len() == 36
    &&& forall|i: int| 0 <= i < 36 && is_uuid_hyphen_pos(i) ==> #[trigger] s[i] == '-'
    &&& forall|i: int| 0 <= i < 36 && !is_uuid_hyphen_pos(i) ==> is_hex_digit(#[trigger] s[i])
    &&& s[14] == '4'
    &&& (s[19] == '8' || s[19] == '9' || s[19] == 'a' || s[19] == 'b')
}

proof fn lemma_hex_digits_shape(x: nat, k: nat)
    ensures
        hex_digits(x, k).len() == k,
        forall|i: int| 0 <= i < k ==> is_hex_digit(#[trigger] hex_digits(x, k)[i]),
    decreases k,
{
    if k > 0 {
        lemma_hex_digits_shape(x / 16, (k - 1) as nat);
        let d = x % 16;
        assert(is_hex_digit(hex_char(d))) by {
            if d < 10 {
                assert((d + 48) as char == (d + 48) as char);
            }
        }
    }
}

/// The position in a UUID text of its `d`-th hex digit.
pub open spec fn text_pos(d: int) -> int {
    if d < 8 {
        d
    } else if d < 12 {
        d + 1
    } else if d < 16 {
        d + 2
    } else if d < 20 {
        d + 3
    } else {
        d + 4
    }
}

/// The position among the id digits of the high half's `j`-th digit.
pub open spec fn high_pos(j: int) -> int {
    if j < 12 {
        j
    } else if j < 15 {
        j + 1
    } else {
        17
    }
}

proof fn lemma_groups_index(d: Seq<char>, k: int)
    requires
        d.len() == 32,
        0 <= k < 32,
    ensures
        uuid_groups(d).len() == 36,
        uuid_groups(d)[text_pos(k)] == d[k],
{
}

proof fn lemma_id_digits_index(ts: u128, cnt: u64, j: int)
    requires
        0 <= j < 16,
    ensures
        id_digits(ts, cnt).len() == 32,
        id_digits(ts, cnt)[high_pos(j)] == hex_digits(id_high(ts, cnt) as nat, 16)[j],
{
    lemma_hex_digits_shape(id_high(ts, cnt) as nat, 16);
    lemma_hex_digits_shape(id_low(ts, cnt) as nat, 16);
}

/// Every session id has the shape of [`is_session_id`].
pub proof fn lemma_session_id_shape(ts: u128, cnt: u64)
    ensures
        is_session_id(session_id_spec(ts, cnt)),
{
    let h = hex_digits(id_high(ts, cnt) as nat, 16);
    let l = hex_digits(id_low(ts, cnt) as nat, 16);
    lemma_hex_digits_shape(id_high(ts, cnt) as nat, 16);
    lemma_hex_digits_shape(id_low(ts, cnt) as nat, 16);
    let d = id_digits(ts, cnt);
    let v = (8 + id_low(ts, cnt) % 4) as nat;
    assert(is_hex_digit(variant_char(id_low(ts, cnt)))) by {
        assert(8 <= v < 12);
    }
    assert forall|k: int| 0 <= k < 32 implies is_hex_digit(#[trigger] d[k]) by {
        if k < 12 {
            assert(d[k] == h[k]);
        } else if k == 12 {
        } else if k < 16 {
            assert(d[k] == h[k - 1]);
        } else if k == 16 {
        } else if k == 17 {
            assert(d[k] == h[15]);
        } else {
            assert(d[k] == l[k - 16]);
        }
    }
    let s = session_id_spec(ts, cnt);
    assert forall|i: int| 0 <= i < 36 && !is_uuid_hyphen_pos(i) implies is_hex_digit(#[trigger] s[i]) by {
        let k = if i < 8 {
            i
        } else if i < 13 {
            i - 1
        } else if i < 18 {
            i - 2
        } else if i < 23 {
            i - 3
        } else {
            i - 4
        };
        lemma_groups_index(d, k);
        assert(text_pos(k) == i);
    }
    lemma_groups_index(d, 12);
    lemma_groups_index(d, 16);
    assert(s[14] == '4');
    assert(s[19] == variant_char(id_low(ts, cnt)));
    assert(v == 8 || v == 9 || v == 10 || v == 11);
}

/// Powers of sixteen.
pub open spec fn pow16(k: nat) -> nat
    decreases k,
{
    if k == 0 {
        1
    } else {
        16 * pow16((k - 1) as nat)
    }
}

proof fn lemma_pow16_positive(k: nat)
    ensures
        pow16(k) > 0,
    decreases k,
{
    if k > 0 {
        lemma_pow16_positive((k - 1) as nat);
    }
}

/// Equal digit texts come from equal numbers (below `16^k`).
proof fn lemma_hex_digits_injective(x: nat, y: nat, k: nat)
    requires
        hex_digits(x, k) == hex_digits(y, k),
    ensures
        x % pow16(k) == y % pow16(k),
    decreases k,
{
    if k > 0 {
        let k1 = (k - 1) as nat;
        let hx = hex_digits(x, k);
        let hy = hex_digits(y, k);
        assert(hx.drop_last() =~= hex_digits(x / 16, k1));
        assert(hy.drop_last() =~= hex_digits(y / 16, k1));
        lemma_hex_digits_injective(x / 16, y / 16, k1);
        let dx = x % 16;
        let dy = y % 16;
        assert(hx == hex_digits(x / 16, k1).push(hex_char(dx)));
        assert(hy == hex_digits(y / 16, k1).push(hex_char(dy)));
        assert(hx.last() == hy.last());
        assert(hex_char(dx) == hex_char(dy));
        assert(dx == dy) by {
            if dx != dy {
                assert(hex_char(dx) as u32 != hex_char(dy) as u32);
            }
        }
        assert(pow16(k) == 16 * pow16(k1));
        lemma_pow16_positive(k1);
        vstd::arithmetic::div_mod::lemma_mod_breakdown(x as int, 16, pow16(k1) as int);
        vstd::arithmetic::div_mod::lemma_mod_breakdown(y as int, 16, pow16(k1) as int);
    }
}

/// Ids of the same process differ: while the clock reads below 2^64 ns after
/// the epoch (until the year 2554), two different counter values give two
/// different session ids, whatever the two timestamps.
#[verifier::spinoff_prover]
#[verifier::rlimit(40)]
pub proof fn lemma_session_ids_distinct(ts1: u128, cnt1: u64, ts2: u128, cnt2: u64)
    requires
        ts1 < 0x1_0000_0000_0000_0000u128,
        ts2 < 0x1_0000_0000_0000_0000u128,
        cnt1 != cnt2,
    ensures
        session_id_spec(ts1, cnt1) != session_id_spec(ts2, cnt2),
{
    if session_id_spec(ts1, cnt1) == session_id_spec(ts2, cnt2) {
        let h1 = hex_digits(id_high(ts1, cnt1) as nat, 16);
        let h2 = hex_digits(id_high(ts2, cnt2) as nat, 16);
        assert forall|j: int| 0 <= j < 16 implies h1[j] == h2[j] by {
            lemma_id_digits_index(ts1, cnt1, j);
            lemma_id_digits_index(ts2, cnt2, j);
            lemma_groups_index(id_digits(ts1, cnt1), high_pos(j));
            lemma_groups_index(id_digits(ts2, cnt2), high_pos(j));
        }
        lemma_hex_digits_shape(id_high(ts1, cnt1) as nat, 16);
        lemma_hex_digits_shape(id_high(ts2, cnt2) as nat, 16);
        assert(h1 =~= h2);
        lemma_hex_digits_injective(id_high(ts1, cnt1) as nat, id_high(ts2, cnt2) as nat, 16);
        assert(pow16(16) == 0x1_0000_0000_0000_0000) by {
            reveal_with_fuel(pow16, 17);
        }
        let a = id_high(ts1, cnt1);
        let b = id_high(ts2, cnt2);
        assert(a == b);
        assert(ts1 < 0x1_0000_0000_0000_0000u128 ==> (ts1 >> 64u128) as u64 == 0u64) by (bit_vector);
        assert(ts2 < 0x1_0000_0000_0000_0000u128 ==> (ts2 >> 64u128) as u64 == 0u64) by (bit_vector);
        let m1 = cnt1.wrapping_mul(0x517cc1b727220a95u64);
        let m2 = cnt2.wrapping_mul(0x517cc1b727220a95u64);
        assert(0u64 ^ m1 == m1) by (bit_vector);
        assert(0u64 ^ m2 == m2) by (bit_vector);
        assert(m1 == m2);
        assert(cnt1.wrapping_mul(0x517cc1b727220a95u64).wrapping_mul(0x2040003d780970bdu64) == cnt1)
            by (bit_vector);
        assert(cnt2.wrapping_mul(0x517cc1b727220a95u64).wrapping_mul(0x2040003d780970bdu64) == cnt2)
            by (bit_vector);
    }
}

/// A session id written to the last-session file, with any whitespace around
/// it (a line ending, say), is read back unchanged by [`last_session_id`].
pub proof fn lemma_last_session_round_trip(ts: u128, cnt: u64, pre: Seq<char>, post: Seq<char>)
    requires
        forall|i: int| 0 <= i < pre.len() ==> is_ws(#[trigger] pre[i]),
        forall|i: int| 0 <= i < post.len() ==> is_ws(#[trigger] post[i]),
    ensures
        trim(pre + session_id_spec(ts, cnt) + post) == session_id_spec(ts, cnt),
{
    let s = session_id_spec(ts, cnt);
    lemma_session_id_shape(ts, cnt);
    assert(!is_uuid_hyphen_pos(0) && !is_uuid_hyphen_pos(35));
    assert(is_hex_digit(s[0]) && is_hex_digit(s[35]));
    lemma_trim_padded(pre, s, post);
}

/// The session id for a timestamp and a counter value.
pub fn session_id_from(ts: u128, cnt: u64) -> (r: String)
    ensures
        r@ == session_id_spec(ts, cnt),
        is_session_id(r@),
{
    let mut h: u64 = (ts as u64) ^ 0x9e3779b97f4a7c15u64;
    h = h.wrapping_add(cnt).wrapping_mul(0x6c62272e07bb0142u64);
    h ^= h >> 30u64;
    h = h.wrapping_mul(0xbf58476d1ce4e5b9u64);
    h ^= h >> 27u64;
    h = h.wrapping_mul(0x94d049bb133111ebu64);
    let lo = h ^ (h >> 31u64);
    let hi = ((ts >> 64u128) as u64) ^ cnt.wrapping_mul(0x517cc1b727220a95u64);
    assert(lo == id_low(ts, cnt));
    assert(hi == id_high(ts, cnt));
    let hd = hex_u64(hi, 16);
    let ld = hex_u64(lo, 16);
    let v = (8 + lo % 4) as u8;
    let vc = if v < 10 {
        (v + 48) as char
    } else {
        (v + 87) as char
    };
    assert(vc == variant_char(lo));
    proof {
        lemma_hex_digits_shape(hi as nat, 16);
        lemma_hex_digits_shape(lo as nat, 16);
    }
    let mut d = sub_chars(&hd, 0, 12);
    d.push('4');
    push_all(&mut d, &sub_chars(&hd, 12, 15));
    d.push(vc);
    push_all(&mut d, &sub_chars(&hd, 15, 16));
    push_all(&mut d, &sub_chars(&ld, 2, 16));
    assert(d@ =~= id_digits(ts, cnt));
    let mut s = sub_chars(&d, 0, 8);
    s.push('-');
    push_all(&mut s, &sub_chars(&d, 8, 12));
    s.push('-');
    push_all(&mut s, &sub_chars(&d, 12, 16));
    s.push('-');
    push_all(&mut s, &sub_chars(&d, 16, 20));
    s.push('-');
    push_all(&mut s, &sub_chars(&d, 20, 32));
    assert(s@ =~= uuid_groups(d@));
    proof {
        lemma_session_id_shape(ts, cnt);
    }
    string_of(&s)
}

#[verifier::external_type_specification]
#[verifier::external_body]
pub struct ExSystemTime(std::time::SystemTime);

/// Calls std's `SystemTime::now`. Nothing is claimed of the result: it is the clock.
#[verifier::external_body]
fn time_now() -> std::time::SystemTime {
    std::time::SystemTime::now()
}

/// Calls std's `SystemTime::duration_since` with the Unix epoch and gives the
/// whole nanoseconds (`None` for a time before the epoch). Nothing is claimed
/// of the value.
#[verifier::external_body]
fn nanos_since_epoch(t: &std::time::SystemTime) -> Option<u128> {
    match t.duration_since(std::time::UNIX_EPOCH) {
        Ok(d) => Some(d.as_nanos()),
        Err(_) => None,
    }
}

/// A new session id (a version-4 UUID text) from the current time and a
/// per-process counter value `cnt`, which the caller advances on every call:
/// ids of different counter values differ (see [`lemma_session_ids_distinct`]).
///
/// Deterministic-but-unique enough for local session ids; not crypto-grade.
pub fn uuid_v4(cnt: u64) -> (r: String)
    ensures
        exists|ts: u128| r@ == session_id_spec(ts, cnt),
        is_session_id(r@),
{
    let now = time_now();
    session_id_at(nanos_since_epoch(&now), cnt)
}

/// The session id for a clock reading and a counter value: the reading is
/// the time in nanoseconds since the Unix epoch, taken whole, or nothing for
/// a clock set before the epoch, which counts as the epoch itself.
pub fn session_id_at(reading: Option<u128>, cnt: u64) -> (r: String)
    ensures
        reading matches Some(n) ==> r@ == session_id_spec(n, cnt),
        reading is None ==> r@ == session_id_spec(0, cnt),
        is_session_id(r@),
{
    let ts: u128 = match reading {
        Some(n) => n,
        None => 0,
    };
    session_id_from(ts, cnt)
}

// ─── What a session folder holds ─────────────────────────────────────────────

/// The files found in a session folder.
pub struct SessionStatus {
    pub model_glb: Option<String>,
    pub pcprep: Option<String>,
    pub thermal_csv: Option<String>,
    pub fatigue_json: Option<String>,
    pub creep_pcres: Option<String>,
}

/// The mathematical form of a [`SessionStatus`].
pub struct SessionStatusView {
    pub model_glb: Option<Seq<char>>,
    pub pcprep: Option<Seq<char>>,
    pub thermal_csv: Option<Seq<char>>,
    pub fatigue_json: Option<Seq<char>>,
    pub creep_pcres: Option<Seq<char>>,
}

/// The view of an optional string.
pub open spec fn opt_view(o: Option<String>) -> Option<Seq<char>> {
    match o {
        Some(s) => Some(s@),
        None => None,
    }
}

impl View for SessionStatus {
    type V = SessionStatusView;

    open spec fn view(&self) -> SessionStatusView {
        SessionStatusView {
            model_glb: opt_view(self.model_glb),
            pcprep: opt_view(self.pcprep),
            thermal_csv: opt_view(self.thermal_csv),
            fatigue_json: opt_view(self.fatigue_json),
            creep_pcres: opt_view(self.creep_pcres),
        }
    }
}

/// A file found under `simulation/<SimName>/`, with its modification time in
/// nanoseconds from the Unix epoch (`None` where its metadata could not be read).
pub struct SimFile {
    pub path: String,
    pub modified: Option<i128>,
}

/// The mathematical form of a [`SimFile`].
pub struct SimFileView {
    pub path: Seq<char>,
    pub modified: Option<i128>,
}

impl View for SimFile {
    type V = SimFileView;

    open spec fn view(&self) -> SimFileView {
        SimFileView { path: self.path@, modified: self.modified }
    }
}

/// The views of a sequence of simulation files.
pub open spec fn sim_views(s: Seq<SimFile>) -> Seq<SimFileView> {
    s.map_values(|f: SimFile| f@)
}

/// The first index at or after `i` of a path with extension `ext`.
pub open spec fn first_with_ext_from(paths: Seq<Seq<char>>, ext: Seq<char>, i: int) -> Option<int>
    decreases paths.len() - i,
{
    if i < 0 || i >= paths.len() {
        None
    } else if path_extension_spec(paths[i]) == Some(ext) {
        Some(i)
    } else {
        first_with_ext_from(paths, ext, i + 1)
    }
}

/// The first path with extension `ext`.
pub open spec fn first_with_ext(paths: Seq<Seq<char>>, ext: Seq<char>) -> Option<Seq<char>> {
    match first_with_ext_from(paths, ext, 0) {
        Some(i) => Some(paths[i]),
        None => None,
    }
}

/// Where the thermal summary of a point cloud would be: beside it, named
/// `<stem>_thermal_summary.csv`.
pub open spec fn thermal_csv_path(pcprep: Seq<char>) -> Seq<char> {
    path_join_spec(
        path_parent_spec(pcprep)->0,
        path_file_stem_spec(pcprep)->0 + "_thermal_summary.csv"@,
    )
}

/// A fatigue result whose modification time is known.
pub open spec fn is_fatigue_result(f: SimFileView) -> bool {
    has_suffix(f.path, "_solder_fatigue.json"@) && f.modified is Some
}

/// The most recently modified fatigue result, with its time; among equally
/// recent ones, the first.
pub open spec fn latest_fatigue(files: Seq<SimFileView>) -> Option<(i128, Seq<char>)>
    decreases files.len(),
{
    if files.len() == 0 {
        None
    } else {
        let prev = latest_fatigue(files.drop_last());
        let f = files.last();
        if is_fatigue_result(f) && (prev is None || f.modified->0 > (prev->0).0) {
            Some((f.modified->0, f.path))
        } else {
            prev
        }
    }
}

/// The creep result that belongs to a fatigue result.
pub open spec fn creep_path(fatigue: Seq<char>) -> Seq<char> {
    replace_all(fatigue, "_solder_fatigue.json"@, "_creep.pcres"@)
}

/// What a scan of the session folder finds, before the companion files are
/// checked: the thermal summary and the creep result are the paths where
/// they would be.
pub open spec fn probe_spec(
    models: Seq<Seq<char>>,
    point_cloud: Seq<Seq<char>>,
    simulation: Seq<SimFileView>,
) -> SessionStatusView {
    let pcprep = first_with_ext(point_cloud, "pcprep"@);
    let fatigue = latest_fatigue(simulation);
    SessionStatusView {
        model_glb: first_with_ext(models, "glb"@),
        pcprep,
        thermal_csv: match pcprep {
            Some(p) => Some(thermal_csv_path(p)),
            None => None,
        },
        fatigue_json: match fatigue {
            Some((_, p)) => Some(p),
            None => None,
        },
        creep_pcres: match fatigue {
            Some((_, p)) => Some(creep_path(p)),
            None => None,
        },
    }
}

fn first_with_ext_exec(paths: &Vec<String>, ext: &Vec<char>) -> (r: Option<usize>)
    ensures
        match r {
            Some(i) => first_with_ext_from(string_views(paths@), ext@, 0) == Some(i as int),
            None => first_with_ext_from(string_views(paths@), ext@, 0) is None,
        },
        r matches Some(i) ==> i < paths@.len() && path_extension_spec(paths@[i as int]@) == Some(ext@)
            && path_file_stem_spec(paths@[i as int]@) is Some && path_parent_spec(paths@[i as int]@) is Some,
{
    let n = paths.len();
    let ghost ps = string_views(paths@);
    let mut i: usize = 0;
    while i < n
        invariant
            i <= n == paths@.len(),
            ps == string_views(paths@),
            first_with_ext_from(ps, ext@, 0) == first_with_ext_from(ps, ext@, i as int),
        decreases n - i,
    {
        let p = chars_of(paths[i].as_str());
        assert(p@ == ps[i as int]);
        match extension(&p) {
            Some(e) => {
                if chars_eq(&e, ext) {
                    return Some(i);
                }
            },
            None => {},
        }
        i += 1;
    }
    None
}

/// Whether a listing of the models folder holds a `.glb` model.
pub fn contains_model_file(models: &Vec<String>) -> (r: bool)
    ensures
        r == (first_with_ext(string_views(models@), "glb"@) is Some),
{
    let glb = chars_of("glb");
    first_with_ext_exec(models, &glb).is_some()
}

fn thermal_csv_exec(p: &Vec<char>) -> (r: Vec<char>)
    requires
        path_file_stem_spec(p@) is Some,
        path_parent_spec(p@) is Some,
    ensures
        r@ == thermal_csv_path(p@),
{
    let stem = match file_stem(p) {
        Some(s) => s,
        None => Vec::new(),
    };
    let dir = match parent(p) {
        Some(d) => d,
        None => Vec::new(),
    };
    let mut name = stem;
    push_all(&mut name, &chars_of("_thermal_summary.csv"));
    join(&dir, &name)
}

fn latest_fatigue_exec(files: &Vec<SimFile>) -> (r: Option<usize>)
    ensures
        match latest_fatigue(sim_views(files@)) {
            None => r is None,
            Some((t, p)) => r matches Some(i) && i < files@.len() && files@[i as int]@.path == p
                && files@[i as int]@.modified == Some(t),
        },
{
    let suffix = chars_of("_solder_fatigue.json");
    let ghost fs = sim_views(files@);
    let n = files.len();
    let mut best: Option<usize> = None;
    let mut best_t: i128 = 0;
    assert(fs.take(0) =~= Seq::<SimFileView>::empty());
    for i in 0..n
        invariant
            n == files@.len(),
            fs == sim_views(files@),
            suffix@ == "_solder_fatigue.json"@,
            match latest_fatigue(fs.take(i as int)) {
                None => best is None,
                Some((t, p)) => best matches Some(b) && b < i && fs[b as int].path == p
                    && fs[b as int].modified == Some(t) && best_t == t,
            },
    {
        proof {
            assert(fs.take(i + 1).drop_last() =~= fs.take(i as int));
            assert(fs.take(i + 1).last() == fs[i as int]);
        }
        let f = &files[i];
        let p = chars_of(f.path.as_str());
        if ends_with(&p, &suffix) {
            match f.modified {
                Some(t) => {
                    let newer = match best {
                        None => true,
                        Some(_) => t > best_t,
                    };
                    if newer {
                        best = Some(i);
                        best_t = t;
                    }
                },
                None => {},
            }
        }
    }
    proof {
        assert(fs.take(n as int) =~= fs);
    }
    best
}

/// Scan the listings of a session folder: `models` (the paths in `models/`),
/// `point_cloud` (the paths in `point_cloud/`) and `simulation` (the files in
/// each folder under `simulation/`), each in the order the folder lists them.
///
/// The model is the first `.glb`, the point cloud the first `.pcprep`, the
/// fatigue result the most recently modified `*_solder_fatigue.json`. The
/// `thermal_csv` and `creep_pcres` fields hold where those companion files
/// would be; [`confirm_status`] keeps them only where they exist.
pub fn probe_session(models: &Vec<String>, point_cloud: &Vec<String>, simulation: &Vec<SimFile>) -> (r:
    SessionStatus)
    ensures
        r@ == probe_spec(string_views(models@), string_views(point_cloud@), sim_views(simulation@)),
{
    let glb = chars_of("glb");
    let pcprep_ext = chars_of("pcprep");
    let model_glb = match first_with_ext_exec(models, &glb) {
        Some(i) => Some(models[i].clone()),
        None => None,
    };
    let (pcprep, thermal_csv) = match first_with_ext_exec(point_cloud, &pcprep_ext) {
        Some(i) => {
            let p = chars_of(point_cloud[i].as_str());
            let csv = thermal_csv_exec(&p);
            (Some(point_cloud[i].clone()), Some(string_of(&csv)))
        },
        None => (None, None),
    };
    let (fatigue_json, creep_pcres) = match latest_fatigue_exec(simulation) {
        Some(i) => {
            let p = chars_of(simulation[i].path.as_str());
            let pat = chars_of("_solder_fatigue.json");
            let rep = chars_of("_creep.pcres");
            proof {
                reveal_strlit("_solder_fatigue.json");
            }
            let c = replace_chars(&p, &pat, &rep);
            (Some(simulation[i].path.clone()), Some(string_of(&c)))
        },
        None => (None, None),
    };
    SessionStatus { model_glb, pcprep, thermal_csv, fatigue_json, creep_pcres }
}

/// Keep the companion files of a scan where they exist: the thermal summary
/// where `thermal_csv_exists`, the creep result where `creep_pcres_exists`.
pub fn confirm_status(probe: SessionStatus, thermal_csv_exists: bool, creep_pcres_exists: bool) -> (r:
    SessionStatus)
    ensures
        r@.model_glb == probe@.model_glb,
        r@.pcprep == probe@.pcprep,
        r@.fatigue_json == probe@.fatigue_json,
        r@.thermal_csv == (if thermal_csv_exists {
            probe@.thermal_csv
        } else {
            None
        }),
        r@.creep_pcres == (if creep_pcres_exists {
            probe@.creep_pcres
        } else {
            None
        }),
{
    let SessionStatus { model_glb, pcprep, thermal_csv, fatigue_json, creep_pcres } = probe;
    SessionStatus {
        model_glb,
        pcprep,
        thermal_csv: if thermal_csv_exists {
            thermal_csv
        } else {
            None
        },
        fatigue_json,
        creep_pcres: if creep_pcres_exists {
            creep_pcres
        } else {
            None
        },
    }
}

/// A thermal summary is only ever reported beside a point cloud, and a creep
/// result only beside a fatigue result.
pub proof fn lemma_status_companions(
    models: Seq<Seq<char>>,
    point_cloud: Seq<Seq<char>>,
    simulation: Seq<SimFileView>,
)
    ensures
        probe_spec(models, point_cloud, simulation).thermal_csv is Some ==> probe_spec(
            models,
            point_cloud,
            simulation,
        ).pcprep is Some,
        probe_spec(models, point_cloud, simulation).creep_pcres is Some ==> probe_spec(
            models,
            point_cloud,
            simulation,
        ).fatigue_json is Some,
{
}

} // verus!
