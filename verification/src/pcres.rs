use vstd::prelude::*;

use crate::text::{chars_of, has_prefix, starts_with, string_views};

verus! {

// ─── The .pcres binary result format ─────────────────────────────────────────
//
//   magic      8 bytes  "PCRESV1\n"
//   kind       u8       0 = creep, 1 = thermal
//   fields     u8       number of per-node fields
//   n          u32 LE   number of nodes
//   fields ×   u8 type (0 = f32, 1 = u32, 2 = string), u8 name length, name
//   pool size  u32 LE, then the string pool
//   nodes ×    x, y, z (f32 LE), node id (u32 LE), then one value per field:
//              f32/u32 take 4 bytes, a string a u16 LE offset into the pool,
//              any other type skips 4 bytes
//
// Floating-point values are carried as their IEEE-754 bit patterns (`u32`);
// `f32::from_bits` turns one back into the value the file holds.

/// Kind byte of a creep result file.
pub const PCRES_CREEP: u8 = 0;

/// Kind byte of a thermal result file.
pub const PCRES_THERMAL: u8 = 1;

/// Field type: 32-bit float.
pub const FTYPE_F32: u8 = 0;

/// Field type: 32-bit unsigned integer.
pub const FTYPE_U32: u8 = 1;

/// Field type: string, as an offset into the string pool.
pub const FTYPE_STR: u8 = 2;

/// One node of a result file. Every float field (`x`, `y`, `z`, and the
/// result values) holds the bit pattern of an `f32`.
pub enum PcresRecord {
    Creep {
        node_id: u32,
        body_name: String,
        x: u32,
        y: u32,
        z: u32,
        ux_um: u32,
        uy_um: u32,
        uz_um: u32,
        mag_um: u32,
        dw_mpa: u32,
    },
    Thermal {
        node_id: u32,
        body_name: String,
        face_tag: String,
        x: u32,
        y: u32,
        z: u32,
        t_min_c: u32,
        t_max_c: u32,
        delta_t_c: u32,
        material_id: u32,
    },
}

/// The mathematical form of a [`PcresRecord`].
pub enum PcresRecordView {
    Creep {
        node_id: u32,
        body_name: Seq<char>,
        x: u32,
        y: u32,
        z: u32,
        ux_um: u32,
        uy_um: u32,
        uz_um: u32,
        mag_um: u32,
        dw_mpa: u32,
    },
    Thermal {
        node_id: u32,
        body_name: Seq<char>,
        face_tag: Seq<char>,
        x: u32,
        y: u32,
        z: u32,
        t_min_c: u32,
        t_max_c: u32,
        delta_t_c: u32,
        material_id: u32,
    },
}

impl View for PcresRecord {
    type V = PcresRecordView;

    open spec fn view(&self) -> PcresRecordView {
        match self {
            PcresRecord::Creep {
                node_id,
                body_name,
                x,
                y,
                z,
                ux_um,
                uy_um,
                uz_um,
                mag_um,
                dw_mpa,
            } => PcresRecordView::Creep {
                node_id: *node_id,
                body_name: body_name@,
                x: *x,
                y: *y,
                z: *z,
                ux_um: *ux_um,
                uy_um: *uy_um,
                uz_um: *uz_um,
                mag_um: *mag_um,
                dw_mpa: *dw_mpa,
            },
            PcresRecord::Thermal {
                node_id,
                body_name,
                face_tag,
                x,
                y,
                z,
                t_min_c,
                t_max_c,
                delta_t_c,
                material_id,
            } => PcresRecordView::Thermal {
                node_id: *node_id,
                body_name: body_name@,
                face_tag: face_tag@,
                x: *x,
                y: *y,
                z: *z,
                t_min_c: *t_min_c,
                t_max_c: *t_max_c,
                delta_t_c: *delta_t_c,
                material_id: *material_id,
            },
        }
    }
}

/// The views of a sequence of records.
pub open spec fn record_views(s: Seq<PcresRecord>) -> Seq<PcresRecordView> {
    s.map_values(|r: PcresRecord| r@)
}

/// Why a result file was refused.
pub enum PcresError {
    /// The file does not start with the format's magic bytes.
    BadMagic,
}

impl PcresError {
    /// The message the workbench shows for this error.
    pub fn message(&self) -> (s: String)
        ensures
            s@ == "Not a valid PCRES file (bad magic)"@,
    {
        String::from_str("Not a valid PCRES file (bad magic)")
    }
}

// ─── Decoding the string pool ────────────────────────────────────────────────

/// What std's `String::from_utf8_lossy` makes of the bytes: their UTF-8
/// decoding, with each invalid sequence replaced by U+FFFD.
pub uninterp spec fn utf8_lossy_spec(bytes: Seq<u8>) -> Seq<char>;

/// Calls std's `String::from_utf8_lossy`.
/// Trusted: the result is the named [`utf8_lossy_spec`] of the bytes.
#[verifier::external_body]
pub(crate) fn utf8_lossy(bytes: &[u8]) -> (s: String)
    ensures
        s@ == utf8_lossy_spec(bytes@),
{
    String::from_utf8_lossy(bytes).into_owned()
}

// ─── Specification of the reader ─────────────────────────────────────────────

/// The magic bytes `"PCRESV1\n"`.
pub open spec fn pcres_magic() -> Seq<u8> {
    seq![0x50u8, 0x43u8, 0x52u8, 0x45u8, 0x53u8, 0x56u8, 0x31u8, 0x0Au8]
}

/// Little-endian `u16` at `p`.
pub open spec fn le16(d: Seq<u8>, p: int) -> int {
    d[p] as int + 256 * (d[p + 1] as int)
}

/// Little-endian `u32` at `p`.
pub open spec fn le32(d: Seq<u8>, p: int) -> int {
    d[p] as int + 256 * (d[p + 1] as int) + 65536 * (d[p + 2] as int) + 16777216 * (d[p + 3] as int)
}

/// The first zero byte at or after `i`.
pub open spec fn first_zero(d: Seq<u8>, i: int) -> Option<int>
    decreases d.len() - i,
{
    if i < 0 || i >= d.len() {
        None
    } else if d[i] == 0 {
        Some(i)
    } else {
        first_zero(d, i + 1)
    }
}

/// The pool string at offset `off`: from there to the first zero byte of the
/// file, or to the end of the pool when no zero follows; `None` where the
/// slicing would fall outside the file.
pub open spec fn pool_str(d: Seq<u8>, ps: int, psz: int, off: int) -> Option<Seq<char>> {
    let start = ps + off;
    if start > d.len() {
        None
    } else {
        let end = match first_zero(d, start) {
            Some(z) => z,
            None => ps + psz,
        };
        if end < start || end > d.len() {
            None
        } else {
            Some(utf8_lossy_spec(d.subrange(start, end)))
        }
    }
}

/// The values of one node's fields, by type, and the position after them.
pub struct FieldVals {
    pub f: Seq<u32>,
    pub u: Seq<u32>,
    pub s: Seq<Seq<char>>,
    pub pos: int,
}

/// Reads the first `j` fields of a node from `start`; `None` where a read
/// falls outside the file.
pub open spec fn field_vals(
    d: Seq<u8>,
    types: Seq<u8>,
    j: nat,
    start: int,
    ps: int,
    psz: int,
) -> Option<FieldVals>
    decreases j,
{
    if j == 0 {
        Some(FieldVals { f: Seq::empty(), u: Seq::empty(), s: Seq::empty(), pos: start })
    } else {
        match field_vals(d, types, (j - 1) as nat, start, ps, psz) {
            None => None,
            Some(acc) => {
                let p = acc.pos;
                let t = types[j - 1];
                if t == FTYPE_F32 {
                    if p + 4 <= d.len() {
                        Some(FieldVals { f: acc.f.push(le32(d, p) as u32), pos: p + 4, ..acc })
                    } else {
                        None
                    }
                } else if t == FTYPE_U32 {
                    if p + 4 <= d.len() {
                        Some(FieldVals { u: acc.u.push(le32(d, p) as u32), pos: p + 4, ..acc })
                    } else {
                        None
                    }
                } else if t == FTYPE_STR {
                    if p + 2 <= d.len() {
                        match pool_str(d, ps, psz, le16(d, p)) {
                            Some(st) => Some(FieldVals { s: acc.s.push(st), pos: p + 2, ..acc }),
                            None => None,
                        }
                    } else {
                        None
                    }
                } else {
                    Some(FieldVals { pos: p + 4, ..acc })
                }
            },
        }
    }
}

/// Item `i` of `s`, or zero.
pub open spec fn nth_or_zero(s: Seq<u32>, i: int) -> u32 {
    if 0 <= i < s.len() {
        s[i]
    } else {
        0
    }
}

/// Item `i` of `s`, or the empty text.
pub open spec fn nth_or_empty(s: Seq<Seq<char>>, i: int) -> Seq<char> {
    if 0 <= i < s.len() {
        s[i]
    } else {
        Seq::<char>::empty()
    }
}

/// The record a node makes in a file of the given kind; none for another kind.
pub open spec fn make_record(
    kind: u8,
    node_id: u32,
    x: u32,
    y: u32,
    z: u32,
    fv: FieldVals,
) -> Option<PcresRecordView> {
    if kind == PCRES_CREEP {
        Some(
            PcresRecordView::Creep {
                node_id,
                body_name: nth_or_empty(fv.s, 0),
                x,
                y,
                z,
                ux_um: nth_or_zero(fv.f, 0),
                uy_um: nth_or_zero(fv.f, 1),
                uz_um: nth_or_zero(fv.f, 2),
                mag_um: nth_or_zero(fv.f, 3),
                dw_mpa: nth_or_zero(fv.f, 4),
            },
        )
    } else if kind == PCRES_THERMAL {
        Some(
            PcresRecordView::Thermal {
                node_id,
                body_name: nth_or_empty(fv.s, 0),
                face_tag: nth_or_empty(fv.s, 1),
                x,
                y,
                z,
                t_min_c: nth_or_zero(fv.f, 0),
                t_max_c: nth_or_zero(fv.f, 1),
                delta_t_c: nth_or_zero(fv.f, 2),
                material_id: nth_or_zero(fv.u, 0),
            },
        )
    } else {
        None
    }
}

/// Reads one node at `p`: its record (if the kind makes one) and the position after it.
pub open spec fn record_at(
    d: Seq<u8>,
    p: int,
    types: Seq<u8>,
    kind: u8,
    ps: int,
    psz: int,
) -> Option<(Option<PcresRecordView>, int)> {
    if p + 16 > d.len() {
        None
    } else {
        match field_vals(d, types, types.len(), p + 16, ps, psz) {
            None => None,
            Some(fv) => Some(
                (
                    make_record(
                        kind,
                        le32(d, p + 12) as u32,
                        le32(d, p) as u32,
                        le32(d, p + 4) as u32,
                        le32(d, p + 8) as u32,
                        fv,
                    ),
                    fv.pos,
                ),
            ),
        }
    }
}

/// Reads `k` nodes from `p`: the records made and the position after them.
pub open spec fn records_from(
    d: Seq<u8>,
    p: int,
    k: nat,
    types: Seq<u8>,
    kind: u8,
    ps: int,
    psz: int,
) -> Option<(Seq<PcresRecordView>, int)>
    decreases k,
{
    if k == 0 {
        Some((Seq::empty(), p))
    } else {
        match records_from(d, p, (k - 1) as nat, types, kind, ps, psz) {
            None => None,
            Some((rs, q)) => match record_at(d, q, types, kind, ps, psz) {
                None => None,
                Some((o, q2)) => Some(
                    (
                        match o {
                            Some(r) => rs.push(r),
                            None => rs,
                        },
                        q2,
                    ),
                ),
            },
        }
    }
}

/// Reads `k` field descriptors from `p`: their types and the position after them.
pub open spec fn field_types(d: Seq<u8>, p: int, k: nat) -> Option<(Seq<u8>, int)>
    decreases k,
{
    if k == 0 {
        Some((Seq::empty(), p))
    } else {
        match field_types(d, p, (k - 1) as nat) {
            None => None,
            Some((ts, q)) => if q + 2 <= d.len() && q + 2 + d[q + 1] <= d.len() {
                Some((ts.push(d[q]), q + 2 + d[q + 1]))
            } else {
                None
            },
        }
    }
}

/// What reading the bytes of a result file gives: `Some(Ok(records))`,
/// `Some(Err(()))` for a file without the magic bytes, and `None` where a
/// read would fall outside the file.
pub open spec fn pcres_spec(d: Seq<u8>) -> Option<Result<Seq<PcresRecordView>, ()>> {
    if d.len() < 8 || d.subrange(0, 8) != pcres_magic() {
        Some(Err(()))
    } else if d.len() < 14 {
        None
    } else {
        match field_types(d, 14, d[9] as nat) {
            None => None,
            Some((types, q)) => if q + 4 > d.len() {
                None
            } else {
                let psz = le32(d, q);
                let ps = q + 4;
                match records_from(d, ps + psz, le32(d, 10) as nat, types, d[8], ps, psz) {
                    None => None,
                    Some((rs, _)) => Some(Ok(rs)),
                }
            },
        }
    }
}

/// Every read of the file stays inside it.
pub open spec fn pcres_in_bounds(d: Seq<u8>) -> bool {
    pcres_spec(d) is Some
}

// ─── Lemmas on the specification ─────────────────────────────────────────────

proof fn lemma_field_vals_fail(
    d: Seq<u8>,
    types: Seq<u8>,
    j: nat,
    k: nat,
    start: int,
    ps: int,
    psz: int,
)
    requires
        j <= k,
        field_vals(d, types, j, start, ps, psz) is None,
    ensures
        field_vals(d, types, k, start, ps, psz) is None,
    decreases k,
{
    if k > j {
        lemma_field_vals_fail(d, types, j, (k - 1) as nat, start, ps, psz);
    }
}

proof fn lemma_records_fail(
    d: Seq<u8>,
    p: int,
    j: nat,
    k: nat,
    types: Seq<u8>,
    kind: u8,
    ps: int,
    psz: int,
)
    requires
        j <= k,
        records_from(d, p, j, types, kind, ps, psz) is None,
    ensures
        records_from(d, p, k, types, kind, ps, psz) is None,
    decreases k,
{
    if k > j {
        lemma_records_fail(d, p, j, (k - 1) as nat, types, kind, ps, psz);
    }
}

proof fn lemma_field_types_fail(d: Seq<u8>, p: int, j: nat, k: nat)
    requires
        j <= k,
        field_types(d, p, j) is None,
    ensures
        field_types(d, p, k) is None,
    decreases k,
{
    if k > j {
        lemma_field_types_fail(d, p, j, (k - 1) as nat);
    }
}

/// Positions never move backwards and stay within reach of the file's end.
proof fn lemma_field_vals_pos(
    d: Seq<u8>,
    types: Seq<u8>,
    j: nat,
    start: int,
    ps: int,
    psz: int,
)
    requires
        field_vals(d, types, j, start, ps, psz) is Some,
        start <= d.len(),
    ensures
        start <= field_vals(d, types, j, start, ps, psz)->0.pos <= d.len() + 4 * j,
    decreases j,
{
    if j > 0 {
        lemma_field_vals_pos(d, types, (j - 1) as nat, start, ps, psz);
    }
}

// ─── Executable reader ───────────────────────────────────────────────────────

fn read_u16(d: &[u8], p: usize) -> (r: u16)
    requires
        p + 2 <= d@.len(),
    ensures
        r as int == le16(d@, p as int),
{
    (d[p] as u16) + 256 * (d[p + 1] as u16)
}

fn read_u32(d: &[u8], p: usize) -> (r: u32)
    requires
        p + 4 <= d@.len(),
    ensures
        r as int == le32(d@, p as int),
{
    (d[p] as u32) + 256 * (d[p + 1] as u32) + 65536 * (d[p + 2] as u32) + 16777216 * (d[
        p + 3] as u32)
}

/// Reads the pool string at `off`, or `None` where its slicing would fall outside the file.
fn read_pool_str(d: &[u8], ps: usize, psz: usize, off: usize) -> (r: Option<String>)
    requires
        d@.len() <= isize::MAX,
        ps + psz <= d@.len(),
        off <= 0xFFFF,
    ensures
        match r {
            Some(s) => pool_str(d@, ps as int, psz as int, off as int) == Some(s@),
            None => pool_str(d@, ps as int, psz as int, off as int) is None,
        },
{
    let n = d.len();
    let start = ps + off;
    if start > n {
        return None;
    }
    let mut i = start;
    while i < n && d[i] != 0
        invariant
            start <= i <= n == d@.len(),
            first_zero(d@, start as int) == first_zero(d@, i as int),
        decreases n - i,
    {
        i += 1;
    }
    let end = if i < n {
        i
    } else {
        ps + psz
    };
    if end < start {
        return None;
    }
    let bytes = &d[start..end];
    assert(bytes@ == d@.subrange(start as int, end as int));
    Some(utf8_lossy(bytes))
}

/// Reads the fields of one node from `start`.
fn read_fields(d: &[u8], types: &Vec<u8>, start: usize, ps: usize, psz: usize) -> (r: Option<
    (Vec<u32>, Vec<u32>, Vec<String>, usize),
>)
    requires
        d@.len() <= isize::MAX,
        ps + psz <= d@.len(),
        start <= d@.len(),
        types@.len() <= 255,
    ensures
        match r {
            Some((f, u, s, pos)) => field_vals(
                d@,
                types@,
                types@.len(),
                start as int,
                ps as int,
                psz as int,
            ) == Some(FieldVals { f: f@, u: u@, s: string_views(s@), pos: pos as int }),
            None => field_vals(
                d@,
                types@,
                types@.len(),
                start as int,
                ps as int,
                psz as int,
            ) is None,
        },
{
    let mut f: Vec<u32> = Vec::new();
    let mut u: Vec<u32> = Vec::new();
    let mut s: Vec<String> = Vec::new();
    let mut pos = start;
    let m = types.len();
    let mut j: usize = 0;
    proof {
        assert(f@ =~= Seq::<u32>::empty());
        assert(u@ =~= Seq::<u32>::empty());
        assert(string_views(s@) =~= Seq::<Seq<char>>::empty());
    }
    while j < m
        invariant
            m == types@.len() <= 255,
            j <= m,
            d@.len() <= isize::MAX,
            ps + psz <= d@.len(),
            start <= pos <= d@.len() + 4 * j,
            field_vals(d@, types@, j as nat, start as int, ps as int, psz as int) == Some(
                FieldVals { f: f@, u: u@, s: string_views(s@), pos: pos as int },
            ),
        decreases m - j,
    {
        let t = types[j];
        let ghost acc = FieldVals { f: f@, u: u@, s: string_views(s@), pos: pos as int };
        if t == FTYPE_F32 {
            if pos > d.len() || d.len() - pos < 4 {
                proof {
                    lemma_field_vals_fail(d@, types@, (j + 1) as nat, m as nat, start as int, ps as int, psz as int);
                }
                return None;
            }
            let v = read_u32(d, pos);
            f.push(v);
            pos = pos + 4;
            proof {
                assert(field_vals(d@, types@, (j + 1) as nat, start as int, ps as int, psz as int) == Some(
                    FieldVals { f: f@, u: u@, s: string_views(s@), pos: pos as int },
                ));
            }
        } else if t == FTYPE_U32 {
            if pos > d.len() || d.len() - pos < 4 {
                proof {
                    lemma_field_vals_fail(d@, types@, (j + 1) as nat, m as nat, start as int, ps as int, psz as int);
                }
                return None;
            }
            let v = read_u32(d, pos);
            u.push(v);
            pos = pos + 4;
            proof {
                assert(field_vals(d@, types@, (j + 1) as nat, start as int, ps as int, psz as int) == Some(
                    FieldVals { f: f@, u: u@, s: string_views(s@), pos: pos as int },
                ));
            }
        } else if t == FTYPE_STR {
            if pos > d.len() || d.len() - pos < 2 {
                proof {
                    lemma_field_vals_fail(d@, types@, (j + 1) as nat, m as nat, start as int, ps as int, psz as int);
                }
                return None;
            }
            let off = read_u16(d, pos);
            match read_pool_str(d, ps, psz, off as usize) {
                Some(st) => {
                    let ghost stv = st@;
                    let ghost old_s = s@;
                    s.push(st);
                    pos = pos + 2;
                    proof {
                        assert(string_views(s@) =~= string_views(old_s).push(stv));
                        assert(field_vals(d@, types@, (j + 1) as nat, start as int, ps as int, psz as int) == Some(
                            FieldVals { f: f@, u: u@, s: string_views(s@), pos: pos as int },
                        ));
                    }
                },
                None => {
                    proof {
                        lemma_field_vals_fail(d@, types@, (j + 1) as nat, m as nat, start as int, ps as int, psz as int);
                    }
                    return None;
                },
            }
        } else {
            pos = pos + 4;
        }
        j += 1;
    }
    Some((f, u, s, pos))
}

fn nth_u32(s: &Vec<u32>, i: usize) -> (r: u32)
    ensures
        r == nth_or_zero(s@, i as int),
{
    if i < s.len() {
        s[i]
    } else {
        0
    }
}

fn nth_string(s: &Vec<String>, i: usize) -> (r: String)
    ensures
        r@ == nth_or_empty(string_views(s@), i as int),
{
    if i < s.len() {
        s[i].clone()
    } else {
        String::new()
    }
}

/// Reads one node at `p`.
fn read_record(
    d: &[u8],
    p: usize,
    types: &Vec<u8>,
    kind: u8,
    ps: usize,
    psz: usize,
) -> (r: Option<(Option<PcresRecord>, usize)>)
    requires
        d@.len() <= isize::MAX,
        ps + psz <= d@.len(),
        p <= d@.len() + 1020,
        types@.len() <= 255,
    ensures
        match r {
            Some((o, q)) => {
                &&& q <= d@.len() + 1020
                &&& record_at(d@, p as int, types@, kind, ps as int, psz as int) == Some(
                    (
                        match o {
                            Some(rec) => Some(rec@),
                            None => None,
                        },
                        q as int,
                    ),
                )
            },
            None => record_at(d@, p as int, types@, kind, ps as int, psz as int) is None,
        },
{
    if p > d.len() || d.len() - p < 16 {
        return None;
    }
    let x = read_u32(d, p);
    let y = read_u32(d, p + 4);
    let z = read_u32(d, p + 8);
    let node_id = read_u32(d, p + 12);
    match read_fields(d, types, p + 16, ps, psz) {
        None => None,
        Some((f, u, s, q)) => {
            proof {
                lemma_field_vals_pos(d@, types@, types@.len(), p + 16, ps as int, psz as int);
            }
            if kind == PCRES_CREEP {
                let rec = PcresRecord::Creep {
                    node_id,
                    body_name: nth_string(&s, 0),
                    x,
                    y,
                    z,
                    ux_um: nth_u32(&f, 0),
                    uy_um: nth_u32(&f, 1),
                    uz_um: nth_u32(&f, 2),
                    mag_um: nth_u32(&f, 3),
                    dw_mpa: nth_u32(&f, 4),
                };
                Some((Some(rec), q))
            } else if kind == PCRES_THERMAL {
                let rec = PcresRecord::Thermal {
                    node_id,
                    body_name: nth_string(&s, 0),
                    face_tag: nth_string(&s, 1),
                    x,
                    y,
                    z,
                    t_min_c: nth_u32(&f, 0),
                    t_max_c: nth_u32(&f, 1),
                    delta_t_c: nth_u32(&f, 2),
                    material_id: nth_u32(&u, 0),
                };
                Some((Some(rec), q))
            } else {
                Some((None, q))
            }
        },
    }
}

/// Parse the bytes of a `.pcres` file and return all records.
///
/// `Some(Ok(records))` for a readable file, `Some(Err(BadMagic))` for one
/// without the magic bytes, and `None` exactly where a read would fall outside
/// the file. Nodes of a kind other than creep or thermal are read and skipped.
pub fn try_read_pcres_data(d: &[u8]) -> (r: Option<Result<Vec<PcresRecord>, PcresError>>)
    requires
        d@.len() <= isize::MAX,
    ensures
        match pcres_spec(d@) {
            None => r is None,
            Some(Err(())) => r matches Some(Err(PcresError::BadMagic)),
            Some(Ok(rs)) => r matches Some(Ok(v)) && record_views(v@) == rs,
        },
{
    let n = d.len();
    if n < 8 {
        return Some(Err(PcresError::BadMagic));
    }
    let magic: [u8; 8] = [0x50u8, 0x43u8, 0x52u8, 0x45u8, 0x53u8, 0x56u8, 0x31u8, 0x0Au8];
    let mut i: usize = 0;
    while i < 8
        invariant
            i <= 8 <= n == d@.len(),
            magic@ == pcres_magic(),
            forall|k: int| 0 <= k < i ==> d@[k] == pcres_magic()[k],
        decreases 8 - i,
    {
        if d[i] != magic[i] {
            proof {
                assert(magic@[i as int] == pcres_magic()[i as int]);
                assert(d@.subrange(0, 8)[i as int] != pcres_magic()[i as int]);
            }
            return Some(Err(PcresError::BadMagic));
        }
        i += 1;
    }
    assert(d@.subrange(0, 8) =~= pcres_magic());
    if n < 14 {
        return None;
    }
    let kind = d[8];
    let field_count = d[9];
    let count = read_u32(d, 10);
    // Field descriptors.
    let mut types: Vec<u8> = Vec::new();
    let mut pos: usize = 14;
    let mut k: u8 = 0;
    while k < field_count
        invariant
            k <= field_count,
            n == d@.len(),
            n >= 14,
            d@.subrange(0, 8) == pcres_magic(),
            14 <= pos <= n,
            field_count == d@[9],
            types@.len() == k,
            field_types(d@, 14, k as nat) == Some((types@, pos as int)),
        decreases field_count - k,
    {
        if n - pos < 2 {
            proof {
                assert(field_types(d@, 14, (k + 1) as nat) is None);
                lemma_field_types_fail(d@, 14, (k + 1) as nat, field_count as nat);
            }
            return None;
        }
        let ftype = d[pos];
        let name_len = d[pos + 1] as usize;
        if n - pos - 2 < name_len {
            proof {
                assert(field_types(d@, 14, (k + 1) as nat) is None);
                lemma_field_types_fail(d@, 14, (k + 1) as nat, field_count as nat);
            }
            return None;
        }
        types.push(ftype);
        pos = pos + 2 + name_len;
        k += 1;
    }
    // String pool.
    if n - pos < 4 {
        return None;
    }
    let psz = read_u32(d, pos) as usize;
    let ps = pos + 4;
    let ghost spec_types = types@;
    let ghost types_end = pos;
    if count == 0 {
        let v: Vec<PcresRecord> = Vec::new();
        proof {
            assert(record_views(v@) =~= Seq::<PcresRecordView>::empty());
        }
        return Some(Ok(v));
    }
    if psz > n - ps {
        proof {
            assert(records_from(d@, ps + psz, 0, spec_types, kind, ps as int, psz as int) == Some((Seq::<PcresRecordView>::empty(), ps + psz)));
            assert(record_at(d@, ps + psz, spec_types, kind, ps as int, psz as int) is None);
            assert(records_from(d@, ps + psz, 1, spec_types, kind, ps as int, psz as int) is None);
            lemma_records_fail(d@, ps + psz, 1, count as nat, spec_types, kind, ps as int, psz as int);
        }
        return None;
    }
    let start = ps + psz;
    let mut records: Vec<PcresRecord> = Vec::new();
    let mut q = start;
    let mut c: u32 = 0;
    while c < count
        invariant
            c <= count,
            n == d@.len() <= isize::MAX,
            n >= 14,
            d@.subrange(0, 8) == pcres_magic(),
            kind == d@[8],
            count == le32(d@, 10),
            field_types(d@, 14, d@[9] as nat) == Some((spec_types, types_end as int)),
            types_end + 4 <= n,
            psz == le32(d@, types_end as int),
            ps == types_end + 4,
            ps + psz <= n,
            start == ps + psz,
            q <= n + 1020,
            types@ == spec_types,
            spec_types.len() <= 255,
            records_from(d@, start as int, c as nat, spec_types, kind, ps as int, psz as int)
                == Some((record_views(records@), q as int)),
        decreases count - c,
    {
        match read_record(d, q, &types, kind, ps, psz) {
            None => {
                proof {
                    assert(records_from(d@, start as int, (c + 1) as nat, spec_types, kind, ps as int, psz as int) is None);
                    lemma_records_fail(d@, start as int, (c + 1) as nat, count as nat, spec_types, kind, ps as int, psz as int);
                }
                return None;
            },
            Some((o, q2)) => {
                let ghost old_recs = record_views(records@);
                match o {
                    Some(rec) => {
                        let ghost rv = rec@;
                        records.push(rec);
                        proof {
                            assert(record_views(records@) =~= old_recs.push(rv));
                        }
                    },
                    None => {},
                }
                q = q2;
            },
        }
        c += 1;
    }
    Some(Ok(records))
}

/// Parse the bytes of a `.pcres` file whose reads all stay inside it.
pub fn read_pcres_data(data: &[u8]) -> (r: Result<Vec<PcresRecord>, PcresError>)
    requires
        data@.len() <= isize::MAX,
        pcres_in_bounds(data@),
    ensures
        match pcres_spec(data@) {
            Some(Ok(rs)) => r matches Ok(v) && record_views(v@) == rs,
            _ => r matches Err(PcresError::BadMagic),
        },
{
    match try_read_pcres_data(data) {
        Some(r) => r,
        None => Err(PcresError::BadMagic),
    }
}

// ─── Solder-joint selection ──────────────────────────────────────────────────

/// A creep record of a solder joint (its body name starts with `solder_`).
pub open spec fn is_solder_creep(r: PcresRecordView) -> bool {
    match r {
        PcresRecordView::Creep { body_name, .. } => has_prefix(body_name, "solder_"@),
        _ => false,
    }
}

/// The solder-joint creep records of `s`, in order.
pub open spec fn solder_only(s: Seq<PcresRecordView>) -> Seq<PcresRecordView>
    decreases s.len(),
{
    if s.len() == 0 {
        s
    } else if is_solder_creep(s.last()) {
        solder_only(s.drop_last()).push(s.last())
    } else {
        solder_only(s.drop_last())
    }
}

/// The test [`is_solder_creep`] as a predicate value.
pub open spec fn solder_pred() -> spec_fn(PcresRecordView) -> bool {
    |r: PcresRecordView| is_solder_creep(r)
}

/// Keep only solder-joint creep records.
///
/// The full creep result holds every assembly node (PCB, components, solder
/// joints); only the joints are needed for the ΔW / displacement contour.
/// Every solder-joint record of the input is kept, in file order, and no
/// other.
pub fn select_solder_records(records: Vec<PcresRecord>) -> (r: Vec<PcresRecord>)
    ensures
        record_views(r@) == solder_only(record_views(records@)),
        record_views(r@) == record_views(records@).filter(solder_pred()),
        forall|i: int|
            0 <= i < records@.len() && is_solder_creep(#[trigger] record_views(records@)[i])
                ==> record_views(r@).contains(record_views(records@)[i]),
{
    proof {
        lemma_solder_selection_keeps_all(record_views(records@));
    }
    let prefix = chars_of("solder_");
    let mut out: Vec<PcresRecord> = Vec::new();
    let ghost all = record_views(records@);
    let n = records.len();
    proof {
        assert(record_views(out@) =~= solder_only(all.take(0)));
    }
    for rec in it: records
        invariant
            n == all.len(),
            prefix@ == "solder_"@,
            all == record_views(it.seq()),
            record_views(out@) == solder_only(all.take(it.index() as int)),
    {
        let ghost i = it.index();
        assert(rec@ == all[i as int]);
        proof {
            assert(all.take(i + 1).drop_last() =~= all.take(i as int));
        }
        let keep = match &rec {
            PcresRecord::Creep { body_name, .. } => {
                let name = chars_of(body_name.as_str());
                starts_with(&name, &prefix)
            },
            _ => false,
        };
        if keep {
            let ghost old_out = record_views(out@);
            let ghost rv = rec@;
            out.push(rec);
            proof {
                assert(record_views(out@) =~= old_out.push(rv));
            }
        }
    }
    proof {
        assert(all.take(n as int) =~= all);
    }
    out
}

// ─── Laws ────────────────────────────────────────────────────────────────────

/// The records read from `k` nodes of a creep file are all creep records and
/// there is one per node; likewise for a thermal file; a file of any other
/// kind gives no records.
pub proof fn lemma_records_of_one_kind(
    d: Seq<u8>,
    p: int,
    k: nat,
    types: Seq<u8>,
    kind: u8,
    ps: int,
    psz: int,
)
    requires
        records_from(d, p, k, types, kind, ps, psz) is Some,
    ensures
        ({
            let rs = (records_from(d, p, k, types, kind, ps, psz)->0).0;
            &&& kind == PCRES_CREEP ==> rs.len() == k && forall|i: int|
                0 <= i < rs.len() ==> #[trigger] rs[i] is Creep
            &&& kind == PCRES_THERMAL ==> rs.len() == k && forall|i: int|
                0 <= i < rs.len() ==> #[trigger] rs[i] is Thermal
            &&& kind != PCRES_CREEP && kind != PCRES_THERMAL ==> rs.len() == 0
        }),
    decreases k,
{
    if k > 0 {
        lemma_records_of_one_kind(d, p, (k - 1) as nat, types, kind, ps, psz);
    }
}

/// A readable result file gives one record per node, all of the file's kind,
/// or none at all when the kind is neither creep nor thermal.
pub proof fn lemma_pcres_one_kind(d: Seq<u8>)
    requires
        pcres_spec(d) matches Some(Ok(_)),
    ensures
        ({
            let rs = pcres_spec(d)->0->Ok_0;
            &&& d[8] == PCRES_CREEP ==> rs.len() == le32(d, 10) && forall|i: int|
                0 <= i < rs.len() ==> #[trigger] rs[i] is Creep
            &&& d[8] == PCRES_THERMAL ==> rs.len() == le32(d, 10) && forall|i: int|
                0 <= i < rs.len() ==> #[trigger] rs[i] is Thermal
            &&& d[8] != PCRES_CREEP && d[8] != PCRES_THERMAL ==> rs.len() == 0
        }),
{
    let (types, q) = field_types(d, 14, d[9] as nat)->0;
    let psz = le32(d, q);
    let ps = q + 4;
    lemma_records_of_one_kind(d, ps + psz, le32(d, 10) as nat, types, d[8], ps, psz);
}

/// Selecting solder records twice selects nothing more: the selection keeps
/// exactly the solder-joint creep records.
pub proof fn lemma_solder_selection(s: Seq<PcresRecordView>)
    ensures
        forall|i: int| 0 <= i < solder_only(s).len() ==> is_solder_creep(#[trigger] solder_only(s)[i]),
        solder_only(solder_only(s)) == solder_only(s),
        solder_only(s).len() <= s.len(),
    decreases s.len(),
{
    if s.len() > 0 {
        lemma_solder_selection(s.drop_last());
        let t = solder_only(s.drop_last());
        if is_solder_creep(s.last()) {
            assert(t.push(s.last()).drop_last() =~= t);
        }
    }
}

/// Selecting solder joints is filtering by [`is_solder_creep`]: every
/// solder-joint creep record of the input is in the selection, in the order
/// of the input, and nothing else is; so the selection holds exactly as many
/// records as the input has solder-joint creep records.
pub proof fn lemma_solder_selection_keeps_all(s: Seq<PcresRecordView>)
    ensures
        solder_only(s) == s.filter(solder_pred()),
        forall|i: int| 0 <= i < s.len() && is_solder_creep(#[trigger] s[i]) ==> solder_only(s).contains(s[i]),
    decreases s.len(),
{
    reveal(Seq::filter);
    if s.len() > 0 {
        lemma_solder_selection_keeps_all(s.drop_last());
        assert(s.filter(solder_pred()) == {
            let sub = s.drop_last().filter(solder_pred());
            if solder_pred()(s.last()) {
                sub.push(s.last())
            } else {
                sub
            }
        });
    }
    assert forall|i: int| 0 <= i < s.len() && is_solder_creep(#[trigger] s[i]) implies solder_only(s).contains(
        s[i],
    ) by {
        s.lemma_filter_contains(solder_pred(), i);
    }
}

// ─── What each record holds, read straight from the bytes ────────────────────

/// The bytes a field of type `t` takes in a node: two for a string (an offset
/// into the pool), four for any other type.
pub open spec fn field_width(t: u8) -> int {
    if t == FTYPE_STR {
        2
    } else {
        4
    }
}

/// Where field `j` of a node starts, counted from the node's first field.
pub open spec fn field_offset(types: Seq<u8>, j: nat) -> int
    decreases j,
{
    if j == 0 {
        0
    } else {
        field_offset(types, (j - 1) as nat) + field_width(types[j - 1])
    }
}

/// How many of the first `j` fields have type `t`.
pub open spec fn count_type(types: Seq<u8>, t: u8, j: nat) -> nat
    decreases j,
{
    if j == 0 {
        0
    } else {
        count_type(types, t, (j - 1) as nat) + if types[j - 1] == t {
            1nat
        } else {
            0nat
        }
    }
}

/// The index of the `k`-th field of type `t` (from 0) at or after field `j`.
pub open spec fn nth_field_from(types: Seq<u8>, t: u8, j: nat, k: nat) -> Option<nat>
    decreases types.len() - j,
{
    if j >= types.len() {
        None
    } else if types[j as int] == t {
        if k == 0 {
            Some(j)
        } else {
            nth_field_from(types, t, j + 1, (k - 1) as nat)
        }
    } else {
        nth_field_from(types, t, j + 1, k)
    }
}

/// The bytes of a whole node: its 16-byte header (x, y, z, node id) and its fields.
pub open spec fn node_size(types: Seq<u8>) -> int {
    16 + field_offset(types, types.len())
}

/// The value of the `k`-th field of (4-byte) type `t` of the node at `np`:
/// the little-endian word where that field starts, or 0 when the node has
/// no such field.
pub open spec fn num_field(d: Seq<u8>, np: int, types: Seq<u8>, t: u8, k: nat) -> u32 {
    match nth_field_from(types, t, 0, k) {
        Some(j) => le32(d, np + 16 + field_offset(types, j)) as u32,
        None => 0,
    }
}

/// The text of the `k`-th string field of the node at `np`: the pool string
/// its offset points to, or the empty text when the node has no such field.
pub open spec fn str_field(d: Seq<u8>, np: int, types: Seq<u8>, k: nat, ps: int, psz: int) -> Seq<char> {
    match nth_field_from(types, FTYPE_STR, 0, k) {
        Some(j) => match pool_str(d, ps, psz, le16(d, np + 16 + field_offset(types, j))) {
            Some(st) => st,
            None => Seq::empty(),
        },
        None => Seq::empty(),
    }
}

/// The record the node at `np` holds, by the file's kind: for a creep file
/// the first string field is the body name and the first five float fields
/// are ux, uy, uz, the magnitude and ΔW; for a thermal file the two first
/// string fields are the body name and face tag, the three first float fields
/// are T min, T max and ΔT, and the first integer field is the material id.
pub open spec fn node_record(d: Seq<u8>, np: int, types: Seq<u8>, kind: u8, ps: int, psz: int) -> PcresRecordView {
    if kind == PCRES_CREEP {
        PcresRecordView::Creep {
            node_id: le32(d, np + 12) as u32,
            body_name: str_field(d, np, types, 0, ps, psz),
            x: le32(d, np) as u32,
            y: le32(d, np + 4) as u32,
            z: le32(d, np + 8) as u32,
            ux_um: num_field(d, np, types, FTYPE_F32, 0),
            uy_um: num_field(d, np, types, FTYPE_F32, 1),
            uz_um: num_field(d, np, types, FTYPE_F32, 2),
            mag_um: num_field(d, np, types, FTYPE_F32, 3),
            dw_mpa: num_field(d, np, types, FTYPE_F32, 4),
        }
    } else {
        PcresRecordView::Thermal {
            node_id: le32(d, np + 12) as u32,
            body_name: str_field(d, np, types, 0, ps, psz),
            face_tag: str_field(d, np, types, 1, ps, psz),
            x: le32(d, np) as u32,
            y: le32(d, np + 4) as u32,
            z: le32(d, np + 8) as u32,
            t_min_c: num_field(d, np, types, FTYPE_F32, 0),
            t_max_c: num_field(d, np, types, FTYPE_F32, 1),
            delta_t_c: num_field(d, np, types, FTYPE_F32, 2),
            material_id: num_field(d, np, types, FTYPE_U32, 0),
        }
    }
}

/// The field types a result file declares.
pub open spec fn pcres_types(d: Seq<u8>) -> Seq<u8> {
    match field_types(d, 14, d[9] as nat) {
        Some((types, _)) => types,
        None => Seq::empty(),
    }
}

/// Where a result file's field descriptors end.
pub open spec fn pcres_fields_end(d: Seq<u8>) -> int {
    match field_types(d, 14, d[9] as nat) {
        Some((_, q)) => q,
        None => 0,
    }
}

/// Where a result file's string pool starts.
pub open spec fn pcres_pool_start(d: Seq<u8>) -> int {
    pcres_fields_end(d) + 4
}

/// The size a result file gives its string pool.
pub open spec fn pcres_pool_size(d: Seq<u8>) -> int {
    le32(d, pcres_fields_end(d))
}

/// Where node `i` of a result file starts: the nodes follow the pool, each
/// [`node_size`] bytes long.
pub open spec fn pcres_node_pos(d: Seq<u8>, i: int) -> int {
    pcres_pool_start(d) + pcres_pool_size(d) + i * node_size(pcres_types(d))
}

/// The records a result file reads to (none when it does not read).
pub open spec fn pcres_records(d: Seq<u8>) -> Seq<PcresRecordView> {
    match pcres_spec(d) {
        Some(Ok(rs)) => rs,
        _ => Seq::empty(),
    }
}

proof fn lemma_count_mono(types: Seq<u8>, t: u8, a: nat, b: nat)
    requires
        a <= b,
    ensures
        count_type(types, t, a) <= count_type(types, t, b),
    decreases b,
{
    if a < b {
        lemma_count_mono(types, t, a, (b - 1) as nat);
    }
}

/// Where the `k`-th field of a type lies, in terms of the counts.
proof fn lemma_nth_field(types: Seq<u8>, t: u8, j0: nat, k: nat)
    requires
        j0 <= types.len(),
    ensures
        match nth_field_from(types, t, j0, k) {
            Some(j) => j0 <= j < types.len() && types[j as int] == t && count_type(types, t, j)
                == count_type(types, t, j0) + k,
            None => count_type(types, t, types.len()) <= count_type(types, t, j0) + k,
        },
    decreases types.len() - j0,
{
    if j0 < types.len() {
        assert(count_type(types, t, j0 + 1) == count_type(types, t, j0) + if types[j0 as int] == t {
            1nat
        } else {
            0nat
        });
        if types[j0 as int] == t {
            if k > 0 {
                lemma_nth_field(types, t, j0 + 1, (k - 1) as nat);
            }
        } else {
            lemma_nth_field(types, t, j0 + 1, k);
        }
    }
}

/// The values a node's fields read to sit where [`field_offset`] puts them,
/// the `c`-th of a type being that type's `c`-th field.
proof fn lemma_field_vals_layout(d: Seq<u8>, types: Seq<u8>, j: nat, start: int, ps: int, psz: int)
    requires
        field_vals(d, types, j, start, ps, psz) is Some,
        j <= types.len(),
    ensures
        ({
            let fv = field_vals(d, types, j, start, ps, psz)->0;
            &&& fv.pos == start + field_offset(types, j)
            &&& fv.f.len() == count_type(types, FTYPE_F32, j)
            &&& fv.u.len() == count_type(types, FTYPE_U32, j)
            &&& fv.s.len() == count_type(types, FTYPE_STR, j)
            &&& forall|jj: nat|
                #![trigger field_offset(types, jj)]
                jj < j && types[jj as int] == FTYPE_F32 ==> fv.f[count_type(types, FTYPE_F32, jj) as int]
                    == le32(d, start + field_offset(types, jj)) as u32
            &&& forall|jj: nat|
                #![trigger field_offset(types, jj)]
                jj < j && types[jj as int] == FTYPE_U32 ==> fv.u[count_type(types, FTYPE_U32, jj) as int]
                    == le32(d, start + field_offset(types, jj)) as u32
            &&& forall|jj: nat|
                #![trigger field_offset(types, jj)]
                jj < j && types[jj as int] == FTYPE_STR ==> pool_str(
                    d,
                    ps,
                    psz,
                    le16(d, start + field_offset(types, jj)),
                ) == Some(fv.s[count_type(types, FTYPE_STR, jj) as int])
        }),
    decreases j,
{
    if j > 0 {
        let j1 = (j - 1) as nat;
        lemma_field_vals_layout(d, types, j1, start, ps, psz);
        let acc = field_vals(d, types, j1, start, ps, psz)->0;
        let fv = field_vals(d, types, j, start, ps, psz)->0;
        assert forall|jj: nat| jj < j1 implies count_type(types, FTYPE_F32, jj) < count_type(types, FTYPE_F32, j1)
            || types[jj as int] != FTYPE_F32 by {
            lemma_count_mono(types, FTYPE_F32, jj + 1, j1);
        }
        assert forall|jj: nat| jj < j1 implies count_type(types, FTYPE_U32, jj) < count_type(types, FTYPE_U32, j1)
            || types[jj as int] != FTYPE_U32 by {
            lemma_count_mono(types, FTYPE_U32, jj + 1, j1);
        }
        assert forall|jj: nat| jj < j1 implies count_type(types, FTYPE_STR, jj) < count_type(types, FTYPE_STR, j1)
            || types[jj as int] != FTYPE_STR by {
            lemma_count_mono(types, FTYPE_STR, jj + 1, j1);
        }
        assert forall|jj: nat| #![trigger field_offset(types, jj)]
            jj < j && types[jj as int] == FTYPE_F32 implies fv.f[count_type(types, FTYPE_F32, jj) as int]
                == le32(d, start + field_offset(types, jj)) as u32 by {
            if jj < j1 {
                assert(fv.f[count_type(types, FTYPE_F32, jj) as int] == acc.f[count_type(types, FTYPE_F32, jj) as int]);
            }
        }
        assert forall|jj: nat| #![trigger field_offset(types, jj)]
            jj < j && types[jj as int] == FTYPE_U32 implies fv.u[count_type(types, FTYPE_U32, jj) as int]
                == le32(d, start + field_offset(types, jj)) as u32 by {
            if jj < j1 {
                assert(fv.u[count_type(types, FTYPE_U32, jj) as int] == acc.u[count_type(types, FTYPE_U32, jj) as int]);
            }
        }
        assert forall|jj: nat| #![trigger field_offset(types, jj)]
            jj < j && types[jj as int] == FTYPE_STR implies pool_str(
                d,
                ps,
                psz,
                le16(d, start + field_offset(types, jj)),
            ) == Some(fv.s[count_type(types, FTYPE_STR, jj) as int]) by {
            if jj < j1 {
                assert(fv.s[count_type(types, FTYPE_STR, jj) as int] == acc.s[count_type(types, FTYPE_STR, jj) as int]);
            }
        }
    }
}

proof fn lemma_num_field(d: Seq<u8>, np: int, types: Seq<u8>, t: u8, k: nat, vals: Seq<u32>)
    requires
        vals.len() == count_type(types, t, types.len()),
        forall|jj: nat|
            #![trigger field_offset(types, jj)]
            jj < types.len() && types[jj as int] == t ==> vals[count_type(types, t, jj) as int] == le32(
                d,
                np + 16 + field_offset(types, jj),
            ) as u32,
    ensures
        nth_or_zero(vals, k as int) == num_field(d, np, types, t, k),
{
    lemma_nth_field(types, t, 0, k);
    match nth_field_from(types, t, 0, k) {
        Some(j) => {
            lemma_count_mono(types, t, j + 1, types.len());
            assert(field_offset(types, j) == field_offset(types, j));
        },
        None => {},
    }
}

proof fn lemma_str_field(d: Seq<u8>, np: int, types: Seq<u8>, k: nat, ps: int, psz: int, vals: Seq<Seq<char>>)
    requires
        vals.len() == count_type(types, FTYPE_STR, types.len()),
        forall|jj: nat|
            #![trigger field_offset(types, jj)]
            jj < types.len() && types[jj as int] == FTYPE_STR ==> pool_str(
                d,
                ps,
                psz,
                le16(d, np + 16 + field_offset(types, jj)),
            ) == Some(vals[count_type(types, FTYPE_STR, jj) as int]),
    ensures
        nth_or_empty(vals, k as int) == str_field(d, np, types, k, ps, psz),
{
    lemma_nth_field(types, FTYPE_STR, 0, k);
    match nth_field_from(types, FTYPE_STR, 0, k) {
        Some(j) => {
            lemma_count_mono(types, FTYPE_STR, j + 1, types.len());
            assert(field_offset(types, j) == field_offset(types, j));
        },
        None => {},
    }
}

/// One node read from the bytes is the record [`node_record`] describes.
proof fn lemma_record_at_bytes(d: Seq<u8>, q: int, types: Seq<u8>, kind: u8, ps: int, psz: int)
    requires
        record_at(d, q, types, kind, ps, psz) is Some,
    ensures
        ({
            let (o, q2) = record_at(d, q, types, kind, ps, psz)->0;
            &&& q2 == q + node_size(types)
            &&& kind == PCRES_CREEP || kind == PCRES_THERMAL ==> o == Some(
                node_record(d, q, types, kind, ps, psz),
            )
            &&& kind != PCRES_CREEP && kind != PCRES_THERMAL ==> o is None
        }),
{
    let n = types.len();
    lemma_field_vals_layout(d, types, n, q + 16, ps, psz);
    let fv = field_vals(d, types, n, q + 16, ps, psz)->0;
    assert forall|jj: nat| #![trigger field_offset(types, jj)]
        jj < n && types[jj as int] == FTYPE_F32 implies fv.f[count_type(types, FTYPE_F32, jj) as int] == le32(
            d,
            q + 16 + field_offset(types, jj),
        ) as u32 by {}
    assert forall|jj: nat| #![trigger field_offset(types, jj)]
        jj < n && types[jj as int] == FTYPE_U32 implies fv.u[count_type(types, FTYPE_U32, jj) as int] == le32(
            d,
            q + 16 + field_offset(types, jj),
        ) as u32 by {}
    assert forall|jj: nat| #![trigger field_offset(types, jj)]
        jj < n && types[jj as int] == FTYPE_STR implies pool_str(
            d,
            ps,
            psz,
            le16(d, q + 16 + field_offset(types, jj)),
        ) == Some(fv.s[count_type(types, FTYPE_STR, jj) as int]) by {}
    lemma_num_field(d, q, types, FTYPE_F32, 0, fv.f);
    lemma_num_field(d, q, types, FTYPE_F32, 1, fv.f);
    lemma_num_field(d, q, types, FTYPE_F32, 2, fv.f);
    lemma_num_field(d, q, types, FTYPE_F32, 3, fv.f);
    lemma_num_field(d, q, types, FTYPE_F32, 4, fv.f);
    lemma_num_field(d, q, types, FTYPE_U32, 0, fv.u);
    lemma_str_field(d, q, types, 0, ps, psz, fv.s);
    lemma_str_field(d, q, types, 1, ps, psz, fv.s);
}

/// `k` nodes read from `p` sit [`node_size`] bytes apart, and each makes the
/// record [`node_record`] describes (for a creep or thermal file; none for
/// another kind).
proof fn lemma_records_from_bytes(d: Seq<u8>, p: int, k: nat, types: Seq<u8>, kind: u8, ps: int, psz: int)
    requires
        records_from(d, p, k, types, kind, ps, psz) is Some,
    ensures
        ({
            let (rs, q) = records_from(d, p, k, types, kind, ps, psz)->0;
            &&& q == p + k * node_size(types)
            &&& kind == PCRES_CREEP || kind == PCRES_THERMAL ==> rs.len() == k && forall|i: int|
                0 <= i < k ==> #[trigger] rs[i] == node_record(
                    d,
                    p + i * node_size(types),
                    types,
                    kind,
                    ps,
                    psz,
                )
            &&& kind != PCRES_CREEP && kind != PCRES_THERMAL ==> rs.len() == 0
        }),
    decreases k,
{
    if k > 0 {
        let k1 = (k - 1) as nat;
        lemma_records_from_bytes(d, p, k1, types, kind, ps, psz);
        let (rs1, q1) = records_from(d, p, k1, types, kind, ps, psz)->0;
        lemma_record_at_bytes(d, q1, types, kind, ps, psz);
        let sz = node_size(types);
        assert(q1 + sz == p + k * sz) by (nonlinear_arith)
            requires
                q1 == p + k1 * sz,
                k1 == k - 1,
        ;
        if kind == PCRES_CREEP || kind == PCRES_THERMAL {
            let (rs, _q) = records_from(d, p, k, types, kind, ps, psz)->0;
            assert(rs == rs1.push(node_record(d, q1, types, kind, ps, psz)));
            assert forall|i: int| 0 <= i < k implies #[trigger] rs[i] == node_record(
                d,
                p + i * sz,
                types,
                kind,
                ps,
                psz,
            ) by {
                if i < k1 {
                    assert(rs[i] == rs1[i]);
                }
            }
        }
    }
}

/// What a result file reads to, field by field from its bytes: a creep or
/// thermal file gives one record per node, in the order of the nodes (their
/// count is the `u32` at byte 10), and record `i` holds what node `i` holds
/// at [`pcres_node_pos`]: x, y, z and the node id from its header, and each
/// value from the field of the right type and rank ([`node_record`]) (for a
/// creep file, for instance, `uy_um` is the node's second `f32` field and
/// `uz_um` its third). A file of any other kind gives no record.
pub proof fn lemma_pcres_records_from_bytes(d: Seq<u8>)
    requires
        pcres_spec(d) matches Some(Ok(_)),
    ensures
        d[8] == PCRES_CREEP || d[8] == PCRES_THERMAL ==> pcres_records(d).len() == le32(d, 10),
        d[8] != PCRES_CREEP && d[8] != PCRES_THERMAL ==> pcres_records(d).len() == 0,
        forall|i: int|
            0 <= i < pcres_records(d).len() ==> #[trigger] pcres_records(d)[i] == node_record(
                d,
                pcres_node_pos(d, i),
                pcres_types(d),
                d[8],
                pcres_pool_start(d),
                pcres_pool_size(d),
            ),
{
    let (types, q) = field_types(d, 14, d[9] as nat)->0;
    let psz = le32(d, q);
    let ps = q + 4;
    lemma_records_from_bytes(d, ps + psz, le32(d, 10) as nat, types, d[8], ps, psz);
}

} // verus!
