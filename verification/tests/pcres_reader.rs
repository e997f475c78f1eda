use electronix::pcres::{
    read_pcres_data, select_solder_records, try_read_pcres_data, PcresError, PcresRecord,
};

const MAGIC: &[u8] = b"PCRESV1\n";

fn le32(v: u32) -> [u8; 4] {
    v.to_le_bytes()
}

fn f(v: f32) -> [u8; 4] {
    v.to_le_bytes()
}

/// A result file: kind, field types, string pool, then node bytes.
fn file(kind: u8, types: &[(u8, &str)], n: u32, pool: &[u8], nodes: &[u8]) -> Vec<u8> {
    let mut d = MAGIC.to_vec();
    d.push(kind);
    d.push(types.len() as u8);
    d.extend_from_slice(&le32(n));
    for (t, name) in types {
        d.push(*t);
        d.push(name.len() as u8);
        d.extend_from_slice(name.as_bytes());
    }
    d.extend_from_slice(&le32(pool.len() as u32));
    d.extend_from_slice(pool);
    d.extend_from_slice(nodes);
    d
}

fn node_head(x: f32, y: f32, z: f32, id: u32) -> Vec<u8> {
    let mut v = Vec::new();
    v.extend_from_slice(&f(x));
    v.extend_from_slice(&f(y));
    v.extend_from_slice(&f(z));
    v.extend_from_slice(&le32(id));
    v
}

fn creep_file() -> Vec<u8> {
    // body_name (string), ux, uy, uz, mag, dw (f32)
    let types = [(2u8, "body"), (0, "ux"), (0, "uy"), (0, "uz"), (0, "mag"), (0, "dw")];
    let pool = b"solder_1\0pcb\0";
    let mut nodes = Vec::new();
    for (i, (off, base)) in [(0u16, 1.0f32), (9, 2.0)].iter().enumerate() {
        nodes.extend(node_head(*base, base + 0.5, base + 0.25, 10 + i as u32));
        nodes.extend_from_slice(&off.to_le_bytes());
        for k in 0..5 {
            nodes.extend_from_slice(&f(base * 10.0 + k as f32));
        }
    }
    file(0, &types, 2, pool, &nodes)
}

#[test]
fn creep_file_is_read_record_by_record() {
    let d = creep_file();
    let recs = match read_pcres_data(&d) {
        Ok(r) => r,
        Err(_) => panic!("creep file refused"),
    };
    assert_eq!(recs.len(), 2);
    match &recs[0] {
        PcresRecord::Creep { node_id, body_name, x, y, z, ux_um, dw_mpa, .. } => {
            assert_eq!(*node_id, 10);
            assert_eq!(body_name, "solder_1");
            assert_eq!(f32::from_bits(*x), 1.0);
            assert_eq!(f32::from_bits(*y), 1.5);
            assert_eq!(f32::from_bits(*z), 1.25);
            assert_eq!(f32::from_bits(*ux_um), 10.0);
            assert_eq!(f32::from_bits(*dw_mpa), 14.0);
        }
        _ => panic!("expected a creep record"),
    }
    match &recs[1] {
        PcresRecord::Creep { node_id, body_name, mag_um, .. } => {
            assert_eq!(*node_id, 11);
            assert_eq!(body_name, "pcb");
            assert_eq!(f32::from_bits(*mag_um), 23.0);
        }
        _ => panic!("expected a creep record"),
    }
}

#[test]
fn solder_selection_keeps_only_solder_joints() {
    let d = creep_file();
    let recs = read_pcres_data(&d).ok().unwrap();
    let solder = select_solder_records(recs);
    assert_eq!(solder.len(), 1);
    match &solder[0] {
        PcresRecord::Creep { body_name, node_id, .. } => {
            assert_eq!(body_name, "solder_1");
            assert_eq!(*node_id, 10);
        }
        _ => panic!("expected a creep record"),
    }
}

#[test]
fn thermal_file_reads_names_tags_and_material() {
    let types = [(2u8, "body"), (2, "face"), (0, "tmin"), (0, "tmax"), (0, "dt"), (1, "mat")];
    let pool = b"comp_U1\0T\0";
    let mut nodes = node_head(0.5, 0.25, 0.125, 7);
    nodes.extend_from_slice(&0u16.to_le_bytes());
    nodes.extend_from_slice(&8u16.to_le_bytes());
    nodes.extend_from_slice(&f(-55.0));
    nodes.extend_from_slice(&f(125.0));
    nodes.extend_from_slice(&f(180.0));
    nodes.extend_from_slice(&le32(9));
    let d = file(1, &types, 1, pool, &nodes);
    let recs = read_pcres_data(&d).ok().unwrap();
    assert_eq!(recs.len(), 1);
    match &recs[0] {
        PcresRecord::Thermal { node_id, body_name, face_tag, t_min_c, t_max_c, delta_t_c, material_id, .. } => {
            assert_eq!(*node_id, 7);
            assert_eq!(body_name, "comp_U1");
            assert_eq!(face_tag, "T");
            assert_eq!(f32::from_bits(*t_min_c), -55.0);
            assert_eq!(f32::from_bits(*t_max_c), 125.0);
            assert_eq!(f32::from_bits(*delta_t_c), 180.0);
            assert_eq!(*material_id, 9);
        }
        _ => panic!("expected a thermal record"),
    }
    // A thermal record is never a solder creep record.
    assert_eq!(select_solder_records(recs).len(), 0);
}

#[test]
fn missing_fields_default_to_zero_and_empty() {
    let d = file(0, &[], 1, b"", &node_head(1.0, 2.0, 3.0, 4));
    let recs = read_pcres_data(&d).ok().unwrap();
    match &recs[0] {
        PcresRecord::Creep { body_name, ux_um, dw_mpa, .. } => {
            assert_eq!(body_name, "");
            assert_eq!(*ux_um, 0);
            assert_eq!(*dw_mpa, 0);
        }
        _ => panic!("expected a creep record"),
    }
}

#[test]
fn unknown_field_types_skip_four_bytes() {
    let types = [(9u8, "pad"), (0, "ux")];
    let mut nodes = node_head(1.0, 2.0, 3.0, 4);
    nodes.extend_from_slice(&[0xAA; 4]);
    nodes.extend_from_slice(&f(6.5));
    let d = file(0, &types, 1, b"", &nodes);
    let recs = read_pcres_data(&d).ok().unwrap();
    match &recs[0] {
        PcresRecord::Creep { ux_um, .. } => assert_eq!(f32::from_bits(*ux_um), 6.5),
        _ => panic!("expected a creep record"),
    }
}

#[test]
fn unknown_kind_gives_no_records() {
    let d = file(5, &[], 2, b"", &[node_head(1.0, 2.0, 3.0, 4), node_head(1.0, 2.0, 3.0, 5)].concat());
    let recs = read_pcres_data(&d).ok().unwrap();
    assert_eq!(recs.len(), 0);
}

#[test]
fn bad_magic_is_refused_with_its_message() {
    let d = b"PCRESV2\n\0\0\0\0\0\0".to_vec();
    match try_read_pcres_data(&d) {
        Some(Err(e)) => assert_eq!(e.message(), "Not a valid PCRES file (bad magic)"),
        _ => panic!("bad magic accepted"),
    }
    assert!(matches!(try_read_pcres_data(b"PCR"), Some(Err(PcresError::BadMagic))));
}

#[test]
fn truncated_file_reads_out_of_bounds() {
    let d = creep_file();
    // Cut inside the last node: a read would fall past the end.
    assert!(try_read_pcres_data(&d[..d.len() - 3]).is_none());
    // Header only, with no node count.
    assert!(try_read_pcres_data(&d[..12]).is_none());
}

#[test]
fn empty_result_needs_no_pool_bytes() {
    let mut d = MAGIC.to_vec();
    d.extend_from_slice(&[0, 0]);
    d.extend_from_slice(&le32(0));
    d.extend_from_slice(&le32(1000));
    let recs = read_pcres_data(&d).ok().unwrap();
    assert_eq!(recs.len(), 0);
}

#[test]
fn pool_strings_are_decoded_lossily() {
    let types = [(2u8, "body")];
    let pool = [b's', 0xFF, b'x', 0];
    let mut nodes = node_head(1.0, 2.0, 3.0, 4);
    nodes.extend_from_slice(&0u16.to_le_bytes());
    let d = file(0, &types, 1, &pool, &nodes);
    let recs = read_pcres_data(&d).ok().unwrap();
    match &recs[0] {
        PcresRecord::Creep { body_name, .. } => assert_eq!(body_name, "s\u{FFFD}x"),
        _ => panic!("expected a creep record"),
    }
}

#[test]
fn pool_string_without_terminator_runs_to_pool_end() {
    // The string has no zero byte anywhere after it, so it ends with the pool.
    let types = [(2u8, "body")];
    let pool = b"abc";
    let mut nodes = node_head(1.0, 2.0, 3.0, 4);
    nodes.extend_from_slice(&1u16.to_le_bytes());
    let d = file(0, &types, 1, pool, &nodes);
    // Node bytes contain zeros after the pool, so the search stops there instead.
    let recs = read_pcres_data(&d).ok().unwrap();
    match &recs[0] {
        PcresRecord::Creep { body_name, .. } => assert_eq!(body_name, "bc"),
        _ => panic!("expected a creep record"),
    }
}

#[test]
fn selecting_solder_records_twice_changes_nothing() {
    let d = creep_file();
    let once = select_solder_records(read_pcres_data(&d).ok().unwrap());
    let n = once.len();
    let twice = select_solder_records(once);
    assert_eq!(twice.len(), n);
}
