use electronix::pcprep::{extract_body_attr, parse_pcprep_all_nodes, parse_trace_map};

const SAMPLE: &str = "$ ElectroniX point cloud\n\
*PCB_POINT_CLOUD, LAYER_NAME=\"TOP\"\n\
1.0, 2.0, 0.1, 0.75, T\n\
  3.5,4.5,0.2,0.5  \r\n\
# comment\n\
bad,row\n\
*POINT_CLOUD, BODY=\"comp_U1\", MATERIAL=\"Si\"\n\
5,6,7,B\n\
8,9,10\n\
*pcb_point_cloud, layer_name=\"Bottom\"\n\
11,12,13,0.9,S\n\
*NODES\n\
14,15,16,0.1\n";

#[test]
fn trace_map_reads_every_pcb_section() {
    let rows = parse_trace_map(SAMPLE);
    assert_eq!(rows.len(), 3);
    assert_eq!(rows[0].x, "1.0");
    assert_eq!(rows[0].y, "2.0");
    assert_eq!(rows[0].z, "0.1");
    assert_eq!(rows[0].metal_fraction, "0.75");
    assert_eq!(rows[0].face_tag, "T");
    assert_eq!(rows[1].x, "3.5");
    assert_eq!(rows[1].metal_fraction, "0.5");
    assert_eq!(rows[1].face_tag, "V");
    assert_eq!(rows[2].x, "11");
    assert_eq!(rows[2].face_tag, "S");
}

#[test]
fn trace_map_ignores_rows_outside_pcb_sections() {
    let rows = parse_trace_map("1,2,3,4\n*POINT_CLOUD, BODY=\"x\"\n5,6,7,8\n");
    assert_eq!(rows.len(), 0);
    assert_eq!(parse_trace_map("").len(), 0);
}

#[test]
fn all_nodes_name_rows_by_section() {
    let rows = parse_pcprep_all_nodes(SAMPLE);
    let names: Vec<(&str, &str, &str)> =
        rows.iter().map(|r| (r.x.as_str(), r.body_name.as_str(), r.face_tag.as_str())).collect();
    assert_eq!(
        names,
        vec![
            ("1.0", "PCB_TOP", "T"),
            ("3.5", "PCB_TOP", "V"),
            ("5", "comp_U1", "B"),
            ("8", "comp_U1", "V"),
            ("11", "PCB_Bottom", "S"),
        ]
    );
}

#[test]
fn pcb_section_without_layer_name_is_the_substrate() {
    let rows = parse_pcprep_all_nodes("*PCB_POINT_CLOUD\n1,2,3,0.5,T\n*PCB_POINT_CLOUD, LAYER_NAME=\"open\n4,5,6\n");
    assert_eq!(rows.len(), 2);
    assert_eq!(rows[0].body_name, "PCB_substrate");
    assert_eq!(rows[1].body_name, "PCB_open");
    assert_eq!(rows[1].face_tag, "V");
}

#[test]
fn point_cloud_without_body_attribute_closes_the_section() {
    let rows = parse_pcprep_all_nodes("*POINT_CLOUD, BODY=\"a\"\n1,2,3\n*POINT_CLOUD, MATERIAL=\"Cu\"\n4,5,6\n");
    assert_eq!(rows.len(), 1);
    assert_eq!(rows[0].body_name, "a");
}

#[test]
fn empty_body_name_skips_rows() {
    let rows = parse_pcprep_all_nodes("*POINT_CLOUD, BODY=\"\"\n1,2,3\n");
    assert_eq!(rows.len(), 0);
}

#[test]
fn body_attribute_is_extracted() {
    assert_eq!(extract_body_attr("*POINT_CLOUD, BODY=\"comp_U1\", MATERIAL=\"Si\""), "comp_U1");
    assert_eq!(extract_body_attr("*point_cloud, body=\"Solder_7\""), "Solder_7");
    assert_eq!(extract_body_attr("*POINT_CLOUD, MATERIAL=\"Si\""), "unknown");
    assert_eq!(extract_body_attr("*POINT_CLOUD, BODY=\"open"), "unknown");
    assert_eq!(extract_body_attr("*POINT_CLOUD, BODY=\"\""), "");
}

#[test]
fn comment_lines_change_nothing() {
    let plain = "*PCB_POINT_CLOUD\n1,2,3,4\n";
    let commented = "*PCB_POINT_CLOUD\n$ note\n\n   \n# other\n1,2,3,4\n";
    assert_eq!(parse_trace_map(plain).len(), parse_trace_map(commented).len());
    assert_eq!(parse_trace_map(commented)[0].x, "1");
    assert_eq!(parse_pcprep_all_nodes(plain).len(), parse_pcprep_all_nodes(commented).len());
}
