use electronix::jobs::{
    auto_solve_plan, bin_candidates, build_pcsim_text, failure_message, generate_pc_plan,
    import_plan, log_file_text, pcsim_target, solver_plan, stderr_text,
};

#[test]
fn helper_binaries_are_looked_for_in_order() {
    let c = bin_candidates("rpim_pc", false, Some("/opt/app/electronix"), "/ws/src-tauri");
    assert_eq!(
        c,
        vec![
            "/opt/app/rpim_pc".to_string(),
            "/ws/target/release/rpim_pc".to_string(),
            "/ws/target/debug/rpim_pc".to_string(),
        ]
    );
    let w = bin_candidates("rpim_pc", true, None, "/ws/src-tauri");
    assert_eq!(w, vec!["/ws/target/release/rpim_pc.exe".to_string(), "/ws/target/debug/rpim_pc.exe".to_string()]);
    // An executable path without a parent stops the search.
    assert!(bin_candidates("x", false, Some("/"), "/ws/src-tauri").is_empty());
    assert_eq!(bin_candidates("x", false, Some("/bin/app"), "/"), vec!["/bin/x".to_string()]);
}

#[test]
fn import_plan_targets_the_session_models() {
    let p = import_plan("/ad", "s1", "/boards/pbga.cvg", "/ws/src-tauri");
    assert_eq!(p.models_dir, "/ad/s1/models");
    assert_eq!(p.glb_path, "/ad/s1/models/pbga.glb");
    assert_eq!(p.args, vec!["/boards/pbga.cvg".to_string(), "--glb".to_string(), "/ad/s1/models/pbga.glb".to_string()]);
    assert_eq!(p.public_glb.as_deref(), Some("/ws/frontend/public/model.glb"));
    assert_eq!(p.public_dir.as_deref(), Some("/ws/frontend/public"));
    let q = import_plan("/ad", "s1", "b.cvg", "/");
    assert!(q.public_glb.is_none());
    assert!(q.public_dir.is_none());
}

#[test]
fn point_cloud_plan_with_and_without_settings() {
    let d = generate_pc_plan("/ad", "s1", "/b/board.cvg", "  \n");
    assert_eq!(d.pc_dir, "/ad/s1/point_cloud");
    assert_eq!(d.log_path, "/ad/s1/point_cloud/rpim_pc.log");
    assert!(d.config_file.is_none());
    assert_eq!(d.args, vec!["/b/board.cvg".to_string(), "--out".to_string(), "/ad/s1/point_cloud/board".to_string()]);
    assert_eq!(d.result.pcprep_path, "/ad/s1/point_cloud/board.pcprep");
    assert_eq!(d.result.config_path, "/ad/s1/point_cloud/board_rpim_config.json");
    assert_eq!(d.result.materials_path, "/ad/s1/point_cloud/board_rpim_materials.json");
    let c = generate_pc_plan("/ad", "s1", "/b/board.cvg", "{\"k\":1}");
    assert_eq!(c.config_file.as_deref(), Some("/ad/s1/point_cloud/board_rpim_input.json"));
    assert_eq!(
        c.args,
        vec![
            "/b/board.cvg".to_string(),
            "/ad/s1/point_cloud/board_rpim_input.json".to_string(),
            "--out".to_string(),
            "/ad/s1/point_cloud/board".to_string(),
        ]
    );
}

#[test]
fn deck_target_refers_to_the_point_cloud_relatively() {
    let t = pcsim_target("/ad", "s1", "TC1", "/ad/s1/point_cloud/board.pcprep");
    assert_eq!(t.sim_dir, "/ad/s1/simulation/TC1");
    assert_eq!(t.pcsim_path, "/ad/s1/simulation/TC1/TC1.pcsim");
    assert_eq!(t.pcprep_rel, "../../point_cloud/board.pcprep");
}

#[test]
fn deck_text_is_laid_out_by_keyword() {
    let pts = vec![("0.0000".to_string(), "25.0000".to_string()), ("6.0000".to_string(), "-55.0000".to_string())];
    let text = build_pcsim_text("../../point_cloud/b.pcprep", "25", "TC-B", &pts, 1, "0.5", "0.3");
    let expected = "# ElectroniX PCSIM \u{2014} Simulation Load Deck\n\
# Generated by ElectroniX Reliability Workbench\n#\n\
*INCLUDE, PCPREP=\"../../point_cloud/b.pcprep\"\n\n\
*AMBIENT_TEMPERATURE, UNIT=CELSIUS\n25\n\n\
*CURVE, NAME=\"TC-B\", X=Time_min, Y=Temperature_C\n\
0.0000, 25.0000\n6.0000, -55.0000\n\n\
*CYCLES\n1\n\n\
*PAD_DIAMETER\n0.5\n\n\
*SOLDER_HEIGHT\n0.3\n\n\
*CREEP, CURVE=\"TC-B\"\n\n\
*END\n";
    assert_eq!(text, expected);
    let many = build_pcsim_text("p", "0", "c", &vec![], 8000, "1", "2");
    assert!(many.contains("*CYCLES\n8000\n\n"));
}

#[test]
fn solver_plan_names_the_fatigue_result_by_deck() {
    let p = solver_plan("/ad", "s1", "TC1", "/ad/s1/simulation/TC1/TC1.pcsim");
    assert_eq!(p.sim_dir, "/ad/s1/simulation/TC1");
    assert_eq!(p.log_path, "/ad/s1/simulation/TC1/rpim_solver.log");
    assert_eq!(
        p.args,
        vec!["/ad/s1/simulation/TC1/TC1.pcsim".to_string(), "--out-dir".to_string(), "/ad/s1/simulation/TC1".to_string()]
    );
    assert_eq!(p.fatigue_path, "/ad/s1/simulation/TC1/TC1_solder_fatigue.json");
}

#[test]
fn quick_solve_plan_chains_the_three_steps() {
    let p = auto_solve_plan("/ad", "s1", "/b/board.cvg", "quick");
    assert_eq!(p.pc_dir, "/ad/s1/point_cloud");
    assert_eq!(p.pc_log, "/ad/s1/point_cloud/rpim_pc.log");
    assert_eq!(p.pc_args, vec!["/b/board.cvg".to_string(), "--out".to_string(), "/ad/s1/point_cloud/board".to_string()]);
    assert_eq!(p.result.pcprep_path, "/ad/s1/point_cloud/board.pcprep");
    assert_eq!(p.missing_pcprep, "rpim_pc did not produce /ad/s1/point_cloud/board.pcprep");
    assert_eq!(p.sim_dir, "/ad/s1/simulation/quick");
    assert_eq!(p.pcsim_path, "/ad/s1/simulation/quick/quick.pcsim");
    assert_eq!(p.pcprep_rel, "../../point_cloud/board.pcprep");
    assert_eq!(p.solver_log, "/ad/s1/simulation/quick/rpim_solver.log");
    assert_eq!(
        p.solver_args,
        vec!["/ad/s1/simulation/quick/quick.pcsim".to_string(), "--out-dir".to_string(), "/ad/s1/simulation/quick".to_string()]
    );
    assert_eq!(p.result.fatigue_path, "/ad/s1/simulation/quick/quick_solder_fatigue.json");
}

#[test]
fn helper_output_texts() {
    let lines = vec!["a".to_string(), "b".to_string()];
    assert_eq!(stderr_text(&lines), "a\nb\n");
    assert_eq!(log_file_text(&lines, "  warn\n"), "a\nb\nwarn");
    assert_eq!(log_file_text(&vec![], ""), "\n");
    assert_eq!(failure_message("solver", Some(2), "boom\n"), "solver failed (exit Some(2))\nboom");
    assert_eq!(failure_message("solver", Some(-3), ""), "solver failed (exit Some(-3))\n");
    assert_eq!(failure_message("import", None, " x "), "import failed (exit None)\nx");
    assert_eq!(failure_message("s", Some(i32::MIN), ""), "s failed (exit Some(-2147483648))\n");
}
