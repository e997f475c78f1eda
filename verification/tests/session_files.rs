use electronix::paths::{board_stem, relative_path, workspace_root};
use electronix::session::{
    appdata_root, confirm_status, contains_model_file, last_session_id, missing_session_message,
    missing_status_message, probe_session, session_id_from, session_root, uuid_v4, SimFile,
};
use electronix::SessionDirs;

#[test]
fn session_dirs_sit_under_the_root() {
    let d = SessionDirs::from_root("abc", "/data/ElectroniX/abc");
    assert_eq!(d.session_id, "abc");
    assert_eq!(d.root, "/data/ElectroniX/abc");
    assert_eq!(d.models_dir, "/data/ElectroniX/abc/models");
    assert_eq!(d.pc_dir, "/data/ElectroniX/abc/point_cloud");
    assert_eq!(d.sim_base_dir, "/data/ElectroniX/abc/simulation");
}

#[test]
fn appdata_root_prefers_appdata_then_home() {
    assert_eq!(appdata_root(Some("/ad"), Some("/home/u"), false), "/ad/ElectroniX");
    assert_eq!(appdata_root(None, Some("/home/u"), false), "/home/u/.local/share/ElectroniX");
    assert_eq!(
        appdata_root(None, Some("/Users/u"), true),
        "/Users/u/Library/Application Support/ElectroniX"
    );
    assert_eq!(appdata_root(None, None, false), "./.local/share/ElectroniX");
    assert_eq!(session_root("/ad/ElectroniX", "s1"), "/ad/ElectroniX/s1");
}

#[test]
fn session_ids_mix_time_and_counter() {
    assert_eq!(session_id_from(0, 0), "00000000-0000-4000-9027-137f809f2971");
    assert_eq!(session_id_from(1700000000123456789, 5), "976fc893-c3aa-434e-89a6-bb94e3889ed4");
    assert_eq!(session_id_from((7u128 << 64) | 42, 3), "f4764525-7566-41fb-88a2-a28dc2bf3030");
}

#[test]
fn session_ids_of_two_counter_values_differ() {
    let a = session_id_from(1700000000123456789, 5);
    let b = session_id_from(1700000000123456789, 6);
    assert_eq!(b, "e8ec8a4a-eacc-43f7-8ecc-3fdcf27d6bb8");
    assert_ne!(a, b);
    assert_ne!(uuid_v4(7), uuid_v4(8));
}

#[test]
fn new_session_ids_have_the_id_shape() {
    let id = uuid_v4(1);
    assert_eq!(id.len(), 36);
    for (i, c) in id.chars().enumerate() {
        if i == 8 || i == 13 || i == 18 || i == 23 {
            assert_eq!(c, '-');
        } else {
            assert!(c.is_ascii_digit() || ('a'..='f').contains(&c));
        }
    }
    assert_eq!(id.chars().nth(14), Some('4'));
    assert!(matches!(id.chars().nth(19), Some('8') | Some('9') | Some('a') | Some('b')));
}

#[test]
fn last_session_file_gives_back_the_written_id() {
    let id = uuid_v4(3);
    assert_eq!(last_session_id(&format!("{}\n", id)), id);
    assert_eq!(last_session_id(&format!(" \t{}\r\n", id)), id);
}

#[test]
fn last_session_file_is_trimmed() {
    assert_eq!(last_session_id("  abc-123\r\n"), "abc-123");
    assert_eq!(last_session_id(""), "");
}

#[test]
fn missing_session_messages() {
    assert_eq!(missing_session_message("x"), "Session 'x' not found");
    assert_eq!(missing_status_message("x"), "Session x not found");
}

#[test]
fn board_stem_drops_folder_and_extension() {
    assert_eq!(board_stem("/boards/pbga256.cvg"), "pbga256");
    assert_eq!(board_stem("board.v2.xml"), "board.v2");
    assert_eq!(board_stem(""), "");
    assert_eq!(board_stem("/"), "");
}

#[test]
fn workspace_root_is_the_manifest_parent() {
    assert_eq!(workspace_root("/work/electronix/src-tauri"), Some("/work/electronix".to_string()));
    assert_eq!(workspace_root("/"), None);
}

#[test]
fn relative_path_walks_up_from_the_base() {
    assert_eq!(relative_path("/s/simulation/run1", "/s/point_cloud/b.pcprep"), "../../point_cloud/b.pcprep");
    assert_eq!(relative_path("/s/sim", "/s/sim/x.pcprep"), "x.pcprep");
    assert_eq!(relative_path("/a/b", "/a/b"), "");
    assert_eq!(relative_path("/a/b", "/a/b/"), "");
    assert_eq!(relative_path("/a/./b", "/a/c"), "../c");
}

#[test]
fn relative_path_without_common_start_keeps_the_target() {
    assert_eq!(relative_path("/s/sim", "rel/b.pcprep"), "rel/b.pcprep");
    assert_eq!(relative_path("rel", "/abs/b.pcprep"), "/abs/b.pcprep");
}

#[test]
fn model_file_is_found_by_extension() {
    let listing = vec!["/m/readme.txt".to_string(), "/m/board.glb".to_string()];
    assert!(contains_model_file(&listing));
    assert!(!contains_model_file(&vec!["/m/board.glb.bak".to_string()]));
    assert!(!contains_model_file(&vec![]));
}

fn sim(path: &str, t: Option<i128>) -> SimFile {
    SimFile { path: path.to_string(), modified: t }
}

#[test]
fn session_scan_finds_latest_results_and_companions() {
    let models = vec!["/r/models/a.txt".to_string(), "/r/models/b.glb".to_string(), "/r/models/c.glb".to_string()];
    let pc = vec!["/r/point_cloud/rpim_pc.log".to_string(), "/r/point_cloud/b.pcprep".to_string()];
    let simulation = vec![
        sim("/r/simulation/s1/s1_solder_fatigue.json", Some(10)),
        sim("/r/simulation/s2/s2_solder_fatigue.json", Some(30)),
        sim("/r/simulation/s3/s3_solder_fatigue.json", None),
        sim("/r/simulation/s4/s4_solder_fatigue.json", Some(30)),
        sim("/r/simulation/s5/s5.pcsim", Some(99)),
    ];
    let probe = probe_session(&models, &pc, &simulation);
    assert_eq!(probe.model_glb.as_deref(), Some("/r/models/b.glb"));
    assert_eq!(probe.pcprep.as_deref(), Some("/r/point_cloud/b.pcprep"));
    assert_eq!(probe.thermal_csv.as_deref(), Some("/r/point_cloud/b_thermal_summary.csv"));
    assert_eq!(probe.fatigue_json.as_deref(), Some("/r/simulation/s2/s2_solder_fatigue.json"));
    assert_eq!(probe.creep_pcres.as_deref(), Some("/r/simulation/s2/s2_creep.pcres"));
    let status = confirm_status(probe, false, true);
    assert_eq!(status.thermal_csv, None);
    assert_eq!(status.creep_pcres.as_deref(), Some("/r/simulation/s2/s2_creep.pcres"));
    assert_eq!(status.model_glb.as_deref(), Some("/r/models/b.glb"));
}

#[test]
fn empty_session_scan_finds_nothing() {
    let status = confirm_status(probe_session(&vec![], &vec![], &vec![]), true, true);
    assert!(status.model_glb.is_none());
    assert!(status.pcprep.is_none());
    assert!(status.thermal_csv.is_none());
    assert!(status.fatigue_json.is_none());
    assert!(status.creep_pcres.is_none());
}

#[test]
fn earlier_times_before_the_epoch_still_order() {
    let simulation = vec![sim("/a_solder_fatigue.json", Some(-5)), sim("/b_solder_fatigue.json", Some(-7))];
    let probe = probe_session(&vec![], &vec![], &simulation);
    assert_eq!(probe.fatigue_json.as_deref(), Some("/a_solder_fatigue.json"));
}

#[test]
fn trimming_removes_unicode_whitespace_like_std() {
    let samples = ["\u{3000}id\u{85}", "\t\u{A0}id \u{2028}", "\u{200B}id", " i d "];
    for s in samples {
        assert_eq!(last_session_id(s), s.trim());
    }
}

#[test]
fn joined_text_paths() {
    assert_eq!(electronix::paths::join_text("/ad/ElectroniX", "last_session.txt"), "/ad/ElectroniX/last_session.txt");
    assert_eq!(electronix::paths::join_text("/ad", "/abs"), "/abs");
}

#[test]
fn walking_the_relative_path_back_from_the_base_reaches_the_target() {
    let cases = [
        ("/s/simulation/run1", "/s/point_cloud/b.pcprep"),
        ("/s/sim", "/s/sim/x.pcprep"),
        ("/a/b/c", "/a/x"),
    ];
    for (base, target) in cases {
        let rel = relative_path(base, target);
        assert!(!rel.starts_with('/'));
        let joined = std::path::Path::new(base).join(&rel);
        let mut norm: Vec<String> = Vec::new();
        for c in joined.components() {
            let t = c.as_os_str().to_string_lossy().into_owned();
            if t == ".." {
                norm.pop();
            } else {
                norm.push(t);
            }
        }
        let want: Vec<String> = std::path::Path::new(target)
            .components()
            .map(|c| c.as_os_str().to_string_lossy().into_owned())
            .collect();
        assert_eq!(norm, want);
    }
    assert_eq!(relative_path("/a/b/c", "/a/x"), "../../x");
}
