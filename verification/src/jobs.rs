use vstd::prelude::*;

use crate::paths::{
    join, parent, path_join_spec, path_parent_spec, relative_path, relative_path_spec, stem_chars,
    stem_or_empty,
};
use crate::text::{chars_of, dec, dec_u64, push_all, string_of, string_views, trim, trim_chars};

verus! {

// ─── Small text helpers ──────────────────────────────────────────────────────

/// `a` followed by `b`.
fn cat(a: &Vec<char>, b: &Vec<char>) -> (r: Vec<char>)
    ensures
        r@ == a@ + b@,
{
    let mut r: Vec<char> = Vec::new();
    push_all(&mut r, a);
    push_all(&mut r, b);
    r
}

/// `a` followed by the text `b`.
fn cat_str(a: &Vec<char>, b: &str) -> (r: Vec<char>)
    ensures
        r@ == a@ + b@,
{
    cat(a, &chars_of(b))
}

/// `a` joined with the path part `b`.
fn join_str(a: &Vec<char>, b: &str) -> (r: Vec<char>)
    ensures
        r@ == path_join_spec(a@, b@),
{
    join(a, &chars_of(b))
}

/// `<root>/<session>/<sub>`, joined as paths.
pub open spec fn session_sub(appdata_root: Seq<char>, session_id: Seq<char>, sub: Seq<char>) -> Seq<char> {
    path_join_spec(path_join_spec(appdata_root, session_id), sub)
}

/// `<root>/<session>/simulation/<sim name>`.
pub open spec fn sim_dir_spec(appdata_root: Seq<char>, session_id: Seq<char>, sim_name: Seq<char>) -> Seq<char> {
    path_join_spec(session_sub(appdata_root, session_id, "simulation"@), sim_name)
}

fn session_sub_exec(appdata_root: &str, session_id: &str, sub: &str) -> (r: Vec<char>)
    ensures
        r@ == session_sub(appdata_root@, session_id@, sub@),
{
    join_str(&join_str(&chars_of(appdata_root), session_id), sub)
}

fn sim_dir_exec(appdata_root: &str, session_id: &str, sim_name: &str) -> (r: Vec<char>)
    ensures
        r@ == sim_dir_spec(appdata_root@, session_id@, sim_name@),
{
    join_str(&session_sub_exec(appdata_root, session_id, "simulation"), sim_name)
}

/// A list of texts.
fn strings(parts: Vec<Vec<char>>) -> (r: Vec<String>)
    ensures
        string_views(r@) == parts@.map_values(|v: Vec<char>| v@),
{
    let mut r: Vec<String> = Vec::new();
    let n = parts.len();
    for i in 0..n
        invariant
            n == parts@.len(),
            string_views(r@) == parts@.map_values(|v: Vec<char>| v@).take(i as int),
    {
        let s = string_of(&parts[i]);
        let ghost old_r = string_views(r@);
        let ghost sv = s@;
        r.push(s);
        proof {
            assert(string_views(r@) =~= old_r.push(sv));
            assert(parts@.map_values(|v: Vec<char>| v@).take(i + 1) =~= parts@.map_values(
                |v: Vec<char>| v@,
            ).take(i as int).push(parts@[i as int]@));
        }
    }
    proof {
        assert(parts@.map_values(|v: Vec<char>| v@).take(n as int) =~= parts@.map_values(
            |v: Vec<char>| v@,
        ));
    }
    r
}

fn two(a: Vec<char>, b: Vec<char>) -> (r: Vec<Vec<char>>)
    ensures
        r@.map_values(|v: Vec<char>| v@) == seq![a@, b@],
{
    let mut r: Vec<Vec<char>> = Vec::new();
    r.push(a);
    r.push(b);
    proof {
        assert(r@.map_values(|v: Vec<char>| v@) =~= seq![a@, b@]);
    }
    r
}

fn three(a: Vec<char>, b: Vec<char>, c: Vec<char>) -> (r: Vec<Vec<char>>)
    ensures
        r@.map_values(|v: Vec<char>| v@) == seq![a@, b@, c@],
{
    let mut r: Vec<Vec<char>> = Vec::new();
    r.push(a);
    r.push(b);
    r.push(c);
    proof {
        assert(r@.map_values(|v: Vec<char>| v@) =~= seq![a@, b@, c@]);
    }
    r
}

fn four(a: Vec<char>, b: Vec<char>, c: Vec<char>, d: Vec<char>) -> (r: Vec<Vec<char>>)
    ensures
        r@.map_values(|v: Vec<char>| v@) == seq![a@, b@, c@, d@],
{
    let mut r: Vec<Vec<char>> = Vec::new();
    r.push(a);
    r.push(b);
    r.push(c);
    r.push(d);
    proof {
        assert(r@.map_values(|v: Vec<char>| v@) =~= seq![a@, b@, c@, d@]);
    }
    r
}

// ─── Locating the helper binaries ────────────────────────────────────────────

/// The file name of helper binary `name` on the target (`.exe` on Windows).
pub open spec fn exe_file_name(name: Seq<char>, windows: bool) -> Seq<char> {
    if windows {
        name + ".exe"@
    } else {
        name
    }
}

/// Where helper binary `name` is looked for, in order: beside the running
/// executable (when its path is known; when that path has no parent, nowhere
/// at all), then under the workspace's `target/release/` and `target/debug/`
/// (when the manifest folder has a parent).
pub open spec fn bin_candidates_spec(
    name: Seq<char>,
    windows: bool,
    current_exe: Option<Seq<char>>,
    manifest_dir: Seq<char>,
) -> Seq<Seq<char>> {
    let exe = exe_file_name(name, windows);
    let beside: Option<Seq<Seq<char>>> = match current_exe {
        None => Some(Seq::empty()),
        Some(e) => match path_parent_spec(e) {
            None => None,
            Some(d) => Some(seq![path_join_spec(d, exe)]),
        },
    };
    match beside {
        None => Seq::empty(),
        Some(c) => match path_parent_spec(manifest_dir) {
            None => c,
            Some(ws) => c + seq![
                path_join_spec(path_join_spec(path_join_spec(ws, "target"@), "release"@), exe),
                path_join_spec(path_join_spec(path_join_spec(ws, "target"@), "debug"@), exe),
            ],
        },
    }
}

/// The places to look for helper binary `name`, in order; the binary is the
/// first of them that exists.
///
/// Each candidate names the platform's executable file, `name` with `.exe`
/// on Windows and `name` itself elsewhere: first the one beside the running
/// executable, then those in the workspace's release and debug builds.
pub fn bin_candidates(name: &str, windows: bool, current_exe: Option<&str>, manifest_dir: &str) -> (r:
    Vec<String>)
    ensures
        string_views(r@) == bin_candidates_spec(
            name@,
            windows,
            match current_exe {
                Some(e) => Some(e@),
                None => None,
            },
            manifest_dir@,
        ),
        ({
            let file = if windows {
                name@ + ".exe"@
            } else {
                name@
            };
            let beside: int = if current_exe is Some {
                1
            } else {
                0
            };
            &&& current_exe matches Some(e) ==> match path_parent_spec(e@) {
                Some(d) => r@.len() >= 1 && r@[0]@ == path_join_spec(d, file),
                None => r@.len() == 0,
            }
            &&& (current_exe matches Some(e) ==> path_parent_spec(e@) is Some) ==> match path_parent_spec(
                manifest_dir@,
            ) {
                Some(ws) => {
                    &&& r@.len() == beside + 2
                    &&& r@[beside]@ == path_join_spec(
                        path_join_spec(path_join_spec(ws, "target"@), "release"@),
                        file,
                    )
                    &&& r@[beside + 1]@ == path_join_spec(
                        path_join_spec(path_join_spec(ws, "target"@), "debug"@),
                        file,
                    )
                },
                None => r@.len() == beside,
            }
        }),
{
    let exe = if windows {
        cat_str(&chars_of(name), ".exe")
    } else {
        chars_of(name)
    };
    let mut c: Vec<Vec<char>> = Vec::new();
    match current_exe {
        Some(e) => match parent(&chars_of(e)) {
            None => {
                let r: Vec<String> = Vec::new();
                proof {
                    assert(string_views(r@) =~= Seq::<Seq<char>>::empty());
                }
                return r;
            },
            Some(d) => {
                c.push(join(&d, &exe));
            },
        },
        None => {},
    }
    let ghost beside = c@.map_values(|v: Vec<char>| v@);
    match parent(&chars_of(manifest_dir)) {
        None => {},
        Some(ws) => {
            let target = join_str(&ws, "target");
            c.push(join(&join_str(&target, "release"), &exe));
            c.push(join(&join_str(&target, "debug"), &exe));
        },
    }
    proof {
        assert(c@.map_values(|v: Vec<char>| v@) =~= bin_candidates_spec(
            name@,
            windows,
            match current_exe {
                Some(e) => Some(e@),
                None => None,
            },
            manifest_dir@,
        ));
    }
    let out = strings(c);
    proof {
        assert forall|k: int| 0 <= k < out@.len() implies string_views(out@)[k] == #[trigger] out@[k]@ by {}
    }
    out
}

// ─── Import (CVG → GLB) ──────────────────────────────────────────────────────

/// What an import does, computed ahead.
pub struct ImportPlan {
    /// `<session>/models`, created first.
    pub models_dir: String,
    /// `<session>/models/<board>.glb`, the converter's output.
    pub glb_path: String,
    /// The converter's arguments.
    pub args: Vec<String>,
    /// `<workspace>/frontend/public/model.glb`, where the model is also copied
    /// for the development viewer, when the workspace is known.
    pub public_glb: Option<String>,
    /// The folder of `public_glb`, created before the copy.
    pub public_dir: Option<String>,
}

/// `<workspace>/frontend/public/model.glb`.
pub open spec fn public_glb_spec(ws: Seq<char>) -> Seq<char> {
    path_join_spec(path_join_spec(path_join_spec(ws, "frontend"@), "public"@), "model.glb"@)
}

/// Plan the conversion of CVG file `cvg_path` to GLB for session `session_id`.
///
/// Writes to `session/models/<board>.glb` and, during development, also to
/// `<workspace>/frontend/public/model.glb` (`manifest_dir` is the backend's
/// manifest folder, whose parent is the workspace).
pub fn import_plan(appdata_root: &str, session_id: &str, cvg_path: &str, manifest_dir: &str) -> (r:
    ImportPlan)
    ensures
        r.models_dir@ == session_sub(appdata_root@, session_id@, "models"@),
        r.glb_path@ == path_join_spec(
            session_sub(appdata_root@, session_id@, "models"@),
            stem_or_empty(cvg_path@) + ".glb"@,
        ),
        string_views(r.args@) == seq![cvg_path@, "--glb"@, r.glb_path@],
        match path_parent_spec(manifest_dir@) {
            Some(ws) => r.public_glb matches Some(p) && p@ == public_glb_spec(ws) && match path_parent_spec(
                public_glb_spec(ws),
            ) {
                Some(d) => r.public_dir matches Some(q) && q@ == d,
                None => r.public_dir is None,
            },
            None => r.public_glb is None && r.public_dir is None,
        },
{
    let models = session_sub_exec(appdata_root, session_id, "models");
    let stem = stem_chars(&chars_of(cvg_path));
    let glb = join(&models, &cat_str(&stem, ".glb"));
    let args = strings(three(chars_of(cvg_path), chars_of("--glb"), glb.clone()));
    let (public_glb, public_dir) = match parent(&chars_of(manifest_dir)) {
        Some(ws) => {
            let p = join_str(&join_str(&join_str(&ws, "frontend"), "public"), "model.glb");
            let d = match parent(&p) {
                Some(d) => Some(string_of(&d)),
                None => None,
            };
            (Some(string_of(&p)), d)
        },
        None => (None, None),
    };
    ImportPlan { models_dir: string_of(&models), glb_path: string_of(&glb), args, public_glb, public_dir }
}

// ─── Point cloud generation ──────────────────────────────────────────────────

/// The files a point-cloud run produces.
pub struct GeneratePcResult {
    pub pcprep_path: String,
    pub config_path: String,
    pub materials_path: String,
}

/// What a point-cloud run does, computed ahead.
pub struct PcPlan {
    /// `<session>/point_cloud`, created first.
    pub pc_dir: String,
    /// The run's log file.
    pub log_path: String,
    /// Where the settings are written first, when there are any.
    pub config_file: Option<String>,
    /// The generator's arguments.
    pub args: Vec<String>,
    /// The paths handed back.
    pub result: GeneratePcResult,
}

/// `<session>/point_cloud/<board>`, the base of every generated file.
pub open spec fn pc_out_base(appdata_root: Seq<char>, session_id: Seq<char>, cvg_path: Seq<char>) -> Seq<char> {
    path_join_spec(session_sub(appdata_root, session_id, "point_cloud"@), stem_or_empty(cvg_path))
}

/// Plan a point-cloud run for CVG file `cvg_path` in session `session_id`.
///
/// `config_json` is the serialised settings JSON; blank (only whitespace)
/// means the generator's defaults. Otherwise it is written next to the output
/// as `<board>_rpim_input.json` and passed to the generator.
pub fn generate_pc_plan(appdata_root: &str, session_id: &str, cvg_path: &str, config_json: &str) -> (r:
    PcPlan)
    ensures
        r.pc_dir@ == session_sub(appdata_root@, session_id@, "point_cloud"@),
        r.log_path@ == path_join_spec(r.pc_dir@, "rpim_pc.log"@),
        trim(config_json@).len() == 0 ==> r.config_file is None && string_views(r.args@) == seq![
            cvg_path@,
            "--out"@,
            pc_out_base(appdata_root@, session_id@, cvg_path@),
        ],
        trim(config_json@).len() != 0 ==> (r.config_file matches Some(j) && j@ == path_join_spec(
            r.pc_dir@,
            stem_or_empty(cvg_path@) + "_rpim_input.json"@,
        ) && string_views(r.args@) == seq![
            cvg_path@,
            j@,
            "--out"@,
            pc_out_base(appdata_root@, session_id@, cvg_path@),
        ]),
        r.result.pcprep_path@ == pc_out_base(appdata_root@, session_id@, cvg_path@) + ".pcprep"@,
        r.result.config_path@ == pc_out_base(appdata_root@, session_id@, cvg_path@)
            + "_rpim_config.json"@,
        r.result.materials_path@ == pc_out_base(appdata_root@, session_id@, cvg_path@)
            + "_rpim_materials.json"@,
{
    let pc_dir = session_sub_exec(appdata_root, session_id, "point_cloud");
    let stem = stem_chars(&chars_of(cvg_path));
    let out_base = join(&pc_dir, &stem);
    let log = join_str(&pc_dir, "rpim_pc.log");
    let blank = trim_chars(&chars_of(config_json)).len() == 0;
    let (config_file, args) = if blank {
        (None, strings(three(chars_of(cvg_path), chars_of("--out"), out_base.clone())))
    } else {
        let json = join(&pc_dir, &cat_str(&stem, "_rpim_input.json"));
        let args = strings(four(chars_of(cvg_path), json.clone(), chars_of("--out"), out_base.clone()));
        (Some(string_of(&json)), args)
    };
    PcPlan {
        pc_dir: string_of(&pc_dir),
        log_path: string_of(&log),
        config_file,
        args,
        result: GeneratePcResult {
            pcprep_path: string_of(&cat_str(&out_base, ".pcprep")),
            config_path: string_of(&cat_str(&out_base, "_rpim_config.json")),
            materials_path: string_of(&cat_str(&out_base, "_rpim_materials.json")),
        },
    }
}

// ─── The .pcsim load deck ────────────────────────────────────────────────────

/// Where a load deck is written.
pub struct PcsimTarget {
    /// `<session>/simulation/<sim name>`, created first.
    pub sim_dir: String,
    /// `<sim dir>/<sim name>.pcsim`.
    pub pcsim_path: String,
    /// The point-cloud path as the deck refers to it: relative to the deck's folder.
    pub pcprep_rel: String,
}

/// Where the deck of simulation `sim_name` in session `session_id` goes, and
/// how it refers to the point cloud at `pcprep_path` (relative to the deck's
/// folder, so that the session folder can move).
pub fn pcsim_target(appdata_root: &str, session_id: &str, sim_name: &str, pcprep_path: &str) -> (r:
    PcsimTarget)
    ensures
        r.sim_dir@ == sim_dir_spec(appdata_root@, session_id@, sim_name@),
        r.pcsim_path@ == path_join_spec(r.sim_dir@, sim_name@ + ".pcsim"@),
        r.pcprep_rel@ == relative_path_spec(r.sim_dir@, pcprep_path@),
{
    let sim_dir = sim_dir_exec(appdata_root, session_id, sim_name);
    let pcsim = join(&sim_dir, &cat_str(&chars_of(sim_name), ".pcsim"));
    let sd = string_of(&sim_dir);
    let rel = relative_path(sd.as_str(), pcprep_path);
    PcsimTarget { sim_dir: sd, pcsim_path: string_of(&pcsim), pcprep_rel: rel }
}

/// The views of a list of text pairs.
pub open spec fn pair_views(s: Seq<(String, String)>) -> Seq<(Seq<char>, Seq<char>)> {
    s.map_values(|p: (String, String)| (p.0@, p.1@))
}

/// The profile table of a deck: one `time, temperature` line per point.
pub open spec fn profile_lines(pts: Seq<(Seq<char>, Seq<char>)>) -> Seq<char>
    decreases pts.len(),
{
    if pts.len() == 0 {
        Seq::empty()
    } else {
        profile_lines(pts.drop_last()) + pts.last().0 + ", "@ + pts.last().1 + "\n"@
    }
}

/// The text of a load deck. The numbers come as their text: `ambient`,
/// `pad_d` and `solder_h` as displayed, each profile point with four decimals.
pub open spec fn pcsim_text(
    pcprep_path: Seq<char>,
    ambient: Seq<char>,
    curve_name: Seq<char>,
    profile: Seq<(Seq<char>, Seq<char>)>,
    n_cycles: nat,
    pad_d: Seq<char>,
    solder_h: Seq<char>,
) -> Seq<char> {
    "# ElectroniX PCSIM \u{2014} Simulation Load Deck\n"@
        + "# Generated by ElectroniX Reliability Workbench\n#\n"@
        + "*INCLUDE, PCPREP=\""@ + pcprep_path + "\"\n\n"@
        + "*AMBIENT_TEMPERATURE, UNIT=CELSIUS\n"@ + ambient + "\n\n"@
        + "*CURVE, NAME=\""@ + curve_name + "\", X=Time_min, Y=Temperature_C\n"@
        + profile_lines(profile) + "\n"@
        + "*CYCLES\n"@ + dec(n_cycles) + "\n\n"@
        + "*PAD_DIAMETER\n"@ + pad_d + "\n\n"@
        + "*SOLDER_HEIGHT\n"@ + solder_h + "\n\n"@
        + "*CREEP, CURVE=\""@ + curve_name + "\"\n\n"@
        + "*END\n"@
}

/// Build the text of a `.pcsim` load deck from the text of its numbers.
pub fn build_pcsim_text(
    pcprep_path: &str,
    ambient: &str,
    curve_name: &str,
    profile: &Vec<(String, String)>,
    n_cycles: u64,
    pad_d: &str,
    solder_h: &str,
) -> (r: String)
    ensures
        r@ == pcsim_text(
            pcprep_path@,
            ambient@,
            curve_name@,
            pair_views(profile@),
            n_cycles as nat,
            pad_d@,
            solder_h@,
        ),
{
    let mut s = chars_of("# ElectroniX PCSIM \u{2014} Simulation Load Deck\n");
    s = cat_str(&s, "# Generated by ElectroniX Reliability Workbench\n#\n");
    s = cat_str(&s, "*INCLUDE, PCPREP=\"");
    s = cat_str(&s, pcprep_path);
    s = cat_str(&s, "\"\n\n");
    s = cat_str(&s, "*AMBIENT_TEMPERATURE, UNIT=CELSIUS\n");
    s = cat_str(&s, ambient);
    s = cat_str(&s, "\n\n");
    s = cat_str(&s, "*CURVE, NAME=\"");
    s = cat_str(&s, curve_name);
    s = cat_str(&s, "\", X=Time_min, Y=Temperature_C\n");
    let ghost head = s@;
    let n = profile.len();
    let ghost pts = pair_views(profile@);
    assert(pts.take(0) =~= Seq::<(Seq<char>, Seq<char>)>::empty());
    for i in 0..n
        invariant
            n == profile@.len(),
            pts == pair_views(profile@),
            s@ == head + profile_lines(pts.take(i as int)),
    {
        proof {
            assert(pts.take(i + 1).drop_last() =~= pts.take(i as int));
            assert(pts.take(i + 1).last() == pts[i as int]);
        }
        s = cat_str(&s, profile[i].0.as_str());
        s = cat_str(&s, ", ");
        s = cat_str(&s, profile[i].1.as_str());
        s = cat_str(&s, "\n");
    }
    proof {
        assert(pts.take(n as int) =~= pts);
    }
    s = cat_str(&s, "\n");
    s = cat_str(&s, "*CYCLES\n");
    s = cat(&s, &dec_u64(n_cycles));
    s = cat_str(&s, "\n\n");
    s = cat_str(&s, "*PAD_DIAMETER\n");
    s = cat_str(&s, pad_d);
    s = cat_str(&s, "\n\n");
    s = cat_str(&s, "*SOLDER_HEIGHT\n");
    s = cat_str(&s, solder_h);
    s = cat_str(&s, "\n\n");
    s = cat_str(&s, "*CREEP, CURVE=\"");
    s = cat_str(&s, curve_name);
    s = cat_str(&s, "\"\n\n");
    s = cat_str(&s, "*END\n");
    string_of(&s)
}

// ─── Solver ──────────────────────────────────────────────────────────────────

/// What a solver run does, computed ahead.
pub struct SolverPlan {
    /// `<session>/simulation/<sim name>`, created first; outputs land here.
    pub sim_dir: String,
    /// The run's log file.
    pub log_path: String,
    /// The solver's arguments.
    pub args: Vec<String>,
    /// The fatigue result handed back.
    pub fatigue_path: String,
}

/// Plan a solver run on deck `pcsim_path` of simulation `sim_name`.
/// The solver names its result `<deck stem>_solder_fatigue.json`.
pub fn solver_plan(appdata_root: &str, session_id: &str, sim_name: &str, pcsim_path: &str) -> (r:
    SolverPlan)
    ensures
        r.sim_dir@ == sim_dir_spec(appdata_root@, session_id@, sim_name@),
        r.log_path@ == path_join_spec(r.sim_dir@, "rpim_solver.log"@),
        string_views(r.args@) == seq![pcsim_path@, "--out-dir"@, r.sim_dir@],
        r.fatigue_path@ == r.sim_dir@ + "/"@ + stem_or_empty(pcsim_path@) + "_solder_fatigue.json"@,
{
    let sim_dir = sim_dir_exec(appdata_root, session_id, sim_name);
    let log = join_str(&sim_dir, "rpim_solver.log");
    let args = strings(three(chars_of(pcsim_path), chars_of("--out-dir"), sim_dir.clone()));
    let stem = stem_chars(&chars_of(pcsim_path));
    let fatigue = cat_str(&cat(&cat_str(&sim_dir, "/"), &stem), "_solder_fatigue.json");
    SolverPlan {
        sim_dir: string_of(&sim_dir),
        log_path: string_of(&log),
        args,
        fatigue_path: string_of(&fatigue),
    }
}

/// The paths a quick solve hands back.
pub struct SolverAutoResult {
    pub fatigue_path: String,
    pub pcprep_path: String,
}

/// What a quick solve does, computed ahead: a point-cloud run with default
/// settings, a default deck, and a solver run.
pub struct AutoPlan {
    /// `<session>/point_cloud`, created first.
    pub pc_dir: String,
    /// The point-cloud run's log file.
    pub pc_log: String,
    /// The point-cloud generator's arguments.
    pub pc_args: Vec<String>,
    /// The message when the generator produced no point cloud.
    pub missing_pcprep: String,
    /// `<session>/simulation/<sim name>`, created after the point cloud.
    pub sim_dir: String,
    /// Where the default deck is written.
    pub pcsim_path: String,
    /// The point cloud as the deck refers to it.
    pub pcprep_rel: String,
    /// The solver run's log file.
    pub solver_log: String,
    /// The solver's arguments.
    pub solver_args: Vec<String>,
    /// The paths handed back.
    pub result: SolverAutoResult,
}

/// Plan a quick solve of CVG file `cvg_path` as simulation `sim_name`.
pub fn auto_solve_plan(appdata_root: &str, session_id: &str, cvg_path: &str, sim_name: &str) -> (r:
    AutoPlan)
    ensures
        r.pc_dir@ == session_sub(appdata_root@, session_id@, "point_cloud"@),
        r.pc_log@ == path_join_spec(r.pc_dir@, "rpim_pc.log"@),
        string_views(r.pc_args@) == seq![
            cvg_path@,
            "--out"@,
            pc_out_base(appdata_root@, session_id@, cvg_path@),
        ],
        r.result.pcprep_path@ == pc_out_base(appdata_root@, session_id@, cvg_path@) + ".pcprep"@,
        r.missing_pcprep@ == "rpim_pc did not produce "@ + r.result.pcprep_path@,
        r.sim_dir@ == sim_dir_spec(appdata_root@, session_id@, sim_name@),
        r.pcsim_path@ == path_join_spec(r.sim_dir@, sim_name@ + ".pcsim"@),
        r.pcprep_rel@ == relative_path_spec(r.sim_dir@, r.result.pcprep_path@),
        r.solver_log@ == path_join_spec(r.sim_dir@, "rpim_solver.log"@),
        string_views(r.solver_args@) == seq![r.pcsim_path@, "--out-dir"@, r.sim_dir@],
        r.result.fatigue_path@ == r.sim_dir@ + "/"@ + sim_name@ + "_solder_fatigue.json"@,
{
    let pc_dir = session_sub_exec(appdata_root, session_id, "point_cloud");
    let stem = stem_chars(&chars_of(cvg_path));
    let out_base = join(&pc_dir, &stem);
    let pc_log = join_str(&pc_dir, "rpim_pc.log");
    let pc_args = strings(three(chars_of(cvg_path), chars_of("--out"), out_base.clone()));
    let pcprep = cat_str(&out_base, ".pcprep");
    let missing = cat(&chars_of("rpim_pc did not produce "), &pcprep);
    let target = pcsim_target(appdata_root, session_id, sim_name, string_of(&pcprep).as_str());
    let sim_dir = chars_of(target.sim_dir.as_str());
    let solver_log = join_str(&sim_dir, "rpim_solver.log");
    let solver_args = strings(
        three(chars_of(target.pcsim_path.as_str()), chars_of("--out-dir"), sim_dir.clone()),
    );
    let fatigue = cat_str(&cat_str(&cat_str(&sim_dir, "/"), sim_name), "_solder_fatigue.json");
    AutoPlan {
        pc_dir: string_of(&pc_dir),
        pc_log: string_of(&pc_log),
        pc_args,
        missing_pcprep: string_of(&missing),
        sim_dir: target.sim_dir,
        pcsim_path: target.pcsim_path,
        pcprep_rel: target.pcprep_rel,
        solver_log: string_of(&solver_log),
        solver_args,
        result: SolverAutoResult { fatigue_path: string_of(&fatigue), pcprep_path: string_of(&pcprep) },
    }
}

// ─── Texts of a helper run ───────────────────────────────────────────────────

/// The lines, each followed by a newline.
pub open spec fn terminated(lines: Seq<Seq<char>>) -> Seq<char>
    decreases lines.len(),
{
    if lines.len() == 0 {
        Seq::empty()
    } else {
        terminated(lines.drop_last()) + lines.last() + "\n"@
    }
}

/// The lines joined with newlines between them.
pub open spec fn joined(lines: Seq<Seq<char>>) -> Seq<char>
    decreases lines.len(),
{
    if lines.len() == 0 {
        Seq::empty()
    } else if lines.len() == 1 {
        lines[0]
    } else {
        joined(lines.drop_last()) + "\n"@ + lines.last()
    }
}

/// The error output of a helper: each line followed by a newline.
pub fn stderr_text(lines: &Vec<String>) -> (r: String)
    ensures
        r@ == terminated(string_views(lines@)),
{
    let ghost ls = string_views(lines@);
    let mut s: Vec<char> = Vec::new();
    let n = lines.len();
    assert(ls.take(0) =~= Seq::<Seq<char>>::empty());
    for i in 0..n
        invariant
            n == lines@.len(),
            ls == string_views(lines@),
            s@ == terminated(ls.take(i as int)),
    {
        proof {
            assert(ls.take(i + 1).drop_last() =~= ls.take(i as int));
            assert(ls.take(i + 1).last() == lines@[i as int]@);
        }
        s = cat_str(&cat_str(&s, lines[i].as_str()), "\n");
    }
    proof {
        assert(ls.take(n as int) =~= ls);
    }
    string_of(&s)
}

/// The text of a helper's log file: its output lines joined by newlines, a
/// newline, and its error output trimmed.
pub fn log_file_text(lines: &Vec<String>, stderr: &str) -> (r: String)
    ensures
        r@ == joined(string_views(lines@)) + "\n"@ + trim(stderr@),
{
    let ghost ls = string_views(lines@);
    let mut s: Vec<char> = Vec::new();
    let n = lines.len();
    assert(ls.take(0) =~= Seq::<Seq<char>>::empty());
    for i in 0..n
        invariant
            n == lines@.len(),
            ls == string_views(lines@),
            s@ == joined(ls.take(i as int)),
    {
        proof {
            assert(ls.take(i + 1).drop_last() =~= ls.take(i as int));
            assert(ls.take(i + 1).last() == lines@[i as int]@);
            if i == 0 {
                assert(ls.take(1)[0] == ls[0]);
            }
        }
        if i == 0 {
            s = chars_of(lines[i].as_str());
            proof {
                assert(ls.take(1) =~= seq![ls[0]]);
            }
        } else {
            s = cat_str(&cat_str(&s, "\n"), lines[i].as_str());
        }
    }
    proof {
        assert(ls.take(n as int) =~= ls);
    }
    let t = trim_chars(&chars_of(stderr));
    string_of(&cat(&cat_str(&s, "\n"), &t))
}

/// The debug form of an optional exit code: `None` or `Some(<code>)`.
pub open spec fn exit_code_text(code: Option<i32>) -> Seq<char> {
    match code {
        None => "None"@,
        Some(c) => "Some("@ + (if c < 0 {
            "-"@ + dec((-c) as nat)
        } else {
            dec(c as nat)
        }) + ")"@,
    }
}

/// The message of a failed helper run: `<step> failed (exit <code>)`, a
/// newline, and its error output trimmed.
pub fn failure_message(step: &str, code: Option<i32>, stderr: &str) -> (r: String)
    ensures
        r@ == step@ + " failed (exit "@ + exit_code_text(code) + ")\n"@ + trim(stderr@),
{
    let code_text = match code {
        None => chars_of("None"),
        Some(c) => {
            let digits = if c < 0 {
                let a: u64 = (-(c as i64)) as u64;
                cat(&chars_of("-"), &dec_u64(a))
            } else {
                dec_u64(c as u64)
            };
            cat_str(&cat(&chars_of("Some("), &digits), ")")
        },
    };
    let t = trim_chars(&chars_of(stderr));
    let m = cat(&cat_str(&cat(&cat_str(&chars_of(step), " failed (exit "), &code_text), ")\n"), &t);
    string_of(&m)
}

} // verus!
