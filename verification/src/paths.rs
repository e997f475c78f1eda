use vstd::prelude::*;

use crate::text::{chars_of, replace_all, replace_chars, string_of, string_views, views};

verus! {

// ─── std::path, as the target platform defines it ────────────────────────────
//
// Path syntax (which characters separate components, what a prefix is) is
// fixed by the platform the crate is built for, so each of these results is a
// function of the path text alone in any one build. Each is named rather than
// written out: the rules take pages in std's source.

/// What std's `Path::join` gives for `base` joined with `part`, as text.
pub uninterp spec fn path_join_spec(base: Seq<char>, part: Seq<char>) -> Seq<char>;

/// What std's `Path::parent` gives for a path, as text.
pub uninterp spec fn path_parent_spec(p: Seq<char>) -> Option<Seq<char>>;

/// What std's `Path::file_stem` gives for a path, as text.
pub uninterp spec fn path_file_stem_spec(p: Seq<char>) -> Option<Seq<char>>;

/// What std's `Path::extension` gives for a path, as text.
pub uninterp spec fn path_extension_spec(p: Seq<char>) -> Option<Seq<char>>;

/// The text of each item that std's `Path::components` yields for a path, in order.
pub uninterp spec fn path_components_spec(p: Seq<char>) -> Seq<Seq<char>>;

/// Whether the item at position `i` of std's `Path::components` of `a` and the
/// item at position `j` of those of `b` are equal `Component`s, as std's `==`
/// on them decides (which, on Windows, takes drive letters without case).
pub uninterp spec fn path_component_eq_spec(a: Seq<char>, i: nat, b: Seq<char>, j: nat) -> bool;

/// A single file or folder name that no platform's path syntax reads as
/// anything else: not empty, not `.` or `..`, and holding none of `/`, `\\`,
/// `:` (which starts a Windows drive prefix) and `?` (a Windows verbatim prefix).
pub open spec fn is_plain_name(t: Seq<char>) -> bool {
    &&& t.len() > 0
    &&& t != seq!['.']
    &&& t != seq!['.', '.']
    &&& forall|i: int|
        0 <= i < t.len() ==> #[trigger] t[i] != '/' && t[i] != '\\' && t[i] != ':' && t[i] != '?'
}

/// A step of a relative walk: the parent folder `..` or a plain name.
pub open spec fn is_walk_item(t: Seq<char>) -> bool {
    t == seq!['.', '.'] || is_plain_name(t)
}

/// Every item is a step of a relative walk.
pub open spec fn all_walk_items(s: Seq<Seq<char>>) -> bool {
    forall|i: int| 0 <= i < s.len() ==> is_walk_item(#[trigger] s[i])
}

/// Calls std's `Path::join` and renders the result with `to_string_lossy`.
/// Trusted: the result is the named [`path_join_spec`] of the two texts
/// (joining valid UTF-8 texts yields valid UTF-8, so nothing is lost).
/// Also trusted, from std's documentation of `PathBuf::push` (a relative path
/// without prefix or root is appended after a separator, and the empty path
/// is simply replaced) and of `Path::components` (which splits at the
/// platform's separators, `/` everywhere and also `\\` on Windows, and drops
/// repeated separators and interior `.`), for walk steps, which carry no
/// prefix or root on any platform:
/// - the empty path joined with a walk step has that step as its one component;
/// - a path made only of walk steps, joined with a walk step, gains that step
///   as its last component;
/// - a path made only of walk steps keeps its components when each `\\` in
///   its text is written `/` (on Unix its text holds no `\\`; on Windows both
///   are separators).
#[verifier::external_body]
pub(crate) fn path_join_str(base: &str, part: &str) -> (r: String)
    ensures
        r@ == path_join_spec(base@, part@),
        base@.len() == 0 && is_walk_item(part@) ==> path_components_spec(r@) == seq![part@],
        all_walk_items(path_components_spec(base@)) && is_walk_item(part@)
            ==> path_components_spec(r@) == path_components_spec(base@).push(part@),
        all_walk_items(path_components_spec(r@)) ==> path_components_spec(
            replace_all(r@, seq!['\\'], seq!['/']),
        ) == path_components_spec(r@),
{
    std::path::Path::new(base).join(part).to_string_lossy().into_owned()
}

/// Calls std's `Path::parent` and renders the result as text.
/// Trusted: the result is the named [`path_parent_spec`] of the text.
#[verifier::external_body]
pub(crate) fn path_parent_str(p: &str) -> (r: Option<String>)
    ensures
        match r {
            Some(s) => path_parent_spec(p@) == Some(s@),
            None => path_parent_spec(p@) is None,
        },
{
    match std::path::Path::new(p).parent() {
        Some(q) => Some(q.to_string_lossy().into_owned()),
        None => None,
    }
}

/// Calls std's `Path::file_stem` and renders the result as text.
/// Trusted: the result is the named [`path_file_stem_spec`] of the text.
#[verifier::external_body]
pub(crate) fn path_file_stem_str(p: &str) -> (r: Option<String>)
    ensures
        match r {
            Some(s) => path_file_stem_spec(p@) == Some(s@),
            None => path_file_stem_spec(p@) is None,
        },
{
    match std::path::Path::new(p).file_stem() {
        Some(q) => Some(q.to_string_lossy().into_owned()),
        None => None,
    }
}

/// Calls std's `Path::extension` and renders the result as text.
/// Trusted: the result is the named [`path_extension_spec`] of the text; and,
/// as std documents, a path with an extension has a file name, hence a file
/// stem, and (ending in neither a root, a prefix nor nothing) a parent.
#[verifier::external_body]
pub(crate) fn path_extension_str(p: &str) -> (r: Option<String>)
    ensures
        match r {
            Some(s) => path_extension_spec(p@) == Some(s@),
            None => path_extension_spec(p@) is None,
        },
        r is Some ==> path_file_stem_spec(p@) is Some && path_parent_spec(p@) is Some,
{
    match std::path::Path::new(p).extension() {
        Some(q) => Some(q.to_string_lossy().into_owned()),
        None => None,
    }
}

/// Calls std's `Path::components` and renders each component with
/// `as_os_str().to_string_lossy()`.
/// Trusted: the texts are the named [`path_components_spec`] of the path.
#[verifier::external_body]
pub(crate) fn path_components_str(p: &str) -> (r: Vec<String>)
    ensures
        string_views(r@) == path_components_spec(p@),
{
    let mut v = Vec::new();
    for c in std::path::Path::new(p).components() {
        v.push(c.as_os_str().to_string_lossy().into_owned());
    }
    v
}

/// Compares, with std's `==` on `Component`, the item at position `i` of
/// `Path::components` of `a` with the item at position `j` of those of `b`.
/// Trusted: the result is the named [`path_component_eq_spec`] of the four
/// arguments; and an item compared with itself (same path text, same
/// position) is equal, `==` on `Component` being derived, hence reflexive.
#[verifier::external_body]
pub(crate) fn path_component_eq(a: &str, i: usize, b: &str, j: usize) -> (r: bool)
    ensures
        r == path_component_eq_spec(a@, i as nat, b@, j as nat),
        (a@ == b@ && i == j) ==> r,
{
    std::path::Path::new(a).components().nth(i) == std::path::Path::new(b).components().nth(j)
}

// ─── The same, on character vectors ──────────────────────────────────────────

/// `base` joined with `part`.
pub fn join(base: &Vec<char>, part: &Vec<char>) -> (r: Vec<char>)
    ensures
        r@ == path_join_spec(base@, part@),
        base@.len() == 0 && is_walk_item(part@) ==> path_components_spec(r@) == seq![part@],
        all_walk_items(path_components_spec(base@)) && is_walk_item(part@)
            ==> path_components_spec(r@) == path_components_spec(base@).push(part@),
        all_walk_items(path_components_spec(r@)) ==> path_components_spec(
            replace_all(r@, seq!['\\'], seq!['/']),
        ) == path_components_spec(r@),
{
    let b = string_of(base);
    let p = string_of(part);
    let j = path_join_str(b.as_str(), p.as_str());
    chars_of(j.as_str())
}

/// The text of path `base` joined with `part`.
pub fn join_text(base: &str, part: &str) -> (r: String)
    ensures
        r@ == path_join_spec(base@, part@),
{
    path_join_str(base, part)
}

/// The parent of a path.
pub fn parent(p: &Vec<char>) -> (r: Option<Vec<char>>)
    ensures
        match r {
            Some(s) => path_parent_spec(p@) == Some(s@),
            None => path_parent_spec(p@) is None,
        },
{
    let s = string_of(p);
    match path_parent_str(s.as_str()) {
        Some(q) => Some(chars_of(q.as_str())),
        None => None,
    }
}

/// The file stem of a path.
pub fn file_stem(p: &Vec<char>) -> (r: Option<Vec<char>>)
    ensures
        match r {
            Some(s) => path_file_stem_spec(p@) == Some(s@),
            None => path_file_stem_spec(p@) is None,
        },
{
    let s = string_of(p);
    match path_file_stem_str(s.as_str()) {
        Some(q) => Some(chars_of(q.as_str())),
        None => None,
    }
}

/// The extension of a path.
pub fn extension(p: &Vec<char>) -> (r: Option<Vec<char>>)
    ensures
        match r {
            Some(s) => path_extension_spec(p@) == Some(s@),
            None => path_extension_spec(p@) is None,
        },
        r is Some ==> path_file_stem_spec(p@) is Some && path_parent_spec(p@) is Some,
{
    let s = string_of(p);
    match path_extension_str(s.as_str()) {
        Some(q) => Some(chars_of(q.as_str())),
        None => None,
    }
}

/// The component texts of a path.
pub fn components(p: &Vec<char>) -> (r: Vec<Vec<char>>)
    ensures
        views(r@) == path_components_spec(p@),
{
    let s = string_of(p);
    let cs = path_components_str(s.as_str());
    let mut r: Vec<Vec<char>> = Vec::new();
    let n = cs.len();
    for i in 0..n
        invariant
            n == cs@.len(),
            views(r@) == string_views(cs@).take(i as int),
    {
        let c = chars_of(cs[i].as_str());
        assert(c@ == string_views(cs@)[i as int]);
        let ghost old_r = r@;
        let ghost cv = c@;
        r.push(c);
        proof {
            assert(r@ == old_r.push(c));
            assert(views(r@) =~= views(old_r).push(cv));
            assert(views(r@) =~= string_views(cs@).take(i + 1));
        }
    }
    proof {
        assert(string_views(cs@).take(n as int) =~= string_views(cs@));
    }
    r
}

/// The stem of a path, or nothing when it has none (`file_stem().unwrap_or_default()`).
pub open spec fn stem_or_empty(p: Seq<char>) -> Seq<char> {
    match path_file_stem_spec(p) {
        Some(s) => s,
        None => Seq::<char>::empty(),
    }
}

/// The stem of a path, or an empty text when it has none.
pub fn stem_chars(p: &Vec<char>) -> (r: Vec<char>)
    ensures
        r@ == stem_or_empty(p@),
{
    match file_stem(p) {
        Some(s) => s,
        None => Vec::new(),
    }
}

// ─── Path helpers of the workbench ───────────────────────────────────────────

/// Extract the file stem from a CVG path for use as the board base name.
///
/// An input path without a file name gives the empty name.
pub fn board_stem(cvg_path: &str) -> (r: String)
    ensures
        r@ == stem_or_empty(cvg_path@),
{
    let p = chars_of(cvg_path);
    let s = stem_chars(&p);
    string_of(&s)
}

/// Locate the project workspace root on disk: the parent of the directory
/// that holds the backend's manifest (given as `manifest_dir`).
pub fn workspace_root(manifest_dir: &str) -> (r: Option<String>)
    ensures
        match r {
            Some(s) => path_parent_spec(manifest_dir@) == Some(s@),
            None => path_parent_spec(manifest_dir@) is None,
        },
{
    path_parent_str(manifest_dir)
}

/// The first position, from `k` on and below `m`, at which the components of
/// paths `a` and `b` differ (`m` where none does).
pub open spec fn first_mismatch(a: Seq<char>, b: Seq<char>, k: nat, m: nat) -> nat
    decreases m - k,
{
    if k >= m || !path_component_eq_spec(a, k, b, k) {
        k
    } else {
        first_mismatch(a, b, k + 1, m)
    }
}

/// The number of leading components on which paths `a` and `b` agree.
pub open spec fn common_prefix_len(a: Seq<char>, b: Seq<char>) -> nat {
    let la = path_components_spec(a).len();
    let lb = path_components_spec(b).len();
    first_mismatch(a, b, 0, if la <= lb { la } else { lb })
}

/// `start` with each item of `parts` joined on in turn (`PathBuf::push`, which is `join`).
pub open spec fn join_all(start: Seq<char>, parts: Seq<Seq<char>>) -> Seq<char>
    decreases parts.len(),
{
    if parts.len() == 0 {
        start
    } else {
        path_join_spec(join_all(start, parts.drop_last()), parts.last())
    }
}

/// `n` copies of the parent-directory component `..`.
pub open spec fn ups(n: nat) -> Seq<Seq<char>> {
    Seq::new(n, |i: int| seq!['.', '.'])
}

/// The items that lead from directory `base_dir` to `target`: a `..` for
/// each component of the base past those the two share, then the target's
/// own components past them.
pub open spec fn relative_parts(base_dir: Seq<char>, target: Seq<char>) -> Seq<Seq<char>> {
    let bp = path_components_spec(base_dir);
    let tp = path_components_spec(target);
    let common = common_prefix_len(base_dir, target);
    ups((bp.len() - common) as nat) + tp.subrange(common as int, tp.len() as int)
}

/// The relative path from directory `base_dir` to `target`, as text with `/`
/// separators; the target unchanged when the two share no leading component.
pub open spec fn relative_path_spec(base_dir: Seq<char>, target: Seq<char>) -> Seq<char> {
    if common_prefix_len(base_dir, target) == 0 {
        target
    } else {
        replace_all(
            join_all(Seq::<char>::empty(), relative_parts(base_dir, target)),
            seq!['\\'],
            seq!['/'],
        )
    }
}

/// The first mismatch from `k` on lies between `k` and `m`.
proof fn lemma_first_mismatch_bound(a: Seq<char>, b: Seq<char>, k: nat, m: nat)
    requires
        k <= m,
    ensures
        k <= first_mismatch(a, b, k, m) <= m,
    decreases m - k,
{
    if k < m && path_component_eq_spec(a, k, b, k) {
        lemma_first_mismatch_bound(a, b, k + 1, m);
    }
}

/// Every component at a position from `k0` on, before the first mismatch,
/// agrees.
proof fn lemma_first_mismatch_agree(a: Seq<char>, b: Seq<char>, k0: nat, m: nat)
    ensures
        forall|k: nat| k0 <= k < first_mismatch(a, b, k0, m) ==> path_component_eq_spec(a, k, b, k),
    decreases m - k0,
{
    if k0 < m && path_component_eq_spec(a, k0, b, k0) {
        lemma_first_mismatch_agree(a, b, k0 + 1, m);
    }
}

/// Lexical normalisation of a list of components: each `..` removes the item
/// before it (a `..` with nothing before it stays).
pub open spec fn lexical_norm(s: Seq<Seq<char>>) -> Seq<Seq<char>>
    decreases s.len(),
{
    if s.len() == 0 {
        s
    } else {
        let prev = lexical_norm(s.drop_last());
        if s.last() == seq!['.', '.'] && prev.len() > 0 {
            prev.drop_last()
        } else {
            prev.push(s.last())
        }
    }
}

/// No item is the parent-folder step `..`.
pub open spec fn no_parent_steps(s: Seq<Seq<char>>) -> bool {
    forall|i: int| 0 <= i < s.len() ==> #[trigger] s[i] != seq!['.', '.']
}

/// Items after which nothing is removed are kept as they are.
proof fn lemma_norm_append(x: Seq<Seq<char>>, y: Seq<Seq<char>>)
    requires
        no_parent_steps(y),
    ensures
        lexical_norm(x + y) == lexical_norm(x) + y,
    decreases y.len(),
{
    if y.len() == 0 {
        assert(x + y =~= x);
        assert(lexical_norm(x) + y =~= lexical_norm(x));
    } else {
        let y1 = y.drop_last();
        assert(no_parent_steps(y1)) by {
            assert forall|i: int| 0 <= i < y1.len() implies #[trigger] y1[i] != seq!['.', '.'] by {
                assert(y1[i] == y[i]);
            }
        }
        lemma_norm_append(x, y1);
        assert((x + y).drop_last() =~= x + y1);
        assert((x + y).last() == y[y.len() - 1]);
        assert(y[y.len() - 1] != seq!['.', '.']);
        assert(lexical_norm(x) + y =~= (lexical_norm(x) + y1).push(y.last()));
    }
}

/// `m` parent steps after items without any remove the last `m` of them.
proof fn lemma_norm_ups(s: Seq<Seq<char>>, m: nat)
    requires
        no_parent_steps(s),
        m <= s.len(),
    ensures
        lexical_norm(s + ups(m)) == s.take(s.len() - m),
    decreases m,
{
    if m == 0 {
        assert(s + ups(0) =~= s);
        lemma_norm_append(Seq::<Seq<char>>::empty(), s);
        assert(Seq::<Seq<char>>::empty() + s =~= s);
        assert(lexical_norm(Seq::<Seq<char>>::empty()) + s =~= s);
        assert(s.take(s.len() as int) =~= s);
    } else {
        let m1 = (m - 1) as nat;
        lemma_norm_ups(s, m1);
        assert((s + ups(m)).drop_last() =~= s + ups(m1));
        assert((s + ups(m)).last() == seq!['.', '.']);
        assert(s.take(s.len() - m1).drop_last() =~= s.take(s.len() - m));
    }
}

/// Walking back from the base leads to the target: when neither path has a
/// `..` component, the base's components followed by the items that
/// [`relative_parts`] gives, normalised lexically (each `..` removing the item
/// before it), are the base's first `c` components and then the target's
/// components from `c` on, where `c` is the number of leading components on
/// which the two agree (each of those `c` equal, as std's `==` on `Component`
/// decides, to the target's own).
pub proof fn lemma_relative_parts_lead_back(base_dir: Seq<char>, target: Seq<char>)
    requires
        no_parent_steps(path_components_spec(base_dir)),
        no_parent_steps(path_components_spec(target)),
    ensures
        ({
            let bp = path_components_spec(base_dir);
            let tp = path_components_spec(target);
            let c = common_prefix_len(base_dir, target);
            &&& c <= bp.len() && c <= tp.len()
            &&& lexical_norm(bp + relative_parts(base_dir, target)) == bp.take(c as int) + tp.skip(
                c as int,
            )
            &&& forall|k: nat| k < c ==> path_component_eq_spec(base_dir, k, target, k)
        }),
{
    let bp = path_components_spec(base_dir);
    let tp = path_components_spec(target);
    let lim: nat = if bp.len() <= tp.len() { bp.len() } else { tp.len() };
    let c = common_prefix_len(base_dir, target);
    lemma_first_mismatch_bound(base_dir, target, 0, lim);
    lemma_first_mismatch_agree(base_dir, target, 0, lim);
    let n = (bp.len() - c) as nat;
    let rest = tp.subrange(c as int, tp.len() as int);
    assert(no_parent_steps(rest)) by {
        assert forall|i: int| 0 <= i < rest.len() implies #[trigger] rest[i] != seq!['.', '.'] by {
            assert(rest[i] == tp[c + i]);
        }
    }
    assert(bp + relative_parts(base_dir, target) =~= (bp + ups(n)) + rest);
    lemma_norm_append(bp + ups(n), rest);
    lemma_norm_ups(bp, n);
    assert(rest =~= tp.skip(c as int));
}

/// A prefix of walk steps is walk steps.
proof fn lemma_walk_take(s: Seq<Seq<char>>, n: int)
    requires
        0 <= n <= s.len(),
    ensures
        all_walk_items(s) ==> all_walk_items(s.take(n)),
{
    if all_walk_items(s) {
        assert forall|i: int| 0 <= i < s.take(n).len() implies is_walk_item(#[trigger] s.take(n)[i]) by {
            assert(s.take(n)[i] == s[i]);
        }
    }
}

/// Compute a relative path from `base_dir` to `target`.
/// Falls back to the target as given when no relative path can be determined
/// (the two share no leading component).
///
/// From a directory to itself the relative path is empty. Otherwise, when
/// the two share a leading component and every item leading from one to the
/// other is a plain name or `..`, the components of the result are exactly
/// those items ([`relative_parts`]).
pub fn relative_path(base_dir: &str, target: &str) -> (r: String)
    ensures
        r@ == relative_path_spec(base_dir@, target@),
        base_dir@ == target@ && path_components_spec(target@).len() > 0 ==> r@.len() == 0,
        common_prefix_len(base_dir@, target@) > 0 && relative_parts(base_dir@, target@).len() > 0
            && all_walk_items(relative_parts(base_dir@, target@))
            ==> path_components_spec(r@) == relative_parts(base_dir@, target@),
{
    let bv = chars_of(base_dir);
    let tv = chars_of(target);
    let bp = components(&bv);
    let tp = components(&tv);
    let ghost bs = views(bp@);
    let ghost ts = views(tp@);
    // Length of the agreeing prefix.
    let lim: usize = if bp.len() <= tp.len() { bp.len() } else { tp.len() };
    let mut common: usize = 0;
    proof {
        lemma_first_mismatch_bound(base_dir@, target@, 0, lim as nat);
    }
    while common < lim && path_component_eq(base_dir, common, target, common)
        invariant
            common <= lim,
            first_mismatch(base_dir@, target@, common as nat, lim as nat)
                == common_prefix_len(base_dir@, target@),
        decreases lim - common,
    {
        common += 1;
    }
    assert(common == common_prefix_len(base_dir@, target@));
    proof {
        lemma_first_mismatch_bound(base_dir@, target@, 0, lim as nat);
    }
    if common == 0 {
        return string_of(&tv);
    }
    let n_up = bp.len() - common;
    let ghost parts = ups(n_up as nat) + ts.subrange(common as int, ts.len() as int);
    assert(parts == relative_parts(base_dir@, target@));
    let ghost walk = all_walk_items(parts);
    let mut rel: Vec<char> = Vec::new();
    let mut dotdot: Vec<char> = Vec::new();
    dotdot.push('.');
    dotdot.push('.');
    let mut k: usize = 0;
    assert(parts.take(0) =~= Seq::<Seq<char>>::empty());
    while k < n_up
        invariant
            k <= n_up,
            n_up + common == bs.len(),
            dotdot@ == seq!['.', '.'],
            parts == ups(n_up as nat) + ts.subrange(common as int, ts.len() as int),
            walk == all_walk_items(parts),
            rel@ == join_all(Seq::<char>::empty(), parts.take(k as int)),
            k == 0 ==> rel@.len() == 0,
            walk && k > 0 ==> path_components_spec(rel@) == parts.take(k as int),
            walk && k > 0 ==> path_components_spec(replace_all(rel@, seq!['\\'], seq!['/']))
                == path_components_spec(rel@),
        decreases n_up - k,
    {
        proof {
            lemma_walk_take(parts, k as int);
        }
        rel = join(&rel, &dotdot);
        proof {
            assert(parts.take(k + 1).drop_last() =~= parts.take(k as int));
            assert(parts.take(k + 1).last() == seq!['.', '.']);
            if walk {
                assert(parts.take(k + 1) =~= parts.take(k as int).push(seq!['.', '.']));
                if k == 0 {
                    assert(parts.take(1) =~= seq![seq!['.', '.']]);
                }
                lemma_walk_take(parts, k + 1);
            }
        }
        k += 1;
    }
    let m = tp.len();
    let mut j: usize = common;
    while j < m
        invariant
            common <= j <= m == ts.len(),
            n_up + common == bs.len(),
            ts == views(tp@),
            parts == ups(n_up as nat) + ts.subrange(common as int, ts.len() as int),
            walk == all_walk_items(parts),
            rel@ == join_all(Seq::<char>::empty(), parts.take(n_up + j - common)),
            n_up + j - common == 0 ==> rel@.len() == 0,
            walk && n_up + j - common > 0 ==> path_components_spec(rel@) == parts.take(
                n_up + j - common,
            ),
            walk && n_up + j - common > 0 ==> path_components_spec(
                replace_all(rel@, seq!['\\'], seq!['/']),
            ) == path_components_spec(rel@),
        decreases m - j,
    {
        let ghost cnt: int = n_up + j - common;
        proof {
            lemma_walk_take(parts, cnt);
            assert(parts[cnt] == ts[j as int]);
            assert(tp[j as int]@ == ts[j as int]);
        }
        rel = join(&rel, &tp[j]);
        proof {
            assert(parts.take(cnt + 1).drop_last() =~= parts.take(cnt));
            assert(parts.take(cnt + 1).last() == ts[j as int]);
            if walk {
                assert(is_walk_item(parts[cnt]));
                assert(parts.take(cnt + 1) =~= parts.take(cnt).push(ts[j as int]));
                if cnt == 0 {
                    assert(parts.take(1) =~= seq![ts[j as int]]);
                }
                lemma_walk_take(parts, cnt + 1);
            }
        }
        j += 1;
    }
    proof {
        assert(parts.take(n_up + m - common) =~= parts);
    }
    let mut bs_pat: Vec<char> = Vec::new();
    bs_pat.push('\\');
    let mut slash: Vec<char> = Vec::new();
    slash.push('/');
    let out = replace_chars(&rel, &bs_pat, &slash);
    proof {
        assert(bs_pat@ =~= seq!['\\']);
        assert(slash@ =~= seq!['/']);
    }
    string_of(&out)
}

} // verus!
