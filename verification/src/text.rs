use vstd::prelude::*;

verus! {

// ─── Character sequences ─────────────────────────────────────────────────────
//
// Text is handled as `Vec<char>`; its view is the `Seq<char>` that is also the
// view of a `String`, so a string converts in and out without changing view.

/// The characters of a string slice, in order.
pub fn chars_of(s: &str) -> (v: Vec<char>)
    ensures
        v@ == s@,
{
    let mut v: Vec<char> = Vec::new();
    for c in it: s.chars()
        invariant
            v@ == it.seq().take(it.index() as int),
    {
        v.push(c);
    }
    proof {
        broadcast use vstd::string::group_string_axioms;

        assert(v@ =~= s@);
    }
    v
}

/// Collects characters into a `String` (std's `FromIterator<&char> for String`).
/// Trusted: the string holds exactly the given characters, in order.
#[verifier::external_body]
pub(crate) fn string_of(v: &Vec<char>) -> (s: String)
    ensures
        s@ == v@,
{
    v.iter().collect()
}

/// Appends all of `src` to `dst`.
pub fn push_all(dst: &mut Vec<char>, src: &Vec<char>)
    ensures
        final(dst)@ == old(dst)@ + src@,
{
    let n = src.len();
    for i in 0..n
        invariant
            n == src@.len(),
            dst@ == old(dst)@ + src@.take(i as int),
    {
        dst.push(src[i]);
        proof {
            assert(src@.take(i + 1) =~= src@.take(i as int).push(src@[i as int]));
        }
    }
    proof {
        assert(src@.take(n as int) =~= src@);
    }
}

/// The characters `v[a..b]`.
pub fn sub_chars(v: &Vec<char>, a: usize, b: usize) -> (r: Vec<char>)
    requires
        a <= b <= v@.len(),
    ensures
        r@ == v@.subrange(a as int, b as int),
{
    let mut r: Vec<char> = Vec::new();
    let mut i = a;
    while i < b
        invariant
            a <= i <= b <= v@.len(),
            r@ == v@.subrange(a as int, i as int),
        decreases b - i,
    {
        r.push(v[i]);
        i += 1;
        proof {
            assert(r@ =~= v@.subrange(a as int, i as int));
        }
    }
    r
}

/// Whether two character sequences are equal.
pub fn chars_eq(a: &Vec<char>, b: &Vec<char>) -> (r: bool)
    ensures
        r == (a@ == b@),
{
    if a.len() != b.len() {
        return false;
    }
    let n = a.len();
    for i in 0..n
        invariant
            n == a@.len() == b@.len(),
            forall|j: int| 0 <= j < i ==> a@[j] == b@[j],
    {
        if a[i] != b[i] {
            return false;
        }
    }
    proof {
        assert(a@ =~= b@);
    }
    true
}

// ─── Whitespace and trimming ─────────────────────────────────────────────────

/// A character with the Unicode `White_Space` property (what std's
/// `char::is_whitespace` tests, and so what `str::trim` removes).
pub open spec fn is_ws(c: char) -> bool {
    let u = c as u32;
    ||| 0x09 <= u <= 0x0D
    ||| u == 0x20
    ||| u == 0x85
    ||| u == 0xA0
    ||| u == 0x1680
    ||| 0x2000 <= u <= 0x200A
    ||| u == 0x2028
    ||| u == 0x2029
    ||| u == 0x202F
    ||| u == 0x205F
    ||| u == 0x3000
}

/// Executable test of [`is_ws`].
pub fn is_ws_char(c: char) -> (b: bool)
    ensures
        b == is_ws(c),
{
    let u = c as u32;
    (0x09 <= u && u <= 0x0D) || u == 0x20 || u == 0x85 || u == 0xA0 || u == 0x1680 || (0x2000
        <= u && u <= 0x200A) || u == 0x2028 || u == 0x2029 || u == 0x202F || u == 0x205F || u
        == 0x3000
}

/// `s` without its leading whitespace.
pub open spec fn trim_start(s: Seq<char>) -> Seq<char>
    decreases s.len(),
{
    if s.len() > 0 && is_ws(s[0]) {
        trim_start(s.subrange(1, s.len() as int))
    } else {
        s
    }
}

/// `s` without its trailing whitespace.
pub open spec fn trim_end(s: Seq<char>) -> Seq<char>
    decreases s.len(),
{
    if s.len() > 0 && is_ws(s[s.len() - 1]) {
        trim_end(s.subrange(0, s.len() - 1))
    } else {
        s
    }
}

/// `s` without leading and trailing whitespace (std's `str::trim`).
pub open spec fn trim(s: Seq<char>) -> Seq<char> {
    trim_end(trim_start(s))
}

/// Leading whitespace goes, whatever follows it.
pub proof fn lemma_trim_start_skips(w: Seq<char>, s: Seq<char>)
    requires
        forall|i: int| 0 <= i < w.len() ==> is_ws(#[trigger] w[i]),
    ensures
        trim_start(w + s) == trim_start(s),
    decreases w.len(),
{
    if w.len() > 0 {
        let ws = w + s;
        assert(ws[0] == w[0]);
        assert(ws.subrange(1, ws.len() as int) =~= w.subrange(1, w.len() as int) + s);
        lemma_trim_start_skips(w.subrange(1, w.len() as int), s);
    }
}

/// Trailing whitespace goes, whatever precedes it.
pub proof fn lemma_trim_end_skips(s: Seq<char>, w: Seq<char>)
    requires
        forall|i: int| 0 <= i < w.len() ==> is_ws(#[trigger] w[i]),
    ensures
        trim_end(s + w) == trim_end(s),
    decreases w.len(),
{
    if w.len() > 0 {
        let sw = s + w;
        assert(sw[sw.len() - 1] == w[w.len() - 1]);
        assert(sw.subrange(0, sw.len() - 1) =~= s + w.subrange(0, w.len() - 1));
        lemma_trim_end_skips(s, w.subrange(0, w.len() - 1));
    }
}

/// Trimming a text that starts and ends with non-whitespace, padded with
/// whitespace on both sides, gives the text back.
pub proof fn lemma_trim_padded(pre: Seq<char>, s: Seq<char>, post: Seq<char>)
    requires
        forall|i: int| 0 <= i < pre.len() ==> is_ws(#[trigger] pre[i]),
        forall|i: int| 0 <= i < post.len() ==> is_ws(#[trigger] post[i]),
        s.len() > 0,
        !is_ws(s[0]),
        !is_ws(s[s.len() - 1]),
    ensures
        trim(pre + s + post) == s,
{
    assert(pre + s + post =~= pre + (s + post));
    lemma_trim_start_skips(pre, s + post);
    assert((s + post)[0] == s[0]);
    lemma_trim_end_skips(s, post);
}

/// Removes leading and trailing whitespace.
pub fn trim_chars(v: &Vec<char>) -> (r: Vec<char>)
    ensures
        r@ == trim(v@),
{
    let n = v.len();
    let mut i: usize = 0;
    assert(v@.subrange(0, n as int) =~= v@);
    while i < n && is_ws_char(v[i])
        invariant
            i <= n == v@.len(),
            trim_start(v@) == trim_start(v@.subrange(i as int, n as int)),
        decreases n - i,
    {
        proof {
            let s = v@.subrange(i as int, n as int);
            assert(s.subrange(1, s.len() as int) =~= v@.subrange(i + 1, n as int));
        }
        i += 1;
    }
    let ghost left = v@.subrange(i as int, n as int);
    assert(trim_start(v@) == left);
    let mut j: usize = n;
    while j > i && is_ws_char(v[j - 1])
        invariant
            i <= j <= n == v@.len(),
            left == v@.subrange(i as int, n as int),
            trim_end(left) == trim_end(v@.subrange(i as int, j as int)),
        decreases j,
    {
        proof {
            let s = v@.subrange(i as int, j as int);
            assert(s.subrange(0, s.len() - 1) =~= v@.subrange(i as int, j - 1));
        }
        j -= 1;
    }
    sub_chars(v, i, j)
}

// ─── Prefixes, suffixes, search ──────────────────────────────────────────────

/// `p` is a prefix of `s`.
pub open spec fn has_prefix(s: Seq<char>, p: Seq<char>) -> bool {
    p.len() <= s.len() && s.subrange(0, p.len() as int) == p
}

/// `p` is a suffix of `s`.
pub open spec fn has_suffix(s: Seq<char>, p: Seq<char>) -> bool {
    p.len() <= s.len() && s.subrange(s.len() - p.len(), s.len() as int) == p
}

/// `p` occurs in `s` starting at index `i`.
pub open spec fn occurs_at(s: Seq<char>, p: Seq<char>, i: int) -> bool {
    0 <= i && i + p.len() <= s.len() && s.subrange(i, i + p.len()) == p
}

/// The first index at or after `k` where `p` occurs in `s`.
pub open spec fn find_from(s: Seq<char>, p: Seq<char>, k: int) -> Option<int>
    decreases s.len() + 1 - k,
{
    if k < 0 || k + p.len() > s.len() {
        None
    } else if occurs_at(s, p, k) {
        Some(k)
    } else {
        find_from(s, p, k + 1)
    }
}

/// The first index where `p` occurs in `s` (std's `str::find`, counted in characters).
pub open spec fn find(s: Seq<char>, p: Seq<char>) -> Option<int> {
    find_from(s, p, 0)
}

/// The search finds the first occurrence at or after `k`.
pub proof fn lemma_find_first(s: Seq<char>, p: Seq<char>, k: int, m: int)
    requires
        0 <= k <= m,
        occurs_at(s, p, m),
        forall|i: int| k <= i < m ==> !occurs_at(s, p, i),
    ensures
        find_from(s, p, k) == Some(m),
    decreases m - k,
{
    if k < m {
        assert(!occurs_at(s, p, k));
        lemma_find_first(s, p, k + 1, m);
    }
}

/// Whether `p` occurs at index `i` of `v`.
pub fn occurs_at_exec(v: &Vec<char>, p: &Vec<char>, i: usize) -> (r: bool)
    ensures
        r == occurs_at(v@, p@, i as int),
{
    if i > v.len() || p.len() > v.len() - i {
        return false;
    }
    let m = p.len();
    let mut k: usize = 0;
    while k < m
        invariant
            m == p@.len(),
            k <= m,
            i + m <= v.len(),
            forall|j: int| 0 <= j < k ==> v@[i + j] == p@[j],
        decreases m - k,
    {
        if v[i + k] != p[k] {
            proof {
                assert(v@.subrange(i as int, i + m)[k as int] != p@[k as int]);
            }
            return false;
        }
        k += 1;
    }
    proof {
        assert(v@.subrange(i as int, i + m) =~= p@);
    }
    true
}

/// Whether `p` is a prefix of `v`.
pub fn starts_with(v: &Vec<char>, p: &Vec<char>) -> (r: bool)
    ensures
        r == has_prefix(v@, p@),
{
    occurs_at_exec(v, p, 0)
}

/// Whether `p` is a suffix of `v`.
pub fn ends_with(v: &Vec<char>, p: &Vec<char>) -> (r: bool)
    ensures
        r == has_suffix(v@, p@),
{
    if p.len() > v.len() {
        return false;
    }
    occurs_at_exec(v, p, v.len() - p.len())
}

/// The first index where `p` occurs in `v`.
pub fn find_chars(v: &Vec<char>, p: &Vec<char>) -> (r: Option<usize>)
    ensures
        match r {
            Some(i) => find(v@, p@) == Some(i as int),
            None => find(v@, p@) is None,
        },
{
    if p.len() > v.len() {
        return None;
    }
    let last = v.len() - p.len();
    let mut k: usize = 0;
    loop
        invariant
            last + p@.len() == v@.len(),
            k <= last,
            find(v@, p@) == find_from(v@, p@, k as int),
        decreases last - k,
    {
        if occurs_at_exec(v, p, k) {
            return Some(k);
        }
        if k == last {
            assert(find_from(v@, p@, k + 1) is None);
            return None;
        }
        k += 1;
    }
}

// ─── ASCII case ──────────────────────────────────────────────────────────────

/// The ASCII upper-case form of a character.
pub open spec fn upper_char(c: char) -> char {
    if 'a' <= c <= 'z' {
        ((c as u32) - 32) as char
    } else {
        c
    }
}

/// `s` with ASCII letters in upper case (std's `str::to_ascii_uppercase`).
pub open spec fn upper(s: Seq<char>) -> Seq<char> {
    s.map_values(|c: char| upper_char(c))
}

/// ASCII upper-case form of the characters.
pub fn upper_chars(v: &Vec<char>) -> (r: Vec<char>)
    ensures
        r@ == upper(v@),
{
    let mut r: Vec<char> = Vec::new();
    let n = v.len();
    for i in 0..n
        invariant
            n == v@.len(),
            r@ == upper(v@.take(i as int)),
    {
        let c = v[i];
        let u = if 'a' <= c && c <= 'z' {
            ((c as u32 - 32) as u8) as char
        } else {
            c
        };
        r.push(u);
        proof {
            assert(upper(v@.take(i + 1)) =~= upper(v@.take(i as int)).push(upper_char(c)));
        }
    }
    proof {
        assert(v@.take(n as int) =~= v@);
    }
    r
}

// ─── Splitting ───────────────────────────────────────────────────────────────

/// The views of a sequence of character vectors.
pub open spec fn views(s: Seq<Vec<char>>) -> Seq<Seq<char>> {
    s.map_values(|x: Vec<char>| x@)
}

/// The views of a sequence of strings.
pub open spec fn string_views(s: Seq<String>) -> Seq<Seq<char>> {
    s.map_values(|x: String| x@)
}

/// The pieces of `s` between occurrences of `sep` (std's `str::split` on a
/// character): one more piece than there are separators.
pub open spec fn split_on(s: Seq<char>, sep: char) -> Seq<Seq<char>>
    decreases s.len(),
{
    if s.len() == 0 {
        seq![Seq::<char>::empty()]
    } else {
        let p = split_on(s.drop_last(), sep);
        if s.last() == sep {
            p.push(Seq::<char>::empty())
        } else {
            p.update(p.len() - 1, p.last().push(s.last()))
        }
    }
}

/// A split always yields at least one piece.
pub proof fn lemma_split_nonempty(s: Seq<char>, sep: char)
    ensures
        split_on(s, sep).len() >= 1,
    decreases s.len(),
{
    if s.len() > 0 {
        lemma_split_nonempty(s.drop_last(), sep);
    }
}

/// Splits `v` at every `sep`.
pub fn split_chars(v: &Vec<char>, sep: char) -> (r: Vec<Vec<char>>)
    ensures
        views(r@) == split_on(v@, sep),
{
    let mut pieces: Vec<Vec<char>> = Vec::new();
    let mut cur: Vec<char> = Vec::new();
    let n = v.len();
    proof {
        assert(views(pieces@).push(cur@) =~= split_on(v@.take(0), sep));
    }
    for i in 0..n
        invariant
            n == v@.len(),
            views(pieces@).push(cur@) == split_on(v@.take(i as int), sep),
    {
        let c = v[i];
        proof {
            assert(v@.take(i + 1).drop_last() =~= v@.take(i as int));
            lemma_split_nonempty(v@.take(i as int), sep);
        }
        if c == sep {
            let done = cur;
            pieces.push(done);
            cur = Vec::new();
            proof {
                assert(views(pieces@).push(cur@) =~= split_on(v@.take(i + 1), sep));
            }
        } else {
            let ghost old_pieces = pieces@;
            let ghost old_cur = cur@;
            cur.push(c);
            proof {
                assert(views(pieces@).push(cur@) =~= split_on(v@.take(i + 1), sep));
            }
        }
    }
    pieces.push(cur);
    proof {
        assert(v@.take(n as int) =~= v@);
    }
    pieces
}

/// The lines of `s`: the pieces between newline characters, where a final
/// newline does not start another line (std's `str::lines`, up to a carriage
/// return before each newline, which every reader here trims away as whitespace).
pub open spec fn raw_lines(s: Seq<char>) -> Seq<Seq<char>> {
    let p = split_on(s, '\n');
    if p.last().len() == 0 {
        p.drop_last()
    } else {
        p
    }
}

/// Splits text into lines as [`raw_lines`] says.
pub fn lines_of(v: &Vec<char>) -> (r: Vec<Vec<char>>)
    ensures
        views(r@) == raw_lines(v@),
{
    let mut p = split_chars(v, '\n');
    proof {
        lemma_split_nonempty(v@, '\n');
    }
    let k = p.len() - 1;
    if p[k].len() == 0 {
        let ghost before = p@;
        let _ = p.pop();
        proof {
            assert(views(p@) =~= views(before).drop_last());
        }
    }
    p
}

// ─── Replacing ───────────────────────────────────────────────────────────────

/// `s` with every non-overlapping occurrence of the non-empty pattern `p`,
/// taken from left to right, replaced by `r` (std's `str::replace`).
pub open spec fn replace_all(s: Seq<char>, p: Seq<char>, r: Seq<char>) -> Seq<char>
    decreases s.len(),
{
    if p.len() == 0 || s.len() == 0 {
        s
    } else if occurs_at(s, p, 0) {
        r + replace_all(s.subrange(p.len() as int, s.len() as int), p, r)
    } else {
        seq![s[0]] + replace_all(s.subrange(1, s.len() as int), p, r)
    }
}

/// Replaces every occurrence of `p` in `v` by `r`.
pub fn replace_chars(v: &Vec<char>, p: &Vec<char>, r: &Vec<char>) -> (out: Vec<char>)
    requires
        p@.len() > 0,
    ensures
        out@ == replace_all(v@, p@, r@),
{
    let n = v.len();
    let mut out: Vec<char> = Vec::new();
    let mut pos: usize = 0;
    assert(v@.subrange(0, n as int) =~= v@);
    while pos < n
        invariant
            pos <= n == v@.len(),
            p@.len() > 0,
            replace_all(v@, p@, r@) == out@ + replace_all(v@.subrange(pos as int, n as int), p@, r@),
        decreases n - pos,
    {
        let ghost suffix = v@.subrange(pos as int, n as int);
        if occurs_at_exec(v, p, pos) {
            proof {
                assert(suffix.subrange(0, p@.len() as int) =~= v@.subrange(pos as int, pos + p@.len()));
                assert(suffix.subrange(p@.len() as int, suffix.len() as int) =~= v@.subrange(pos + p@.len(), n as int));
            }
            push_all(&mut out, r);
            pos = pos + p.len();
            proof {
                assert(out@ + replace_all(v@.subrange(pos as int, n as int), p@, r@) =~= (out@.subrange(0, out@.len() - r@.len()) + (r@ + replace_all(v@.subrange(pos as int, n as int), p@, r@))));
            }
        } else {
            proof {
                if p@.len() <= suffix.len() {
                    assert(suffix.subrange(0, p@.len() as int) =~= v@.subrange(pos as int, pos + p@.len()));
                }
                assert(suffix.subrange(1, suffix.len() as int) =~= v@.subrange(pos + 1, n as int));
            }
            let ghost old_out = out@;
            out.push(v[pos]);
            pos = pos + 1;
            proof {
                assert(old_out + (seq![suffix[0]] + replace_all(v@.subrange(pos as int, n as int), p@, r@)) =~= out@ + replace_all(v@.subrange(pos as int, n as int), p@, r@));
            }
        }
    }
    proof {
        assert(out@ + replace_all(v@.subrange(n as int, n as int), p@, r@) =~= out@);
    }
    out
}

// ─── Numbers as text ─────────────────────────────────────────────────────────

/// The decimal digit character for `d < 10`.
pub open spec fn digit_char(d: nat) -> char {
    (d + 48) as char
}

/// The lower-case hexadecimal digit character for `d < 16`.
pub open spec fn hex_char(d: nat) -> char {
    if d < 10 {
        (d + 48) as char
    } else {
        (d + 87) as char
    }
}

/// The decimal form of `n`, without leading zeros (std's `Display` for unsigned integers).
pub open spec fn dec(n: nat) -> Seq<char>
    decreases n,
{
    if n < 10 {
        seq![digit_char(n)]
    } else {
        dec(n / 10).push(digit_char(n % 10))
    }
}

/// The last `k` hexadecimal digits of `x`, zero-padded (`{:0k$x}` for `x < 16^k`).
pub open spec fn hex_digits(x: nat, k: nat) -> Seq<char>
    decreases k,
{
    if k == 0 {
        Seq::<char>::empty()
    } else {
        hex_digits(x / 16, (k - 1) as nat).push(hex_char(x % 16))
    }
}

/// Decimal form of an unsigned integer.
pub fn dec_u64(n: u64) -> (r: Vec<char>)
    ensures
        r@ == dec(n as nat),
    decreases n,
{
    let d = (n % 10) as u8;
    let c = (d + 48) as char;
    if n < 10 {
        let mut r: Vec<char> = Vec::new();
        r.push(c);
        r
    } else {
        let mut r = dec_u64(n / 10);
        r.push(c);
        r
    }
}

/// The last `k` hexadecimal digits of `x`, zero-padded.
pub fn hex_u64(x: u64, k: u64) -> (r: Vec<char>)
    ensures
        r@ == hex_digits(x as nat, k as nat),
    decreases k,
{
    if k == 0 {
        Vec::new()
    } else {
        let d = (x % 16) as u8;
        let c = if d < 10 {
            (d + 48) as char
        } else {
            (d + 87) as char
        };
        let mut r = hex_u64(x / 16, k - 1);
        r.push(c);
        r
    }
}

} // verus!
