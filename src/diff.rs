//! Segmentation, filtering and colouring of unified diffs.
use vstd::prelude::*;

use crate::api::{decimal, decimal_string};
use crate::remote::{first_from, first_index};
use crate::text::{chars_of, occurs_at, occurs_at_exec, starts_with, string_of};

verus! {

#[verifier::external_type_specification]
#[verifier::external_body]
pub struct ExPattern(glob::Pattern);

/// Whether `glob::Pattern::new` accepts `p`.
pub uninterp spec fn glob_valid(p: Seq<char>) -> bool;

/// Whether the glob pattern `p` matches `name`.
pub uninterp spec fn glob_matches(p: Seq<char>, name: Seq<char>) -> bool;

/// A glob pattern together with the text it was compiled from.
pub struct CompiledPattern {
    source: String,
    compiled: glob::Pattern,
}

/// Relies on `glob::Pattern::new`: compiles a pattern, or fails on a malformed one.
#[verifier::external_body]
fn compile_glob(p: &str) -> (r: Option<glob::Pattern>)
    ensures
        r is Some <==> glob_valid(p@),
{
    glob::Pattern::new(p).ok()
}

/// Relies on `glob::Pattern::matches`. The compiled pattern of a
/// `CompiledPattern` is only ever made from its source, by `CompiledPattern::new`.
#[verifier::external_body]
fn glob_match(p: &CompiledPattern, name: &str) -> (r: bool)
    ensures
        r == glob_matches(p.pattern(), name@),
{
    p.compiled.matches(name)
}

impl CompiledPattern {
    /// The text of the pattern.
    pub closed spec fn pattern(&self) -> Seq<char> {
        self.source@
    }

    /// Compiles `p`, or gives nothing when it is not a valid glob.
    pub fn new(p: &str) -> (r: Option<CompiledPattern>)
        ensures
            r is Some <==> glob_valid(p@),
            r is Some ==> r->0.pattern() == p@,
    {
        match compile_glob(p) {
            Some(c) => Some(CompiledPattern { source: p.to_string(), compiled: c }),
            None => None,
        }
    }
}

/// The valid patterns of `ps`, in order.
pub open spec fn valid_patterns(ps: Seq<Seq<char>>) -> Seq<Seq<char>>
    decreases ps.len(),
{
    if ps.len() == 0 {
        Seq::empty()
    } else if glob_valid(ps.last()) {
        valid_patterns(ps.drop_last()).push(ps.last())
    } else {
        valid_patterns(ps.drop_last())
    }
}

/// Whether `name` passes the patterns: every name passes an empty set,
/// else a name passes when at least one pattern matches it.
pub open spec fn passes(pats: Seq<Seq<char>>, name: Seq<char>) -> bool {
    pats.len() == 0 || exists|i: int| 0 <= i < pats.len() && glob_matches(pats[i], name)
}

pub open spec fn patterns_of(cs: Seq<CompiledPattern>) -> Seq<Seq<char>> {
    cs.map_values(|c: CompiledPattern| c.pattern())
}

/// Compiles each pattern, leaving out those that are not valid globs.
pub fn compile_patterns(patterns: &[String]) -> (r: Vec<CompiledPattern>)
    ensures
        patterns_of(r@) == valid_patterns(patterns@.map_values(|s: String| s@)),
{
    let ghost views = patterns@.map_values(|s: String| s@);
    let mut r: Vec<CompiledPattern> = Vec::new();
    let mut i: usize = 0;
    assert(views.take(0) =~= Seq::<Seq<char>>::empty());
    assert(patterns_of(r@) =~= Seq::<Seq<char>>::empty());
    while i < patterns.len()
        invariant
            i <= patterns.len(),
            views == patterns@.map_values(|s: String| s@),
            patterns_of(r@) == valid_patterns(views.take(i as int)),
        decreases patterns.len() - i,
    {
        let c = CompiledPattern::new(patterns[i].as_str());
        assert(views.take(i + 1).drop_last() =~= views.take(i as int));
        assert(views.take(i + 1).last() == patterns@[i as int]@);
        match c {
            Some(c) => {
                let ghost before = r@;
                r.push(c);
                assert(patterns_of(r@) =~= patterns_of(before).push(r@.last().pattern()));
            },
            None => {},
        }
        i = i + 1;
    }
    assert(views.take(patterns.len() as int) =~= views);
    r
}

/// Whether `filename` passes the compiled patterns.
fn is_match(filename: &str, patterns: &Vec<CompiledPattern>) -> (r: bool)
    ensures
        r == passes(patterns_of(patterns@), filename@),
{
    if patterns.len() == 0 {
        return true;
    }
    let mut i: usize = 0;
    while i < patterns.len()
        invariant
            i <= patterns.len(),
            forall|j: int| 0 <= j < i ==> !glob_matches(patterns@[j].pattern(), filename@),
        decreases patterns.len() - i,
    {
        if glob_match(&patterns[i], filename) {
            assert(patterns_of(patterns@)[i as int] == patterns@[i as int].pattern());
            return true;
        }
        i = i + 1;
    }
    assert forall|j: int| 0 <= j < patterns_of(patterns@).len() implies !glob_matches(
        patterns_of(patterns@)[j],
        filename@,
    ) by {
        assert(patterns_of(patterns@)[j] == patterns@[j].pattern());
    }
    false
}

/// A line with a trailing carriage return removed.
pub open spec fn strip_cr(l: Seq<char>) -> Seq<char> {
    if l.len() > 0 && l.last() == '\r' {
        l.drop_last()
    } else {
        l
    }
}

/// The lines of `s`: split at each `\n`, a `\r` before the `\n` removed, and
/// the text after the last `\n` a line of its own when it is not empty.
pub open spec fn lines_of(s: Seq<char>) -> Seq<Seq<char>>
    decreases s.len(),
{
    if s.len() == 0 {
        Seq::empty()
    } else if !s.contains('\n') {
        seq![s]
    } else {
        let k = first_index(s, '\n');
        proof {
            lemma_first_index_bounds(s, '\n');
        }
        seq![strip_cr(s.take(k))] + lines_of(s.skip(k + 1))
    }
}

pub proof fn lemma_first_index_bounds(s: Seq<char>, c: char)
    ensures
        0 <= first_index(s, c) <= s.len(),
        s.contains(c) ==> first_index(s, c) < s.len() && s[first_index(s, c)] == c,
    decreases s.len(),
{
    if s.len() > 0 && s[0] != c {
        lemma_first_index_bounds(s.skip(1), c);
        if s.contains(c) {
            let i = choose|i: int| 0 <= i < s.len() && s[i] == c;
            assert(s.skip(1)[i - 1] == c);
        }
    }
}

/// The characters of each line.
pub open spec fn char_lines(ls: Seq<Vec<char>>) -> Seq<Seq<char>> {
    ls.map_values(|l: Vec<char>| l@)
}

/// The lines of `v`, as `lines_of` gives them.
pub fn split_lines(v: &Vec<char>) -> (r: Vec<Vec<char>>)
    ensures
        char_lines(r@) == lines_of(v@),
{
    let mut r: Vec<Vec<char>> = Vec::new();
    let mut p: usize = 0;
    assert(v@.skip(0) =~= v@);
    while p < v.len()
        invariant
            p <= v.len(),
            lines_of(v@) == char_lines(r@) + lines_of(v@.skip(p as int)),
        decreases v.len() - p,
    {
        let k = first_from(v, p, '\n');
        let ghost s = v@.skip(p as int);
        if k == v.len() {
            let line = chars_from(v, p, k);
            assert(line@ =~= s);
            let ghost before = char_lines(r@);
            r.push(line);
            assert(char_lines(r@) =~= before.push(s));
            assert(v@.skip(v.len() as int) =~= Seq::<char>::empty());
            proof {
                assert(lines_of(s) == seq![s]);
            }
            p = k;
        } else {
            let end = if k > p && v[k - 1] == '\r' {
                k - 1
            } else {
                k
            };
            let line = chars_from(v, p, end);
            proof {
                lemma_first_index_bounds(s, '\n');
                assert(s.take(k - p) =~= v@.subrange(p as int, k as int));
                assert(s.skip(k - p + 1) =~= v@.skip(k + 1));
                assert(line@ =~= strip_cr(s.take(k - p)));
            }
            let ghost before = char_lines(r@);
            let ghost lv = line@;
            r.push(line);
            assert(char_lines(r@) =~= before.push(lv));
            p = k + 1;
        }
    }
    assert(v@.skip(p as int) =~= Seq::<char>::empty());
    assert(char_lines(r@) + Seq::<Seq<char>>::empty() =~= char_lines(r@));
    r
}

/// The characters `v[lo..hi]`.
fn chars_from(v: &Vec<char>, lo: usize, hi: usize) -> (r: Vec<char>)
    requires
        lo <= hi <= v.len(),
    ensures
        r@ == v@.subrange(lo as int, hi as int),
{
    let mut r: Vec<char> = Vec::new();
    let mut i = lo;
    while i < hi
        invariant
            lo <= i <= hi <= v.len(),
            r@ == v@.subrange(lo as int, i as int),
        decreases hi - i,
    {
        r.push(v[i]);
        i = i + 1;
        assert(r@ =~= v@.subrange(lo as int, i as int));
    }
    r
}

/// `diff --git`, which opens the segment of each file.
pub open spec fn header_marker() -> Seq<char> {
    seq!['d', 'i', 'f', 'f', ' ', '-', '-', 'g', 'i', 't']
}

/// `" b/"`, which precedes the destination path in a header.
pub open spec fn dest_marker() -> Seq<char> {
    seq![' ', 'b', '/']
}

pub open spec fn is_header(line: Seq<char>) -> bool {
    starts_with(line, header_marker())
}

/// The position of the first occurrence of `p` in `s`, or `s.len()` when there is none.
pub open spec fn find(s: Seq<char>, p: Seq<char>) -> int
    decreases s.len(),
{
    if occurs_at(s, 0, p) {
        0
    } else if s.len() == 0 {
        0
    } else {
        1 + find(s.skip(1), p)
    }
}

/// The destination path of a header line `diff --git a/x b/y`: what follows
/// the first ` b/` after the marker and its space.
pub open spec fn header_filename(line: Seq<char>) -> Option<Seq<char>> {
    let m = header_marker().push(' ');
    if !starts_with(line, m) {
        None
    } else {
        let rest = line.skip(m.len() as int);
        let k = find(rest, dest_marker());
        if k + dest_marker().len() <= rest.len() && occurs_at(rest, k, dest_marker()) {
            Some(rest.skip(k + dest_marker().len()))
        } else {
            None
        }
    }
}

/// The position of the first occurrence of `p` in `v[lo..]`, as an index of `v`.
fn find_from(v: &Vec<char>, lo: usize, p: &Vec<char>) -> (r: usize)
    requires
        lo <= v.len(),
        p.len() > 0,
    ensures
        r == lo + find(v@.skip(lo as int), p@),
        lo <= r <= v.len(),
        r < v.len() ==> occurs_at(v@, r as int, p@),
        r == v.len() ==> !occurs_at(v@.skip(lo as int), find(v@.skip(lo as int), p@), p@),
{
    let mut k = lo;
    while k < v.len() && !occurs_at_exec(v, k, p)
        invariant
            lo <= k <= v.len(),
            find(v@.skip(lo as int), p@) == (k - lo) + find(v@.skip(k as int), p@),
        decreases v.len() - k,
    {
        proof {
            let s = v@.skip(k as int);
            assert(s.skip(1) =~= v@.skip(k + 1));
            if occurs_at(s, 0, p@) {
                assert(s.subrange(0, p@.len() as int) =~= v@.subrange(k as int, k + p@.len()));
            }
        }
        k = k + 1;
    }
    proof {
        let s = v@.skip(k as int);
        if k < v.len() {
            assert(s.subrange(0, p@.len() as int) =~= v@.subrange(k as int, k + p@.len()));
        } else {
            assert(s.len() == 0);
        }
    }
    k
}

/// The destination path named by the header line `v`.
fn filename_of_header(v: &Vec<char>) -> (r: Option<String>)
    ensures
        opt_seq(r) == header_filename(v@),
{
    let m = chars_of("diff --git ");
    let b = chars_of(" b/");
    proof {
        reveal_strlit("diff --git ");
        reveal_strlit(" b/");
        assert(m@ =~= header_marker().push(' '));
        assert(b@ =~= dest_marker());
    }
    if !occurs_at_exec(v, 0, &m) {
        return None;
    }
    let start = m.len();
    let k = find_from(v, start, &b);
    proof {
        let rest = v@.skip(start as int);
        if k < v.len() {
            assert(rest.subrange(k - start, k - start + 3) =~= v@.subrange(k as int, k + 3));
        }
    }
    if k == v.len() {
        return None;
    }
    let name = string_of(v, k + 3, v.len());
    proof {
        let rest = v@.skip(start as int);
        assert(rest.skip(k - start + 3) =~= v@.subrange(k + 3, v.len() as int));
    }
    Some(name)
}

/// The destination path named by a `diff --git a/x b/y` header line.
pub fn extract_filename_from_diff_line(line: &str) -> (r: Option<String>)
    ensures
        opt_seq(r) == header_filename(line@),
{
    let v = chars_of(line);
    filename_of_header(&v)
}

/// The characters of an optional string.
pub open spec fn opt_seq(o: Option<String>) -> Option<Seq<char>> {
    match o {
        Some(s) => Some(s@),
        None => None,
    }
}

/// The file segments of a diff's lines: a new segment begins at each header
/// line; lines before the first header form a segment of their own.
pub open spec fn segments(lines: Seq<Seq<char>>) -> Seq<Seq<Seq<char>>>
    decreases lines.len(),
{
    if lines.len() == 0 {
        Seq::empty()
    } else {
        let prev = segments(lines.drop_last());
        let l = lines.last();
        if prev.len() == 0 || is_header(l) {
            prev.push(seq![l])
        } else {
            prev.update(prev.len() - 1, prev.last().push(l))
        }
    }
}

/// The lines of a segment, each followed by `\n`.
pub open spec fn joined(seg: Seq<Seq<char>>) -> Seq<char>
    decreases seg.len(),
{
    if seg.len() == 0 {
        Seq::empty()
    } else {
        joined(seg.drop_last()) + seg.last() + seq!['\n']
    }
}

/// What stands in place of a segment of `n` lines that is too large.
pub open spec fn skipped_notice(name: Seq<char>, n: nat) -> Seq<char> {
    "diff --git a/"@ + name + " b/"@ + name + "\n"@ + "--- "@ + name
        + " (skipped: diff too large, "@ + decimal(n) + " lines)\n"@ + "+++ "@ + name
        + " (skipped: diff too large, "@ + decimal(n) + " lines)\n"@
}

/// The file a segment belongs to, when it opens with a header naming one.
pub open spec fn segment_name(seg: Seq<Seq<char>>) -> Option<Seq<char>> {
    if seg.len() > 0 && is_header(seg[0]) {
        header_filename(seg[0])
    } else {
        None
    }
}

/// A segment after filtering: dropped when its file does not pass the
/// patterns, replaced by a notice when it has more than `max` lines, and
/// kept as it is otherwise (and always when it names no file).
pub open spec fn render_segment(seg: Seq<Seq<char>>, pats: Seq<Seq<char>>, max: Option<usize>) -> Seq<char> {
    match segment_name(seg) {
        None => joined(seg),
        Some(f) => if !passes(pats, f) {
            Seq::empty()
        } else if max is Some && seg.len() > max->0 {
            skipped_notice(f, seg.len())
        } else {
            joined(seg)
        },
    }
}

/// The filtered segments, one after another.
pub open spec fn render_all(segs: Seq<Seq<Seq<char>>>, pats: Seq<Seq<char>>, max: Option<usize>) -> Seq<char>
    decreases segs.len(),
{
    if segs.len() == 0 {
        Seq::empty()
    } else {
        render_all(segs.drop_last(), pats, max) + render_segment(segs.last(), pats, max)
    }
}

/// A diff after filtering by `patterns` and `max` lines per file; with no
/// pattern and no limit the text comes back as it was.
pub open spec fn filter_spec(text: Seq<char>, patterns: Seq<Seq<char>>, max: Option<usize>) -> Seq<char> {
    if patterns.len() == 0 && max is None {
        text
    } else {
        render_all(segments(lines_of(text)), valid_patterns(patterns), max)
    }
}

/// Appends `lines[lo..hi]`, each followed by `\n`.
fn append_joined(out: &mut String, lines: &Vec<Vec<char>>, lo: usize, hi: usize)
    requires
        lo <= hi <= lines.len(),
    ensures
        final(out)@ == old(out)@ + joined(char_lines(lines@).subrange(lo as int, hi as int)),
{
    let ghost ls = char_lines(lines@);
    let ghost start = out@;
    let mut k = lo;
    assert(ls.subrange(lo as int, lo as int) =~= Seq::<Seq<char>>::empty());
    assert(start + Seq::<char>::empty() =~= start);
    while k < hi
        invariant
            lo <= k <= hi <= lines.len(),
            ls == char_lines(lines@),
            out@ == start + joined(ls.subrange(lo as int, k as int)),
        decreases hi - k,
    {
        let line = string_of(&lines[k], 0, lines[k].len());
        out.append(line.as_str());
        crate::text::push_char(out, '\n');
        proof {
            assert(lines@[k as int]@.subrange(0, lines@[k as int]@.len() as int) =~= ls[k as int]);
            assert(ls.subrange(lo as int, k + 1).drop_last() =~= ls.subrange(lo as int, k as int));
        }
        k = k + 1;
    }
}

/// Appends the notice standing for a segment of `n` lines of file `name`.
fn append_notice(out: &mut String, name: &str, n: usize)
    ensures
        final(out)@ == old(out)@ + skipped_notice(name@, n as nat),
{
    let count = decimal_string(n as u64);
    out.append("diff --git a/");
    out.append(name);
    out.append(" b/");
    out.append(name);
    out.append("\n");
    out.append("--- ");
    out.append(name);
    out.append(" (skipped: diff too large, ");
    out.append(count.as_str());
    out.append(" lines)\n");
    out.append("+++ ");
    out.append(name);
    out.append(" (skipped: diff too large, ");
    out.append(count.as_str());
    out.append(" lines)\n");
}

/// Whether `line` opens a file segment.
fn is_header_line(line: &Vec<char>, marker: &Vec<char>) -> (r: bool)
    requires
        marker@ == header_marker(),
    ensures
        r == is_header(line@),
{
    occurs_at_exec(line, 0, marker)
}

/// Appends segment `lines[lo..hi]` as filtering leaves it.
fn append_segment(
    out: &mut String,
    lines: &Vec<Vec<char>>,
    lo: usize,
    hi: usize,
    patterns: &Vec<CompiledPattern>,
    max_diff_size: Option<usize>,
    marker: &Vec<char>,
)
    requires
        lo < hi <= lines.len(),
        marker@ == header_marker(),
    ensures
        final(out)@ == old(out)@ + render_segment(
            char_lines(lines@).subrange(lo as int, hi as int),
            patterns_of(patterns@),
            max_diff_size,
        ),
{
    let ghost seg = char_lines(lines@).subrange(lo as int, hi as int);
    assert(seg[0] == lines@[lo as int]@);
    let name = if is_header_line(&lines[lo], marker) {
        filename_of_header(&lines[lo])
    } else {
        None
    };
    match name {
        None => append_joined(out, lines, lo, hi),
        Some(f) => {
            if !is_match(f.as_str(), patterns) {
            } else {
                match max_diff_size {
                    Some(m) => {
                        if hi - lo > m {
                            append_notice(out, f.as_str(), hi - lo);
                        } else {
                            append_joined(out, lines, lo, hi);
                        }
                    },
                    None => append_joined(out, lines, lo, hi),
                }
            }
        },
    }
    assert(old(out)@ + Seq::<char>::empty() =~= old(out)@);
}

/// Filters a unified diff: only files passing `patterns` are kept (all of
/// them when no pattern is valid), and a file with more than
/// `max_diff_size` lines is replaced by a notice that keeps its header.
pub fn filter_diff(diff_text: &str, patterns: &[String], max_diff_size: Option<usize>) -> (r: String)
    ensures
        r@ == filter_spec(diff_text@, patterns@.map_values(|s: String| s@), max_diff_size),
        patterns.len() == 0 && max_diff_size is None ==> r@ == diff_text@,
{
    if patterns.len() == 0 && max_diff_size.is_none() {
        return diff_text.to_string();
    }
    let compiled = compile_patterns(patterns);
    let v = chars_of(diff_text);
    let lines = split_lines(&v);
    let marker = chars_of("diff --git");
    proof {
        reveal_strlit("diff --git");
        assert(marker@ =~= header_marker());
    }
    let ghost ls = char_lines(lines@);
    let ghost pats = patterns_of(compiled@);
    let mut out = String::new();
    let mut cs: usize = 0;
    let mut i: usize = 0;
    assert(ls.take(0) =~= Seq::<Seq<char>>::empty());
    while i < lines.len()
        invariant
            ls == char_lines(lines@),
            pats == patterns_of(compiled@),
            marker@ == header_marker(),
            cs <= i <= lines.len(),
            i == 0 ==> out@ == Seq::<char>::empty() && cs == 0,
            i > 0 ==> cs < i && segments(ls.take(i as int)).len() > 0 && segments(
                ls.take(i as int),
            ).last() == ls.subrange(cs as int, i as int) && out@ == render_all(
                segments(ls.take(i as int)).drop_last(),
                pats,
                max_diff_size,
            ),
        decreases lines.len() - i,
    {
        let ghost prev = segments(ls.take(i as int));
        proof {
            assert(ls.take(i + 1).drop_last() =~= ls.take(i as int));
            assert(ls.take(i + 1).last() == ls[i as int]);
        }
        if i == 0 {
            assert(ls.subrange(0, 1) =~= seq![ls[0]]);
        } else if is_header_line(&lines[i], &marker) {
            append_segment(&mut out, &lines, cs, i, &compiled, max_diff_size, &marker);
            proof {
                assert(prev.drop_last().push(prev.last()) =~= prev);
                assert(segments(ls.take(i + 1)).drop_last() =~= prev);
                assert(ls.subrange(i as int, i + 1) =~= seq![ls[i as int]]);
            }
            cs = i;
        } else {
            proof {
                let next = segments(ls.take(i + 1));
                assert(next.drop_last() =~= prev.drop_last());
                assert(ls.subrange(cs as int, i + 1) =~= ls.subrange(cs as int, i as int).push(ls[i as int]));
            }
        }
        i = i + 1;
    }
    if i > 0 {
        append_segment(&mut out, &lines, cs, i, &compiled, max_diff_size, &marker);
        proof {
            let segs = segments(ls.take(i as int));
            assert(segs.drop_last().push(segs.last()) =~= segs);
        }
    }
    proof {
        assert(ls.take(i as int) =~= ls);
        assert(ls == lines_of(v@));
    }
    out
}

/// The files that header lines of `lines` name and that pass `pats`, in order.
pub open spec fn names_in(lines: Seq<Seq<char>>, pats: Seq<Seq<char>>) -> Seq<Seq<char>>
    decreases lines.len(),
{
    if lines.len() == 0 {
        Seq::empty()
    } else {
        let prev = names_in(lines.drop_last(), pats);
        let l = lines.last();
        if is_header(l) && header_filename(l) is Some && passes(pats, header_filename(l)->0) {
            prev.push(header_filename(l)->0)
        } else {
            prev
        }
    }
}

pub open spec fn string_views(v: Seq<String>) -> Seq<Seq<char>> {
    v.map_values(|s: String| s@)
}

/// The names of the changed files that pass `patterns`, in the order the
/// diff lists them.
pub fn filenames_only(diff_text: &str, patterns: &[String]) -> (r: Vec<String>)
    ensures
        string_views(r@) == names_in(
            lines_of(diff_text@),
            valid_patterns(patterns@.map_values(|s: String| s@)),
        ),
{
    let compiled = compile_patterns(patterns);
    let v = chars_of(diff_text);
    let lines = split_lines(&v);
    let marker = chars_of("diff --git");
    proof {
        reveal_strlit("diff --git");
        assert(marker@ =~= header_marker());
    }
    let ghost ls = char_lines(lines@);
    let ghost pats = patterns_of(compiled@);
    let mut r: Vec<String> = Vec::new();
    let mut i: usize = 0;
    assert(ls.take(0) =~= Seq::<Seq<char>>::empty());
    assert(string_views(r@) =~= Seq::<Seq<char>>::empty());
    while i < lines.len()
        invariant
            ls == char_lines(lines@),
            pats == patterns_of(compiled@),
            marker@ == header_marker(),
            i <= lines.len(),
            string_views(r@) == names_in(ls.take(i as int), pats),
        decreases lines.len() - i,
    {
        proof {
            assert(ls.take(i + 1).drop_last() =~= ls.take(i as int));
            assert(ls.take(i + 1).last() == lines@[i as int]@);
        }
        if is_header_line(&lines[i], &marker) {
            match filename_of_header(&lines[i]) {
                Some(f) => {
                    if is_match(f.as_str(), &compiled) {
                        let ghost before = r@;
                        let ghost fv = f@;
                        r.push(f);
                        assert(string_views(r@) =~= string_views(before).push(fv));
                    }
                },
                None => {},
            }
        }
        i = i + 1;
    }
    assert(ls.take(i as int) =~= ls);
    r
}

/// How a line of a diff is shown.
#[derive(Debug, Clone, Copy, PartialEq, Eq, Structural)]
pub enum LineStyle {
    /// `+++` or `---`: the old and new file names.
    FileHeader,
    /// `@@`: a hunk header.
    Hunk,
    /// `+`: an added line.
    Addition,
    /// `-`: a removed line.
    Deletion,
    /// `diff --git` or `index `: metadata of a file.
    Meta,
    /// Anything else: an unchanged line.
    Context,
}

/// The style of a line, decided by its first characters alone.
pub open spec fn style_of(line: Seq<char>) -> LineStyle {
    if starts_with(line, seq!['+', '+', '+']) || starts_with(line, seq!['-', '-', '-']) {
        LineStyle::FileHeader
    } else if starts_with(line, seq!['@', '@']) {
        LineStyle::Hunk
    } else if starts_with(line, seq!['+']) {
        LineStyle::Addition
    } else if starts_with(line, seq!['-']) {
        LineStyle::Deletion
    } else if is_header(line) || starts_with(line, seq!['i', 'n', 'd', 'e', 'x', ' ']) {
        LineStyle::Meta
    } else {
        LineStyle::Context
    }
}

/// Tests whether `v` begins with the characters of `p`.
fn begins_with(v: &Vec<char>, p: &str) -> (r: bool)
    ensures
        r == starts_with(v@, p@),
{
    let pc = chars_of(p);
    occurs_at_exec(v, 0, &pc)
}

/// The style of the line `v`.
fn style_of_chars(v: &Vec<char>) -> (r: LineStyle)
    ensures
        r == style_of(v@),
{
    proof {
        reveal_strlit("+++");
        reveal_strlit("---");
        reveal_strlit("@@");
        reveal_strlit("+");
        reveal_strlit("-");
        reveal_strlit("diff --git");
        reveal_strlit("index ");
        assert("+++"@ =~= seq!['+', '+', '+']);
        assert("---"@ =~= seq!['-', '-', '-']);
        assert("@@"@ =~= seq!['@', '@']);
        assert("+"@ =~= seq!['+']);
        assert("-"@ =~= seq!['-']);
        assert("diff --git"@ =~= header_marker());
        assert("index "@ =~= seq!['i', 'n', 'd', 'e', 'x', ' ']);
    }
    if begins_with(v, "+++") || begins_with(v, "---") {
        LineStyle::FileHeader
    } else if begins_with(v, "@@") {
        LineStyle::Hunk
    } else if begins_with(v, "+") {
        LineStyle::Addition
    } else if begins_with(v, "-") {
        LineStyle::Deletion
    } else if begins_with(v, "diff --git") || begins_with(v, "index ") {
        LineStyle::Meta
    } else {
        LineStyle::Context
    }
}

/// The style of a line of a diff.
pub fn line_style(line: &str) -> (r: LineStyle)
    ensures
        r == style_of(line@),
{
    let v = chars_of(line);
    style_of_chars(&v)
}

/// Each line of a diff with the style it is shown in, in order.
pub fn styled_lines(diff_text: &str) -> (r: Vec<(LineStyle, String)>)
    ensures
        r@.len() == lines_of(diff_text@).len(),
        forall|i: int|
            0 <= i < r@.len() ==> r@[i].0 == style_of(lines_of(diff_text@)[i]) && r@[i].1@
                == lines_of(diff_text@)[i],
{
    let v = chars_of(diff_text);
    let lines = split_lines(&v);
    let ghost ls = char_lines(lines@);
    let mut r: Vec<(LineStyle, String)> = Vec::new();
    let mut i: usize = 0;
    while i < lines.len()
        invariant
            ls == char_lines(lines@),
            ls == lines_of(v@),
            i <= lines.len(),
            r@.len() == i,
            forall|j: int| 0 <= j < i ==> r@[j].0 == style_of(ls[j]) && r@[j].1@ == ls[j],
        decreases lines.len() - i,
    {
        let style = style_of_chars(&lines[i]);
        let text = string_of(&lines[i], 0, lines[i].len());
        assert(lines@[i as int]@.subrange(0, lines@[i as int]@.len() as int) =~= ls[i as int]);
        r.push((style, text));
        i = i + 1;
    }
    r
}

} // verus!
