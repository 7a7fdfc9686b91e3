use vstd::prelude::*;
use vstd::string::StrSliceExecFns;

verus! {

// ---------------------------------------------------------------------------
// Line and word structure of the document. A document is split at `\n`;
// carriage returns and the other blank characters count as word separators,
// so any line ending is accepted.
// ---------------------------------------------------------------------------

pub open spec fn is_space(c: char) -> bool {
    c == ' ' || c == '\t' || c == '\r' || c == '\u{000B}' || c == '\u{000C}'
}

/// First index at or after `i` holding a line break, or the length.
pub open spec fn find_nl(s: Seq<char>, i: int) -> int
    decreases s.len() - i,
{
    if i < 0 || i >= s.len() || s[i] == '\n' {
        i
    } else {
        find_nl(s, i + 1)
    }
}

pub proof fn lemma_find_nl_bounds(s: Seq<char>, i: int)
    requires
        0 <= i <= s.len(),
    ensures
        i <= find_nl(s, i) <= s.len(),
        find_nl(s, i) == s.len() || s[find_nl(s, i)] == '\n',
        forall|k: int| i <= k < find_nl(s, i) ==> s[k] != '\n',
    decreases s.len() - i,
{
    if i < s.len() && s[i] != '\n' {
        lemma_find_nl_bounds(s, i + 1);
    }
}

/// The lines of the document from position `i` on.
pub open spec fn lines_from(s: Seq<char>, i: int) -> Seq<Seq<char>>
    decreases s.len() - i + 1 when 0 <= i
    via lines_from_decreases
{
    if i < 0 || i >= s.len() {
        seq![]
    } else {
        let j = find_nl(s, i);
        seq![s.subrange(i, j)] + lines_from(s, j + 1)
    }
}

#[via_fn]
proof fn lines_from_decreases(s: Seq<char>, i: int) {
    if 0 <= i <= s.len() {
        lemma_find_nl_bounds(s, i);
    }
}

pub open spec fn spec_lines(s: Seq<char>) -> Seq<Seq<char>> {
    lines_from(s, 0)
}

// ---------------------------------------------------------------------------
// Words of a line.
// ---------------------------------------------------------------------------

/// First index at or after `i` holding a non-blank character, or the length.
pub open spec fn skip_spaces(line: Seq<char>, i: int) -> int
    decreases line.len() - i,
{
    if i < 0 || i >= line.len() || !is_space(line[i]) {
        i
    } else {
        skip_spaces(line, i + 1)
    }
}

/// First index at or after `i` holding a blank character, or the length.
pub open spec fn word_end(line: Seq<char>, i: int) -> int
    decreases line.len() - i,
{
    if i < 0 || i >= line.len() || is_space(line[i]) {
        i
    } else {
        word_end(line, i + 1)
    }
}

pub proof fn lemma_skip_spaces_bounds(line: Seq<char>, i: int)
    requires
        0 <= i <= line.len(),
    ensures
        i <= skip_spaces(line, i) <= line.len(),
        skip_spaces(line, i) == line.len() || !is_space(line[skip_spaces(line, i)]),
    decreases line.len() - i,
{
    if i < line.len() && is_space(line[i]) {
        lemma_skip_spaces_bounds(line, i + 1);
    }
}

pub proof fn lemma_word_end_bounds(line: Seq<char>, i: int)
    requires
        0 <= i <= line.len(),
    ensures
        i <= word_end(line, i) <= line.len(),
        i < line.len() && !is_space(line[i]) ==> word_end(line, i) > i,
    decreases line.len() - i,
{
    if i < line.len() && !is_space(line[i]) {
        lemma_word_end_bounds(line, i + 1);
    }
}

/// The blank-separated words of `line` from position `i` on.
pub open spec fn words_from(line: Seq<char>, i: int) -> Seq<Seq<char>>
    decreases line.len() - i when 0 <= i <= line.len()
    via words_from_decreases
{
    let a = skip_spaces(line, i);
    if a >= line.len() {
        seq![]
    } else {
        let b = word_end(line, a);
        seq![line.subrange(a, b)] + words_from(line, b)
    }
}

#[via_fn]
proof fn words_from_decreases(line: Seq<char>, i: int) {
    lemma_skip_spaces_bounds(line, i);
    let a = skip_spaces(line, i);
    if a < line.len() {
        lemma_word_end_bounds(line, a);
    }
}

pub open spec fn spec_words(line: Seq<char>) -> Seq<Seq<char>> {
    words_from(line, 0)
}

// ---------------------------------------------------------------------------
// `/`-separated fields of a face-corner word. Empty fields are kept:
// `1//3` has the fields `1`, `` and `3`.
// ---------------------------------------------------------------------------

/// First index at or after `i` holding `/`, or the length.
pub open spec fn find_slash(w: Seq<char>, i: int) -> int
    decreases w.len() - i,
{
    if i < 0 || i >= w.len() || w[i] == '/' {
        i
    } else {
        find_slash(w, i + 1)
    }
}

pub proof fn lemma_find_slash_bounds(w: Seq<char>, i: int)
    requires
        0 <= i <= w.len(),
    ensures
        i <= find_slash(w, i) <= w.len(),
        find_slash(w, i) == w.len() || w[find_slash(w, i)] == '/',
    decreases w.len() - i,
{
    if i < w.len() && w[i] != '/' {
        lemma_find_slash_bounds(w, i + 1);
    }
}

/// The `/`-separated fields of `w` from position `i` on.
pub open spec fn fields_from(w: Seq<char>, i: int) -> Seq<Seq<char>>
    decreases w.len() - i when 0 <= i <= w.len()
    via fields_from_decreases
{
    let j = find_slash(w, i);
    if j >= w.len() {
        seq![w.subrange(i, w.len() as int)]
    } else {
        seq![w.subrange(i, j)] + fields_from(w, j + 1)
    }
}

#[via_fn]
proof fn fields_from_decreases(w: Seq<char>, i: int) {
    lemma_find_slash_bounds(w, i);
}

pub open spec fn spec_fields(w: Seq<char>) -> Seq<Seq<char>> {
    fields_from(w, 0)
}

// ---------------------------------------------------------------------------
// Executable scanners.
// ---------------------------------------------------------------------------

fn is_space_c(c: char) -> (b: bool)
    ensures
        b == is_space(c),
{
    c == ' ' || c == '\t' || c == '\r' || c == '\u{000B}' || c == '\u{000C}'
}

/// Finds the end of the line starting at `from`.
#[verifier::loop_isolation(false)]
pub fn scan_line_end(s: &str, from: usize, n: usize) -> (r: usize)
    requires
        n == s@.len(),
        from <= n,
    ensures
        r == find_nl(s@, from as int),
        from <= r <= n,
{
    let mut j = from;
    while j < n && s.get_char(j) != '\n'
        invariant
            from <= j <= n,
            find_nl(s@, from as int) == find_nl(s@, j as int),
        decreases n - j,
    {
        assert(find_nl(s@, j as int) == find_nl(s@, j + 1));
        j = j + 1;
    }
    assert(find_nl(s@, j as int) == j);
    j
}

/// Splits the slice `[lo, hi)` of `s` into words, as absolute spans.
#[verifier::loop_isolation(false)]
pub fn split_words(s: &str, lo: usize, hi: usize) -> (ws: Vec<(usize, usize)>)
    requires
        lo <= hi <= s@.len(),
    ensures
        ({
            let line = s@.subrange(lo as int, hi as int);
            &&& ws@.len() == spec_words(line).len()
            &&& forall|k: int|
                0 <= k < ws@.len() ==> {
                    &&& lo <= (#[trigger] ws@[k]).0 < ws@[k].1 <= hi
                    &&& s@.subrange(ws@[k].0 as int, ws@[k].1 as int) == spec_words(line)[k]
                }
        }),
{
    let ghost line = s@.subrange(lo as int, hi as int);
    let mut ws: Vec<(usize, usize)> = Vec::new();
    let mut p = lo;
    while p < hi
        invariant
            lo <= p <= hi,
            spec_words(line) == ws@.map_values(
                |sp: (usize, usize)| s@.subrange(sp.0 as int, sp.1 as int),
            ) + words_from(line, p - lo),
            forall|k: int|
                0 <= k < ws@.len() ==> lo <= (#[trigger] ws@[k]).0 < ws@[k].1 <= hi,
        decreases hi - p,
    {
        let c = s.get_char(p);
        assert(line[p - lo] == s@[p as int]);
        if is_space_c(c) {
            assert(skip_spaces(line, p - lo) == skip_spaces(line, p + 1 - lo));
            p = p + 1;
        } else {
            // start of a word; find its end
            assert(skip_spaces(line, p - lo) == p - lo);
            let mut q = p + 1;
            while q < hi && !is_space_c(s.get_char(q))
                invariant
                    p < q <= hi,
                    word_end(line, p - lo) == word_end(line, q - lo),
                decreases hi - q,
            {
                assert(line[q - lo] == s@[q as int]);
                assert(word_end(line, q - lo) == word_end(line, q + 1 - lo));
                q = q + 1;
            }
            if q < hi {
                assert(line[q - lo] == s@[q as int]);
            }
            assert(word_end(line, q - lo) == q - lo);
            assert(s@.subrange(p as int, q as int) =~= line.subrange(p - lo, q - lo));
            let ghost old_ws = ws@;
            ws.push((p, q));
            proof {
                assert(ws@.map_values(
                    |sp: (usize, usize)| s@.subrange(sp.0 as int, sp.1 as int),
                ) =~= old_ws.map_values(
                    |sp: (usize, usize)| s@.subrange(sp.0 as int, sp.1 as int),
                ).push(s@.subrange(p as int, q as int)));
                assert(words_from(line, p - lo) == seq![line.subrange(p - lo, q - lo)]
                    + words_from(line, q - lo));
            }
            p = q;
        }
    }
    proof {
        assert(words_from(line, p - lo) =~= Seq::<Seq<char>>::empty());
        assert(spec_words(line) =~= ws@.map_values(
            |sp: (usize, usize)| s@.subrange(sp.0 as int, sp.1 as int),
        ));
    }
    ws
}

/// Splits the slice `[lo, hi)` of `s` into `/`-separated fields, as
/// absolute spans. Fields may be empty.
#[verifier::loop_isolation(false)]
pub fn split_fields(s: &str, lo: usize, hi: usize) -> (fs: Vec<(usize, usize)>)
    requires
        lo <= hi <= s@.len(),
    ensures
        ({
            let w = s@.subrange(lo as int, hi as int);
            &&& fs@.len() == spec_fields(w).len()
            &&& forall|k: int|
                0 <= k < fs@.len() ==> {
                    &&& lo <= (#[trigger] fs@[k]).0 <= fs@[k].1 <= hi
                    &&& s@.subrange(fs@[k].0 as int, fs@[k].1 as int) == spec_fields(w)[k]
                }
        }),
{
    let ghost w = s@.subrange(lo as int, hi as int);
    let mut fs: Vec<(usize, usize)> = Vec::new();
    let mut p = lo;
    loop
        invariant
            lo <= p <= hi,
            spec_fields(w) == fs@.map_values(
                |sp: (usize, usize)| s@.subrange(sp.0 as int, sp.1 as int),
            ) + fields_from(w, p - lo),
            forall|k: int|
                0 <= k < fs@.len() ==> lo <= (#[trigger] fs@[k]).0 <= fs@[k].1 <= hi,
        decreases hi - p + 1,
    {
        // find the next slash
        let mut q = p;
        while q < hi && s.get_char(q) != '/'
            invariant
                p <= q <= hi,
                find_slash(w, p - lo) == find_slash(w, q - lo),
            decreases hi - q,
        {
            assert(w[q - lo] == s@[q as int]);
            assert(find_slash(w, q - lo) == find_slash(w, q + 1 - lo));
            q = q + 1;
        }
        if q < hi {
            assert(w[q - lo] == s@[q as int]);
        }
        assert(find_slash(w, q - lo) == q - lo);
        assert(s@.subrange(p as int, q as int) =~= w.subrange(p - lo, q - lo));
        let ghost old_fs = fs@;
        fs.push((p, q));
        proof {
            assert(fs@.map_values(
                |sp: (usize, usize)| s@.subrange(sp.0 as int, sp.1 as int),
            ) =~= old_fs.map_values(
                |sp: (usize, usize)| s@.subrange(sp.0 as int, sp.1 as int),
            ).push(s@.subrange(p as int, q as int)));
        }
        if q >= hi {
            proof {
                assert(w.subrange(p - lo, q - lo) =~= w.subrange(p - lo, w.len() as int));
                assert(fields_from(w, p - lo) =~= seq![w.subrange(p - lo, w.len() as int)]);
                assert(spec_fields(w) =~= fs@.map_values(
                    |sp: (usize, usize)| s@.subrange(sp.0 as int, sp.1 as int),
                ));
            }
            return fs;
        }
        p = q + 1;
    }
}

} // verus!
