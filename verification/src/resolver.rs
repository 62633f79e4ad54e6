//! Library name resolution: the platform binary filename, the search-path
//! variable, and the linker-cache listing, searched in that order, plus the
//! data-directory lookup helper.
//!
//! Everything here is pure: the caller supplies the value of the
//! search-path variable, the set of candidate paths that exist on disk,
//! and the text of the linker-cache listing, and resolution is a function
//! of those values alone.
use vstd::prelude::*;

verus! {

/// The platform-conventional shared-library filename for a logical name:
/// the platform's prefix, the name, then the platform's suffix.
pub open spec fn spec_lib_filename(name: Seq<char>) -> Seq<char> {
    "lib"@ + name + ".so"@
}

/// Computes the platform-conventional binary filename for a logical
/// plugin name.
pub fn lib_filename(name: &str) -> (r: String)
    ensures
        r@ == spec_lib_filename(name@),
{
    let mut r = "lib".to_owned();
    r.append(name);
    r.append(".so");
    r
}

/// A directory path joined with a filename, with the path separator in
/// between.
pub open spec fn spec_join_path(dir: Seq<char>, file: Seq<char>) -> Seq<char> {
    dir + "/"@ + file
}

/// Joins a directory path and a filename with the path separator.
pub fn join_path(dir: &str, file: &str) -> (r: String)
    ensures
        r@ == spec_join_path(dir@, file@),
{
    let mut r = dir.to_owned();
    r.append("/");
    r.append(file);
    r
}

/// The views of a sequence of strings.
pub open spec fn string_views(v: Seq<String>) -> Seq<Seq<char>> {
    v.map_values(|s: String| s@)
}

/// The view of an optional string.
pub open spec fn opt_string_view(o: Option<String>) -> Option<Seq<char>> {
    match o {
        Option::Some(s) => Option::Some(s@),
        Option::None => Option::None,
    }
}

/// Index of the first occurrence of `c` in `s`, or -1 if `c` does not
/// occur.
pub open spec fn first_index(s: Seq<char>, c: char) -> int
    decreases s.len(),
{
    if s.len() == 0 {
        -1
    } else if s[0] == c {
        0
    } else {
        let r = first_index(s.skip(1), c);
        if r < 0 {
            -1
        } else {
            r + 1
        }
    }
}

/// Finds the first occurrence of `c` in `s` at or after `from`; the
/// returned index is relative to `from`.
fn find_char_from(s: &str, from: usize, c: char) -> (r: Option<usize>)
    requires
        from <= s@.len(),
    ensures
        ({
            let fi = first_index(s@.skip(from as int), c);
            match r {
                Option::None => fi == -1,
                Option::Some(k) => fi == k as int && from + k < s@.len(),
            }
        }),
{
    let len = s.unicode_len();
    let mut i: usize = len;
    let mut r: Option<usize> = None;
    proof {
        assert(s@.skip(len as int).len() == 0);
    }
    while i > from
        invariant
            from <= i <= len,
            len == s@.len(),
            match r {
                Option::None => first_index(s@.skip(i as int), c) == -1,
                Option::Some(k) => first_index(s@.skip(i as int), c) == k as int && i + k < len,
            },
        decreases i,
    {
        let cur = s.get_char(i - 1);
        proof {
            let t = s@.skip(i as int - 1);
            assert(t.skip(1) =~= s@.skip(i as int));
            assert(t[0] == s@[i as int - 1]);
        }
        if cur == c {
            r = Some(0);
        } else {
            r = match r {
                Option::None => None,
                Option::Some(k) => Some(k + 1),
            };
        }
        i = i - 1;
    }
    r
}

/// The split of `s` on the separator `sep`: the (possibly empty) segments
/// between occurrences of `sep`, in order. A string without the separator
/// is a single segment.
pub open spec fn spec_split(s: Seq<char>, sep: char) -> Seq<Seq<char>>
    decreases s.len(),
{
    let i = first_index(s, sep);
    if 0 <= i < s.len() {
        seq![s.take(i)] + spec_split(s.skip(i + 1), sep)
    } else {
        seq![s]
    }
}

/// Splits `s` on the separator `sep`.
pub fn split_on(s: &str, sep: char) -> (parts: Vec<String>)
    ensures
        parts@.map_values(|p: String| p@) == spec_split(s@, sep),
{
    let len = s.unicode_len();
    let mut parts: Vec<String> = Vec::new();
    let mut start: usize = 0;
    proof {
        assert(s@.skip(0) =~= s@);
        assert(parts@.map_values(|p: String| p@) =~= Seq::<Seq<char>>::empty());
    }
    loop
        invariant_except_break
            start <= len,
            len == s@.len(),
            spec_split(s@, sep) =~= parts@.map_values(|p: String| p@) + spec_split(
                s@.skip(start as int),
                sep,
            ),
        ensures
            parts@.map_values(|p: String| p@) =~= spec_split(s@, sep),
        decreases len - start,
    {
        let ghost old_parts = parts@;
        match find_char_from(s, start, sep) {
            Option::Some(k) => {
                let part = s.substring_char(start, start + k);
                parts.push(part.to_owned());
                proof {
                    let t = s@.skip(start as int);
                    assert(first_index(t, sep) == k as int);
                    assert(t.skip(k as int + 1) =~= s@.skip(start as int + k as int + 1));
                    assert(t.take(k as int) =~= s@.subrange(
                        start as int,
                        start as int + k as int,
                    ));
                    assert(parts@.map_values(|p: String| p@) =~= old_parts.map_values(
                        |p: String| p@,
                    ).push(t.take(k as int)));
                    assert(spec_split(t, sep) == seq![t.take(k as int)] + spec_split(
                        t.skip(k as int + 1),
                        sep,
                    ));
                }
                start = start + k + 1;
            },
            Option::None => {
                let part = s.substring_char(start, len);
                parts.push(part.to_owned());
                proof {
                    let t = s@.skip(start as int);
                    assert(first_index(t, sep) == -1);
                    assert(t =~= s@.subrange(start as int, len as int));
                    assert(spec_split(t, sep) == seq![t]);
                    assert(parts@.map_values(|p: String| p@) =~= old_parts.map_values(
                        |p: String| p@,
                    ).push(t));
                }
                break ;
            },
        }
    }
    parts
}

/// The candidate paths tried against the filesystem: each directory of
/// the (split) search-path variable joined with the computed filename, in
/// order; none when the variable is not set.
pub open spec fn spec_candidates(search: Option<Seq<char>>, filename: Seq<char>) -> Seq<Seq<char>> {
    match search {
        Option::Some(s) => spec_split(s, ':').map_values(|d: Seq<char>| spec_join_path(d, filename)),
        Option::None => Seq::empty(),
    }
}

/// Builds the candidate paths for `filename` from the search-path
/// variable's value.
pub fn candidate_paths(search: &Option<String>, filename: &str) -> (cands: Vec<String>)
    ensures
        string_views(cands@) == spec_candidates(opt_string_view(*search), filename@),
{
    match search {
        Option::None => {
            let cands: Vec<String> = Vec::new();
            proof {
                assert(string_views(cands@) =~= Seq::<Seq<char>>::empty());
            }
            cands
        },
        Option::Some(s) => {
            let dirs = split_on(s.as_str(), ':');
            let mut cands: Vec<String> = Vec::new();
            let mut i: usize = 0;
            while i < dirs.len()
                invariant
                    i <= dirs.len(),
                    cands@.len() == i,
                    forall|j: int|
                        0 <= j < i ==> cands@[j]@ == spec_join_path(dirs@[j]@, filename@),
                decreases dirs.len() - i,
            {
                let cand = join_path(dirs[i].as_str(), filename);
                cands.push(cand);
                i = i + 1;
            }
            proof {
                assert(string_views(cands@) =~= spec_split(s@, ':').map_values(
                    |d: Seq<char>| spec_join_path(d, filename@),
                ));
            }
            cands
        },
    }
}

/// Index of the first candidate that is in the set of existing paths, or
/// -1 if none is.
pub open spec fn first_existing(cands: Seq<Seq<char>>, existing: Seq<Seq<char>>) -> int
    decreases cands.len(),
{
    if cands.len() == 0 {
        -1
    } else if existing.contains(cands[0]) {
        0
    } else {
        let r = first_existing(cands.skip(1), existing);
        if r < 0 {
            -1
        } else {
            r + 1
        }
    }
}

/// What `first_existing` returns: -1 exactly when no candidate exists,
/// else the least index of an existing candidate.
pub proof fn lemma_first_existing(cands: Seq<Seq<char>>, existing: Seq<Seq<char>>)
    ensures
        first_existing(cands, existing) == -1 <==> (forall|k: int|
            0 <= k < cands.len() ==> !existing.contains(#[trigger] cands[k])),
        first_existing(cands, existing) >= 0 ==> 0 <= first_existing(cands, existing)
            < cands.len() && existing.contains(cands[first_existing(cands, existing)]) && (forall|
            j: int,
        |
            0 <= j < first_existing(cands, existing) ==> !existing.contains(#[trigger] cands[j])),
    decreases cands.len(),
{
    if cands.len() == 0 {
    } else if existing.contains(cands[0]) {
    } else {
        let rest = cands.skip(1);
        lemma_first_existing(rest, existing);
        assert(forall|k: int| 0 <= k < rest.len() ==> rest[k] == cands[k + 1]);
        let r = first_existing(rest, existing);
        if r < 0 {
            assert forall|k: int| 0 <= k < cands.len() implies !existing.contains(
                #[trigger] cands[k],
            ) by {
                if k > 0 {
                    assert(cands[k] == rest[k - 1]);
                }
            }
        } else {
            assert(first_existing(cands, existing) == r + 1);
            assert(cands[r + 1] == rest[r]);
            assert(existing.contains(cands[r + 1]));
            assert forall|j: int| 0 <= j < r + 1 implies !existing.contains(
                #[trigger] cands[j],
            ) by {
                if j > 0 {
                    assert(cands[j] == rest[j - 1]);
                }
            }
        }
    }
}

/// Whether `v` holds a string equal to `x`.
fn contains_str(v: &Vec<String>, x: &String) -> (b: bool)
    ensures
        b == string_views(v@).contains(x@),
{
    let mut i: usize = 0;
    while i < v.len()
        invariant
            i <= v.len(),
            forall|j: int| 0 <= j < i ==> v@[j]@ != x@,
        decreases v.len() - i,
    {
        if v[i] == *x {
            proof {
                assert(string_views(v@)[i as int] == x@);
            }
            return true;
        }
        i = i + 1;
    }
    proof {
        assert forall|j: int| 0 <= j < string_views(v@).len() implies string_views(v@)[j]
            != x@ by {}
    }
    false
}

/// Finds the first candidate that exists on disk (per the supplied list
/// of existing paths).
fn first_existing_idx(cands: &Vec<String>, existing: &Vec<String>) -> (r: Option<usize>)
    ensures
        ({
            let fe = first_existing(string_views(cands@), string_views(existing@));
            match r {
                Option::None => fe == -1,
                Option::Some(k) => fe == k as int && k < cands@.len(),
            }
        }),
{
    let ghost cv = string_views(cands@);
    let ghost ev = string_views(existing@);
    let len = cands.len();
    let mut i: usize = len;
    let mut r: Option<usize> = None;
    proof {
        assert(cv.skip(len as int).len() == 0);
    }
    while i > 0
        invariant
            i <= len,
            len == cands@.len(),
            cv == string_views(cands@),
            ev == string_views(existing@),
            match r {
                Option::None => first_existing(cv.skip(i as int), ev) == -1,
                Option::Some(k) => first_existing(cv.skip(i as int), ev) == k as int && i + k
                    < len,
            },
        decreases i,
    {
        let here = contains_str(existing, &cands[i - 1]);
        proof {
            let t = cv.skip(i as int - 1);
            assert(t.skip(1) =~= cv.skip(i as int));
            assert(t[0] == cv[i as int - 1]);
            assert(cv[i as int - 1] == cands@[i as int - 1]@);
        }
        if here {
            r = Some(0);
        } else {
            r = match r {
                Option::None => None,
                Option::Some(k) => Some(k + 1),
            };
        }
        i = i - 1;
    }
    proof {
        assert(cv.skip(0) =~= cv);
    }
    r
}

/// A whitespace character inside a linker-cache line.
pub open spec fn is_space(c: char) -> bool {
    c == ' ' || c == '\t'
}

/// The length of the whitespace prefix of `s`.
pub open spec fn first_nonspace(s: Seq<char>) -> int
    decreases s.len(),
{
    if s.len() == 0 {
        0
    } else if is_space(s[0]) {
        1 + first_nonspace(s.skip(1))
    } else {
        0
    }
}

/// Counts the whitespace prefix of `s`.
fn nonspace_prefix(s: &str) -> (r: usize)
    ensures
        r as int == first_nonspace(s@),
        r <= s@.len(),
{
    let len = s.unicode_len();
    let mut i: usize = len;
    let mut r: usize = 0;
    proof {
        assert(s@.skip(len as int).len() == 0);
    }
    while i > 0
        invariant
            i <= len,
            len == s@.len(),
            r as int == first_nonspace(s@.skip(i as int)),
            r <= len - i,
        decreases i,
    {
        let cur = s.get_char(i - 1);
        proof {
            let t = s@.skip(i as int - 1);
            assert(t.skip(1) =~= s@.skip(i as int));
            assert(t[0] == s@[i as int - 1]);
        }
        if cur == ' ' || cur == '\t' {
            r = r + 1;
        } else {
            r = 0;
        }
        i = i - 1;
    }
    proof {
        assert(s@.skip(0) =~= s@);
    }
    r
}

/// Whether the four characters starting at the head of `s` are the arrow
/// token of a linker-cache line: a space, `=`, `>`, a space.
pub open spec fn arrow_head(s: Seq<char>) -> bool {
    s.len() >= 4 && s[0] == ' ' && s[1] == '=' && s[2] == '>' && s[3] == ' '
}

/// Index of the first arrow token in `s`, or -1 if there is none.
pub open spec fn first_arrow(s: Seq<char>) -> int
    decreases s.len(),
{
    if s.len() == 0 {
        -1
    } else if arrow_head(s) {
        0
    } else {
        let r = first_arrow(s.skip(1));
        if r < 0 {
            -1
        } else {
            r + 1
        }
    }
}

/// Finds the first arrow token in `s`.
fn find_arrow(s: &str) -> (r: Option<usize>)
    ensures
        ({
            let fa = first_arrow(s@);
            match r {
                Option::None => fa == -1,
                Option::Some(k) => fa == k as int && k + 4 <= s@.len(),
            }
        }),
{
    let len = s.unicode_len();
    let mut i: usize = len;
    let mut r: Option<usize> = None;
    proof {
        assert(s@.skip(len as int).len() == 0);
    }
    while i > 0
        invariant
            i <= len,
            len == s@.len(),
            match r {
                Option::None => first_arrow(s@.skip(i as int)) == -1,
                Option::Some(k) => first_arrow(s@.skip(i as int)) == k as int && i + k + 4
                    <= len,
            },
        decreases i,
    {
        proof {
            let t = s@.skip(i as int - 1);
            assert(t.skip(1) =~= s@.skip(i as int));
            assert(t[0] == s@[i as int - 1]);
            assert(t.len() == len - i + 1);
            assert(forall|j: int| 0 <= j < t.len() ==> t[j] == s@[i as int - 1 + j]);
        }
        let here = if len - i >= 3 {
            s.get_char(i - 1) == ' ' && s.get_char(i) == '=' && s.get_char(i + 1) == '>'
                && s.get_char(i + 2) == ' '
        } else {
            false
        };
        if here {
            proof {
                assert(arrow_head(s@.skip(i as int - 1)));
            }
            r = Some(0);
        } else {
            proof {
                assert(!arrow_head(s@.skip(i as int - 1)));
            }
            r = match r {
                Option::None => None,
                Option::Some(k) => Some(k + 1),
            };
        }
        i = i - 1;
    }
    proof {
        assert(s@.skip(0) =~= s@);
    }
    r
}

/// The path a linker-cache line yields for `filename`, if the line
/// matches: after leading whitespace the line must hold `filename`
/// followed by a whitespace character, and then an arrow token; the path
/// is everything after the first arrow token.
pub open spec fn spec_line_path(line: Seq<char>, filename: Seq<char>) -> Option<Seq<char>> {
    let t = line.skip(first_nonspace(line));
    if t.len() > filename.len() && t.take(filename.len() as int) == filename && is_space(
        t[filename.len() as int],
    ) {
        let a = first_arrow(t);
        if a >= 0 {
            Option::Some(t.skip(a + 4))
        } else {
            Option::None
        }
    } else {
        Option::None
    }
}

/// Whether `f` is a prefix of `t`.
fn str_prefix_eq(t: &str, f: &str) -> (b: bool)
    requires
        f@.len() <= t@.len(),
    ensures
        b == (t@.take(f@.len() as int) == f@),
{
    let flen = f.unicode_len();
    let mut j: usize = 0;
    while j < flen
        invariant
            j <= flen,
            flen == f@.len(),
            f@.len() <= t@.len(),
            forall|j2: int| 0 <= j2 < j ==> t@[j2] == f@[j2],
        decreases flen - j,
    {
        if t.get_char(j) != f.get_char(j) {
            proof {
                assert(t@.take(flen as int)[j as int] == t@[j as int]);
            }
            return false;
        }
        j = j + 1;
    }
    proof {
        assert(t@.take(flen as int) =~= f@);
    }
    true
}

/// Parses one linker-cache line against the computed filename.
pub fn line_path(line: &str, filename: &str) -> (r: Option<String>)
    ensures
        opt_string_view(r) == spec_line_path(line@, filename@),
{
    let len = line.unicode_len();
    let ws = nonspace_prefix(line);
    let t = line.substring_char(ws, len);
    proof {
        assert(t@ =~= line@.skip(first_nonspace(line@)));
    }
    let tlen = len - ws;
    let flen = filename.unicode_len();
    if tlen > flen && str_prefix_eq(t, filename) {
        let after = t.get_char(flen);
        if after == ' ' || after == '\t' {
            match find_arrow(t) {
                Option::Some(a) => {
                    let path = t.substring_char(a + 4, tlen);
                    proof {
                        assert(path@ =~= t@.skip(a as int + 4));
                    }
                    Some(path.to_owned())
                },
                Option::None => None,
            }
        } else {
            None
        }
    } else {
        None
    }
}

/// The first matching line's path, scanning the cache lines in order.
pub open spec fn first_line_match(lines: Seq<Seq<char>>, filename: Seq<char>) -> Option<Seq<char>>
    decreases lines.len(),
{
    if lines.len() == 0 {
        Option::None
    } else {
        match spec_line_path(lines[0], filename) {
            Option::Some(p) => Option::Some(p),
            Option::None => first_line_match(lines.skip(1), filename),
        }
    }
}

/// The path the linker-cache listing yields for `filename`: the first
/// line of the cache text that matches.
pub open spec fn spec_cache_lookup(cache: Seq<char>, filename: Seq<char>) -> Option<Seq<char>> {
    first_line_match(spec_split(cache, '\n'), filename)
}

/// Parses the linker-cache listing for the first line naming `filename`
/// and returns its resolved path.
pub fn cache_lookup(cache: &str, filename: &str) -> (r: Option<String>)
    ensures
        opt_string_view(r) == spec_cache_lookup(cache@, filename@),
{
    let lines = split_on(cache, '\n');
    let ghost lv = string_views(lines@);
    proof {
        assert(lv == spec_split(cache@, '\n'));
    }
    let len = lines.len();
    let mut i: usize = len;
    let mut r: Option<String> = None;
    proof {
        assert(lv.skip(len as int).len() == 0);
    }
    while i > 0
        invariant
            i <= len,
            len == lines@.len(),
            lv == string_views(lines@),
            opt_string_view(r) == first_line_match(lv.skip(i as int), filename@),
        decreases i,
    {
        proof {
            let t = lv.skip(i as int - 1);
            assert(t.skip(1) =~= lv.skip(i as int));
            assert(t[0] == lv[i as int - 1]);
            assert(lv[i as int - 1] == lines@[i as int - 1]@);
        }
        match line_path(lines[i - 1].as_str(), filename) {
            Option::Some(p) => {
                r = Some(p);
            },
            Option::None => {},
        }
        i = i - 1;
    }
    proof {
        assert(lv.skip(0) =~= lv);
    }
    r
}

/// The filesystem and environment facts resolution depends on: the value
/// of the search-path variable (if set), the candidate paths that exist
/// on disk, and the text of the linker-cache listing.
pub struct ResolveEnv {
    /// The search-path variable's value, if the variable is set.
    pub search_path: Option<String>,
    /// The probed paths that exist on disk.
    pub existing: Vec<String>,
    /// The linker-cache listing tool's output.
    pub ld_cache: String,
}

/// Resolution of a logical name: the first existing search-path
/// candidate, else the linker cache's answer, else nothing.
pub open spec fn spec_resolve(
    name: Seq<char>,
    search: Option<Seq<char>>,
    existing: Seq<Seq<char>>,
    cache: Seq<char>,
) -> Option<Seq<char>> {
    let filename = spec_lib_filename(name);
    let cands = spec_candidates(search, filename);
    let k = first_existing(cands, existing);
    if k >= 0 {
        Option::Some(cands[k])
    } else {
        spec_cache_lookup(cache, filename)
    }
}

/// Resolves a logical plugin name to the path of its shared library:
/// first through the directories of the search-path variable (in order),
/// then through the linker cache.
pub fn get_ld_path(name: &str, env: &ResolveEnv) -> (r: Option<String>)
    ensures
        opt_string_view(r) == spec_resolve(
            name@,
            opt_string_view(env.search_path),
            string_views(env.existing@),
            env.ld_cache@,
        ),
{
    let filename = lib_filename(name);
    let cands = candidate_paths(&env.search_path, filename.as_str());
    match first_existing_idx(&cands, &env.existing) {
        Option::Some(k) => {
            proof {
                assert(string_views(cands@)[k as int] == cands@[k as int]@);
            }
            Some(cands[k].clone())
        },
        Option::None => cache_lookup(env.ld_cache.as_str(), filename.as_str()),
    }
}

/// Search-path precedence: whenever any search-path candidate exists on
/// disk, resolution returns the first such candidate — whatever the
/// linker cache holds, and in particular the same path for any two cache
/// listings.
pub proof fn lemma_search_path_precedence(
    name: Seq<char>,
    search: Seq<char>,
    existing: Seq<Seq<char>>,
    cache1: Seq<char>,
    cache2: Seq<char>,
)
    requires
        exists|k: int|
            0 <= k < spec_candidates(Option::Some(search), spec_lib_filename(name)).len()
                && existing.contains(
                #[trigger] spec_candidates(Option::Some(search), spec_lib_filename(name))[k],
            ),
    ensures
        ({
            let cands = spec_candidates(Option::Some(search), spec_lib_filename(name));
            let r = spec_resolve(name, Option::Some(search), existing, cache1);
            &&& r is Some
            &&& r->Some_0 == cands[first_existing(cands, existing)]
            &&& cands.contains(r->Some_0)
            &&& existing.contains(r->Some_0)
            &&& r == spec_resolve(name, Option::Some(search), existing, cache2)
        }),
{
    let cands = spec_candidates(Option::Some(search), spec_lib_filename(name));
    lemma_first_existing(cands, existing);
    let fe = first_existing(cands, existing);
    if fe == -1 {
        let k = choose|k: int| 0 <= k < cands.len() && existing.contains(#[trigger] cands[k]);
        assert(!existing.contains(cands[k]));
    }
}

/// Index of the last `/` in `s`, or -1 if there is none.
pub open spec fn last_slash(s: Seq<char>) -> int
    decreases s.len(),
{
    if s.len() == 0 {
        -1
    } else {
        let r = last_slash(s.skip(1));
        if r >= 0 {
            r + 1
        } else if s[0] == '/' {
            0
        } else {
            -1
        }
    }
}

/// The parent directory of a path: everything before the last `/`, or
/// the empty string for a path without one.
pub open spec fn spec_parent_dir(path: Seq<char>) -> Seq<char> {
    let k = last_slash(path);
    if k >= 0 {
        path.take(k)
    } else {
        Seq::empty()
    }
}

/// Computes the parent directory of a path.
pub fn parent_dir(path: &str) -> (r: String)
    ensures
        r@ == spec_parent_dir(path@),
{
    let len = path.unicode_len();
    let mut i: usize = len;
    let mut ls: Option<usize> = None;
    proof {
        assert(path@.skip(len as int).len() == 0);
    }
    while i > 0
        invariant
            i <= len,
            len == path@.len(),
            match ls {
                Option::None => last_slash(path@.skip(i as int)) == -1,
                Option::Some(k) => last_slash(path@.skip(i as int)) == k as int && i + k < len,
            },
        decreases i,
    {
        let cur = path.get_char(i - 1);
        proof {
            let t = path@.skip(i as int - 1);
            assert(t.skip(1) =~= path@.skip(i as int));
            assert(t[0] == path@[i as int - 1]);
        }
        ls = match ls {
            Option::None => if cur == '/' {
                Some(0)
            } else {
                None
            },
            Option::Some(k) => Some(k + 1),
        };
        i = i - 1;
    }
    proof {
        assert(path@.skip(0) =~= path@);
    }
    match ls {
        Option::Some(k) => {
            let r = path.substring_char(0, k);
            proof {
                assert(r@ =~= path@.take(k as int));
            }
            r.to_owned()
        },
        Option::None => {
            let r = String::new();
            proof {
                assert(r@ =~= Seq::<char>::empty());
            }
            r
        },
    }
}

/// The data-directory lookup: each data directory joined with the
/// relative resource name, in priority order; the first that exists.
pub open spec fn spec_data_path(
    name: Seq<char>,
    dirs: Seq<Seq<char>>,
    existing: Seq<Seq<char>>,
) -> Option<Seq<char>> {
    let cands = dirs.map_values(|d: Seq<char>| spec_join_path(d, name));
    let k = first_existing(cands, existing);
    if k >= 0 {
        Option::Some(cands[k])
    } else {
        Option::None
    }
}

/// Searches the data directories (the user's first, then each system
/// directory, in the order given) for the relative resource name and
/// returns the first existing match.
pub fn get_path_to_xdg_data(name: &str, data_dirs: &Vec<String>, existing: &Vec<String>) -> (r:
    Option<String>)
    ensures
        opt_string_view(r) == spec_data_path(
            name@,
            string_views(data_dirs@),
            string_views(existing@),
        ),
{
    let mut cands: Vec<String> = Vec::new();
    let mut i: usize = 0;
    while i < data_dirs.len()
        invariant
            i <= data_dirs.len(),
            cands@.len() == i,
            forall|j: int| 0 <= j < i ==> cands@[j]@ == spec_join_path(data_dirs@[j]@, name@),
        decreases data_dirs.len() - i,
    {
        let cand = join_path(data_dirs[i].as_str(), name);
        cands.push(cand);
        i = i + 1;
    }
    proof {
        assert(string_views(cands@) =~= string_views(data_dirs@).map_values(
            |d: Seq<char>| spec_join_path(d, name@),
        ));
    }
    match first_existing_idx(&cands, existing) {
        Option::Some(k) => {
            proof {
                assert(string_views(cands@)[k as int] == cands@[k as int]@);
            }
            Some(cands[k].clone())
        },
        Option::None => None,
    }
}

} // verus!
