use vstd::prelude::*;

verus! {

#[verifier::external_type_specification]
#[verifier::external_body]
pub struct ExGlob(globset::Glob);

#[verifier::external_type_specification]
#[verifier::external_body]
pub struct ExGlobSet(globset::GlobSet);

#[verifier::external_type_specification]
#[verifier::external_body]
pub struct ExGlobSetBuilder(globset::GlobSetBuilder);

#[verifier::external_type_specification]
#[verifier::external_body]
pub struct ExGlobError(globset::Error);

/// Whether `pattern` parses as a glob.
pub uninterp spec fn glob_valid(pattern: Seq<char>) -> bool;

/// The pattern text that a glob was built from.
pub uninterp spec fn glob_source(g: globset::Glob) -> Seq<char>;

/// The globs added to a builder, in order.
pub uninterp spec fn builder_globs(b: globset::GlobSetBuilder) -> Seq<Seq<char>>;

/// The globs that a set was built from, in order.
pub uninterp spec fn set_globs(s: globset::GlobSet) -> Seq<Seq<char>>;

/// Whether a set can be compiled from `globs` (it fails only when a
/// compiled matcher would grow past its size limit).
pub uninterp spec fn set_builds(globs: Seq<Seq<char>>) -> bool;

/// Whether the glob `pattern` matches `path`.
pub uninterp spec fn glob_matches(pattern: Seq<char>, path: Seq<char>) -> bool;

/// A character with the Unicode White_Space property.
pub open spec fn white_space(c: char) -> bool {
    ('\u{9}' <= c && c <= '\u{d}') || c == ' ' || c == '\u{85}' || c == '\u{a0}' || c == '\u{1680}'
        || ('\u{2000}' <= c && c <= '\u{200a}') || c == '\u{2028}' || c == '\u{2029}' || c
        == '\u{202f}' || c == '\u{205f}' || c == '\u{3000}'
}

/// `s` without its leading white space.
pub open spec fn trim_start(s: Seq<char>) -> Seq<char>
    decreases s.len(),
{
    if s.len() > 0 && white_space(s[0]) {
        trim_start(s.skip(1))
    } else {
        s
    }
}

/// `s` without its trailing white space.
pub open spec fn trim_end(s: Seq<char>) -> Seq<char>
    decreases s.len(),
{
    if s.len() > 0 && white_space(s.last()) {
        trim_end(s.drop_last())
    } else {
        s
    }
}

/// `s` with its leading and trailing white space removed.
pub open spec fn trimmed(s: Seq<char>) -> Seq<char> {
    trim_end(trim_start(s))
}

/// Some glob of `globs` matches `path`.
pub open spec fn any_glob_matches(globs: Seq<Seq<char>>, path: Seq<char>) -> bool {
    exists|i: int| 0 <= i < globs.len() && glob_matches(#[trigger] globs[i], path)
}

/// Relies on globset::Glob::new: it fails exactly on text that is no glob,
/// and the glob it builds keeps its source text (`Glob::glob`).
#[verifier::external_body]
fn new_glob(pattern: &str) -> (r: Result<globset::Glob, globset::Error>)
    ensures
        (r is Ok) == glob_valid(pattern@),
        r matches Ok(g) ==> glob_source(g) == pattern@,
{
    globset::Glob::new(pattern)
}

/// Relies on globset::GlobSetBuilder::new: a builder with no globs.
#[verifier::external_body]
fn new_builder() -> (r: globset::GlobSetBuilder)
    ensures
        builder_globs(r) == Seq::<Seq<char>>::empty(),
{
    globset::GlobSetBuilder::new()
}

/// Relies on globset::GlobSetBuilder::add: the glob is pushed at the end.
#[verifier::external_body]
fn add_glob(b: &mut globset::GlobSetBuilder, g: globset::Glob)
    ensures
        builder_globs(*final(b)) == builder_globs(*old(b)).push(glob_source(g)),
{
    b.add(g);
}

/// Relies on globset::GlobSetBuilder::build: a set built from the globs
/// added so far. Whether it fails (a compiled matcher grows too large)
/// depends on those globs alone.
#[verifier::external_body]
fn build_set(b: &globset::GlobSetBuilder) -> (r: Result<globset::GlobSet, globset::Error>)
    ensures
        (r is Ok) == set_builds(builder_globs(*b)),
        r matches Ok(s) ==> set_globs(s) == builder_globs(*b),
{
    b.build()
}

/// Relies on globset::GlobSet::is_match: true when any glob of the set
/// matches the path.
#[verifier::external_body]
pub fn set_matches(set: &globset::GlobSet, path: &str) -> (r: bool)
    ensures
        r == (exists|i: int|
            0 <= i < set_globs(*set).len() && glob_matches(#[trigger] set_globs(*set)[i], path@)),
{
    set.is_match(path)
}

/// Relies on str::trim: leading and trailing characters with the Unicode
/// White_Space property are removed.
#[verifier::external_body]
fn trim_pattern(s: &str) -> (r: String)
    ensures
        r@ == trimmed(s@),
{
    s.trim().to_string()
}

/// The globs that are always ignored: executables and libraries, archives,
/// images, audio, video, office documents and system files.
pub open spec fn default_globs() -> Seq<Seq<char>> {
    seq![
        "*.exe"@,
        "*.dll"@,
        "*.so"@,
        "*.dylib"@,
        "*.bin"@,
        "*.dat"@,
        "*.jar"@,
        "*.o"@,
        "*.a"@,
        "*.lib"@,
        "*.zip"@,
        "*.tar*"@,
        "*.gz"@,
        "*.bz2"@,
        "*.xz"@,
        "*.7z"@,
        "*.rar"@,
        "*.deb"@,
        "*.rpm"@,
        "*.jpg"@,
        "*.jpeg"@,
        "*.png"@,
        "*.gif"@,
        "*.bmp"@,
        "*.svg"@,
        "*.ico"@,
        "*.webp"@,
        "*.psd"@,
        "*.tiff"@,
        "*.mp3"@,
        "*.wav"@,
        "*.ogg"@,
        "*.m4a"@,
        "*.flac"@,
        "*.aac"@,
        "*.mp4"@,
        "*.avi"@,
        "*.mkv"@,
        "*.mov"@,
        "*.wmv"@,
        "*.flv"@,
        "*.webm"@,
        "*.ppt*"@,
        "*.ods"@,
        "*.odp"@,
        "*.sys"@,
        "*.dmp"@,
        "*.pak"@,
        "*.cab"@
    ]
}

/// The default globs, in order.
pub fn default_ignores() -> (r: Vec<String>)
    ensures
        r@.map_values(|s: String| s@) == default_globs(),
{
    let mut r: Vec<String> = Vec::new();
    r.push("*.exe".to_owned());
    r.push("*.dll".to_owned());
    r.push("*.so".to_owned());
    r.push("*.dylib".to_owned());
    r.push("*.bin".to_owned());
    r.push("*.dat".to_owned());
    r.push("*.jar".to_owned());
    r.push("*.o".to_owned());
    r.push("*.a".to_owned());
    r.push("*.lib".to_owned());
    r.push("*.zip".to_owned());
    r.push("*.tar*".to_owned());
    r.push("*.gz".to_owned());
    r.push("*.bz2".to_owned());
    r.push("*.xz".to_owned());
    r.push("*.7z".to_owned());
    r.push("*.rar".to_owned());
    r.push("*.deb".to_owned());
    r.push("*.rpm".to_owned());
    r.push("*.jpg".to_owned());
    r.push("*.jpeg".to_owned());
    r.push("*.png".to_owned());
    r.push("*.gif".to_owned());
    r.push("*.bmp".to_owned());
    r.push("*.svg".to_owned());
    r.push("*.ico".to_owned());
    r.push("*.webp".to_owned());
    r.push("*.psd".to_owned());
    r.push("*.tiff".to_owned());
    r.push("*.mp3".to_owned());
    r.push("*.wav".to_owned());
    r.push("*.ogg".to_owned());
    r.push("*.m4a".to_owned());
    r.push("*.flac".to_owned());
    r.push("*.aac".to_owned());
    r.push("*.mp4".to_owned());
    r.push("*.avi".to_owned());
    r.push("*.mkv".to_owned());
    r.push("*.mov".to_owned());
    r.push("*.wmv".to_owned());
    r.push("*.flv".to_owned());
    r.push("*.webm".to_owned());
    r.push("*.ppt*".to_owned());
    r.push("*.ods".to_owned());
    r.push("*.odp".to_owned());
    r.push("*.sys".to_owned());
    r.push("*.dmp".to_owned());
    r.push("*.pak".to_owned());
    r.push("*.cab".to_owned());
    assert(r@.map_values(|s: String| s@) =~= default_globs());
    r
}

/// `**/` in front of `p`: `p` at any depth.
pub open spec fn anywhere(p: Seq<char>) -> Seq<char> {
    seq!['*', '*', '/'] + p
}

/// `**/p/**`: the directory `p` at any depth and everything beneath it.
pub open spec fn beneath(p: Seq<char>) -> Seq<char> {
    anywhere(p) + seq!['/', '*', '*']
}

/// The globs that one trimmed user pattern stands for: none for an empty
/// one; the pattern itself; with no `/`, also the pattern at any depth;
/// with no `*`, `?` or `[` either, also the directory and all beneath it.
pub open spec fn expansion(p: Seq<char>) -> Seq<Seq<char>> {
    if p.len() == 0 {
        Seq::<Seq<char>>::empty()
    } else if p.contains('/') {
        seq![p]
    } else if p.contains('*') || p.contains('?') || p.contains('[') {
        seq![p, anywhere(p)]
    } else {
        seq![p, anywhere(p), beneath(p)]
    }
}

/// The globs of all user patterns, each trimmed and expanded, in order.
pub open spec fn user_globs(ps: Seq<Seq<char>>) -> Seq<Seq<char>>
    decreases ps.len(),
{
    if ps.len() == 0 {
        Seq::<Seq<char>>::empty()
    } else {
        user_globs(ps.drop_last()) + expansion(trimmed(ps.last()))
    }
}

/// The whole ignore list: the defaults, then the user patterns' globs.
pub open spec fn ignore_globs(ps: Seq<Seq<char>>) -> Seq<Seq<char>> {
    default_globs() + user_globs(ps)
}

/// The text of each string.
pub open spec fn texts(v: Seq<String>) -> Seq<Seq<char>> {
    v.map_values(|s: String| s@)
}

fn has_char(s: &str, c: char) -> (r: bool)
    ensures
        r == s@.contains(c),
{
    let n = s.unicode_len();
    let mut i: usize = 0;
    while i < n
        invariant
            n == s@.len(),
            i <= n,
            forall|k: int| 0 <= k < i ==> s@[k] != c,
        decreases n - i,
    {
        if s.get_char(i) == c {
            return true;
        }
        i = i + 1;
    }
    false
}

/// The globs that one user pattern stands for, after trimming it.
pub fn expand_pattern(pattern: &str) -> (r: Vec<String>)
    ensures
        texts(r@) == expansion(trimmed(pattern@)),
{
    let p = trim_pattern(pattern);
    let mut r: Vec<String> = Vec::new();
    if p.as_str().unicode_len() == 0 {
        assert(texts(r@) =~= expansion(p@));
        return r;
    }
    r.push(p.clone());
    if has_char(p.as_str(), '/') {
        assert(texts(r@) =~= expansion(p@));
        return r;
    }
    proof {
        reveal_strlit("**/");
        reveal_strlit("/**");
        assert("**/"@ =~= seq!['*', '*', '/']);
        assert("/**"@ =~= seq!['/', '*', '*']);
    }
    let any = "**/".to_owned().concat(p.as_str());
    r.push(any.clone());
    assert(any@ =~= anywhere(p@));
    if has_char(p.as_str(), '*') || has_char(p.as_str(), '?') || has_char(p.as_str(), '[') {
        assert(texts(r@) =~= expansion(p@));
        return r;
    }
    let below = any.concat("/**");
    r.push(below);
    assert(below@ =~= beneath(p@));
    assert(texts(r@) =~= expansion(p@));
    r
}

/// The full ignore list for the given user patterns.
pub fn ignore_globs_for(patterns: &[String]) -> (r: Vec<String>)
    ensures
        texts(r@) == ignore_globs(texts(patterns@)),
{
    let mut r = default_ignores();
    let mut i: usize = 0;
    while i < patterns.len()
        invariant
            i <= patterns@.len(),
            texts(r@) == default_globs() + user_globs(texts(patterns@.take(i as int))),
        decreases patterns@.len() - i,
    {
        let mut e = expand_pattern(patterns[i].as_str());
        let ghost before = r@;
        let ghost added = e@;
        r.append(&mut e);
        proof {
            let ps = texts(patterns@.take(i + 1));
            assert(ps.drop_last() =~= texts(patterns@.take(i as int)));
            assert(ps.last() == patterns@[i as int]@);
            assert(texts(r@) =~= texts(before) + texts(added));
        }
        i = i + 1;
    }
    proof {
        assert(patterns@.take(i as int) =~= patterns@);
    }
    r
}

/// Why an ignore set could not be built.
#[derive(Debug)]
pub enum ConfigError {
    /// A glob did not parse, or the set could not be compiled.
    InvalidGlobPattern(globset::Error),
}

/// Every glob of `globs` parses.
pub open spec fn all_valid(globs: Seq<Seq<char>>) -> bool {
    forall|i: int| 0 <= i < globs.len() ==> glob_valid(#[trigger] globs[i])
}

/// Compiles the default globs and the user patterns into one matcher. It
/// succeeds exactly when every glob of the list parses and the set can be
/// compiled; on success the set holds exactly that list.
pub fn build_ignore_set(patterns: &[String]) -> (r: Result<globset::GlobSet, ConfigError>)
    ensures
        (r is Ok) == (all_valid(ignore_globs(texts(patterns@))) && set_builds(
            ignore_globs(texts(patterns@)),
        )),
        r matches Ok(s) ==> set_globs(s) == ignore_globs(texts(patterns@)),
{
    let globs = ignore_globs_for(patterns);
    let ghost all = ignore_globs(texts(patterns@));
    let mut b = new_builder();
    let mut i: usize = 0;
    while i < globs.len()
        invariant
            i <= globs@.len(),
            texts(globs@) == all,
            all == ignore_globs(texts(patterns@)),
            builder_globs(b) == all.take(i as int),
            forall|k: int| 0 <= k < i ==> glob_valid(#[trigger] all[k]),
        decreases globs@.len() - i,
    {
        assert(all[i as int] == globs@[i as int]@);
        match new_glob(globs[i].as_str()) {
            Ok(g) => {
                add_glob(&mut b, g);
                assert(all.take(i + 1) =~= all.take(i as int).push(all[i as int]));
            },
            Err(e) => {
                assert(!glob_valid(all[i as int]));
                return Err(ConfigError::InvalidGlobPattern(e));
            },
        }
        i = i + 1;
    }
    assert(all.take(i as int) =~= all);
    match build_set(&b) {
        Ok(s) => Ok(s),
        Err(e) => Err(ConfigError::InvalidGlobPattern(e)),
    }
}

} // verus!
