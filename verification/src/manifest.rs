//! Plugin manifests: the plugin id format, engine version requirements and the
//! checks that a parsed plugin manifest must pass.
use vstd::prelude::*;
use crate::text::{
    all_digits, chars_of, digit_value, digits_value, parse_u32, parse_u32_spec, str_eq, trim, trim_chars,
    trim_end, trim_start,
};

verus! {

/// The version of this host, which `engine` requirements are held against.
pub const HOST_VERSION: &'static str = "1.0.0";

/// Why a manifest was refused.
#[derive(Debug, Clone, Copy, PartialEq, Eq)]
pub enum ManifestError {
    /// The id does not have the form `@author/plugin-name`.
    InvalidPluginId,
    /// The runtime is neither `widget` nor `script`.
    InvalidRuntime,
    /// The engine requirement is not met or cannot be read.
    Engine(EngineError),
}

/// Why an engine requirement was refused.
#[derive(Debug, Clone, Copy, PartialEq, Eq)]
pub enum EngineError {
    /// A version in the requirement (or the host's own) is not `X.Y.Z`.
    InvalidSemver(SemverError),
    /// The host version is lower than the required one.
    NotSatisfied,
    /// The requirement is neither empty, `*`, nor `>=X.Y.Z`.
    Unsupported,
}

/// Why a text is not a `X.Y.Z` version.
#[derive(Debug, Clone, Copy, PartialEq, Eq)]
pub enum SemverError {
    /// It does not have exactly three dot-separated parts.
    PartCount,
    /// The first part is not a `u32`.
    InvalidMajor,
    /// The second part is not a `u32`.
    InvalidMinor,
    /// The third part is not a `u32`.
    InvalidPatch,
}

/// A parsed plugin manifest.
pub struct Manifest {
    pub id: String,
    pub runtime: String,
    pub capabilities: Vec<String>,
    pub permissions: Vec<String>,
    pub entry: String,
    pub engine: String,
    pub name: String,
    pub version: String,
}

/// A lowercase ASCII letter.
pub open spec fn is_lower(c: char) -> bool {
    'a' <= c && c <= 'z'
}

/// A character allowed in the author and the name of a plugin id.
pub open spec fn is_id_char(c: char) -> bool {
    is_lower(c) || ('0' <= c && c <= '9') || c == '-'
}

/// `id` is `@`, an author, `/`, a name: author and name are non-empty, made of
/// lowercase ASCII letters, digits and `-`, and each starts with a letter.
pub open spec fn valid_plugin_id(id: Seq<char>) -> bool {
    &&& id.len() >= 4
    &&& id[0] == '@'
    &&& exists|k: int|
        #![trigger id[k]]
        2 <= k < id.len() - 1 && id[k] == '/' && is_lower(id[1]) && is_lower(id[k + 1]) && (
        forall|j: int| 1 <= j < id.len() && j != k ==> is_id_char(#[trigger] id[j]))
}

/// What a valid plugin id is made of: it starts with `@`, and every later character is
/// `/`, a lowercase ASCII letter, an ASCII digit or `-`; so no character of a valid id
/// is an uppercase letter, a space, `_` or `.`. Exactly one `/` follows the `@`.
pub proof fn lemma_valid_id_characters(id: Seq<char>)
    requires
        valid_plugin_id(id),
    ensures
        id[0] == '@',
        forall|j: int|
            1 <= j < id.len() ==> {
                let c = #[trigger] id[j];
                c == '/' || ('a' <= c && c <= 'z') || ('0' <= c && c <= '9') || c == '-'
            },
        forall|j: int| 0 <= j < id.len() ==> !('A' <= #[trigger] id[j] && id[j] <= 'Z'),
        forall|j: int| 0 <= j < id.len() ==> #[trigger] id[j] != ' ' && id[j] != '_' && id[j] != '.',
        forall|i: int, j: int| 1 <= i < j < id.len() && #[trigger] id[i] == '/' ==> #[trigger] id[j] != '/',
{
    let k = choose|k: int|
        #![trigger id[k]]
        2 <= k < id.len() - 1 && id[k] == '/' && is_lower(id[1]) && is_lower(id[k + 1]) && (forall|j: int|
            1 <= j < id.len() && j != k ==> is_id_char(#[trigger] id[j]));
    assert forall|i: int, j: int| 1 <= i < j < id.len() && #[trigger] id[i] == '/' implies #[trigger] id[j] != '/' by {
        if i != k {
            assert(is_id_char(id[i]));
        }
        if j != k {
            assert(is_id_char(id[j]));
        }
    }
    assert forall|j: int| 1 <= j < id.len() implies {
        let c = #[trigger] id[j];
        c == '/' || ('a' <= c && c <= 'z') || ('0' <= c && c <= '9') || c == '-'
    } by {
        if j != k {
            assert(is_id_char(id[j]));
        }
    }
}

fn is_lower_exec(c: char) -> (r: bool)
    ensures
        r == is_lower(c),
{
    'a' <= c && c <= 'z'
}

fn is_id_char_exec(c: char) -> (r: bool)
    ensures
        r == is_id_char(c),
{
    is_lower_exec(c) || ('0' <= c && c <= '9') || c == '-'
}

/// Checks that `id` has the form `@author/plugin-name`.
pub fn validate_plugin_id(id: &str) -> (r: Result<(), ManifestError>)
    ensures
        r is Ok <==> valid_plugin_id(id@),
        r matches Err(e) ==> e == ManifestError::InvalidPluginId,
{
    let cs = chars_of(id);
    let n = cs.len();
    if n < 4 || cs[0] != '@' {
        return Err(ManifestError::InvalidPluginId);
    }
    let mut k: usize = 1;
    while k < n && cs[k] != '/'
        invariant
            1 <= k <= n,
            n == cs@.len(),
            forall|j: int| 1 <= j < k ==> cs@[j] != '/',
        decreases n - k,
    {
        k = k + 1;
    }
    if k == n || k < 2 || k + 1 >= n {
        proof {
            if valid_plugin_id(id@) {
                let w = choose|w: int|
                    #![trigger id@[w]]
                    2 <= w < id@.len() - 1 && id@[w] == '/' && is_lower(id@[1]) && is_lower(
                        id@[w + 1],
                    ) && (forall|j: int|
                        1 <= j < id@.len() && j != w ==> is_id_char(#[trigger] id@[j]));
                if k < n {
                    assert(is_id_char(id@[k as int]));
                }
                assert(id@[w] == '/');
            }
        }
        return Err(ManifestError::InvalidPluginId);
    }
    let mut j: usize = 1;
    while j < n
        invariant
            1 <= j <= n,
            n == cs@.len(),
            cs@ == id@,
            2 <= k < n - 1,
            cs@[k as int] == '/',
            forall|i: int| 1 <= i < k ==> cs@[i] != '/',
            forall|i: int| 1 <= i < j && i != k ==> is_id_char(#[trigger] cs@[i]),
        decreases n - j,
    {
        if j != k && !is_id_char_exec(cs[j]) {
            proof {
                if valid_plugin_id(id@) {
                    let w = choose|w: int|
                        #![trigger id@[w]]
                        2 <= w < id@.len() - 1 && id@[w] == '/' && is_lower(id@[1]) && is_lower(
                            id@[w + 1],
                        ) && (forall|i: int|
                            1 <= i < id@.len() && i != w ==> is_id_char(#[trigger] id@[i]));
                    if w != k {
                        assert(is_id_char(id@[k as int]));
                    } else {
                        assert(is_id_char(id@[j as int]));
                    }
                }
            }
            return Err(ManifestError::InvalidPluginId);
        }
        j = j + 1;
    }
    if !is_lower_exec(cs[1]) || !is_lower_exec(cs[k + 1]) {
        proof {
            if valid_plugin_id(id@) {
                let w = choose|w: int|
                    #![trigger id@[w]]
                    2 <= w < id@.len() - 1 && id@[w] == '/' && is_lower(id@[1]) && is_lower(
                        id@[w + 1],
                    ) && (forall|i: int|
                        1 <= i < id@.len() && i != w ==> is_id_char(#[trigger] id@[i]));
                if w != k {
                    assert(is_id_char(id@[k as int]));
                }
            }
        }
        return Err(ManifestError::InvalidPluginId);
    }
    proof {
        assert(id@[k as int] == '/');
    }
    Ok(())
}

/// `a` is the same version as `b` or a later one.
pub open spec fn semver_gte_spec(a: (u32, u32, u32), b: (u32, u32, u32)) -> bool {
    a.0 > b.0 || (a.0 == b.0 && a.1 > b.1) || (a.0 == b.0 && a.1 == b.1 && a.2 >= b.2)
}

/// Compares two versions: whether `a` is at least `b`.
pub fn semver_gte(a: (u32, u32, u32), b: (u32, u32, u32)) -> (r: bool)
    ensures
        r == semver_gte_spec(a, b),
{
    a.0 > b.0 || (a.0 == b.0 && a.1 > b.1) || (a.0 == b.0 && a.1 == b.1 && a.2 >= b.2)
}

/// The pieces of `s` between its `.` characters (one more piece than there are dots),
/// as `str::split('.')` gives them.
pub open spec fn split_dots(s: Seq<char>) -> Seq<Seq<char>>
    decreases s.len(),
{
    if s.len() == 0 {
        seq![Seq::<char>::empty()]
    } else {
        let r = split_dots(s.drop_last());
        if s.last() == '.' {
            r.push(Seq::<char>::empty())
        } else {
            r.update(r.len() - 1, r.last().push(s.last()))
        }
    }
}

proof fn lemma_split_dots_nonempty(s: Seq<char>)
    ensures
        split_dots(s).len() >= 1,
    decreases s.len(),
{
    if s.len() > 0 {
        lemma_split_dots_nonempty(s.drop_last());
    }
}

/// What `parse_semver` gives for the text `s`.
pub open spec fn parse_semver_spec(s: Seq<char>) -> Result<(u32, u32, u32), SemverError> {
    let parts = split_dots(trim(s));
    if parts.len() != 3 {
        Err(SemverError::PartCount)
    } else {
        match parse_u32_spec(parts[0]) {
            None => Err(SemverError::InvalidMajor),
            Some(major) => match parse_u32_spec(parts[1]) {
                None => Err(SemverError::InvalidMinor),
                Some(minor) => match parse_u32_spec(parts[2]) {
                    None => Err(SemverError::InvalidPatch),
                    Some(patch) => Ok((major, minor, patch)),
                },
            },
        }
    }
}

fn split_on_dots(t: &Vec<char>) -> (parts: Vec<Vec<char>>)
    ensures
        parts@.len() == split_dots(t@).len(),
        forall|i: int| 0 <= i < parts@.len() ==> #[trigger] parts@[i]@ == split_dots(t@)[i],
{
    let mut parts: Vec<Vec<char>> = Vec::new();
    let mut cur: Vec<char> = Vec::new();
    let n = t.len();
    for i in 0..n
        invariant
            n == t@.len(),
            parts@.len() + 1 == split_dots(t@.take(i as int)).len(),
            forall|j: int| 0 <= j < parts@.len() ==> #[trigger] parts@[j]@ == split_dots(t@.take(i as int))[j],
            cur@ == split_dots(t@.take(i as int)).last(),
    {
        proof {
            lemma_split_dots_nonempty(t@.take(i as int));
            assert(t@.take(i + 1).drop_last() =~= t@.take(i as int));
        }
        let c = t[i];
        if c == '.' {
            let done = cur;
            parts.push(done);
            cur = Vec::new();
            proof {
                assert(cur@ =~= Seq::<char>::empty());
            }
        } else {
            cur.push(c);
        }
    }
    proof {
        assert(t@.take(n as int) =~= t@);
    }
    parts.push(cur);
    parts
}

/// Parses `X.Y.Z` (surrounding whitespace allowed) into its three numbers.
pub fn parse_semver(s: &str) -> (r: Result<(u32, u32, u32), SemverError>)
    ensures
        r == parse_semver_spec(s@),
{
    let cs = chars_of(s);
    parse_semver_chars(cs.as_slice())
}

fn parse_semver_chars(cs: &[char]) -> (r: Result<(u32, u32, u32), SemverError>)
    ensures
        r == parse_semver_spec(cs@),
{
    let t = trim_chars(cs);
    let parts = split_on_dots(&t);
    if parts.len() != 3 {
        return Err(SemverError::PartCount);
    }
    let major = match parse_u32(parts[0].as_slice()) {
        None => {
            return Err(SemverError::InvalidMajor);
        },
        Some(v) => v,
    };
    let minor = match parse_u32(parts[1].as_slice()) {
        None => {
            return Err(SemverError::InvalidMinor);
        },
        Some(v) => v,
    };
    let patch = match parse_u32(parts[2].as_slice()) {
        None => {
            return Err(SemverError::InvalidPatch);
        },
        Some(v) => v,
    };
    Ok((major, minor, patch))
}

/// The version of this host as numbers: `HOST_VERSION` read as `X.Y.Z`.
pub open spec fn host_version() -> (u32, u32, u32) {
    (1, 0, 0)
}

/// `HOST_VERSION` reads as `host_version()`.
pub proof fn lemma_host_version_parses()
    ensures
        parse_semver_spec(HOST_VERSION@) == Ok::<(u32, u32, u32), SemverError>(host_version()),
{
    reveal_strlit("1.0.0");
    let s = HOST_VERSION@;
    assert(s =~= seq!['1', '.', '0', '.', '0']);
    assert(trim_start(s) == s);
    assert(trim_end(s) == s);
    reveal_with_fuel(split_dots, 6);
    assert(s.drop_last() =~= seq!['1', '.', '0', '.']);
    assert(s.drop_last().drop_last() =~= seq!['1', '.', '0']);
    assert(s.drop_last().drop_last().drop_last() =~= seq!['1', '.']);
    assert(s.drop_last().drop_last().drop_last().drop_last() =~= seq!['1']);
    assert(seq!['1'].drop_last() =~= Seq::<char>::empty());
    let parts = split_dots(s);
    assert(parts =~= seq![seq!['1'], seq!['0'], seq!['0']]);
    assert(seq!['1'].drop_last() =~= Seq::<char>::empty());
    assert(seq!['0'].drop_last() =~= Seq::<char>::empty());
    assert(seq!['1'].last() == '1');
    assert(seq!['0'].last() == '0');
    assert(digits_value(Seq::<char>::empty()) == 0);
    assert(digit_value('1') == Some(1nat));
    assert(digit_value('0') == Some(0nat));
    assert(digits_value(seq!['1']) == 1);
    assert(digits_value(seq!['0']) == 0);
    assert(all_digits(seq!['1']));
    assert(all_digits(seq!['0']));
}

/// What `check_engine_version` decides for the requirement `required`.
pub open spec fn engine_check_spec(required: Seq<char>) -> Result<(), EngineError> {
    let r = trim(required);
    if r.len() == 0 || r == seq!['*'] {
        Ok(())
    } else if r.len() >= 2 && r[0] == '>' && r[1] == '=' {
        match parse_semver_spec(r.subrange(2, r.len() as int)) {
            Err(e) => Err(EngineError::InvalidSemver(e)),
            Ok(v) => if semver_gte_spec(host_version(), v) {
                Ok(())
            } else {
                Err(EngineError::NotSatisfied)
            },
        }
    } else {
        Err(EngineError::Unsupported)
    }
}

/// Checks an `engine` requirement: empty or `*` accepts any host, `>=X.Y.Z` accepts a
/// host whose version is at least `X.Y.Z`; any other form is refused.
pub fn check_engine_version(required: &str) -> (r: Result<(), EngineError>)
    ensures
        r == engine_check_spec(required@),
{
    let cs = chars_of(required);
    let t = trim_chars(cs.as_slice());
    let n = t.len();
    if n == 0 || (n == 1 && t[0] == '*') {
        proof {
            if n == 1 {
                assert(t@ =~= seq!['*']);
            }
        }
        return Ok(());
    }
    proof {
        if n == 1 {
            assert(t@ != seq!['*']) by {
                assert(seq!['*'][0] == '*');
            }
        } else {
            assert(t@.len() != seq!['*'].len());
        }
    }
    if n >= 2 && t[0] == '>' && t[1] == '=' {
        let host = match parse_semver(HOST_VERSION) {
            Err(e) => {
                proof {
                    lemma_host_version_parses();
                }
                return Err(EngineError::InvalidSemver(e));
            },
            Ok(v) => v,
        };
        proof {
            lemma_host_version_parses();
        }
        let mut rest: Vec<char> = Vec::new();
        let mut i: usize = 2;
        while i < n
            invariant
                2 <= i <= n,
                n == t@.len(),
                rest@ == t@.subrange(2, i as int),
            decreases n - i,
        {
            rest.push(t[i]);
            proof {
                assert(rest@ =~= t@.subrange(2, i + 1));
            }
            i = i + 1;
        }
        match parse_semver_chars(rest.as_slice()) {
            Err(e) => Err(EngineError::InvalidSemver(e)),
            Ok(v) => {
                if semver_gte(host, v) {
                    Ok(())
                } else {
                    Err(EngineError::NotSatisfied)
                }
            },
        }
    } else {
        Err(EngineError::Unsupported)
    }
}

/// What `validate_manifest` decides for a manifest with these fields.
pub open spec fn manifest_check_spec(id: Seq<char>, runtime: Seq<char>, engine: Seq<char>) -> Result<
    (),
    ManifestError,
> {
    if !valid_plugin_id(id) {
        Err(ManifestError::InvalidPluginId)
    } else if runtime != "widget"@ && runtime != "script"@ {
        Err(ManifestError::InvalidRuntime)
    } else if engine.len() > 0 {
        match engine_check_spec(engine) {
            Err(e) => Err(ManifestError::Engine(e)),
            Ok(()) => Ok(()),
        }
    } else {
        Ok(())
    }
}

/// The checks a parsed manifest must pass before the host accepts it: a well-formed
/// plugin id, a `widget` or `script` runtime, and an engine requirement this host meets.
pub fn validate_manifest(manifest: &Manifest) -> (r: Result<(), ManifestError>)
    ensures
        r == manifest_check_spec(manifest.id@, manifest.runtime@, manifest.engine@),
{
    validate_plugin_id(manifest.id.as_str())?;
    if !str_eq(manifest.runtime.as_str(), "widget") && !str_eq(manifest.runtime.as_str(), "script") {
        return Err(ManifestError::InvalidRuntime);
    }
    if !manifest.engine.as_str().is_empty() {
        match check_engine_version(manifest.engine.as_str()) {
            Err(e) => {
                return Err(ManifestError::Engine(e));
            },
            Ok(()) => {},
        }
    }
    Ok(())
}


/// Version comparison is a total order: every version is at least itself; two versions
/// each at least the other are the same; it is transitive; and of any two versions one
/// is at least the other.
pub proof fn lemma_semver_order(a: (u32, u32, u32), b: (u32, u32, u32), c: (u32, u32, u32))
    ensures
        semver_gte_spec(a, a),
        semver_gte_spec(a, b) && semver_gte_spec(b, a) ==> a == b,
        semver_gte_spec(a, b) && semver_gte_spec(b, c) ==> semver_gte_spec(a, c),
        semver_gte_spec(a, b) || semver_gte_spec(b, a),
{
}

} // verus!
