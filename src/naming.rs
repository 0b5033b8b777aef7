//! Session keys, output extensions and output file paths.
use vstd::prelude::*;

verus! {

/// Identifies one recording stream. A caller that names no session gets
/// `Default`, which no caller-supplied name can collide with.
#[derive(Clone, Debug)]
pub enum SessionKey {
    Default,
    Named(String),
}

impl View for SessionKey {
    type V = Option<Seq<char>>;

    open spec fn view(&self) -> Option<Seq<char>> {
        match self {
            SessionKey::Default => None,
            SessionKey::Named(s) => Some(s@),
        }
    }
}

pub open spec fn opt_str_view(o: Option<&str>) -> Option<Seq<char>> {
    match o {
        None => None,
        Some(s) => Some(s@),
    }
}

impl SessionKey {
    /// The key for an optional caller-supplied identifier.
    pub fn from_id(id: Option<String>) -> (r: SessionKey)
        ensures
            r@ == (match id {
                None => None,
                Some(s) => Some(s@),
            }),
    {
        match id {
            None => SessionKey::Default,
            Some(s) => SessionKey::Named(s),
        }
    }

    /// A copy of this key.
    pub fn duplicate(&self) -> (r: SessionKey)
        ensures
            r@ == self@,
    {
        match self {
            SessionKey::Default => SessionKey::Default,
            SessionKey::Named(s) => SessionKey::Named(s.clone()),
        }
    }

    /// Whether two keys denote the same session.
    pub fn same_as(&self, other: &SessionKey) -> (r: bool)
        ensures
            r == (self@ == other@),
    {
        match self {
            SessionKey::Default => other.is_default(),
            SessionKey::Named(a) => match other {
                SessionKey::Default => false,
                SessionKey::Named(b) => a.eq(b),
            },
        }
    }

    /// Whether this is the default session.
    pub fn is_default(&self) -> (r: bool)
        ensures
            r == (self@ is None),
    {
        match self {
            SessionKey::Default => true,
            SessionKey::Named(_) => false,
        }
    }

    /// Whether this key designates the audio stream.
    pub fn is_audio(&self) -> (r: bool)
        ensures
            r == (self@ == Some("audio"@)),
    {
        match self {
            SessionKey::Default => false,
            SessionKey::Named(s) => {
                let audio = String::from_str("audio");
                *s == audio
            },
        }
    }
}

/// `pat` occurs in `s` as a contiguous run of characters.
pub open spec fn contains_seq(s: Seq<char>, pat: Seq<char>) -> bool {
    exists|i: int|
        0 <= i && i + pat.len() <= s.len() && #[trigger] s.subrange(i, i + pat.len()) == pat
}

/// Whether `pat` occurs in `s` starting at character `i`.
fn occurs_at(s: &str, pat: &str, i: usize) -> (r: bool)
    requires
        i + pat@.len() <= s@.len(),
    ensures
        r == (s@.subrange(i as int, i + pat@.len()) == pat@),
{
    let n = s.unicode_len();
    let m = pat.unicode_len();
    let mut j: usize = 0;
    while j < m
        invariant
            n == s@.len(),
            m == pat@.len(),
            i + m <= s@.len(),
            j <= m,
            forall|k: int| 0 <= k < j ==> s@[i + k] == pat@[k],
        decreases m - j,
    {
        if s.get_char(i + j) != pat.get_char(j) {
            assert(s@.subrange(i as int, i + m)[j as int] != pat@[j as int]);
            return false;
        }
        j = j + 1;
    }
    assert(s@.subrange(i as int, i + m) =~= pat@);
    true
}

/// Whether `pat` occurs anywhere in `s`.
pub fn contains_str(s: &str, pat: &str) -> (r: bool)
    ensures
        r == contains_seq(s@, pat@),
{
    let n = s.unicode_len();
    let m = pat.unicode_len();
    if m > n {
        return false;
    }
    let mut i: usize = 0;
    while i <= n - m
        invariant
            n == s@.len(),
            m == pat@.len(),
            m <= n,
            i <= n - m + 1,
            forall|k: int| 0 <= k < i ==> #[trigger] s@.subrange(k, k + m) != pat@,
        decreases n - m + 1 - i,
    {
        if occurs_at(s, pat, i) {
            return true;
        }
        if i == n - m {
            return false;
        }
        i = i + 1;
    }
    false
}

/// The container format of an output file.
#[derive(Clone, Copy, Debug, PartialEq, Eq, Structural)]
pub enum Extension {
    Webm,
    Mp4,
    M4a,
}

/// A MIME hint that mentions webm gives webm; otherwise the audio stream is
/// written as m4a and every other stream as mp4.
pub open spec fn extension_spec(mime: Option<Seq<char>>, key: Option<Seq<char>>) -> Extension {
    if mime is Some && contains_seq(mime->0, "webm"@) {
        Extension::Webm
    } else if key == Some("audio"@) {
        Extension::M4a
    } else {
        Extension::Mp4
    }
}

pub open spec fn extension_text(e: Extension) -> Seq<char> {
    match e {
        Extension::Webm => "webm"@,
        Extension::Mp4 => "mp4"@,
        Extension::M4a => "m4a"@,
    }
}

impl Extension {
    /// The extension for a MIME hint and a session key.
    pub fn for_session(mime: Option<&str>, key: &SessionKey) -> (r: Extension)
        ensures
            r == extension_spec(opt_str_view(mime), key@),
    {
        let webm = match mime {
            Some(m) => contains_str(m, "webm"),
            None => false,
        };
        if webm {
            Extension::Webm
        } else if key.is_audio() {
            Extension::M4a
        } else {
            Extension::Mp4
        }
    }

    /// The extension as written after the dot.
    pub fn as_str(&self) -> (r: &'static str)
        ensures
            r@ == extension_text(*self),
    {
        match self {
            Extension::Webm => "webm",
            Extension::Mp4 => "mp4",
            Extension::M4a => "m4a",
        }
    }
}

/// `vlog_recording` for the default session, `vlog_recording_<key>` otherwise.
pub open spec fn stem_spec(key: Option<Seq<char>>) -> Seq<char> {
    match key {
        None => "vlog_recording"@,
        Some(k) => "vlog_recording_"@ + k,
    }
}

/// `_<suffix>` for a non-empty suffix, nothing otherwise.
pub open spec fn suffix_part(suffix: Option<Seq<char>>) -> Seq<char> {
    match suffix {
        Some(s) => if s.len() > 0 {
            "_"@ + s
        } else {
            Seq::empty()
        },
        None => Seq::empty(),
    }
}

/// `<stem>[_<suffix>].<ext>`
pub open spec fn file_name_spec(
    mime: Option<Seq<char>>,
    key: Option<Seq<char>>,
    suffix: Option<Seq<char>>,
) -> Seq<char> {
    stem_spec(key) + suffix_part(suffix) + "."@ + extension_text(extension_spec(mime, key))
}

/// `name` inside directory `dir`: a separator is put between the two unless
/// `dir` is empty or already ends with one.
pub open spec fn join_spec(dir: Seq<char>, name: Seq<char>) -> Seq<char> {
    if dir.len() == 0 || dir.last() == '/' {
        dir + name
    } else {
        dir + "/"@ + name
    }
}

pub open spec fn output_path_spec(
    dir: Seq<char>,
    mime: Option<Seq<char>>,
    key: Option<Seq<char>>,
    suffix: Option<Seq<char>>,
) -> Seq<char> {
    join_spec(dir, file_name_spec(mime, key, suffix))
}

/// The file name of a session's output.
pub fn file_name(mime: Option<&str>, key: &SessionKey, suffix: Option<&str>) -> (r: String)
    ensures
        r@ == file_name_spec(opt_str_view(mime), key@, opt_str_view(suffix)),
{
    let mut name = String::from_str("vlog_recording");
    match key {
        SessionKey::Default => {},
        SessionKey::Named(k) => {
            name.append("_");
            name.append(k.as_str());
        },
    }
    proof {
        reveal_strlit("vlog_recording");
        reveal_strlit("vlog_recording_");
        reveal_strlit("_");
        assert("vlog_recording"@ + "_"@ =~= "vlog_recording_"@);
    }
    let ghost stem = name@;
    assert(stem =~= stem_spec(key@));
    match suffix {
        Some(s) => {
            if s.unicode_len() > 0 {
                name.append("_");
                name.append(s);
            }
        },
        None => {},
    }
    assert(name@ =~= stem_spec(key@) + suffix_part(opt_str_view(suffix)));
    let ext = Extension::for_session(mime, key);
    name.append(".");
    name.append(ext.as_str());
    assert(name@ =~= file_name_spec(opt_str_view(mime), key@, opt_str_view(suffix)));
    name
}

/// The full path of a session's output file inside `dir`.
pub fn output_path(dir: &str, mime: Option<&str>, key: &SessionKey, suffix: Option<&str>) -> (r:
    String)
    ensures
        r@ == output_path_spec(dir@, opt_str_view(mime), key@, opt_str_view(suffix)),
{
    let name = file_name(mime, key, suffix);
    let n = dir.unicode_len();
    let mut path = String::from_str(dir);
    if n > 0 && dir.get_char(n - 1) != '/' {
        path.append("/");
    }
    path.append(name.as_str());
    path
}

} // verus!
