//! The session registry: which output file belongs to which session key,
//! and which sessions are currently open for appending.
use crate::naming::{opt_str_view, output_path, output_path_spec, SessionKey};
use vstd::prelude::*;

verus! {

/// What can go wrong in a recording session.
#[derive(Debug)]
pub enum RecorderError {
    /// The host could not resolve or create the output directory.
    DirectoryResolutionFailed(String),
    /// A chunk arrived for a session that was never initialized (or was
    /// already finalized).
    NotInitialized(SessionKey),
    /// Finalize was asked of a session that is not open.
    NoActiveSession(SessionKey),
    /// Opening, writing, reading or deleting the output file failed.
    IoFailure(String),
    /// No output file is known, or none exists, for the session.
    NotFound(SessionKey),
}

/// The abstract state of a registry: the output path last assigned to each
/// key, and the keys whose sessions are open.
pub struct Sessions {
    pub paths: Map<Option<Seq<char>>, Seq<char>>,
    pub active: Set<Option<Seq<char>>>,
}

impl Sessions {
    pub open spec fn empty() -> Sessions {
        Sessions { paths: Map::empty(), active: Set::empty() }
    }

    /// Every open session has a path.
    pub open spec fn wf(self) -> bool {
        forall|k| #[trigger] self.active.contains(k) ==> self.paths.contains_key(k)
    }

    /// Init: the key's session is (re)opened on `path`; the previous entry,
    /// if any, is abandoned.
    pub open spec fn init(self, key: Option<Seq<char>>, path: Seq<char>) -> Sessions {
        Sessions { paths: self.paths.insert(key, path), active: self.active.insert(key) }
    }

    /// Finalize: the key's session is closed; its path is remembered for
    /// reading back.
    pub open spec fn finalize(self, key: Option<Seq<char>>) -> Sessions {
        Sessions { paths: self.paths, active: self.active.remove(key) }
    }
}

struct Entry {
    key: SessionKey,
    path: String,
    active: bool,
}

/// The registry of recording sessions, one entry per key.
pub struct Registry {
    entries: Vec<Entry>,
    paths: Ghost<Map<Option<Seq<char>>, Seq<char>>>,
    active: Ghost<Set<Option<Seq<char>>>>,
}

impl View for Registry {
    type V = Sessions;

    closed spec fn view(&self) -> Sessions {
        Sessions { paths: self.paths@, active: self.active@ }
    }
}

impl Registry {
    /// The entries agree with the abstract state, one entry per key.
    pub closed spec fn wf(&self) -> bool {
        &&& forall|i: int|
            0 <= i < self.entries@.len() ==> {
                let e = #[trigger] self.entries@[i];
                &&& self.paths@.contains_key(e.key@)
                &&& self.paths@[e.key@] == e.path@
                &&& self.active@.contains(e.key@) == e.active
            }
        &&& forall|k|
            #[trigger] self.paths@.contains_key(k) ==> exists|i: int|
                0 <= i < self.entries@.len() && #[trigger] self.entries@[i].key@ == k
        &&& forall|k| #[trigger] self.active@.contains(k) ==> self.paths@.contains_key(k)
        &&& forall|i: int, j: int|
            0 <= i < self.entries@.len() && 0 <= j < self.entries@.len() && i != j
                ==> #[trigger] self.entries@[i].key@ != #[trigger] self.entries@[j].key@
    }

    /// A registry with no sessions.
    pub fn new() -> (r: Registry)
        ensures
            r.wf(),
            r@ == Sessions::empty(),
    {
        Registry { entries: Vec::new(), paths: Ghost(Map::empty()), active: Ghost(Set::empty()) }
    }

    /// The position of the key's entry, if it has one.
    fn find(&self, key: &SessionKey) -> (r: Option<usize>)
        requires
            self.wf(),
        ensures
            match r {
                Some(i) => i < self.entries@.len() && self.entries@[i as int].key@ == key@,
                None => !self@.paths.contains_key(key@),
            },
    {
        let mut i: usize = 0;
        while i < self.entries.len()
            invariant
                i <= self.entries@.len(),
                forall|j: int| 0 <= j < i ==> #[trigger] self.entries@[j].key@ != key@,
            decreases self.entries@.len() - i,
        {
            if self.entries[i].key.same_as(key) {
                return Some(i);
            }
            i = i + 1;
        }
        None
    }

    /// Init: opens (or reopens) the session for `key` on the file named after
    /// the key, the MIME hint and the suffix inside `dir`, and returns that
    /// path. The host clears any file already at the path, so that the
    /// session's appends start from an empty file.
    pub fn init_recording(
        &mut self,
        dir: &str,
        mime: Option<&str>,
        key: SessionKey,
        suffix: Option<&str>,
    ) -> (r: String)
        requires
            old(self).wf(),
        ensures
            final(self).wf(),
            r@ == output_path_spec(dir@, opt_str_view(mime), key@, opt_str_view(suffix)),
            final(self)@ == old(self)@.init(key@, r@),
    {
        let path = output_path(dir, mime, &key, suffix);
        let ghost k = key@;
        let found = self.find(&key);
        let entry = Entry { key, path: path.clone(), active: true };
        match found {
            Some(i) => {
                self.entries.set(i, entry);
            },
            None => {
                self.entries.push(entry);
            },
        }
        self.paths = Ghost(self.paths@.insert(k, path@));
        self.active = Ghost(self.active@.insert(k));
        proof {
            let n = self.entries@.len();
            assert forall|j: int| 0 <= j < n implies #[trigger] self.paths@.contains_key(
                self.entries@[j].key@,
            ) by {
                if j < old(self).entries@.len() && self.entries@[j].key@ != k {
                    assert(self.entries@[j] == old(self).entries@[j]);
                }
            }
            assert forall|kk| #[trigger] self.paths@.contains_key(kk) implies exists|j: int|
                0 <= j < n && #[trigger] self.entries@[j].key@ == kk by {
                if kk != k {
                    let j = choose|j: int|
                        0 <= j < old(self).entries@.len() && #[trigger] old(
                            self,
                        ).entries@[j].key@ == kk;
                    assert(self.entries@[j] == old(self).entries@[j]);
                } else {
                    match found {
                        Some(i) => assert(self.entries@[i as int].key@ == kk),
                        None => assert(self.entries@[n - 1].key@ == kk),
                    }
                }
            }
        }
        path
    }

    /// The path that a chunk for `key` is appended to: that of the key's open
    /// session, or `NotInitialized` when it has none. The registry is left as
    /// it is either way.
    pub fn append_target(&self, key: &SessionKey) -> (r: Result<String, RecorderError>)
        requires
            self.wf(),
        ensures
            self@.active.contains(key@) <==> r is Ok,
            match r {
                Ok(p) => p@ == self@.paths[key@],
                Err(e) => e matches RecorderError::NotInitialized(k) && k@ == key@,
            },
    {
        match self.find(key) {
            Some(i) => {
                if self.entries[i].active {
                    Ok(self.entries[i].path.clone())
                } else {
                    Err(RecorderError::NotInitialized(key.duplicate()))
                }
            },
            None => Err(RecorderError::NotInitialized(key.duplicate())),
        }
    }

    /// Finalize: closes the session for `key` and returns its path, or fails
    /// with `NoActiveSession`, changing nothing, when it is not open.
    pub fn finalize_recording(&mut self, key: &SessionKey) -> (r: Result<String, RecorderError>)
        requires
            old(self).wf(),
        ensures
            final(self).wf(),
            old(self)@.active.contains(key@) <==> r is Ok,
            match r {
                Ok(p) => {
                    &&& p@ == old(self)@.paths[key@]
                    &&& final(self)@ == old(self)@.finalize(key@)
                },
                Err(e) => {
                    &&& e matches RecorderError::NoActiveSession(k) && k@ == key@
                    &&& final(self)@ == old(self)@
                },
            },
    {
        match self.find(key) {
            Some(i) => {
                if self.entries[i].active {
                    let path = self.entries[i].path.clone();
                    self.entries[i].active = false;
                    self.active = Ghost(self.active@.remove(key@));
                    proof {
                        let n = self.entries@.len();
                        assert forall|j: int| 0 <= j < n implies {
                            let e = #[trigger] self.entries@[j];
                            &&& self.paths@.contains_key(e.key@)
                            &&& self.paths@[e.key@] == e.path@
                            &&& self.active@.contains(e.key@) == e.active
                        } by {
                            if j != i {
                                assert(self.entries@[j] == old(self).entries@[j]);
                                assert(old(self).entries@[j].key@ != old(
                                    self,
                                ).entries@[i as int].key@);
                            }
                        }
                        assert forall|kk| #[trigger] self.paths@.contains_key(kk) implies exists|
                            j: int,
                        | 0 <= j < n && #[trigger] self.entries@[j].key@ == kk by {
                            let j = choose|j: int|
                                0 <= j < n && #[trigger] old(self).entries@[j].key@ == kk;
                            assert(self.entries@[j].key@ == old(self).entries@[j].key@);
                        }
                        assert forall|a: int, b: int|
                            0 <= a < n && 0 <= b < n && a != b implies #[trigger] self.entries@[a].key@
                            != #[trigger] self.entries@[b].key@ by {
                            assert(self.entries@[a].key@ == old(self).entries@[a].key@);
                            assert(self.entries@[b].key@ == old(self).entries@[b].key@);
                        }
                    }
                    Ok(path)
                } else {
                    Err(RecorderError::NoActiveSession(key.duplicate()))
                }
            },
            None => Err(RecorderError::NoActiveSession(key.duplicate())),
        }
    }

    /// Read-back: the path whose contents are read back for `key`: the path
    /// last assigned to it, whether or not its session is still open; or
    /// `NotFound` when it was never initialized.
    pub fn read_target(&self, key: &SessionKey) -> (r: Result<String, RecorderError>)
        requires
            self.wf(),
        ensures
            self@.paths.contains_key(key@) <==> r is Ok,
            match r {
                Ok(p) => p@ == self@.paths[key@],
                Err(e) => e matches RecorderError::NotFound(k) && k@ == key@,
            },
    {
        match self.find(key) {
            Some(i) => Ok(self.entries[i].path.clone()),
            None => Err(RecorderError::NotFound(key.duplicate())),
        }
    }
}

} // verus!
