//! Where skills live under a storage directory, which names are accepted, and
//! what removing or listing decides from what is found on disk.
use vstd::prelude::*;
use vstd::string::StringExecFns;

use crate::order::{lemma_sorted_permutation_unique, non_decreasing, sort_strings};
use crate::text::{
    chars_of, contains_char, contains_whitespace, has_white_space, is_white_space, leading_ws, str_eq,
    trailing_ws, trim, trimmed, views,
};

verus! {

/// The path that `base.join(p)` gives for Unix paths: an absolute `p`
/// replaces `base`, otherwise a separator is put between them unless `base`
/// is empty or already ends with one.
pub open spec fn path_join(base: Seq<char>, p: Seq<char>) -> Seq<char> {
    if p.len() > 0 && p[0] == '/' {
        p
    } else {
        dir_prefix(base) + p
    }
}

/// `base` as the start of a path below it.
pub open spec fn dir_prefix(base: Seq<char>) -> Seq<char> {
    if base.len() == 0 || base.last() == '/' {
        base
    } else {
        base.push('/')
    }
}

/// `base` joined with `p` as paths.
pub fn join_path(base: &str, p: &str) -> (r: String)
    ensures
        r@ == path_join(base@, p@),
{
    let pc = chars_of(p);
    if pc.len() > 0 && pc[0] == '/' {
        return p.to_owned();
    }
    let bc = chars_of(base);
    let mut r = String::from_str(base);
    if bc.len() > 0 && bc[bc.len() - 1] != '/' {
        r.append("/");
        proof {
            reveal_strlit("/");
        }
    }
    r.append(p);
    r
}

/// Why a skill name is refused.
#[derive(Debug, Clone, Copy, PartialEq, Eq)]
pub enum SkillNameErrorKind {
    /// Nothing but white space.
    Empty,
    /// White space at the start or the end.
    Untrimmed,
    /// `.` or `..`.
    Reserved,
    /// A `/` or a `\`.
    PathSeparator,
    /// White space inside.
    Whitespace,
}

/// A refused skill name.
#[derive(Debug, Clone)]
pub struct SkillNameError {
    pub kind: SkillNameErrorKind,
    pub name: String,
}

/// The first rule that `name` breaks, if any.
pub open spec fn name_error_kind(name: Seq<char>) -> Option<SkillNameErrorKind> {
    let t = trimmed(name);
    if t.len() == 0 {
        Some(SkillNameErrorKind::Empty)
    } else if t != name {
        Some(SkillNameErrorKind::Untrimmed)
    } else if name == "."@ || name == ".."@ {
        Some(SkillNameErrorKind::Reserved)
    } else if name.contains('/') || name.contains('\\') {
        Some(SkillNameErrorKind::PathSeparator)
    } else if has_white_space(name) {
        Some(SkillNameErrorKind::Whitespace)
    } else {
        None
    }
}

/// `r` is what checking `name` gives.
pub open spec fn name_check(name: Seq<char>, r: Result<(), SkillNameError>) -> bool {
    match r {
        Ok(()) => name_error_kind(name) is None,
        Err(e) => name_error_kind(name) == Some(e.kind) && e.name@ == name,
    }
}

/// The text of the error for a name refused for `kind`.
pub open spec fn name_error_text(kind: SkillNameErrorKind, name: Seq<char>) -> Seq<char> {
    match kind {
        SkillNameErrorKind::Empty => "skill name cannot be empty"@,
        SkillNameErrorKind::Untrimmed => "skill name must not have leading or trailing whitespace: "@
            + name,
        SkillNameErrorKind::Reserved => "invalid skill name: "@ + name,
        SkillNameErrorKind::PathSeparator => "skill name must not contain path separators: "@
            + name,
        SkillNameErrorKind::Whitespace => "skill name must not contain whitespace: "@ + name,
    }
}

impl SkillNameError {
    /// The error's text.
    pub fn message(&self) -> (r: String)
        ensures
            r@ == name_error_text(self.kind, self.name@),
    {
        let mut r = match self.kind {
            SkillNameErrorKind::Empty => {
                return String::from_str("skill name cannot be empty");
            },
            SkillNameErrorKind::Untrimmed => String::from_str(
                "skill name must not have leading or trailing whitespace: ",
            ),
            SkillNameErrorKind::Reserved => String::from_str("invalid skill name: "),
            SkillNameErrorKind::PathSeparator => String::from_str(
                "skill name must not contain path separators: ",
            ),
            SkillNameErrorKind::Whitespace => String::from_str(
                "skill name must not contain whitespace: ",
            ),
        };
        r.append(self.name.as_str());
        r
    }
}

/// Checks that `name` can name a directory directly below the storage: not
/// blank, no white space at either end or inside, not `.` or `..`, and no
/// path separator.
pub fn validate_skill_name(name: &str) -> (r: Result<(), SkillNameError>)
    ensures
        name_check(name@, r),
{
    let t = trim(name);
    let kind = if t.is_empty() {
        SkillNameErrorKind::Empty
    } else if !str_eq(t, name) {
        SkillNameErrorKind::Untrimmed
    } else if str_eq(t, ".") || str_eq(t, "..") {
        SkillNameErrorKind::Reserved
    } else if contains_char(t, '/') || contains_char(t, '\\') {
        SkillNameErrorKind::PathSeparator
    } else if contains_whitespace(t) {
        SkillNameErrorKind::Whitespace
    } else {
        return Ok(());
    };
    Err(SkillNameError { kind, name: name.to_owned() })
}

/// A name is accepted exactly when it is not empty, holds no white space,
/// is neither `.` nor `..`, and holds no `/` and no `\\`.
pub proof fn lemma_accepted_names(name: Seq<char>)
    ensures
        name_error_kind(name) is None <==> {
            &&& name.len() > 0
            &&& forall|k: int| 0 <= k < name.len() ==> !is_white_space(#[trigger] name[k])
            &&& name != "."@
            &&& name != ".."@
            &&& !name.contains('/')
            &&& !name.contains('\\')
        },
{
    if name.len() > 0 && forall|k: int| 0 <= k < name.len() ==> !is_white_space(#[trigger] name[k]) {
        assert(!is_white_space(name[0]));
        assert(leading_ws(name) == 0);
        assert(name.skip(0) =~= name);
        assert(!is_white_space(name.last()));
        assert(trailing_ws(name) == 0);
        assert(name.take(name.len() as int) =~= name);
        assert(trimmed(name) == name);
    }
    if name_error_kind(name) is None {
        assert(trimmed(name) == name);
        assert(!has_white_space(name));
    }
}

/// Names that could reach outside the storage directory are refused: `.`,
/// `..`, and any name with a `/` or a `\\`.
pub proof fn lemma_traversal_names_refused(name: Seq<char>)
    requires
        name == "."@ || name == ".."@ || name.contains('/') || name.contains('\\'),
    ensures
        name_error_kind(name) is Some,
{
}

/// A name that passes the checks names a child of the storage directory:
/// joined onto any base, it gives the base, a separator where one is needed,
/// and the name itself, which holds no separator and is not `.` or `..`.
pub proof fn lemma_valid_name_is_child(base: Seq<char>, name: Seq<char>)
    requires
        name_error_kind(name) is None,
    ensures
        path_join(base, name) == dir_prefix(base) + name,
        name.len() > 0,
        !name.contains('/'),
        name != "."@,
        name != ".."@,
{
    if name.len() > 0 && name[0] == '/' {
        assert(name.contains('/'));
    }
}


/// The files whose presence marks a skill directory as one this storage manages.
pub open spec fn marker_paths_at(skill: Seq<char>) -> Seq<Seq<char>> {
    seq![
        path_join(skill, "SKILL.md"@),
        path_join(skill, "skill.md"@),
        path_join(skill, ".skillhub/info.json"@),
    ]
}

/// What was found on disk at a skill's path.
pub struct SkillProbe {
    /// Something exists at the path (links followed).
    pub exists: bool,
    /// It is a file, or a symbolic link.
    pub file_like: bool,
    /// Those of the marker paths that exist.
    pub existing_markers: Vec<String>,
}

/// What removing a skill comes to.
#[derive(Debug)]
pub enum RemoveAction {
    /// Nothing is removed.
    Keep,
    /// The file (or link) at this path is removed.
    RemoveFile(String),
    /// The directory at this path is removed with all it holds.
    RemoveDir(String),
}

/// What was found at the storage directory itself.
pub struct StorageProbe {
    /// Something exists at the path.
    pub exists: bool,
    /// It is a directory.
    pub is_dir: bool,
    /// The names of its entries, in the order they were read.
    pub entry_names: Vec<String>,
}

/// Listing a storage path that is not a directory.
#[derive(Debug)]
pub enum StorageError {
    NotADirectory(String),
}

impl StorageError {
    /// The error's text.
    pub fn message(&self) -> (r: String)
        ensures
            self matches StorageError::NotADirectory(p) ==> r@
                == "skill storage path is not a directory: "@ + p@,
    {
        match self {
            StorageError::NotADirectory(p) => {
                let mut r = String::from_str("skill storage path is not a directory: ");
                r.append(p.as_str());
                r
            },
        }
    }
}

/// `listing` holds the names of `entries`, each as often, in sorted order.
pub open spec fn sorted_listing(entries: Seq<String>, listing: Seq<String>) -> bool {
    &&& non_decreasing(views(listing))
    &&& views(listing).to_multiset() == views(entries).to_multiset()
}

/// Listing is determined by what the directory holds: two listings of the
/// same entries give the same names in the same order.
pub proof fn lemma_listing_is_determined(entries: Seq<String>, first: Seq<String>, second: Seq<String>)
    requires
        sorted_listing(entries, first),
        sorted_listing(entries, second),
    ensures
        views(first) == views(second),
{
    lemma_sorted_permutation_unique(views(first), views(second));
}

/// A directory that holds one directory per skill.
pub struct SkillStorage {
    pub base: String,
}

impl SkillStorage {
    /// A storage rooted at `base`.
    pub fn new(base: String) -> (s: Self)
        ensures
            s.base == base,
    {
        SkillStorage { base }
    }

    /// The path of the skill named `n`.
    pub open spec fn skill_path_of(&self, n: Seq<char>) -> Seq<char> {
        path_join(self.base@, n)
    }

    /// The path of the skill named `n`.
    pub fn skill_path(&self, n: &str) -> (p: String)
        ensures
            p@ == self.skill_path_of(n@),
    {
        join_path(self.base.as_str(), n)
    }

    /// The paths whose presence marks `n` as an installed skill.
    pub fn marker_paths(&self, n: &str) -> (r: Vec<String>)
        ensures
            views(r@) == marker_paths_at(self.skill_path_of(n@)),
    {
        let p = self.skill_path(n);
        let mut r: Vec<String> = Vec::new();
        r.push(join_path(p.as_str(), "SKILL.md"));
        r.push(join_path(p.as_str(), "skill.md"));
        r.push(join_path(p.as_str(), ".skillhub/info.json"));
        assert(views(r@) =~= marker_paths_at(self.skill_path_of(n@)));
        r
    }

    /// Whether `n` is an installed skill, given the paths that exist on disk:
    /// one of its marker files must be among them.
    pub fn installed(&self, n: &str, existing: &Vec<String>) -> (r: bool)
        ensures
            r == self.installed_spec(n@, existing@),
    {
        let markers = self.marker_paths(n);
        let ghost m = marker_paths_at(self.skill_path_of(n@));
        assert(markers@.len() == views(markers@).len());
        let mut k: usize = 0;
        while k < 3
            invariant
                k <= 3,
                markers@.len() == 3,
                views(markers@) == m,
                m == marker_paths_at(self.skill_path_of(n@)),
                forall|a: int| 0 <= a < k ==> !views(existing@).contains(#[trigger] m[a]),
            decreases 3 - k,
        {
            let mut j: usize = 0;
            while j < existing.len()
                invariant
                    k < 3,
                    j <= existing.len(),
                    markers@.len() == 3,
                    views(markers@) == m,
                    m == marker_paths_at(self.skill_path_of(n@)),
                    forall|b: int| 0 <= b < j ==> views(existing@)[b] != m[k as int],
                decreases existing.len() - j,
            {
                if str_eq(existing[j].as_str(), markers[k].as_str()) {
                    assert(views(existing@)[j as int] == m[k as int]);
                    assert(views(existing@).contains(m[k as int]));
                    return true;
                }
                j = j + 1;
            }
            k = k + 1;
        }
        false
    }

    /// What removing the skill `n` does, given what was found at its path:
    /// an invalid name is refused; nothing is removed unless something exists
    /// there and it is an installed skill; then a file or link is removed as
    /// a file and anything else as a whole directory.
    pub fn remove(&self, n: &str, probe: &SkillProbe) -> (r: Result<RemoveAction, SkillNameError>)
        ensures
            match r {
                Err(e) => name_check(n@, Err(e)),
                Ok(action) => {
                    &&& name_error_kind(n@) is None
                    &&& match action {
                        RemoveAction::Keep => !probe.exists || !self.installed_spec(n@, probe.existing_markers@),
                        RemoveAction::RemoveFile(p) => probe.exists && self.installed_spec(n@, probe.existing_markers@)
                            && probe.file_like && p@ == self.skill_path_of(n@),
                        RemoveAction::RemoveDir(p) => probe.exists && self.installed_spec(n@, probe.existing_markers@)
                            && !probe.file_like && p@ == self.skill_path_of(n@),
                    }
                },
            },
    {
        match validate_skill_name(n) {
            Err(e) => return Err(e),
            Ok(()) => {},
        }
        let p = self.skill_path(n);
        if !probe.exists {
            return Ok(RemoveAction::Keep);
        }
        if !self.installed(n, &probe.existing_markers) {
            return Ok(RemoveAction::Keep);
        }
        if probe.file_like {
            Ok(RemoveAction::RemoveFile(p))
        } else {
            Ok(RemoveAction::RemoveDir(p))
        }
    }

    /// Whether `n` counts as installed when the paths in `existing` exist.
    pub open spec fn installed_spec(&self, n: Seq<char>, existing: Seq<String>) -> bool {
        exists|k: int|
            0 <= k < 3 && views(existing).contains(
                #[trigger] marker_paths_at(self.skill_path_of(n))[k],
            )
    }

    /// The file that holds the metadata of skill `n`; `None` for an invalid name.
    pub fn info_path(&self, n: &str) -> (r: Option<String>)
        ensures
            match r {
                None => name_error_kind(n@) is Some,
                Some(p) => name_error_kind(n@) is None && p@ == path_join(
                    self.skill_path_of(n@),
                    ".skillhub/info.json"@,
                ),
            },
    {
        if validate_skill_name(n).is_err() {
            return None;
        }
        let p = self.skill_path(n);
        Some(join_path(p.as_str(), ".skillhub/info.json"))
    }

    /// The metadata directory of skill `n` and the file in it that saving
    /// writes; an invalid name is refused.
    pub fn metadata_paths(&self, n: &str) -> (r: Result<(String, String), SkillNameError>)
        ensures
            match r {
                Err(e) => name_check(n@, Err(e)),
                Ok((d, f)) => {
                    &&& name_error_kind(n@) is None
                    &&& d@ == path_join(self.skill_path_of(n@), ".skillhub"@)
                    &&& f@ == path_join(d@, "info.json"@)
                },
            },
    {
        match validate_skill_name(n) {
            Err(e) => return Err(e),
            Ok(()) => {},
        }
        let p = self.skill_path(n);
        let d = join_path(p.as_str(), ".skillhub");
        let f = join_path(d.as_str(), "info.json");
        Ok((d, f))
    }

    /// The skill directories in storage, given what was found at its path: none
    /// when nothing exists there, an error when it is not a directory, else the
    /// names of its entries in sorted order.
    pub fn list(&self, probe: &StorageProbe) -> (r: Result<Vec<String>, StorageError>)
        ensures
            !probe.exists ==> (r matches Ok(v) && v@.len() == 0),
            probe.exists && !probe.is_dir ==> (r matches Err(StorageError::NotADirectory(p))
                && p@ == self.base@),
            probe.exists && probe.is_dir ==> (r matches Ok(v) && sorted_listing(probe.entry_names@, v@)
                && v@.to_multiset() == probe.entry_names@.to_multiset()),
    {
        if !probe.exists {
            return Ok(Vec::new());
        }
        if !probe.is_dir {
            return Err(StorageError::NotADirectory(self.base.clone()));
        }
        Ok(sort_strings(&probe.entry_names))
    }
}

/// The metadata file that saving a skill writes is the one that loading it reads.
pub proof fn lemma_saved_info_is_loaded_info(skill: Seq<char>)
    ensures
        path_join(path_join(skill, ".skillhub"@), "info.json"@) == path_join(
            skill,
            ".skillhub/info.json"@,
        ),
{
    reveal_strlit(".skillhub");
    reveal_strlit("info.json");
    reveal_strlit(".skillhub/info.json");
    let d = path_join(skill, ".skillhub"@);
    assert(d.len() > 0 && d.last() != '/');
    assert(path_join(d, "info.json"@) =~= path_join(skill, ".skillhub/info.json"@));
}

} // verus!
