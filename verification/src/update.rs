//! Planning updates of installed skills: what each installed skill is updated
//! from, how skills installed in several places are merged, which ones a
//! request selects, and how the outcome is summarised.
use vstd::prelude::*;
use vstd::string::StringExecFns;
use crate::metadata::{field_str, opt_str_view, opt_view, InstalledSkill, SourceValue};
use crate::order::{
    insert_sorted, lemma_str_lt_irreflexive, lemma_str_lt_total, lemma_str_lt_transitive, str_less,
    str_lt, strictly_sorted,
};
use crate::text::{eq_ascii_case_insensitive, eq_ignore_ascii_case, join, joined, str_eq, trim, trimmed, views};

verus! {

/// A skill to update, with where it is updated from.
#[derive(Debug, Clone)]
pub struct UpdateCandidate {
    /// The skill's slug.
    pub name: String,
    /// The kind of source (`github`, a registry, ...).
    pub source_type: String,
    /// What the source is asked for.
    pub source_skill: String,
    /// The folder to install into, where the source does not decide it.
    pub install_name: Option<String>,
    /// The directory inside the source repository.
    pub subdir: Option<String>,
    /// The names a request may use for the skill, sorted, each once.
    pub match_names: Vec<String>,
}

/// A candidate as values.
pub struct CandidateView {
    pub name: Seq<char>,
    pub source_type: Seq<char>,
    pub source_skill: Seq<char>,
    pub install_name: Option<Seq<char>>,
    pub subdir: Option<Seq<char>>,
    pub match_names: Set<Seq<char>>,
}

impl View for UpdateCandidate {
    type V = CandidateView;

    open spec fn view(&self) -> CandidateView {
        CandidateView {
            name: self.name@,
            source_type: self.source_type@,
            source_skill: self.source_skill@,
            install_name: opt_view(self.install_name),
            subdir: opt_view(self.subdir),
            match_names: views(self.match_names@).to_set(),
        }
    }
}

impl UpdateCandidate {
    /// The match names are kept sorted, each once.
    pub open spec fn wf(&self) -> bool {
        strictly_sorted(views(self.match_names@))
    }
}

/// The trimmed string, unless it is absent or blank.
pub open spec fn trimmed_nonempty(o: Option<Seq<char>>) -> Option<Seq<char>> {
    match o {
        Some(t) => if trimmed(t).len() > 0 {
            Some(trimmed(t))
        } else {
            None
        },
        None => None,
    }
}

fn trim_nonempty(s: Option<&str>) -> (r: Option<String>)
    ensures
        opt_view(r) == trimmed_nonempty(opt_str_view(s)),
{
    match s {
        Some(s) => {
            let t = trim(s);
            if t.is_empty() {
                None
            } else {
                Some(t.to_owned())
            }
        },
        None => None,
    }
}

/// The directory inside the repository that the metadata names.
pub open spec fn github_subdir_of(src: SourceValue) -> Option<Seq<char>> {
    trimmed_nonempty(field_str(src.fields@, "subdir"@))
}

/// The source type as written: the `type` key, or the source itself when it
/// is a plain string.
pub open spec fn raw_source_type(src: SourceValue) -> Option<Seq<char>> {
    match field_str(src.fields@, "type"@) {
        Some(t) => Some(t),
        None => opt_view(src.text),
    }
}

/// The source type; `kingdee` where none is written.
pub open spec fn source_type_of(src: SourceValue) -> Seq<char> {
    match trimmed_nonempty(raw_source_type(src)) {
        Some(t) => t,
        None => "kingdee"@,
    }
}

/// What is asked of the source: `github:owner/repo@ref` for a GitHub source
/// that names its owner and repository (the ref given for the update, else
/// the one in the metadata, else `HEAD`), and `type:slug` otherwise.
pub open spec fn source_skill_of(
    source_type: Seq<char>,
    slug: Seq<char>,
    src: SourceValue,
    ref_override: Option<Seq<char>>,
) -> Seq<char> {
    let owner = field_str(src.fields@, "owner"@);
    let repo = field_str(src.fields@, "repo"@);
    let rf = match ref_override {
        Some(r) => r,
        None => match field_str(src.fields@, "ref"@) {
            Some(r) => r,
            None => "HEAD"@,
        },
    };
    if source_type == "github"@ && owner is Some && repo is Some {
        "github:"@ + owner->0 + "/"@ + repo->0 + "@"@ + rf
    } else {
        source_type + ":"@ + slug
    }
}

/// `names` with `name`, trimmed, added unless it is blank.
pub open spec fn with_match_name(names: Set<Seq<char>>, name: Seq<char>) -> Set<Seq<char>> {
    if trimmed(name).len() > 0 {
        names.insert(trimmed(name))
    } else {
        names
    }
}

/// The slug of the skill: the one in its metadata, else its folder's name.
pub open spec fn slug_of(folder: Seq<char>, info: InstalledSkill) -> Seq<char> {
    match opt_view(info.slug) {
        Some(s) => s,
        None => folder,
    }
}

/// The names a request may use for a skill: its folder, name, slug and
/// display name, trimmed, blanks left out.
pub open spec fn match_names_of(folder: Seq<char>, info: InstalledSkill) -> Set<Seq<char>> {
    let base = with_match_name(
        with_match_name(with_match_name(Set::empty(), folder), info.name@),
        slug_of(folder, info),
    );
    match opt_view(info.display_name) {
        Some(d) => with_match_name(base, d),
        None => base,
    }
}

/// The match names of a skill are its folder's name, its name, its slug (the
/// one in the metadata, else the folder's name) and its display name, each
/// trimmed, and nothing else; blank ones are left out.
pub proof fn lemma_match_names_are_the_skill_names(folder: Seq<char>, info: InstalledSkill, n: Seq<char>)
    ensures
        match_names_of(folder, info).contains(n) <==> n.len() > 0 && {
            ||| n == trimmed(folder)
            ||| n == trimmed(info.name@)
            ||| n == trimmed(
                match opt_view(info.slug) {
                    Some(s) => s,
                    None => folder,
                },
            )
            ||| (info.display_name is Some && n == trimmed(info.display_name->0@))
        },
{
}

/// The candidate for the skill installed in `folder` with metadata `info`.
pub open spec fn candidate_of(
    folder: Seq<char>,
    info: InstalledSkill,
    ref_override: Option<Seq<char>>,
) -> CandidateView {
    let st = source_type_of(info.source);
    CandidateView {
        name: slug_of(folder, info),
        source_type: st,
        source_skill: source_skill_of(st, slug_of(folder, info), info.source, ref_override),
        install_name: if st == "github"@ {
            Some(folder)
        } else {
            None
        },
        subdir: github_subdir_of(info.source),
        match_names: match_names_of(folder, info),
    }
}

/// The key under which candidates are merged: the source asked for, and the
/// subdirectory when there is one.
pub open spec fn candidate_key(c: CandidateView) -> Seq<char> {
    match c.subdir {
        Some(d) => c.source_skill + "#subdir="@ + d,
        None => c.source_skill,
    }
}

/// The subdirectory that the metadata's source names, trimmed; none if blank.
pub fn github_subdir(info: &InstalledSkill) -> (r: Option<String>)
    ensures
        opt_view(r) == github_subdir_of(info.source),
{
    trim_nonempty(info.source.get_str("subdir"))
}

/// The source type that the metadata names, trimmed; `kingdee` if none.
pub fn source_type(info: &InstalledSkill) -> (r: String)
    ensures
        r@ == source_type_of(info.source),
{
    let raw = match info.source.get_str("type") {
        Some(t) => Some(t),
        None => info.source.as_str(),
    };
    match trim_nonempty(raw) {
        Some(t) => t,
        None => String::from_str("kingdee"),
    }
}

/// The merge key and what the source is asked for (the two start out equal).
pub fn source_skill(
    source_type: &str,
    slug: &str,
    info: &InstalledSkill,
    ref_override: Option<&str>,
) -> (r: (String, String))
    ensures
        r.0@ == source_skill_of(source_type@, slug@, info.source, opt_str_view(ref_override)),
        r.1@ == r.0@,
{
    if str_eq(source_type, "github") {
        let owner = info.source.get_str("owner");
        let repo = info.source.get_str("repo");
        let rf = match ref_override {
            Some(r) => r,
            None => match info.source.get_str("ref") {
                Some(r) => r,
                None => "HEAD",
            },
        };
        match (owner, repo) {
            (Some(owner), Some(repo)) => {
                let mut key = String::from_str("github:");
                key.append(owner);
                key.append("/");
                key.append(repo);
                key.append("@");
                key.append(rf);
                let skill = key.clone();
                return (key, skill);
            },
            _ => {},
        }
    }
    let mut key = String::from_str(source_type);
    key.append(":");
    key.append(slug);
    let skill = key.clone();
    (key, skill)
}

/// Adds `name`, trimmed, to the set of match names, unless it is blank.
pub fn add_match_name(names: &mut Vec<String>, name: &str)
    requires
        strictly_sorted(views(old(names)@)),
    ensures
        strictly_sorted(views(final(names)@)),
        views(final(names)@).to_set() == with_match_name(views(old(names)@).to_set(), name@),
{
    let t = trim(name);
    if !t.is_empty() {
        insert_sorted(names, t.to_owned());
    }
}

/// The merge key and the update candidate for the skill installed in folder
/// `folder_name` with metadata `info`; `ref_override` replaces the ref of a
/// GitHub source.
pub fn candidate_from_info(
    folder_name: &str,
    info: &InstalledSkill,
    ref_override: Option<&str>,
) -> (r: (String, UpdateCandidate))
    ensures
        r.1.wf(),
        r.1@ == candidate_of(folder_name@, *info, opt_str_view(ref_override)),
        r.0@ == candidate_key(r.1@),
{
    let source_type = source_type(info);
    let slug = match &info.slug {
        Some(s) => s.clone(),
        None => folder_name.to_owned(),
    };
    let (mut key, source_skill) = source_skill(source_type.as_str(), slug.as_str(), info, ref_override);
    let subdir = github_subdir(info);
    let mut match_names: Vec<String> = Vec::new();
    add_match_name(&mut match_names, folder_name);
    add_match_name(&mut match_names, info.name.as_str());
    add_match_name(&mut match_names, slug.as_str());
    match &info.display_name {
        Some(display_name) => add_match_name(&mut match_names, display_name.as_str()),
        None => {},
    }
    match &subdir {
        Some(subdir) => {
            key.append("#subdir=");
            key.append(subdir.as_str());
        },
        None => {},
    }
    let install_name = if str_eq(source_type.as_str(), "github") {
        Some(folder_name.to_owned())
    } else {
        None
    };
    let c = UpdateCandidate {
        name: slug,
        source_type,
        source_skill,
        install_name,
        subdir,
        match_names,
    };
    assert(views(Seq::<String>::empty()).to_set() =~= Set::empty());
    (key, c)
}


/// Adds every string of `more` to the sorted set `names`.
pub fn extend_names(names: &mut Vec<String>, more: &Vec<String>)
    requires
        strictly_sorted(views(old(names)@)),
    ensures
        strictly_sorted(views(final(names)@)),
        views(final(names)@).to_set() == views(old(names)@).to_set().union(views(more@).to_set()),
{
    let ghost start = views(names@).to_set();
    let mut i: usize = 0;
    while i < more.len()
        invariant
            i <= more.len(),
            strictly_sorted(views(names@)),
            views(names@).to_set() == start.union(views(more@.take(i as int)).to_set()),
        decreases more.len() - i,
    {
        let x = more[i].clone();
        insert_sorted(names, x);
        proof {
            let a = views(more@.take(i as int));
            assert(views(more@.take(i + 1)) =~= a + seq![more@[i as int]@]);
            Seq::lemma_to_set_insert_commutes(a, more@[i as int]@);
            assert(views(names@).to_set() =~= start.union(views(more@.take(i + 1)).to_set()));
        }
        i = i + 1;
    }
    assert(more@.take(more.len() as int) =~= more@);
}

/// A skill found installed: the folder it is in and its metadata.
pub struct FoundSkill {
    pub folder_name: String,
    pub info: InstalledSkill,
}

/// The candidates of the skills found, in order.
pub open spec fn found_candidates(found: Seq<FoundSkill>, ref_override: Option<Seq<char>>) -> Seq<CandidateView> {
    found.map_values(|f: FoundSkill| candidate_of(f.folder_name@, f.info, ref_override))
}

/// `c` with `more` added to its match names.
pub open spec fn with_names(c: CandidateView, more: Set<Seq<char>>) -> CandidateView {
    CandidateView {
        name: c.name,
        source_type: c.source_type,
        source_skill: c.source_skill,
        install_name: c.install_name,
        subdir: c.subdir,
        match_names: c.match_names.union(more),
    }
}

/// The candidates by merge key: the first candidate found under a key stands
/// for it, and gathers the match names of all the candidates under that key.
pub open spec fn merged(cs: Seq<CandidateView>) -> Map<Seq<char>, CandidateView>
    decreases cs.len(),
{
    if cs.len() == 0 {
        Map::empty()
    } else {
        let m = merged(cs.drop_last());
        let c = cs.last();
        let k = candidate_key(c);
        if m.contains_key(k) {
            m.insert(k, with_names(m[k], c.match_names))
        } else {
            m.insert(k, c)
        }
    }
}

/// A merge key is present exactly when some candidate has it.
pub proof fn lemma_merged_keys(cs: Seq<CandidateView>, k: Seq<char>)
    ensures
        merged(cs).contains_key(k) <==> exists|i: int| 0 <= i < cs.len() && candidate_key(#[trigger] cs[i]) == k,
    decreases cs.len(),
{
    if cs.len() > 0 {
        let init = cs.drop_last();
        lemma_merged_keys(init, k);
        if exists|i: int| 0 <= i < init.len() && candidate_key(#[trigger] init[i]) == k {
            let i = choose|i: int| 0 <= i < init.len() && candidate_key(#[trigger] init[i]) == k;
            assert(cs[i] == init[i]);
        }
        if exists|i: int| 0 <= i < cs.len() && candidate_key(#[trigger] cs[i]) == k {
            let i = choose|i: int| 0 <= i < cs.len() && candidate_key(#[trigger] cs[i]) == k;
            if i < cs.len() - 1 {
                assert(init[i] == cs[i]);
            }
        }
    }
}

/// The candidate found first under a key gives the merged candidate its
/// slug, source type, source and folder.
pub proof fn lemma_merged_first_wins(cs: Seq<CandidateView>, i: int)
    requires
        0 <= i < cs.len(),
        forall|j: int| 0 <= j < i ==> candidate_key(#[trigger] cs[j]) != candidate_key(cs[i]),
    ensures
        ({
            let m = merged(cs)[candidate_key(cs[i])];
            &&& merged(cs).contains_key(candidate_key(cs[i]))
            &&& m.name == cs[i].name
            &&& m.source_type == cs[i].source_type
            &&& m.source_skill == cs[i].source_skill
            &&& m.install_name == cs[i].install_name
            &&& m.subdir == cs[i].subdir
        }),
    decreases cs.len(),
{
    let k = candidate_key(cs[i]);
    let init = cs.drop_last();
    if i < cs.len() - 1 {
        assert(init[i] == cs[i]);
        assert forall|j: int| 0 <= j < i implies candidate_key(#[trigger] init[j]) != k by {
            assert(init[j] == cs[j]);
        }
        lemma_merged_first_wins(init, i);
    } else {
        lemma_merged_keys(init, k);
        if merged(init).contains_key(k) {
            let j = choose|j: int| 0 <= j < init.len() && candidate_key(#[trigger] init[j]) == k;
            assert(cs[j] == init[j]);
        }
    }
}

/// The match names of a merged candidate are those of all the candidates
/// with its key.
pub proof fn lemma_merged_names(cs: Seq<CandidateView>, k: Seq<char>, n: Seq<char>)
    requires
        merged(cs).contains_key(k),
    ensures
        merged(cs)[k].match_names.contains(n) <==> exists|i: int|
            0 <= i < cs.len() && candidate_key(#[trigger] cs[i]) == k && cs[i].match_names.contains(n),
    decreases cs.len(),
{
    let init = cs.drop_last();
    let last = cs.last();
    if merged(init).contains_key(k) {
        lemma_merged_names(init, k, n);
        if exists|i: int| 0 <= i < init.len() && candidate_key(#[trigger] init[i]) == k && init[i].match_names.contains(n) {
            let i = choose|i: int| 0 <= i < init.len() && candidate_key(#[trigger] init[i]) == k && init[i].match_names.contains(n);
            assert(cs[i] == init[i]);
        }
    } else {
        lemma_merged_keys(init, k);
    }
    if candidate_key(last) == k && last.match_names.contains(n) {
        assert(cs[cs.len() - 1] == last);
    }
    if exists|i: int| 0 <= i < cs.len() && candidate_key(#[trigger] cs[i]) == k && cs[i].match_names.contains(n) {
        let i = choose|i: int| 0 <= i < cs.len() && candidate_key(#[trigger] cs[i]) == k && cs[i].match_names.contains(n);
        if i < cs.len() - 1 {
            assert(init[i] == cs[i]);
            lemma_merged_keys(init, k);
        }
    }
}

/// The update of a skill from GitHub asks for the ref given for the update:
/// where the metadata's source has type `github` (up to surrounding white
/// space), an owner and a repository, the candidate collected for it asks for
/// `github:owner/repo@ref` with that ref, installs into the skill's own
/// folder, and is found under the key of that request.
pub proof fn lemma_github_update_uses_given_ref(found: Seq<FoundSkill>, i: int, r: Seq<char>)
    requires
        0 <= i < found.len(),
        field_str(found[i].info.source.fields@, "type"@) is Some,
        trimmed(field_str(found[i].info.source.fields@, "type"@)->0) == "github"@,
        field_str(found[i].info.source.fields@, "owner"@) is Some,
        field_str(found[i].info.source.fields@, "repo"@) is Some,
    ensures
        ({
            let c = found_candidates(found, Some(r))[i];
            let fields = found[i].info.source.fields@;
            &&& c.source_skill == "github:"@ + field_str(fields, "owner"@)->0 + "/"@ + field_str(
                fields,
                "repo"@,
            )->0 + "@"@ + r
            &&& c.install_name == Some(found[i].folder_name@)
            &&& merged(found_candidates(found, Some(r))).contains_key(candidate_key(c))
        }),
{
    reveal_strlit("github");
    let cs = found_candidates(found, Some(r));
    assert(cs[i] == candidate_of(found[i].folder_name@, found[i].info, Some(r)));
    lemma_merged_keys(cs, candidate_key(cs[i]));
}

/// Every skill found answers to its folder's name (trimmed, when not blank)
/// in the candidate it is merged into.
pub proof fn lemma_found_skill_answers_to_folder(found: Seq<FoundSkill>, ref_override: Option<Seq<char>>, i: int)
    requires
        0 <= i < found.len(),
        trimmed(found[i].folder_name@).len() > 0,
    ensures
        ({
            let cs = found_candidates(found, ref_override);
            let k = candidate_key(cs[i]);
            &&& merged(cs).contains_key(k)
            &&& merged(cs)[k].match_names.contains(trimmed(found[i].folder_name@))
        }),
{
    let cs = found_candidates(found, ref_override);
    let k = candidate_key(cs[i]);
    let f = found[i];
    let folder = f.folder_name@;
    assert(cs[i] == candidate_of(folder, f.info, ref_override));
    let s1 = with_match_name(Set::empty(), folder);
    assert(s1.contains(trimmed(folder)));
    let s2 = with_match_name(s1, f.info.name@);
    let s3 = with_match_name(s2, slug_of(folder, f.info));
    assert(s3.contains(trimmed(folder)));
    assert(cs[i].match_names.contains(trimmed(folder)));
    lemma_merged_keys(cs, k);
    lemma_merged_names(cs, k, trimmed(folder));
}

/// Asking to update a skill by the name of a folder it is installed in (the
/// name trimmed, when not blank) selects the candidate it is merged into.
pub proof fn lemma_request_by_folder_selects(found: Seq<FoundSkill>, ref_override: Option<Seq<char>>, i: int)
    requires
        0 <= i < found.len(),
        trimmed(found[i].folder_name@).len() > 0,
    ensures
        ({
            let cs = found_candidates(found, ref_override);
            selects(merged(cs)[candidate_key(cs[i])], trimmed(found[i].folder_name@))
        }),
{
    lemma_found_skill_answers_to_folder(found, ref_override, i);
    let n = trimmed(found[i].folder_name@);
    assert(eq_ascii_case_insensitive(n, n));
}

/// Asking to update a skill by its slug (the one in its metadata, else its
/// folder's name; trimmed, when not blank) selects the candidate it is merged
/// into.
pub proof fn lemma_request_by_slug_selects(found: Seq<FoundSkill>, ref_override: Option<Seq<char>>, i: int)
    requires
        0 <= i < found.len(),
        trimmed(
            match opt_view(found[i].info.slug) {
                Some(s) => s,
                None => found[i].folder_name@,
            },
        ).len() > 0,
    ensures
        ({
            let cs = found_candidates(found, ref_override);
            let slug = match opt_view(found[i].info.slug) {
                Some(s) => s,
                None => found[i].folder_name@,
            };
            selects(merged(cs)[candidate_key(cs[i])], trimmed(slug))
        }),
{
    let cs = found_candidates(found, ref_override);
    let k = candidate_key(cs[i]);
    let f = found[i];
    let slug = slug_of(f.folder_name@, f.info);
    assert(cs[i] == candidate_of(f.folder_name@, f.info, ref_override));
    lemma_match_names_are_the_skill_names(f.folder_name@, f.info, trimmed(slug));
    assert(cs[i].match_names.contains(trimmed(slug)));
    lemma_merged_keys(cs, k);
    lemma_merged_names(cs, k, trimmed(slug));
    assert(eq_ascii_case_insensitive(trimmed(slug), trimmed(slug)));
}

/// The values of candidates.
pub open spec fn cand_views(v: Seq<UpdateCandidate>) -> Seq<CandidateView> {
    v.map_values(|c: UpdateCandidate| c@)
}

/// The merge key of each candidate.
pub open spec fn candidate_keys(v: Seq<UpdateCandidate>) -> Seq<Seq<char>> {
    v.map_values(|c: UpdateCandidate| candidate_key(c@))
}

/// `ks` are the keys of `rs`, in strictly increasing order, and the two list
/// the map `m` exactly.
pub open spec fn lists_map(ks: Seq<Seq<char>>, rs: Seq<CandidateView>, m: Map<Seq<char>, CandidateView>) -> bool {
    &&& ks.len() == rs.len()
    &&& strictly_sorted(ks)
    &&& forall|a: int| 0 <= a < rs.len() ==> #[trigger] ks[a] == candidate_key(rs[a])
    &&& forall|a: int| 0 <= a < rs.len() ==> m.contains_key(#[trigger] ks[a]) && m[ks[a]] == rs[a]
    &&& forall|k: Seq<char>| #[trigger] m.contains_key(k) ==> ks.contains(k)
}

proof fn lemma_lists_map_update(
    ks: Seq<Seq<char>>,
    rs: Seq<CandidateView>,
    m: Map<Seq<char>, CandidateView>,
    p: int,
    names: Set<Seq<char>>,
)
    requires
        lists_map(ks, rs, m),
        0 <= p < ks.len(),
    ensures
        lists_map(
            ks,
            rs.update(p, with_names(rs[p], names)),
            m.insert(ks[p], with_names(m[ks[p]], names)),
        ),
{
    let k = ks[p];
    let rs2 = rs.update(p, with_names(rs[p], names));
    let m2 = m.insert(k, with_names(m[k], names));
    assert forall|a: int| 0 <= a < rs2.len() implies m2.contains_key(#[trigger] ks[a]) && m2[ks[a]] == rs2[a] by {
        if a != p {
            if a < p {
                lemma_str_lt_irreflexive(k);
            } else {
                lemma_str_lt_irreflexive(ks[a]);
            }
        }
    }
    assert forall|kk: Seq<char>| #[trigger] m2.contains_key(kk) implies ks.contains(kk) by {
        if kk == k {
            assert(ks[p] == kk);
        } else {
            assert(m.contains_key(kk));
        }
    }
}

proof fn lemma_lists_map_insert(
    ks: Seq<Seq<char>>,
    rs: Seq<CandidateView>,
    m: Map<Seq<char>, CandidateView>,
    p: int,
    c: CandidateView,
)
    requires
        lists_map(ks, rs, m),
        0 <= p <= ks.len(),
        forall|a: int| 0 <= a < p ==> str_lt(#[trigger] ks[a], candidate_key(c)),
        p < ks.len() ==> str_lt(candidate_key(c), ks[p]),
    ensures
        !m.contains_key(candidate_key(c)),
        lists_map(ks.insert(p, candidate_key(c)), rs.insert(p, c), m.insert(candidate_key(c), c)),
{
    let k = candidate_key(c);
    let ks2 = ks.insert(p, k);
    let rs2 = rs.insert(p, c);
    let m2 = m.insert(k, c);
    assert forall|a: int| 0 <= a < ks.len() implies ks[a] != k && (a >= p ==> str_lt(k, #[trigger] ks[a])) by {
        lemma_str_lt_irreflexive(k);
        if a > p {
            lemma_str_lt_transitive(k, ks[p], ks[a]);
        }
    }
    if m.contains_key(k) {
        let a = choose|a: int| 0 <= a < ks.len() && ks[a] == k;
        assert(false);
    }
    assert forall|a: int, b: int| 0 <= a < b < ks2.len() implies str_lt(#[trigger] ks2[a], #[trigger] ks2[b]) by {
        if b < p {
        } else if b == p {
        } else if a < p {
            assert(ks2[b] == ks[b - 1]);
            assert(str_lt(k, ks[b - 1]));
            lemma_str_lt_transitive(ks[a], k, ks[b - 1]);
        } else if a == p {
            assert(ks2[b] == ks[b - 1]);
        } else {
            assert(ks2[b] == ks[b - 1]);
            assert(ks2[a] == ks[a - 1]);
        }
    }
    assert forall|a: int| 0 <= a < rs2.len() implies #[trigger] ks2[a] == candidate_key(rs2[a]) by {
        if a > p {
            assert(ks2[a] == ks[a - 1]);
        }
    }
    assert forall|a: int| 0 <= a < rs2.len() implies m2.contains_key(#[trigger] ks2[a]) && m2[ks2[a]] == rs2[a] by {
        if a < p {
            assert(ks2[a] == ks[a]);
        } else if a > p {
            assert(ks2[a] == ks[a - 1]);
            assert(rs2[a] == rs[a - 1]);
        }
    }
    assert forall|kk: Seq<char>| #[trigger] m2.contains_key(kk) implies ks2.contains(kk) by {
        if kk == k {
            assert(ks2[p] == kk);
        } else {
            let a = choose|a: int| 0 <= a < ks.len() && ks[a] == kk;
            if a < p {
                assert(ks2[a] == kk);
            } else {
                assert(ks2[a + 1] == kk);
            }
        }
    }
}

/// The candidates for updating the skills found (in the order they were
/// found), one per merge key, in the order of their keys.
pub fn collect_candidates(found: &Vec<FoundSkill>, ref_override: Option<&str>) -> (r: Vec<UpdateCandidate>)
    ensures
        lists_map(
            candidate_keys(r@),
            cand_views(r@),
            merged(found_candidates(found@, opt_str_view(ref_override))),
        ),
        forall|i: int| 0 <= i < r@.len() ==> (#[trigger] r@[i]).wf(),
{
    let ghost cs = found_candidates(found@, opt_str_view(ref_override));
    let mut keys: Vec<String> = Vec::new();
    let mut res: Vec<UpdateCandidate> = Vec::new();
    let mut j: usize = 0;
    proof {
        assert(lists_map(views(keys@), cand_views(res@), merged(cs.take(0))));
    }
    while j < found.len()
        invariant
            j <= found.len(),
            cs == found_candidates(found@, opt_str_view(ref_override)),
            lists_map(views(keys@), cand_views(res@), merged(cs.take(j as int))),
            forall|a: int| 0 <= a < res@.len() ==> (#[trigger] res@[a]).wf(),
        decreases found.len() - j,
    {
        let (key, cand) = candidate_from_info(found[j].folder_name.as_str(), &found[j].info, ref_override);
        let ghost m0 = merged(cs.take(j as int));
        let ghost old_keys = views(keys@);
        let ghost old_res = res@;
        proof {
            assert(cs.take(j + 1).drop_last() =~= cs.take(j as int));
            assert(cs[j as int] == cand@);
        }
        let mut p: usize = 0;
        while p < keys.len() && str_less(keys[p].as_str(), key.as_str())
            invariant
                p <= keys.len(),
                views(keys@) == old_keys,
                forall|a: int| 0 <= a < p ==> str_lt(#[trigger] old_keys[a], key@),
            decreases keys.len() - p,
        {
            p = p + 1;
        }
        if p < keys.len() && str_eq(keys[p].as_str(), key.as_str()) {
            let mut cur = res.remove(p);
            extend_names(&mut cur.match_names, &cand.match_names);
            res.insert(p, cur);
            proof {
                lemma_lists_map_update(old_keys, cand_views(old_res), m0, p as int, cand@.match_names);
                assert(cand_views(res@) =~= cand_views(old_res).update(
                    p as int,
                    with_names(cand_views(old_res)[p as int], cand@.match_names),
                ));
                assert forall|a: int| 0 <= a < res@.len() implies (#[trigger] res@[a]).wf() by {
                    if a != p {
                        assert(res@[a] == old_res[a]);
                    }
                }
            }
        } else {
            proof {
                if p < keys.len() {
                    lemma_str_lt_total(old_keys[p as int], key@);
                }
                lemma_lists_map_insert(old_keys, cand_views(old_res), m0, p as int, cand@);
            }
            keys.insert(p, key);
            res.insert(p, cand);
            proof {
                assert(views(keys@) =~= old_keys.insert(p as int, candidate_key(cand@)));
                assert(cand_views(res@) =~= cand_views(old_res).insert(p as int, cand@));
                assert forall|a: int| 0 <= a < res@.len() implies (#[trigger] res@[a]).wf() by {
                    if a < p {
                        assert(res@[a] == old_res[a]);
                    } else if a > p {
                        assert(res@[a] == old_res[a - 1]);
                    }
                }
            }
        }
        j = j + 1;
    }
    proof {
        assert(cs.take(found.len() as int) =~= cs);
        assert(candidate_keys(res@) =~= views(keys@)) by {
            assert forall|a: int| 0 <= a < res@.len() implies candidate_keys(res@)[a] == views(keys@)[a] by {
                assert(views(keys@)[a] == candidate_key(cand_views(res@)[a]));
            }
        }
    }
    res
}


/// Whether a request for `requested` names candidate `c`: one of its match
/// names equals it up to ASCII case.
pub open spec fn selects(c: CandidateView, requested: Seq<char>) -> bool {
    exists|n: Seq<char>| c.match_names.contains(n) && eq_ascii_case_insensitive(n, requested)
}

/// The candidates that a request for `requested` selects, in order.
pub open spec fn selected_by(cs: Seq<UpdateCandidate>, requested: Seq<char>) -> Seq<UpdateCandidate> {
    cs.filter(|c: UpdateCandidate| selects(c@, requested))
}

proof fn lemma_selected_by_push(cs: Seq<UpdateCandidate>, c: UpdateCandidate, requested: Seq<char>)
    ensures
        selected_by(cs.push(c), requested) == if selects(c@, requested) {
            selected_by(cs, requested).push(c)
        } else {
            selected_by(cs, requested)
        },
{
    reveal(Seq::filter);
    assert(cs.push(c).drop_last() =~= cs);
}

/// A request selects a candidate exactly when one of its match names has the
/// request's length and, character by character, the same code or the two
/// codes of one ASCII letter in its two cases.
pub proof fn lemma_selects_is_case_insensitive_equality(c: CandidateView, q: Seq<char>)
    ensures
        selects(c, q) <==> exists|n: Seq<char>|
            #[trigger] c.match_names.contains(n) && n.len() == q.len() && forall|k: int|
                #![trigger n[k]]
                0 <= k < n.len() ==> {
                    let x = n[k] as u32;
                    let y = q[k] as u32;
                    ||| x == y
                    ||| (0x41 <= x && x <= 0x5A && x + 0x20 == y)
                    ||| (0x41 <= y && y <= 0x5A && y + 0x20 == x)
                },
{
    assert forall|n: Seq<char>| n.len() == q.len() implies (eq_ascii_case_insensitive(n, q) <==> forall|k: int|
        #![trigger n[k]]
        0 <= k < n.len() ==> {
            let x = n[k] as u32;
            let y = q[k] as u32;
            ||| x == y
            ||| (0x41 <= x && x <= 0x5A && x + 0x20 == y)
            ||| (0x41 <= y && y <= 0x5A && y + 0x20 == x)
        }) by {
        if eq_ascii_case_insensitive(n, q) {
            assert forall|k: int| #![trigger n[k]] 0 <= k < n.len() implies {
                let x = n[k] as u32;
                let y = q[k] as u32;
                ||| x == y
                ||| (0x41 <= x && x <= 0x5A && x + 0x20 == y)
                ||| (0x41 <= y && y <= 0x5A && y + 0x20 == x)
            } by {
                assert(crate::text::ascii_folded(n[k]) == crate::text::ascii_folded(q[k]));
            }
        }
    }
    if selects(c, q) {
        let n = choose|n: Seq<char>| c.match_names.contains(n) && eq_ascii_case_insensitive(n, q);
        assert(n.len() == q.len());
    }
}

/// The slugs of the candidates.
pub open spec fn candidate_names(cs: Seq<CandidateView>) -> Set<Seq<char>> {
    cs.map_values(|c: CandidateView| c.name).to_set()
}

/// What an update request comes to.
pub enum Selection {
    /// No skill is installed anywhere.
    NothingInstalled,
    /// The candidates to update, in order.
    Candidates(Vec<UpdateCandidate>),
}

/// A request for a skill that no candidate answers to.
pub struct NotInstalled {
    /// The skill asked for, trimmed.
    pub requested: String,
    /// The slugs of the installed skills, sorted, each once.
    pub available: Vec<String>,
}

impl NotInstalled {
    /// The error's text.
    pub fn message(&self) -> (r: String)
        ensures
            r@ == "skill not installed: "@ + self.requested@
                + ". Use `skillmux update --all` or choose one of: "@ + joined(
                views(self.available@),
                ", "@,
            ),
    {
        let mut r = String::from_str("skill not installed: ");
        r.append(self.requested.as_str());
        r.append(". Use `skillmux update --all` or choose one of: ");
        let names = join(&self.available, ", ");
        r.append(names.as_str());
        r
    }
}

fn contains_name_ignoring_ascii_case(names: &Vec<String>, requested: &str) -> (r: bool)
    ensures
        r == exists|n: Seq<char>| views(names@).to_set().contains(n) && eq_ascii_case_insensitive(n, requested@),
{
    let mut i: usize = 0;
    while i < names.len()
        invariant
            i <= names.len(),
            forall|k: int| 0 <= k < i ==> !eq_ascii_case_insensitive(#[trigger] views(names@)[k], requested@),
        decreases names.len() - i,
    {
        if eq_ignore_ascii_case(names[i].as_str(), requested) {
            assert(views(names@).to_set().contains(views(names@)[i as int]));
            return true;
        }
        i = i + 1;
    }
    proof {
        assert forall|n: Seq<char>| views(names@).to_set().contains(n) implies !eq_ascii_case_insensitive(n, requested@) by {
            let k = choose|k: int| 0 <= k < views(names@).len() && views(names@)[k] == n;
        }
    }
    false
}

/// Which installed skills an update request selects. With no candidates there
/// is nothing to do. With `all`, or no skill named (blank counts as none),
/// every candidate is selected; otherwise those that the trimmed name
/// selects, and when none does, the request is refused with the sorted slugs
/// of the candidates.
pub fn select_candidates(candidates: Vec<UpdateCandidate>, skill: Option<String>, all: bool) -> (r: Result<Selection, NotInstalled>)
    ensures
        candidates@.len() == 0 ==> r matches Ok(Selection::NothingInstalled),
        candidates@.len() > 0 && (all || trimmed_nonempty(opt_view(skill)) is None) ==> (r matches Ok(
            Selection::Candidates(v),
        ) && v@ == candidates@),
        candidates@.len() > 0 && !all && trimmed_nonempty(opt_view(skill)) is Some ==> {
            let q = trimmed_nonempty(opt_view(skill))->0;
            let sel = selected_by(candidates@, q);
            &&& sel.len() > 0 ==> (r matches Ok(Selection::Candidates(v)) && v@ == sel)
            &&& sel.len() == 0 ==> (r matches Err(e) && e.requested@ == q && strictly_sorted(views(e.available@))
                && views(e.available@).to_set() == candidate_names(cand_views(candidates@)))
        },
{
    if candidates.len() == 0 {
        return Ok(Selection::NothingInstalled);
    }
    let requested = match &skill {
        Some(s) => trim_nonempty(Some(s.as_str())),
        None => None,
    };
    let q = match requested {
        Some(q) => {
            if all {
                return Ok(Selection::Candidates(candidates));
            }
            q
        },
        None => {
            return Ok(Selection::Candidates(candidates));
        },
    };
    let ghost orig = candidates@;
    let mut available: Vec<String> = Vec::new();
    let mut i: usize = 0;
    while i < candidates.len()
        invariant
            i <= candidates.len(),
            candidates@ == orig,
            strictly_sorted(views(available@)),
            views(available@).to_set() == candidate_names(cand_views(orig.take(i as int))),
        decreases candidates.len() - i,
    {
        insert_sorted(&mut available, candidates[i].name.clone());
        proof {
            let a = cand_views(orig.take(i as int)).map_values(|c: CandidateView| c.name);
            assert(cand_views(orig.take(i + 1)).map_values(|c: CandidateView| c.name) =~= a + seq![orig[i as int].name@]);
            Seq::lemma_to_set_insert_commutes(a, orig[i as int].name@);
        }
        i = i + 1;
    }
    assert(orig.take(orig.len() as int) =~= orig);
    let mut rest = candidates;
    let mut selected: Vec<UpdateCandidate> = Vec::new();
    while rest.len() > 0
        invariant
            rest@.len() <= orig.len(),
            rest@ == orig.skip(orig.len() - rest@.len()),
            strictly_sorted(views(available@)),
            views(available@).to_set() == candidate_names(cand_views(orig)),
            selected@ == selected_by(orig.take(orig.len() - rest@.len()), q@),
        decreases rest@.len(),
    {
        let ghost done = orig.len() - rest@.len();
        let c = rest.remove(0);
        let ghost old_selected = selected@;
        proof {
            assert(c == orig[done]);
            assert(rest@ =~= orig.skip(done + 1));
            assert(orig.take(done + 1) =~= orig.take(done).push(c));
            lemma_selected_by_push(orig.take(done), c, q@);
        }
        if contains_name_ignoring_ascii_case(&c.match_names, q.as_str()) {
            selected.push(c);
            proof {
                assert(selected@ =~= old_selected.push(orig[done]));
            }
        }
    }
    assert(orig.take(orig.len() as int) =~= orig);
    if selected.len() == 0 {
        return Err(NotInstalled { requested: q, available });
    }
    Ok(Selection::Candidates(selected))
}

} // verus!
