//! The persistence gateway's logical paths: where each entity kind is
//! written, and how identifiers are read back out of a data file's name.

use vstd::prelude::*;

verus! {

/// A filesystem-backed snapshot store: its base directory.
#[derive(Debug)]
pub struct LocalStore {
    pub path: String,
}

/// A character an entity identifier may carry inside a data path.
pub open spec fn id_char(c: char) -> bool {
    ('A' <= c && c <= 'Z') || ('a' <= c && c <= 'z') || ('0' <= c && c <= '9') || c == '_' || c
        == '~' || c == '-'
}

pub open spec fn id_token(s: Seq<char>) -> bool {
    s.len() > 0 && forall|i: int| 0 <= i < s.len() ==> id_char(#[trigger] s[i])
}

fn is_id_char(c: char) -> (r: bool)
    ensures
        r == id_char(c),
{
    ('A' <= c && c <= 'Z') || ('a' <= c && c <= 'z') || ('0' <= c && c <= '9') || c == '_' || c
        == '~' || c == '-'
}

/// The length of the longest identifier-character prefix of a name.
pub open spec fn run_len(s: Seq<char>) -> int
    decreases s.len(),
{
    if s.len() > 0 && id_char(s[0]) {
        1 + run_len(s.subrange(1, s.len() as int))
    } else {
        0
    }
}

/// The identifier segments of a data file's name: exactly `parts`
/// dot-separated identifier tokens followed by the fixed suffix, or None
/// where the name has no such shape.  Each segment is the maximal
/// identifier run at its position, so the decomposition is unique.
pub open spec fn path_ids(name: Seq<char>, parts: int, suffix: Seq<char>) -> Option<
    Seq<Seq<char>>,
>
    decreases parts,
{
    let k = run_len(name);
    if k == 0 {
        None
    } else if parts <= 1 {
        if name.subrange(k, name.len() as int) == suffix {
            Some(seq![name.subrange(0, k)])
        } else {
            None
        }
    } else {
        if k < name.len() && name[k] == '.' {
            match path_ids(name.subrange(k + 1, name.len() as int), parts - 1, suffix) {
                Some(rest) => Some(seq![name.subrange(0, k)] + rest),
                None => None,
            }
        } else {
            None
        }
    }
}

/// The name a list of segments spells: the ids joined by '.', then the
/// suffix.
pub open spec fn joined_name(ids: Seq<Seq<char>>, suffix: Seq<char>) -> Seq<char>
    decreases ids.len(),
{
    if ids.len() == 0 {
        suffix
    } else if ids.len() == 1 {
        ids[0] + suffix
    } else {
        ids[0] + seq!['.'] + joined_name(ids.subrange(1, ids.len() as int), suffix)
    }
}

proof fn lemma_run_len_props(s: Seq<char>)
    ensures
        0 <= run_len(s) <= s.len(),
        forall|j: int| 0 <= j < run_len(s) ==> id_char(#[trigger] s[j]),
        run_len(s) < s.len() ==> !id_char(s[run_len(s)]),
    decreases s.len(),
{
    if s.len() > 0 && id_char(s[0]) {
        let tail = s.subrange(1, s.len() as int);
        lemma_run_len_props(tail);
        assert(forall|j: int| 0 <= j < tail.len() ==> #[trigger] tail[j] == s[j + 1]);
        assert forall|j: int| 0 <= j < run_len(s) implies id_char(#[trigger] s[j]) by {
            if j > 0 {
                assert(id_char(tail[j - 1]));
            }
        }
    }
}

/// The maximal run is pinned by its length: all identifier characters,
/// stopped by the end or a non-identifier character.
proof fn lemma_run_len_is(s: Seq<char>, k: int)
    requires
        0 <= k <= s.len(),
        forall|j: int| 0 <= j < k ==> id_char(#[trigger] s[j]),
        k == s.len() || !id_char(s[k]),
    ensures
        run_len(s) == k,
    decreases k,
{
    if k == 0 {
    } else {
        let tail = s.subrange(1, s.len() as int);
        assert(forall|j: int| 0 <= j < tail.len() ==> #[trigger] tail[j] == s[j + 1]);
        lemma_run_len_is(tail, k - 1);
    }
}

/// Soundness: found segments spell the name, and each is an identifier
/// token.
pub proof fn lemma_path_ids_spell(name: Seq<char>, parts: int, suffix: Seq<char>)
    requires
        path_ids(name, parts, suffix) is Some,
        parts >= 1,
    ensures
        ({
            let ids = path_ids(name, parts, suffix)->Some_0;
            &&& ids.len() == parts
            &&& forall|i: int| 0 <= i < ids.len() ==> id_token(#[trigger] ids[i])
            &&& name == joined_name(ids, suffix)
        }),
    decreases parts,
{
    let k = run_len(name);
    lemma_run_len_props(name);
    let head = name.subrange(0, k);
    assert(id_token(head)) by {
        assert(forall|j: int| 0 <= j < k ==> head[j] == name[j]);
    }
    let ids = path_ids(name, parts, suffix)->Some_0;
    if parts <= 1 {
        assert(ids =~~= seq![head]);
        assert(name =~= head + name.subrange(k, name.len() as int));
        assert(joined_name(ids, suffix) == head + suffix);
    } else {
        let rest_name = name.subrange(k + 1, name.len() as int);
        lemma_path_ids_spell(rest_name, parts - 1, suffix);
        let rest = path_ids(rest_name, parts - 1, suffix)->Some_0;
        assert(ids =~~= seq![head] + rest);
        assert(forall|i: int| 1 <= i < ids.len() ==> #[trigger] ids[i] == rest[i - 1]);
        assert(ids.subrange(1, ids.len() as int) =~~= rest);
        assert(name =~= head + seq!['.'] + rest_name);
        assert(joined_name(ids, suffix) == head + seq!['.'] + joined_name(rest, suffix));
    }
}

/// Completeness: a name that is some identifier tokens joined by '.' and
/// the suffix is found, and the found segments are those tokens (the
/// suffix must open with a non-identifier character, as every fixed suffix
/// here does with '.').
pub proof fn lemma_joined_name_parses(ids: Seq<Seq<char>>, suffix: Seq<char>)
    requires
        ids.len() >= 1,
        forall|i: int| 0 <= i < ids.len() ==> id_token(#[trigger] ids[i]),
        suffix.len() > 0,
        !id_char(suffix[0]),
    ensures
        path_ids(joined_name(ids, suffix), ids.len() as int, suffix) == Some(ids),
    decreases ids.len(),
{
    let name = joined_name(ids, suffix);
    let h = ids[0];
    if ids.len() == 1 {
        assert(name == h + suffix);
        assert(forall|j: int| 0 <= j < h.len() ==> #[trigger] name[j] == h[j]);
        assert(name[h.len() as int] == suffix[0]);
        lemma_run_len_is(name, h.len() as int);
        assert(name.subrange(0, h.len() as int) =~= h);
        assert(name.subrange(h.len() as int, name.len() as int) =~= suffix);
        assert(path_ids(name, 1, suffix) =~~= Some(seq![h]));
        assert(seq![h] =~~= ids);
    } else {
        let rest = ids.subrange(1, ids.len() as int);
        assert(forall|i: int| 0 <= i < rest.len() ==> #[trigger] rest[i] == ids[i + 1]);
        let rest_name = joined_name(rest, suffix);
        assert(name == h + seq!['.'] + rest_name);
        assert(forall|j: int| 0 <= j < h.len() ==> #[trigger] name[j] == h[j]);
        assert(name[h.len() as int] == '.');
        lemma_run_len_is(name, h.len() as int);
        assert(name.subrange(0, h.len() as int) =~= h);
        assert(name.subrange(h.len() as int + 1, name.len() as int) =~= rest_name);
        lemma_joined_name_parses(rest, suffix);
        assert(path_ids(name, ids.len() as int, suffix) =~~= Some(seq![h] + rest));
        assert(seq![h] + rest =~~= ids);
    }
}

/// The views of parsed segments.
pub open spec fn seg_views(ids: Seq<String>) -> Seq<Seq<char>> {
    ids.map_values(|x: String| x@)
}

/// Parses the segments of `name` from position `start` on: exactly `parts`
/// dot-separated identifier tokens, then the fixed suffix.
fn parse_segments(name: &str, v: &Vec<char>, start: usize, parts: usize, suffix: &str) -> (r:
    Option<Vec<String>>)
    requires
        v@ == name@,
        start <= v@.len(),
        1 <= parts,
    ensures
        ({
            let sub = v@.subrange(start as int, v@.len() as int);
            match r {
                Some(ids) => ids@.len() == parts && path_ids(sub, parts as int, suffix@) == Some(
                    seg_views(ids@),
                ) && (forall|i: int| 0 <= i < ids@.len() ==> id_token((#[trigger] ids@[i])@)),
                None => path_ids(sub, parts as int, suffix@) is None,
            }
        }),
    decreases parts,
{
    let ghost sub = v@.subrange(start as int, v@.len() as int);
    let n = v.len();
    let mut i = start;
    while i < n && is_id_char(v[i])
        invariant
            start <= i <= n == v@.len(),
            forall|j: int| start <= j < i ==> id_char(#[trigger] v@[j]),
        decreases n - i,
    {
        i = i + 1;
    }
    proof {
        assert(forall|j: int| 0 <= j < i - start ==> #[trigger] sub[j] == v@[start + j]);
        assert(i - start < sub.len() ==> sub[i - start] == v@[i as int]);
        lemma_run_len_is(sub, i - start);
    }
    if i == start {
        return None;
    }
    let id = name.substring_char(start, i).to_owned();
    proof {
        assert(id@ =~= sub.subrange(0, i - start));
        assert(id_token(id@)) by {
            assert(forall|j: int| 0 <= j < id@.len() ==> id_char(#[trigger] id@[j]));
        }
    }
    if parts == 1 {
        let rest = name.substring_char(i, n);
        if crate::nums::str_eq(rest, suffix) {
            proof {
                assert(rest@ =~= sub.subrange(i - start, sub.len() as int));
            }
            let mut ids: Vec<String> = Vec::new();
            ids.push(id);
            proof {
                assert(seg_views(ids@) =~~= seq![sub.subrange(0, i - start)]);
            }
            Some(ids)
        } else {
            proof {
                assert(rest@ =~= sub.subrange(i - start, sub.len() as int));
            }
            None
        }
    } else {
        if i < n && v[i] == '.' {
            proof {
                assert(sub[i - start] == '.');
            }
            match parse_segments(name, v, i + 1, parts - 1, suffix) {
                Some(rest_ids) => {
                    let mut ids = rest_ids;
                    ids.insert(0, id);
                    proof {
                        assert(sub.subrange(i + 1 - start, sub.len() as int) =~= v@.subrange(
                            i + 1,
                            v@.len() as int,
                        ));
                        assert(seg_views(ids@) =~~= seq![sub.subrange(0, i - start)] + seg_views(
                            ids@.subrange(1, ids@.len() as int),
                        ));
                        assert(seg_views(ids@.subrange(1, ids@.len() as int)) =~~= seg_views(
                            ids@,
                        ).subrange(1, ids@.len() as int));
                    }
                    Some(ids)
                },
                None => {
                    proof {
                        assert(sub.subrange(i + 1 - start, sub.len() as int) =~= v@.subrange(
                            i + 1,
                            v@.len() as int,
                        ));
                    }
                    None
                },
            }
        } else {
            None
        }
    }
}

/// Reads an app identifier out of `{app_id}.app.data.json`: Some exactly
/// when the name has that shape, with the identifier segment.
pub fn parse_app_path(name: &str) -> (r: Option<String>)
    ensures
        match r {
            Some(id) => path_ids(name@, 1, ".app.data.json"@) == Some(seq![id@]) && id_token(id@),
            None => path_ids(name@, 1, ".app.data.json"@) is None,
        },
{
    let v = crate::nums::chars_of(name);
    proof {
        assert(v@.subrange(0, v@.len() as int) =~= name@);
    }
    match parse_segments(name, &v, 0, 1, ".app.data.json") {
        Some(ids) => {
            let mut ids = ids;
            match ids.pop() {
                Some(id) => {
                    proof {
                        assert(seq![id@] =~~= seg_views(ids@.push(id)));
                    }
                    Some(id)
                },
                None => None,
            }
        },
        None => None,
    }
}

/// Reads the identifiers out of `{app_id}.{project_id}.project.data.json`:
/// Some exactly when the name has that shape, with the two segments.
pub fn parse_project_path(name: &str) -> (r: Option<(String, String)>)
    ensures
        match r {
            Some(ids) => path_ids(name@, 2, ".project.data.json"@) == Some(
                seq![ids.0@, ids.1@],
            ) && id_token(ids.0@) && id_token(ids.1@),
            None => path_ids(name@, 2, ".project.data.json"@) is None,
        },
{
    let v = crate::nums::chars_of(name);
    proof {
        assert(v@.subrange(0, v@.len() as int) =~= name@);
    }
    match parse_segments(name, &v, 0, 2, ".project.data.json") {
        Some(ids) => {
            let mut ids = ids;
            let second = ids.pop();
            let first = ids.pop();
            match (first, second) {
                (Some(a), Some(b)) => {
                    proof {
                        assert(seq![a@, b@] =~~= seg_views(ids@.push(a).push(b)));
                    }
                    Some((a, b))
                },
                (_, _) => None,
            }
        },
        None => None,
    }
}

/// Reads the identifiers out of
/// `{app_id}.{project_id}.{experiment_id}.experiment.data.json`: Some
/// exactly when the name has that shape, with the three segments.
pub fn parse_experiment_path(name: &str) -> (r: Option<(String, String, String)>)
    ensures
        match r {
            Some(ids) => path_ids(name@, 3, ".experiment.data.json"@) == Some(
                seq![ids.0@, ids.1@, ids.2@],
            ) && id_token(ids.0@) && id_token(ids.1@) && id_token(ids.2@),
            None => path_ids(name@, 3, ".experiment.data.json"@) is None,
        },
{
    let v = crate::nums::chars_of(name);
    proof {
        assert(v@.subrange(0, v@.len() as int) =~= name@);
    }
    match parse_segments(name, &v, 0, 3, ".experiment.data.json") {
        Some(ids) => {
            let mut ids = ids;
            let third = ids.pop();
            let second = ids.pop();
            let first = ids.pop();
            match (first, second, third) {
                (Some(a), Some(b), Some(c)) => {
                    proof {
                        assert(seq![a@, b@, c@] =~~= seg_views(ids@.push(a).push(b).push(c)));
                    }
                    Some((a, b, c))
                },
                (_, _, _) => None,
            }
        },
        None => None,
    }
}

/// Reads the identifiers out of
/// `{app_id}.{project_id}.{list_id}.audience-list.data.json`: Some exactly
/// when the name has that shape, with the three segments.
pub fn parse_audience_list_path(name: &str) -> (r: Option<(String, String, String)>)
    ensures
        match r {
            Some(ids) => path_ids(name@, 3, ".audience-list.data.json"@) == Some(
                seq![ids.0@, ids.1@, ids.2@],
            ) && id_token(ids.0@) && id_token(ids.1@) && id_token(ids.2@),
            None => path_ids(name@, 3, ".audience-list.data.json"@) is None,
        },
{
    let v = crate::nums::chars_of(name);
    proof {
        assert(v@.subrange(0, v@.len() as int) =~= name@);
    }
    match parse_segments(name, &v, 0, 3, ".audience-list.data.json") {
        Some(ids) => {
            let mut ids = ids;
            let third = ids.pop();
            let second = ids.pop();
            let first = ids.pop();
            match (first, second, third) {
                (Some(a), Some(b), Some(c)) => {
                    proof {
                        assert(seq![a@, b@, c@] =~~= seg_views(ids@.push(a).push(b).push(c)));
                    }
                    Some((a, b, c))
                },
                (_, _, _) => None,
            }
        },
        None => None,
    }
}

impl LocalStore {
    /// The directory holding app snapshots.
    pub fn apps_path(&self) -> (r: String)
        ensures
            r@ == self.path@ + "/apps"@,
    {
        proof {
            reveal_strlit("");
        }
        let out = crate::errors::join3(self.path.as_str(), "/apps", "");
        assert(out@ =~= self.path@ + "/apps"@);
        out
    }

    /// The directory holding project snapshots.
    pub fn projects_path(&self) -> (r: String)
        ensures
            r@ == self.path@ + "/projects"@,
    {
        proof {
            reveal_strlit("");
        }
        let out = crate::errors::join3(self.path.as_str(), "/projects", "");
        assert(out@ =~= self.path@ + "/projects"@);
        out
    }

    /// The directory holding experiment snapshots.
    pub fn experiments_path(&self) -> (r: String)
        ensures
            r@ == self.path@ + "/experiments"@,
    {
        proof {
            reveal_strlit("");
        }
        let out = crate::errors::join3(self.path.as_str(), "/experiments", "");
        assert(out@ =~= self.path@ + "/experiments"@);
        out
    }

    /// The directory holding audience-list snapshots.
    pub fn audience_lists_path(&self) -> (r: String)
        ensures
            r@ == self.path@ + "/audience_lists"@,
    {
        proof {
            reveal_strlit("");
        }
        let out = crate::errors::join3(self.path.as_str(), "/audience_lists", "");
        assert(out@ =~= self.path@ + "/audience_lists"@);
        out
    }

    /// The file an app is written to.
    pub fn app_data_path(&self, app_id: &str) -> (r: String)
        ensures
            r@ == self.path@ + "/apps/"@ + app_id@ + ".app.data.json"@,
    {
        let mut out = crate::errors::join3(self.path.as_str(), "/apps/", app_id);
        out.append(".app.data.json");
        proof {
            assert(out@ =~= self.path@ + "/apps/"@ + app_id@ + ".app.data.json"@);
        }
        out
    }

    /// The file a project is written to.
    pub fn project_data_path(&self, app_id: &str, project_id: &str) -> (r: String)
        ensures
            r@ == self.path@ + "/projects/"@ + app_id@ + "."@ + project_id@
                + ".project.data.json"@,
    {
        let mut out = crate::errors::join3(self.path.as_str(), "/projects/", app_id);
        out.append(".");
        out.append(project_id);
        out.append(".project.data.json");
        proof {
            assert(out@ =~= self.path@ + "/projects/"@ + app_id@ + "."@ + project_id@
                + ".project.data.json"@);
        }
        out
    }

    /// The file an experiment is written to.
    pub fn experiment_data_path(&self, app_id: &str, project_id: &str, experiment_id: &str) -> (r:
        String)
        ensures
            r@ == self.path@ + "/experiments/"@ + app_id@ + "."@ + project_id@ + "."@
                + experiment_id@ + ".experiment.data.json"@,
    {
        let mut out = crate::errors::join3(self.path.as_str(), "/experiments/", app_id);
        out.append(".");
        out.append(project_id);
        out.append(".");
        out.append(experiment_id);
        out.append(".experiment.data.json");
        proof {
            assert(out@ =~= self.path@ + "/experiments/"@ + app_id@ + "."@ + project_id@ + "."@
                + experiment_id@ + ".experiment.data.json"@);
        }
        out
    }

    /// The file an audience list is written to.
    pub fn audience_list_data_path(&self, app_id: &str, project_id: &str, list_id: &str) -> (r:
        String)
        ensures
            r@ == self.path@ + "/audience_lists/"@ + app_id@ + "."@ + project_id@ + "."@ + list_id@
                + ".audience-list.data.json"@,
    {
        let mut out = crate::errors::join3(self.path.as_str(), "/audience_lists/", app_id);
        out.append(".");
        out.append(project_id);
        out.append(".");
        out.append(list_id);
        out.append(".audience-list.data.json");
        proof {
            assert(out@ =~= self.path@ + "/audience_lists/"@ + app_id@ + "."@ + project_id@ + "."@
                + list_id@ + ".audience-list.data.json"@);
        }
        out
    }
}

} // verus!
