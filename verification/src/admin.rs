//! The admin surface: create, update, get and list for Apps, Projects,
//! Experiments and AudienceLists, each validating its level's rules, plus
//! the modification-time-gated loaders the background refresh feeds.

use vstd::prelude::*;

use crate::data::DataValue;
use crate::entities::App;
use crate::entities::Audience;
use crate::entities::AudienceList;
use crate::entities::Experiment;
use crate::entities::Project;
use crate::entities::Variation;
use crate::errors::HttpError;
use crate::service::AbOptimisationService;
use crate::service::opt_str_view;
use crate::service::wf_service;
use crate::store::AddResponse;

verus! {

broadcast use vstd::seq::group_seq_axioms, vstd::std_specs::vec::group_vec_axioms;

/// Name lengths an App must respect.
pub open spec fn app_shape_ok(a: App) -> bool {
    a.name@.len() >= 1 && 1 <= a.short_name@.len() <= 5
}

/// Whether another App (than the one being updated) already uses the name
/// or the short name.
pub open spec fn app_conflict(
    apps: Seq<(String, App)>,
    data: App,
    update_id: Option<Seq<char>>,
) -> bool {
    exists|i: int|
        0 <= i < apps.len() && (match update_id {
            Some(uid) => (#[trigger] apps[i]).1.id@ != uid,
            None => true,
        }) && (apps[i].1.short_name@ == data.short_name@ || apps[i].1.name@ == data.name@)
}

impl AbOptimisationService {
    /// Checks an App's names and their uniqueness among the other Apps.
    pub fn validate_app_data(&self, data: &App, update_id: Option<&str>) -> (r: Result<
        (),
        HttpError,
    >)
        ensures
            match r {
                Ok(()) => app_shape_ok(*data) && !app_conflict(
                    self.apps.entries@,
                    *data,
                    match update_id {
                        Some(u) => Some(u@),
                        None => None,
                    },
                ),
                Err(e) => (!app_shape_ok(*data) || app_conflict(
                    self.apps.entries@,
                    *data,
                    match update_id {
                        Some(u) => Some(u@),
                        None => None,
                    },
                )) && e matches HttpError::BadRequest(_),
            },
    {
        let name_len = data.name.as_str().unicode_len();
        let short_len = data.short_name.as_str().unicode_len();
        if !(name_len >= 1 && short_len >= 1 && short_len <= 5) {
            return Err(
                HttpError::BadRequest(
                    crate::errors::join3("invalid app data: ", data.name.as_str(), ""),
                ),
            );
        }
        let n = self.apps.len();
        let mut i: usize = 0;
        while i < n
            invariant
                i <= n == self.apps.entries@.len(),
                forall|j: int|
                    0 <= j < i ==> !(match update_id {
                        Some(u) => (#[trigger] self.apps.entries@[j]).1.id@ != u@,
                        None => true,
                    } && (self.apps.entries@[j].1.short_name@ == data.short_name@
                        || self.apps.entries@[j].1.name@ == data.name@)),
            decreases n - i,
        {
            let app = &self.apps.entries[i].1;
            let skip = match update_id {
                Some(u) => crate::nums::str_eq(app.id.as_str(), u),
                None => false,
            };
            if !skip {
                if crate::nums::str_eq(app.short_name.as_str(), data.short_name.as_str()) {
                    return Err(
                        HttpError::BadRequest(
                            crate::errors::join3(
                                "App with same short_name=",
                                app.short_name.as_str(),
                                " already exists",
                            ),
                        ),
                    );
                }
                if crate::nums::str_eq(app.name.as_str(), data.name.as_str()) {
                    return Err(
                        HttpError::BadRequest(
                            crate::errors::join3(
                                "App with same name=",
                                app.name.as_str(),
                                " already exists",
                            ),
                        ),
                    );
                }
            }
            i = i + 1;
        }
        Ok(())
    }

    /// Creates an App under a fresh identifier.  The incoming value carries
    /// no projects yet.  Should the random identifier collide with an
    /// existing key (odds around one in 2^126), the insert replaces that
    /// entry, exactly as the contract's lookup clauses state.
    pub fn add_app(&mut self, data: App) -> (r: Result<AddResponse, HttpError>)
        requires
            wf_service(*old(self)),
            data.projects.entries@.len() == 0,
        ensures
            wf_service(*final(self)),
            match r {
                Ok(resp) => {
                    &&& app_shape_ok(data)
                    &&& !app_conflict(old(self).apps.entries@, data, None)
                    &&& resp.id@.len() == 21
                    &&& final(self).apps.spec_get(resp.id@) matches Some(stored) && {
                        &&& stored.id@ == resp.id@
                        &&& stored.name == data.name
                        &&& stored.short_name == data.short_name
                        &&& stored.modification_time == data.modification_time
                        &&& stored.projects.entries@.len() == 0
                    }
                    &&& forall|k: Seq<char>|
                        k != resp.id@ ==> #[trigger] final(self).apps.spec_get(k)
                            == old(self).apps.spec_get(k)
                },
                Err(e) => (!app_shape_ok(data) || app_conflict(
                    old(self).apps.entries@,
                    data,
                    None,
                )) && (e matches HttpError::BadRequest(_)) && *final(self) == *old(self),
            },
    {
        self.validate_app_data(&data, None)?;
        let id = crate::trusted::new_id();
        let stored = App {
            id: id.clone(),
            name: data.name,
            short_name: data.short_name,
            projects: data.projects,
            modification_time: data.modification_time,
        };
        proof {
            assert(crate::entities::wf_app(stored));
        }
        self.apps.insert(id.clone(), stored);
        proof {
            assert(forall|i: int|
                0 <= i < self.apps.entries@.len() ==> crate::entities::wf_app(
                    (#[trigger] self.apps.entries@[i]).1,
                ));
        }
        Ok(AddResponse { id })
    }

    /// Replaces an App's name, short name and modification time.
    pub fn update_app(&mut self, app_id: &str, data: App) -> (r: Result<(), HttpError>)
        requires
            wf_service(*old(self)),
        ensures
            wf_service(*final(self)),
            match r {
                Ok(()) => {
                    &&& old(self).apps.spec_get(app_id@) matches Some(prev) && {
                        &&& app_shape_ok(data)
                        &&& !app_conflict(old(self).apps.entries@, data, Some(app_id@))
                        &&& final(self).apps.spec_get(app_id@) matches Some(stored) && {
                            &&& stored.id == prev.id
                            &&& stored.name == data.name
                            &&& stored.short_name == data.short_name
                            &&& stored.projects == prev.projects
                            &&& stored.modification_time == data.modification_time
                        }
                        &&& forall|k: Seq<char>|
                            k != app_id@ ==> #[trigger] final(self).apps.spec_get(k)
                                == old(self).apps.spec_get(k)
                    }
                },
                Err(e) => {
                    &&& *final(self) == *old(self)
                    &&& (e matches HttpError::NotFound(_) ==> old(self).apps.spec_get(app_id@)
                        is None)
                    &&& (e matches HttpError::BadRequest(_) ==> !(app_shape_ok(data)
                        && !app_conflict(old(self).apps.entries@, data, Some(app_id@))))
                    &&& (e matches HttpError::BadRequest(_) || e matches HttpError::NotFound(_))
                },
            },
    {
        self.validate_app_data(&data, Some(app_id))?;
        let ai = match self.apps.index_of(app_id) {
            Some(i) => i,
            None => {
                let msg = crate::errors::join3("No app found for id: ", app_id, "");
                return Err(HttpError::NotFound(msg));
            },
        };
        let ghost es0 = self.apps.entries@;
        let slot = &mut self.apps.entries[ai].1;
        slot.name = data.name;
        slot.short_name = data.short_name;
        slot.modification_time = data.modification_time;
        proof {
            assert(self.apps.entries@[ai as int].0@ == app_id@);
            assert(forall|j: int|
                0 <= j < es0.len() && j != ai ==> self.apps.entries@[j] == es0[j]);
            assert(forall|j: int|
                0 <= j < es0.len() ==> (#[trigger] self.apps.entries@[j]).0@ == es0[j].0@);
            crate::store::lemma_entries_get_unique(
                es0,
                self.apps.entries@,
                ai as int,
                app_id@,
                self.apps.entries@[ai as int].1,
            );
        }
        Ok(())
    }

    /// The App stored under an identifier; a miss names the missing app id.
    pub fn get_app(&self, app_id: &str) -> (r: Result<&App, HttpError>)
        ensures
            match r {
                Ok(a) => self.apps.spec_get(app_id@) == Some(*a),
                Err(e) => self.apps.spec_get(app_id@) is None && (e matches HttpError::NotFound(
                    m,
                ) && m@ == "No app found for id: "@ + app_id@),
            },
    {
        match self.apps.get(app_id) {
            Some(a) => Ok(a),
            None => {
                proof {
                    reveal_strlit("");
                }
                let msg = crate::errors::join3("No app found for id: ", app_id, "");
                assert(msg@ =~= "No app found for id: "@ + app_id@);
                Err(HttpError::NotFound(msg))
            },
        }
    }

    /// All Apps, in stored order.
    pub fn list_apps(&self) -> (r: &Vec<(String, App)>)
        ensures
            r == &self.apps.entries,
    {
        &self.apps.entries
    }

    /// Feeds one loaded App into the store: a new identifier inserts; an
    /// existing one is overwritten only when the incoming modification time
    /// is 0 (force) or newer than the held one.
    pub fn load_app(&mut self, app_id: &str, data: App, modification_time: i64) -> (r: Result<
        (),
        HttpError,
    >)
        requires
            wf_service(*old(self)),
            crate::entities::wf_app(data),
        ensures
            wf_service(*final(self)),
            match r {
                Ok(()) => match old(self).apps.spec_get(app_id@) {
                    None => final(self).apps.spec_get(app_id@) matches Some(stored) && ({
                        &&& stored.id@ == app_id@
                        &&& stored.name == data.name
                        &&& stored.short_name == data.short_name
                        &&& stored.projects == data.projects
                        &&& stored.modification_time == modification_time
                    } && (forall|k: Seq<char>|
                        k != app_id@ ==> #[trigger] final(self).apps.spec_get(k)
                            == old(self).apps.spec_get(k))),
                    Some(prev) => {
                        &&& (modification_time == 0 || modification_time > prev.modification_time)
                            ==> (final(self).apps.spec_get(app_id@) matches Some(stored) && {
                            &&& stored.id == prev.id
                            &&& stored.name == data.name
                            &&& stored.short_name == data.short_name
                            &&& stored.projects == prev.projects
                            &&& stored.modification_time == modification_time
                        })
                        &&& !(modification_time == 0 || modification_time
                            > prev.modification_time) ==> *final(self) == *old(self)
                        &&& forall|k: Seq<char>|
                            k != app_id@ ==> #[trigger] final(self).apps.spec_get(k)
                                == old(self).apps.spec_get(k)
                    },
                },
                Err(_) => false,
            },
    {
        let ai = self.apps.index_of(app_id);
        match ai {
            None => {
                let stored = App {
                    id: String::from_str(app_id),
                    name: data.name,
                    short_name: data.short_name,
                    projects: data.projects,
                    modification_time,
                };
                proof {
                    assert(crate::entities::wf_app(stored));
                }
                self.apps.insert(String::from_str(app_id), stored);
                proof {
                    assert(forall|i: int|
                        0 <= i < self.apps.entries@.len() ==> crate::entities::wf_app(
                            (#[trigger] self.apps.entries@[i]).1,
                        ));
                }
                Ok(())
            },
            Some(i) => {
                let ghost es0 = self.apps.entries@;
                if modification_time == 0 || modification_time
                    > self.apps.entries[i].1.modification_time {
                    let slot = &mut self.apps.entries[i].1;
                    slot.name = data.name;
                    slot.short_name = data.short_name;
                    slot.modification_time = modification_time;
                    proof {
                        assert(self.apps.entries@[i as int].0@ == app_id@);
                        assert(forall|j: int|
                            0 <= j < es0.len() && j != i ==> self.apps.entries@[j] == es0[j]);
                        assert(forall|j: int|
                            0 <= j < es0.len() ==> (#[trigger] self.apps.entries@[j]).0@
                                == es0[j].0@);
                        crate::store::lemma_entries_get_unique(
                            es0,
                            self.apps.entries@,
                            i as int,
                            app_id@,
                            self.apps.entries@[i as int].1,
                        );
                    }
                }
                Ok(())
            },
        }
    }
}

/// Name lengths a Project must respect.
pub open spec fn project_shape_ok(p: Project) -> bool {
    p.name@.len() >= 1 && 1 <= p.short_name@.len() <= 5
}

/// Whether another Project in the same App already uses the name or short
/// name.
pub open spec fn project_conflict(
    projs: Seq<(String, Project)>,
    data: Project,
    update_id: Option<Seq<char>>,
) -> bool {
    exists|i: int|
        0 <= i < projs.len() && (match update_id {
            Some(uid) => (#[trigger] projs[i]).1.id@ != uid,
            None => true,
        }) && (projs[i].1.short_name@ == data.short_name@ || projs[i].1.name@ == data.name@)
}

/// Whether another Experiment in the same Project already uses the name or
/// short name.
pub open spec fn experiment_conflict(
    exps: Seq<(String, Experiment)>,
    data: Experiment,
    update_id: Option<Seq<char>>,
) -> bool {
    exists|i: int|
        0 <= i < exps.len() && (match update_id {
            Some(uid) => (#[trigger] exps[i]).1.id@ != uid,
            None => true,
        }) && (exps[i].1.short_name@ == data.short_name@ || exps[i].1.name@ == data.name@)
}

/// Whether another AudienceList in the same Project already uses the name.
pub open spec fn audience_list_conflict(
    lists: Seq<(String, AudienceList)>,
    data: AudienceList,
    update_id: Option<Seq<char>>,
) -> bool {
    exists|i: int|
        0 <= i < lists.len() && (match update_id {
            Some(uid) => (#[trigger] lists[i]).1.id@ != uid,
            None => true,
        }) && lists[i].1.name@ == data.name@
}

pub open spec fn opt_data_view(d: Option<DataValue>) -> Option<crate::data::DataModel> {
    match d {
        Some(v) => Some(v@),
        None => None,
    }
}

/// Equality of an audience's configuration (its admitted count aside).
pub open spec fn audience_config_eq(a: Audience, b: Audience) -> bool {
    &&& a.name@ == b.name@
    &&& opt_str_view(a.script_src) == opt_str_view(b.script_src)
    &&& opt_str_view(a.list_id) == opt_str_view(b.list_id)
    &&& a.size == b.size
}

pub open spec fn audiences_config_eq(xs: Seq<Audience>, ys: Seq<Audience>) -> bool {
    xs.len() == ys.len() && forall|i: int|
        0 <= i < xs.len() ==> audience_config_eq(#[trigger] xs[i], #[trigger] ys[i])
}

pub open spec fn variation_config_eq(a: Variation, b: Variation) -> bool {
    &&& a.name@ == b.name@
    &&& a.short_name@ == b.short_name@
    &&& a.size == b.size
    &&& opt_data_view(a.data) == opt_data_view(b.data)
}

pub open spec fn variations_config_eq(
    xs: Option<Vec<Variation>>,
    ys: Option<Vec<Variation>>,
) -> bool {
    match (xs, ys) {
        (None, None) => true,
        (Some(a), Some(b)) => a@.len() == b@.len() && forall|i: int|
            0 <= i < a@.len() ==> variation_config_eq(#[trigger] a@[i], #[trigger] b@[i]),
        (_, _) => false,
    }
}

/// Whether two experiments agree on every semantically meaningful field
/// (identifiers, versions and counters aside).  An update bumps the version
/// exactly when this does not hold.
pub open spec fn same_experiment_config(a: Experiment, b: Experiment) -> bool {
    &&& a.name@ == b.name@
    &&& a.short_name@ == b.short_name@
    &&& a.kind == b.kind
    &&& a.inactive == b.inactive
    &&& opt_str_view(a.start_time) == opt_str_view(b.start_time)
    &&& opt_str_view(a.end_time) == opt_str_view(b.end_time)
    &&& audiences_config_eq(a.audiences@, b.audiences@)
    &&& variations_config_eq(a.variations, b.variations)
    &&& opt_str_view(a.frequency_constraint) == opt_str_view(b.frequency_constraint)
    &&& opt_data_view(a.data) == opt_data_view(b.data)
}

fn opt_string_eq(a: &Option<String>, b: &Option<String>) -> (r: bool)
    ensures
        r == (opt_str_view(*a) == opt_str_view(*b)),
{
    match (a, b) {
        (Some(x), Some(y)) => crate::nums::str_eq(x.as_str(), y.as_str()),
        (None, None) => true,
        (_, _) => false,
    }
}

fn audiences_eq(xs: &Vec<Audience>, ys: &Vec<Audience>) -> (r: bool)
    ensures
        r == audiences_config_eq(xs@, ys@),
{
    if xs.len() != ys.len() {
        return false;
    }
    let n = xs.len();
    let mut i: usize = 0;
    while i < n
        invariant
            i <= n == xs@.len() == ys@.len(),
            forall|j: int|
                0 <= j < i ==> audience_config_eq(#[trigger] xs@[j], #[trigger] ys@[j]),
        decreases n - i,
    {
        let a = &xs[i];
        let b = &ys[i];
        let same = crate::nums::str_eq(a.name.as_str(), b.name.as_str()) && opt_string_eq(
            &a.script_src,
            &b.script_src,
        ) && opt_string_eq(&a.list_id, &b.list_id) && a.size == b.size;
        if !same {
            return false;
        }
        i = i + 1;
    }
    true
}

fn variations_eq(xs: &Option<Vec<Variation>>, ys: &Option<Vec<Variation>>) -> (r: bool)
    ensures
        r == variations_config_eq(*xs, *ys),
{
    match (xs, ys) {
        (None, None) => true,
        (Some(a), Some(b)) => {
            if a.len() != b.len() {
                return false;
            }
            let n = a.len();
            let mut i: usize = 0;
            while i < n
                invariant
                    *xs == Some(*a),
                    *ys == Some(*b),
                    i <= n == a@.len() == b@.len(),
                    forall|j: int|
                        0 <= j < i ==> variation_config_eq(#[trigger] a@[j], #[trigger] b@[j]),
                decreases n - i,
            {
                let x = &a[i];
                let y = &b[i];
                let same = crate::nums::str_eq(x.name.as_str(), y.name.as_str())
                    && crate::nums::str_eq(x.short_name.as_str(), y.short_name.as_str()) && x.size
                    == y.size && crate::data::opt_data_eq(&x.data, &y.data);
                if !same {
                    return false;
                }
                i = i + 1;
            }
            true
        },
        (_, _) => false,
    }
}

/// Compares the semantically meaningful fields of two experiments.
pub fn experiment_config_eq(a: &Experiment, b: &Experiment) -> (r: bool)
    ensures
        r == same_experiment_config(*a, *b),
{
    crate::nums::str_eq(a.name.as_str(), b.name.as_str()) && crate::nums::str_eq(
        a.short_name.as_str(),
        b.short_name.as_str(),
    ) && a.kind == b.kind && a.inactive == b.inactive && opt_string_eq(
        &a.start_time,
        &b.start_time,
    ) && opt_string_eq(&a.end_time, &b.end_time) && audiences_eq(&a.audiences, &b.audiences)
        && variations_eq(&a.variations, &b.variations) && opt_string_eq(
        &a.frequency_constraint,
        &b.frequency_constraint,
    ) && crate::data::opt_data_eq(&a.data, &b.data)
}

impl AbOptimisationService {
    /// Checks a Project's names and their uniqueness among the App's other
    /// Projects.
    pub fn validate_project_data(app: &App, data: &Project, update_id: Option<&str>) -> (r: Result<
        (),
        HttpError,
    >)
        ensures
            match r {
                Ok(()) => project_shape_ok(*data) && !project_conflict(
                    app.projects.entries@,
                    *data,
                    match update_id {
                        Some(u) => Some(u@),
                        None => None,
                    },
                ),
                Err(e) => (!project_shape_ok(*data) || project_conflict(
                    app.projects.entries@,
                    *data,
                    match update_id {
                        Some(u) => Some(u@),
                        None => None,
                    },
                )) && (e matches HttpError::BadRequest(_)),
            },
    {
        let name_len = data.name.as_str().unicode_len();
        let short_len = data.short_name.as_str().unicode_len();
        if !(name_len >= 1 && short_len >= 1 && short_len <= 5) {
            return Err(
                HttpError::BadRequest(
                    crate::errors::join3("invalid project data: ", data.name.as_str(), ""),
                ),
            );
        }
        let n = app.projects.len();
        let mut i: usize = 0;
        while i < n
            invariant
                i <= n == app.projects.entries@.len(),
                forall|j: int|
                    0 <= j < i ==> !(match update_id {
                        Some(u) => (#[trigger] app.projects.entries@[j]).1.id@ != u@,
                        None => true,
                    } && (app.projects.entries@[j].1.short_name@ == data.short_name@
                        || app.projects.entries@[j].1.name@ == data.name@)),
            decreases n - i,
        {
            let p = &app.projects.entries[i].1;
            let skip = match update_id {
                Some(u) => crate::nums::str_eq(p.id.as_str(), u),
                None => false,
            };
            if !skip {
                if crate::nums::str_eq(p.short_name.as_str(), data.short_name.as_str()) {
                    return Err(
                        HttpError::BadRequest(
                            crate::errors::join3(
                                "Project with same short_name=",
                                p.short_name.as_str(),
                                " already exists",
                            ),
                        ),
                    );
                }
                if crate::nums::str_eq(p.name.as_str(), data.name.as_str()) {
                    return Err(
                        HttpError::BadRequest(
                            crate::errors::join3(
                                "Project with same name=",
                                p.name.as_str(),
                                " already exists",
                            ),
                        ),
                    );
                }
            }
            i = i + 1;
        }
        Ok(())
    }

    /// Creates a Project under a fresh identifier inside an App.  The
    /// incoming value carries no experiments or audience lists yet.  A
    /// colliding random identifier (odds around one in 2^126) replaces that
    /// entry, as the contract's lookup clauses state.
    pub fn add_project(&mut self, app_id: &str, data: Project) -> (r: Result<
        AddResponse,
        HttpError,
    >)
        requires
            wf_service(*old(self)),
            data.experiments.entries@.len() == 0,
            data.audience_lists.entries@.len() == 0,
        ensures
            wf_service(*final(self)),
            match r {
                Ok(resp) => {
                    &&& old(self).apps.spec_get(app_id@) matches Some(app) && ({
                        &&& project_shape_ok(data)
                        &&& !project_conflict(app.projects.entries@, data, None)
                        &&& resp.id@.len() == 21
                        &&& final(self).apps.spec_get(app_id@) matches Some(app1) && ({
                            &&& app1.id == app.id
                            &&& app1.name == app.name
                            &&& app1.short_name == app.short_name
                            &&& app1.modification_time == app.modification_time
                            &&& app1.projects.spec_get(resp.id@) matches Some(stored) && ({
                                &&& stored.id@ == resp.id@
                                &&& stored.name == data.name
                                &&& stored.short_name == data.short_name
                                &&& stored.tracking_method == data.tracking_method
                                &&& stored.modification_time == data.modification_time
                                &&& stored.experiments.entries@.len() == 0
                                &&& stored.audience_lists.entries@.len() == 0
                            })
                            &&& forall|k: Seq<char>|
                                k != resp.id@ ==> #[trigger] app1.projects.spec_get(k)
                                    == app.projects.spec_get(k)
                        })
                        &&& forall|k: Seq<char>|
                            k != app_id@ ==> #[trigger] final(self).apps.spec_get(k)
                                == old(self).apps.spec_get(k)
                    })
                },
                Err(e) => {
                    &&& *final(self) == *old(self)
                    &&& (e matches HttpError::NotFound(_) ==> old(self).apps.spec_get(app_id@)
                        is None)
                    &&& (e matches HttpError::BadRequest(_) || e matches HttpError::NotFound(_))
                },
            },
    {
        let ai = match self.apps.index_of(app_id) {
            Some(i) => i,
            None => {
                let msg = crate::errors::join3("No app found for id: ", app_id, "");
                return Err(HttpError::NotFound(msg));
            },
        };
        match Self::validate_project_data(&self.apps.entries[ai].1, &data, None) {
            Ok(()) => {},
            Err(e) => {
                return Err(e);
            },
        }
        let id = crate::trusted::new_id();
        let stored = Project {
            id: id.clone(),
            name: data.name,
            short_name: data.short_name,
            tracking_method: data.tracking_method,
            experiments: data.experiments,
            audience_lists: data.audience_lists,
            modification_time: data.modification_time,
        };
        proof {
            assert(crate::entities::wf_project(stored));
        }
        let ghost es0 = self.apps.entries@;
        let app_mut = &mut self.apps.entries[ai];
        app_mut.1.projects.insert(id.clone(), stored);
        proof {
            assert(self.apps.entries@[ai as int].0@ == app_id@);
            assert(forall|j: int|
                0 <= j < es0.len() && j != ai ==> self.apps.entries@[j] == es0[j]);
            assert(forall|j: int|
                0 <= j < es0.len() ==> (#[trigger] self.apps.entries@[j]).0@ == es0[j].0@);
            crate::store::lemma_entries_get_unique(
                es0,
                self.apps.entries@,
                ai as int,
                app_id@,
                self.apps.entries@[ai as int].1,
            );
            assert(crate::entities::wf_app(self.apps.entries@[ai as int].1));
        }
        Ok(AddResponse { id })
    }

    /// Replaces a Project's name, short name, tracking method and
    /// modification time.
    pub fn update_project(&mut self, app_id: &str, project_id: &str, data: Project) -> (r: Result<
        (),
        HttpError,
    >)
        requires
            wf_service(*old(self)),
        ensures
            wf_service(*final(self)),
            match r {
                Ok(()) => {
                    &&& old(self).apps.spec_get(app_id@) matches Some(app) && ({
                        &&& app.projects.spec_get(project_id@) matches Some(prev) && ({
                            &&& project_shape_ok(data)
                            &&& !project_conflict(app.projects.entries@, data, Some(project_id@))
                            &&& final(self).apps.spec_get(app_id@) matches Some(app1) && ({
                                &&& app1.projects.spec_get(project_id@) matches Some(stored) && ({
                                    &&& stored.id == prev.id
                                    &&& stored.name == data.name
                                    &&& stored.short_name == data.short_name
                                    &&& stored.tracking_method == data.tracking_method
                                    &&& stored.experiments == prev.experiments
                                    &&& stored.audience_lists == prev.audience_lists
                                    &&& stored.modification_time == data.modification_time
                                })
                                &&& forall|k: Seq<char>|
                                    k != project_id@ ==> #[trigger] app1.projects.spec_get(k)
                                        == app.projects.spec_get(k)
                            })
                            &&& forall|k: Seq<char>|
                                k != app_id@ ==> #[trigger] final(self).apps.spec_get(k)
                                    == old(self).apps.spec_get(k)
                        })
                    })
                },
                Err(e) => {
                    &&& *final(self) == *old(self)
                    &&& (e matches HttpError::NotFound(_) || e matches HttpError::BadRequest(_))
                    &&& (e matches HttpError::BadRequest(_) ==> old(self).apps.spec_get(app_id@)
                        matches Some(app) && !(project_shape_ok(data) && !project_conflict(
                        app.projects.entries@,
                        data,
                        Some(project_id@),
                    )))
                    &&& (e matches HttpError::NotFound(_) ==> (old(self).apps.spec_get(app_id@)
                        is None || (old(self).apps.spec_get(app_id@) matches Some(app)
                        && app.projects.spec_get(project_id@) is None)))
                },
            },
    {
        let ai = match self.apps.index_of(app_id) {
            Some(i) => i,
            None => {
                let msg = crate::errors::join3("No app found for id: ", app_id, "");
                return Err(HttpError::NotFound(msg));
            },
        };
        match Self::validate_project_data(&self.apps.entries[ai].1, &data, Some(project_id)) {
            Ok(()) => {},
            Err(e) => {
                return Err(e);
            },
        }
        let pi = match self.apps.entries[ai].1.projects.index_of(project_id) {
            Some(i) => i,
            None => {
                let msg = crate::errors::join3("Project not found for project id: ", project_id,
                "");
                return Err(HttpError::NotFound(msg));
            },
        };
        let ghost es0 = self.apps.entries@;
        let app_mut = &mut self.apps.entries[ai];
        let ghost ps0 = app_mut.1.projects.entries@;
        let slot = &mut app_mut.1.projects.entries[pi];
        slot.1.name = data.name;
        slot.1.short_name = data.short_name;
        slot.1.tracking_method = data.tracking_method;
        slot.1.modification_time = data.modification_time;
        proof {
            let ps1 = self.apps.entries@[ai as int].1.projects.entries@;
            assert(ps1[pi as int].0@ == project_id@);
            assert(forall|j: int| 0 <= j < ps0.len() && j != pi ==> ps1[j] == ps0[j]);
            assert(forall|j: int| 0 <= j < ps0.len() ==> (#[trigger] ps1[j]).0@ == ps0[j].0@);
            crate::store::lemma_entries_get_unique(
                ps0,
                ps1,
                pi as int,
                project_id@,
                ps1[pi as int].1,
            );
            assert(self.apps.entries@[ai as int].0@ == app_id@);
            assert(forall|j: int|
                0 <= j < es0.len() && j != ai ==> self.apps.entries@[j] == es0[j]);
            assert(forall|j: int|
                0 <= j < es0.len() ==> (#[trigger] self.apps.entries@[j]).0@ == es0[j].0@);
            crate::store::lemma_entries_get_unique(
                es0,
                self.apps.entries@,
                ai as int,
                app_id@,
                self.apps.entries@[ai as int].1,
            );
            assert(crate::entities::wf_project(ps1[pi as int].1));
            assert(crate::entities::wf_app(self.apps.entries@[ai as int].1));
        }
        Ok(())
    }

    /// The Project stored under an identifier pair; a miss names the
    /// missing id and its level — an app miss propagates unchanged.
    pub fn get_project(&self, app_id: &str, project_id: &str) -> (r: Result<&Project, HttpError>)
        ensures
            match r {
                Ok(p) => self.apps.spec_get(app_id@) matches Some(app) && app.projects.spec_get(
                    project_id@,
                ) == Some(*p),
                Err(e) => e matches HttpError::NotFound(m) && ((self.apps.spec_get(app_id@)
                    is None && m@ == "No app found for id: "@ + app_id@) || (self.apps.spec_get(
                    app_id@,
                ) matches Some(app) && app.projects.spec_get(project_id@) is None && m@
                    == "Project not found for project id: "@ + project_id@)),
            },
    {
        let app = self.get_app(app_id)?;
        match app.projects.get(project_id) {
            Some(p) => Ok(p),
            None => {
                proof {
                    reveal_strlit("");
                }
                let msg = crate::errors::join3(
                    "Project not found for project id: ",
                    project_id,
                    "",
                );
                assert(msg@ =~= "Project not found for project id: "@ + project_id@);
                Err(HttpError::NotFound(msg))
            },
        }
    }

    /// Checks an Experiment's shape, that its version is left to the
    /// service, that every script it carries parses, and its name
    /// uniqueness among the Project's experiments.
    pub fn validate_experiment_data(proj: &Project, data: &Experiment, update_id: Option<&str>) -> (r:
        Result<(), HttpError>)
        ensures
            match r {
                Ok(()) => crate::entities::wf_experiment(*data) && data.version == 0
                    && crate::entities::scripts_parse(*data) && !experiment_conflict(
                    proj.experiments.entries@,
                    *data,
                    match update_id {
                        Some(u) => Some(u@),
                        None => None,
                    },
                ),
                Err(e) => (!crate::entities::wf_experiment(*data) || data.version != 0
                    || !crate::entities::scripts_parse(*data) || experiment_conflict(
                    proj.experiments.entries@,
                    *data,
                    match update_id {
                        Some(u) => Some(u@),
                        None => None,
                    },
                )) && (e matches HttpError::BadRequest(_)),
            },
    {
        if !crate::entities::validate_experiment_shape(data) {
            return Err(
                HttpError::BadRequest(
                    crate::errors::join3("invalid experiment data: ", data.name.as_str(), ""),
                ),
            );
        }
        // Scripts compile at configuration time: a malformed frequency
        // constraint or audience predicate is rejected here.
        match &data.frequency_constraint {
            Some(src) => match crate::script::Script::new(src.clone()) {
                Ok(_) => {},
                Err(e) => {
                    return Err(e);
                },
            },
            None => {},
        }
        let na = data.audiences.len();
        let mut k: usize = 0;
        while k < na
            invariant
                k <= na == data.audiences@.len(),
                forall|j: int|
                    0 <= j < k ==> match (#[trigger] data.audiences@[j]).script_src {
                        Some(src) => vstd::utf8::is_ascii_chars(src@)
                            && crate::trusted::script_parses(src@),
                        None => true,
                    },
            decreases na - k,
        {
            match &data.audiences[k].script_src {
                Some(src) => match crate::script::Script::new(src.clone()) {
                    Ok(_) => {},
                    Err(e) => {
                        return Err(e);
                    },
                },
                None => {},
            }
            k = k + 1;
        }
        if data.version != 0 {
            return Err(
                HttpError::BadRequest(
                    crate::errors::join3(
                        "Version # is automatically calculated and is not allowed",
                        "",
                        "",
                    ),
                ),
            );
        }
        let n = proj.experiments.len();
        let mut i: usize = 0;
        while i < n
            invariant
                i <= n == proj.experiments.entries@.len(),
                forall|j: int|
                    0 <= j < i ==> !(match update_id {
                        Some(u) => (#[trigger] proj.experiments.entries@[j]).1.id@ != u@,
                        None => true,
                    } && (proj.experiments.entries@[j].1.short_name@ == data.short_name@
                        || proj.experiments.entries@[j].1.name@ == data.name@)),
            decreases n - i,
        {
            let e = &proj.experiments.entries[i].1;
            let skip = match update_id {
                Some(u) => crate::nums::str_eq(e.id.as_str(), u),
                None => false,
            };
            if !skip {
                if crate::nums::str_eq(e.short_name.as_str(), data.short_name.as_str()) {
                    return Err(
                        HttpError::BadRequest(
                            crate::errors::join3(
                                "Experiment with same short_name=",
                                e.short_name.as_str(),
                                " already exists",
                            ),
                        ),
                    );
                }
                if crate::nums::str_eq(e.name.as_str(), data.name.as_str()) {
                    return Err(
                        HttpError::BadRequest(
                            crate::errors::join3(
                                "Experiment with same name=",
                                e.name.as_str(),
                                " already exists",
                            ),
                        ),
                    );
                }
            }
            i = i + 1;
        }
        Ok(())
    }

    /// Creates an Experiment under a fresh identifier, starting at
    /// version 1.  A colliding random identifier (odds around one in 2^126)
    /// replaces that entry, as the contract's lookup clauses state.
    pub fn add_experiment(&mut self, app_id: &str, project_id: &str, data: Experiment) -> (r:
        Result<AddResponse, HttpError>)
        requires
            wf_service(*old(self)),
        ensures
            wf_service(*final(self)),
            match r {
                Ok(resp) => {
                    &&& old(self).apps.spec_get(app_id@) matches Some(app) && ({
                        &&& app.projects.spec_get(project_id@) matches Some(proj) && ({
                            &&& crate::entities::wf_experiment(data)
                            &&& data.version == 0
                            &&& crate::entities::scripts_parse(data)
                            &&& !experiment_conflict(proj.experiments.entries@, data, None)
                            &&& resp.id@.len() == 21
                            &&& final(self).apps.spec_get(app_id@) matches Some(app1) && ({
                                &&& app1.projects.spec_get(project_id@) matches Some(proj1) && ({
                                    &&& proj1.experiments.spec_get(resp.id@) matches Some(stored)
                                        && ({
                                        &&& stored.id@ == resp.id@
                                        &&& stored.version == 1
                                        &&& stored.name == data.name
                                        &&& stored.short_name == data.short_name
                                        &&& stored.kind == data.kind
                                        &&& stored.inactive == data.inactive
                                        &&& stored.audiences == data.audiences
                                        &&& stored.variations == data.variations
                                        &&& stored.frequency_constraint
                                            == data.frequency_constraint
                                        &&& stored.data == data.data
                                        &&& stored.control_size == data.control_size
                                        &&& stored.test_size == data.test_size
                                    })
                                    &&& forall|k: Seq<char>|
                                        k != resp.id@ ==> #[trigger] proj1.experiments.spec_get(k)
                                            == proj.experiments.spec_get(k)
                                    &&& proj1.audience_lists == proj.audience_lists
                                    &&& proj1.id == proj.id
                                    &&& proj1.name == proj.name
                                    &&& proj1.short_name == proj.short_name
                                    &&& proj1.tracking_method == proj.tracking_method
                                })
                                &&& forall|k: Seq<char>|
                                    k != project_id@ ==> #[trigger] app1.projects.spec_get(k)
                                        == app.projects.spec_get(k)
                            })
                            &&& forall|k: Seq<char>|
                                k != app_id@ ==> #[trigger] final(self).apps.spec_get(k)
                                    == old(self).apps.spec_get(k)
                        })
                    })
                },
                Err(e) => {
                    &&& *final(self) == *old(self)
                    &&& (e matches HttpError::NotFound(_) || e matches HttpError::BadRequest(_))
                },
            },
    {
        let ai = match self.apps.index_of(app_id) {
            Some(i) => i,
            None => {
                let msg = crate::errors::join3("No app found for id: ", app_id, "");
                return Err(HttpError::NotFound(msg));
            },
        };
        let pi = match self.apps.entries[ai].1.projects.index_of(project_id) {
            Some(i) => i,
            None => {
                let msg = crate::errors::join3("Project not found for project id: ", project_id,
                "");
                return Err(HttpError::NotFound(msg));
            },
        };
        match Self::validate_experiment_data(
            &self.apps.entries[ai].1.projects.entries[pi].1,
            &data,
            None,
        ) {
            Ok(()) => {},
            Err(e) => {
                return Err(e);
            },
        }
        let id = crate::trusted::new_id();
        let stored = Experiment {
            id: id.clone(),
            version: 1,
            name: data.name,
            short_name: data.short_name,
            kind: data.kind,
            inactive: data.inactive,
            start_time: data.start_time,
            end_time: data.end_time,
            audiences: data.audiences,
            frequency_constraint: data.frequency_constraint,
            variations: data.variations,
            data: data.data,
            control_size: data.control_size,
            test_size: data.test_size,
        };
        proof {
            assert(crate::entities::wf_experiment(stored));
        }
        let ghost es0 = self.apps.entries@;
        let app_mut = &mut self.apps.entries[ai];
        let ghost ps0 = app_mut.1.projects.entries@;
        let proj_mut = &mut app_mut.1.projects.entries[pi];
        proj_mut.1.experiments.insert(id.clone(), stored);
        proof {
            let ps1 = self.apps.entries@[ai as int].1.projects.entries@;
            assert(ps1[pi as int].0@ == project_id@);
            assert(forall|j: int| 0 <= j < ps0.len() && j != pi ==> ps1[j] == ps0[j]);
            assert(forall|j: int| 0 <= j < ps0.len() ==> (#[trigger] ps1[j]).0@ == ps0[j].0@);
            crate::store::lemma_entries_get_unique(
                ps0,
                ps1,
                pi as int,
                project_id@,
                ps1[pi as int].1,
            );
            assert(self.apps.entries@[ai as int].0@ == app_id@);
            assert(forall|j: int|
                0 <= j < es0.len() && j != ai ==> self.apps.entries@[j] == es0[j]);
            assert(forall|j: int|
                0 <= j < es0.len() ==> (#[trigger] self.apps.entries@[j]).0@ == es0[j].0@);
            crate::store::lemma_entries_get_unique(
                es0,
                self.apps.entries@,
                ai as int,
                app_id@,
                self.apps.entries@[ai as int].1,
            );
            assert(crate::entities::wf_project(ps1[pi as int].1));
            assert(crate::entities::wf_app(self.apps.entries@[ai as int].1));
        }
        Ok(AddResponse { id })
    }

    /// Replaces an Experiment's configuration; the version is bumped by one
    /// exactly when a semantically meaningful field changed (saturating at
    /// the type's top).  The traffic counters stay.
    pub fn update_experiment(
        &mut self,
        app_id: &str,
        project_id: &str,
        experiment_id: &str,
        data: Experiment,
    ) -> (r: Result<(), HttpError>)
        requires
            wf_service(*old(self)),
        ensures
            wf_service(*final(self)),
            match r {
                Ok(()) => {
                    &&& old(self).apps.spec_get(app_id@) matches Some(app) && ({
                        &&& app.projects.spec_get(project_id@) matches Some(proj) && ({
                            &&& proj.experiments.spec_get(experiment_id@) matches Some(prev) && ({
                                &&& crate::entities::wf_experiment(data)
                                &&& data.version == 0
                                &&& crate::entities::scripts_parse(data)
                                &&& !experiment_conflict(
                                    proj.experiments.entries@,
                                    data,
                                    Some(experiment_id@),
                                )
                                &&& final(self).apps.spec_get(app_id@) matches Some(app1) && ({
                                    &&& app1.projects.spec_get(project_id@) matches Some(proj1)
                                        && ({
                                        &&& proj1.experiments.spec_get(experiment_id@) matches
                                            Some(stored) && ({
                                            &&& stored.id == prev.id
                                            &&& stored.name == data.name
                                            &&& stored.short_name == data.short_name
                                            &&& stored.kind == data.kind
                                            &&& stored.inactive == data.inactive
                                            &&& stored.start_time == data.start_time
                                            &&& stored.end_time == data.end_time
                                            &&& stored.audiences == data.audiences
                                            &&& stored.variations == data.variations
                                            &&& stored.frequency_constraint
                                                == data.frequency_constraint
                                            &&& stored.data == data.data
                                            &&& stored.control_size == prev.control_size
                                            &&& stored.test_size == prev.test_size
                                            &&& stored.version == (
                                            if same_experiment_config(prev, data) {
                                                prev.version as int
                                            } else if prev.version == i64::MAX {
                                                i64::MAX as int
                                            } else {
                                                prev.version + 1
                                            })
                                        })
                                        &&& forall|k: Seq<char>|
                                            k != experiment_id@
                                                ==> #[trigger] proj1.experiments.spec_get(k)
                                                == proj.experiments.spec_get(k)
                                        &&& proj1.audience_lists == proj.audience_lists
                                    })
                                    &&& forall|k: Seq<char>|
                                        k != project_id@ ==> #[trigger] app1.projects.spec_get(k)
                                            == app.projects.spec_get(k)
                                })
                                &&& forall|k: Seq<char>|
                                    k != app_id@ ==> #[trigger] final(self).apps.spec_get(k)
                                        == old(self).apps.spec_get(k)
                            })
                        })
                    })
                },
                Err(e) => {
                    &&& *final(self) == *old(self)
                    &&& (e matches HttpError::NotFound(_) || e matches HttpError::BadRequest(_))
                    &&& (e matches HttpError::BadRequest(_) ==> old(self).apps.spec_get(app_id@)
                        matches Some(app) && app.projects.spec_get(project_id@) matches Some(proj)
                        && !(crate::entities::wf_experiment(data) && data.version == 0
                        && crate::entities::scripts_parse(data) && !experiment_conflict(
                        proj.experiments.entries@,
                        data,
                        Some(experiment_id@),
                    )))
                    &&& (e matches HttpError::NotFound(_) ==> (old(self).apps.spec_get(app_id@)
                        is None || (old(self).apps.spec_get(app_id@) matches Some(app) && (
                    app.projects.spec_get(project_id@) is None || (app.projects.spec_get(
                        project_id@,
                    ) matches Some(proj) && proj.experiments.spec_get(experiment_id@) is None)))))
                },
            },
    {
        let ai = match self.apps.index_of(app_id) {
            Some(i) => i,
            None => {
                let msg = crate::errors::join3("No app found for id: ", app_id, "");
                return Err(HttpError::NotFound(msg));
            },
        };
        let pi = match self.apps.entries[ai].1.projects.index_of(project_id) {
            Some(i) => i,
            None => {
                let msg = crate::errors::join3("Project not found for project id: ", project_id,
                "");
                return Err(HttpError::NotFound(msg));
            },
        };
        match Self::validate_experiment_data(
            &self.apps.entries[ai].1.projects.entries[pi].1,
            &data,
            Some(experiment_id),
        ) {
            Ok(()) => {},
            Err(e) => {
                return Err(e);
            },
        }
        let ei = match self.apps.entries[ai].1.projects.entries[pi].1.experiments.index_of(
            experiment_id,
        ) {
            Some(i) => i,
            None => {
                let msg = crate::errors::join3(
                    "Experiment not found for id: ",
                    experiment_id,
                    "",
                );
                return Err(HttpError::NotFound(msg));
            },
        };
        let changed = !experiment_config_eq(
            &self.apps.entries[ai].1.projects.entries[pi].1.experiments.entries[ei].1,
            &data,
        );
        let ghost es0 = self.apps.entries@;
        let app_mut = &mut self.apps.entries[ai];
        let ghost ps0 = app_mut.1.projects.entries@;
        let proj_mut = &mut app_mut.1.projects.entries[pi];
        let ghost xs0 = proj_mut.1.experiments.entries@;
        let slot = &mut proj_mut.1.experiments.entries[ei];
        slot.1.name = data.name;
        slot.1.short_name = data.short_name;
        slot.1.kind = data.kind;
        slot.1.inactive = data.inactive;
        slot.1.start_time = data.start_time;
        slot.1.end_time = data.end_time;
        slot.1.audiences = data.audiences;
        slot.1.variations = data.variations;
        slot.1.frequency_constraint = data.frequency_constraint;
        slot.1.data = data.data;
        if changed {
            if slot.1.version < i64::MAX {
                slot.1.version = slot.1.version + 1;
            }
        }
        proof {
            let xs1 = self.apps.entries@[ai as int].1.projects.entries@[pi as int].1.experiments.entries@;
            assert(xs1[ei as int].0@ == experiment_id@);
            assert(forall|j: int| 0 <= j < xs0.len() && j != ei ==> xs1[j] == xs0[j]);
            assert(forall|j: int| 0 <= j < xs0.len() ==> (#[trigger] xs1[j]).0@ == xs0[j].0@);
            crate::store::lemma_entries_get_unique(
                xs0,
                xs1,
                ei as int,
                experiment_id@,
                xs1[ei as int].1,
            );
            let ps1 = self.apps.entries@[ai as int].1.projects.entries@;
            assert(ps1[pi as int].0@ == project_id@);
            assert(forall|j: int| 0 <= j < ps0.len() && j != pi ==> ps1[j] == ps0[j]);
            assert(forall|j: int| 0 <= j < ps0.len() ==> (#[trigger] ps1[j]).0@ == ps0[j].0@);
            crate::store::lemma_entries_get_unique(
                ps0,
                ps1,
                pi as int,
                project_id@,
                ps1[pi as int].1,
            );
            assert(self.apps.entries@[ai as int].0@ == app_id@);
            assert(forall|j: int|
                0 <= j < es0.len() && j != ai ==> self.apps.entries@[j] == es0[j]);
            assert(forall|j: int|
                0 <= j < es0.len() ==> (#[trigger] self.apps.entries@[j]).0@ == es0[j].0@);
            crate::store::lemma_entries_get_unique(
                es0,
                self.apps.entries@,
                ai as int,
                app_id@,
                self.apps.entries@[ai as int].1,
            );
            assert(crate::entities::wf_experiment(xs1[ei as int].1));
            assert(crate::entities::wf_project(ps1[pi as int].1));
            assert(crate::entities::wf_app(self.apps.entries@[ai as int].1));
        }
        Ok(())
    }

    /// The Experiment stored under an identifier triple; a miss names the
    /// missing id and its level — app and project misses propagate
    /// unchanged through the nesting.
    pub fn get_experiment(&self, app_id: &str, project_id: &str, experiment_id: &str) -> (r:
        Result<&Experiment, HttpError>)
        ensures
            match r {
                Ok(e) => self.apps.spec_get(app_id@) matches Some(app) && app.projects.spec_get(
                    project_id@,
                ) matches Some(proj) && proj.experiments.spec_get(experiment_id@) == Some(*e),
                Err(e) => e matches HttpError::NotFound(m) && ((self.apps.spec_get(app_id@)
                    is None && m@ == "No app found for id: "@ + app_id@) || (self.apps.spec_get(
                    app_id@,
                ) matches Some(app) && ((app.projects.spec_get(project_id@) is None && m@
                    == "Project not found for project id: "@ + project_id@) || (
                app.projects.spec_get(project_id@) matches Some(proj) && proj.experiments.spec_get(
                    experiment_id@,
                ) is None && m@ == "Experiment not found for id: "@ + experiment_id@)))),
            },
    {
        let proj = self.get_project(app_id, project_id)?;
        match proj.experiments.get(experiment_id) {
            Some(e) => Ok(e),
            None => {
                proof {
                    reveal_strlit("");
                }
                let msg = crate::errors::join3(
                    "Experiment not found for id: ",
                    experiment_id,
                    "",
                );
                assert(msg@ =~= "Experiment not found for id: "@ + experiment_id@);
                Err(HttpError::NotFound(msg))
            },
        }
    }

    /// All Experiments of a Project, in stored order.
    pub fn list_experiments(&self, app_id: &str, project_id: &str) -> (r: Result<
        &Vec<(String, Experiment)>,
        HttpError,
    >)
        ensures
            match r {
                Ok(es) => self.apps.spec_get(app_id@) matches Some(app) && app.projects.spec_get(
                    project_id@,
                ) matches Some(proj) && es == &proj.experiments.entries,
                Err(e) => e matches HttpError::NotFound(_),
            },
    {
        let proj = self.get_project(app_id, project_id)?;
        Ok(&proj.experiments.entries)
    }

    /// Checks an AudienceList's name and its uniqueness among the Project's
    /// other lists.
    pub fn validate_audience_list_data(
        proj: &Project,
        data: &AudienceList,
        update_id: Option<&str>,
    ) -> (r: Result<(), HttpError>)
        ensures
            match r {
                Ok(()) => data.name@.len() >= 1 && !audience_list_conflict(
                    proj.audience_lists.entries@,
                    *data,
                    match update_id {
                        Some(u) => Some(u@),
                        None => None,
                    },
                ),
                Err(e) => (data.name@.len() < 1 || audience_list_conflict(
                    proj.audience_lists.entries@,
                    *data,
                    match update_id {
                        Some(u) => Some(u@),
                        None => None,
                    },
                )) && (e matches HttpError::BadRequest(_)),
            },
    {
        let name_len = data.name.as_str().unicode_len();
        if name_len < 1 {
            return Err(
                HttpError::BadRequest(
                    crate::errors::join3("invalid audience list data", "", ""),
                ),
            );
        }
        let n = proj.audience_lists.len();
        let mut i: usize = 0;
        while i < n
            invariant
                i <= n == proj.audience_lists.entries@.len(),
                forall|j: int|
                    0 <= j < i ==> !(match update_id {
                        Some(u) => (#[trigger] proj.audience_lists.entries@[j]).1.id@ != u@,
                        None => true,
                    } && proj.audience_lists.entries@[j].1.name@ == data.name@),
            decreases n - i,
        {
            let l = &proj.audience_lists.entries[i].1;
            let skip = match update_id {
                Some(u) => crate::nums::str_eq(l.id.as_str(), u),
                None => false,
            };
            if !skip {
                if crate::nums::str_eq(l.name.as_str(), data.name.as_str()) {
                    return Err(
                        HttpError::BadRequest(
                            crate::errors::join3(
                                "Audience List with same name=",
                                l.name.as_str(),
                                " already exists",
                            ),
                        ),
                    );
                }
            }
            i = i + 1;
        }
        Ok(())
    }

    /// Creates an AudienceList under a fresh identifier.  A colliding
    /// random identifier (odds around one in 2^126) replaces that entry, as
    /// the contract's lookup clauses state.
    pub fn add_audience_list(&mut self, app_id: &str, project_id: &str, data: AudienceList) -> (r:
        Result<AddResponse, HttpError>)
        requires
            wf_service(*old(self)),
        ensures
            wf_service(*final(self)),
            match r {
                Ok(resp) => {
                    &&& old(self).apps.spec_get(app_id@) matches Some(app) && ({
                        &&& app.projects.spec_get(project_id@) matches Some(proj) && ({
                            &&& data.name@.len() >= 1
                            &&& !audience_list_conflict(proj.audience_lists.entries@, data, None)
                            &&& resp.id@.len() == 21
                            &&& final(self).apps.spec_get(app_id@) matches Some(app1) && ({
                                &&& app1.projects.spec_get(project_id@) matches Some(proj1) && ({
                                    &&& proj1.audience_lists.spec_get(resp.id@) matches Some(
                                        stored,
                                    ) && ({
                                        &&& stored.id@ == resp.id@
                                        &&& stored.name == data.name
                                        &&& stored.list == data.list
                                        &&& stored.modification_time == data.modification_time
                                    })
                                    &&& forall|k: Seq<char>|
                                        k != resp.id@
                                            ==> #[trigger] proj1.audience_lists.spec_get(k)
                                            == proj.audience_lists.spec_get(k)
                                    &&& proj1.experiments == proj.experiments
                                })
                                &&& forall|k: Seq<char>|
                                    k != project_id@ ==> #[trigger] app1.projects.spec_get(k)
                                        == app.projects.spec_get(k)
                            })
                            &&& forall|k: Seq<char>|
                                k != app_id@ ==> #[trigger] final(self).apps.spec_get(k)
                                    == old(self).apps.spec_get(k)
                        })
                    })
                },
                Err(e) => {
                    &&& *final(self) == *old(self)
                    &&& (e matches HttpError::NotFound(_) || e matches HttpError::BadRequest(_))
                },
            },
    {
        let ai = match self.apps.index_of(app_id) {
            Some(i) => i,
            None => {
                let msg = crate::errors::join3("No app found for id: ", app_id, "");
                return Err(HttpError::NotFound(msg));
            },
        };
        let pi = match self.apps.entries[ai].1.projects.index_of(project_id) {
            Some(i) => i,
            None => {
                let msg = crate::errors::join3("Project not found for project id: ", project_id,
                "");
                return Err(HttpError::NotFound(msg));
            },
        };
        match Self::validate_audience_list_data(
            &self.apps.entries[ai].1.projects.entries[pi].1,
            &data,
            None,
        ) {
            Ok(()) => {},
            Err(e) => {
                return Err(e);
            },
        }
        let id = crate::trusted::new_id();
        let stored = AudienceList {
            id: id.clone(),
            name: data.name,
            list: data.list,
            modification_time: data.modification_time,
        };
        proof {
            assert(crate::entities::wf_audience_list(stored));
        }
        let ghost es0 = self.apps.entries@;
        let app_mut = &mut self.apps.entries[ai];
        let ghost ps0 = app_mut.1.projects.entries@;
        let proj_mut = &mut app_mut.1.projects.entries[pi];
        proj_mut.1.audience_lists.insert(id.clone(), stored);
        proof {
            let ps1 = self.apps.entries@[ai as int].1.projects.entries@;
            assert(ps1[pi as int].0@ == project_id@);
            assert(forall|j: int| 0 <= j < ps0.len() && j != pi ==> ps1[j] == ps0[j]);
            assert(forall|j: int| 0 <= j < ps0.len() ==> (#[trigger] ps1[j]).0@ == ps0[j].0@);
            crate::store::lemma_entries_get_unique(
                ps0,
                ps1,
                pi as int,
                project_id@,
                ps1[pi as int].1,
            );
            assert(self.apps.entries@[ai as int].0@ == app_id@);
            assert(forall|j: int|
                0 <= j < es0.len() && j != ai ==> self.apps.entries@[j] == es0[j]);
            assert(forall|j: int|
                0 <= j < es0.len() ==> (#[trigger] self.apps.entries@[j]).0@ == es0[j].0@);
            crate::store::lemma_entries_get_unique(
                es0,
                self.apps.entries@,
                ai as int,
                app_id@,
                self.apps.entries@[ai as int].1,
            );
            assert(crate::entities::wf_project(ps1[pi as int].1));
            assert(crate::entities::wf_app(self.apps.entries@[ai as int].1));
        }
        Ok(AddResponse { id })
    }

    /// Replaces an AudienceList's name, members and modification time.
    pub fn update_audience_list(
        &mut self,
        app_id: &str,
        project_id: &str,
        list_id: &str,
        data: AudienceList,
    ) -> (r: Result<(), HttpError>)
        requires
            wf_service(*old(self)),
        ensures
            wf_service(*final(self)),
            match r {
                Ok(()) => {
                    &&& old(self).apps.spec_get(app_id@) matches Some(app) && ({
                        &&& app.projects.spec_get(project_id@) matches Some(proj) && ({
                            &&& proj.audience_lists.spec_get(list_id@) matches Some(prev) && ({
                                &&& data.name@.len() >= 1
                                &&& !audience_list_conflict(
                                    proj.audience_lists.entries@,
                                    data,
                                    Some(list_id@),
                                )
                                &&& final(self).apps.spec_get(app_id@) matches Some(app1) && ({
                                    &&& app1.projects.spec_get(project_id@) matches Some(proj1)
                                        && ({
                                        &&& proj1.audience_lists.spec_get(list_id@) matches Some(
                                            stored,
                                        ) && ({
                                            &&& stored.id == prev.id
                                            &&& stored.name == data.name
                                            &&& stored.list == data.list
                                            &&& stored.modification_time == data.modification_time
                                        })
                                        &&& forall|k: Seq<char>|
                                            k != list_id@
                                                ==> #[trigger] proj1.audience_lists.spec_get(k)
                                                == proj.audience_lists.spec_get(k)
                                        &&& proj1.experiments == proj.experiments
                                    })
                                    &&& forall|k: Seq<char>|
                                        k != project_id@ ==> #[trigger] app1.projects.spec_get(k)
                                            == app.projects.spec_get(k)
                                })
                                &&& forall|k: Seq<char>|
                                    k != app_id@ ==> #[trigger] final(self).apps.spec_get(k)
                                        == old(self).apps.spec_get(k)
                            })
                        })
                    })
                },
                Err(e) => {
                    &&& *final(self) == *old(self)
                    &&& (e matches HttpError::NotFound(_) || e matches HttpError::BadRequest(_))
                    &&& (e matches HttpError::BadRequest(_) ==> old(self).apps.spec_get(app_id@)
                        matches Some(app) && app.projects.spec_get(project_id@) matches Some(proj)
                        && !(data.name@.len() >= 1 && !audience_list_conflict(
                        proj.audience_lists.entries@,
                        data,
                        Some(list_id@),
                    )))
                    &&& (e matches HttpError::NotFound(_) ==> (old(self).apps.spec_get(app_id@)
                        is None || (old(self).apps.spec_get(app_id@) matches Some(app) && (
                    app.projects.spec_get(project_id@) is None || (app.projects.spec_get(
                        project_id@,
                    ) matches Some(proj) && proj.audience_lists.spec_get(list_id@) is None)))))
                },
            },
    {
        let ai = match self.apps.index_of(app_id) {
            Some(i) => i,
            None => {
                let msg = crate::errors::join3("No app found for id: ", app_id, "");
                return Err(HttpError::NotFound(msg));
            },
        };
        let pi = match self.apps.entries[ai].1.projects.index_of(project_id) {
            Some(i) => i,
            None => {
                let msg = crate::errors::join3("Project not found for project id: ", project_id,
                "");
                return Err(HttpError::NotFound(msg));
            },
        };
        match Self::validate_audience_list_data(
            &self.apps.entries[ai].1.projects.entries[pi].1,
            &data,
            Some(list_id),
        ) {
            Ok(()) => {},
            Err(e) => {
                return Err(e);
            },
        }
        let li = match self.apps.entries[ai].1.projects.entries[pi].1.audience_lists.index_of(
            list_id,
        ) {
            Some(i) => i,
            None => {
                let msg = crate::errors::join3(
                    "Audience List not found for list id: ",
                    list_id,
                    "",
                );
                return Err(HttpError::NotFound(msg));
            },
        };
        let ghost es0 = self.apps.entries@;
        let app_mut = &mut self.apps.entries[ai];
        let ghost ps0 = app_mut.1.projects.entries@;
        let proj_mut = &mut app_mut.1.projects.entries[pi];
        let ghost ls0 = proj_mut.1.audience_lists.entries@;
        let slot = &mut proj_mut.1.audience_lists.entries[li];
        slot.1.name = data.name;
        slot.1.list = data.list;
        slot.1.modification_time = data.modification_time;
        proof {
            let ls1 = self.apps.entries@[ai as int].1.projects.entries@[pi as int].1.audience_lists.entries@;
            assert(ls1[li as int].0@ == list_id@);
            assert(forall|j: int| 0 <= j < ls0.len() && j != li ==> ls1[j] == ls0[j]);
            assert(forall|j: int| 0 <= j < ls0.len() ==> (#[trigger] ls1[j]).0@ == ls0[j].0@);
            crate::store::lemma_entries_get_unique(
                ls0,
                ls1,
                li as int,
                list_id@,
                ls1[li as int].1,
            );
            let ps1 = self.apps.entries@[ai as int].1.projects.entries@;
            assert(ps1[pi as int].0@ == project_id@);
            assert(forall|j: int| 0 <= j < ps0.len() && j != pi ==> ps1[j] == ps0[j]);
            assert(forall|j: int| 0 <= j < ps0.len() ==> (#[trigger] ps1[j]).0@ == ps0[j].0@);
            crate::store::lemma_entries_get_unique(
                ps0,
                ps1,
                pi as int,
                project_id@,
                ps1[pi as int].1,
            );
            assert(self.apps.entries@[ai as int].0@ == app_id@);
            assert(forall|j: int|
                0 <= j < es0.len() && j != ai ==> self.apps.entries@[j] == es0[j]);
            assert(forall|j: int|
                0 <= j < es0.len() ==> (#[trigger] self.apps.entries@[j]).0@ == es0[j].0@);
            crate::store::lemma_entries_get_unique(
                es0,
                self.apps.entries@,
                ai as int,
                app_id@,
                self.apps.entries@[ai as int].1,
            );
            assert(crate::entities::wf_audience_list(ls1[li as int].1));
            assert(crate::entities::wf_project(ps1[pi as int].1));
            assert(crate::entities::wf_app(self.apps.entries@[ai as int].1));
        }
        Ok(())
    }

    /// The AudienceList stored under an identifier triple; a miss names the
    /// missing id and its level — app and project misses propagate
    /// unchanged through the nesting.
    pub fn get_audience_list(&self, app_id: &str, project_id: &str, list_id: &str) -> (r: Result<
        &AudienceList,
        HttpError,
    >)
        ensures
            match r {
                Ok(l) => self.apps.spec_get(app_id@) matches Some(app) && app.projects.spec_get(
                    project_id@,
                ) matches Some(proj) && proj.audience_lists.spec_get(list_id@) == Some(*l),
                Err(e) => e matches HttpError::NotFound(m) && ((self.apps.spec_get(app_id@)
                    is None && m@ == "No app found for id: "@ + app_id@) || (self.apps.spec_get(
                    app_id@,
                ) matches Some(app) && ((app.projects.spec_get(project_id@) is None && m@
                    == "Project not found for project id: "@ + project_id@) || (
                app.projects.spec_get(project_id@) matches Some(proj)
                    && proj.audience_lists.spec_get(list_id@) is None && m@
                    == "Audience List not found for list id: "@ + list_id@)))),
            },
    {
        let proj = self.get_project(app_id, project_id)?;
        match proj.audience_lists.get(list_id) {
            Some(l) => Ok(l),
            None => {
                proof {
                    reveal_strlit("");
                }
                let msg = crate::errors::join3(
                    "Audience List not found for list id: ",
                    list_id,
                    "",
                );
                assert(msg@ =~= "Audience List not found for list id: "@ + list_id@);
                Err(HttpError::NotFound(msg))
            },
        }
    }

    /// All AudienceLists of a Project, in stored order.
    pub fn list_audience_lists(&self, app_id: &str, project_id: &str) -> (r: Result<
        &Vec<(String, AudienceList)>,
        HttpError,
    >)
        ensures
            match r {
                Ok(ls) => self.apps.spec_get(app_id@) matches Some(app) && app.projects.spec_get(
                    project_id@,
                ) matches Some(proj) && ls == &proj.audience_lists.entries,
                Err(e) => e matches HttpError::NotFound(_),
            },
    {
        let proj = self.get_project(app_id, project_id)?;
        Ok(&proj.audience_lists.entries)
    }

    /// Feeds one loaded Project into an App: a new identifier inserts; an
    /// existing one takes the incoming name, short name and tracking method
    /// only when the incoming modification time is 0 (force) or strictly
    /// newer than the held one, else stays as it is.
    pub fn load_project(
        &mut self,
        app_id: &str,
        project_id: &str,
        data: Project,
        modification_time: i64,
    ) -> (r: Result<(), HttpError>)
        requires
            wf_service(*old(self)),
            crate::entities::wf_project(data),
            project_id@.len() <= 0x0800_0000,
        ensures
            wf_service(*final(self)),
            match r {
                Ok(()) => {
                    &&& old(self).apps.spec_get(app_id@) matches Some(app) && ({
                        &&& final(self).apps.spec_get(app_id@) matches Some(app1) && ({
                            &&& app1.id == app.id
                            &&& app1.name == app.name
                            &&& app1.short_name == app.short_name
                            &&& app1.modification_time == app.modification_time
                            &&& match app.projects.spec_get(project_id@) {
                                None => app1.projects.spec_get(project_id@) matches Some(stored)
                                    && ({
                                    &&& stored.id@ == project_id@
                                    &&& stored.name == data.name
                                    &&& stored.short_name == data.short_name
                                    &&& stored.tracking_method == data.tracking_method
                                    &&& stored.experiments == data.experiments
                                    &&& stored.audience_lists == data.audience_lists
                                    &&& stored.modification_time == modification_time
                                }),
                                Some(prev) => {
                                    &&& ((modification_time == 0 || modification_time
                                        > prev.modification_time) ==> (app1.projects.spec_get(
                                        project_id@,
                                    ) matches Some(stored) && ({
                                        &&& stored.id == prev.id
                                        &&& stored.name == data.name
                                        &&& stored.short_name == data.short_name
                                        &&& stored.tracking_method == data.tracking_method
                                        &&& stored.experiments == prev.experiments
                                        &&& stored.audience_lists == prev.audience_lists
                                        &&& stored.modification_time == modification_time
                                    })))
                                    &&& (!(modification_time == 0 || modification_time
                                        > prev.modification_time) ==> app1.projects.spec_get(
                                        project_id@,
                                    ) == Some(prev))
                                },
                            }
                            &&& forall|k: Seq<char>|
                                k != project_id@ ==> #[trigger] app1.projects.spec_get(k)
                                    == app.projects.spec_get(k)
                        })
                        &&& forall|k: Seq<char>|
                            k != app_id@ ==> #[trigger] final(self).apps.spec_get(k)
                                == old(self).apps.spec_get(k)
                    })
                },
                Err(e) => *final(self) == *old(self) && old(self).apps.spec_get(app_id@) is None
                    && (e matches HttpError::NotFound(_)),
            },
    {
        let ai = match self.apps.index_of(app_id) {
            Some(i) => i,
            None => {
                let msg = crate::errors::join3("No app found for id: ", app_id, "");
                return Err(HttpError::NotFound(msg));
            },
        };
        let pi = self.apps.entries[ai].1.projects.index_of(project_id);
        let ghost es0 = self.apps.entries@;
        let app_mut = &mut self.apps.entries[ai];
        let ghost ps0 = app_mut.1.projects.entries@;
        match pi {
            None => {
                let stored = Project {
                    id: String::from_str(project_id),
                    name: data.name,
                    short_name: data.short_name,
                    tracking_method: data.tracking_method,
                    experiments: data.experiments,
                    audience_lists: data.audience_lists,
                    modification_time,
                };
                proof {
                    assert(crate::entities::wf_project(stored));
                }
                app_mut.1.projects.insert(String::from_str(project_id), stored);
            },
            Some(pi) => {
                if modification_time == 0 || modification_time
                    > app_mut.1.projects.entries[pi].1.modification_time {
                    let slot = &mut app_mut.1.projects.entries[pi];
                    slot.1.name = data.name;
                    slot.1.short_name = data.short_name;
                    slot.1.tracking_method = data.tracking_method;
                    slot.1.modification_time = modification_time;
                    proof {
                        let ps1 = self.apps.entries@[ai as int].1.projects.entries@;
                        assert(ps1[pi as int].0@ == project_id@);
                        assert(forall|j: int|
                            0 <= j < ps0.len() && j != pi ==> ps1[j] == ps0[j]);
                        assert(forall|j: int|
                            0 <= j < ps0.len() ==> (#[trigger] ps1[j]).0@ == ps0[j].0@);
                        crate::store::lemma_entries_get_unique(
                            ps0,
                            ps1,
                            pi as int,
                            project_id@,
                            ps1[pi as int].1,
                        );
                        assert(crate::entities::wf_project(ps1[pi as int].1));
                    }
                }
            },
        }
        proof {
            assert(self.apps.entries@[ai as int].0@ == app_id@);
            assert(forall|j: int|
                0 <= j < es0.len() && j != ai ==> self.apps.entries@[j] == es0[j]);
            assert(forall|j: int|
                0 <= j < es0.len() ==> (#[trigger] self.apps.entries@[j]).0@ == es0[j].0@);
            crate::store::lemma_entries_get_unique(
                es0,
                self.apps.entries@,
                ai as int,
                app_id@,
                self.apps.entries@[ai as int].1,
            );
            assert(crate::entities::wf_app(self.apps.entries@[ai as int].1));
        }
        Ok(())
    }

    /// Feeds one loaded Experiment into a Project: a new identifier
    /// inserts; an existing one is overwritten outright (an Experiment
    /// carries no stored modification time), its traffic counters kept.
    pub fn load_experiment(
        &mut self,
        app_id: &str,
        project_id: &str,
        experiment_id: &str,
        data: Experiment,
        modification_time: i64,
    ) -> (r: Result<(), HttpError>)
        requires
            wf_service(*old(self)),
            crate::entities::wf_experiment(data),
            experiment_id@.len() <= 0x0800_0000,
        ensures
            wf_service(*final(self)),
            match r {
                Ok(()) => {
                    &&& old(self).apps.spec_get(app_id@) matches Some(app) && ({
                        &&& app.projects.spec_get(project_id@) matches Some(proj) && ({
                            &&& final(self).apps.spec_get(app_id@) matches Some(app1) && ({
                                &&& app1.id == app.id
                                &&& app1.name == app.name
                                &&& app1.short_name == app.short_name
                                &&& app1.modification_time == app.modification_time
                                &&& app1.projects.spec_get(project_id@) matches Some(proj1) && ({
                                    &&& proj1.id == proj.id
                                    &&& proj1.name == proj.name
                                    &&& proj1.short_name == proj.short_name
                                    &&& proj1.tracking_method == proj.tracking_method
                                    &&& proj1.modification_time == proj.modification_time
                                    &&& proj1.audience_lists == proj.audience_lists
                                    &&& proj1.experiments.spec_get(experiment_id@) matches Some(
                                        stored,
                                    ) && ({
                                        &&& stored.name == data.name
                                        &&& stored.short_name == data.short_name
                                        &&& stored.version == data.version
                                        &&& stored.kind == data.kind
                                        &&& stored.inactive == data.inactive
                                        &&& stored.start_time == data.start_time
                                        &&& stored.end_time == data.end_time
                                        &&& stored.audiences == data.audiences
                                        &&& stored.frequency_constraint
                                            == data.frequency_constraint
                                        &&& stored.variations == data.variations
                                        &&& stored.data == data.data
                                        &&& match proj.experiments.spec_get(experiment_id@) {
                                            Some(prev) => stored.id == prev.id
                                                && stored.control_size == prev.control_size
                                                && stored.test_size == prev.test_size,
                                            None => stored.id@ == experiment_id@
                                                && stored.control_size == data.control_size
                                                && stored.test_size == data.test_size,
                                        }
                                    })
                                    &&& forall|k: Seq<char>|
                                        k != experiment_id@
                                            ==> #[trigger] proj1.experiments.spec_get(k)
                                            == proj.experiments.spec_get(k)
                                })
                                &&& forall|k: Seq<char>|
                                    k != project_id@ ==> #[trigger] app1.projects.spec_get(k)
                                        == app.projects.spec_get(k)
                            })
                            &&& forall|k: Seq<char>|
                                k != app_id@ ==> #[trigger] final(self).apps.spec_get(k)
                                    == old(self).apps.spec_get(k)
                        })
                    })
                },
                Err(e) => {
                    &&& *final(self) == *old(self)
                    &&& (e matches HttpError::NotFound(_))
                    &&& (old(self).apps.spec_get(app_id@) is None || (
                    old(self).apps.spec_get(app_id@) matches Some(app)
                        && app.projects.spec_get(project_id@) is None))
                },
            },
    {
        let ai = match self.apps.index_of(app_id) {
            Some(i) => i,
            None => {
                let msg = crate::errors::join3("No app found for id: ", app_id, "");
                return Err(HttpError::NotFound(msg));
            },
        };
        let pi = match self.apps.entries[ai].1.projects.index_of(project_id) {
            Some(i) => i,
            None => {
                let msg = crate::errors::join3("Project not found for project id: ", project_id,
                "");
                return Err(HttpError::NotFound(msg));
            },
        };
        let ei = self.apps.entries[ai].1.projects.entries[pi].1.experiments.index_of(
            experiment_id,
        );
        let ghost es0 = self.apps.entries@;
        let app_mut = &mut self.apps.entries[ai];
        let ghost ps0 = app_mut.1.projects.entries@;
        let proj_mut = &mut app_mut.1.projects.entries[pi];
        match ei {
            None => {
                let stored = Experiment {
                    id: String::from_str(experiment_id),
                    name: data.name,
                    short_name: data.short_name,
                    version: data.version,
                    kind: data.kind,
                    inactive: data.inactive,
                    start_time: data.start_time,
                    end_time: data.end_time,
                    audiences: data.audiences,
                    frequency_constraint: data.frequency_constraint,
                    variations: data.variations,
                    data: data.data,
                    control_size: data.control_size,
                    test_size: data.test_size,
                };
                proof {
                    assert(crate::entities::wf_experiment(stored));
                }
                proj_mut.1.experiments.insert(String::from_str(experiment_id), stored);
            },
            Some(ei) => {
                // An Experiment carries no stored modification time, so an
                // existing one is overwritten outright; its traffic
                // counters stay.
                let ghost xs0 = proj_mut.1.experiments.entries@;
                let slot = &mut proj_mut.1.experiments.entries[ei];
                slot.1.name = data.name;
                slot.1.short_name = data.short_name;
                slot.1.version = data.version;
                slot.1.kind = data.kind;
                slot.1.inactive = data.inactive;
                slot.1.start_time = data.start_time;
                slot.1.end_time = data.end_time;
                slot.1.audiences = data.audiences;
                slot.1.frequency_constraint = data.frequency_constraint;
                slot.1.variations = data.variations;
                slot.1.data = data.data;
                proof {
                    let xs1 = self.apps.entries@[ai as int].1.projects.entries@[pi as int].1.experiments.entries@;
                    assert(xs1[ei as int].0@ == experiment_id@);
                    assert(forall|j: int|
                        0 <= j < xs0.len() && j != ei ==> xs1[j] == xs0[j]);
                    assert(forall|j: int|
                        0 <= j < xs0.len() ==> (#[trigger] xs1[j]).0@ == xs0[j].0@);
                    crate::store::lemma_entries_get_unique(
                        xs0,
                        xs1,
                        ei as int,
                        experiment_id@,
                        xs1[ei as int].1,
                    );
                    assert(crate::entities::wf_experiment(xs1[ei as int].1));
                }
            },
        }
        proof {
            let ps1 = self.apps.entries@[ai as int].1.projects.entries@;
            assert(ps1[pi as int].0@ == project_id@);
            assert(forall|j: int| 0 <= j < ps0.len() && j != pi ==> ps1[j] == ps0[j]);
            assert(forall|j: int| 0 <= j < ps0.len() ==> (#[trigger] ps1[j]).0@ == ps0[j].0@);
            crate::store::lemma_entries_get_unique(
                ps0,
                ps1,
                pi as int,
                project_id@,
                ps1[pi as int].1,
            );
            assert(crate::entities::wf_project(ps1[pi as int].1));
            assert(self.apps.entries@[ai as int].0@ == app_id@);
            assert(forall|j: int|
                0 <= j < es0.len() && j != ai ==> self.apps.entries@[j] == es0[j]);
            assert(forall|j: int|
                0 <= j < es0.len() ==> (#[trigger] self.apps.entries@[j]).0@ == es0[j].0@);
            crate::store::lemma_entries_get_unique(
                es0,
                self.apps.entries@,
                ai as int,
                app_id@,
                self.apps.entries@[ai as int].1,
            );
            assert(crate::entities::wf_app(self.apps.entries@[ai as int].1));
        }
        Ok(())
    }

    /// Feeds one loaded AudienceList into a Project: a new identifier
    /// inserts; an existing one takes the incoming name and members only
    /// when the incoming modification time is 0 (force) or strictly newer
    /// than the held one, else stays as it is.
    pub fn load_audience_list(
        &mut self,
        app_id: &str,
        project_id: &str,
        list_id: &str,
        data: AudienceList,
        modification_time: i64,
    ) -> (r: Result<(), HttpError>)
        requires
            wf_service(*old(self)),
            crate::entities::wf_audience_list(data),
        ensures
            wf_service(*final(self)),
            match r {
                Ok(()) => {
                    &&& old(self).apps.spec_get(app_id@) matches Some(app) && ({
                        &&& app.projects.spec_get(project_id@) matches Some(proj) && ({
                            &&& final(self).apps.spec_get(app_id@) matches Some(app1) && ({
                                &&& app1.id == app.id
                                &&& app1.name == app.name
                                &&& app1.short_name == app.short_name
                                &&& app1.modification_time == app.modification_time
                                &&& app1.projects.spec_get(project_id@) matches Some(proj1) && ({
                                    &&& proj1.id == proj.id
                                    &&& proj1.name == proj.name
                                    &&& proj1.short_name == proj.short_name
                                    &&& proj1.tracking_method == proj.tracking_method
                                    &&& proj1.modification_time == proj.modification_time
                                    &&& proj1.experiments == proj.experiments
                                    &&& match proj.audience_lists.spec_get(list_id@) {
                                        None => proj1.audience_lists.spec_get(list_id@) matches
                                            Some(stored) && ({
                                            &&& stored.id@ == list_id@
                                            &&& stored.name == data.name
                                            &&& stored.list == data.list
                                            &&& stored.modification_time == modification_time
                                        }),
                                        Some(prev) => {
                                            &&& ((modification_time == 0 || modification_time
                                                > prev.modification_time) ==> (
                                            proj1.audience_lists.spec_get(list_id@) matches Some(
                                                stored,
                                            ) && ({
                                                &&& stored.id == prev.id
                                                &&& stored.name == data.name
                                                &&& stored.list == data.list
                                                &&& stored.modification_time == modification_time
                                            })))
                                            &&& (!(modification_time == 0 || modification_time
                                                > prev.modification_time)
                                                ==> proj1.audience_lists.spec_get(list_id@)
                                                == Some(prev))
                                        },
                                    }
                                    &&& forall|k: Seq<char>|
                                        k != list_id@
                                            ==> #[trigger] proj1.audience_lists.spec_get(k)
                                            == proj.audience_lists.spec_get(k)
                                })
                                &&& forall|k: Seq<char>|
                                    k != project_id@ ==> #[trigger] app1.projects.spec_get(k)
                                        == app.projects.spec_get(k)
                            })
                            &&& forall|k: Seq<char>|
                                k != app_id@ ==> #[trigger] final(self).apps.spec_get(k)
                                    == old(self).apps.spec_get(k)
                        })
                    })
                },
                Err(e) => {
                    &&& *final(self) == *old(self)
                    &&& (e matches HttpError::NotFound(_))
                    &&& (old(self).apps.spec_get(app_id@) is None || (
                    old(self).apps.spec_get(app_id@) matches Some(app)
                        && app.projects.spec_get(project_id@) is None))
                },
            },
    {
        let ai = match self.apps.index_of(app_id) {
            Some(i) => i,
            None => {
                let msg = crate::errors::join3("No app found for id: ", app_id, "");
                return Err(HttpError::NotFound(msg));
            },
        };
        let pi = match self.apps.entries[ai].1.projects.index_of(project_id) {
            Some(i) => i,
            None => {
                let msg = crate::errors::join3("Project not found for project id: ", project_id,
                "");
                return Err(HttpError::NotFound(msg));
            },
        };
        let li = self.apps.entries[ai].1.projects.entries[pi].1.audience_lists.index_of(list_id);
        let ghost es0 = self.apps.entries@;
        let app_mut = &mut self.apps.entries[ai];
        let ghost ps0 = app_mut.1.projects.entries@;
        let proj_mut = &mut app_mut.1.projects.entries[pi];
        match li {
            None => {
                let stored = AudienceList {
                    id: String::from_str(list_id),
                    name: data.name,
                    list: data.list,
                    modification_time,
                };
                proof {
                    assert(crate::entities::wf_audience_list(stored));
                }
                proj_mut.1.audience_lists.insert(String::from_str(list_id), stored);
            },
            Some(li) => {
                let ghost ls0 = proj_mut.1.audience_lists.entries@;
                if modification_time == 0 || modification_time
                    > proj_mut.1.audience_lists.entries[li].1.modification_time {
                    let slot = &mut proj_mut.1.audience_lists.entries[li];
                    slot.1.name = data.name;
                    slot.1.list = data.list;
                    slot.1.modification_time = modification_time;
                    proof {
                        let ls1 = self.apps.entries@[ai as int].1.projects.entries@[pi as int].1.audience_lists.entries@;
                        assert(ls1[li as int].0@ == list_id@);
                        assert(forall|j: int|
                            0 <= j < ls0.len() && j != li ==> ls1[j] == ls0[j]);
                        assert(forall|j: int|
                            0 <= j < ls0.len() ==> (#[trigger] ls1[j]).0@ == ls0[j].0@);
                        crate::store::lemma_entries_get_unique(
                            ls0,
                            ls1,
                            li as int,
                            list_id@,
                            ls1[li as int].1,
                        );
                        assert(crate::entities::wf_audience_list(ls1[li as int].1));
                    }
                }
            },
        }
        proof {
            let ps1 = self.apps.entries@[ai as int].1.projects.entries@;
            assert(ps1[pi as int].0@ == project_id@);
            assert(forall|j: int| 0 <= j < ps0.len() && j != pi ==> ps1[j] == ps0[j]);
            assert(forall|j: int| 0 <= j < ps0.len() ==> (#[trigger] ps1[j]).0@ == ps0[j].0@);
            crate::store::lemma_entries_get_unique(
                ps0,
                ps1,
                pi as int,
                project_id@,
                ps1[pi as int].1,
            );
            assert(crate::entities::wf_project(ps1[pi as int].1));
            assert(self.apps.entries@[ai as int].0@ == app_id@);
            assert(forall|j: int|
                0 <= j < es0.len() && j != ai ==> self.apps.entries@[j] == es0[j]);
            assert(forall|j: int|
                0 <= j < es0.len() ==> (#[trigger] self.apps.entries@[j]).0@ == es0[j].0@);
            crate::store::lemma_entries_get_unique(
                es0,
                self.apps.entries@,
                ai as int,
                app_id@,
                self.apps.entries@[ai as int].1,
            );
            assert(crate::entities::wf_app(self.apps.entries@[ai as int].1));
        }
        Ok(())
    }

    /// All Projects of an App, in stored order.
    pub fn list_projects(&self, app_id: &str) -> (r: Result<&Vec<(String, Project)>, HttpError>)
        ensures
            match r {
                Ok(ps) => self.apps.spec_get(app_id@) matches Some(app) && ps == &app.projects.entries,
                Err(e) => self.apps.spec_get(app_id@) is None && e matches HttpError::NotFound(_),
            },
    {
        let app = self.get_app(app_id)?;
        Ok(&app.projects.entries)
    }
}

} // verus!
