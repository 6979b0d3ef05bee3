//! The decision service: the in-memory App store, the script evaluator, and
//! the request entry point that resolves App and Project, reads the prior
//! tracking history, runs the engine and re-encodes the updated history.

use vstd::prelude::*;

use crate::codec::RecordModel;
use crate::codec::TrackingDataParser;
use crate::data::DataModel;
use crate::data::DataValue;
use crate::engine::ActiveExperiment;
use crate::engine::run_post;
use crate::entities::App;
use crate::entities::TrackingMethod;
use crate::errors::HttpError;
use crate::script::ScriptEvaluator;
use crate::store::EntityMap;

verus! {

broadcast use vstd::seq::group_seq_axioms, vstd::std_specs::vec::group_vec_axioms;

/// The in-memory decision service: the App graph and the script evaluator.
pub struct AbOptimisationService {
    pub apps: EntityMap<App>,
    pub script_evaluator: ScriptEvaluator,
}

/// A well-formed service: unique App keys and every App well formed.
pub open spec fn wf_service(s: AbOptimisationService) -> bool {
    &&& s.apps.wf()
    &&& forall|i: int|
        0 <= i < s.apps.entries@.len() ==> crate::entities::wf_app(
            (#[trigger] s.apps.entries@[i]).1,
        )
}

/// A decision request.
#[derive(Debug)]
pub struct ExperimentRequest {
    pub app_id: String,
    pub project_id: String,
    pub user_id: String,
    pub context: Option<DataValue>,
    pub tracking_data: Option<String>,
}

/// A decision response.
#[derive(Debug)]
pub struct ExperimentResponse {
    pub app_id: String,
    pub project_id: String,
    pub active_experiments: Vec<ActiveExperiment>,
    pub tracking_cookie_name: Option<String>,
    pub tracking_data: Option<String>,
}

/// The script context's object entries: the request context under "ctx",
/// or nothing.
pub open spec fn base_entries_of(context: Option<DataValue>) -> Seq<(Seq<char>, DataModel)> {
    match context {
        Some(c) => seq![("ctx"@, c@)],
        None => Seq::<(Seq<char>, DataModel)>::empty(),
    }
}

/// The transport cookie's name for one app and project.
pub open spec fn cookie_name_model(app_short: Seq<char>, proj_short: Seq<char>) -> Seq<char> {
    "X-abof-"@ + app_short + "-"@ + proj_short
}

/// Builds the transport cookie's name, "X-abof-{app}-{project}".
pub fn tracking_cookie_name(app_short: &str, proj_short: &str) -> (r: String)
    ensures
        r@ == cookie_name_model(app_short@, proj_short@),
{
    let mut out = crate::errors::join3("X-abof-", app_short, "-");
    out.append(proj_short);
    assert(out@ =~= cookie_name_model(app_short@, proj_short@));
    out
}

/// The value of the first cookie with the given name.
pub open spec fn cookie_lookup(cookies: Seq<(String, String)>, name: Seq<char>) -> Option<
    Seq<char>,
>
    decreases cookies.len(),
{
    if cookies.len() == 0 {
        None
    } else if cookies[0].0@ == name {
        Some(cookies[0].1@)
    } else {
        cookie_lookup(cookies.subrange(1, cookies.len() as int), name)
    }
}

/// Which carried string a project reads its history from: `Data` reads the
/// request field, `Cookie` the transport cookie, `Both` prefers the field
/// and falls back to the cookie.
pub open spec fn tracking_source(
    method: TrackingMethod,
    data_field: Option<Seq<char>>,
    cookie: Option<Seq<char>>,
) -> Option<Seq<char>> {
    match method {
        TrackingMethod::Data => data_field,
        TrackingMethod::Cookie => cookie,
        TrackingMethod::Both => match data_field {
            Some(d) => Some(d),
            None => cookie,
        },
    }
}

/// The view of an optional string.
pub open spec fn opt_str_view(s: Option<String>) -> Option<Seq<char>> {
    match s {
        Some(x) => Some(x@),
        None => None,
    }
}

fn find_cookie<'a>(cookies: &'a Vec<(String, String)>, name: &str) -> (r: Option<&'a String>)
    ensures
        match r {
            Some(v) => cookie_lookup(cookies@, name@) == Some(v@),
            None => cookie_lookup(cookies@, name@) is None,
        },
{
    let n = cookies.len();
    let mut i: usize = 0;
    proof {
        assert(cookies@.subrange(0, cookies@.len() as int) =~= cookies@);
    }
    while i < n
        invariant
            i <= n == cookies@.len(),
            cookie_lookup(cookies@, name@) == cookie_lookup(
                cookies@.subrange(i as int, cookies@.len() as int),
                name@,
            ),
        decreases n - i,
    {
        let ghost tail = cookies@.subrange(i as int, cookies@.len() as int);
        proof {
            assert(tail[0] == cookies@[i as int]);
            assert(tail.subrange(1, tail.len() as int) =~= cookies@.subrange(
                i + 1,
                cookies@.len() as int,
            ));
        }
        if crate::nums::str_eq(cookies[i].0.as_str(), name) {
            return Some(&cookies[i].1);
        }
        i = i + 1;
    }
    proof {
        assert(cookies@.subrange(n as int, cookies@.len() as int) =~= Seq::<(
            String,
            String,
        )>::empty());
    }
    None
}

impl AbOptimisationService {
    pub fn new() -> (r: AbOptimisationService)
        ensures
            r.apps.entries@.len() == 0,
            wf_service(r),
    {
        AbOptimisationService { apps: EntityMap::new(), script_evaluator: ScriptEvaluator::new() }
    }

    /// Serves one decision request: resolves the App and the Project,
    /// decodes the prior history from the configured source, runs every
    /// experiment, and returns the response with the re-encoded history.
    /// The variation samples are drawn inside; everything else pins the
    /// outcome (see `run_post`).
    pub fn run_request(
        &mut self,
        req: &ExperimentRequest,
        cookies: &Vec<(String, String)>,
        now: i64,
    ) -> (r: Result<ExperimentResponse, HttpError>)
        requires
            wf_service(*old(self)),
            0 <= now <= crate::codec::DATE_BOUND,
            req.user_id@.len() < 0x2000_0000,
        ensures
            wf_service(*final(self)),
            ({
                let apps0 = old(self).apps;
                match apps0.spec_get(req.app_id@) {
                    None => r matches Err(e) && (e matches HttpError::NotFound(m) && m@ == "App:"@
                        + req.app_id@ + " not found"@) && *final(self) == *old(self),
                    Some(app) => match app.projects.spec_get(req.project_id@) {
                        None => r matches Err(e) && (e matches HttpError::NotFound(m) && m@
                            == "Project:"@ + req.project_id@ + " not found"@) && *final(self)
                            == *old(self),
                        Some(proj) => {
                            let cname = cookie_name_model(app.short_name@, proj.short_name@);
                            let source = tracking_source(
                                proj.tracking_method,
                                opt_str_view(req.tracking_data),
                                cookie_lookup(cookies@, cname),
                            );
                            let decoded = match source {
                                None => Some(Seq::<RecordModel>::empty()),
                                Some(src) => crate::codec::parse_history_model(src),
                            };
                            match decoded {
                                None => r matches Err(e) && (e matches HttpError::ParseError(m)
                                    && m@.subrange(
                                    0,
                                    "malformed tracking data: "@.len() as int,
                                ) == "malformed tracking data: "@) && *final(self) == *old(self),
                                Some(models) => {
                                    let hist = crate::engine::dedup_records(models);
                                    let base = base_entries_of(req.context);
                                    &&& final(self).script_evaluator == old(self).script_evaluator
                                    &&& final(self).apps.wf()
                                    &&& forall|k: Seq<char>|
                                        k != req.app_id@ ==> #[trigger] final(self).apps.spec_get(
                                            k,
                                        ) == apps0.spec_get(k)
                                    &&& final(self).apps.spec_get(req.app_id@) matches Some(app1)
                                        && {
                                        &&& app1.id == app.id
                                        &&& app1.name == app.name
                                        &&& app1.short_name == app.short_name
                                        &&& app1.modification_time == app.modification_time
                                        &&& app1.projects.wf()
                                        &&& forall|k: Seq<char>|
                                            k != req.project_id@
                                                ==> #[trigger] app1.projects.spec_get(k)
                                                == app.projects.spec_get(k)
                                        &&& app1.projects.spec_get(req.project_id@) matches Some(
                                            proj1,
                                        ) && {
                                            exists|samples: Seq<u64>|
                                                #![trigger samples.len()]
                                                {
                                                    &&& samples.len()
                                                        == proj.experiments.entries@.len()
                                                    &&& (forall|i: int|
                                                        0 <= i < samples.len()
                                                            ==> #[trigger] samples[i] < 10000)
                                                    &&& match r {
                                                        Ok(resp) => exists|recs: Seq<RecordModel>|
                                                            #![trigger crate::codec::encode_history_model(recs)]
                                                            {
                                                                &&& run_post(
                                                                    proj,
                                                                    proj1,
                                                                    hist,
                                                                    req.user_id@,
                                                                    base,
                                                                    now as int,
                                                                    samples,
                                                                    Ok(
                                                                        (
                                                                            recs,
                                                                            resp.active_experiments@.map_values(
                                                                                |a: ActiveExperiment| a@,
                                                                            ),
                                                                        ),
                                                                    ),
                                                                )
                                                                &&& resp.tracking_data matches
                                                                    Some(td) && td@
                                                                    == crate::codec::encode_history_model(
                                                                    recs,
                                                                )
                                                                &&& resp.app_id@ == req.app_id@
                                                                &&& resp.project_id@
                                                                    == req.project_id@
                                                                &&& resp.tracking_cookie_name
                                                                    matches Some(c) && c@ == cname
                                                            },
                                                        Err(e) => run_post(
                                                            proj,
                                                            proj1,
                                                            hist,
                                                            req.user_id@,
                                                            base,
                                                            now as int,
                                                            samples,
                                                            Err(e),
                                                        ),
                                                    }
                                                }
                                        }
                                    }
                                },
                            }
                        },
                    },
                }
            }),
    {
        let ai = match self.apps.index_of(req.app_id.as_str()) {
            Some(i) => i,
            None => {
                let msg = crate::errors::join3("App:", req.app_id.as_str(), " not found");
                return Err(HttpError::NotFound(msg));
            },
        };
        let ghost app = old(self).apps.entries@[ai as int].1;
        let app_short = self.apps.entries[ai].1.short_name.clone();
        let pi = match self.apps.entries[ai].1.projects.index_of(req.project_id.as_str()) {
            Some(i) => i,
            None => {
                let msg = crate::errors::join3("Project:", req.project_id.as_str(), " not found");
                return Err(HttpError::NotFound(msg));
            },
        };
        let ghost proj = app.projects.entries@[pi as int].1;
        proof {
            assert(crate::entities::wf_app(app));
            assert(crate::entities::wf_project(proj));
        }
        let proj_short = self.apps.entries[ai].1.projects.entries[pi].1.short_name.clone();
        let cname = tracking_cookie_name(app_short.as_str(), proj_short.as_str());
        // Read the prior history from the configured source.
        let cookie_value = find_cookie(cookies, cname.as_str());
        let source: Option<&String> = {
            let method = self.apps.entries[ai].1.projects.entries[pi].1.tracking_method;
            match method {
                TrackingMethod::Data => req.tracking_data.as_ref(),
                TrackingMethod::Cookie => cookie_value,
                TrackingMethod::Both => match req.tracking_data.as_ref() {
                    Some(d) => Some(d),
                    None => cookie_value,
                },
            }
        };
        let decoded = match source {
            None => crate::codec::TrackingData { experiments: Vec::new() },
            Some(src) => match TrackingDataParser::parse_tracking_data(src.as_str()) {
                Ok(td) => td,
                Err(pe) => {
                    proof {
                        reveal_strlit("");
                    }
                    let msg = crate::errors::join3(
                        "malformed tracking data: ",
                        pe.offending.as_str(),
                        "",
                    );
                    proof {
                        assert(msg@ =~= "malformed tracking data: "@ + pe.offending@);
                        assert(msg@.subrange(0, "malformed tracking data: "@.len() as int)
                            =~= "malformed tracking data: "@);
                    }
                    return Err(HttpError::ParseError(msg));
                },
            },
        };
        proof {
            if source is None {
                assert(decoded@ =~= Seq::<RecordModel>::empty());
            }
        }
        let history = crate::engine::build_tracking_history_map(&decoded);
        let ghost hist = crate::engine::dedup_records(decoded@);
        // The script context: the request context under "ctx".
        let mut ctx_entries: Vec<(String, DataValue)> = Vec::new();
        match &req.context {
            Some(c) => {
                ctx_entries.push((String::from_str("ctx"), c.duplicate()));
            },
            None => {},
        }
        proof {
            crate::data::lemma_entries_model(ctx_entries@);
            assert(crate::data::entries_model(ctx_entries@) =~= base_entries_of(req.context));
        }
        // One drawn value per experiment.
        let n_exps = self.apps.entries[ai].1.projects.entries[pi].1.experiments.len();
        let mut samples: Vec<u64> = Vec::new();
        let mut si: usize = 0;
        while si < n_exps
            invariant
                si <= n_exps,
                samples@.len() == si,
                forall|i: int| 0 <= i < si ==> #[trigger] samples@[i] < 10000,
            decreases n_exps - si,
        {
            samples.push(crate::trusted::sample_variation_bucket());
            si = si + 1;
        }
        let ghost apps0 = self.apps.entries@;
        let ghost app_entry0 = self.apps.entries@[ai as int];
        let ghost projs0 = app.projects.entries@;
        let app_mut = &mut self.apps.entries[ai];
        proof {
            assert(app_mut.1 == app);
        }
        let ghost projs_before = app_mut.1.projects.entries@;
        let proj_mut = &mut app_mut.1.projects.entries[pi];
        proof {
            assert(proj_mut.1 == proj);
        }
        let run_result = crate::engine::run_for_project(
            &mut proj_mut.1,
            req.user_id.as_str(),
            &ctx_entries,
            &history,
            now,
            &samples,
            &self.script_evaluator,
        );
        let ghost base = base_entries_of(req.context);
        proof {
            assert(crate::engine::records_view(history@) == hist);
        }
        match run_result {
            Ok(out) => {
                proof {
                    match source {
                        Some(src) => {
                            crate::codec::lemma_parsed_history_wf(src@, decoded@);
                        },
                        None => {},
                    }
                    crate::engine::lemma_dedup_wf(decoded@);
                    crate::engine::lemma_collect_rec_wf(
                        proj,
                        hist,
                        req.user_id@,
                        base,
                        crate::jsontext::json_text(DataModel::Object(base)),
                        now as int,
                        samples@,
                        proj.experiments.entries@.len() as int,
                    );
                }
                let tracking_data = out.tracking.to_string();
                let resp = ExperimentResponse {
                    app_id: req.app_id.clone(),
                    project_id: req.project_id.clone(),
                    active_experiments: out.active_experiments,
                    tracking_cookie_name: Some(cname),
                    tracking_data: Some(tracking_data),
                };
                proof {
                    lemma_store_frame(
                        apps0,
                        self.apps.entries@,
                        ai as int,
                        projs0,
                        pi as int,
                        req.app_id@,
                        req.project_id@,
                    );
                    crate::engine::lemma_run_post_wf(
                        proj,
                        self.apps.entries@[ai as int].1.projects.entries@[pi as int].1,
                        hist,
                        req.user_id@,
                        base,
                        now as int,
                        samples@,
                        Ok(
                            (
                                out.tracking@,
                                resp.active_experiments@.map_values(|a: ActiveExperiment| a@),
                            ),
                        ),
                    );
                    lemma_service_wf(apps0, self.apps.entries@, ai as int, projs0, pi as int);
                }
                Ok(resp)
            },
            Err(e) => {
                proof {
                    lemma_store_frame(
                        apps0,
                        self.apps.entries@,
                        ai as int,
                        projs0,
                        pi as int,
                        req.app_id@,
                        req.project_id@,
                    );
                    crate::engine::lemma_run_post_wf(
                        proj,
                        self.apps.entries@[ai as int].1.projects.entries@[pi as int].1,
                        hist,
                        req.user_id@,
                        base,
                        now as int,
                        samples@,
                        Err(e),
                    );
                    lemma_service_wf(apps0, self.apps.entries@, ai as int, projs0, pi as int);
                }
                Err(e)
            },
        }
    }
}

/// Replacing one project of one app with a well-formed project keeps every
/// app well formed.
proof fn lemma_service_wf(
    apps0: Seq<(String, App)>,
    apps1: Seq<(String, App)>,
    ai: int,
    projs0: Seq<(String, crate::entities::Project)>,
    pi: int,
)
    requires
        apps0.len() == apps1.len(),
        0 <= ai < apps0.len(),
        forall|j: int| 0 <= j < apps0.len() && j != ai ==> #[trigger] apps1[j] == apps0[j],
        forall|j: int| 0 <= j < apps0.len() ==> (#[trigger] apps1[j]).0@ == apps0[j].0@,
        forall|j: int| 0 <= j < apps0.len() ==> crate::entities::wf_app((#[trigger] apps0[j]).1),
        forall|i: int, j: int|
            0 <= i < j < apps0.len() ==> (#[trigger] apps0[i]).0@ != (#[trigger] apps0[j]).0@,
        projs0 == apps0[ai].1.projects.entries@,
        apps1[ai].1.projects.entries@.len() == projs0.len(),
        0 <= pi < projs0.len(),
        forall|j: int|
            0 <= j < projs0.len() && j != pi ==> #[trigger] apps1[ai].1.projects.entries@[j]
                == projs0[j],
        forall|j: int|
            0 <= j < projs0.len() ==> (#[trigger] apps1[ai].1.projects.entries@[j]).0@
                == projs0[j].0@,
        crate::entities::wf_project(apps1[ai].1.projects.entries@[pi].1),
        apps1[ai].1.name == apps0[ai].1.name,
        apps1[ai].1.short_name == apps0[ai].1.short_name,
    ensures
        forall|i: int, j: int|
            0 <= i < j < apps1.len() ==> (#[trigger] apps1[i]).0@ != (#[trigger] apps1[j]).0@,
        forall|j: int| 0 <= j < apps1.len() ==> crate::entities::wf_app((#[trigger] apps1[j]).1),
{
    assert(crate::entities::wf_app(apps0[ai].1));
    assert forall|j: int| 0 <= j < apps1.len() implies crate::entities::wf_app(
        (#[trigger] apps1[j]).1,
    ) by {
        if j == ai {
            let app1 = apps1[ai].1;
            assert forall|i: int| 0 <= i < app1.projects.entries@.len() implies
                crate::entities::wf_project((#[trigger] app1.projects.entries@[i]).1) by {
                if i != pi {
                    assert(app1.projects.entries@[i] == projs0[i]);
                    assert(crate::entities::wf_project(projs0[i].1));
                }
            }
            assert(app1.projects.wf()) by {
                assert(forall|x: int, y: int|
                    0 <= x < y < projs0.len() ==> (#[trigger] projs0[x]).0@ != (
                    #[trigger] projs0[y]).0@);
            }
        } else {
            assert(apps1[j] == apps0[j]);
        }
    }
}

/// Replacing one project inside one app leaves every other lookup at both
/// levels unchanged.
proof fn lemma_store_frame(
    apps0: Seq<(String, App)>,
    apps1: Seq<(String, App)>,
    ai: int,
    projs0: Seq<(String, crate::entities::Project)>,
    pi: int,
    app_id: Seq<char>,
    proj_id: Seq<char>,
)
    requires
        apps0.len() == apps1.len(),
        0 <= ai < apps0.len(),
        apps1[ai].0@ == app_id,
        forall|j: int| 0 <= j < apps0.len() && j != ai ==> #[trigger] apps1[j] == apps0[j],
        forall|j: int| 0 <= j < apps0.len() ==> (#[trigger] apps1[j]).0@ == apps0[j].0@,
        forall|j: int| 0 <= j < ai ==> (#[trigger] apps0[j]).0@ != app_id,
        projs0 == apps0[ai].1.projects.entries@,
        apps1[ai].1.projects.entries@.len() == projs0.len(),
        0 <= pi < projs0.len(),
        apps1[ai].1.projects.entries@[pi].0@ == proj_id,
        forall|j: int|
            0 <= j < projs0.len() && j != pi ==> #[trigger] apps1[ai].1.projects.entries@[j]
                == projs0[j],
        forall|j: int|
            0 <= j < projs0.len() ==> (#[trigger] apps1[ai].1.projects.entries@[j]).0@
                == projs0[j].0@,
        forall|j: int| 0 <= j < pi ==> (#[trigger] projs0[j]).0@ != proj_id,
    ensures
        crate::store::entries_get(apps1, app_id) == Some(apps1[ai].1),
        forall|k: Seq<char>|
            k != app_id ==> #[trigger] crate::store::entries_get(apps1, k)
                == crate::store::entries_get(apps0, k),
        crate::store::entries_get(apps1[ai].1.projects.entries@, proj_id) == Some(
            apps1[ai].1.projects.entries@[pi].1,
        ),
        forall|k: Seq<char>|
            k != proj_id ==> #[trigger] crate::store::entries_get(
                apps1[ai].1.projects.entries@,
                k,
            ) == crate::store::entries_get(projs0, k),
{
    crate::store::lemma_entries_get_unique(apps0, apps1, ai, app_id, apps1[ai].1);
    crate::store::lemma_entries_get_unique(
        projs0,
        apps1[ai].1.projects.entries@,
        pi,
        proj_id,
        apps1[ai].1.projects.entries@[pi].1,
    );
}

} // verus!
