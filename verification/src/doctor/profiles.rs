//! Checks of model profiles: whether each can be loaded as it stands.
use vstd::prelude::*;
use vstd::string::*;

use crate::backend::RuntimeSelectionSource;
use crate::duplicate::{lemma_views_push, views};
use crate::text::{cat2, cat3, cat5, contains_text, join, joined};

use super::{
    bounded, bounded_detail, flag, flagged, pass, passed, DoctorFinding, DoctorStatus,
    FindingView, RUNTIMES_REMEDIATION,
};

verus! {

/// What the schema of an engine for a model says of the settings of a profile.
#[derive(Debug)]
pub enum SchemaLook {
    Fits,
    Refuses(String),
    Unavailable(String),
}

/// What the runtime for a profile came to: the one that was chosen, and what its own schema has
/// against the settings; a failed probe; or no runtime.
#[derive(Debug)]
pub enum ProfileRuntimeLook {
    Chosen {
        runtime_id: String,
        source: RuntimeSelectionSource,
        notices: Vec<String>,
        fault: Option<String>,
    },
    Unhealthy(String),
    Unavailable(String),
}

/// What was found of a profile. What comes later was looked for only where what comes before is in
/// order.
#[derive(Debug)]
pub struct ProfileLook {
    pub id: String,
    pub model_id: String,
    pub engine_id: String,
    pub incompatibility: Option<String>,
    pub settings_fault: Option<String>,
    pub schema: SchemaLook,
    pub runtime: ProfileRuntimeLook,
}

/// What is said of a profile whose runtime was looked for.
pub open spec fn profile_runtime_check(profile: ProfileLook) -> FindingView {
    match profile.runtime {
        ProfileRuntimeLook::Chosen { runtime_id, source, notices, fault } => match fault {
            Some(fault) => flagged(
                "model_profile.settings_invalid"@,
                "model_profiles"@,
                DoctorStatus::Fail,
                "Model Profile '"@ + profile.id@
                    + "' settings are invalid for the selected runtime."@,
                Some(fault@),
                "Run:\n  norted-server model-profiles show "@ + profile.id@,
            ),
            None => if source == RuntimeSelectionSource::Fallback && notices@.len() > 0 {
                flagged(
                    "model_profile.runtime_fallback"@,
                    "model_profiles"@,
                    DoctorStatus::Warning,
                    "Model Profile '"@ + profile.id@ + "' requires automatic runtime fallback."@,
                    Some(bounded(joined(views(notices@), "; "@))),
                    "Run:\n  norted-server runtimes list\n  norted-server runtimes search "@
                        + profile.engine_id@,
                )
            } else {
                passed(
                    "model_profile.usable."@ + profile.id@,
                    "model_profiles"@,
                    "Model Profile '"@ + profile.id@
                        + "' has a compatible installed runtime."@,
                    Some(runtime_id@),
                )
            },
        },
        ProfileRuntimeLook::Unhealthy(error) => flagged(
            "model_profile.runtime_unhealthy"@,
            "model_profiles"@,
            DoctorStatus::Fail,
            "Model Profile '"@ + profile.id@
                + "' selected runtime failed its exact adapter probe."@,
            Some(bounded(error@)),
            RUNTIMES_REMEDIATION@,
        ),
        ProfileRuntimeLook::Unavailable(error) => flagged(
            "model_profile.no_runtime"@,
            "model_profiles"@,
            DoctorStatus::Warning,
            "Model Profile '"@ + profile.id@ + "' has no compatible installed runtime."@,
            Some(bounded(error@)),
            "Run:\n  norted-server runtimes search "@ + profile.engine_id@,
        ),
    }
}

/// What is said of a profile: the first thing that is in its way, or that nothing is.
pub open spec fn profile_check(
    profile: ProfileLook,
    models: Seq<Seq<char>>,
    engines: Seq<Seq<char>>,
) -> FindingView {
    if !models.contains(profile.model_id@) {
        flagged(
            "model_profile.missing_model"@,
            "model_profiles"@,
            DoctorStatus::Warning,
            "Model Profile '"@ + profile.id@ + "' references missing model `"@
                + profile.model_id@ + "`."@,
            None,
            "Run:\n  norted-server models list\n  norted-server model-profiles set-model "@
                + profile.id@ + " <MODEL_ID>"@,
        )
    } else if !engines.contains(profile.engine_id@) {
        flagged(
            "model_profile.missing_engine"@,
            "model_profiles"@,
            DoctorStatus::Warning,
            "Model Profile '"@ + profile.id@ + "' references unregistered engine `"@
                + profile.engine_id@ + "`."@,
            None,
            "Run:\n  norted-server model-profiles set-engine "@ + profile.id@ + " <ENGINE>"@,
        )
    } else if profile.incompatibility is Some {
        flagged(
            "model_profile.engine_incompatible"@,
            "model_profiles"@,
            DoctorStatus::Warning,
            "Model Profile '"@ + profile.id@
                + "' binds an engine incompatible with its model."@,
            Some(profile.incompatibility->0@),
            "Run:\n  norted-server model-profiles set-engine "@ + profile.id@ + " <ENGINE>"@,
        )
    } else if profile.settings_fault is Some {
        flagged(
            "model_profile.settings_invalid"@,
            "model_profiles"@,
            DoctorStatus::Fail,
            "Model Profile '"@ + profile.id@ + "' settings cannot be resolved."@,
            Some(profile.settings_fault->0@),
            "Run:\n  norted-server model-profiles show "@ + profile.id@,
        )
    } else {
        match profile.schema {
            SchemaLook::Refuses(error) => flagged(
                "model_profile.settings_invalid"@,
                "model_profiles"@,
                DoctorStatus::Fail,
                "Model Profile '"@ + profile.id@
                    + "' settings are invalid for its model and engine."@,
                Some(error@),
                "Run:\n  norted-server model-profiles show "@ + profile.id@,
            ),
            SchemaLook::Unavailable(error) => flagged(
                "model_profile.engine_invalid"@,
                "model_profiles"@,
                DoctorStatus::Warning,
                "Model Profile '"@ + profile.id@
                    + "' engine compatibility could not be evaluated."@,
                Some(bounded(error@)),
                "Run:\n  norted-server model-profiles set-engine "@ + profile.id@ + " <ENGINE>"@,
            ),
            SchemaLook::Fits => profile_runtime_check(profile),
        }
    }
}

fn profile_runtime_finding(profile: &ProfileLook) -> (result: DoctorFinding)
    ensures
        result@ == profile_runtime_check(*profile),
{
    let id = profile.id.as_str();
    match &profile.runtime {
        ProfileRuntimeLook::Chosen { runtime_id, source, notices, fault } => match fault {
            Some(fault) => flag(
                "model_profile.settings_invalid",
                "model_profiles",
                DoctorStatus::Fail,
                cat3(
                    "Model Profile '",
                    id,
                    "' settings are invalid for the selected runtime.",
                ).as_str(),
                Some(fault.clone()),
                cat2("Run:\n  norted-server model-profiles show ", id).as_str(),
            ),
            None => {
                if *source == RuntimeSelectionSource::Fallback && notices.len() > 0 {
                    flag(
                        "model_profile.runtime_fallback",
                        "model_profiles",
                        DoctorStatus::Warning,
                        cat3(
                            "Model Profile '",
                            id,
                            "' requires automatic runtime fallback.",
                        ).as_str(),
                        Some(bounded_detail(join(notices, "; ").as_str())),
                        cat2(
                            "Run:\n  norted-server runtimes list\n  norted-server runtimes search ",
                            profile.engine_id.as_str(),
                        ).as_str(),
                    )
                } else {
                    pass(
                        cat2("model_profile.usable.", id).as_str(),
                        "model_profiles",
                        cat3(
                            "Model Profile '",
                            id,
                            "' has a compatible installed runtime.",
                        ).as_str(),
                        Some(runtime_id.clone()),
                    )
                }
            },
        },
        ProfileRuntimeLook::Unhealthy(error) => flag(
            "model_profile.runtime_unhealthy",
            "model_profiles",
            DoctorStatus::Fail,
            cat3(
                "Model Profile '",
                id,
                "' selected runtime failed its exact adapter probe.",
            ).as_str(),
            Some(bounded_detail(error.as_str())),
            RUNTIMES_REMEDIATION,
        ),
        ProfileRuntimeLook::Unavailable(error) => flag(
            "model_profile.no_runtime",
            "model_profiles",
            DoctorStatus::Warning,
            cat3("Model Profile '", id, "' has no compatible installed runtime.").as_str(),
            Some(bounded_detail(error.as_str())),
            cat2(
                "Run:\n  norted-server runtimes search ",
                profile.engine_id.as_str(),
            ).as_str(),
        ),
    }
}

pub fn inspect_model_profile(profile: &ProfileLook, models: &Vec<String>, engines: &Vec<String>) -> (result:
    DoctorFinding)
    ensures
        result@ == profile_check(*profile, views(models@), views(engines@)),
{
    let id = profile.id.as_str();
    if !contains_text(models, profile.model_id.as_str()) {
        return flag(
            "model_profile.missing_model",
            "model_profiles",
            DoctorStatus::Warning,
            cat5(
                "Model Profile '",
                id,
                "' references missing model `",
                profile.model_id.as_str(),
                "`.",
            ).as_str(),
            None,
            cat3(
                "Run:\n  norted-server models list\n  norted-server model-profiles set-model ",
                id,
                " <MODEL_ID>",
            ).as_str(),
        );
    }
    let rebind = cat3("Run:\n  norted-server model-profiles set-engine ", id, " <ENGINE>");
    let show = cat2("Run:\n  norted-server model-profiles show ", id);
    if !contains_text(engines, profile.engine_id.as_str()) {
        return flag(
            "model_profile.missing_engine",
            "model_profiles",
            DoctorStatus::Warning,
            cat5(
                "Model Profile '",
                id,
                "' references unregistered engine `",
                profile.engine_id.as_str(),
                "`.",
            ).as_str(),
            None,
            rebind.as_str(),
        );
    }
    match &profile.incompatibility {
        Some(reason) => {
            return flag(
                "model_profile.engine_incompatible",
                "model_profiles",
                DoctorStatus::Warning,
                cat3(
                    "Model Profile '",
                    id,
                    "' binds an engine incompatible with its model.",
                ).as_str(),
                Some(reason.clone()),
                rebind.as_str(),
            );
        },
        None => {},
    }
    match &profile.settings_fault {
        Some(error) => {
            return flag(
                "model_profile.settings_invalid",
                "model_profiles",
                DoctorStatus::Fail,
                cat3("Model Profile '", id, "' settings cannot be resolved.").as_str(),
                Some(error.clone()),
                show.as_str(),
            );
        },
        None => {},
    }
    match &profile.schema {
        SchemaLook::Refuses(error) => flag(
            "model_profile.settings_invalid",
            "model_profiles",
            DoctorStatus::Fail,
            cat3(
                "Model Profile '",
                id,
                "' settings are invalid for its model and engine.",
            ).as_str(),
            Some(error.clone()),
            show.as_str(),
        ),
        SchemaLook::Unavailable(error) => flag(
            "model_profile.engine_invalid",
            "model_profiles",
            DoctorStatus::Warning,
            cat3(
                "Model Profile '",
                id,
                "' engine compatibility could not be evaluated.",
            ).as_str(),
            Some(bounded_detail(error.as_str())),
            rebind.as_str(),
        ),
        SchemaLook::Fits => profile_runtime_finding(profile),
    }
}

pub open spec fn profile_checks(
    profiles: Seq<ProfileLook>,
    models: Seq<Seq<char>>,
    engines: Seq<Seq<char>>,
) -> Seq<FindingView> {
    Seq::new(profiles.len(), |i: int| profile_check(profiles[i], models, engines))
}

/// Checks every profile, in turn: each has one finding.
pub fn inspect_model_profiles(
    profiles: &Vec<ProfileLook>,
    models: &Vec<String>,
    engines: &Vec<String>,
) -> (result: Vec<DoctorFinding>)
    ensures
        views(result@) == profile_checks(profiles@, views(models@), views(engines@)),
{
    let ghost (known, registered) = (views(models@), views(engines@));
    let ghost expected = profile_checks(profiles@, known, registered);
    let mut checks: Vec<DoctorFinding> = Vec::new();
    let mut i: usize = 0;
    proof {
        assert(views(checks@) =~= expected.take(0));
    }
    while i < profiles.len()
        invariant
            i <= profiles@.len(),
            known == views(models@),
            registered == views(engines@),
            expected == profile_checks(profiles@, known, registered),
            views(checks@) == expected.take(i as int),
        decreases profiles@.len() - i,
    {
        let check = inspect_model_profile(&profiles[i], models, engines);
        proof {
            lemma_views_push(checks@, check);
            assert(expected.take(i + 1) =~= expected.take(i as int).push(expected[i as int]));
        }
        checks.push(check);
        i += 1;
    }
    proof {
        assert(expected.take(expected.len() as int) =~= expected);
    }
    checks
}

/// A profile passes if and only if its model and its engine are there and fit, its settings are
/// accepted, and a runtime serves it without falling back from one that was chosen.
pub proof fn law_usable_profiles(
    profile: ProfileLook,
    models: Seq<Seq<char>>,
    engines: Seq<Seq<char>>,
)
    ensures
        (profile_check(profile, models, engines).status == DoctorStatus::Pass) == ({
            &&& models.contains(profile.model_id@)
            &&& engines.contains(profile.engine_id@)
            &&& profile.incompatibility is None
            &&& profile.settings_fault is None
            &&& profile.schema is Fits
            &&& profile.runtime is Chosen
            &&& profile.runtime->fault is None
            &&& !(profile.runtime->source == RuntimeSelectionSource::Fallback
                && profile.runtime->notices@.len() > 0)
        }),
{
}

/// What is in the way of a profile is told in this order: a missing model, a missing engine, a model that
/// the engine does not take, settings that cannot be resolved, settings that do not fit, and then its
/// runtime.
pub proof fn law_first_obstacle_of_a_profile(
    profile: ProfileLook,
    models: Seq<Seq<char>>,
    engines: Seq<Seq<char>>,
)
    ensures
        ({
            let check = profile_check(profile, models, engines);
            let bound = models.contains(profile.model_id@);
            let served = bound && engines.contains(profile.engine_id@);
            let taken = served && profile.incompatibility is None;
            let resolved = taken && profile.settings_fault is None;
            let fits = resolved && profile.schema is Fits;
            &&& !bound ==> check.code == "model_profile.missing_model"@ && check.status
                == DoctorStatus::Warning
            &&& bound && !served ==> check.code == "model_profile.missing_engine"@ && check.status
                == DoctorStatus::Warning
            &&& served && !taken ==> check.code == "model_profile.engine_incompatible"@
                && check.status == DoctorStatus::Warning
            &&& taken && !resolved ==> check.code == "model_profile.settings_invalid"@
                && check.status == DoctorStatus::Fail
            &&& resolved && profile.schema is Refuses ==> check.code
                == "model_profile.settings_invalid"@ && check.status == DoctorStatus::Fail
            &&& resolved && profile.schema is Unavailable ==> check.code
                == "model_profile.engine_invalid"@ && check.status == DoctorStatus::Warning
            &&& fits && profile.runtime is Unhealthy ==> check.code
                == "model_profile.runtime_unhealthy"@ && check.status == DoctorStatus::Fail
            &&& fits && profile.runtime is Unavailable ==> check.code
                == "model_profile.no_runtime"@ && check.status == DoctorStatus::Warning
            &&& fits && profile.runtime is Chosen && profile.runtime->fault is Some ==> check.code
                == "model_profile.settings_invalid"@ && check.status == DoctorStatus::Fail
            &&& fits && profile.runtime is Chosen && profile.runtime->fault is None
                && profile.runtime->source == RuntimeSelectionSource::Fallback
                && profile.runtime->notices@.len() > 0 ==> check.code
                == "model_profile.runtime_fallback"@ && check.status == DoctorStatus::Warning
            &&& check.status == DoctorStatus::Pass ==> check.code == "model_profile.usable."@
                + profile.id@ && check.detail == Some(profile.runtime->runtime_id@)
            &&& check.category == "model_profiles"@
        }),
{
}

/// Each profile is checked once, in their order.
pub proof fn law_each_profile_is_checked(
    profiles: Seq<ProfileLook>,
    models: Seq<Seq<char>>,
    engines: Seq<Seq<char>>,
    i: int,
)
    requires
        0 <= i < profiles.len(),
    ensures
        profile_checks(profiles, models, engines).len() == profiles.len(),
        profile_checks(profiles, models, engines)[i] == profile_check(profiles[i], models, engines),
{
}

} // verus!
