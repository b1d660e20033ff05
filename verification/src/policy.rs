//! Which jobs get a machine.

use vstd::prelude::*;

use crate::config;
use crate::config::kinds;
use crate::config::{Class, ClassView, Config, Provider, Repo, RepoView};
use crate::text;

verus! {

#[derive(Debug)]
pub struct JobRequest {
    pub runs_on: Vec<String>,
    pub event: String,
    pub is_fork_pull_request: bool,
}

/// Why a job gets no machine.
#[derive(Debug, PartialEq, Eq)]
pub enum Denial {
    NoLabel,
    NoEvent,
    Unresolvable(String),
    EventNotAllowed { class: String, event: String },
    ForkPullRequest(String),
    NotGranted { repo: String, provider: Provider },
    AtCapacity { repo: String, provider: Provider, max: usize },
}

pub enum DenialView {
    NoLabel,
    NoEvent,
    Unresolvable(Seq<char>),
    EventNotAllowed { class: Seq<char>, event: Seq<char> },
    ForkPullRequest(Seq<char>),
    NotGranted { repo: Seq<char>, provider: Provider },
    AtCapacity { repo: Seq<char>, provider: Provider, max: usize },
}

impl View for Denial {
    type V = DenialView;

    open spec fn view(&self) -> DenialView {
        match self {
            Denial::NoLabel => DenialView::NoLabel,
            Denial::NoEvent => DenialView::NoEvent,
            Denial::Unresolvable(why) => DenialView::Unresolvable(why@),
            Denial::EventNotAllowed { class, event } => DenialView::EventNotAllowed {
                class: class@,
                event: event@,
            },
            Denial::ForkPullRequest(class) => DenialView::ForkPullRequest(class@),
            Denial::NotGranted { repo, provider } => DenialView::NotGranted {
                repo: repo@,
                provider: *provider,
            },
            Denial::AtCapacity { repo, provider, max } => DenialView::AtCapacity {
                repo: repo@,
                provider: *provider,
                max: *max,
            },
        }
    }
}

/// What a denied job is told.
pub open spec fn denial_text(denial: DenialView) -> Seq<char> {
    match denial {
        DenialView::NoLabel => "job declares no runs-on label"@,
        DenialView::NoEvent => "run reports no triggering event"@,
        DenialView::Unresolvable(why) => why,
        DenialView::EventNotAllowed { class, event } => "class "@ + class
            + " is not available to "@ + event + " events"@,
        DenialView::ForkPullRequest(class) => "class "@ + class
            + " is not available to fork pull requests"@,
        DenialView::NotGranted { repo, provider } => repo + " is not granted any "@
            + kinds::provider_name(provider) + " machine"@,
        DenialView::AtCapacity { repo, provider, max } => repo + " already has "@
            + text::decimal_of(max as nat) + " machine(s) running at "@ + kinds::provider_name(
            provider,
        ),
    }
}

/// Why the class may not serve the job, if it may not.
pub open spec fn refusal(
    config: &Config,
    class: ClassView,
    repo: RepoView,
    event: Seq<char>,
    from_fork: bool,
    live: nat,
) -> Option<DenialView> {
    let max = config::granted(config, repo, class.provider);
    if event.len() == 0 {
        Some(DenialView::NoEvent)
    } else if !class.allowed_events.contains(event) {
        Some(DenialView::EventNotAllowed { class: class.name(), event })
    } else if from_fork && !class.allow_fork_pull_request {
        Some(DenialView::ForkPullRequest(class.name()))
    } else if max == 0 {
        Some(DenialView::NotGranted { repo: repo.full_name(), provider: class.provider })
    } else if live >= max {
        Some(
            DenialView::AtCapacity {
                repo: repo.full_name(),
                provider: class.provider,
                max: max as usize,
            },
        )
    } else {
        None
    }
}

impl Denial {
    /// What the job is told.
    pub fn reason(&self) -> (res: String)
        ensures
            res@ == denial_text(self@),
    {
        match self {
            Denial::NoLabel => "job declares no runs-on label".to_owned(),
            Denial::NoEvent => "run reports no triggering event".to_owned(),
            Denial::Unresolvable(why) => why.clone(),
            Denial::EventNotAllowed { class, event } => "class ".to_owned().concat(
                class.as_str(),
            ).concat(" is not available to ").concat(event.as_str()).concat(" events"),
            Denial::ForkPullRequest(class) => "class ".to_owned().concat(class.as_str()).concat(
                " is not available to fork pull requests",
            ),
            Denial::NotGranted { repo, provider } => repo.clone().concat(
                " is not granted any ",
            ).concat(provider.as_str()).concat(" machine"),
            Denial::AtCapacity { repo, provider, max } => {
                let shown = text::decimal(*max as u64);
                repo.clone().concat(" already has ").concat(shown.as_str()).concat(
                    " machine(s) running at ",
                ).concat(provider.as_str())
            },
        }
    }
}

/// The class that answers to the labels, or why none does.
pub open spec fn resolved(config: &Config, runs_on: Seq<Seq<char>>) -> Result<
    ClassView,
    DenialView,
> {
    let classes = config.class_views();
    if runs_on.len() == 0 {
        Err(DenialView::NoLabel)
    } else if exists|at: int| config::answers(classes, runs_on, at) {
        Ok(classes[choose|at: int| config::answers(classes, runs_on, at)])
    } else {
        Err(DenialView::Unresolvable(config::no_class_text(classes, runs_on)))
    }
}

/// The class that answers to the job, if one does.
pub fn resolve<'a>(config: &'a Config, request: &JobRequest) -> (res: Result<&'a Class, Denial>)
    ensures
        match res {
            Ok(class) => {
                &&& resolved(config, text::texts(request.runs_on@)) == Ok::<ClassView, DenialView>(
                    class@,
                )
                &&& config.classes@.contains(*class)
            },
            Err(denial) => resolved(config, text::texts(request.runs_on@)) == Err::<
                ClassView,
                DenialView,
            >(denial@),
        },
{
    if request.runs_on.len() == 0 {
        return Err(Denial::NoLabel);
    }
    match config.class_for(request.runs_on.as_slice()) {
        Ok(class) => {
            proof {
                let classes = config.class_views();
                let runs_on = text::texts(request.runs_on@);
                let at = choose|at: int|
                    config::answers(classes, runs_on, at) && *class
                        == #[trigger] config.classes@[at];
                let chosen = choose|at: int| config::answers(classes, runs_on, at);
                assert(config::answers(classes, runs_on, chosen));
                assert(at == chosen);
                assert(classes[at] == class@);
            }
            Ok(class)
        },
        Err(why) => Err(Denial::Unresolvable(why)),
    }
}

/// Whether the class may serve the job, with `live` machines running for the
/// repository at the provider of the class.
pub fn admits(
    config: &Config,
    class: &Class,
    repo: &Repo,
    request: &JobRequest,
    live: usize,
) -> (res: Result<(), Denial>)
    ensures
        match res {
            Ok(()) => refusal(
                config,
                class@,
                repo@,
                request.event@,
                request.is_fork_pull_request,
                live as nat,
            ) is None,
            Err(denial) => refusal(
                config,
                class@,
                repo@,
                request.event@,
                request.is_fork_pull_request,
                live as nat,
            ) == Some(denial@),
        },
{
    if request.event.as_str().is_empty() {
        return Err(Denial::NoEvent);
    }
    if !text::holds(class.allowed_events.as_slice(), request.event.as_str()) {
        return Err(
            Denial::EventNotAllowed { class: class.name(), event: request.event.clone() },
        );
    }
    if request.is_fork_pull_request && !class.allow_fork_pull_request {
        return Err(Denial::ForkPullRequest(class.name()));
    }
    let max: usize = config.max_vms(repo, class.provider);
    if max == 0 {
        return Err(Denial::NotGranted { repo: repo.full_name(), provider: class.provider });
    }
    if live >= max {
        return Err(
            Denial::AtCapacity { repo: repo.full_name(), provider: class.provider, max },
        );
    }
    Ok(())
}

/// An admitted job comes of an event the class allows, leaves the repository
/// within its grant, and is no fork's pull request unless the class is open to them.
pub proof fn law_admitted_stays_within_the_grant(
    config: &Config,
    class: ClassView,
    repo: RepoView,
    event: Seq<char>,
    from_fork: bool,
    live: nat,
)
    requires
        refusal(config, class, repo, event, from_fork, live) is None,
    ensures
        live + 1 <= config::granted(config, repo, class.provider),
        class.allowed_events.contains(event),
        from_fork ==> class.allow_fork_pull_request,
{
}

/// A job admitted with some machines running is admitted with fewer.
pub proof fn law_fewer_machines_leave_room(
    config: &Config,
    class: ClassView,
    repo: RepoView,
    event: Seq<char>,
    from_fork: bool,
    fewer: nat,
    more: nat,
)
    requires
        fewer <= more,
        refusal(config, class, repo, event, from_fork, more) is None,
    ensures
        refusal(config, class, repo, event, from_fork, fewer) is None,
{
}

/// The most machines that the tables grant the repository at the provider.
pub open spec fn allows(config: &Config, repo: &Repo, provider: Provider) -> nat {
    let key = repo.owner@ + "/"@ + repo.name@;
    if config.grants@.contains_key(key) && config.grants@[key].max_vms@.contains_key(provider) {
        config.grants@[key].max_vms@[provider] as nat
    } else {
        0
    }
}

/// The list holds the text.
pub open spec fn is_among(texts: Seq<String>, text: Seq<char>) -> bool {
    exists|i: int| 0 <= i < texts.len() && (#[trigger] texts[i])@ == text
}

/// A class serves a job exactly when an event is named that the class allows, a pull
/// request from a fork is welcome or there is none, and the repository has fewer
/// machines at the provider than it was granted. Where several things stand in the way,
/// the first of them is told.
pub proof fn law_a_job_is_served_or_told_why(
    config: &Config,
    class: &Class,
    repo: &Repo,
    request: &JobRequest,
    live: usize,
    res: Result<(), Denial>,
)
    requires
        call_ensures(admits, (config, class, repo, request, live), res),
    ensures
        ({
            let named = request.event@.len() > 0;
            let allowed = is_among(class.allowed_events@, request.event@);
            let welcome = !request.is_fork_pull_request || class.allow_fork_pull_request;
            let most = allows(config, repo, class.provider);
            match res {
                Ok(_) => named && allowed && welcome && live < most,
                Err(Denial::NoEvent) => !named,
                Err(Denial::EventNotAllowed { class: name, event }) => {
                    &&& named
                    &&& !allowed
                    &&& name@ == text::joined(text::texts(class.labels@), "-"@)
                    &&& event@ == request.event@
                },
                Err(Denial::ForkPullRequest(name)) => {
                    &&& named
                    &&& allowed
                    &&& !welcome
                    &&& name@ == text::joined(text::texts(class.labels@), "-"@)
                },
                Err(Denial::NotGranted { repo: name, provider }) => {
                    &&& named
                    &&& allowed
                    &&& welcome
                    &&& most == 0
                    &&& name@ == repo.owner@ + "/"@ + repo.name@
                    &&& provider == class.provider
                },
                Err(Denial::AtCapacity { repo: name, provider, max }) => {
                    &&& named
                    &&& allowed
                    &&& welcome
                    &&& 0 < most <= live
                    &&& max == most
                    &&& name@ == repo.owner@ + "/"@ + repo.name@
                    &&& provider == class.provider
                },
                Err(_) => false,
            }
        }),
{
    let events = text::texts(class.allowed_events@);
    let event = request.event@;
    if events.contains(event) {
        let i = choose|i: int| 0 <= i < events.len() && events[i] == event;
        assert(class.allowed_events@[i]@ == event);
    }
    if is_among(class.allowed_events@, event) {
        let i = choose|i: int|
            0 <= i < class.allowed_events@.len() && (#[trigger] class.allowed_events@[i])@
                == event;
        assert(events[i] == event);
    }
    if let Err(denial) = res {
        assert(refusal(
            config,
            class@,
            repo@,
            event,
            request.is_fork_pull_request,
            live as nat,
        ) == Some(denial@));
    }
}

/// As many labels are asked for as the class has, and each of the class is asked for.
pub open spec fn asks_for(runs_on: Seq<String>, class: Class) -> bool {
    &&& runs_on.len() == class.labels@.len()
    &&& forall|i: int|
        0 <= i < class.labels@.len() ==> is_among(runs_on, (#[trigger] class.labels@[i])@)
}

proof fn lemma_asks_for(runs_on: Seq<String>, class: Class)
    ensures
        asks_for(runs_on, class) <==> class@.matches(text::texts(runs_on)),
{
    let asked = text::texts(runs_on);
    let labels = text::texts(class.labels@);
    assert forall|i: int| 0 <= i < labels.len() implies (is_among(
        runs_on,
        (#[trigger] class.labels@[i])@,
    ) <==> asked.contains(labels[i])) by {
        let label = class.labels@[i]@;
        if is_among(runs_on, label) {
            let j = choose|j: int| 0 <= j < runs_on.len() && (#[trigger] runs_on[j])@ == label;
            assert(asked[j] == label);
        }
        if asked.contains(labels[i]) {
            let j = choose|j: int| 0 <= j < asked.len() && asked[j] == label;
            assert(runs_on[j]@ == label);
        }
    }
    if asks_for(runs_on, class) {
        assert forall|i: int| 0 <= i < labels.len() implies asked.contains(
            #[trigger] labels[i],
        ) by {
            assert(is_among(runs_on, class.labels@[i]@));
        }
    }
    if class@.matches(asked) {
        assert forall|i: int| 0 <= i < class.labels@.len() implies is_among(
            runs_on,
            (#[trigger] class.labels@[i])@,
        ) by {
            assert(asked.contains(labels[i]));
        }
    }
}

/// A job is answered by the first class that has exactly the labels it asks for. It is
/// told that it names none, or that no class has these.
pub proof fn law_a_job_is_answered_by_its_labels(
    config: &Config,
    request: &JobRequest,
    res: Result<&Class, Denial>,
)
    requires
        call_ensures(resolve, (config, request), res),
    ensures
        match res {
            Ok(class) => {
                &&& request.runs_on@.len() > 0
                &&& asks_for(request.runs_on@, *class)
                &&& exists|at: int|
                    {
                        &&& 0 <= at < config.classes@.len()
                        &&& (#[trigger] config.classes@[at])@ == class@
                        &&& forall|j: int|
                            0 <= j < at ==> !asks_for(request.runs_on@, #[trigger] config.classes@[j])
                    }
            },
            Err(Denial::NoLabel) => request.runs_on@.len() == 0,
            Err(Denial::Unresolvable(_)) => {
                &&& request.runs_on@.len() > 0
                &&& forall|j: int|
                    0 <= j < config.classes@.len() ==> !asks_for(
                        request.runs_on@,
                        #[trigger] config.classes@[j],
                    )
            },
            Err(_) => false,
        },
{
    let asked = text::texts(request.runs_on@);
    let classes = config.class_views();
    assert forall|j: int| 0 <= j < classes.len() implies (asks_for(
        request.runs_on@,
        #[trigger] config.classes@[j],
    ) <==> classes[j].matches(asked)) by {
        lemma_asks_for(request.runs_on@, config.classes@[j]);
    }
    if asked.len() > 0 {
        if exists|at: int| config::answers(classes, asked, at) {
            let at = choose|at: int| config::answers(classes, asked, at);
            assert(config::answers(classes, asked, at));
            assert(classes[at] == config.classes@[at]@);
            if let Ok(class) = res {
                lemma_asks_for(request.runs_on@, *class);
                assert forall|j: int| 0 <= j < at implies !asks_for(
                    request.runs_on@,
                    #[trigger] config.classes@[j],
                ) by {
                    assert(!classes[j].matches(asked));
                }
            }
        } else {
            assert forall|j: int| 0 <= j < config.classes@.len() implies !asks_for(
                request.runs_on@,
                #[trigger] config.classes@[j],
            ) by {
                if classes[j].matches(asked) {
                    lemma_first_answers(classes, asked, j);
                }
            }
        }
    }
}

/// Where a class has the labels, one is the first that has.
proof fn lemma_first_answers(classes: Seq<ClassView>, runs_on: Seq<Seq<char>>, at: int)
    requires
        0 <= at < classes.len(),
        classes[at].matches(runs_on),
    ensures
        exists|first: int| config::answers(classes, runs_on, first),
    decreases at,
{
    if config::answers(classes, runs_on, at) {
    } else {
        let j = choose|j: int| 0 <= j < at && (#[trigger] classes[j]).matches(runs_on);
        lemma_first_answers(classes, runs_on, j);
    }
}

/// What each denial is told as.
pub proof fn law_every_denial_has_its_words(denial: &Denial, name: &'static str, res: String)
    requires
        call_ensures(Denial::reason, (denial,), res),
        match denial {
            Denial::NotGranted { provider, .. } => call_ensures(
                Provider::as_str,
                (*provider,),
                name,
            ),
            Denial::AtCapacity { provider, .. } => call_ensures(
                Provider::as_str,
                (*provider,),
                name,
            ),
            _ => true,
        },
    ensures
        res@ == match denial {
            Denial::NoLabel => "job declares no runs-on label"@,
            Denial::NoEvent => "run reports no triggering event"@,
            Denial::Unresolvable(why) => why@,
            Denial::EventNotAllowed { class, event } => "class "@ + class@
                + " is not available to "@ + event@ + " events"@,
            Denial::ForkPullRequest(class) => "class "@ + class@
                + " is not available to fork pull requests"@,
            Denial::NotGranted { repo, .. } => repo@ + " is not granted any "@ + name@
                + " machine"@,
            Denial::AtCapacity { repo, max, .. } => repo@ + " already has "@ + text::decimal_of(
                *max as nat,
            ) + " machine(s) running at "@ + name@,
        },
{
}

} // verus!
