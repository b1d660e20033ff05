//! The Forgejo side: jobs, runs, runners and commit statuses.

use vstd::prelude::*;

use crate::config::{Repo, RepoView};
use crate::http;
use crate::http::{Call, CallView, Method, Payload, PayloadView, Reply};
use crate::json;
use crate::json::{Fields, Json, JsonView};
use crate::text;

verus! {

#[derive(Debug)]
pub struct Job {
    pub run_id: i64,
    pub handle: String,
    pub status: String,
    pub runs_on: Vec<String>,
}

#[derive(Debug)]
pub struct Run {
    pub event: String,
    pub trigger_event: String,
    pub is_fork_pull_request: bool,
    pub commit_sha: Option<String>,
    pub event_payload: Option<String>,
    pub html_url: Option<String>,
}

#[derive(Debug)]
pub struct Registration {
    pub id: i64,
    pub uuid: String,
    pub token: String,
}

#[derive(Debug)]
pub struct Runner {
    pub id: i64,
    pub name: String,
    pub ephemeral: bool,
}

#[derive(Debug, Clone, Copy, PartialEq, Eq, Structural)]
pub enum StatusState {
    Pending,
    Error,
    Success,
}

pub struct JobView {
    pub run_id: i64,
    pub handle: Seq<char>,
    pub status: Seq<char>,
    pub runs_on: Seq<Seq<char>>,
}

impl View for Job {
    type V = JobView;

    open spec fn view(&self) -> JobView {
        JobView {
            run_id: self.run_id,
            handle: self.handle@,
            status: self.status@,
            runs_on: text::texts(self.runs_on@),
        }
    }
}

impl Clone for Job {
    fn clone(&self) -> (res: Self)
        ensures
            res@ == self@,
    {
        Job {
            run_id: self.run_id,
            handle: self.handle.clone(),
            status: self.status.clone(),
            runs_on: text::copied(self.runs_on.as_slice()),
        }
    }
}

pub open spec fn state_name(state: StatusState) -> Seq<char> {
    match state {
        StatusState::Pending => "pending"@,
        StatusState::Error => "error"@,
        StatusState::Success => "success"@,
    }
}

impl StatusState {
    pub fn as_str(self) -> (res: &'static str)
        ensures
            res@ == state_name(self),
    {
        match self {
            StatusState::Pending => "pending",
            StatusState::Error => "error",
            StatusState::Success => "success",
        }
    }
}

/// The event that an allowlist is held against. A dispatch, a schedule and a
/// package name themselves in `trigger_event` only; everything else goes by
/// `event`, which holds the normalized name, wherever it is there.
pub open spec fn triggering(run: Run) -> Seq<char> {
    let own = run.trigger_event@;
    if own == "workflow_dispatch"@ || own == "schedule"@ || own == "package"@ {
        own
    } else if run.event@.len() == 0 {
        own
    } else {
        run.event@
    }
}

impl Run {
    pub fn triggering_event(&self) -> (res: &str)
        ensures
            res@ == triggering(*self),
    {
        let own = self.trigger_event.as_str();
        if text::same(own, "workflow_dispatch") || text::same(own, "schedule") || text::same(
            own,
            "package",
        ) {
            own
        } else if self.event.as_str().is_empty() {
            own
        } else {
            self.event.as_str()
        }
    }
}

/// What is told of a runner that could claim another job.
pub open spec fn not_ephemeral_text(runner: Runner, name: Seq<char>) -> Seq<char> {
    name + ": runner "@ + text::signed_decimal_of(runner.id as int)
        + " is not ephemeral. Untrusted code runs as root on this machine and can read its runner credential; only the ephemeral flag bars that credential from claiming another job. Refusing to boot."@
}

/// A runner serves a machine only where the server itself reports it as ephemeral.
pub fn require_ephemeral(runner: &Runner, name: &str) -> (res: Result<(), String>)
    ensures
        match res {
            Ok(()) => runner.ephemeral,
            Err(why) => !runner.ephemeral && why@ == not_ephemeral_text(*runner, name@),
        },
{
    if runner.ephemeral {
        return Ok(());
    }
    let id = text::signed_decimal(runner.id);
    Err(
        name.to_owned().concat(": runner ").concat(id.as_str()).concat(
            " is not ephemeral. Untrusted code runs as root on this machine and can read its runner credential; only the ephemeral flag bars that credential from claiming another job. Refusing to boot.",
        ),
    )
}

/// A registration, held against the runner that was read back: it stands only
/// for an ephemeral runner.
pub fn confirmed(registration: Registration, runner: &Runner, name: &str) -> (res: Result<
    Registration,
    String,
>)
    ensures
        match res {
            Ok(kept) => runner.ephemeral && kept == registration,
            Err(why) => !runner.ephemeral && why@ == not_ephemeral_text(*runner, name@),
        },
{
    match require_ephemeral(runner, name) {
        Ok(()) => Ok(registration),
        Err(why) => Err(why),
    }
}

/// `value`, or as much of it as the limit lets through and an ellipsis.
pub open spec fn shortened(value: Seq<char>, limit: nat) -> Seq<char> {
    if value.len() <= limit {
        value
    } else {
        value.take(limit as int) + "…"@
    }
}

pub fn truncate(value: &str, limit: usize) -> (res: String)
    ensures
        res@ == shortened(value@, limit as nat),
{
    if value.unicode_len() <= limit {
        value.to_owned()
    } else {
        let kept = text::clip(value, limit);
        kept.concat("…")
    }
}

/// What `serde_json` finds in a document under a pointer, as a text: nothing
/// where the document is no JSON, and nothing inside that where there is no text.
pub uninterp spec fn json_text_at(document: Seq<char>, pointer: Seq<char>) -> Option<
    Option<Seq<char>>,
>;

/// `serde_json::from_str` into a `serde_json::Value`, then `Value::pointer` and
/// `Value::as_str` on it. Nothing is claimed but that the document and the
/// pointer alone decide what comes back.
#[verifier::external_body]
fn text_in_json(document: &str, pointer: &str) -> (res: Option<Option<String>>)
    ensures
        json_text_at(document@, pointer@) == match res {
            Some(found) => Some(text::optional(found)),
            None => None,
        },
{
    let parsed: Option<serde_json::Value> = serde_json::from_str(document).ok();
    parsed.map(|value| value.pointer(pointer).and_then(|found| found.as_str()).map(str::to_owned))
}

/// Where the payload of an event names the commit to report on, if it does.
pub open spec fn sha_pointer(event: Seq<char>) -> Option<Seq<char>> {
    if event == "pull_request"@ || event == "pull_request_target"@ || event
        == "pull_request_sync"@ {
        Some("/pull_request/head/sha"@)
    } else if event == "push"@ {
        Some("/head_commit/id"@)
    } else {
        None
    }
}

/// Where to look for the commit in the payload of this event; for an event that
/// names none, the whole payload still has to be readable.
fn pointer_for(event: &str) -> (res: Option<&'static str>)
    ensures
        match res {
            Some(pointer) => sha_pointer(event@) == Some(pointer@),
            None => sha_pointer(event@) is None,
        },
{
    if text::same(event, "pull_request") || text::same(event, "pull_request_target") || text::same(
        event,
        "pull_request_sync",
    ) {
        Some("/pull_request/head/sha")
    } else if text::same(event, "push") {
        Some("/head_commit/id")
    } else {
        None
    }
}

/// The commit to report on, given what was found in the payload: the one the
/// payload names, else the run's own. An unreadable payload leaves none.
pub open spec fn target_sha(run: Run, found: Option<Option<Seq<char>>>) -> Option<Seq<char>> {
    match found {
        None => None,
        Some(named) => if sha_pointer(triggering(run)) is Some && named is Some {
            named
        } else {
            text::optional(run.commit_sha)
        },
    }
}

/// What there is to find in the payload of a run.
pub open spec fn payload_sha(run: Run) -> Option<Option<Seq<char>>> {
    match run.event_payload {
        None => None,
        Some(payload) => json_text_at(
            payload@,
            match sha_pointer(triggering(run)) {
                Some(pointer) => pointer,
                None => ""@,
            },
        ),
    }
}

/// The commit to report on, given what was found in the payload.
pub fn sha_from(run: &Run, found: Option<Option<String>>) -> (res: Option<String>)
    ensures
        text::optional(res) == target_sha(
            *run,
            match found {
                Some(named) => Some(text::optional(named)),
                None => None,
            },
        ),
{
    match found {
        None => None,
        Some(named) => {
            if pointer_for(run.triggering_event()).is_some() && named.is_some() {
                named
            } else {
                text::copied_option(&run.commit_sha)
            }
        },
    }
}

/// The commit a status of this run is posted on.
pub fn status_target_sha(run: &Run) -> (res: Option<String>)
    ensures
        text::optional(res) == target_sha(*run, payload_sha(*run)),
{
    let found = match &run.event_payload {
        None => None,
        Some(payload) => {
            let pointer = match pointer_for(run.triggering_event()) {
                Some(pointer) => pointer,
                None => "",
            };
            text_in_json(payload.as_str(), pointer)
        },
    };
    sha_from(run, found)
}

/// Where the instance is, and what it is asked with.
pub struct Client {
    pub url: String,
    pub runner_token: String,
    pub status_token: String,
}

pub open spec fn api_of(client: Client, repo: RepoView) -> Seq<char> {
    client.url@ + "/api/v1/repos/"@ + repo.owner + "/"@ + repo.name
}

/// The header and the value that carry a token.
pub open spec fn token_credential(token: Seq<char>) -> (Seq<char>, Seq<char>) {
    ("Authorization"@, "token "@ + token)
}

/// The longest description a commit status gets.
pub const DESCRIPTION_LIMIT: usize = 100;

/// How much of a body a message shows.
pub const BODY_LIMIT: usize = 200;

/// The document of a commit status.
pub open spec fn status_body(
    state: StatusState,
    context: Seq<char>,
    description: Seq<char>,
    target_url: Option<Seq<char>>,
) -> JsonView {
    JsonView::Object(
        Seq::empty().push(("state"@, JsonView::Text(state_name(state)))).push(
            ("context"@, JsonView::Text(context)),
        ).push(
            ("description"@, JsonView::Text(shortened(description, DESCRIPTION_LIMIT as nat))),
        ).push(
            (
                "target_url"@,
                JsonView::Text(
                    match target_url {
                        Some(url) => url,
                        None => ""@,
                    },
                ),
            ),
        ),
    )
}

/// What an answer comes to: nothing, or the text of the refusal.
pub open spec fn answer_fault(what: Seq<char>, reply: Reply) -> Option<Seq<char>> {
    if http::succeeded(reply.code) {
        None
    } else {
        Some(http::refused_text(what, reply, shortened(reply.body@, BODY_LIMIT as nat)))
    }
}

impl Client {
    pub fn new(url: &str, runner_token: String, status_token: String) -> (res: Client)
        ensures
            res.url@ == text::trimmed_end(url@, '/'),
            res.runner_token == runner_token,
            res.status_token == status_token,
    {
        Client { url: text::trim_end(url, '/').to_owned(), runner_token, status_token }
    }

    fn api(&self, repo: &Repo) -> (res: String)
        ensures
            res@ == api_of(*self, repo@),
    {
        self.url.clone().concat("/api/v1/repos/").concat(repo.owner.as_str()).concat("/").concat(
            repo.name.as_str(),
        )
    }

    fn runner_auth(&self) -> (res: String)
        ensures
            res@ == token_credential(self.runner_token@).1,
    {
        "token ".to_owned().concat(self.runner_token.as_str())
    }

    fn runner_call(&self, method: Method, url: String) -> (res: Call)
        ensures
            res@ == http::bare(method, url@, token_credential(self.runner_token@)),
    {
        Call::new(method, url, "Authorization", self.runner_auth())
    }

    /// Asks for the waiting and running jobs that want any of the labels.
    pub fn waiting_jobs(&self, repo: &Repo, labels: &[String]) -> (res: Call)
        ensures
            res@ == (CallView {
                query: seq![("labels"@, text::joined(text::texts(labels@), ","@))],
                ..http::bare(
                    Method::Get,
                    api_of(*self, repo@) + "/actions/runners/jobs"@,
                    token_credential(self.runner_token@),
                )
            }),
    {
        let url = self.api(repo).concat("/actions/runners/jobs");
        self.runner_call(Method::Get, url).asking("labels", text::join(labels, ","))
    }

    /// Asks for a run.
    pub fn run(&self, repo: &Repo, run_id: i64) -> (res: Call)
        ensures
            res@ == http::bare(
                Method::Get,
                api_of(*self, repo@) + "/actions/runs/"@ + text::signed_decimal_of(run_id as int),
                token_credential(self.runner_token@),
            ),
    {
        let id = text::signed_decimal(run_id);
        let url = self.api(repo).concat("/actions/runs/").concat(id.as_str());
        self.runner_call(Method::Get, url)
    }

    /// Asks for a new runner, which is to be ephemeral.
    pub fn register_runner(&self, repo: &Repo, name: &str) -> (res: Call)
        ensures
            res@ == (CallView {
                payload: PayloadView::Json(
                    JsonView::Object(
                        Seq::empty().push(("name"@, JsonView::Text(name@))).push(
                            ("ephemeral"@, JsonView::Bool(true)),
                        ),
                    ),
                ),
                ..http::bare(
                    Method::Post,
                    api_of(*self, repo@) + "/actions/runners"@,
                    token_credential(self.runner_token@),
                )
            }),
    {
        let url = self.api(repo).concat("/actions/runners");
        let body = Fields::new().with("name", Json::text(name)).with(
            "ephemeral",
            Json::flag(true),
        ).object();
        self.runner_call(Method::Post, url).sending(body)
    }

    /// Reads a runner back.
    pub fn runner(&self, repo: &Repo, id: i64) -> (res: Call)
        ensures
            res@ == http::bare(
                Method::Get,
                api_of(*self, repo@) + "/actions/runners/"@ + text::signed_decimal_of(id as int),
                token_credential(self.runner_token@),
            ),
    {
        let id = text::signed_decimal(id);
        let url = self.api(repo).concat("/actions/runners/").concat(id.as_str());
        self.runner_call(Method::Get, url)
    }

    /// Asks for the runners of a repository.
    pub fn runners(&self, repo: &Repo) -> (res: Call)
        ensures
            res@ == (CallView {
                query: seq![("limit"@, "100"@)],
                ..http::bare(
                    Method::Get,
                    api_of(*self, repo@) + "/actions/runners"@,
                    token_credential(self.runner_token@),
                )
            }),
    {
        let url = self.api(repo).concat("/actions/runners");
        self.runner_call(Method::Get, url).asking("limit", "100".to_owned())
    }

    /// Deletes a runner.
    pub fn delete_runner(&self, repo: &Repo, id: i64) -> (res: Call)
        ensures
            res@ == http::bare(
                Method::Delete,
                api_of(*self, repo@) + "/actions/runners/"@ + text::signed_decimal_of(id as int),
                token_credential(self.runner_token@),
            ),
    {
        let id = text::signed_decimal(id);
        let url = self.api(repo).concat("/actions/runners/").concat(id.as_str());
        self.runner_call(Method::Delete, url)
    }

    /// Posts a commit status.
    pub fn set_status(
        &self,
        repo: &Repo,
        sha: &str,
        state: StatusState,
        context: &str,
        description: &str,
        target_url: Option<&str>,
    ) -> (res: Call)
        ensures
            res@ == (CallView {
                payload: PayloadView::Json(
                    status_body(
                        state,
                        context@,
                        description@,
                        match target_url {
                            Some(url) => Some(url@),
                            None => None,
                        },
                    ),
                ),
                ..http::bare(
                    Method::Post,
                    api_of(*self, repo@) + "/statuses/"@ + sha@,
                    token_credential(self.status_token@),
                )
            }),
    {
        let url = self.api(repo).concat("/statuses/").concat(sha);
        let shown = truncate(description, DESCRIPTION_LIMIT);
        let target = match target_url {
            Some(url) => url,
            None => "",
        };
        let body = Fields::new().with("state", Json::text(state.as_str())).with(
            "context",
            Json::text(context),
        ).with("description", Json::text(shown.as_str())).with(
            "target_url",
            Json::text(target),
        ).object();
        let value = "token ".to_owned().concat(self.status_token.as_str());
        Call::new(Method::Post, url, "Authorization", value).sending(body)
    }
}

/// Holds an answer to success.
pub fn expect_success(reply: &Reply, what: &str) -> (res: Result<(), String>)
    ensures
        match res {
            Ok(()) => answer_fault(what@, *reply) is None,
            Err(why) => answer_fault(what@, *reply) == Some(why@),
        },
{
    if http::is_success(reply.code) {
        return Ok(());
    }
    let shown = truncate(reply.body.as_str(), BODY_LIMIT);
    Err(http::refused(what, reply, shown.as_str()))
}

/// What is told of a body that is no answer to `what`.
pub fn undecoded(reply: &Reply, what: &str) -> (res: String)
    ensures
        res@ == what@ + ": decoding "@ + shortened(reply.body@, BODY_LIMIT as nat),
{
    let shown = truncate(reply.body.as_str(), BODY_LIMIT);
    http::undecoded(what, shown.as_str())
}

/// Holds the answer to a deletion to success; a runner that is gone already is deleted.
pub fn runner_deleted(reply: &Reply) -> (res: Result<(), String>)
    ensures
        match res {
            Ok(()) => reply.code == http::NOT_FOUND || answer_fault(
                "deleting runner"@,
                *reply,
            ) is None,
            Err(why) => reply.code != http::NOT_FOUND && answer_fault("deleting runner"@, *reply)
                == Some(why@),
        },
{
    if reply.code == http::NOT_FOUND {
        return Ok(());
    }
    expect_success(reply, "deleting runner")
}

/// A run is told by its own trigger where that is a dispatch, a schedule or a package,
/// or where there is no event; everywhere else it is told by its event.
pub proof fn law_a_run_names_its_trigger(run: &Run, event: &str)
    requires
        call_ensures(Run::triggering_event, (run,), event),
    ensures
        run.trigger_event@ == "workflow_dispatch"@ || run.trigger_event@ == "schedule"@
            || run.trigger_event@ == "package"@ || run.event@.len() == 0 ==> event@
            == run.trigger_event@,
        run.trigger_event@ != "workflow_dispatch"@ && run.trigger_event@ != "schedule"@
            && run.trigger_event@ != "package"@ && run.event@.len() > 0 ==> event@ == run.event@,
{
}

/// The commit is the one that this place of the payload names, or else the run's own;
/// without a readable payload there is none.
pub open spec fn is_commit_at(run: Run, pointer: Seq<char>, sha: Option<Seq<char>>) -> bool {
    match run.event_payload {
        None => sha is None,
        Some(payload) => match json_text_at(payload@, pointer) {
            None => sha is None,
            Some(Some(named)) => sha == Some(named),
            Some(None) => sha == match run.commit_sha {
                Some(own) => Some(own@),
                None => None,
            },
        },
    }
}

/// The commit is the run's own, where the payload can be read.
pub open spec fn is_own_commit(run: Run, sha: Option<Seq<char>>) -> bool {
    match run.event_payload {
        None => sha is None,
        Some(payload) => sha == match json_text_at(payload@, Seq::empty()) {
            None => None,
            Some(_) => match run.commit_sha {
                Some(own) => Some(own@),
                None => None,
            },
        },
    }
}

/// This is the commit that a run of this event is reported on: for a pull request its
/// head, for a push what was pushed, and for everything else the commit of the run.
pub open spec fn is_reported_on(run: Run, event: Seq<char>, sha: Option<Seq<char>>) -> bool {
    if event == "pull_request"@ || event == "pull_request_target"@ || event
        == "pull_request_sync"@ {
        is_commit_at(run, "/pull_request/head/sha"@, sha)
    } else if event == "push"@ {
        is_commit_at(run, "/head_commit/id"@, sha)
    } else {
        is_own_commit(run, sha)
    }
}

/// A run is reported on the commit that its payload names for its event.
pub proof fn law_a_run_is_reported_on_its_commit(run: &Run, event: &str, sha: Option<String>)
    requires
        call_ensures(Run::triggering_event, (run,), event),
        call_ensures(status_target_sha, (run,), sha),
    ensures
        is_reported_on(
            *run,
            event@,
            match sha {
                Some(named) => Some(named@),
                None => None,
            },
        ),
{
    lemma_reported_on(*run);
}

pub(crate) proof fn lemma_reported_on(run: Run)
    ensures
        is_reported_on(run, triggering(run), target_sha(run, payload_sha(run))),
{
    reveal_strlit("");
    assert(""@ =~= Seq::<char>::empty());
    reveal_strlit("push");
    reveal_strlit("pull_request");
    reveal_strlit("pull_request_target");
    reveal_strlit("pull_request_sync");
}

/// The request goes to this place of the repository, as this method, with the token.
pub open spec fn goes_to(
    client: Client,
    call: Call,
    method: Method,
    repo: Repo,
    path: Seq<char>,
    token: Seq<char>,
) -> bool {
    &&& call.method == method
    &&& call.url@ == client.url@ + "/api/v1/repos/"@ + repo.owner@ + "/"@ + repo.name@ + path
    &&& call.credential.0@ == "Authorization"@
    &&& call.credential.1@ == "token "@ + token
}

/// The jobs that are asked for are those of the repository that want one of the
/// labels.
pub proof fn law_jobs_are_asked_for_by_label(
    client: &Client,
    repo: &Repo,
    labels: &[String],
    call: Call,
)
    requires
        call_ensures(Client::waiting_jobs, (client, repo, labels), call),
    ensures
        goes_to(
            *client,
            call,
            Method::Get,
            *repo,
            "/actions/runners/jobs"@,
            client.runner_token@,
        ),
        call.query@.len() == 1,
        call.query@[0].0@ == "labels"@,
        call.query@[0].1@ == text::joined(text::texts(labels@), ","@),
{
    assert(call@.query.len() == 1);
    assert(call@.query[0] == (call.query@[0].0@, call.query@[0].1@));
}

/// What is read, listed or deleted is what was named, in the repository that was named.
pub proof fn law_what_is_named_is_asked_about(
    client: &Client,
    repo: &Repo,
    id: i64,
    reading: Call,
    looking: Call,
    listing: Call,
    deleting: Call,
)
    requires
        call_ensures(Client::run, (client, repo, id), reading),
        call_ensures(Client::runner, (client, repo, id), looking),
        call_ensures(Client::runners, (client, repo), listing),
        call_ensures(Client::delete_runner, (client, repo, id), deleting),
    ensures
        goes_to(
            *client,
            reading,
            Method::Get,
            *repo,
            "/actions/runs/"@ + text::signed_decimal_of(id as int),
            client.runner_token@,
        ),
        goes_to(
            *client,
            looking,
            Method::Get,
            *repo,
            "/actions/runners/"@ + text::signed_decimal_of(id as int),
            client.runner_token@,
        ),
        goes_to(
            *client,
            listing,
            Method::Get,
            *repo,
            "/actions/runners"@,
            client.runner_token@,
        ),
        listing.query@.len() == 1,
        listing.query@[0].0@ == "limit"@,
        listing.query@[0].1@ == "100"@,
        goes_to(
            *client,
            deleting,
            Method::Delete,
            *repo,
            "/actions/runners/"@ + text::signed_decimal_of(id as int),
            client.runner_token@,
        ),
{
    let at = client.url@ + "/api/v1/repos/"@ + repo.owner@ + "/"@ + repo.name@;
    let shown = text::signed_decimal_of(id as int);
    assert(reading.url@ =~= at + ("/actions/runs/"@ + shown));
    assert(looking.url@ =~= at + ("/actions/runners/"@ + shown));
    assert(deleting.url@ =~= at + ("/actions/runners/"@ + shown));
    assert(listing@.query.len() == 1);
    assert(listing@.query[0] == (listing.query@[0].0@, listing.query@[0].1@));
}

/// A runner is registered under its name, and for one job only.
pub proof fn law_a_runner_is_registered_ephemeral(
    client: &Client,
    repo: &Repo,
    name: &str,
    call: Call,
)
    requires
        call_ensures(Client::register_runner, (client, repo, name), call),
    ensures
        goes_to(
            *client,
            call,
            Method::Post,
            *repo,
            "/actions/runners"@,
            client.runner_token@,
        ),
        call.payload matches Payload::Json(body) && {
            &&& json::has_field(body@, "name"@, JsonView::Text(name@))
            &&& json::has_field(body@, "ephemeral"@, JsonView::Bool(true))
        },
{
    let fields = Seq::<(Seq<char>, JsonView)>::empty().push(("name"@, JsonView::Text(name@))).push(
        ("ephemeral"@, JsonView::Bool(true)),
    );
    reveal_strlit("name");
    reveal_strlit("ephemeral");
    assert(fields[0].0 == "name"@);
    assert(fields[1].0 == "ephemeral"@);
    assert(fields.len() == 2);
    assert forall|i: int, j: int| 0 <= i < j < fields.len() implies (#[trigger] fields[i]).0 != (
    #[trigger] fields[j]).0 by {
        assert(fields[i].0.len() != fields[j].0.len());
    }
    json::lemma_fields(fields);
}

/// A registration stands only where the runner that was read back is ephemeral, and
/// then it is the one that was made.
pub proof fn law_only_an_ephemeral_runner_is_confirmed(
    registration: Registration,
    runner: &Runner,
    name: &str,
    res: Result<Registration, String>,
    held: Result<(), String>,
)
    requires
        call_ensures(confirmed, (registration, runner, name), res),
        call_ensures(require_ephemeral, (runner, name), held),
    ensures
        res is Ok <==> runner.ephemeral,
        held is Ok <==> runner.ephemeral,
        res matches Ok(kept) ==> kept == registration,
{
}

/// A status is posted on the commit, with the token for statuses: its state, its
/// context, its description, cut to a hundred characters, and the address it leads to,
/// each under its key.
pub proof fn law_a_status_says_what_it_is_about(
    client: &Client,
    repo: &Repo,
    sha: &str,
    state: StatusState,
    context: &str,
    description: &str,
    target_url: Option<&str>,
    call: Call,
)
    requires
        call_ensures(
            Client::set_status,
            (client, repo, sha, state, context, description, target_url),
            call,
        ),
    ensures
        goes_to(
            *client,
            call,
            Method::Post,
            *repo,
            "/statuses/"@ + sha@,
            client.status_token@,
        ),
        call.payload matches Payload::Json(body) && {
            &&& json::has_field(
                body@,
                "state"@,
                JsonView::Text(
                    match state {
                        StatusState::Pending => "pending"@,
                        StatusState::Error => "error"@,
                        StatusState::Success => "success"@,
                    },
                ),
            )
            &&& json::has_field(body@, "context"@, JsonView::Text(context@))
            &&& description@.len() <= 100 ==> json::has_field(
                body@,
                "description"@,
                JsonView::Text(description@),
            )
            &&& description@.len() > 100 ==> json::has_field(
                body@,
                "description"@,
                JsonView::Text(description@.take(100) + "…"@),
            )
            &&& json::has_field(
                body@,
                "target_url"@,
                JsonView::Text(
                    match target_url {
                        Some(url) => url@,
                        None => ""@,
                    },
                ),
            )
        },
{
    let at = client.url@ + "/api/v1/repos/"@ + repo.owner@ + "/"@ + repo.name@;
    assert(call.url@ =~= at + ("/statuses/"@ + sha@));
    let fields = status_body(
        state,
        context@,
        description@,
        match target_url {
            Some(url) => Some(url@),
            None => None,
        },
    )->Object_0;
    reveal_strlit("state");
    reveal_strlit("context");
    reveal_strlit("description");
    reveal_strlit("target_url");
    assert(fields[0].0 == "state"@);
    assert(fields[1].0 == "context"@);
    assert(fields[2].0 == "description"@);
    assert(fields[3].0 == "target_url"@);
    assert(fields.len() == 4);
    assert forall|i: int, j: int| 0 <= i < j < fields.len() implies (#[trigger] fields[i]).0 != (
    #[trigger] fields[j]).0 by {
        assert(fields[i].0.len() != fields[j].0.len());
    }
    json::lemma_fields(fields);
}

/// A text within the limit is kept; any other is cut to the limit and told to be.
pub proof fn law_a_long_text_is_cut(value: &str, limit: usize, res: String)
    requires
        call_ensures(truncate, (value, limit), res),
    ensures
        value@.len() <= limit ==> res@ == value@,
        value@.len() > limit ==> res@ == value@.take(limit as int) + "…"@,
{
}

/// The address of an instance is kept without the slashes at its end.
pub proof fn law_the_address_ends_in_no_slash(
    url: &str,
    runner_token: String,
    status_token: String,
    client: Client,
)
    requires
        call_ensures(Client::new, (url, runner_token, status_token), client),
    ensures
        client.url@.len() <= url@.len(),
        client.url@ == url@.take(client.url@.len() as int),
        forall|i: int| client.url@.len() <= i < url@.len() ==> #[trigger] url@[i] == '/',
        client.url@.len() > 0 ==> client.url@.last() != '/',
        client.runner_token@ == runner_token@,
        client.status_token@ == status_token@,
{
    text::lemma_trimmed_end(url@, '/');
}

/// An answer is a success from 200 on and below 300; a runner that is not found is
/// deleted too.
pub proof fn law_answers_go_by_their_code(
    reply: &Reply,
    what: &str,
    plain: Result<(), String>,
    gone: Result<(), String>,
)
    requires
        call_ensures(expect_success, (reply, what), plain),
        call_ensures(runner_deleted, (reply,), gone),
    ensures
        plain is Ok <==> 200 <= reply.code < 300,
        gone is Ok <==> 200 <= reply.code < 300 || reply.code == 404,
{
}

} // verus!
