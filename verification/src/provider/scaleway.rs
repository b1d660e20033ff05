//! Scaleway.

use vstd::prelude::*;

use crate::http;
use crate::http::{Call, CallView, Method, Payload, PayloadView, Reply};
use crate::json;
use crate::json::{Fields, Json, JsonView};
use crate::text;

verus! {

pub const API: &'static str = "https://api.scaleway.com/instance/v1";

pub const BLOCK_API: &'static str = "https://api.scaleway.com/block/v1";

pub const AUTH_HEADER: &'static str = "X-Auth-Token";

pub const ROOT_VOLUME_BYTES: u64 = 80_000_000_000;

pub const ROOT_VOLUME_TYPE: &'static str = "sbs_volume";

pub const PER_PAGE: u32 = 100;

/// How long to wait before asking again, in seconds.
pub const POLL_INTERVAL: u64 = 5;

/// How long a volume may take to come off its instance, in nanoseconds.
pub const DETACH_TIMEOUT: u64 = 120_000_000_000;

pub struct Scaleway {
    pub token: String,
    pub project_id: String,
    pub zones: Vec<String>,
}

#[derive(Debug)]
pub struct Server {
    pub id: String,
    pub state: Option<String>,
    /// The volumes, in the order of their slots.
    pub volumes: Vec<Volume>,
}

#[derive(Debug)]
pub struct Volume {
    pub id: String,
    pub volume_type: String,
}

pub open spec fn credential(scaleway: Scaleway) -> (Seq<char>, Seq<char>) {
    (AUTH_HEADER@, scaleway.token@)
}

/// Where the instances of a zone are.
pub open spec fn scope_of(zone: Seq<char>) -> Seq<char> {
    API@ + "/zones/"@ + zone + "/servers"@
}

/// The document an instance is ordered with. A type with no local disk takes
/// the image's own small size unless the root volume is sized.
pub open spec fn body_of(
    name: Seq<char>,
    plan: Seq<char>,
    image: Seq<char>,
    project: Seq<char>,
) -> JsonView {
    let root = JsonView::Object(
        Seq::empty().push(("name"@, JsonView::Text(name + "-root"@))).push(
            ("volume_type"@, JsonView::Text(ROOT_VOLUME_TYPE@)),
        ).push(("size"@, JsonView::Number(ROOT_VOLUME_BYTES as int))),
    );
    JsonView::Object(
        Seq::empty().push(("name"@, JsonView::Text(name))).push(
            ("commercial_type"@, JsonView::Text(plan)),
        ).push(("image"@, JsonView::Text(image))).push(
            ("project"@, JsonView::Text(project)),
        ).push(("dynamic_ip_required"@, JsonView::Bool(true))).push(
            ("volumes"@, JsonView::Object(Seq::empty().push(("0"@, root)))),
        ),
    )
}

/// What is told of an ssh key, which the API has no field for.
pub open spec fn ssh_key_text() -> Seq<char> {
    "scaleway: the Instance API takes no ssh key, every key of the project is injected at boot; drop ssh_key from this label"@
}

/// The document an instance is ordered with.
pub fn create_body(
    name: &str,
    plan: &str,
    image: &str,
    project: &str,
    ssh_key: Option<&str>,
) -> (res: Result<Json, String>)
    ensures
        match res {
            Ok(body) => ssh_key is None && body@ == body_of(name@, plan@, image@, project@),
            Err(why) => ssh_key is Some && why@ == ssh_key_text(),
        },
{
    if ssh_key.is_some() {
        return Err(
            "scaleway: the Instance API takes no ssh key, every key of the project is injected at boot; drop ssh_key from this label".to_owned(),
        );
    }
    let volume_name = name.to_owned().concat("-root");
    let root = Fields::new().with("name", Json::text(volume_name.as_str())).with(
        "volume_type",
        Json::text(ROOT_VOLUME_TYPE),
    ).with("size", Json::unsigned(ROOT_VOLUME_BYTES)).object();
    Ok(
        Fields::new().with("name", Json::text(name)).with(
            "commercial_type",
            Json::text(plan),
        ).with("image", Json::text(image)).with("project", Json::text(project)).with(
            "dynamic_ip_required",
            Json::flag(true),
        ).with("volumes", Fields::new().with("0", root).object()).object(),
    )
}

pub fn machine_id(zone: &str, server: &str) -> (res: String)
    ensures
        res@ == super::composite_id(zone@, server@),
{
    zone.to_owned().concat("/").concat(server)
}

/// The zone and the server of an id: what stands before and behind its first slash.
pub fn split_id(id: &str) -> (res: Result<(&str, &str), String>)
    ensures
        match res {
            Ok((zone, server)) => super::splits_into(id@, zone@, server@),
            Err(why) => !id@.contains('/') && why@ == "scaleway: instance id "@
                + text::debug_text(id@) + " is not <zone>/<uuid>"@,
        },
{
    match text::split_once(id, '/') {
        Some((zone, server)) => {
            proof {
                reveal_strlit("/");
                assert("/"@ =~= seq!['/']);
            }
            Ok((zone, server))
        },
        None => {
            let shown = text::quoted(id);
            Err(
                "scaleway: instance id ".to_owned().concat(shown.as_str()).concat(
                    " is not <zone>/<uuid>",
                ),
            )
        },
    }
}

/// The block volumes among the first `n`.
pub open spec fn block_volumes(volumes: Seq<Volume>, n: nat) -> Seq<Seq<char>>
    decreases n,
{
    if n == 0 {
        Seq::empty()
    } else {
        let rest = block_volumes(volumes, (n - 1) as nat);
        if volumes[n - 1].volume_type@ == ROOT_VOLUME_TYPE@ {
            rest.push(volumes[n - 1].id@)
        } else {
            rest
        }
    }
}

/// The volumes that outlive their instance: terminating one deletes local
/// volumes, a block volume it only detaches.
pub fn block_volumes_of(server: &Server) -> (res: Vec<String>)
    ensures
        text::texts(res@) == block_volumes(server.volumes@, server.volumes@.len()),
{
    let mut res: Vec<String> = Vec::new();
    let mut i: usize = 0;
    proof {
        assert(text::texts(res@) =~= Seq::<Seq<char>>::empty());
    }
    while i < server.volumes.len()
        invariant
            i <= server.volumes@.len(),
            text::texts(res@) == block_volumes(server.volumes@, i as nat),
        decreases server.volumes@.len() - i,
    {
        let volume = &server.volumes[i];
        if text::same(volume.volume_type.as_str(), ROOT_VOLUME_TYPE) {
            text::add_to(&mut res, volume.id.clone());
        }
        i += 1;
    }
    res
}

/// Only a running instance can be terminated; any other has to be deleted.
pub fn terminable(state: Option<&str>) -> (res: bool)
    ensures
        res == (super::optional_str(state) == Some("running"@)),
{
    match state {
        Some(state) => text::same(state, "running"),
        None => false,
    }
}

/// What is told about the end of an instance, by the way its state allows.
pub fn ending(state: Option<&str>) -> (res: &'static str)
    ensures
        res@ == if super::optional_str(state) == Some("running"@) {
            "scaleway: acting on instance"@
        } else {
            "scaleway: deleting instance"@
        },
{
    if terminable(state) {
        "scaleway: acting on instance"
    } else {
        "scaleway: deleting instance"
    }
}

/// The page that follows one that held `read` instances: a full page may be
/// followed by another, as far as pages can be counted.
pub fn next_page(page: u32, read: usize) -> (res: Option<u32>)
    ensures
        res == if read >= PER_PAGE && page < u32::MAX {
            Some((page + 1) as u32)
        } else {
            None
        },
{
    if read >= PER_PAGE as usize && page < u32::MAX {
        Some(page + 1)
    } else {
        None
    }
}

/// What is told about the deletion of a volume.
pub open spec fn volume_what(zone: Seq<char>, volume: Seq<char>) -> Seq<char> {
    "scaleway: deleting root volume "@ + zone + "/"@ + volume
}

pub fn deleting_volume(zone: &str, volume: &str) -> (res: String)
    ensures
        res@ == volume_what(zone@, volume@),
{
    "scaleway: deleting root volume ".to_owned().concat(zone).concat("/").concat(volume)
}

/// What becomes of the deletion of a volume: it is refused as long as the volume
/// is in use, so it is asked for again until it is gone or time is up.
pub open spec fn volume_outcome(
    zone: Seq<char>,
    volume: Seq<char>,
    reply: Reply,
    waited: u64,
) -> Option<Result<(), Seq<char>>> {
    if http::succeeded(reply.code) || reply.code == http::NOT_FOUND {
        Some(Ok(()))
    } else if waited >= DETACH_TIMEOUT {
        Some(
            Err(
                http::refused_text(
                    volume_what(zone, volume),
                    reply,
                    text::clipped(reply.body@, super::BODY_LIMIT as nat),
                ),
            ),
        )
    } else {
        None
    }
}

/// What becomes of the deletion of a volume, or nothing if it is to be asked for
/// again; `waited` is how long it has been asked for, in nanoseconds.
pub fn volume_deleted(zone: &str, volume: &str, reply: &Reply, waited: u64) -> (res: Option<
    Result<(), String>,
>)
    ensures
        volume_outcome(zone@, volume@, *reply, waited) == match res {
            Some(Ok(())) => Some(Ok::<(), Seq<char>>(())),
            Some(Err(why)) => Some(Err::<(), Seq<char>>(why@)),
            None => None,
        },
{
    if http::is_success(reply.code) || reply.code == http::NOT_FOUND || waited >= DETACH_TIMEOUT {
        let what = deleting_volume(zone, volume);
        Some(super::expect_gone(reply, what.as_str()))
    } else {
        None
    }
}

impl Scaleway {
    fn scope(&self, zone: &str) -> (res: String)
        ensures
            res@ == scope_of(zone@),
    {
        API.to_owned().concat("/zones/").concat(zone).concat("/servers")
    }

    fn call(&self, method: Method, url: String) -> (res: Call)
        ensures
            res@ == http::bare(method, url@, credential(*self)),
    {
        Call::new(method, url, AUTH_HEADER, self.token.clone())
    }

    /// Orders an instance, which is not yet started.
    pub fn create(
        &self,
        name: &str,
        plan: &str,
        location: &str,
        image: &str,
        ssh_key: Option<&str>,
    ) -> (res: Result<Call, String>)
        ensures
            match res {
                Ok(call) => ssh_key is None && call@ == (CallView {
                    payload: PayloadView::Json(
                        body_of(name@, plan@, image@, self.project_id@),
                    ),
                    ..http::bare(Method::Post, scope_of(location@), credential(*self))
                }),
                Err(why) => ssh_key is Some && why@ == ssh_key_text(),
            },
    {
        match create_body(name, plan, image, self.project_id.as_str(), ssh_key) {
            Ok(body) => Ok(self.call(Method::Post, self.scope(location)).sending(body)),
            Err(why) => Err(why),
        }
    }

    /// Gives an instance its user data, which is no field of the order and only
    /// ever plain text.
    pub fn set_user_data(&self, zone: &str, server: &str, user_data: &str) -> (res: Call)
        ensures
            res@ == (CallView {
                payload: PayloadView::Plain(user_data@),
                ..http::bare(
                    Method::Patch,
                    scope_of(zone@) + "/"@ + server@ + "/user_data/cloud-init"@,
                    credential(*self),
                )
            }),
    {
        let url = self.scope(zone).concat("/").concat(server).concat("/user_data/cloud-init");
        self.call(Method::Patch, url).sending_text(user_data.to_owned())
    }

    /// Asks for an action on an instance, such as `poweron` or `terminate`.
    pub fn act(&self, zone: &str, server: &str, action: &str) -> (res: Call)
        ensures
            res@ == (CallView {
                payload: PayloadView::Json(
                    JsonView::Object(Seq::empty().push(("action"@, JsonView::Text(action@)))),
                ),
                ..http::bare(
                    Method::Post,
                    scope_of(zone@) + "/"@ + server@ + "/action"@,
                    credential(*self),
                )
            }),
    {
        let url = self.scope(zone).concat("/").concat(server).concat("/action");
        let body = Fields::new().with("action", Json::text(action)).object();
        self.call(Method::Post, url).sending(body)
    }

    /// Asks for an instance.
    pub fn inspect(&self, zone: &str, server: &str) -> (res: Call)
        ensures
            res@ == http::bare(
                Method::Get,
                scope_of(zone@) + "/"@ + server@,
                credential(*self),
            ),
    {
        self.call(Method::Get, self.scope(zone).concat("/").concat(server))
    }

    /// Deletes an instance that does not run.
    pub fn delete_server(&self, zone: &str, server: &str) -> (res: Call)
        ensures
            res@ == http::bare(
                Method::Delete,
                scope_of(zone@) + "/"@ + server@,
                credential(*self),
            ),
    {
        self.call(Method::Delete, self.scope(zone).concat("/").concat(server))
    }

    /// Ends an instance, in the way its state allows.
    pub fn end(&self, zone: &str, server: &str, state: Option<&str>) -> (res: Call)
        ensures
            res@ == if super::optional_str(state) == Some("running"@) {
                CallView {
                    payload: PayloadView::Json(
                        JsonView::Object(
                            Seq::empty().push(("action"@, JsonView::Text("terminate"@))),
                        ),
                    ),
                    ..http::bare(
                        Method::Post,
                        scope_of(zone@) + "/"@ + server@ + "/action"@,
                        credential(*self),
                    )
                }
            } else {
                http::bare(Method::Delete, scope_of(zone@) + "/"@ + server@, credential(*self))
            },
    {
        if terminable(state) {
            self.act(zone, server, "terminate")
        } else {
            self.delete_server(zone, server)
        }
    }

    /// What starts an instance that was ordered: its user data, and only then the power.
    pub fn launch(&self, zone: &str, server: &str, user_data: &str) -> (res: (Call, Call))
        ensures
            res.0@ == (CallView {
                payload: PayloadView::Plain(user_data@),
                ..http::bare(
                    Method::Patch,
                    scope_of(zone@) + "/"@ + server@ + "/user_data/cloud-init"@,
                    credential(*self),
                )
            }),
            res.1@ == (CallView {
                payload: PayloadView::Json(
                    JsonView::Object(Seq::empty().push(("action"@, JsonView::Text("poweron"@)))),
                ),
                ..http::bare(
                    Method::Post,
                    scope_of(zone@) + "/"@ + server@ + "/action"@,
                    credential(*self),
                )
            }),
    {
        (
            self.set_user_data(zone, server, user_data),
            self.act(zone, server, "poweron"),
        )
    }

    /// Deletes a volume.
    pub fn delete_volume(&self, zone: &str, volume: &str) -> (res: Call)
        ensures
            res@ == http::bare(
                Method::Delete,
                BLOCK_API@ + "/zones/"@ + zone@ + "/volumes/"@ + volume@,
                credential(*self),
            ),
    {
        let url = BLOCK_API.to_owned().concat("/zones/").concat(zone).concat("/volumes/").concat(
            volume,
        );
        self.call(Method::Delete, url)
    }

    /// Asks for one page of the instances of a zone.
    pub fn list(&self, zone: &str, page: u32) -> (res: Call)
        ensures
            res@ == (CallView {
                query: Seq::empty().push(("project"@, self.project_id@)).push(
                    ("per_page"@, text::decimal_of(PER_PAGE as nat)),
                ).push(("page"@, text::decimal_of(page as nat))),
                ..http::bare(Method::Get, scope_of(zone@), credential(*self))
            }),
    {
        self.call(Method::Get, self.scope(zone)).asking("project", self.project_id.clone()).asking(
            "per_page",
            text::decimal(PER_PAGE as u64),
        ).asking("page", text::decimal(page as u64))
    }
}

/// An id that was put together comes apart into the same parts, as long as the
/// zone holds no slash.
pub proof fn law_split_id_inverts_machine_id(
    zone: Seq<char>,
    server: Seq<char>,
    a: Seq<char>,
    b: Seq<char>,
)
    requires
        !zone.contains('/'),
        super::splits_into(super::composite_id(zone, server), a, b),
    ensures
        a == zone,
        b == server,
{
    reveal_strlit("/");
    assert("/"@ =~= seq!['/']);
    text::lemma_split_unique(zone, server, a, b, '/');
}

/// Every block volume of an instance is deleted with it, and no other volume.
pub proof fn law_block_volumes(volumes: Seq<Volume>, n: nat, id: Seq<char>)
    requires
        n <= volumes.len(),
    ensures
        block_volumes(volumes, n).contains(id) <==> exists|i: int|
            0 <= i < n && (#[trigger] volumes[i]).volume_type@ == ROOT_VOLUME_TYPE@
                && volumes[i].id@ == id,
    decreases n,
{
    if n > 0 {
        law_block_volumes(volumes, (n - 1) as nat, id);
        text::lemma_contains_push(block_volumes(volumes, (n - 1) as nat), volumes[n - 1].id@);
        if block_volumes(volumes, n).contains(id) {
            if !block_volumes(volumes, (n - 1) as nat).contains(id) {
                assert(volumes[n - 1].id@ == id);
            }
        }
    }
}

/// The document orders this instance: under each key stands what the API takes there,
/// nothing stands under a key twice, and the root volume is a block volume of eighty
/// gigabytes.
pub open spec fn is_order(
    document: JsonView,
    name: Seq<char>,
    plan: Seq<char>,
    image: Seq<char>,
    project: Seq<char>,
) -> bool {
    &&& json::has_field(document, "name"@, JsonView::Text(name))
    &&& json::has_field(document, "commercial_type"@, JsonView::Text(plan))
    &&& json::has_field(document, "image"@, JsonView::Text(image))
    &&& json::has_field(document, "project"@, JsonView::Text(project))
    &&& json::has_field(document, "dynamic_ip_required"@, JsonView::Bool(true))
    &&& exists|volumes: JsonView, root: JsonView|
        {
            &&& #[trigger] json::has_field(document, "volumes"@, volumes)
            &&& #[trigger] json::has_field(volumes, "0"@, root)
            &&& volumes->Object_0.len() == 1
            &&& json::has_field(root, "name"@, JsonView::Text(name + "-root"@))
            &&& json::has_field(root, "volume_type"@, JsonView::Text("sbs_volume"@))
            &&& json::has_field(root, "size"@, JsonView::Number(80_000_000_000))
        }
}

proof fn lemma_is_order(
    name: Seq<char>,
    plan: Seq<char>,
    image: Seq<char>,
    project: Seq<char>,
)
    ensures
        is_order(body_of(name, plan, image, project), name, plan, image, project),
{
    let document = body_of(name, plan, image, project);
    let fields = document->Object_0;
    reveal_strlit("name");
    reveal_strlit("commercial_type");
    reveal_strlit("image");
    reveal_strlit("project");
    reveal_strlit("dynamic_ip_required");
    reveal_strlit("volumes");
    assert("project"@[0] != "volumes"@[0]);
    assert(fields[0].0 == "name"@);
    assert(fields[1].0 == "commercial_type"@);
    assert(fields[2].0 == "image"@);
    assert(fields[3].0 == "project"@);
    assert(fields[4].0 == "dynamic_ip_required"@);
    assert(fields[5].0 == "volumes"@);
    assert(fields.len() == 6);
    assert forall|i: int, j: int| 0 <= i < j < fields.len() implies (#[trigger] fields[i]).0 != (
    #[trigger] fields[j]).0 by {
        assert(fields[i].0.len() != fields[j].0.len() || (i == 3 && j == 5));
    }
    json::lemma_fields(fields);
    let volumes = fields[5].1;
    let slots = volumes->Object_0;
    json::lemma_fields(slots);
    assert(slots[0].0 == "0"@);
    let root = slots[0].1;
    let parts = root->Object_0;
    reveal_strlit("name");
    reveal_strlit("volume_type");
    reveal_strlit("size");
    assert("name"@[0] != "size"@[0]);
    assert(parts[0].0 == "name"@);
    assert(parts[1].0 == "volume_type"@);
    assert(parts[2].0 == "size"@);
    assert(parts.len() == 3);
    assert forall|i: int, j: int| 0 <= i < j < parts.len() implies (#[trigger] parts[i]).0 != (
    #[trigger] parts[j]).0 by {
        assert(parts[i].0.len() != parts[j].0.len() || (i == 0 && j == 2));
    }
    json::lemma_fields(parts);
    assert(json::has_field(document, "volumes"@, volumes));
    assert(json::has_field(volumes, "0"@, root));
}

/// An instance is ordered by name, plan, image and project, each under the key the
/// API takes it under. An ssh key, which the API has no place for, is refused.
pub proof fn law_an_order_says_what_is_wanted(
    name: &str,
    plan: &str,
    image: &str,
    project: &str,
    ssh_key: Option<&str>,
    res: Result<Json, String>,
)
    requires
        call_ensures(create_body, (name, plan, image, project, ssh_key), res),
    ensures
        res is Ok <==> ssh_key is None,
        res matches Ok(body) ==> is_order(body@, name@, plan@, image@, project@),
{
    lemma_is_order(name@, plan@, image@, project@);
}

/// The request goes to this place of a zone, as this method, with the token.
pub open spec fn goes_to(
    scaleway: Scaleway,
    call: Call,
    method: Method,
    zone: Seq<char>,
    path: Seq<char>,
) -> bool {
    &&& call.method == method
    &&& call.url@ == "https://api.scaleway.com/instance/v1/zones/"@ + zone + "/servers"@ + path
    &&& call.credential.0@ == "X-Auth-Token"@
    &&& call.credential.1@ == scaleway.token@
}

proof fn lemma_scope(zone: Seq<char>)
    ensures
        scope_of(zone) == "https://api.scaleway.com/instance/v1/zones/"@ + zone + "/servers"@,
{
    reveal_strlit("https://api.scaleway.com/instance/v1");
    reveal_strlit("/zones/");
    reveal_strlit("https://api.scaleway.com/instance/v1/zones/");
    assert("https://api.scaleway.com/instance/v1"@ + "/zones/"@
        =~= "https://api.scaleway.com/instance/v1/zones/"@);
}

/// An order is posted to the instances of the location, for the project.
pub proof fn law_an_order_is_posted(
    scaleway: &Scaleway,
    name: &str,
    plan: &str,
    location: &str,
    image: &str,
    ssh_key: Option<&str>,
    res: Result<Call, String>,
)
    requires
        call_ensures(Scaleway::create, (scaleway, name, plan, location, image, ssh_key), res),
    ensures
        res is Ok <==> ssh_key is None,
        res matches Ok(call) ==> {
            &&& goes_to(*scaleway, call, Method::Post, location@, Seq::empty())
            &&& call.query@.len() == 0
            &&& call.payload matches Payload::Json(body)
            &&& is_order(body@, name@, plan@, image@, scaleway.project_id@)
        },
{
    lemma_scope(location@);
    lemma_is_order(name@, plan@, image@, scaleway.project_id@);
    if let Ok(call) = res {
        assert(call@.query.len() == 0);
        assert(scope_of(location@) + Seq::<char>::empty() =~= scope_of(location@));
    }
}

/// An instance is given its user data as plain text, and is powered on by an action
/// that is sent after it.
pub proof fn law_an_instance_is_told_before_it_starts(
    scaleway: &Scaleway,
    zone: &str,
    server: &str,
    user_data: &str,
    res: (Call, Call),
)
    requires
        call_ensures(Scaleway::launch, (scaleway, zone, server, user_data), res),
    ensures
        goes_to(
            *scaleway,
            res.0,
            Method::Patch,
            zone@,
            "/"@ + server@ + "/user_data/cloud-init"@,
        ),
        res.0.payload matches Payload::Plain(body) && body@ == user_data@,
        goes_to(*scaleway, res.1, Method::Post, zone@, "/"@ + server@ + "/action"@),
        res.1.payload matches Payload::Json(body) && json::has_field(
            body@,
            "action"@,
            JsonView::Text("poweron"@),
        ),
{
    lemma_scope(zone@);
    lemma_one_field("action"@, JsonView::Text("poweron"@));
    assert(res.0.url@ =~= scope_of(zone@) + ("/"@ + server@ + "/user_data/cloud-init"@));
    assert(res.1.url@ =~= scope_of(zone@) + ("/"@ + server@ + "/action"@));
}

proof fn lemma_one_field(key: Seq<char>, value: JsonView)
    ensures
        json::has_field(JsonView::Object(Seq::empty().push((key, value))), key, value),
{
    let fields = Seq::<(Seq<char>, JsonView)>::empty().push((key, value));
    json::lemma_fields(fields);
    assert(fields[0] == (key, value));
}

/// Each step of a launch can also be taken alone: the user data that is set is what
/// is given, and the action that is asked for is the one that is named.
pub proof fn law_steps_do_what_they_say(
    scaleway: &Scaleway,
    zone: &str,
    server: &str,
    user_data: &str,
    action: &str,
    telling: Call,
    acting: Call,
)
    requires
        call_ensures(Scaleway::set_user_data, (scaleway, zone, server, user_data), telling),
        call_ensures(Scaleway::act, (scaleway, zone, server, action), acting),
    ensures
        goes_to(
            *scaleway,
            telling,
            Method::Patch,
            zone@,
            "/"@ + server@ + "/user_data/cloud-init"@,
        ),
        telling.payload matches Payload::Plain(body) && body@ == user_data@,
        goes_to(*scaleway, acting, Method::Post, zone@, "/"@ + server@ + "/action"@),
        acting.payload matches Payload::Json(body) && json::has_field(
            body@,
            "action"@,
            JsonView::Text(action@),
        ),
{
    lemma_scope(zone@);
    lemma_one_field("action"@, JsonView::Text(action@));
    assert(telling.url@ =~= scope_of(zone@) + ("/"@ + server@ + "/user_data/cloud-init"@));
    assert(acting.url@ =~= scope_of(zone@) + ("/"@ + server@ + "/action"@));
}

/// A running instance is terminated, and every other one is deleted.
pub proof fn law_an_instance_ends_by_its_state(
    scaleway: &Scaleway,
    zone: &str,
    server: &str,
    state: Option<&str>,
    call: Call,
    what: &'static str,
)
    requires
        call_ensures(Scaleway::end, (scaleway, zone, server, state), call),
        call_ensures(ending, (state,), what),
    ensures
        (state matches Some(known) && known@ == "running"@) ==> {
            &&& goes_to(*scaleway, call, Method::Post, zone@, "/"@ + server@ + "/action"@)
            &&& call.payload matches Payload::Json(body)
            &&& json::has_field(body@, "action"@, JsonView::Text("terminate"@))
            &&& what@ == "scaleway: acting on instance"@
        },
        !(state matches Some(known) && known@ == "running"@) ==> {
            &&& goes_to(*scaleway, call, Method::Delete, zone@, "/"@ + server@)
            &&& call.payload is Empty
            &&& what@ == "scaleway: deleting instance"@
        },
{
    lemma_scope(zone@);
    lemma_one_field("action"@, JsonView::Text("terminate"@));
    let at = scope_of(zone@) + "/"@ + server@;
    assert(at =~= scope_of(zone@) + ("/"@ + server@));
    assert(at + "/action"@ =~= scope_of(zone@) + ("/"@ + server@ + "/action"@));
}

/// The instance that is looked at, and the one that is deleted, is the one that was
/// named, and so is the volume.
pub proof fn law_what_is_named_is_asked_about(
    scaleway: &Scaleway,
    zone: &str,
    server: &str,
    volume: &str,
    inspecting: Call,
    deleting: Call,
    freeing: Call,
)
    requires
        call_ensures(Scaleway::inspect, (scaleway, zone, server), inspecting),
        call_ensures(Scaleway::delete_server, (scaleway, zone, server), deleting),
        call_ensures(Scaleway::delete_volume, (scaleway, zone, volume), freeing),
    ensures
        goes_to(*scaleway, inspecting, Method::Get, zone@, "/"@ + server@),
        goes_to(*scaleway, deleting, Method::Delete, zone@, "/"@ + server@),
        freeing.method == Method::Delete,
        freeing.url@ == "https://api.scaleway.com/block/v1"@ + "/zones/"@ + zone@
            + "/volumes/"@ + volume@,
        freeing.credential.0@ == "X-Auth-Token"@,
        freeing.credential.1@ == scaleway.token@,
{
    lemma_scope(zone@);
    assert(inspecting.url@ =~= scope_of(zone@) + ("/"@ + server@));
    assert(deleting.url@ =~= scope_of(zone@) + ("/"@ + server@));
}

/// The instances of a zone are listed for the project, a hundred to a page, and a
/// page that is full is followed by the next one.
pub proof fn law_pages_hold_a_hundred(
    scaleway: &Scaleway,
    zone: &str,
    page: u32,
    read: usize,
    listing: Call,
    next: Option<u32>,
)
    requires
        call_ensures(Scaleway::list, (scaleway, zone, page), listing),
        call_ensures(next_page, (page, read), next),
    ensures
        goes_to(*scaleway, listing, Method::Get, zone@, Seq::empty()),
        listing.query@.len() == 3,
        listing.query@[0].0@ == "project"@,
        listing.query@[0].1@ == scaleway.project_id@,
        listing.query@[1].0@ == "per_page"@,
        listing.query@[1].1@ == text::decimal_of(100),
        listing.query@[2].0@ == "page"@,
        listing.query@[2].1@ == text::decimal_of(page as nat),
        read < 100 ==> next is None,
        read >= 100 && page < u32::MAX ==> next == Some((page + 1) as u32),
{
    lemma_scope(zone@);
    assert(scope_of(zone@) + Seq::<char>::empty() =~= scope_of(zone@));
    assert(listing@.query.len() == 3);
    assert(listing@.query[0] == (listing.query@[0].0@, listing.query@[0].1@));
    assert(listing@.query[1] == (listing.query@[1].0@, listing.query@[1].1@));
    assert(listing@.query[2] == (listing.query@[2].0@, listing.query@[2].1@));
}

/// The deletion of a volume is over as soon as the volume is gone, and fails only
/// when it is not gone after two minutes.
pub proof fn law_a_volume_is_waited_for(
    zone: &str,
    volume: &str,
    reply: &Reply,
    waited: u64,
    res: Option<Result<(), String>>,
)
    requires
        call_ensures(volume_deleted, (zone, volume, reply, waited), res),
    ensures
        200 <= reply.code < 300 || reply.code == 404 ==> (res matches Some(outcome) && outcome is Ok),
        !(200 <= reply.code < 300) && reply.code != 404 && waited < 120_000_000_000 ==> res is None,
        !(200 <= reply.code < 300) && reply.code != 404 && waited >= 120_000_000_000 ==> (
        res matches Some(outcome) && outcome is Err),
{
}

/// Of the volumes of an instance exactly the block volumes outlive it, and they come
/// in the order of the slots.
pub proof fn law_block_volumes_outlive(server: &Server, res: Vec<String>)
    requires
        call_ensures(block_volumes_of, (server,), res),
    ensures
        forall|id: Seq<char>| #[trigger]
            text::texts(res@).contains(id) <==> exists|i: int|
                0 <= i < server.volumes@.len() && (
                #[trigger] server.volumes@[i]).volume_type@ == "sbs_volume"@
                    && server.volumes@[i].id@ == id,
        (forall|i: int|
            0 <= i < server.volumes@.len() ==> (
            #[trigger] server.volumes@[i]).volume_type@ == "sbs_volume"@) ==> text::texts(res@)
            == server.volumes@.map_values(|volume: Volume| volume.id@),
{
    let volumes = server.volumes@;
    assert forall|id: Seq<char>| #[trigger]
        text::texts(res@).contains(id) <==> exists|i: int|
            0 <= i < volumes.len() && (#[trigger] volumes[i]).volume_type@ == "sbs_volume"@
                && volumes[i].id@ == id by {
        law_block_volumes(volumes, volumes.len(), id);
    }
    if forall|i: int|
        0 <= i < volumes.len() ==> (#[trigger] volumes[i]).volume_type@ == "sbs_volume"@ {
        lemma_all_block(volumes, volumes.len());
        let ids = volumes.map_values(|volume: Volume| volume.id@);
        assert(ids.take(volumes.len() as int) =~= ids);
    }
}

proof fn lemma_all_block(volumes: Seq<Volume>, n: nat)
    requires
        n <= volumes.len(),
        forall|i: int|
            0 <= i < volumes.len() ==> (#[trigger] volumes[i]).volume_type@ == "sbs_volume"@,
    ensures
        block_volumes(volumes, n) == volumes.map_values(|volume: Volume| volume.id@).take(
            n as int,
        ),
    decreases n,
{
    let ids = volumes.map_values(|volume: Volume| volume.id@);
    if n == 0 {
        assert(ids.take(0) =~= Seq::<Seq<char>>::empty());
    } else {
        lemma_all_block(volumes, (n - 1) as nat);
        assert(ids.take(n as int) =~= ids.take(n - 1).push(ids[n - 1]));
    }
}

/// The parts of an id are what it was put together of.
pub proof fn law_an_id_comes_apart<'a>(
    zone: &str,
    server: &str,
    id: String,
    parts: Result<(&'a str, &'a str), String>,
    whole: &'a str,
)
    requires
        !zone@.contains('/'),
        call_ensures(machine_id, (zone, server), id),
        whole@ == id@,
        call_ensures(split_id, (whole,), parts),
    ensures
        id@ == zone@ + seq!['/'] + server@,
        parts matches Ok((first, second)) && first@ == zone@ && second@ == server@,
{
    reveal_strlit("/");
    assert("/"@ =~= seq!['/']);
    assert(id@[zone@.len() as int] == '/');
    if let Ok((first, second)) = parts {
        law_split_id_inverts_machine_id(zone@, server@, first@, second@);
    }
}

} // verus!
